use plugwise::circle::{add_power_entry, clock_from, power_buffer_start, require_online, timestamp_of};
use plugwise::messages::{DateTime, Pulses, ResClockInfo, ResInitialize, Tm};
use plugwise::{PlError, Plugwise, Stub};

#[test]
fn smoke_external_stub() {
    let mut stub = Plugwise::initialize(Stub::new()).unwrap();
    let circle = stub.create_circle(0x0123456789ABCDEF).unwrap();
    assert_eq!(circle.get_mac(), 0x0123456789ABCDEF);
    circle.switch_on(&mut stub).unwrap();
    assert_eq!(circle.is_switched_on(&mut stub).unwrap(), true);
    circle.switch_off(&mut stub).unwrap();
    assert_eq!(circle.is_switched_on(&mut stub).unwrap(), false);
    circle.get_actual_pulses(&mut stub).unwrap();
    let tm = circle.get_clock(&mut stub).unwrap();
    circle.set_clock(&mut stub, &tm).unwrap();
    circle.get_power_buffer(&mut stub, None).unwrap();
}

#[test]
fn switch_then_observe_relay() {
    let mut stick = Plugwise::initialize(Stub::new()).unwrap();
    let circle = stick.create_circle(0x0123456789ABCDEF).unwrap();
    assert_eq!(circle.is_switched_on(&mut stick).unwrap(), false);
    circle.switch_on(&mut stick).unwrap();
    assert_eq!(circle.is_switched_on(&mut stick).unwrap(), true);
    circle.switch_off(&mut stick).unwrap();
    assert_eq!(circle.is_switched_on(&mut stick).unwrap(), false);
}

#[test]
fn calibration_of_sim_is_all_zero_bits() {
    let mut stick = Plugwise::initialize(Stub::new()).unwrap();
    let circle = stick.create_circle(0x0123456789ABCDEF).unwrap();
    let c = circle.calibration();
    assert_eq!(c.gain_a, 0);
    assert_eq!(c.gain_b, 0);
    assert_eq!(c.off_total, 0);
    assert_eq!(c.off_noise, 0);
    assert_eq!(f32::from_bits(c.gain_a), 0.0);
}

#[test]
fn power_buffer_of_sim_has_four_ascending_entries() {
    let mut stick = Plugwise::initialize(Stub::new()).unwrap();
    let circle = stick.create_circle(0x0123456789ABCDEF).unwrap();
    let map = circle.get_power_buffer(&mut stick, Some(4)).unwrap();
    let entries: Vec<(i64, Pulses)> = map.into_iter().collect();
    assert_eq!(entries.len(), 4);
    assert_eq!(entries[0], (1379178000, Pulses::new(0x7B, 3600)));
    assert_eq!(entries[1], (1379181600, Pulses::new(0x76, 3600)));
    assert_eq!(entries[2], (1379185200, Pulses::new(0x71, 3600)));
    assert_eq!(entries[3], (1379188800, Pulses::new(0x31, 3600)));
    for i in 1..entries.len() {
        assert!(entries[i - 1].0 < entries[i].0);
    }
}

#[test]
fn clock_of_sim_circle() {
    let mut stick = Plugwise::initialize(Stub::new()).unwrap();
    let circle = stick.create_circle(0x0123456789ABCDEF).unwrap();
    let tm = circle.get_clock(&mut stick).unwrap();
    // Info date 0F 04 89B8: 2015-04, minute 35256 of the month.
    assert_eq!(tm.tm_year, 115);
    assert_eq!(tm.tm_mon, 3);
    assert_eq!(tm.tm_mday, 1 + 35256 / 1440);
    assert_eq!(tm.tm_hour, 11);
    assert_eq!(tm.tm_min, 36);
    assert_eq!(tm.tm_sec, 58);
    assert_eq!(tm.tm_wday, 6);
}

#[test]
fn start_of_power_buffer() {
    assert_eq!(power_buffer_start(10, None), 0);
    assert_eq!(power_buffer_start(10, Some(8)), 8);
    assert_eq!(power_buffer_start(10, Some(11)), 8);
    assert_eq!(power_buffer_start(10, Some(3)), 10);
    assert_eq!(power_buffer_start(1, Some(400)), 0);
    assert_eq!(power_buffer_start(2, Some(8)), 0);
}

#[test]
fn invalid_entries_are_dropped() {
    let mut map = std::collections::BTreeMap::new();
    add_power_entry(&mut map, &DateTime::new_raw(13, 13, 0), &Pulses::new(5, 3600));
    add_power_entry(&mut map, &DateTime::new_raw(13, 0, 0), &Pulses::new(5, 3600));
    add_power_entry(&mut map, &DateTime::new_raw(13, 2, 31 * 1440), &Pulses::new(5, 3600));
    assert!(map.is_empty());
    add_power_entry(&mut map, &DateTime::new_raw(13, 9, 0x4D58), &Pulses::new(2, 3600));
    add_power_entry(&mut map, &DateTime::new_raw(13, 9, 0x4D1C), &Pulses::new(1, 3600));
    add_power_entry(&mut map, &DateTime::new_raw(13, 9, 0x4D58), &Pulses::new(3, 3600));
    let entries: Vec<(i64, Pulses)> = map.into_iter().collect();
    assert_eq!(entries, vec![(1379178000, Pulses::new(1, 3600)), (1379181600, Pulses::new(3, 3600))]);
}

#[test]
fn clock_needs_a_valid_date() {
    let clock = ResClockInfo { hour: 1, minute: 2, second: 3, day_of_week: 7, unknown1: 0, unknown2: 0 };
    assert_eq!(clock_from(&DateTime::new_raw(1, 13, 0), &clock), Err(PlError::InvalidTimestamp));
    let tm = clock_from(&DateTime::new_raw(1, 2, 1440), &clock).unwrap();
    assert_eq!((tm.tm_year, tm.tm_mon, tm.tm_mday), (101, 1, 2));
    assert_eq!((tm.tm_hour, tm.tm_min, tm.tm_sec, tm.tm_wday), (1, 2, 3, 0));
}

#[test]
fn offline_network_is_refused() {
    let mut res = ResInitialize { unknown1: 0, is_online: false, network_id: 0, short_id: 0, unknown2: 0 };
    assert_eq!(require_online(&res), Err(PlError::NotOnline));
    res.is_online = true;
    assert_eq!(require_online(&res), Ok(()));
}

#[test]
fn timestamps_follow_the_calendar() {
    let tm = |y: i32, mon: i32, d: i32, h: i32| Tm {
        tm_sec: 0,
        tm_min: 0,
        tm_hour: h,
        tm_mday: d,
        tm_mon: mon,
        tm_year: y,
        tm_wday: 0,
        tm_yday: 0,
    };
    assert_eq!(timestamp_of(&tm(70, 0, 1, 0)), 0);
    assert_eq!(timestamp_of(&tm(113, 8, 14, 17)), 1379178000);
    assert_eq!(timestamp_of(&tm(100, 1, 29, 0)), 951782400);
    assert_eq!(timestamp_of(&tm(100, 1, 31, 0)), timestamp_of(&tm(100, 2, 2, 0)));
    assert_eq!(timestamp_of(&tm(255, 11, 31, 23)), 5869580400);
}
