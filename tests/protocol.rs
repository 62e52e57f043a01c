use plugwise::messages::{ReqClockSet, Tm};
use plugwise::{Protocol, Stub};

fn now_utc() -> Tm {
    let now = time::now_utc();
    Tm {
        tm_sec: now.tm_sec,
        tm_min: now.tm_min,
        tm_hour: now.tm_hour,
        tm_mday: now.tm_mday,
        tm_mon: now.tm_mon,
        tm_year: now.tm_year,
        tm_wday: now.tm_wday,
        tm_yday: now.tm_yday,
    }
}

#[test]
fn stub_initialize() {
    let port = Stub::new();
    let mut protocol = Protocol::new(port);

    assert_eq!(true, protocol.initialize().unwrap().is_online);
}

#[test]
fn stub_switch_and_info() {
    let mac1 = 0x0123456789abcdef;
    let mac2 = 0xfedcba9876543210;
    let port = Stub::new();
    let mut protocol = Protocol::new(port);

    let info1 = protocol.get_info(mac1).unwrap();
    let info2 = protocol.get_info(mac2).unwrap();

    assert_eq!(false, info1.relay_state);
    assert_eq!(false, info2.relay_state);

    protocol.switch(mac1, true).unwrap();
    protocol.switch(mac2, false).unwrap();

    let info1 = protocol.get_info(mac1).unwrap();
    let info2 = protocol.get_info(mac2).unwrap();

    assert_eq!(true, info1.relay_state);
    assert_eq!(false, info2.relay_state);

    protocol.switch(mac2, true).unwrap();

    let info1 = protocol.get_info(mac1).unwrap();
    let info2 = protocol.get_info(mac2).unwrap();

    assert_eq!(true, info1.relay_state);
    assert_eq!(true, info2.relay_state);

    protocol.switch(mac1, false).unwrap();

    let info1 = protocol.get_info(mac1).unwrap();
    let info2 = protocol.get_info(mac2).unwrap();

    assert_eq!(false, info1.relay_state);
    assert_eq!(true, info2.relay_state);
}

#[test]
fn stub_set_clock() {
    let mac = 0x0123456789abcdef;
    let port = Stub::new();
    let mut protocol = Protocol::new(port);

    protocol.set_clock(mac, ReqClockSet::new_from_tm(&now_utc())).unwrap();
}

#[test]
fn stub_calibrate() {
    let mac = 0x0123456789abcdef;
    let port = Stub::new();
    let mut protocol = Protocol::new(port);

    let _ = protocol.calibrate(mac).unwrap();
}

#[test]
fn stub_get_power_buffer() {
    let mac = 0x0123456789abcdef;
    let port = Stub::new();
    let mut protocol = Protocol::new(port);

    let _ = protocol.get_power_buffer(mac, 0).unwrap();
}

#[test]
fn stub_get_power_usage() {
    let mac = 0x0123456789abcdef;
    let port = Stub::new();
    let mut protocol = Protocol::new(port);

    let _ = protocol.get_power_usage(mac).unwrap();
}

#[test]
fn stub_get_clock_info() {
    let mac = 0x0123456789abcdef;
    let port = Stub::new();
    let mut protocol = Protocol::new(port);

    let _ = protocol.get_clock_info(mac).unwrap();
}

#[test]
fn info_reports_sim_fields() {
    let mut protocol = Protocol::new(Stub::new());
    let info = protocol.get_info(0x0123456789ABCDEF).unwrap();
    assert_eq!(info.hz, 50);
    assert_eq!(info.hw_ver, "653907014023");
    assert_eq!(info.last_logaddr, (0x00048398 - 278528) / 32);
    assert_eq!(info.datetime.year, 0x0F);
    assert_eq!(info.datetime.months, 0x04);
    assert_eq!(info.datetime.minutes, 0x89B8);
    assert_eq!(info.fw_ver, 0x4E0844C2);
    assert_eq!(info.unknown, 2);
}

#[test]
fn power_use_of_sim_is_zero() {
    let mut protocol = Protocol::new(Stub::new());
    let usage = protocol.get_power_usage(1).unwrap();
    assert_eq!(usage.pulse_1s.pulses, 0);
    assert_eq!(usage.pulse_1s.timespan, 1);
    assert_eq!(usage.pulse_8s.timespan, 8);
    assert_eq!(usage.pulse_hour.timespan, 3600);
}

#[test]
fn zero_retries_still_sends_once() {
    let mut protocol = Protocol::new(Stub::new());
    protocol.set_retries(0);
    assert!(protocol.initialize().unwrap().is_online);
}
