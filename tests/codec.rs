use plugwise::hex::{parse_hex_field, push_hex};
use plugwise::messages::{
    addr2pos, pos2addr, Ack, DateTime, Message, MessageId, ReqHeader, ReqPowerBuffer, ReqSwitch,
    ResHeader, Tm, ReqClockSet,
};
use plugwise::raw::RawDataConsumer;
use plugwise::{IoErrorKind, PlError};

#[test]
fn hex_fields_parse_like_radix_16() {
    assert_eq!(parse_hex_field(b"00FF"), Some(255));
    assert_eq!(parse_hex_field(b"ff"), Some(255));
    assert_eq!(parse_hex_field(b"+F"), None);
    assert_eq!(parse_hex_field(b"+0000000000000000"[..16].as_ref()), None);
    assert_eq!(parse_hex_field(b"0G"), None);
    assert_eq!(parse_hex_field(b"-1"), None);
    assert_eq!(parse_hex_field(b"+"), None);
    assert_eq!(parse_hex_field(b""), None);
    assert_eq!(parse_hex_field(b"FFFFFFFFFFFFFFFF"), Some(u64::MAX));
}

#[test]
fn hex_rendering_is_upper_case_and_fixed_width() {
    let mut v = Vec::new();
    push_hex(&mut v, 0xab, 4);
    assert_eq!(v, b"00AB".to_vec());
    push_hex(&mut v, 0x1234, 2);
    assert_eq!(v, b"00AB34".to_vec());
}

#[test]
fn cursor_reads_fields_in_order() {
    let c = RawDataConsumer::new(b"0B243A0601457A");
    let (c, h) = c.decode_u8().unwrap();
    let (c, m) = c.decode_u8().unwrap();
    assert_eq!((h, m), (11, 36));
    assert_eq!(c.get_remaining(), 10);
    assert!(c.check_fully_consumed().is_err());
    let (c, dt) = RawDataConsumer::new(b"0D094D1C").decode_datetime().unwrap();
    assert_eq!(dt, DateTime::new_raw(13, 9, 0x4D1C));
    assert_eq!(c.check_fully_consumed(), Ok(()));
    assert!(RawDataConsumer::new(b"0D094").decode_u32().is_err());
    assert!(RawDataConsumer::new(b"0D+94D1C").decode_datetime().is_err());
    assert!(RawDataConsumer::new(b"+D094D1C").decode_datetime().is_err());
    assert!(RawDataConsumer::new(b"+F").decode_u8().is_err());
}

#[test]
fn strings_must_be_utf8() {
    let (_, s) = RawDataConsumer::new(b"653907014023").decode_string(12).unwrap();
    assert_eq!(s, "653907014023");
    assert_eq!(RawDataConsumer::new(&[0xff, 0x41]).decode_string(2).err(), Some(PlError::Protocol));
    let (rest, s) = RawDataConsumer::new("\u{e9}AB".as_bytes()).decode_string(3).unwrap();
    assert_eq!(s.chars().count(), 2);
    assert_eq!(s, "\u{e9}A");
    assert_eq!(rest.get_remaining(), 1);
    assert_eq!(RawDataConsumer::new(&[0xc3]).decode_string(1).err(), Some(PlError::Protocol));
    assert_eq!(RawDataConsumer::new(b"AB").decode_string(3).err(), Some(PlError::Protocol));
}

#[test]
fn clock_info_response_decodes() {
    match Message::from_payload(b"003F00000123456789ABCDEF0B243A0601457A").unwrap() {
        Message::ResClockInfo(h, c) => {
            assert_eq!(h.msgid, MessageId::ResClockInfo);
            assert_eq!(h.mac, 0x0123456789ABCDEF);
            assert_eq!((c.hour, c.minute, c.second, c.day_of_week), (11, 36, 58, 6));
            assert_eq!((c.unknown1, c.unknown2), (1, 0x457A));
        },
        _ => panic!("wrong variant"),
    }
}

#[test]
fn one_trailing_byte_is_rejected() {
    assert!(Message::from_payload(b"003F00000123456789ABCDEF0B243A0601457A").is_ok());
    assert_eq!(
        Message::from_payload(b"003F00000123456789ABCDEF0B243A0601457A0").err(),
        Some(PlError::Protocol)
    );
    assert!(Message::from_payload(b"000000000000").is_ok());
    assert!(Message::from_payload(b"0000000000000").is_err());
}

#[test]
fn initialize_response_decodes() {
    match Message::from_payload(b"00110000000000000000000001010000000000000000000000").unwrap() {
        Message::ResInitialize(_, r) => {
            assert!(r.is_online);
            assert_eq!(r.network_id, 0);
            assert_eq!(r.short_id, 0);
        },
        _ => panic!("wrong variant"),
    }
}

#[test]
fn ack_carries_optional_mac() {
    match Message::from_payload(b"000000000000").unwrap() {
        Message::Ack(h, a) => {
            assert_eq!(h, ResHeader { msgid: MessageId::Ack, count: 0, mac: 0 });
            assert_eq!(a, Ack { status: 0, mac: None });
        },
        _ => panic!("wrong variant"),
    }
    match Message::from_payload(b"000000010002FEDCBA9876543210").unwrap() {
        Message::Ack(h, a) => {
            assert_eq!(h.count, 1);
            assert_eq!(a, Ack { status: 2, mac: Some(0xFEDCBA9876543210) });
        },
        _ => panic!("wrong variant"),
    }
}

#[test]
fn unknown_identifiers_and_malformed_requests_are_rejected() {
    assert_eq!(Message::from_payload(b"12340000").err(), Some(PlError::Protocol));
    assert_eq!(Message::from_payload(b"00000000+000000000000000").err(), Some(PlError::Protocol));
    assert_eq!(
        Message::from_payload(b"002300000123456789ABCDEF").err(),
        Some(PlError::Protocol)
    );
    assert_eq!(Message::from_payload(b"00").err(), Some(PlError::Protocol));
    assert_eq!(MessageId::new(0x1234), None);
    assert_eq!(MessageId::new(0x0049), Some(MessageId::ResPowerBuffer));
    assert_eq!(MessageId::ResClockInfo.as_bytes(), b"003F".to_vec());
}

#[test]
fn requests_encode() {
    let m = Message::ReqSwitch(ReqHeader { mac: 0x0123456789ABCDEF }, ReqSwitch { on: true });
    assert_eq!(m.to_payload().unwrap(), b"00170123456789ABCDEF01".to_vec());
    assert_eq!(Message::ReqInitialize.to_payload().unwrap(), b"000A".to_vec());
    let m = Message::ReqPowerBuffer(ReqHeader { mac: 1 }, ReqPowerBuffer { logaddr: 0 });
    assert_eq!(m.to_payload().unwrap(), b"0048000000000000000100044000".to_vec());
    let tm = Tm {
        tm_sec: 5,
        tm_min: 4,
        tm_hour: 3,
        tm_mday: 2,
        tm_mon: 0,
        tm_year: 124,
        tm_wday: 0,
        tm_yday: 1,
    };
    let set = ReqClockSet::new_from_tm(&tm);
    assert_eq!(set.day_of_week, 7);
    let m = Message::ReqClockSet(ReqHeader { mac: 2 }, set);
    assert_eq!(
        m.to_payload().unwrap(),
        b"0016000000000000000218010658FFFFFFFF03040507".to_vec()
    );
    let resp = Message::Ack(ResHeader { msgid: MessageId::Ack, count: 0, mac: 0 }, Ack { status: 0, mac: None });
    assert_eq!(resp.to_payload().err(), Some(PlError::Protocol));
}

#[test]
fn log_index_and_address_correspond() {
    assert_eq!(pos2addr(0), 278528);
    assert_eq!(pos2addr(1), 278560);
    assert_eq!(addr2pos(278528), 0);
    assert_eq!(addr2pos(278560 + 31), 1);
    for i in [0u32, 1, 2, 1000, 0xFFFFF] {
        assert_eq!(addr2pos(pos2addr(i)), i);
    }
}

#[test]
fn datetime_to_calendar() {
    let tm = DateTime::new_raw(13, 9, 0x4D1C).to_tm().unwrap();
    assert_eq!((tm.tm_year, tm.tm_mon, tm.tm_mday, tm.tm_hour, tm.tm_min), (113, 8, 14, 17, 0));
    assert_eq!(DateTime::new_raw(13, 0, 0).to_tm(), None);
    assert_eq!(DateTime::new_raw(13, 13, 0).to_tm(), None);
    assert_eq!(DateTime::new_raw(13, 12, 31 * 1440).to_tm(), None);
    assert!(DateTime::new_raw(13, 12, 31 * 1440 - 1).to_tm().is_some());
    let back = DateTime::new(&tm);
    assert_eq!(back, DateTime::new_raw(13, 9, 0x4D1C));
}

#[test]
fn error_descriptions() {
    assert_eq!(PlError::NotOnline.description(), "Plugwise Circle network not online");
    assert_eq!(PlError::Protocol.description(), "Protocol error");
    assert_eq!(PlError::UnexpectedResponse.description(), "Unexpected response");
    assert_eq!(PlError::InvalidTimestamp.description(), "Circle did return a invalid timestamp");
    assert_eq!(PlError::Io(IoErrorKind::TimedOut).description(), "timed out");
}

#[test]
fn requests_decode_and_encode_back() {
    let payloads: [&[u8]; 6] = [
        b"000A",
        b"00230123456789ABCDEF",
        b"00170123456789ABCDEF01",
        b"00480123456789ABCDEF00044020",
        b"0016000000000000000218010658FFFFFFFF03040507",
        b"00160000000000000002180106580004402003040507",
    ];
    for p in payloads {
        let m = Message::from_payload(p).unwrap();
        assert_eq!(m.to_payload().unwrap(), p.to_vec());
    }
    match Message::from_payload(b"00480123456789ABCDEF00044020").unwrap() {
        Message::ReqPowerBuffer(h, r) => {
            assert_eq!(h.mac, 0x0123456789ABCDEF);
            assert_eq!(r.logaddr, 1);
        },
        _ => panic!("wrong variant"),
    }
    assert_eq!(Message::from_payload(b"000A00").err(), Some(PlError::Protocol));
}
