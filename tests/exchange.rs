use plugwise::engine::{Action, Exchange, Expect};
use plugwise::frame::{decode_frame, encode_frame};
use plugwise::messages::{Message, MessageId, ReqHeader, ReqSwitch};
use plugwise::{IoErrorKind, PlError, Stub};

const MAC: u64 = 0x0123456789ABCDEF;

fn switch_exchange(retries: u8) -> Exchange {
    let msg = Message::ReqSwitch(ReqHeader { mac: MAC }, ReqSwitch { on: true });
    Exchange::new(&msg, Expect::AckFrom(MAC), retries).unwrap()
}

#[test]
fn frame_round_trip() {
    for p in [b"".to_vec(), b"0011ABCD".to_vec(), vec![5, 5, 3, 3, 13, 10, 0]] {
        assert_eq!(decode_frame(&encode_frame(&p)), Ok(Some(p.clone())));
    }
}

#[test]
fn frame_layout_and_crc() {
    let f = encode_frame(b"123456789");
    assert_eq!(f, b"\x05\x05\x03\x03123456789" .iter().chain(b"31C3\r\n".iter()).cloned().collect::<Vec<u8>>());
}

#[test]
fn noise_and_broken_frames() {
    assert_eq!(decode_frame(b"# APSRequestNodeInfo\r\n"), Ok(None));
    assert_eq!(decode_frame(b"\x05\x05\x03\x030011ABCD"), Err(PlError::Protocol));
    assert_eq!(decode_frame(b"\x05\x05\x03\x03AB\r\n"), Err(PlError::Protocol));
    let mut f = encode_frame(b"0011");
    let n = f.len();
    f[n - 3] = if f[n - 3] == b'1' { b'2' } else { b'1' };
    assert_eq!(decode_frame(&f), Err(PlError::Protocol));
}

#[test]
fn crc_field_tolerates_non_hex_as_zero() {
    let payload = b"003F00000123456789ABCDEF0B243A0601457A";
    let mut f = encode_frame(payload);
    let n = f.len();
    // The CRC of this payload is EA70: its last digit is 0, and 'X' counts as 0.
    assert_eq!(f[n - 3], b'0');
    f[n - 3] = b'X';
    assert_eq!(decode_frame(&f), Ok(Some(payload.to_vec())));
}

#[test]
fn broken_response_surfaces_protocol_error() {
    let mut stub = Stub::new();
    let ex = {
        let msg = Message::ReqClockInfo(ReqHeader { mac: MAC });
        Exchange::new(&msg, Expect::Message(MessageId::ResClockInfo), 3).unwrap()
    };
    let frame = match ex.start() {
        Action::Send(f) => f,
        _ => panic!("first action sends"),
    };
    stub.write(&frame).unwrap();
    let mut line = stub.read_line().unwrap();
    let n = line.len();
    // the last hex character of the response payload, before the CRC
    line[n - 7] = b'X';
    match ex.on_line(&line) {
        Action::Done(Err(e)) => assert_eq!(e, PlError::Protocol),
        other => panic!("unexpected {:?}", other),
    }
}

#[test]
fn retries_then_timeout() {
    for n in [0u8, 1, 3, 7] {
        let mut ex = switch_exchange(n);
        let mut sends = 0;
        let mut action = ex.start();
        loop {
            match action {
                Action::Send(_) => {
                    sends += 1;
                    action = ex.on_read_error(PlError::Io(IoErrorKind::TimedOut));
                },
                Action::Done(r) => {
                    assert_eq!(r.err(), Some(PlError::Io(IoErrorKind::TimedOut)));
                    break;
                },
                Action::Receive => panic!("no line was read"),
            }
        }
        assert_eq!(sends, n as u32 + 1);
    }
}

#[test]
fn other_failures_are_not_retried() {
    let mut ex = switch_exchange(3);
    match ex.on_read_error(PlError::Io(IoErrorKind::Other)) {
        Action::Done(Err(e)) => assert_eq!(e, PlError::Io(IoErrorKind::Other)),
        other => panic!("unexpected {:?}", other),
    }
    match ex.on_write_error(PlError::Io(IoErrorKind::TimedOut)) {
        Action::Done(Err(e)) => assert_eq!(e, PlError::Io(IoErrorKind::TimedOut)),
        other => panic!("unexpected {:?}", other),
    }
}

#[test]
fn ack_for_another_socket_is_skipped() {
    let ex = switch_exchange(3);
    let other = encode_frame(b"000000000000FEDCBA9876543210");
    assert!(matches!(ex.on_line(&other), Action::Receive));
    let bare = encode_frame(b"000000000000");
    assert!(matches!(ex.on_line(&bare), Action::Receive));
    let info = encode_frame(b"003F00000123456789ABCDEF0B243A0601457A");
    assert!(matches!(ex.on_line(&info), Action::Receive));
    let noise = b"#noise\r\n".to_vec();
    assert!(matches!(ex.on_line(&noise), Action::Receive));
    let mine = encode_frame(b"0000000000000123456789ABCDEF");
    match ex.on_line(&mine) {
        Action::Done(Ok(Message::Ack(_, a))) => assert_eq!(a.mac, Some(MAC)),
        other => panic!("unexpected {:?}", other),
    }
}

#[test]
fn only_requests_start_exchanges() {
    let msg = Message::ReqInitialize;
    assert!(Exchange::new(&msg, Expect::Message(MessageId::ResInitialize), 3).is_ok());
    let bad = Message::from_payload(b"000000000000").unwrap();
    assert_eq!(Exchange::new(&bad, Expect::Message(MessageId::Ack), 3).err(), Some(PlError::Protocol));
}

#[test]
fn sim_answers_initialize() {
    let mut stub = Stub::new();
    assert_eq!(stub.read_line(), Err(PlError::Io(IoErrorKind::Other)));
    let frame = encode_frame(b"000A");
    assert_eq!(stub.write(&frame), Ok(frame.len()));
    let line = stub.read_line().unwrap();
    assert_eq!(
        decode_frame(&line),
        Ok(Some(b"00110000000000000000000001010000000000000000000000".to_vec()))
    );
    assert_eq!(stub.read_line(), Err(PlError::Io(IoErrorKind::Other)));
}

#[test]
fn sim_rejects_unknown_commands() {
    let mut stub = Stub::new();
    let frame = encode_frame(b"00990123456789ABCDEF");
    assert_eq!(stub.write(&frame), Err(PlError::Protocol));
}

#[test]
fn sim_answers_power_buffer() {
    let mut stub = Stub::new();
    let msg = Message::ReqPowerBuffer(ReqHeader { mac: MAC }, plugwise::messages::ReqPowerBuffer { logaddr: 0 });
    let frame = encode_frame(&msg.to_payload().unwrap());
    stub.write(&frame).unwrap();
    let payload = decode_frame(&stub.read_line().unwrap()).unwrap().unwrap();
    assert_eq!(&payload[..8], b"00490000");
    assert_eq!(&payload[8..24], b"0123456789ABCDEF");
    assert_eq!(
        &payload[24..],
        &b"0D094D1C0000007B0D094D58000000760D094D94000000710D094DD00000003100044000"[..]
    );
}
