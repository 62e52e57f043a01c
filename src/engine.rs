//! The decisions of a request/response exchange, as a state machine.
//!
//! Whoever owns the byte channel runs the loop: it sends the frame of a
//! `Send` action and reads one line, hands what happened to the exchange,
//! and goes on with the action it gets back, until `Done`.
use vstd::prelude::*;
use crate::error::{PlError, PlResult};
use crate::frame::{decode_frame, encode_frame, frame_spec, receive_spec};
use crate::messages::{Ack, Message, MessageId, payload_id};

verus! {

/// Resends after a timeout, unless set otherwise.
pub const DEFAULT_RETRIES: u8 = 3;

/// What ends an exchange.
#[derive(Debug, Clone, Copy, PartialEq, Eq, Structural)]
pub enum Expect {
    /// The first message with this identifier.
    Message(MessageId),
    /// The first ACK that names this SocketId.
    AckFrom(u64),
}

/// Payload `p` (already known to decode) is the response that ends the exchange.
pub open spec fn accepts(expect: Expect, p: Seq<u8>) -> bool {
    match expect {
        Expect::Message(id) => payload_id(p) == Some(id),
        Expect::AckFrom(mac) => payload_id(p) == Some(MessageId::Ack) && (Ack::spec_decode(
            p.skip(8),
        ) matches Some(a) && a.mac == Some(mac)),
    }
}

/// What the channel's owner does next.
#[derive(Debug)]
pub enum Action {
    /// Write this frame, then read a line.
    Send(Vec<u8>),
    /// Read another line.
    Receive,
    /// The exchange is over.
    Done(PlResult<Message>),
}

/// Resends left after a failed read: a timeout uses one up while any are
/// left; anything else ends the exchange (`None`).
pub open spec fn after_read_error(left: u8, e: PlError) -> Option<u8> {
    if left > 0 && e.is_timeout() {
        Some((left - 1) as u8)
    } else {
        None
    }
}

/// One request in flight.
pub struct Exchange {
    frame: Vec<u8>,
    expect: Expect,
    retries_left: u8,
}

impl Exchange {
    /// The frame that goes out, again on every resend.
    pub closed spec fn frame(&self) -> Seq<u8> {
        self.frame@
    }

    pub closed spec fn expect(&self) -> Expect {
        self.expect
    }

    /// Resends still allowed.
    pub closed spec fn left(&self) -> u8 {
        self.retries_left
    }

    /// An exchange for `message`, allowed `retries` resends after timeouts.
    /// Only requests can be sent.
    pub fn new(message: &Message, expect: Expect, retries: u8) -> (r: PlResult<Exchange>)
        ensures
            r is Ok <==> message.is_request(),
            r matches Ok(ex) ==> ex.frame() == frame_spec(message.spec_payload()) && ex.expect()
                == expect && ex.left() == retries,
            r matches Err(e) ==> e == PlError::Protocol,
    {
        let payload = message.to_payload()?;
        let frame = encode_frame(payload.as_slice());
        Ok(Exchange { frame, expect, retries_left: retries })
    }

    /// The first action: send the request.
    pub fn start(&self) -> (r: Action)
        ensures
            r matches Action::Send(f) && f@ == self.frame(),
    {
        Action::Send(self.frame.clone())
    }

    /// A line arrived. Noise and messages that do not end the exchange are
    /// skipped; a bad frame or payload ends it with a protocol error.
    pub fn on_line(&self, line: &[u8]) -> (r: Action)
        ensures
            match receive_spec(line@) {
                Err(e) => r matches Action::Done(Err(e2)) && e2 == e,
                Ok(None) => r is Receive,
                Ok(Some(p)) => if !Message::spec_decodable(p) {
                    r matches Action::Done(Err(e)) && e == PlError::Protocol
                } else if !accepts(self.expect(), p) {
                    r is Receive
                } else {
                    r matches Action::Done(Ok(m)) && Message::spec_decodes(p, m)
                },
            },
    {
        let payload = match decode_frame(line) {
            Err(e) => {
                return Action::Done(Err(e));
            },
            Ok(None) => {
                return Action::Receive;
            },
            Ok(Some(p)) => p,
        };
        let msg = match Message::from_payload(payload.as_slice()) {
            Err(e) => {
                return Action::Done(Err(e));
            },
            Ok(m) => m,
        };
        let ghost p = payload@;
        match self.expect {
            Expect::Message(id) => {
                if msg.to_message_id() == id {
                    Action::Done(Ok(msg))
                } else {
                    proof {
                        assert(payload_id(p) == Some(msg.id()));
                    }
                    Action::Receive
                }
            },
            Expect::AckFrom(mac) => {
                let matched = match &msg {
                    Message::Ack(_, ack) => match ack.mac {
                        Some(ack_mac) => ack_mac == mac,
                        None => false,
                    },
                    _ => false,
                };
                if matched {
                    Action::Done(Ok(msg))
                } else {
                    Action::Receive
                }
            },
        }
    }

    /// Reading failed. A timeout resends the request while resends are
    /// left; any other failure, or a timeout with none left, ends the exchange.
    pub fn on_read_error(&mut self, e: PlError) -> (r: Action)
        ensures
            final(self).frame() == old(self).frame(),
            final(self).expect() == old(self).expect(),
            match after_read_error(old(self).left(), e) {
                Some(left) => final(self).left() == left && (r matches Action::Send(f) && f@
                    == old(self).frame()),
                None => final(self).left() == old(self).left() && (r matches Action::Done(Err(e2))
                    && e2 == e),
            },
    {
        if self.retries_left > 0 && e == PlError::Io(crate::error::IoErrorKind::TimedOut) {
            self.retries_left = self.retries_left - 1;
            Action::Send(self.frame.clone())
        } else {
            Action::Done(Err(e))
        }
    }

    /// Writing failed: the exchange ends with that error, with no resend.
    pub fn on_write_error(&self, e: PlError) -> (r: Action)
        ensures
            r matches Action::Done(Err(e2)) && e2 == e,
    {
        Action::Done(Err(e))
    }
}

/// Frames sent when every read times out, from a state with `left` resends.
pub open spec fn sends_under_timeouts(left: u8) -> nat
    decreases left,
{
    match after_read_error(left, PlError::Io(crate::error::IoErrorKind::TimedOut)) {
        Some(l) => 1 + sends_under_timeouts(l),
        None => 0,
    }
}

/// With `n` retries and a channel on which every read times out, an
/// exchange sends its frame `n + 1` times (the first send and one per
/// retry) and then ends with the timeout.
pub proof fn lemma_retry_accounting(n: u8)
    ensures
        1 + sends_under_timeouts(n) == n + 1,
        after_read_error(0, PlError::Io(crate::error::IoErrorKind::TimedOut)) is None,
    decreases n,
{
    if n > 0 {
        lemma_retry_accounting((n - 1) as u8);
    }
}

/// An exchange that waits for the ACK of one SocketId never ends on an ACK
/// that names another SocketId, or none.
pub proof fn lemma_ack_addressing(mac: u64, p: Seq<u8>)
    requires
        payload_id(p) == Some(MessageId::Ack),
        Ack::spec_decode(p.skip(8)) matches Some(a) && a.mac != Some(mac),
    ensures
        !accepts(Expect::AckFrom(mac), p),
{
}

} // verus!
