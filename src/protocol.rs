//! Typed commands, run against the simulated stick.
//!
//! Every command is one `Exchange`; this driver performs its actions on the
//! `Stub`. A hardware port runs the same exchanges with a loop of its own.
use vstd::prelude::*;
use crate::engine::{accepts, Action, DEFAULT_RETRIES, Exchange, Expect};
use crate::error::{PlError, PlResult};
use crate::messages::{
    DateTime, Message, MessageId, ResHeader, ReqClockSet, ReqHeader, ReqPowerBuffer, ReqSwitch, ResCalibration,
    ResClockInfo, ResInfo, ResInitialize, ResPowerBuffer, ResPowerUse,
};
use crate::stub::{Stub, relays_after, response_to, sim_answers, sim_request};

verus! {

/// Some received payload `p` ends an exchange waiting for `expect` and holds `m`.
#[verifier::opaque]
pub open spec fn received(expect: Expect, m: Message) -> bool {
    exists|p: Seq<u8>|
        Message::spec_decodable(p) && accepts(expect, p) && #[trigger] Message::spec_decodes(p, m)
}

/// The CRC field of a request's frame.
pub open spec fn crc_field(m: Message) -> Seq<u8> {
    crate::hex::hex_upper(crate::frame::xmodem_crc(m.spec_payload()) as nat, 4)
}

/// The step ended the exchange with the simulated stick's answer to
/// `message`, and the stick is idle again with the relays the request set.
pub open spec fn sim_outcome(a: Action, message: Message, before: Stub, after: Stub) -> bool {
    let req = sim_request(message);
    let relays = relays_after(before.relays(), req);
    &&& a matches Action::Done(Ok(m)) && Message::spec_decodes(response_to(relays, req), m)
    &&& after.idle()
    &&& after.relays() == relays
    &&& after.handled() == before.handled().push(req)
}

/// The exchange succeeded with the simulated stick's answer to `message`,
/// and the stick is idle again with the relays the request set.
pub open spec fn sim_result(r: PlResult<Message>, message: Message, before: Stub, after: Stub) -> bool {
    let req = sim_request(message);
    let relays = relays_after(before.relays(), req);
    &&& r matches Ok(m) && Message::spec_decodes(response_to(relays, req), m)
    &&& after.idle()
    &&& after.relays() == relays
    &&& after.handled() == before.handled().push(req)
}

/// The simulated stick's answer to request `req`, given its state before.
pub open spec fn sim_answer(port: Stub, req: Message) -> Seq<u8> {
    response_to(relays_after(port.relays(), sim_request(req)), sim_request(req))
}

/// After request `req` the simulated stick is idle again, holds the relays
/// the request set, and has answered exactly that request.
pub open spec fn sim_after(before: Stub, after: Stub, req: Message) -> bool {
    &&& after.idle()
    &&& after.relays() == relays_after(before.relays(), sim_request(req))
    &&& after.handled() == before.handled().push(sim_request(req))
}

/// The command engine on the simulated stick.
pub struct Protocol {
    port: Stub,
    retries: u8,
}

impl Protocol {
    pub closed spec fn retries(&self) -> u8 {
        self.retries
    }

    pub closed spec fn port(&self) -> Stub {
        self.port
    }

    /// Takes the port over; three resends after a timeout.
    pub fn new(port: Stub) -> (r: Protocol)
        ensures
            r.retries() == DEFAULT_RETRIES,
            r.port() == port,
    {
        Protocol { port, retries: DEFAULT_RETRIES }
    }

    pub fn set_retries(&mut self, retries: u8)
        ensures
            final(self).retries() == retries,
            final(self).port() == old(self).port(),
    {
        self.retries = retries;
    }

    /// One step of an exchange: writes `frame` if there is one, reads a line
    /// and hands the outcome to the exchange.
    fn step(&mut self, ex: &mut Exchange, frame: &Option<Vec<u8>>, message: &Message) -> (a: Action)
        requires
            message.is_request(),
            old(ex).frame() == crate::frame::frame_spec(message.spec_payload()),
            frame matches Some(f) ==> f@ == old(ex).frame(),
        ensures
            final(self).retries == old(self).retries,
            final(ex).expect() == old(ex).expect(),
            final(ex).frame() == old(ex).frame(),
            !(a is Send),
            a matches Action::Done(Err(e)) ==> !e.is_timeout(),
            a is Send ==> final(ex).left() < old(ex).left(),
            !(a is Send) ==> final(ex).left() == old(ex).left(),
            a matches Action::Send(f) ==> f@ == old(ex).frame(),
            frame is None && a is Receive ==> final(self).port.responses().len() < old(
                self,
            ).port.responses().len() || (final(self).port.responses().len() == old(
                self,
            ).port.responses().len() && final(self).port.output().len() < old(
                self,
            ).port.output().len()),
            a matches Action::Done(Ok(m)) ==> received(old(ex).expect(), m),
            frame is Some && old(self).port.idle() && sim_answers(
                *message,
                old(ex).expect(),
                old(self).port.relays(),
            ) ==> sim_outcome(a, *message, old(self).port, final(self).port),
    {
        let ghost req = sim_request(*message);
        let ghost g = frame is Some && self.port.idle() && sim_answers(
            *message,
            ex.expect(),
            self.port.relays(),
        );
        let ghost resp = response_to(relays_after(self.port.relays(), req), req);
        proof {
            if g {
                crate::stub::lemma_sim_request_write(self.port, *message);
            }
        }
        if let Some(f) = frame {
            if let Err(e) = self.port.write(f.as_slice()) {
                return ex.on_write_error(e);
            }
        }
        proof {
            if g {
                assert(self.port.responses() =~= seq![resp]);
                crate::stub::lemma_sim_read_one(self.port, resp);
                crate::frame::lemma_frame_round_trip(resp);
            }
        }
        let ghost before = self.port;
        let action = match self.port.read_line() {
            Ok(line) => {
                proof {
                    crate::stub::lemma_index_from(before.pending_frame()->0, crate::frame::EOM, 0);
                }
                ex.on_line(line.as_slice())
            },
            Err(e) => ex.on_read_error(e),
        };
        proof {
            reveal(received);
            if g {
                assert(self.port.output() =~= Seq::<u8>::empty());
            }
        }
        action
    }

    /// Sends a request and waits for what `expect` names. On an idle
    /// simulated stick that answers the request, the exchange succeeds with
    /// the stick's answer and leaves the stick idle.
    fn send_and_expect(&mut self, message: &Message, expect: Expect) -> (r: PlResult<Message>)
        ensures
            final(self).retries() == old(self).retries(),
            r matches Err(e) ==> !e.is_timeout(),
            r is Err && !message.is_request() ==> r == Err::<Message, PlError>(PlError::Protocol),
            r matches Ok(m) ==> received(expect, m),
            old(self).port().idle() && sim_answers(*message, expect, old(self).port().relays())
                ==> sim_result(r, *message, old(self).port(), final(self).port()),
    {
        let mut ex = Exchange::new(message, expect, self.retries)?;
        let mut frame: Option<Vec<u8>> = match ex.start() {
            Action::Send(f) => Some(f),
            _ => None,
        };
        let ghost premise = old(self).port().idle() && sim_answers(
            *message,
            expect,
            old(self).port().relays(),
        );
        let ghost mut first = true;
        loop
            invariant
                self.retries == old(self).retries(),
                ex.expect() == expect,
                ex.frame() == crate::frame::frame_spec(message.spec_payload()),
                message.is_request(),
                frame matches Some(f) ==> f@ == ex.frame(),
                premise == (old(self).port().idle() && sim_answers(
                    *message,
                    expect,
                    old(self).port().relays(),
                )),
                first ==> self.port == old(self).port && frame is Some,
                !first ==> !premise,
            decreases ex.left(), (if frame is Some {
                1int
            } else {
                0int
            }), self.port.responses().len(), self.port.output().len(),
        {
            let action = self.step(&mut ex, &frame, message);
            match action {
                Action::Send(f) => {
                    frame = Some(f);
                },
                Action::Receive => {
                    frame = None;
                },
                Action::Done(r) => {
                    return r;
                },
            }
            proof {
                first = false;
            }
        }
    }

    /// Initializes the stick. The simulated stick reports an online network.
    pub fn initialize(&mut self) -> (r: PlResult<ResInitialize>)
        ensures
            final(self).retries() == old(self).retries(),
            r matches Err(e) ==> !e.is_timeout(),
            r matches Ok(res) ==> exists|h: ResHeader|
                #[trigger] received(Expect::Message(MessageId::ResInitialize), Message::ResInitialize(h, res)),
            old(self).port().idle() ==> (r matches Ok(res) && exists|h: ResHeader|
                #[trigger] Message::spec_decodes(
                    sim_answer(old(self).port(), Message::ReqInitialize),
                    Message::ResInitialize(h, res),
                )) && sim_after(old(self).port(), final(self).port(), Message::ReqInitialize),
            old(self).port().idle() ==> final(self).port().relays() == old(self).port().relays(),
            old(self).port().idle() ==> (r matches Ok(res) && res.is_online),
    {
        let req = Message::ReqInitialize;
        proof {
            crate::stub::lemma_sim_initialize(self.port.relays());
        }
        let msg = self.send_and_expect(&req, Expect::Message(MessageId::ResInitialize))?;
        match msg {
            Message::ResInitialize(h, res) => {
                let r = Ok(res);
                assert(r matches Ok(x) ==> exists|h2: ResHeader|
                    #[trigger] received(Expect::Message(MessageId::ResInitialize), Message::ResInitialize(h2, x)))
                    by {
                    assert(received(Expect::Message(MessageId::ResInitialize), Message::ResInitialize(h, res)));
                }
                assert(old(self).port().idle() ==> (r matches Ok(x) && exists|h2: ResHeader|
                    #[trigger] Message::spec_decodes(
                        sim_answer(old(self).port(), req),
                        Message::ResInitialize(h2, x),
                    ))) by {
                    if old(self).port().idle() {
                        assert(Message::spec_decodes(sim_answer(old(self).port(), req), Message::ResInitialize(h, res)));
                    }
                }
                r
            },
            _ => Err(PlError::UnexpectedResponse),
        }
    }

    /// Reads a Circle's state. The simulated stick reports the relay state
    /// it holds for the Circle.
    pub fn get_info(&mut self, mac: u64) -> (r: PlResult<ResInfo>)
        ensures
            final(self).retries() == old(self).retries(),
            r matches Err(e) ==> !e.is_timeout(),
            r matches Ok(res) ==> exists|h: ResHeader|
                #[trigger] received(Expect::Message(MessageId::ResInfo), Message::ResInfo(h, res)),
            old(self).port().idle() ==> (r matches Ok(res) && exists|h: ResHeader|
                #[trigger] Message::spec_decodes(
                    sim_answer(old(self).port(), Message::ReqInfo(ReqHeader { mac })),
                    Message::ResInfo(h, res),
                )) && sim_after(old(self).port(), final(self).port(), Message::ReqInfo(ReqHeader { mac })),
            old(self).port().idle() ==> final(self).port().relays() == old(self).port().relays(),
            old(self).port().idle() ==> (r matches Ok(info) && info.relay_state == old(
                self,
            ).port().is_on(mac) && info.datetime.is_valid() && info.datetime == (DateTime {
                year: 0x0F,
                months: 0x04,
                minutes: 0x89B8,
            }) && info.last_logaddr == 540 && info.hz == 50 && info.fw_ver == 0x4E0844C2
                && info.unknown == 2),
    {
        let req = Message::ReqInfo(ReqHeader { mac });
        proof {
            crate::hex::lemma_hex_upper_value(crate::frame::xmodem_crc(req.spec_payload()) as nat, 4);
            crate::stub::lemma_sim_info_response(self.port.relays(), mac, crc_field(req));
        }
        let msg = self.send_and_expect(&req, Expect::Message(MessageId::ResInfo))?;
        match msg {
            Message::ResInfo(h, res) => {
                let r = Ok(res);
                assert(r matches Ok(x) ==> exists|h2: ResHeader|
                    #[trigger] received(Expect::Message(MessageId::ResInfo), Message::ResInfo(h2, x)))
                    by {
                    assert(received(Expect::Message(MessageId::ResInfo), Message::ResInfo(h, res)));
                }
                assert(old(self).port().idle() ==> (r matches Ok(x) && exists|h2: ResHeader|
                    #[trigger] Message::spec_decodes(
                        sim_answer(old(self).port(), req),
                        Message::ResInfo(h2, x),
                    ))) by {
                    if old(self).port().idle() {
                        assert(Message::spec_decodes(sim_answer(old(self).port(), req), Message::ResInfo(h, res)));
                    }
                }
                r
            },
            _ => Err(PlError::UnexpectedResponse),
        }
    }

    /// Reads a Circle's calibration constants.
    pub fn calibrate(&mut self, mac: u64) -> (r: PlResult<ResCalibration>)
        ensures
            final(self).retries() == old(self).retries(),
            r matches Err(e) ==> !e.is_timeout(),
            r matches Ok(res) ==> exists|h: ResHeader|
                #[trigger] received(Expect::Message(MessageId::ResCalibration), Message::ResCalibration(h, res)),
            old(self).port().idle() ==> (r matches Ok(res) && exists|h: ResHeader|
                #[trigger] Message::spec_decodes(
                    sim_answer(old(self).port(), Message::ReqCalibration(ReqHeader { mac })),
                    Message::ResCalibration(h, res),
                )) && sim_after(old(self).port(), final(self).port(), Message::ReqCalibration(ReqHeader { mac })),
            old(self).port().idle() ==> final(self).port().relays() == old(self).port().relays(),
            old(self).port().idle() ==> (r matches Ok(res) && res == (ResCalibration {
                gain_a: 0,
                gain_b: 0,
                off_total: 0,
                off_noise: 0,
            })),
    {
        let req = Message::ReqCalibration(ReqHeader { mac });
        proof {
            crate::stub::lemma_sim_calibration(self.port.relays(), mac);
        }
        let msg = self.send_and_expect(&req, Expect::Message(MessageId::ResCalibration))?;
        match msg {
            Message::ResCalibration(h, res) => {
                let r = Ok(res);
                assert(r matches Ok(x) ==> exists|h2: ResHeader|
                    #[trigger] received(Expect::Message(MessageId::ResCalibration), Message::ResCalibration(h2, x)))
                    by {
                    assert(received(Expect::Message(MessageId::ResCalibration), Message::ResCalibration(h, res)));
                }
                assert(old(self).port().idle() ==> (r matches Ok(x) && exists|h2: ResHeader|
                    #[trigger] Message::spec_decodes(
                        sim_answer(old(self).port(), req),
                        Message::ResCalibration(h2, x),
                    ))) by {
                    if old(self).port().idle() {
                        assert(Message::spec_decodes(sim_answer(old(self).port(), req), Message::ResCalibration(h, res)));
                    }
                }
                r
            },
            _ => Err(PlError::UnexpectedResponse),
        }
    }

    /// Reads one block of a Circle's hourly log, by slot index.
    pub fn get_power_buffer(&mut self, mac: u64, addr: u32) -> (r: PlResult<ResPowerBuffer>)
        ensures
            final(self).retries() == old(self).retries(),
            r matches Err(e) ==> !e.is_timeout(),
            r matches Ok(res) ==> exists|h: ResHeader|
                #[trigger] received(Expect::Message(MessageId::ResPowerBuffer), Message::ResPowerBuffer(h, res)),
            old(self).port().idle() ==> (r matches Ok(res) && exists|h: ResHeader|
                #[trigger] Message::spec_decodes(
                    sim_answer(old(self).port(), Message::ReqPowerBuffer(ReqHeader { mac }, ReqPowerBuffer { logaddr: addr })),
                    Message::ResPowerBuffer(h, res),
                )) && sim_after(old(self).port(), final(self).port(), Message::ReqPowerBuffer(ReqHeader { mac }, ReqPowerBuffer { logaddr: addr })),
            old(self).port().idle() ==> final(self).port().relays() == old(self).port().relays(),
            old(self).port().idle() ==> (r matches Ok(res) && res == crate::stub::sim_block_answer()),
    {
        let req = Message::ReqPowerBuffer(ReqHeader { mac }, ReqPowerBuffer { logaddr: addr });
        proof {
            crate::stub::lemma_sim_power_buffer(self.port.relays(), mac, addr);
        }
        let msg = self.send_and_expect(&req, Expect::Message(MessageId::ResPowerBuffer))?;
        match msg {
            Message::ResPowerBuffer(h, res) => {
                let r = Ok(res);
                assert(r matches Ok(x) ==> exists|h2: ResHeader|
                    #[trigger] received(Expect::Message(MessageId::ResPowerBuffer), Message::ResPowerBuffer(h2, x)))
                    by {
                    assert(received(Expect::Message(MessageId::ResPowerBuffer), Message::ResPowerBuffer(h, res)));
                }
                assert(old(self).port().idle() ==> (r matches Ok(x) && exists|h2: ResHeader|
                    #[trigger] Message::spec_decodes(
                        sim_answer(old(self).port(), req),
                        Message::ResPowerBuffer(h2, x),
                    ))) by {
                    if old(self).port().idle() {
                        assert(Message::spec_decodes(sim_answer(old(self).port(), req), Message::ResPowerBuffer(h, res)));
                    }
                }
                r
            },
            _ => Err(PlError::UnexpectedResponse),
        }
    }

    /// Reads a Circle's current pulse counts.
    pub fn get_power_usage(&mut self, mac: u64) -> (r: PlResult<ResPowerUse>)
        ensures
            final(self).retries() == old(self).retries(),
            r matches Err(e) ==> !e.is_timeout(),
            r matches Ok(res) ==> exists|h: ResHeader|
                #[trigger] received(Expect::Message(MessageId::ResPowerUse), Message::ResPowerUse(h, res)),
            old(self).port().idle() ==> (r matches Ok(res) && exists|h: ResHeader|
                #[trigger] Message::spec_decodes(
                    sim_answer(old(self).port(), Message::ReqPowerUse(ReqHeader { mac })),
                    Message::ResPowerUse(h, res),
                )) && sim_after(old(self).port(), final(self).port(), Message::ReqPowerUse(ReqHeader { mac })),
            old(self).port().idle() ==> final(self).port().relays() == old(self).port().relays(),
    {
        let req = Message::ReqPowerUse(ReqHeader { mac });
        proof {
            crate::stub::lemma_sim_power_use(self.port.relays(), mac);
        }
        let msg = self.send_and_expect(&req, Expect::Message(MessageId::ResPowerUse))?;
        match msg {
            Message::ResPowerUse(h, res) => {
                let r = Ok(res);
                assert(r matches Ok(x) ==> exists|h2: ResHeader|
                    #[trigger] received(Expect::Message(MessageId::ResPowerUse), Message::ResPowerUse(h2, x)))
                    by {
                    assert(received(Expect::Message(MessageId::ResPowerUse), Message::ResPowerUse(h, res)));
                }
                assert(old(self).port().idle() ==> (r matches Ok(x) && exists|h2: ResHeader|
                    #[trigger] Message::spec_decodes(
                        sim_answer(old(self).port(), req),
                        Message::ResPowerUse(h2, x),
                    ))) by {
                    if old(self).port().idle() {
                        assert(Message::spec_decodes(sim_answer(old(self).port(), req), Message::ResPowerUse(h, res)));
                    }
                }
                r
            },
            _ => Err(PlError::UnexpectedResponse),
        }
    }

    /// Reads a Circle's clock.
    pub fn get_clock_info(&mut self, mac: u64) -> (r: PlResult<ResClockInfo>)
        ensures
            final(self).retries() == old(self).retries(),
            r matches Err(e) ==> !e.is_timeout(),
            r matches Ok(res) ==> exists|h: ResHeader|
                #[trigger] received(Expect::Message(MessageId::ResClockInfo), Message::ResClockInfo(h, res)),
            old(self).port().idle() ==> (r matches Ok(res) && exists|h: ResHeader|
                #[trigger] Message::spec_decodes(
                    sim_answer(old(self).port(), Message::ReqClockInfo(ReqHeader { mac })),
                    Message::ResClockInfo(h, res),
                )) && sim_after(old(self).port(), final(self).port(), Message::ReqClockInfo(ReqHeader { mac })),
            old(self).port().idle() ==> final(self).port().relays() == old(self).port().relays(),
            old(self).port().idle() ==> (r matches Ok(res) && res == (ResClockInfo {
                hour: 11,
                minute: 36,
                second: 58,
                day_of_week: 6,
                unknown1: 1,
                unknown2: 0x457A,
            })),
    {
        let req = Message::ReqClockInfo(ReqHeader { mac });
        proof {
            crate::stub::lemma_sim_clock_info(self.port.relays(), mac);
        }
        let msg = self.send_and_expect(&req, Expect::Message(MessageId::ResClockInfo))?;
        match msg {
            Message::ResClockInfo(h, res) => {
                let r = Ok(res);
                assert(r matches Ok(x) ==> exists|h2: ResHeader|
                    #[trigger] received(Expect::Message(MessageId::ResClockInfo), Message::ResClockInfo(h2, x)))
                    by {
                    assert(received(Expect::Message(MessageId::ResClockInfo), Message::ResClockInfo(h, res)));
                }
                assert(old(self).port().idle() ==> (r matches Ok(x) && exists|h2: ResHeader|
                    #[trigger] Message::spec_decodes(
                        sim_answer(old(self).port(), req),
                        Message::ResClockInfo(h2, x),
                    ))) by {
                    if old(self).port().idle() {
                        assert(Message::spec_decodes(sim_answer(old(self).port(), req), Message::ResClockInfo(h, res)));
                    }
                }
                r
            },
            _ => Err(PlError::UnexpectedResponse),
        }
    }

    /// Switches a Circle's relay; succeeds once the Circle's own ACK arrives.
    pub fn switch(&mut self, mac: u64, on: bool) -> (r: PlResult<()>)
        ensures
            final(self).retries() == old(self).retries(),
            r matches Err(e) ==> !e.is_timeout(),
            r is Ok ==> exists|m: Message| #[trigger] received(Expect::AckFrom(mac), m),
            old(self).port().idle() ==> r is Ok && sim_after(old(self).port(), final(self).port(), Message::ReqSwitch(ReqHeader { mac }, ReqSwitch { on })),
            old(self).port().idle() ==> final(self).port().relays() == old(self).port().relays().insert(
                mac,
                on,
            ),
    {
        let req = Message::ReqSwitch(ReqHeader { mac }, ReqSwitch { on });
        proof {
            crate::hex::lemma_hex_upper_value(crate::frame::xmodem_crc(req.spec_payload()) as nat, 4);
            crate::stub::lemma_sim_switch_ack(self.port.relays(), mac, on, crc_field(req));
        }
        let ack = self.send_and_expect(&req, Expect::AckFrom(mac))?;
        assert(received(Expect::AckFrom(mac), ack));
        Ok(())
    }

    /// Sets a Circle's clock; succeeds once the Circle's own ACK arrives.
    pub fn set_clock(&mut self, mac: u64, clock_set: ReqClockSet) -> (r: PlResult<()>)
        ensures
            final(self).retries() == old(self).retries(),
            r matches Err(e) ==> !e.is_timeout(),
            r is Ok ==> exists|m: Message| #[trigger] received(Expect::AckFrom(mac), m),
            old(self).port().idle() ==> r is Ok && sim_after(old(self).port(), final(self).port(), Message::ReqClockSet(ReqHeader { mac }, clock_set)),
            old(self).port().idle() ==> final(self).port().relays() == old(self).port().relays(),
    {
        let req = Message::ReqClockSet(ReqHeader { mac }, clock_set);
        proof {
            crate::stub::lemma_sim_clock_set(self.port.relays(), mac, clock_set);
        }
        let ack = self.send_and_expect(&req, Expect::AckFrom(mac))?;
        assert(received(Expect::AckFrom(mac), ack));
        Ok(())
    }
}

} // verus!
