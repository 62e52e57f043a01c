//! An in-memory Plugwise stick with perfect Circles, for tests and
//! development. It answers every request with fixed example data and
//! remembers the relay state of each Circle.
use vstd::prelude::*;
use std::collections::BTreeMap;
use crate::error::{IoErrorKind, PlError, PlResult};
use crate::frame::{encode_frame, frame_spec, EOM};
use crate::hex::{field_at, hex_upper, parse_hex, parse_hex_field, push_hex, upper_hex_only};
use crate::messages::{Ack, Message, MessageId, ReqHeader, ReqSwitch, payload_id};
use crate::hex::lemma_upper_hex_concat;

verus! {

/// The first position of byte `b` in `s` at or after `i`.
pub open spec fn index_from(s: Seq<u8>, b: u8, i: int) -> Option<int>
    decreases s.len() - i,
{
    if i < 0 || i >= s.len() {
        None
    } else if s[i] == b {
        Some(i)
    } else {
        index_from(s, b, i + 1)
    }
}

pub proof fn lemma_index_from(s: Seq<u8>, b: u8, i: int)
    ensures
        index_from(s, b, i) matches Some(j) ==> i <= j < s.len() && s[j] == b,
    decreases s.len() - i,
{
    if 0 <= i < s.len() && s[i] != b {
        lemma_index_from(s, b, i + 1);
    }
}

/// The last position of byte `b` in `s` below `hi`.
pub open spec fn index_before(s: Seq<u8>, b: u8, hi: int) -> Option<int>
    decreases hi,
{
    if hi <= 0 {
        None
    } else if s[hi - 1] == b {
        Some(hi - 1)
    } else {
        index_before(s, b, hi - 1)
    }
}

/// The upper-case command code that `s` starts with.
pub open spec fn command_of(s: Seq<u8>) -> Option<u16> {
    if s.len() >= 4 && (forall|i: int|
        0 <= i < 4 ==> (48 <= #[trigger] s[i] <= 57 || 65 <= s[i] <= 70)) {
        Some(crate::hex::hex_value(s.take(4)) as u16)
    } else {
        None
    }
}

/// The SocketId field of a request (none for Initialize).
pub open spec fn request_mac(s: Seq<u8>, code: u16) -> Option<u64> {
    if code == 0x000A {
        Some(0)
    } else if s.len() >= 20 && parse_hex(s.subrange(4, 20)) is Some {
        Some(parse_hex(s.subrange(4, 20))->0 as u64)
    } else {
        None
    }
}

/// The response payload the simulated stick gives to command `code`, for
/// Circle `mac` whose relay is `on`.
pub open spec fn sim_response(code: u16, mac: u64, on: bool) -> Option<Seq<u8>> {
    let m = hex_upper(mac as nat, 16);
    if code == 0x000A {
        Some(
            hex_upper(0x0011, 4) + hex_upper(0, 4) + hex_upper(0, 16) + hex_upper(1, 2) + hex_upper(1, 2)
                + hex_upper(0, 16) + hex_upper(0, 4) + hex_upper(0, 2),
        )
    } else if code == 0x0016 || code == 0x0017 {
        Some(hex_upper(0, 4) + hex_upper(0, 4) + hex_upper(0, 4) + m)
    } else if code == 0x0023 {
        Some(
            hex_upper(0x0024, 4) + hex_upper(0, 4) + m + hex_upper(0x0F0489B800048398, 16)
                + hex_upper(if on { 1 } else { 0 }, 2) + hex_upper(0x856539070140, 12) + hex_upper(
                0x234E0844C202,
                12,
            ),
        )
    } else if code == 0x0026 {
        Some(hex_upper(0x0027, 4) + hex_upper(0, 4) + m + hex_upper(0, 16) + hex_upper(0, 16))
    } else if code == 0x0048 {
        Some(
            hex_upper(0x0049, 4) + hex_upper(0, 4) + m + hex_upper(0x0D094D1C0000007B, 16)
                + hex_upper(0x0D094D5800000076, 16) + hex_upper(0x0D094D9400000071, 16) + hex_upper(
                0x0D094DD000000031,
                16,
            ) + hex_upper(0x00044000, 8),
        )
    } else if code == 0x0012 {
        Some(hex_upper(0x0013, 4) + hex_upper(0, 4) + m + hex_upper(0, 16) + hex_upper(0, 12))
    } else if code == 0x003E {
        Some(hex_upper(0x003F, 4) + hex_upper(0, 4) + m + hex_upper(0x0B243A0601457A, 14))
    } else {
        None
    }
}

/// The relay state that a Switch request sets.
pub open spec fn switch_of(s: Seq<u8>) -> Option<bool> {
    if s.len() >= 22 && parse_hex(s.subrange(20, 22)) is Some {
        Some(parse_hex(s.subrange(20, 22))->0 != 0)
    } else {
        None
    }
}

/// The simulated stick understands request `s` (payload and CRC).
pub open spec fn request_ok(s: Seq<u8>) -> bool {
    match command_of(s) {
        Some(code) => request_mac(s, code) is Some && sim_response(code, 0, false) is Some && (code
            == 0x0017 ==> switch_of(s) is Some),
        None => false,
    }
}

/// Relay states after request `s`.
pub open spec fn relays_after(relays: Map<u64, bool>, s: Seq<u8>) -> Map<u64, bool> {
    let code = command_of(s)->0;
    if code == 0x0017 {
        relays.insert(request_mac(s, code)->0, switch_of(s)->0)
    } else {
        relays
    }
}

/// The answer to request `s`, given the relay states after it.
pub open spec fn response_to(relays: Map<u64, bool>, s: Seq<u8>) -> Seq<u8> {
    let code = command_of(s)->0;
    let mac = request_mac(s, code)->0;
    sim_response(code, mac, relays.contains_key(mac) && relays[mac])->0
}

/// The simulated stick.
pub struct Stub {
    input: Vec<u8>,
    responses: Vec<Vec<u8>>,
    output: Vec<u8>,
    plug: BTreeMap<u64, bool>,
    handled: Ghost<Seq<Seq<u8>>>,
}

impl Stub {
    /// Bytes written but not yet taken as a request.
    pub closed spec fn input(&self) -> Seq<u8> {
        self.input@
    }

    /// Response payloads not yet framed for reading, oldest first.
    pub closed spec fn responses(&self) -> Seq<Seq<u8>> {
        self.responses@.map_values(|r: Vec<u8>| r@)
    }

    /// Bytes of the frame being read.
    pub closed spec fn output(&self) -> Seq<u8> {
        self.output@
    }

    /// The requests answered so far (payload and CRC field), oldest first.
    pub closed spec fn handled(&self) -> Seq<Seq<u8>> {
        self.handled@
    }

    /// Relay states that a Switch has set; other Circles are off.
    pub closed spec fn relays(&self) -> Map<u64, bool> {
        self.plug@
    }

    /// No traffic in flight: nothing to read, and what was written after the
    /// last request holds no end of a request (carriage return or `0x03`).
    pub open spec fn idle(&self) -> bool {
        &&& self.responses().len() == 0
        &&& self.output().len() == 0
        &&& forall|i: int| 0 <= i < self.input().len() ==> #[trigger] self.input()[i] != 13
            && self.input()[i] != 3
    }

    /// Whether Circle `mac` is switched on.
    pub open spec fn is_on(&self, mac: u64) -> bool {
        self.relays().contains_key(mac) && self.relays()[mac]
    }

    /// A stick with no traffic and every Circle off.
    pub fn new() -> (r: Stub)
        ensures
            r.input().len() == 0,
            r.responses().len() == 0,
            r.output().len() == 0,
            r.relays() == Map::<u64, bool>::empty(),
            r.handled().len() == 0,
            r.idle(),
    {
        Stub {
            input: Vec::new(),
            responses: Vec::new(),
            output: Vec::new(),
            plug: BTreeMap::new(),
            handled: Ghost(Seq::empty()),
        }
    }

    /// Reads a hex field of at most 16 characters.
    fn from_hex_buffer(buf: &[u8]) -> (r: Option<u64>)
        requires
            buf@.len() <= 16,
        ensures
            r is None <==> parse_hex(buf@) is None,
            r matches Some(v) ==> parse_hex(buf@) == Some(v as nat),
    {
        parse_hex_field(buf)
    }

    fn command_code(buf: &[u8]) -> (r: Option<u16>)
        ensures
            r == command_of(buf@),
    {
        if buf.len() < 4 {
            return None;
        }
        let mut acc: u16 = 0;
        let mut k: usize = 0;
        while k < 4
            invariant
                k <= 4 <= buf@.len(),
                forall|i: int| 0 <= i < k ==> (48 <= #[trigger] buf@[i] <= 57 || 65 <= buf@[i] <= 70),
                acc as nat == crate::hex::hex_value(buf@.take(k as int)),
                (acc as nat) < crate::hex::pow16(k as nat),
            decreases 4 - k,
        {
            let c = buf[k];
            let d: u16 = if 48 <= c && c <= 57 {
                (c - 48) as u16
            } else if 65 <= c && c <= 70 {
                (c - 55) as u16
            } else {
                return None;
            };
            proof {
                assert(buf@.take(k as int + 1).drop_last() =~= buf@.take(k as int));
                crate::hex::lemma_pow16_values();
                assert(crate::hex::pow16(k as nat + 1) == 16 * crate::hex::pow16(k as nat));
                assert(acc * 16 + d < 16 * crate::hex::pow16(k as nat)) by (nonlinear_arith)
                    requires
                        (acc as nat) < crate::hex::pow16(k as nat),
                        d < 16,
                ;
                assert(crate::hex::pow16(k as nat) <= crate::hex::pow16(3)) by {
                    if k < 3 {
                        assert(crate::hex::pow16(2) <= crate::hex::pow16(3));
                    }
                }
            }
            acc = acc * 16 + d;
            k = k + 1;
        }
        Some(acc)
    }
    /// Answers one request (payload and CRC, without header and footer).
    /// Unknown or malformed requests fail and change nothing.
    fn handle_incoming(&mut self, buf: &[u8]) -> (r: PlResult<()>)
        ensures
            r is Ok <==> request_ok(buf@),
            r matches Err(e) ==> e == PlError::Protocol,
            final(self).input() == old(self).input(),
            final(self).output() == old(self).output(),
            r is Ok ==> final(self).handled() == old(self).handled().push(buf@),
            r is Err ==> final(self).handled() == old(self).handled(),
            r is Ok ==> final(self).relays() == relays_after(old(self).relays(), buf@)
                && final(self).responses() == old(self).responses().push(
                response_to(final(self).relays(), buf@),
            ),
            r is Err ==> final(self).relays() == old(self).relays() && final(self).responses()
                == old(self).responses(),
    {
        let code = match Stub::command_code(buf) {
            Some(c) => c,
            None => {
                return Err(PlError::Protocol);
            },
        };
        let mac: u64 = if code != 0x000A {
            if buf.len() < 20 {
                return Err(PlError::Protocol);
            }
            match Stub::from_hex_buffer(vstd::slice::slice_subrange(buf, 4, 20)) {
                Some(m) => m,
                None => {
                    return Err(PlError::Protocol);
                },
            }
        } else {
            0
        };
        let mut m: Vec<u8> = Vec::new();
        push_hex(&mut m, mac, 16);
        let mut resp: Vec<u8> = Vec::new();
        if code == 0x000A {
            push_hex(&mut resp, 0x0011, 4);
            push_hex(&mut resp, 0, 4);
            push_hex(&mut resp, 0, 16);
            push_hex(&mut resp, 1, 2);
            push_hex(&mut resp, 1, 2);
            push_hex(&mut resp, 0, 16);
            push_hex(&mut resp, 0, 4);
            push_hex(&mut resp, 0, 2);
        } else if code == 0x0016 || code == 0x0017 {
            if code == 0x0017 {
                if buf.len() < 22 {
                    return Err(PlError::Protocol);
                }
                let switch = match Stub::from_hex_buffer(vstd::slice::slice_subrange(buf, 20, 22)) {
                    Some(v) => v,
                    None => {
                        return Err(PlError::Protocol);
                    },
                };
                self.plug.insert(mac, switch != 0);
            }
            push_hex(&mut resp, 0, 4);
            push_hex(&mut resp, 0, 4);
            push_hex(&mut resp, 0, 4);
            resp.append(&mut m);
        } else if code == 0x0023 {
            let state: u64 = match self.plug.get(&mac) {
                Some(on) => if *on {
                    1
                } else {
                    0
                },
                None => 0,
            };
            push_hex(&mut resp, 0x0024, 4);
            push_hex(&mut resp, 0, 4);
            resp.append(&mut m);
            push_hex(&mut resp, 0x0F0489B800048398, 16);
            push_hex(&mut resp, state, 2);
            push_hex(&mut resp, 0x856539070140, 12);
            push_hex(&mut resp, 0x234E0844C202, 12);
        } else if code == 0x0026 {
            push_hex(&mut resp, 0x0027, 4);
            push_hex(&mut resp, 0, 4);
            resp.append(&mut m);
            push_hex(&mut resp, 0, 16);
            push_hex(&mut resp, 0, 16);
        } else if code == 0x0048 {
            push_hex(&mut resp, 0x0049, 4);
            push_hex(&mut resp, 0, 4);
            resp.append(&mut m);
            push_hex(&mut resp, 0x0D094D1C0000007B, 16);
            push_hex(&mut resp, 0x0D094D5800000076, 16);
            push_hex(&mut resp, 0x0D094D9400000071, 16);
            push_hex(&mut resp, 0x0D094DD000000031, 16);
            push_hex(&mut resp, 0x00044000, 8);
        } else if code == 0x0012 {
            push_hex(&mut resp, 0x0013, 4);
            push_hex(&mut resp, 0, 4);
            resp.append(&mut m);
            push_hex(&mut resp, 0, 16);
            push_hex(&mut resp, 0, 12);
        } else if code == 0x003E {
            push_hex(&mut resp, 0x003F, 4);
            push_hex(&mut resp, 0, 4);
            resp.append(&mut m);
            push_hex(&mut resp, 0x0B243A0601457A, 14);
        } else {
            return Err(PlError::Protocol);
        }
        proof {
            let ghost relays = self.plug@;
            assert(resp@ =~= response_to(relays, buf@));
        }
        self.responses.push(resp);
        self.handled = Ghost(self.handled@.push(buf@));
        proof {
            assert(self.responses@.map_values(|r: Vec<u8>| r@) =~= old(self).responses().push(
                response_to(self.plug@, buf@),
            ));
        }
        Ok(())
    }
    /// The frame that reading continues with, if any.
    pub open spec fn pending_frame(&self) -> Option<Seq<u8>> {
        if self.output().len() > 0 {
            Some(self.output())
        } else if self.responses().len() > 0 {
            Some(frame_spec(self.responses()[0]))
        } else {
            None
        }
    }

    /// Takes written bytes. Once a carriage return has arrived, the bytes
    /// after the last `0x03` before it form a request, which is answered
    /// (see `handle_incoming`) and removed from the input.
    pub fn write(&mut self, buf: &[u8]) -> (r: PlResult<usize>)
        ensures
            final(self).output() == old(self).output(),
            ({
                let inp = old(self).input() + buf@;
                let req = match index_from(inp, 13, 0) {
                    Some(pos) => match index_before(inp, 3, pos) {
                        Some(rp) => Some(inp.subrange(rp + 1, pos)),
                        None => None,
                    },
                    None => None,
                };
                !(req matches Some(q) && request_ok(q)) ==> final(self).handled() == old(
                    self,
                ).handled()
            }),
            ({
                let inp = old(self).input() + buf@;
                match index_from(inp, 13, 0) {
                    Some(pos) => match index_before(inp, 3, pos) {
                        Some(rp) => {
                            let req = inp.subrange(rp + 1, pos);
                            if request_ok(req) {
                                &&& r == Ok::<usize, PlError>(buf@.len() as usize)
                                &&& final(self).handled() == old(self).handled().push(req)
                                &&& final(self).input() == inp.skip(pos + 1)
                                &&& final(self).relays() == relays_after(old(self).relays(), req)
                                &&& final(self).responses() == old(self).responses().push(
                                    response_to(final(self).relays(), req),
                                )
                            } else {
                                &&& r == Err::<usize, PlError>(PlError::Protocol)
                                &&& final(self).input() == inp
                                &&& final(self).relays() == old(self).relays()
                                &&& final(self).responses() == old(self).responses()
                            }
                        },
                        None => {
                            &&& r == Ok::<usize, PlError>(buf@.len() as usize)
                            &&& final(self).input() == inp
                            &&& final(self).relays() == old(self).relays()
                            &&& final(self).responses() == old(self).responses()
                        },
                    },
                    None => {
                        &&& r == Ok::<usize, PlError>(buf@.len() as usize)
                        &&& final(self).input() == inp
                        &&& final(self).relays() == old(self).relays()
                        &&& final(self).responses() == old(self).responses()
                    },
                }
            }),
    {
        self.input.extend_from_slice(buf);
        let ghost inp = self.input@;
        assert(inp =~= old(self).input() + buf@);
        let n = self.input.len();
        let mut pos: usize = 0;
        while pos < n && self.input[pos] != 13
            invariant
                self.output@ == old(self).output(),
                self.plug@ == old(self).relays(),
                self.handled == old(self).handled,
                self.responses() == old(self).responses(),
                n == self.input@.len(),
                self.input@ == inp,
                pos <= n,
                index_from(inp, 13, 0) == index_from(inp, 13, pos as int),
            decreases n - pos,
        {
            pos = pos + 1;
        }
        if pos == n {
            return Ok(buf.len());
        }
        let mut rp: usize = pos;
        while rp > 0 && self.input[rp - 1] != 3
            invariant
                n == self.input@.len(),
                self.output@ == old(self).output(),
                self.plug@ == old(self).relays(),
                self.handled == old(self).handled,
                self.responses() == old(self).responses(),
                self.input@ == inp,
                rp <= pos < n,
                index_before(inp, 3, pos as int) == index_before(inp, 3, rp as int),
            decreases rp,
        {
            rp = rp - 1;
        }
        if rp == 0 {
            return Ok(buf.len());
        }
        let request = vstd::slice::slice_to_vec(
            vstd::slice::slice_subrange(self.input.as_slice(), rp, pos),
        );
        self.handle_incoming(request.as_slice())?;
        let rest = vstd::slice::slice_to_vec(
            vstd::slice::slice_subrange(self.input.as_slice(), pos + 1, n),
        );
        self.input = rest;
        proof {
            assert(self.input@ =~= inp.skip(pos + 1));
        }
        Ok(buf.len())
    }

    /// Reads through the next end-of-line byte of the pending frame (or to
    /// its end), framing the oldest response first where nothing is pending.
    /// With no response pending, reading fails.
    pub fn read_line(&mut self) -> (r: PlResult<Vec<u8>>)
        ensures
            final(self).input() == old(self).input(),
            final(self).relays() == old(self).relays(),
            final(self).handled() == old(self).handled(),
            r is Err <==> old(self).pending_frame() is None,
            r matches Err(e) ==> e == PlError::Io(IoErrorKind::Other) && final(self).responses()
                == old(self).responses() && final(self).output() == old(self).output(),
            r matches Ok(line) ==> {
                let out = old(self).pending_frame()->0;
                &&& final(self).responses() == if old(self).output().len() > 0 {
                    old(self).responses()
                } else {
                    old(self).responses().drop_first()
                }
                &&& match index_from(out, EOM, 0) {
                    Some(i) => line@ == out.take(i + 1) && final(self).output() == out.skip(i + 1),
                    None => line@ == out && final(self).output().len() == 0,
                }
            },
    {
        if self.output.len() == 0 {
            if self.responses.len() == 0 {
                return Err(PlError::Io(IoErrorKind::Other));
            }
            let ghost old_resp = self.responses@;
            let response = self.responses.remove(0);
            assert(response@ == old(self).responses()[0]);
            self.output = encode_frame(response.as_slice());
            proof {
                assert(self.responses@.map_values(|r: Vec<u8>| r@) =~= old(self).responses().drop_first());
            }
        }
        let ghost out = self.output@;
        let ghost resp_after = self.responses();
        assert(old(self).pending_frame() == Some(out));
        assert(resp_after == if old(self).output().len() > 0 {
            old(self).responses()
        } else {
            old(self).responses().drop_first()
        });
        let n = self.output.len();
        let mut i: usize = 0;
        while i < n
            invariant
                self.input@ == old(self).input(),
                self.plug@ == old(self).relays(),
                self.handled == old(self).handled,
                self.responses() == resp_after,
                old(self).pending_frame() == Some(out),
                resp_after == if old(self).output().len() > 0 {
                    old(self).responses()
                } else {
                    old(self).responses().drop_first()
                },
                n == self.output@.len(),
                self.output@ == out,
                i <= n,
                index_from(out, EOM, 0) == index_from(out, EOM, i as int),
            decreases n - i,
        {
            if self.output[i] == EOM {
                let line = vstd::slice::slice_to_vec(
                    vstd::slice::slice_subrange(self.output.as_slice(), 0, i + 1),
                );
                let rest = vstd::slice::slice_to_vec(
                    vstd::slice::slice_subrange(self.output.as_slice(), i + 1, n),
                );
                self.output = rest;
                proof {
                    assert(line@ =~= out.take(i + 1));
                    assert(self.output@ =~= out.skip(i + 1));
                }
                return Ok(line);
            }
            i = i + 1;
        }
        let line = vstd::slice::slice_to_vec(self.output.as_slice());
        self.output = Vec::new();
        Ok(line)
    }
}

proof fn lemma_index_from_hit(s: Seq<u8>, b: u8, i: int, j: int)
    requires
        0 <= i <= j < s.len(),
        s[j] == b,
        forall|k: int| i <= k < j ==> s[k] != b,
    ensures
        index_from(s, b, i) == Some(j),
    decreases j - i,
{
    if i < j {
        lemma_index_from_hit(s, b, i + 1, j);
    }
}

proof fn lemma_index_before_hit(s: Seq<u8>, b: u8, hi: int, j: int)
    requires
        0 <= j < hi <= s.len(),
        s[j] == b,
        forall|k: int| j < k < hi ==> s[k] != b,
    ensures
        index_before(s, b, hi) == Some(j),
    decreases hi - j,
{
    if j < hi - 1 {
        lemma_index_before_hit(s, b, hi - 1, j);
    }
}

/// Where a frame of an upper-case hex payload ends, and what lies inside:
/// its only carriage return and line feed are the footer's, and its last
/// `0x03` before them ends the header.
pub proof fn lemma_frame_markers(p: Seq<u8>)
    requires
        upper_hex_only(p),
    ensures
        ({
            let f = crate::frame::frame_spec(p);
            let crc = hex_upper(crate::frame::xmodem_crc(p) as nat, 4);
            &&& f.len() == p.len() + 10
            &&& index_from(f, 13, 0) == Some(p.len() as int + 8)
            &&& index_from(f, EOM, 0) == Some(p.len() as int + 9)
            &&& index_before(f, 3, p.len() as int + 8) == Some(3int)
            &&& f.subrange(4, p.len() as int + 8) == p + crc
        }),
{
    let f = crate::frame::frame_spec(p);
    let crc = hex_upper(crate::frame::xmodem_crc(p) as nat, 4);
    crate::hex::lemma_hex_upper_is_upper(crate::frame::xmodem_crc(p) as nat, 4);
    crate::hex::lemma_hex_upper_value(crate::frame::xmodem_crc(p) as nat, 4);
    let n = p.len() as int;
    assert(f.len() == n + 10);
    assert forall|k: int| 4 <= k < n + 8 implies (48 <= #[trigger] f[k] <= 57 || 65 <= f[k] <= 70) by {
        if k < n + 4 {
            assert(f[k] == p[k - 4]);
        } else {
            assert(f[k] == crc[k - n - 4]);
        }
    }
    lemma_index_from_hit(f, 13, 0, n + 8);
    lemma_index_from_hit(f, EOM, 0, n + 9);
    lemma_index_before_hit(f, 3, n + 8, 3);
    assert(f.subrange(4, n + 8) =~= p + crc);
}

proof fn lemma_command_of_request(m: Message, crc: Seq<u8>)
    requires
        m.is_request(),
    ensures
        command_of(m.spec_payload() + crc) == Some(m.id().code()),
{
    let s = m.spec_payload() + crc;
    let code = m.id().code() as nat;
    crate::hex::lemma_hex_upper_is_upper(code, 4);
    crate::hex::lemma_hex_upper_value(code, 4);
    crate::hex::lemma_pow16_values();
    vstd::arithmetic::div_mod::lemma_small_mod(code, crate::hex::pow16(4));
    assert(s.take(4) =~= hex_upper(code, 4));
    assert(forall|i: int| 0 <= i < 4 ==> s[i] == hex_upper(code, 4)[i]);
}

proof fn lemma_switch_request(relays: Map<u64, bool>, mac: u64, on: bool, crc: Seq<u8>)
    requires
        crc.len() == 4,
    ensures
        ({
            let sw = Message::ReqSwitch(ReqHeader { mac }, ReqSwitch { on }).spec_payload() + crc;
            &&& request_ok(sw)
            &&& relays_after(relays, sw) == relays.insert(mac, on)
            &&& command_of(sw) == Some(0x0017u16)
            &&& request_mac(sw, 0x0017) == Some(mac)
        }),
{
    let m = Message::ReqSwitch(ReqHeader { mac }, ReqSwitch { on });
    let sw = m.spec_payload() + crc;
    let b: nat = if on { 1 } else { 0 };
    lemma_command_of_request(m, crc);
    crate::hex::lemma_hex_upper_value(0x0017, 4);
    crate::hex::lemma_hex_upper_value(mac as nat, 16);
    crate::hex::lemma_hex_upper_value(b, 2);
    assert(sw.subrange(4, 20) =~= hex_upper(mac as nat, 16));
    assert(sw.subrange(20, 22) =~= hex_upper(b, 2));
    crate::hex::lemma_pow16_values();
    crate::messages::lemma_pow16_16();
    crate::hex::lemma_parse_hex_upper(mac as nat, 16);
    crate::hex::lemma_parse_hex_upper(b, 2);
}

proof fn lemma_info_request(relays: Map<u64, bool>, mac: u64, crc: Seq<u8>)
    requires
        crc.len() == 4,
    ensures
        ({
            let info = Message::ReqInfo(ReqHeader { mac }).spec_payload() + crc;
            let on = relays.contains_key(mac) && relays[mac];
            &&& request_ok(info)
            &&& command_of(info) == Some(0x0023u16)
            &&& request_mac(info, 0x0023) == Some(mac)
            &&& relays_after(relays, info) == relays
            &&& field_at(response_to(relays, info), 40, 2) == Some(if on { 1nat } else { 0nat })
        }),
{
    let m = Message::ReqInfo(ReqHeader { mac });
    let info = m.spec_payload() + crc;
    let on = relays.contains_key(mac) && relays[mac];
    let b: nat = if on { 1 } else { 0 };
    lemma_command_of_request(m, crc);
    crate::hex::lemma_hex_upper_value(0x0023, 4);
    crate::hex::lemma_hex_upper_value(mac as nat, 16);
    assert(info.subrange(4, 20) =~= hex_upper(mac as nat, 16));
    crate::hex::lemma_pow16_values();
    crate::messages::lemma_pow16_16();
    crate::hex::lemma_parse_hex_upper(mac as nat, 16);
    let resp = response_to(relays, info);
    crate::hex::lemma_hex_upper_value(0x0024, 4);
    crate::hex::lemma_hex_upper_value(0, 4);
    crate::hex::lemma_hex_upper_value(0x0F0489B800048398, 16);
    crate::hex::lemma_hex_upper_value(b, 2);
    assert(resp.subrange(40, 42) =~= hex_upper(b, 2));
    crate::hex::lemma_parse_hex_upper(b, 2);
}

/// In the simulator a Circle's relay reads back as the last Switch set it:
/// the stick understands a Switch and an Info request for the same Circle
/// (each with any 4-character CRC field), the Info request changes no
/// relay, and its response carries the state that the Switch set.
pub proof fn lemma_sim_switch_then_info(
    relays: Map<u64, bool>,
    mac: u64,
    on: bool,
    crc1: Seq<u8>,
    crc2: Seq<u8>,
)
    requires
        crc1.len() == 4,
        crc2.len() == 4,
    ensures
        ({
            let sw = Message::ReqSwitch(ReqHeader { mac }, ReqSwitch { on }).spec_payload() + crc1;
            let info = Message::ReqInfo(ReqHeader { mac }).spec_payload() + crc2;
            let after = relays_after(relays, sw);
            &&& request_ok(sw)
            &&& request_ok(info)
            &&& after == relays.insert(mac, on)
            &&& relays_after(after, info) == after
            &&& field_at(response_to(after, info), 40, 2) == Some(if on { 1nat } else { 0nat })
        }),
{
    lemma_switch_request(relays, mac, on, crc1);
    lemma_info_request(relays.insert(mac, on), mac, crc2);
}

/// The simulated stick acknowledges a Switch with an ACK that names the
/// Circle: one frame of upper-case hex that decodes and ends the exchange.
pub proof fn lemma_sim_switch_ack(relays: Map<u64, bool>, mac: u64, on: bool, crc: Seq<u8>)
    requires
        crc.len() == 4,
    ensures
        ({
            let sw = Message::ReqSwitch(ReqHeader { mac }, ReqSwitch { on }).spec_payload() + crc;
            let resp = response_to(relays_after(relays, sw), sw);
            &&& request_ok(sw)
            &&& relays_after(relays, sw) == relays.insert(mac, on)
            &&& upper_hex_only(resp)
            &&& Message::spec_decodable(resp)
            &&& crate::engine::accepts(crate::engine::Expect::AckFrom(mac), resp)
        }),
{
    lemma_switch_request(relays, mac, on, crc);
    let sw = Message::ReqSwitch(ReqHeader { mac }, ReqSwitch { on }).spec_payload() + crc;
    let resp = response_to(relays_after(relays, sw), sw);
    let z = hex_upper(0, 4);
    let m = hex_upper(mac as nat, 16);
    assert(resp == z + z + z + m);
    crate::hex::lemma_hex_upper_is_upper(0, 4);
    crate::hex::lemma_hex_upper_is_upper(mac as nat, 16);
    lemma_upper_hex_concat(z, z);
    lemma_upper_hex_concat(z + z, z);
    lemma_upper_hex_concat(z + z + z, m);
    crate::hex::lemma_hex_upper_value(0, 4);
    crate::hex::lemma_hex_upper_value(mac as nat, 16);
    crate::hex::lemma_pow16_values();
    crate::messages::lemma_pow16_16();
    crate::hex::lemma_parse_hex_upper(0, 4);
    crate::hex::lemma_parse_hex_upper(mac as nat, 16);
    assert(resp.subrange(0, 4) =~= z);
    assert(resp.subrange(4, 8) =~= z);
    assert(payload_id(resp) == Some(MessageId::Ack));
    let body = resp.skip(8);
    assert(body.subrange(0, 4) =~= z);
    assert(body.subrange(4, 20) =~= m);
    assert(Ack::spec_decode(body) == Some(Ack { status: 0, mac: Some(mac) }));
}

/// Writing the frame of a request to an idle simulated stick: the stick
/// takes the whole frame as one request (payload and CRC field); the line
/// feed that ends the frame stays behind in the input.
pub proof fn lemma_sim_request_write(port: Stub, m: Message)
    requires
        port.idle(),
        m.is_request(),
    ensures
        ({
            let p = m.spec_payload();
            let crc = hex_upper(crate::frame::xmodem_crc(p) as nat, 4);
            let k = port.input().len() as int;
            let inp = port.input() + crate::frame::frame_spec(p);
            &&& crc.len() == 4
            &&& index_from(inp, 13, 0) == Some(k + p.len() + 8)
            &&& index_before(inp, 3, k + p.len() + 8) == Some(k + 3)
            &&& inp.subrange(k + 3 + 1, k + p.len() + 8) == p + crc
            &&& inp.skip(k + p.len() + 8 + 1) == seq![10u8]
        }),
{
    let p = m.spec_payload();
    let f = crate::frame::frame_spec(p);
    let pre = port.input();
    let k = pre.len() as int;
    let n = p.len() as int;
    let inp = pre + f;
    crate::messages::lemma_request_payload_upper(m);
    lemma_frame_markers(p);
    crate::hex::lemma_hex_upper_value(crate::frame::xmodem_crc(p) as nat, 4);
    let crc = hex_upper(crate::frame::xmodem_crc(p) as nat, 4);
    crate::hex::lemma_hex_upper_is_upper(crate::frame::xmodem_crc(p) as nat, 4);
    assert forall|i: int| 0 <= i < k + n + 8 implies #[trigger] inp[i] != 13 by {
        if i >= k + 4 && i < k + n + 4 {
            assert(inp[i] == p[i - k - 4]);
        } else if i >= k + n + 4 {
            assert(inp[i] == crc[i - k - n - 4]);
        }
    }
    lemma_index_from_hit(inp, 13, 0, k + n + 8);
    assert forall|i: int| k + 3 < i < k + n + 8 implies #[trigger] inp[i] != 3 by {
        if i < k + n + 4 {
            assert(inp[i] == p[i - k - 4]);
        } else {
            assert(inp[i] == crc[i - k - n - 4]);
        }
    }
    lemma_index_before_hit(inp, 3, k + n + 8, k + 3);
    assert(inp.subrange(k + 4, k + n + 8) =~= p + crc);
    assert(inp.skip(k + n + 9) =~= seq![10u8]);
}

/// Reading from a simulated stick whose only traffic is one queued response
/// gives that response's whole frame and leaves the stick idle.
pub proof fn lemma_sim_read_one(port: Stub, resp: Seq<u8>)
    requires
        port.output().len() == 0,
        port.responses() == seq![resp],
        upper_hex_only(resp),
    ensures
        port.pending_frame() == Some(crate::frame::frame_spec(resp)),
        index_from(crate::frame::frame_spec(resp), EOM, 0) == Some(resp.len() as int + 9),
        crate::frame::frame_spec(resp).take(resp.len() as int + 9 + 1) == crate::frame::frame_spec(resp),
        crate::frame::frame_spec(resp).skip(resp.len() as int + 9 + 1).len() == 0,
        port.responses().drop_first().len() == 0,
{
    lemma_frame_markers(resp);
    assert(crate::frame::frame_spec(resp).take(resp.len() as int + 9 + 1) =~= crate::frame::frame_spec(resp));
}

/// The simulated stick answers an Info request with one well-formed Info
/// response, in upper-case hex, that carries the Circle's relay state.
#[verifier::rlimit(40)]
pub proof fn lemma_sim_info_response(relays: Map<u64, bool>, mac: u64, crc: Seq<u8>)
    requires
        crc.len() == 4,
    ensures
        ({
            let req = Message::ReqInfo(ReqHeader { mac }).spec_payload() + crc;
            let resp = response_to(relays, req);
            let on = relays.contains_key(mac) && relays[mac];
            &&& request_ok(req)
            &&& relays_after(relays, req) == relays
            &&& upper_hex_only(resp)
            &&& Message::spec_decodable(resp)
            &&& crate::engine::accepts(crate::engine::Expect::Message(MessageId::ResInfo), resp)
            &&& forall|m: Message|
                #[trigger] Message::spec_decodes(resp, m) ==> (m matches Message::ResInfo(_, info)
                    && info.relay_state == on && info.datetime == (crate::messages::DateTime {
                    year: 0x0F,
                    months: 0x04,
                    minutes: 0x89B8,
                }) && info.last_logaddr == 540 && info.hz == 50 && info.fw_ver == 0x4E0844C2
                    && info.unknown == 2)
        }),
{
    lemma_info_request(relays, mac, crc);
    let req = Message::ReqInfo(ReqHeader { mac }).spec_payload() + crc;
    let resp = response_to(relays, req);
    let on = relays.contains_key(mac) && relays[mac];
    let b: nat = if on { 1 } else { 0 };
    let id = hex_upper(0x0024, 4);
    let z = hex_upper(0, 4);
    let m = hex_upper(mac as nat, 16);
    let k = hex_upper(0x0F0489B800048398, 16);
    let st = hex_upper(b, 2);
    let a1 = hex_upper(0x856539070140, 12);
    let a2 = hex_upper(0x234E0844C202, 12);
    assert(resp == id + z + m + k + st + a1 + a2);
    crate::hex::lemma_hex_upper_is_upper(0x0024, 4);
    crate::hex::lemma_hex_upper_is_upper(0, 4);
    crate::hex::lemma_hex_upper_is_upper(mac as nat, 16);
    crate::hex::lemma_hex_upper_is_upper(0x0F0489B800048398, 16);
    crate::hex::lemma_hex_upper_is_upper(b, 2);
    crate::hex::lemma_hex_upper_is_upper(0x856539070140, 12);
    crate::hex::lemma_hex_upper_is_upper(0x234E0844C202, 12);
    crate::hex::lemma_hex_upper_value(0x0024, 4);
    crate::hex::lemma_hex_upper_value(0, 4);
    crate::hex::lemma_hex_upper_value(mac as nat, 16);
    crate::hex::lemma_hex_upper_value(0x0F0489B800048398, 16);
    crate::hex::lemma_hex_upper_value(b, 2);
    crate::hex::lemma_hex_upper_value(0x856539070140, 12);
    crate::hex::lemma_hex_upper_value(0x234E0844C202, 12);
    lemma_upper_hex_concat(id, z);
    lemma_upper_hex_concat(id + z, m);
    lemma_upper_hex_concat(id + z + m, k);
    lemma_upper_hex_concat(id + z + m + k, st);
    lemma_upper_hex_concat(id + z + m + k + st, a1);
    lemma_upper_hex_concat(id + z + m + k + st + a1, a2);
    assert(upper_hex_only(resp));
    assert(resp.len() == 66);
    crate::hex::lemma_pow16_values();
    crate::hex::lemma_parse_hex_upper(0x0024, 4);
    crate::hex::lemma_parse_hex_upper(b, 2);
    assert(resp.subrange(0, 4) =~= id);
    assert(payload_id(resp) == Some(MessageId::ResInfo));
    crate::hex::lemma_upper_hex_parses(resp, 4, 8);
    crate::hex::lemma_upper_hex_parses(resp, 8, 24);
    let body = resp.skip(24);
    assert forall|i: int| 0 <= i < body.len() implies (48 <= #[trigger] body[i] <= 57 || 65 <= body[i]
        <= 70) by {
        assert(body[i] == resp[i + 24]);
    }
    crate::hex::lemma_upper_hex_parses(body, 0, 8);
    crate::hex::lemma_upper_hex_parses(body, 0, 2);
    crate::hex::lemma_upper_hex_parses(body, 2, 4);
    crate::hex::lemma_upper_hex_parses(body, 4, 8);
    crate::hex::lemma_upper_hex_parses(body, 8, 16);
    crate::hex::lemma_upper_hex_parses(body, 16, 18);
    crate::hex::lemma_upper_hex_parses(body, 18, 20);
    crate::hex::lemma_upper_hex_parses(body, 32, 40);
    crate::hex::lemma_upper_hex_parses(body, 40, 42);
    let hw = body.subrange(20, 32);
    assert forall|i: int| 0 <= i < hw.len() implies #[trigger] hw[i] < 0x80 by {
        assert(hw[i] == body[20 + i]);
    }
    crate::hex::lemma_ascii_valid_utf8(hw);
    assert(body.subrange(16, 18) =~= st);
    assert(field_at(body, 16, 2) == Some(b));
    assert(crate::messages::ResInfo::wire_ok(body));
    crate::hex::lemma_hex_upper_split(0x0F0489B800048398, 8, 8);
    crate::hex::lemma_hex_upper_split(0x0F0489B8, 4, 4);
    crate::hex::lemma_hex_upper_split(0x0F04, 2, 2);
    assert(crate::hex::pow16(4) == 0x1_0000);
    assert(crate::hex::pow16(2) == 0x100);
    assert(0x0F0489B800048398nat / 0x1_0000_0000nat == 0x0F0489B8nat);
    assert(0x0F0489B8nat / 0x1_0000nat == 0x0F04nat);
    assert(0x0F0489B8nat % 0x1_0000nat == 0x89B8nat);
    assert(0x0F04nat / 0x100nat == 0x0Fnat);
    assert(0x0F04nat % 0x100nat == 0x04nat);
    assert(k == hex_upper(0x0F, 2) + hex_upper(0x04, 2) + hex_upper(0x89B8, 4) + hex_upper(
        0x0F0489B800048398nat % 0x1_0000_0000nat,
        8,
    ));
    crate::hex::lemma_hex_upper_value(0x0F, 2);
    crate::hex::lemma_hex_upper_value(0x04, 2);
    crate::hex::lemma_hex_upper_value(0x89B8, 4);
    crate::hex::lemma_parse_hex_upper(0x0F, 2);
    crate::hex::lemma_parse_hex_upper(0x04, 2);
    crate::hex::lemma_parse_hex_upper(0x89B8, 4);
    assert(body.subrange(0, 2) =~= hex_upper(0x0F, 2));
    assert(body.subrange(2, 4) =~= hex_upper(0x04, 2));
    assert(body.subrange(4, 8) =~= hex_upper(0x89B8, 4));
    crate::hex::lemma_pow16_values();
    crate::messages::lemma_pow16_add(8, 2);
    assert(crate::hex::pow16(10) == 0x100_0000_0000);
    assert(0x0F0489B800048398nat % 0x1_0000_0000nat == 0x00048398nat);
    crate::hex::lemma_hex_upper_value(0x00048398, 8);
    crate::hex::lemma_parse_hex_upper(0x00048398, 8);
    assert(body.subrange(8, 16) =~= hex_upper(0x00048398, 8));
    assert(crate::messages::addr2pos_spec(0x00048398) == 540);
    crate::hex::lemma_hex_upper_split(0x856539070140, 2, 10);
    assert(0x856539070140nat / 0x100_0000_0000nat == 0x85nat);
    crate::hex::lemma_hex_upper_value(0x85, 2);
    crate::hex::lemma_parse_hex_upper(0x85, 2);
    assert(body.subrange(18, 20) =~= hex_upper(0x85, 2));
    crate::hex::lemma_hex_upper_split(0x234E0844C202, 2, 10);
    assert(0x234E0844C202nat % 0x100_0000_0000nat == 0x4E0844C202nat);
    crate::hex::lemma_hex_upper_split(0x4E0844C202, 8, 2);
    assert(0x4E0844C202nat / 0x100nat == 0x4E0844C2nat);
    assert(0x4E0844C202nat % 0x100nat == 0x02nat);
    crate::hex::lemma_hex_upper_value(0x4E0844C2, 8);
    crate::hex::lemma_parse_hex_upper(0x4E0844C2, 8);
    crate::hex::lemma_hex_upper_value(0x02, 2);
    crate::hex::lemma_parse_hex_upper(0x02, 2);
    assert(a2 == hex_upper(0x234E0844C202nat / 0x100_0000_0000nat, 2) + hex_upper(0x4E0844C2, 8)
        + hex_upper(0x02, 2));
    assert(body.subrange(32, 40) =~= hex_upper(0x4E0844C2, 8));
    assert(body.subrange(40, 42) =~= hex_upper(0x02, 2));
    assert(((0x4E0844C2u32) as i32) as i64 == 0x4E0844C2);
}

/// What the simulated stick receives for request `m`: its payload and CRC field.
pub open spec fn sim_request(m: Message) -> Seq<u8> {
    m.spec_payload() + hex_upper(crate::frame::xmodem_crc(m.spec_payload()) as nat, 4)
}

/// The simulated stick understands request `m` and answers it, given relay
/// states `relays`, with one upper-case hex payload that decodes and ends
/// an exchange waiting for `e`.
pub open spec fn sim_answers(m: Message, e: crate::engine::Expect, relays: Map<u64, bool>) -> bool {
    let req = sim_request(m);
    let resp = response_to(relays_after(relays, req), req);
    &&& m.is_request()
    &&& request_ok(req)
    &&& upper_hex_only(resp)
    &&& Message::spec_decodable(resp)
    &&& crate::engine::accepts(e, resp)
}

/// Every field of an all-upper-hex payload is well formed.
proof fn lemma_fields_parse(s: Seq<u8>, off: int, n: int)
    requires
        upper_hex_only(s),
        0 <= off,
        0 < n,
        off + n <= s.len(),
    ensures
        field_at(s, off, n) is Some,
{
    crate::hex::lemma_upper_hex_parses(s, off, off + n);
}

/// The simulated stick answers Initialize with an online network.
pub proof fn lemma_sim_initialize(relays: Map<u64, bool>)
    ensures
        sim_answers(
            Message::ReqInitialize,
            crate::engine::Expect::Message(MessageId::ResInitialize),
            relays,
        ),
        relays_after(relays, sim_request(Message::ReqInitialize)) == relays,
        forall|m: Message|
            #[trigger] Message::spec_decodes(
                response_to(relays, sim_request(Message::ReqInitialize)),
                m,
            ) ==> (m matches Message::ResInitialize(_, r) && r.is_online),
{
    let msg = Message::ReqInitialize;
    let p = msg.spec_payload();
    crate::hex::lemma_hex_upper_value(crate::frame::xmodem_crc(p) as nat, 4);
    let crc = hex_upper(crate::frame::xmodem_crc(p) as nat, 4);
    let req = p + crc;
    lemma_command_of_request(msg, crc);
    crate::hex::lemma_hex_upper_value(0x000A, 4);
    let resp = response_to(relays, req);
    let a = hex_upper(0x0011, 4);
    let z4 = hex_upper(0, 4);
    let z16 = hex_upper(0, 16);
    let one = hex_upper(1, 2);
    let z2 = hex_upper(0, 2);
    assert(resp == a + z4 + z16 + one + one + z16 + z4 + z2);
    crate::hex::lemma_hex_upper_is_upper(0x0011, 4);
    crate::hex::lemma_hex_upper_is_upper(0, 4);
    crate::hex::lemma_hex_upper_is_upper(0, 16);
    crate::hex::lemma_hex_upper_is_upper(1, 2);
    crate::hex::lemma_hex_upper_is_upper(0, 2);
    crate::hex::lemma_hex_upper_value(0x0011, 4);
    crate::hex::lemma_hex_upper_value(0, 4);
    crate::hex::lemma_hex_upper_value(0, 16);
    crate::hex::lemma_hex_upper_value(1, 2);
    crate::hex::lemma_hex_upper_value(0, 2);
    lemma_upper_hex_concat(a, z4);
    lemma_upper_hex_concat(a + z4, z16);
    lemma_upper_hex_concat(a + z4 + z16, one);
    lemma_upper_hex_concat(a + z4 + z16 + one, one);
    lemma_upper_hex_concat(a + z4 + z16 + one + one, z16);
    lemma_upper_hex_concat(a + z4 + z16 + one + one + z16, z4);
    lemma_upper_hex_concat(a + z4 + z16 + one + one + z16 + z4, z2);
    assert(resp.len() == 50);
    crate::hex::lemma_pow16_values();
    crate::hex::lemma_parse_hex_upper(0x0011, 4);
    crate::hex::lemma_parse_hex_upper(1, 2);
    assert(resp.subrange(0, 4) =~= a);
    lemma_fields_parse(resp, 4, 4);
    lemma_fields_parse(resp, 8, 16);
    let body = resp.skip(24);
    assert forall|i: int| 0 <= i < body.len() implies (48 <= #[trigger] body[i] <= 57 || 65 <= body[i]
        <= 70) by {
        assert(body[i] == resp[i + 24]);
    }
    lemma_fields_parse(body, 0, 2);
    lemma_fields_parse(body, 2, 2);
    lemma_fields_parse(body, 4, 16);
    lemma_fields_parse(body, 20, 4);
    lemma_fields_parse(body, 24, 2);
    assert(body.subrange(2, 4) =~= one);
}

/// The simulated stick answers Calibration of any Circle.
pub proof fn lemma_sim_calibration(relays: Map<u64, bool>, mac: u64)
    ensures
        sim_answers(
            Message::ReqCalibration(ReqHeader { mac }),
            crate::engine::Expect::Message(MessageId::ResCalibration),
            relays,
        ),
        relays_after(relays, sim_request(Message::ReqCalibration(ReqHeader { mac }))) == relays,
        forall|m: Message|
            #[trigger] Message::spec_decodes(
                response_to(relays, sim_request(Message::ReqCalibration(ReqHeader { mac }))),
                m,
            ) ==> (m matches Message::ResCalibration(_, c) && c == (crate::messages::ResCalibration {
                gain_a: 0,
                gain_b: 0,
                off_total: 0,
                off_noise: 0,
            })),
{
    let msg = Message::ReqCalibration(ReqHeader { mac });
    let p = msg.spec_payload();
    crate::hex::lemma_hex_upper_value(crate::frame::xmodem_crc(p) as nat, 4);
    let crc = hex_upper(crate::frame::xmodem_crc(p) as nat, 4);
    let req = p + crc;
    lemma_command_of_request(msg, crc);
    crate::hex::lemma_hex_upper_value(0x0026, 4);
    crate::hex::lemma_hex_upper_value(mac as nat, 16);
    crate::hex::lemma_pow16_values();
    crate::messages::lemma_pow16_16();
    crate::hex::lemma_parse_hex_upper(mac as nat, 16);
    assert(req.subrange(4, 20) =~= hex_upper(mac as nat, 16));
    let resp = response_to(relays, req);
    let a = hex_upper(0x0027, 4);
    let z4 = hex_upper(0, 4);
    let m = hex_upper(mac as nat, 16);
    let z16 = hex_upper(0, 16);
    assert(resp == a + z4 + m + z16 + z16);
    crate::hex::lemma_hex_upper_is_upper(0x0027, 4);
    crate::hex::lemma_hex_upper_is_upper(0, 4);
    crate::hex::lemma_hex_upper_is_upper(mac as nat, 16);
    crate::hex::lemma_hex_upper_is_upper(0, 16);
    crate::hex::lemma_hex_upper_value(0x0027, 4);
    crate::hex::lemma_hex_upper_value(0, 4);
    crate::hex::lemma_hex_upper_value(0, 16);
    lemma_upper_hex_concat(a, z4);
    lemma_upper_hex_concat(a + z4, m);
    lemma_upper_hex_concat(a + z4 + m, z16);
    lemma_upper_hex_concat(a + z4 + m + z16, z16);
    assert(resp.len() == 56);
    crate::hex::lemma_parse_hex_upper(0x0027, 4);
    assert(resp.subrange(0, 4) =~= a);
    lemma_fields_parse(resp, 4, 4);
    lemma_fields_parse(resp, 8, 16);
    let body = resp.skip(24);
    assert forall|i: int| 0 <= i < body.len() implies (48 <= #[trigger] body[i] <= 57 || 65 <= body[i]
        <= 70) by {
        assert(body[i] == resp[i + 24]);
    }
    lemma_fields_parse(body, 0, 8);
    lemma_fields_parse(body, 8, 8);
    lemma_fields_parse(body, 16, 8);
    lemma_fields_parse(body, 24, 8);
    crate::hex::lemma_hex_upper_split(0, 8, 8);
    crate::hex::lemma_hex_upper_value(0, 8);
    crate::hex::lemma_parse_hex_upper(0, 8);
    assert(body.subrange(0, 8) =~= hex_upper(0, 8));
    assert(body.subrange(8, 16) =~= hex_upper(0, 8));
    assert(body.subrange(16, 24) =~= hex_upper(0, 8));
    assert(body.subrange(24, 32) =~= hex_upper(0, 8));
}

/// The block the simulated stick gives for every slot: four hours of
/// 2013-09-14 from 17:00, and slot 0.
pub open spec fn sim_block_answer() -> crate::messages::ResPowerBuffer {
    crate::messages::ResPowerBuffer {
        datetime1: crate::messages::DateTime { year: 0x0D, months: 0x09, minutes: 0x4D1C },
        pulses1: crate::messages::Pulses { pulses: 0x7B, timespan: 3600 },
        datetime2: crate::messages::DateTime { year: 0x0D, months: 0x09, minutes: 0x4D58 },
        pulses2: crate::messages::Pulses { pulses: 0x76, timespan: 3600 },
        datetime3: crate::messages::DateTime { year: 0x0D, months: 0x09, minutes: 0x4D94 },
        pulses3: crate::messages::Pulses { pulses: 0x71, timespan: 3600 },
        datetime4: crate::messages::DateTime { year: 0x0D, months: 0x09, minutes: 0x4DD0 },
        pulses4: crate::messages::Pulses { pulses: 0x31, timespan: 3600 },
        logaddr: 0,
    }
}

/// The simulated stick answers PowerBuffer of any Circle and slot with
/// the same block.
#[verifier::rlimit(40)]
pub proof fn lemma_sim_power_buffer(relays: Map<u64, bool>, mac: u64, logaddr: u32)
    ensures
        forall|m: Message|
            #[trigger] Message::spec_decodes(
                response_to(
                    relays,
                    sim_request(Message::ReqPowerBuffer(ReqHeader { mac }, crate::messages::ReqPowerBuffer { logaddr })),
                ),
                m,
            ) ==> (m matches Message::ResPowerBuffer(_, b) && b == sim_block_answer()),
        sim_answers(Message::ReqPowerBuffer(ReqHeader { mac }, crate::messages::ReqPowerBuffer { logaddr }), crate::engine::Expect::Message(MessageId::ResPowerBuffer), relays),
        relays_after(relays, sim_request(Message::ReqPowerBuffer(ReqHeader { mac }, crate::messages::ReqPowerBuffer { logaddr }))) == relays,
{
    let msg = Message::ReqPowerBuffer(ReqHeader { mac }, crate::messages::ReqPowerBuffer { logaddr });
    let p = msg.spec_payload();
    crate::hex::lemma_hex_upper_value(crate::frame::xmodem_crc(p) as nat, 4);
    let crc = hex_upper(crate::frame::xmodem_crc(p) as nat, 4);
    let req = p + crc;
    lemma_command_of_request(msg, crc);
    crate::hex::lemma_hex_upper_value(0x0048, 4);
    crate::hex::lemma_hex_upper_value(mac as nat, 16);
    crate::hex::lemma_pow16_values();
    crate::messages::lemma_pow16_16();
    crate::hex::lemma_parse_hex_upper(mac as nat, 16);
    assert(req.subrange(4, 20) =~= hex_upper(mac as nat, 16));
    let resp = response_to(relays, req);
    let a = hex_upper(0x0049, 4);
    let z = hex_upper(0, 4);
    let m = hex_upper(mac as nat, 16);
    let k1 = hex_upper(0x0D094D1C0000007B, 16);
    let k2 = hex_upper(0x0D094D5800000076, 16);
    let k3 = hex_upper(0x0D094D9400000071, 16);
    let k4 = hex_upper(0x0D094DD000000031, 16);
    let l = hex_upper(0x00044000, 8);
    assert(resp == a + z + m + k1 + k2 + k3 + k4 + l);
    crate::hex::lemma_hex_upper_is_upper(0x0049, 4);
    crate::hex::lemma_hex_upper_value(0x0049, 4);
    crate::hex::lemma_hex_upper_is_upper(0, 4);
    crate::hex::lemma_hex_upper_value(0, 4);
    crate::hex::lemma_hex_upper_is_upper(mac as nat, 16);
    crate::hex::lemma_hex_upper_value(mac as nat, 16);
    crate::hex::lemma_hex_upper_is_upper(0x0D094D1C0000007B, 16);
    crate::hex::lemma_hex_upper_value(0x0D094D1C0000007B, 16);
    crate::hex::lemma_hex_upper_is_upper(0x0D094D5800000076, 16);
    crate::hex::lemma_hex_upper_value(0x0D094D5800000076, 16);
    crate::hex::lemma_hex_upper_is_upper(0x0D094D9400000071, 16);
    crate::hex::lemma_hex_upper_value(0x0D094D9400000071, 16);
    crate::hex::lemma_hex_upper_is_upper(0x0D094DD000000031, 16);
    crate::hex::lemma_hex_upper_value(0x0D094DD000000031, 16);
    crate::hex::lemma_hex_upper_is_upper(0x00044000, 8);
    crate::hex::lemma_hex_upper_value(0x00044000, 8);
    lemma_upper_hex_concat(a, z);
    lemma_upper_hex_concat(a + z, m);
    lemma_upper_hex_concat(a + z + m, k1);
    lemma_upper_hex_concat(a + z + m + k1, k2);
    lemma_upper_hex_concat(a + z + m + k1 + k2, k3);
    lemma_upper_hex_concat(a + z + m + k1 + k2 + k3, k4);
    lemma_upper_hex_concat(a + z + m + k1 + k2 + k3 + k4, l);
    assert(resp.len() == 96);
    crate::hex::lemma_parse_hex_upper(0x0049, 4);
    assert(resp.subrange(0, 4) =~= a);
    lemma_fields_parse(resp, 4, 4);
    lemma_fields_parse(resp, 8, 16);
    let body = resp.skip(24);
    assert forall|i: int| 0 <= i < body.len() implies (48 <= #[trigger] body[i] <= 57 || 65 <= body[i]
        <= 70) by {
        assert(body[i] == resp[i + 24]);
    }
    lemma_fields_parse(body, 0, 8);
    lemma_fields_parse(body, 0, 2);
    lemma_fields_parse(body, 2, 2);
    lemma_fields_parse(body, 4, 4);
    lemma_fields_parse(body, 8, 8);
    lemma_fields_parse(body, 16, 8);
    lemma_fields_parse(body, 16, 2);
    lemma_fields_parse(body, 18, 2);
    lemma_fields_parse(body, 20, 4);
    lemma_fields_parse(body, 24, 8);
    lemma_fields_parse(body, 32, 8);
    lemma_fields_parse(body, 32, 2);
    lemma_fields_parse(body, 34, 2);
    lemma_fields_parse(body, 36, 4);
    lemma_fields_parse(body, 40, 8);
    lemma_fields_parse(body, 48, 8);
    lemma_fields_parse(body, 48, 2);
    lemma_fields_parse(body, 50, 2);
    lemma_fields_parse(body, 52, 4);
    lemma_fields_parse(body, 56, 8);
    lemma_fields_parse(body, 64, 8);
    crate::messages::lemma_pow16_add(4, 4);
    crate::hex::lemma_hex_upper_split(0x0D094D1C0000007B, 8, 8);
    assert(0x0D094D1C0000007Bnat / 0x1_0000_0000nat == 0x0D094D1Cnat);
    assert(0x0D094D1C0000007Bnat % 0x1_0000_0000nat == 0x0000007Bnat);
    crate::hex::lemma_hex_upper_split(0x0D094D1C, 4, 4);
    assert(0x0D094D1Cnat / 0x1_0000nat == 0x0D09nat);
    assert(0x0D094D1Cnat % 0x1_0000nat == 0x4D1Cnat);
    crate::hex::lemma_hex_upper_split(0x0D09, 2, 2);
    assert(0x0D09nat / 0x100nat == 0x0Dnat);
    assert(0x0D09nat % 0x100nat == 0x09nat);
    crate::hex::lemma_hex_upper_value(0x0D, 2);
    crate::hex::lemma_parse_hex_upper(0x0D, 2);
    crate::hex::lemma_hex_upper_value(0x09, 2);
    crate::hex::lemma_parse_hex_upper(0x09, 2);
    crate::hex::lemma_hex_upper_value(0x4D1C, 4);
    crate::hex::lemma_parse_hex_upper(0x4D1C, 4);
    crate::hex::lemma_hex_upper_value(0x0000007B, 8);
    crate::hex::lemma_parse_hex_upper(0x0000007B, 8);
    assert(body.subrange(0, 2) =~= hex_upper(0x0D, 2));
    assert(body.subrange(2, 4) =~= hex_upper(0x09, 2));
    assert(body.subrange(4, 8) =~= hex_upper(0x4D1C, 4));
    assert(body.subrange(8, 16) =~= hex_upper(0x0000007B, 8));
    crate::hex::lemma_hex_upper_split(0x0D094D5800000076, 8, 8);
    assert(0x0D094D5800000076nat / 0x1_0000_0000nat == 0x0D094D58nat);
    assert(0x0D094D5800000076nat % 0x1_0000_0000nat == 0x00000076nat);
    crate::hex::lemma_hex_upper_split(0x0D094D58, 4, 4);
    assert(0x0D094D58nat / 0x1_0000nat == 0x0D09nat);
    assert(0x0D094D58nat % 0x1_0000nat == 0x4D58nat);
    crate::hex::lemma_hex_upper_split(0x0D09, 2, 2);
    assert(0x0D09nat / 0x100nat == 0x0Dnat);
    assert(0x0D09nat % 0x100nat == 0x09nat);
    crate::hex::lemma_hex_upper_value(0x0D, 2);
    crate::hex::lemma_parse_hex_upper(0x0D, 2);
    crate::hex::lemma_hex_upper_value(0x09, 2);
    crate::hex::lemma_parse_hex_upper(0x09, 2);
    crate::hex::lemma_hex_upper_value(0x4D58, 4);
    crate::hex::lemma_parse_hex_upper(0x4D58, 4);
    crate::hex::lemma_hex_upper_value(0x00000076, 8);
    crate::hex::lemma_parse_hex_upper(0x00000076, 8);
    assert(body.subrange(16, 18) =~= hex_upper(0x0D, 2));
    assert(body.subrange(18, 20) =~= hex_upper(0x09, 2));
    assert(body.subrange(20, 24) =~= hex_upper(0x4D58, 4));
    assert(body.subrange(24, 32) =~= hex_upper(0x00000076, 8));
    crate::hex::lemma_hex_upper_split(0x0D094D9400000071, 8, 8);
    assert(0x0D094D9400000071nat / 0x1_0000_0000nat == 0x0D094D94nat);
    assert(0x0D094D9400000071nat % 0x1_0000_0000nat == 0x00000071nat);
    crate::hex::lemma_hex_upper_split(0x0D094D94, 4, 4);
    assert(0x0D094D94nat / 0x1_0000nat == 0x0D09nat);
    assert(0x0D094D94nat % 0x1_0000nat == 0x4D94nat);
    crate::hex::lemma_hex_upper_split(0x0D09, 2, 2);
    assert(0x0D09nat / 0x100nat == 0x0Dnat);
    assert(0x0D09nat % 0x100nat == 0x09nat);
    crate::hex::lemma_hex_upper_value(0x0D, 2);
    crate::hex::lemma_parse_hex_upper(0x0D, 2);
    crate::hex::lemma_hex_upper_value(0x09, 2);
    crate::hex::lemma_parse_hex_upper(0x09, 2);
    crate::hex::lemma_hex_upper_value(0x4D94, 4);
    crate::hex::lemma_parse_hex_upper(0x4D94, 4);
    crate::hex::lemma_hex_upper_value(0x00000071, 8);
    crate::hex::lemma_parse_hex_upper(0x00000071, 8);
    assert(body.subrange(32, 34) =~= hex_upper(0x0D, 2));
    assert(body.subrange(34, 36) =~= hex_upper(0x09, 2));
    assert(body.subrange(36, 40) =~= hex_upper(0x4D94, 4));
    assert(body.subrange(40, 48) =~= hex_upper(0x00000071, 8));
    crate::hex::lemma_hex_upper_split(0x0D094DD000000031, 8, 8);
    assert(0x0D094DD000000031nat / 0x1_0000_0000nat == 0x0D094DD0nat);
    assert(0x0D094DD000000031nat % 0x1_0000_0000nat == 0x00000031nat);
    crate::hex::lemma_hex_upper_split(0x0D094DD0, 4, 4);
    assert(0x0D094DD0nat / 0x1_0000nat == 0x0D09nat);
    assert(0x0D094DD0nat % 0x1_0000nat == 0x4DD0nat);
    crate::hex::lemma_hex_upper_split(0x0D09, 2, 2);
    assert(0x0D09nat / 0x100nat == 0x0Dnat);
    assert(0x0D09nat % 0x100nat == 0x09nat);
    crate::hex::lemma_hex_upper_value(0x0D, 2);
    crate::hex::lemma_parse_hex_upper(0x0D, 2);
    crate::hex::lemma_hex_upper_value(0x09, 2);
    crate::hex::lemma_parse_hex_upper(0x09, 2);
    crate::hex::lemma_hex_upper_value(0x4DD0, 4);
    crate::hex::lemma_parse_hex_upper(0x4DD0, 4);
    crate::hex::lemma_hex_upper_value(0x00000031, 8);
    crate::hex::lemma_parse_hex_upper(0x00000031, 8);
    assert(body.subrange(48, 50) =~= hex_upper(0x0D, 2));
    assert(body.subrange(50, 52) =~= hex_upper(0x09, 2));
    assert(body.subrange(52, 56) =~= hex_upper(0x4DD0, 4));
    assert(body.subrange(56, 64) =~= hex_upper(0x00000031, 8));
    crate::hex::lemma_hex_upper_value(0x00044000, 8);
    crate::hex::lemma_parse_hex_upper(0x00044000, 8);
    assert(body.subrange(64, 72) =~= hex_upper(0x00044000, 8));
    assert(crate::messages::addr2pos_spec(0x00044000) == 0);
}

/// The simulated stick answers PowerUse of any Circle.
pub proof fn lemma_sim_power_use(relays: Map<u64, bool>, mac: u64)
    ensures
        sim_answers(Message::ReqPowerUse(ReqHeader { mac }), crate::engine::Expect::Message(MessageId::ResPowerUse), relays),
        relays_after(relays, sim_request(Message::ReqPowerUse(ReqHeader { mac }))) == relays,
{
    let msg = Message::ReqPowerUse(ReqHeader { mac });
    let p = msg.spec_payload();
    crate::hex::lemma_hex_upper_value(crate::frame::xmodem_crc(p) as nat, 4);
    let crc = hex_upper(crate::frame::xmodem_crc(p) as nat, 4);
    let req = p + crc;
    lemma_command_of_request(msg, crc);
    crate::hex::lemma_hex_upper_value(0x0012, 4);
    crate::hex::lemma_hex_upper_value(mac as nat, 16);
    crate::hex::lemma_pow16_values();
    crate::messages::lemma_pow16_16();
    crate::hex::lemma_parse_hex_upper(mac as nat, 16);
    assert(req.subrange(4, 20) =~= hex_upper(mac as nat, 16));
    let resp = response_to(relays, req);
    let a = hex_upper(0x0013, 4);
    let z = hex_upper(0, 4);
    let m = hex_upper(mac as nat, 16);
    let z16 = hex_upper(0, 16);
    let z12 = hex_upper(0, 12);
    assert(resp == a + z + m + z16 + z12);
    crate::hex::lemma_hex_upper_is_upper(0x0013, 4);
    crate::hex::lemma_hex_upper_value(0x0013, 4);
    crate::hex::lemma_hex_upper_is_upper(0, 4);
    crate::hex::lemma_hex_upper_value(0, 4);
    crate::hex::lemma_hex_upper_is_upper(mac as nat, 16);
    crate::hex::lemma_hex_upper_value(mac as nat, 16);
    crate::hex::lemma_hex_upper_is_upper(0, 16);
    crate::hex::lemma_hex_upper_value(0, 16);
    crate::hex::lemma_hex_upper_is_upper(0, 12);
    crate::hex::lemma_hex_upper_value(0, 12);
    lemma_upper_hex_concat(a, z);
    lemma_upper_hex_concat(a + z, m);
    lemma_upper_hex_concat(a + z + m, z16);
    lemma_upper_hex_concat(a + z + m + z16, z12);
    assert(resp.len() == 52);
    crate::hex::lemma_parse_hex_upper(0x0013, 4);
    assert(resp.subrange(0, 4) =~= a);
    lemma_fields_parse(resp, 4, 4);
    lemma_fields_parse(resp, 8, 16);
    let body = resp.skip(24);
    assert forall|i: int| 0 <= i < body.len() implies (48 <= #[trigger] body[i] <= 57 || 65 <= body[i]
        <= 70) by {
        assert(body[i] == resp[i + 24]);
    }
    lemma_fields_parse(body, 0, 4);
    lemma_fields_parse(body, 4, 4);
    lemma_fields_parse(body, 8, 8);
    lemma_fields_parse(body, 16, 4);
    lemma_fields_parse(body, 20, 4);
    lemma_fields_parse(body, 24, 4);
}

/// The simulated stick answers ClockInfo of any Circle: 11:36:58 on day 6.
#[verifier::rlimit(40)]
pub proof fn lemma_sim_clock_info(relays: Map<u64, bool>, mac: u64)
    ensures
        forall|m: Message|
            #[trigger] Message::spec_decodes(
                response_to(relays, sim_request(Message::ReqClockInfo(ReqHeader { mac }))),
                m,
            ) ==> (m matches Message::ResClockInfo(_, c) && c == (crate::messages::ResClockInfo {
                hour: 11,
                minute: 36,
                second: 58,
                day_of_week: 6,
                unknown1: 1,
                unknown2: 0x457A,
            })),
        sim_answers(Message::ReqClockInfo(ReqHeader { mac }), crate::engine::Expect::Message(MessageId::ResClockInfo), relays),
        relays_after(relays, sim_request(Message::ReqClockInfo(ReqHeader { mac }))) == relays,
{
    let msg = Message::ReqClockInfo(ReqHeader { mac });
    let p = msg.spec_payload();
    crate::hex::lemma_hex_upper_value(crate::frame::xmodem_crc(p) as nat, 4);
    let crc = hex_upper(crate::frame::xmodem_crc(p) as nat, 4);
    let req = p + crc;
    lemma_command_of_request(msg, crc);
    crate::hex::lemma_hex_upper_value(0x003E, 4);
    crate::hex::lemma_hex_upper_value(mac as nat, 16);
    crate::hex::lemma_pow16_values();
    crate::messages::lemma_pow16_16();
    crate::hex::lemma_parse_hex_upper(mac as nat, 16);
    assert(req.subrange(4, 20) =~= hex_upper(mac as nat, 16));
    let resp = response_to(relays, req);
    let a = hex_upper(0x003F, 4);
    let z = hex_upper(0, 4);
    let m = hex_upper(mac as nat, 16);
    let c = hex_upper(0x0B243A0601457A, 14);
    assert(resp == a + z + m + c);
    crate::hex::lemma_hex_upper_is_upper(0x003F, 4);
    crate::hex::lemma_hex_upper_value(0x003F, 4);
    crate::hex::lemma_hex_upper_is_upper(0, 4);
    crate::hex::lemma_hex_upper_value(0, 4);
    crate::hex::lemma_hex_upper_is_upper(mac as nat, 16);
    crate::hex::lemma_hex_upper_value(mac as nat, 16);
    crate::hex::lemma_hex_upper_is_upper(0x0B243A0601457A, 14);
    crate::hex::lemma_hex_upper_value(0x0B243A0601457A, 14);
    lemma_upper_hex_concat(a, z);
    lemma_upper_hex_concat(a + z, m);
    lemma_upper_hex_concat(a + z + m, c);
    assert(resp.len() == 38);
    crate::hex::lemma_parse_hex_upper(0x003F, 4);
    assert(resp.subrange(0, 4) =~= a);
    lemma_fields_parse(resp, 4, 4);
    lemma_fields_parse(resp, 8, 16);
    let body = resp.skip(24);
    assert forall|i: int| 0 <= i < body.len() implies (48 <= #[trigger] body[i] <= 57 || 65 <= body[i]
        <= 70) by {
        assert(body[i] == resp[i + 24]);
    }
    lemma_fields_parse(body, 0, 2);
    lemma_fields_parse(body, 2, 2);
    lemma_fields_parse(body, 4, 2);
    lemma_fields_parse(body, 6, 2);
    lemma_fields_parse(body, 8, 2);
    lemma_fields_parse(body, 10, 4);
    crate::messages::lemma_pow16_add(8, 4);
    crate::messages::lemma_pow16_add(8, 2);
    crate::messages::lemma_pow16_add(4, 2);
    let p12 = crate::hex::pow16(12);
    let p10 = crate::hex::pow16(10);
    let p6 = crate::hex::pow16(6);
    assert(p12 == 0x1_0000_0000_0000);
    assert(p10 == 0x100_0000_0000);
    assert(p6 == 0x100_0000);
    crate::hex::lemma_hex_upper_split(0x0B243A0601457A, 2, 12);
    crate::hex::lemma_hex_upper_split(0x243A0601457A, 2, 10);
    crate::hex::lemma_hex_upper_split(0x3A0601457A, 2, 8);
    crate::hex::lemma_hex_upper_split(0x0601457A, 2, 6);
    crate::hex::lemma_hex_upper_split(0x01457A, 2, 4);
    assert(0x0B243A0601457Anat / 0x1_0000_0000_0000nat == 0x0Bnat);
    assert(0x0B243A0601457Anat % 0x1_0000_0000_0000nat == 0x243A0601457Anat);
    assert(0x243A0601457Anat / 0x100_0000_0000nat == 0x24nat);
    assert(0x243A0601457Anat % 0x100_0000_0000nat == 0x3A0601457Anat);
    assert(0x3A0601457Anat / 0x1_0000_0000nat == 0x3Anat);
    assert(0x3A0601457Anat % 0x1_0000_0000nat == 0x0601457Anat);
    assert(0x0601457Anat / 0x100_0000nat == 0x06nat);
    assert(0x0601457Anat % 0x100_0000nat == 0x01457Anat);
    assert(0x01457Anat / 0x1_0000nat == 0x01nat);
    assert(0x01457Anat % 0x1_0000nat == 0x457Anat);
    assert(c == hex_upper(0x0B, 2) + hex_upper(0x24, 2) + hex_upper(0x3A, 2) + hex_upper(0x06, 2)
        + hex_upper(0x01, 2) + hex_upper(0x457A, 4));
    crate::hex::lemma_hex_upper_value(0x0B, 2);
    crate::hex::lemma_hex_upper_value(0x24, 2);
    crate::hex::lemma_hex_upper_value(0x3A, 2);
    crate::hex::lemma_hex_upper_value(0x06, 2);
    crate::hex::lemma_hex_upper_value(0x01, 2);
    crate::hex::lemma_hex_upper_value(0x457A, 4);
    crate::hex::lemma_parse_hex_upper(0x0B, 2);
    crate::hex::lemma_parse_hex_upper(0x24, 2);
    crate::hex::lemma_parse_hex_upper(0x3A, 2);
    crate::hex::lemma_parse_hex_upper(0x06, 2);
    crate::hex::lemma_parse_hex_upper(0x01, 2);
    crate::hex::lemma_parse_hex_upper(0x457A, 4);
    assert(body.subrange(0, 2) =~= hex_upper(0x0B, 2));
    assert(body.subrange(2, 4) =~= hex_upper(0x24, 2));
    assert(body.subrange(4, 6) =~= hex_upper(0x3A, 2));
    assert(body.subrange(6, 8) =~= hex_upper(0x06, 2));
    assert(body.subrange(8, 10) =~= hex_upper(0x01, 2));
    assert(body.subrange(10, 14) =~= hex_upper(0x457A, 4));
}

/// The simulated stick acknowledges ClockSet of any Circle with an ACK that names it.
pub proof fn lemma_sim_clock_set(relays: Map<u64, bool>, mac: u64, set: crate::messages::ReqClockSet)
    ensures
        sim_answers(Message::ReqClockSet(ReqHeader { mac }, set), crate::engine::Expect::AckFrom(mac), relays),
        relays_after(relays, sim_request(Message::ReqClockSet(ReqHeader { mac }, set))) == relays,
{
    let msg = Message::ReqClockSet(ReqHeader { mac }, set);
    let p = msg.spec_payload();
    crate::hex::lemma_hex_upper_value(crate::frame::xmodem_crc(p) as nat, 4);
    let crc = hex_upper(crate::frame::xmodem_crc(p) as nat, 4);
    let req = p + crc;
    lemma_command_of_request(msg, crc);
    crate::hex::lemma_hex_upper_value(0x0016, 4);
    crate::hex::lemma_hex_upper_value(mac as nat, 16);
    crate::hex::lemma_pow16_values();
    crate::messages::lemma_pow16_16();
    crate::hex::lemma_parse_hex_upper(mac as nat, 16);
    assert(req.subrange(4, 20) =~= hex_upper(mac as nat, 16));
    let resp = response_to(relays, req);
    let z0 = hex_upper(0, 4);
    let z1 = hex_upper(0, 4);
    let z2 = hex_upper(0, 4);
    let m = hex_upper(mac as nat, 16);
    assert(resp == z0 + z1 + z2 + m);
    crate::hex::lemma_hex_upper_is_upper(0, 4);
    crate::hex::lemma_hex_upper_value(0, 4);
    crate::hex::lemma_hex_upper_is_upper(mac as nat, 16);
    crate::hex::lemma_hex_upper_value(mac as nat, 16);
    lemma_upper_hex_concat(z0, z1);
    lemma_upper_hex_concat(z0 + z1, z2);
    lemma_upper_hex_concat(z0 + z1 + z2, m);
    assert(resp.len() == 28);
    crate::hex::lemma_parse_hex_upper(0, 4);
    assert(resp.subrange(0, 4) =~= z0);
    lemma_fields_parse(resp, 4, 4);
    let body = resp.skip(8);
    assert forall|i: int| 0 <= i < body.len() implies (48 <= #[trigger] body[i] <= 57 || 65 <= body[i]
        <= 70) by {
        assert(body[i] == resp[i + 8]);
    }
    assert(body.subrange(4, 20) =~= m);
    crate::hex::lemma_parse_hex_upper(0, 4);
    assert(body.subrange(0, 4) =~= z0);
}

} // verus!
