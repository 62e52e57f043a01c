//! Frames on the byte stream: header, ASCII payload, CRC, footer.
use vstd::prelude::*;
use vstd::slice::{slice_subrange, slice_to_vec};
use crate::error::{PlError, PlResult};
use crate::hex::{hex_digit_value, hex_upper, hex_value, push_hex, pow16, lemma_hex_upper_value};

verus! {

/// Marks the start of a frame.
pub const HEADER: [u8; 4] = [5, 5, 3, 3];

/// Marks the end of a frame.
pub const FOOTER: [u8; 2] = [13, 10];

/// The byte that ends a line on the stream.
pub const EOM: u8 = 10;

/// Characters of the CRC field.
pub const CRC_SIZE: usize = 4;

/// CRC-16/XMODEM of a byte string (polynomial 0x1021, initial value 0,
/// no reflection, no final xor).
pub uninterp spec fn xmodem_crc(data: Seq<u8>) -> u16;

/// Relies on `crc16::State::<crc16::XMODEM>::calculate`: the CRC-16/XMODEM of
/// the bytes, which depends on them alone.
#[verifier::external_body]
fn crc_xmodem(data: &[u8]) -> (r: u16)
    ensures
        r == xmodem_crc(data@),
{
    crc16::State::<crc16::XMODEM>::calculate(data)
}

pub open spec fn header_seq() -> Seq<u8> {
    seq![5u8, 5u8, 3u8, 3u8]
}

pub open spec fn footer_seq() -> Seq<u8> {
    seq![13u8, 10u8]
}

/// The frame that carries `payload`.
pub open spec fn frame_spec(payload: Seq<u8>) -> Seq<u8> {
    header_seq() + payload + hex_upper(xmodem_crc(payload) as nat, 4) + footer_seq()
}

pub open spec fn is_header_at(s: Seq<u8>, i: int) -> bool {
    0 <= i && i + 4 <= s.len() && s[i] == 5 && s[i + 1] == 5 && s[i + 2] == 3 && s[i + 3] == 3
}

pub open spec fn is_footer_at(s: Seq<u8>, i: int) -> bool {
    0 <= i && i + 2 <= s.len() && s[i] == 13 && s[i + 1] == 10
}

/// The first header at or after `i`.
pub open spec fn header_from(s: Seq<u8>, i: int) -> Option<int>
    decreases s.len() - i,
{
    if i < 0 || i + 4 > s.len() {
        None
    } else if is_header_at(s, i) {
        Some(i)
    } else {
        header_from(s, i + 1)
    }
}

/// The last footer that starts in `lo .. hi`.
pub open spec fn footer_before(s: Seq<u8>, lo: int, hi: int) -> Option<int>
    decreases hi - lo,
{
    if hi <= lo {
        None
    } else if is_footer_at(s, hi - 1) {
        Some(hi - 1)
    } else {
        footer_before(s, lo, hi - 1)
    }
}

/// What a received line holds: `Ok(None)` for a line without a header
/// (noise), `Ok(Some(payload))` for a frame whose CRC matches, an error for
/// a frame without footer, too short for its CRC, or with a CRC that does
/// not match. Non-hex characters in the CRC field count as zero.
pub open spec fn receive_spec(s: Seq<u8>) -> PlResult<Option<Seq<u8>>> {
    match header_from(s, 0) {
        None => Ok(None),
        Some(h) => match footer_before(s, h + 4, s.len() as int) {
            None => Err(PlError::Protocol),
            Some(f) => if f - h < 8 {
                Err(PlError::Protocol)
            } else if hex_value(s.subrange(f - 4, f)) == xmodem_crc(s.subrange(h + 4, f - 4)) as nat {
                Ok(Some(s.subrange(h + 4, f - 4)))
            } else {
                Err(PlError::Protocol)
            },
        },
    }
}

/// Builds the frame for a payload: header, payload, CRC as 4 upper-case hex
/// characters, footer.
pub fn encode_frame(payload: &[u8]) -> (r: Vec<u8>)
    ensures
        r@ == frame_spec(payload@),
{
    let crc = crc_xmodem(payload);
    let mut out: Vec<u8> = Vec::new();
    out.extend_from_slice(&HEADER);
    out.extend_from_slice(payload);
    push_hex(&mut out, crc as u64, 4);
    out.extend_from_slice(&FOOTER);
    proof {
        assert(HEADER@ =~= header_seq());
        assert(FOOTER@ =~= footer_seq());
        assert(out@ =~= frame_spec(payload@));
    }
    out
}

/// Position of the first header in `buf`.
fn find_header(buf: &[u8]) -> (r: Option<usize>)
    ensures
        r matches Some(i) ==> header_from(buf@, 0) == Some(i as int) && is_header_at(buf@, i as int),
        r is None ==> header_from(buf@, 0) is None,
{
    let mut i: usize = 0;
    while buf.len() >= 4 && i <= buf.len() - 4
        invariant
            header_from(buf@, 0) == header_from(buf@, i as int),
            i <= buf@.len(),
        decreases buf@.len() - i,
    {
        if buf[i] == 5 && buf[i + 1] == 5 && buf[i + 2] == 3 && buf[i + 3] == 3 {
            return Some(i);
        }
        i = i + 1;
    }
    None
}

/// Position of the last footer that starts at or after `lo`.
fn find_last_footer(buf: &[u8], lo: usize) -> (r: Option<usize>)
    ensures
        r matches Some(f) ==> footer_before(buf@, lo as int, buf@.len() as int) == Some(f as int)
            && is_footer_at(buf@, f as int) && f >= lo,
        r is None ==> footer_before(buf@, lo as int, buf@.len() as int) is None,
{
    let mut hi: usize = buf.len();
    while hi > lo
        invariant
            footer_before(buf@, lo as int, buf@.len() as int) == footer_before(
                buf@,
                lo as int,
                hi as int,
            ),
            hi <= buf@.len(),
        decreases hi,
    {
        if hi < buf.len() && buf[hi - 1] == 13 && buf[hi] == 10 {
            return Some(hi - 1);
        }
        hi = hi - 1;
    }
    None
}

/// The value of a hex digit; other characters count as zero.
fn digit_value(c: u8) -> (r: u16)
    ensures
        r == hex_digit_value(c),
{
    if 48 <= c && c <= 57 {
        (c - 48) as u16
    } else if 65 <= c && c <= 70 {
        (c - 55) as u16
    } else if 97 <= c && c <= 102 {
        (c - 87) as u16
    } else {
        0
    }
}

/// Reads a 4-character CRC field leniently.
fn crc_field_value(field: &[u8]) -> (r: u16)
    requires
        field@.len() == 4,
    ensures
        r == hex_value(field@),
{
    let mut acc: u16 = 0;
    let mut k: usize = 0;
    while k < 4
        invariant
            k <= 4,
            field@.len() == 4,
            acc as nat == hex_value(field@.take(k as int)),
            (acc as nat) < pow16(k as nat),
        decreases 4 - k,
    {
        let ghost prev = field@.take(k as int);
        assert(field@.take(k as int + 1).drop_last() =~= prev);
        let d = digit_value(field[k]);
        proof {
            crate::hex::lemma_pow16_values();
            assert(pow16(k as nat + 1) == 16 * pow16(k as nat));
            assert(acc * 16 + d < 16 * pow16(k as nat)) by (nonlinear_arith)
                requires
                    (acc as nat) < pow16(k as nat),
                    d < 16,
            ;
            assert(pow16(k as nat) <= pow16(3)) by {
                if k < 3 {
                    assert(pow16(2) <= pow16(3));
                }
            }
        }
        acc = acc * 16 + d;
        k = k + 1;
    }
    assert(field@.take(4) =~= field@);
    acc
}

/// Takes a received line apart; see `receive_spec`.
pub fn decode_frame(buf: &[u8]) -> (r: PlResult<Option<Vec<u8>>>)
    ensures
        match r {
            Ok(None) => receive_spec(buf@) == Ok::<Option<Seq<u8>>, PlError>(None),
            Ok(Some(v)) => receive_spec(buf@) == Ok::<Option<Seq<u8>>, PlError>(Some(v@)),
            Err(e) => receive_spec(buf@) == Err::<Option<Seq<u8>>, PlError>(e),
        },
{
    let h = match find_header(buf) {
        None => {
            return Ok(None);
        },
        Some(h) => h,
    };
    let n = buf.len();
    assert(h + 4 <= n);
    let f = match find_last_footer(buf, h + 4) {
        None => {
            return Err(PlError::Protocol);
        },
        Some(f) => f,
    };
    if f - h < 8 {
        return Err(PlError::Protocol);
    }
    let payload = slice_subrange(buf, h + 4, f - CRC_SIZE);
    let crc = crc_field_value(slice_subrange(buf, f - CRC_SIZE, f));
    if crc != crc_xmodem(payload) {
        return Err(PlError::Protocol);
    }
    Ok(Some(slice_to_vec(payload)))
}

/// A received frame gives back exactly the payload that was sent.
pub proof fn lemma_frame_round_trip(p: Seq<u8>)
    ensures
        receive_spec(frame_spec(p)) == Ok::<Option<Seq<u8>>, PlError>(Some(p)),
{
    let s = frame_spec(p);
    let n = p.len() as int;
    let len = s.len() as int;
    let crc = xmodem_crc(p) as nat;
    lemma_hex_upper_value(crc, 4);
    assert(len == n + 10);
    assert(is_header_at(s, 0));
    assert(header_from(s, 0) == Some(0int));
    assert(!is_footer_at(s, len - 1));
    assert(is_footer_at(s, len - 2));
    assert(footer_before(s, 4, len - 1) == Some(len - 2));
    assert(footer_before(s, 4, len) == Some(len - 2));
    assert(s.subrange(4, n + 4) =~= p);
    assert(s.subrange(n + 4, n + 8) =~= hex_upper(crc, 4));
    crate::hex::lemma_pow16_values();
    vstd::arithmetic::div_mod::lemma_small_mod(crc, pow16(4));
}

proof fn lemma_hex_value_4(s: Seq<u8>)
    requires
        s.len() == 4,
    ensures
        hex_value(s) == hex_digit_value(s[0]) * 4096 + hex_digit_value(s[1]) * 256
            + hex_digit_value(s[2]) * 16 + hex_digit_value(s[3]),
{
    let s3 = s.drop_last();
    let s2 = s3.drop_last();
    let s1 = s2.drop_last();
    let s0 = s1.drop_last();
    assert(s0.len() == 0);
    assert(hex_value(s0) == 0);
    assert(hex_value(s1) == hex_digit_value(s[0]));
    assert(hex_value(s2) == hex_value(s1) * 16 + hex_digit_value(s[1]));
    assert(hex_value(s3) == hex_value(s2) * 16 + hex_digit_value(s[2]));
    assert(hex_value(s) == hex_value(s3) * 16 + hex_digit_value(s[3]));
}

/// Changing one character of a frame's CRC field to a character of another
/// digit value (non-hex characters count as zero) makes the frame rejected.
pub proof fn lemma_crc_corruption_detected(p: Seq<u8>, k: int, c: u8)
    requires
        0 <= k < 4,
        hex_digit_value(c) != hex_digit_value(frame_spec(p)[p.len() + 4 + k]),
    ensures
        receive_spec(frame_spec(p).update(p.len() + 4 + k, c)) is Err,
{
    let s = frame_spec(p);
    let n = p.len() as int;
    let i = n + 4 + k;
    let t = s.update(i, c);
    let len = t.len() as int;
    let crc = xmodem_crc(p) as nat;
    lemma_hex_upper_value(crc, 4);
    assert(len == n + 10);
    assert(is_header_at(t, 0));
    assert(header_from(t, 0) == Some(0int));
    assert(!is_footer_at(t, len - 1));
    assert(is_footer_at(t, len - 2));
    assert(footer_before(t, 4, len - 1) == Some(len - 2));
    assert(footer_before(t, 4, len) == Some(len - 2));
    assert(t.subrange(4, n + 4) =~= p);
    let old_field = s.subrange(n + 4, n + 8);
    let new_field = t.subrange(n + 4, n + 8);
    assert(old_field =~= hex_upper(crc, 4));
    crate::hex::lemma_pow16_values();
    vstd::arithmetic::div_mod::lemma_small_mod(crc, pow16(4));
    lemma_hex_value_4(old_field);
    lemma_hex_value_4(new_field);
    assert(forall|j: int| 0 <= j < 4 && j != k ==> new_field[j] == old_field[j]);
    assert(new_field[k] == c);
    assert(hex_value(new_field) != hex_value(old_field));
}

} // verus!
