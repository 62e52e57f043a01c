//! A cursor that consumes a payload left to right, one fixed-width field at a time.
use vstd::prelude::*;
use vstd::utf8::{valid_utf8, decode_utf8};
use crate::error::{PlError, PlResult};
use crate::hex::{field_at, pow16, parse_hex_field, lemma_pow16_values};
use crate::messages::DateTime;

verus! {

/// The date-time field of 8 characters at `off`: the whole field must read as
/// a `u32`, and its parts as year (`u8`), month (`u8`) and minutes (`u16`).
pub open spec fn datetime_at(s: Seq<u8>, off: int) -> Option<DateTime> {
    if field_at(s, off, 8) is Some && field_at(s, off, 2) is Some && field_at(s, off + 2, 2) is Some
        && field_at(s, off + 4, 4) is Some {
        Some(
            DateTime {
                year: field_at(s, off, 2)->0 as u8,
                months: field_at(s, off + 2, 2)->0 as u8,
                minutes: field_at(s, off + 4, 4)->0 as u16,
            },
        )
    } else {
        None
    }
}

/// Moving past `off` characters shifts every field by `off`.
pub proof fn lemma_field_skip(s: Seq<u8>, off: int, a: int, n: int)
    requires
        0 <= off <= s.len(),
        0 <= a,
    ensures
        field_at(s.skip(off), a, n) == field_at(s, off + a, n),
{
    if 0 <= n && a + n <= s.len() - off {
        assert(s.skip(off).subrange(a, a + n) =~= s.subrange(off + a, off + a + n));
    }
}

/// Moving past `off` characters shifts every date-time field by `off`.
pub proof fn lemma_datetime_skip(s: Seq<u8>, off: int, a: int)
    requires
        0 <= off <= s.len(),
        0 <= a,
    ensures
        datetime_at(s.skip(off), a) == datetime_at(s, off + a),
{
    lemma_field_skip(s, off, a, 8);
    lemma_field_skip(s, off, a, 2);
    lemma_field_skip(s, off, a + 2, 2);
    lemma_field_skip(s, off, a + 4, 4);
}

/// Relies on `std::str::from_utf8`: it accepts exactly the valid UTF-8
/// byte strings and yields the characters they encode.
#[verifier::external_body]
fn utf8_string(b: &[u8]) -> (r: Option<String>)
    ensures
        r is Some <==> valid_utf8(b@),
        r matches Some(s) ==> s@ == decode_utf8(b@),
{
    match std::str::from_utf8(b) {
        Ok(s) => Some(s.to_string()),
        Err(_) => None,
    }
}

/// Payload cursor: the bytes not consumed yet.
pub struct RawDataConsumer<'a> {
    buf: &'a [u8],
}

impl<'a> View for RawDataConsumer<'a> {
    type V = Seq<u8>;

    closed spec fn view(&self) -> Seq<u8> {
        self.buf@
    }
}

impl<'a> RawDataConsumer<'a> {
    /// Wraps a payload.
    pub fn new(buf: &'a [u8]) -> (r: RawDataConsumer<'a>)
        ensures
            r@ == buf@,
    {
        RawDataConsumer { buf }
    }

    /// Splits off the next `size` bytes.
    fn consume(&self, size: usize) -> (r: PlResult<(&'a [u8], RawDataConsumer<'a>)>)
        ensures
            r is Ok <==> size <= self@.len(),
            r matches Ok((v, rest)) ==> v@ == self@.take(size as int) && rest@ == self@.skip(
                size as int,
            ),
            r matches Err(e) ==> e == PlError::Protocol,
    {
        if self.buf.len() < size {
            return Err(PlError::Protocol);
        }
        let (value, remainder) = self.buf.split_at(size);
        Ok((value, RawDataConsumer { buf: remainder }))
    }

    /// Consumes an unsigned integer of `size` bytes, written as `2 * size` hex
    /// characters.
    pub fn decode(&self, size: usize) -> (r: PlResult<(RawDataConsumer<'a>, u64)>)
        requires
            1 <= size <= 8,
        ensures
            r is Ok <==> field_at(self@, 0, 2 * size) is Some,
            r matches Ok((rest, v)) ==> field_at(self@, 0, 2 * size) == Some(v as nat)
                && rest@ == self@.skip(2 * size) && (v as nat) < pow16(2 * size as nat),
            r matches Err(e) ==> e == PlError::Protocol,
    {
        let (buf, rest) = self.consume(2 * size)?;
        proof {
            assert(buf@ =~= self@.subrange(0, 2 * size));
        }
        match parse_hex_field(buf) {
            Some(v) => Ok((rest, v)),
            None => Err(PlError::Protocol),
        }
    }

    /// Consumes a `u8` (2 characters).
    pub fn decode_u8(&self) -> (r: PlResult<(RawDataConsumer<'a>, u8)>)
        ensures
            r is Ok <==> field_at(self@, 0, 2) is Some,
            r matches Ok((rest, v)) ==> field_at(self@, 0, 2) == Some(v as nat) && rest@
                == self@.skip(2),
            r matches Err(e) ==> e == PlError::Protocol,
    {
        let (rest, v) = self.decode(1)?;
        proof {
            lemma_pow16_values();
        }
        Ok((rest, v as u8))
    }

    /// Consumes a `u16` (4 characters).
    pub fn decode_u16(&self) -> (r: PlResult<(RawDataConsumer<'a>, u16)>)
        ensures
            r is Ok <==> field_at(self@, 0, 4) is Some,
            r matches Ok((rest, v)) ==> field_at(self@, 0, 4) == Some(v as nat) && rest@
                == self@.skip(4),
            r matches Err(e) ==> e == PlError::Protocol,
    {
        let (rest, v) = self.decode(2)?;
        proof {
            lemma_pow16_values();
        }
        Ok((rest, v as u16))
    }

    /// Consumes a `u32` (8 characters).
    pub fn decode_u32(&self) -> (r: PlResult<(RawDataConsumer<'a>, u32)>)
        ensures
            r is Ok <==> field_at(self@, 0, 8) is Some,
            r matches Ok((rest, v)) ==> field_at(self@, 0, 8) == Some(v as nat) && rest@
                == self@.skip(8),
            r matches Err(e) ==> e == PlError::Protocol,
    {
        let (rest, v) = self.decode(4)?;
        proof {
            lemma_pow16_values();
        }
        Ok((rest, v as u32))
    }

    /// Consumes a `u64` (16 characters).
    pub fn decode_u64(&self) -> (r: PlResult<(RawDataConsumer<'a>, u64)>)
        ensures
            r is Ok <==> field_at(self@, 0, 16) is Some,
            r matches Ok((rest, v)) ==> field_at(self@, 0, 16) == Some(v as nat) && rest@
                == self@.skip(16),
            r matches Err(e) ==> e == PlError::Protocol,
    {
        self.decode(8)
    }

    /// Consumes `size` raw bytes that must be UTF-8.
    pub fn decode_string(&self, size: usize) -> (r: PlResult<(RawDataConsumer<'a>, String)>)
        ensures
            r is Ok <==> size <= self@.len() && valid_utf8(self@.take(size as int)),
            r matches Ok((rest, text)) ==> text@ == decode_utf8(self@.take(size as int)) && rest@
                == self@.skip(size as int),
            r matches Err(e) ==> e == PlError::Protocol,
    {
        let (buf, rest) = self.consume(size)?;
        match utf8_string(buf) {
            Some(text) => Ok((rest, text)),
            None => Err(PlError::Protocol),
        }
    }

    /// Consumes a date-time field (8 characters). The field is first read as
    /// a `u32`, then the same characters are read again as its parts.
    pub fn decode_datetime(&self) -> (r: PlResult<(RawDataConsumer<'a>, DateTime)>)
        ensures
            r is Ok <==> datetime_at(self@, 0) is Some,
            r matches Ok((rest, dt)) ==> datetime_at(self@, 0) == Some(dt) && rest@ == self@.skip(8),
            r matches Err(e) ==> e == PlError::Protocol,
    {
        let (result, _) = self.decode_u32()?;
        let (r1, year) = self.decode_u8()?;
        proof {
            lemma_field_skip(self@, 2, 0, 2);
            lemma_field_skip(self@, 4, 0, 4);
            assert(self@.skip(2).skip(2) =~= self@.skip(4));
        }
        let (r2, months) = r1.decode_u8()?;
        let (_, minutes) = r2.decode_u16()?;
        Ok((result, DateTime::new_raw(year, months, minutes)))
    }

    /// Succeeds exactly when nothing is left.
    pub fn check_fully_consumed(&self) -> (r: PlResult<()>)
        ensures
            r is Ok <==> self@.len() == 0,
            r matches Err(e) ==> e == PlError::Protocol,
    {
        if self.buf.len() == 0 {
            Ok(())
        } else {
            Err(PlError::Protocol)
        }
    }

    /// The number of bytes not consumed yet.
    pub fn get_remaining(&self) -> (r: usize)
        ensures
            r == self@.len(),
    {
        self.buf.len()
    }
}

} // verus!
