//! Typed messages of the protocol and their payload codec.
use vstd::prelude::*;
use vstd::utf8::{valid_utf8, decode_utf8};
use crate::error::{PlError, PlResult};
use crate::hex::{field_at, hex_upper, push_hex, upper_hex_only, lemma_upper_hex_concat, lemma_hex_upper_is_upper};
use crate::raw::{RawDataConsumer, datetime_at, lemma_field_skip, lemma_datetime_skip};

verus! {

/// Flash address of log slot 0.
pub const ADDR_OFFS: u32 = 278528;

/// Bytes of flash per log slot.
pub const BYTES_PER_POS: u32 = 32;

/// Log slot index to flash address, in 32-bit arithmetic.
pub open spec fn pos2addr_spec(pos: u32) -> u32 {
    (pos as int * 32 + 278528) as u32
}

/// Flash address to log slot index, in 32-bit arithmetic.
pub open spec fn addr2pos_spec(addr: u32) -> u32 {
    ((addr as int - 278528) as u32) / 32
}

/// Converts a log element to its memory address.
pub fn pos2addr(pos: u32) -> (r: u32)
    ensures
        r == pos2addr_spec(pos),
{
    (#[verifier::truncate] (((pos as u64) * 32 + 278528) as u32))
}

/// Converts a memory address to its log element.
pub fn addr2pos(addr: u32) -> (r: u32)
    ensures
        r == addr2pos_spec(addr),
{
    let offset: u32 = (#[verifier::truncate] (((addr as i64) - 278528) as u32));
    offset / BYTES_PER_POS
}

/// Index and address are two names of one slot, for every index below 2^20.
pub proof fn lemma_log_index_bijection(i: u32)
    requires
        i < 0x10_0000,
    ensures
        addr2pos_spec(pos2addr_spec(i)) == i,
{
    let a = i as int * 32 + 278528;
    assert(0 <= a < 0x1_0000_0000);
    assert(pos2addr_spec(i) == a);
    assert(((pos2addr_spec(i) as int - 278528) as u32) == i as int * 32);
}

/// A raw count of pulses measured over `timespan` seconds.
#[derive(Debug, Clone, Copy, PartialEq, Eq, Structural)]
pub struct Pulses {
    pub pulses: u32,
    pub timespan: u32,
}

impl Pulses {
    pub fn new(pulses: u32, timespan: u32) -> (r: Pulses)
        ensures
            r == (Pulses { pulses, timespan }),
    {
        Pulses { pulses, timespan }
    }
}

/// A calendar time in UTC, field by field.
#[derive(Debug, Clone, Copy, PartialEq, Eq, Structural)]
pub struct Tm {
    /// Seconds after the minute, 0 to 60.
    pub tm_sec: i32,
    /// Minutes after the hour, 0 to 59.
    pub tm_min: i32,
    /// Hours after midnight, 0 to 23.
    pub tm_hour: i32,
    /// Day of the month, 1 to 31.
    pub tm_mday: i32,
    /// Months since January, 0 to 11.
    pub tm_mon: i32,
    /// Years since 1900.
    pub tm_year: i32,
    /// Days since Sunday, 0 to 6.
    pub tm_wday: i32,
    /// Days since January 1, 0 to 365.
    pub tm_yday: i32,
}

impl Tm {
    /// Every field lies in its documented range.
    pub open spec fn wf(self) -> bool {
        &&& 0 <= self.tm_sec <= 60
        &&& 0 <= self.tm_min <= 59
        &&& 0 <= self.tm_hour <= 23
        &&& 1 <= self.tm_mday <= 31
        &&& 0 <= self.tm_mon <= 11
        &&& 0 <= self.tm_wday <= 6
        &&& 0 <= self.tm_yday <= 365
    }
}

/// A date and time as the Circles send it.
#[derive(Debug, Clone, Copy, PartialEq, Eq, Structural)]
pub struct DateTime {
    /// Years since 2000.
    pub year: u8,
    /// Month of the year, 1 to 12 when valid.
    pub months: u8,
    /// Minutes since the start of the first day of the month.
    pub minutes: u16,
}

impl DateTime {
    /// Day of the month that the minutes fall on.
    pub open spec fn mday(self) -> int {
        1 + self.minutes / 1440
    }

    /// A month in 1 to 12 and a day of the month in 1 to 31.
    pub open spec fn is_valid(self) -> bool {
        1 <= self.months <= 12 && self.mday() <= 31
    }

    /// The calendar value of a valid date-time.
    pub open spec fn tm_spec(self) -> Tm {
        Tm {
            tm_sec: 0,
            tm_min: (self.minutes % 60) as i32,
            tm_hour: ((self.minutes / 60) % 24) as i32,
            tm_mday: self.mday() as i32,
            tm_mon: (self.months - 1) as i32,
            tm_year: (100 + self.year) as i32,
            tm_wday: 0,
            tm_yday: 0,
        }
    }

    /// Encodes a calendar time.
    pub fn new(timestamp: &Tm) -> (r: DateTime)
        requires
            timestamp.wf(),
        ensures
            r.year == (timestamp.tm_year - 100) as u8,
            r.months == timestamp.tm_mon + 1,
            r.minutes == (timestamp.tm_mday - 1) * 1440 + timestamp.tm_hour * 60
                + timestamp.tm_min,
    {
        DateTime {
            year: ((timestamp.tm_year as i64) - 100) as u8,
            months: (timestamp.tm_mon + 1) as u8,
            minutes: ((timestamp.tm_mday - 1) * 1440 + timestamp.tm_hour * 60
                + timestamp.tm_min) as u16,
        }
    }

    pub fn new_raw(year: u8, months: u8, minutes: u16) -> (r: DateTime)
        ensures
            r == (DateTime { year, months, minutes }),
    {
        DateTime { year, months, minutes }
    }

    /// The calendar value, or `None` where the month or the day is out of range.
    pub fn to_tm(&self) -> (r: Option<Tm>)
        ensures
            r is Some <==> self.is_valid(),
            r matches Some(tm) ==> tm == self.tm_spec() && tm.wf(),
    {
        let min = (self.minutes % 60) as i32;
        let hours = ((self.minutes / 60) % 24) as i32;
        let mday = 1 + (self.minutes / 1440) as i32;
        if self.months > 12 || self.months == 0 || mday > 31 {
            return None;
        }
        Some(
            Tm {
                tm_sec: 0,
                tm_min: min,
                tm_hour: hours,
                tm_mday: mday,
                tm_mon: (self.months - 1) as i32,
                tm_year: 100 + self.year as i32,
                tm_wday: 0,
                tm_yday: 0,
            },
        )
    }
}

/// The common part of every response.
#[derive(Debug, Clone, Copy, PartialEq, Eq, Structural)]
pub struct ResHeader {
    pub msgid: MessageId,
    pub count: u16,
    pub mac: u64,
}

/// The addressing part of every request but Initialize.
#[derive(Debug, Clone, Copy, PartialEq, Eq, Structural)]
pub struct ReqHeader {
    pub mac: u64,
}

impl ReqHeader {
    pub fn as_bytes(&self) -> (r: Vec<u8>)
        ensures
            r@ == hex_upper(self.mac as nat, 16),
    {
        let mut v: Vec<u8> = Vec::new();
        push_hex(&mut v, self.mac, 16);
        proof {
            assert(v@ =~= hex_upper(self.mac as nat, 16));
        }
        v
    }
}

/// Acknowledge: a status and, optionally, the Circle it concerns.
#[derive(Debug, Clone, Copy, PartialEq, Eq, Structural)]
pub struct Ack {
    pub status: u16,
    pub mac: Option<u64>,
}

impl Ack {
    /// The acknowledge that body `s` holds: a status, then a SocketId iff
    /// more characters follow.
    pub open spec fn spec_decode(s: Seq<u8>) -> Option<Ack> {
        if s.len() == 4 && field_at(s, 0, 4) is Some {
            Some(Ack { status: field_at(s, 0, 4)->0 as u16, mac: None })
        } else if s.len() == 20 && field_at(s, 0, 4) is Some && field_at(s, 4, 16) is Some {
            Some(Ack { status: field_at(s, 0, 4)->0 as u16, mac: Some(field_at(s, 4, 16)->0 as u64) })
        } else {
            None
        }
    }

    /// Decodes an acknowledge body.
    pub fn new(decoder: RawDataConsumer) -> (r: PlResult<Ack>)
        ensures
            r is Ok <==> Ack::spec_decode(decoder@) is Some,
            r matches Ok(v) ==> Ack::spec_decode(decoder@) == Some(v),
            r matches Err(e) ==> e == PlError::Protocol,
    {
        let ghost s = decoder@;
        let (decoder, status) = decoder.decode_u16()?;
        let (decoder, mac) = if decoder.get_remaining() > 0 {
            proof {
                lemma_field_skip(s, 4, 0, 16);
            }
            let (decoder, mac) = decoder.decode_u64()?;
            (decoder, Some(mac))
        } else {
            (decoder, None)
        };
        decoder.check_fully_consumed()?;
        Ok(Ack { status, mac })
    }
}

/// Response to Initialize.
#[derive(Debug, Clone, Copy, PartialEq, Eq, Structural)]
pub struct ResInitialize {
    pub unknown1: u8,
    pub is_online: bool,
    pub network_id: u64,
    pub short_id: u16,
    pub unknown2: u8,
}

impl ResInitialize {
    pub open spec fn spec_decode(s: Seq<u8>) -> Option<ResInitialize> {
        if s.len() == 26 && field_at(s, 0, 2) is Some && field_at(s, 2, 2) is Some && field_at(
            s,
            4,
            16,
        ) is Some && field_at(s, 20, 4) is Some && field_at(s, 24, 2) is Some {
            Some(
                ResInitialize {
                    unknown1: field_at(s, 0, 2)->0 as u8,
                    is_online: field_at(s, 2, 2)->0 != 0,
                    network_id: field_at(s, 4, 16)->0 as u64,
                    short_id: field_at(s, 20, 4)->0 as u16,
                    unknown2: field_at(s, 24, 2)->0 as u8,
                },
            )
        } else {
            None
        }
    }

    /// Decodes an initialization response body.
    pub fn new(decoder: RawDataConsumer) -> (r: PlResult<ResInitialize>)
        ensures
            r is Ok <==> ResInitialize::spec_decode(decoder@) is Some,
            r matches Ok(v) ==> ResInitialize::spec_decode(decoder@) == Some(v),
            r matches Err(e) ==> e == PlError::Protocol,
    {
        let ghost s = decoder@;
        let (decoder, unknown1) = decoder.decode_u8()?;
        proof {
            lemma_field_skip(s, 2, 0, 2);
        }
        let (decoder, is_online) = decoder.decode_u8()?;
        proof {
            assert(decoder@ =~= s.skip(4));
            lemma_field_skip(s, 4, 0, 16);
        }
        let (decoder, network_id) = decoder.decode_u64()?;
        proof {
            assert(decoder@ =~= s.skip(20));
            lemma_field_skip(s, 20, 0, 4);
        }
        let (decoder, short_id) = decoder.decode_u16()?;
        proof {
            assert(decoder@ =~= s.skip(24));
            lemma_field_skip(s, 24, 0, 2);
        }
        let (decoder, unknown2) = decoder.decode_u8()?;
        decoder.check_fully_consumed()?;
        Ok(ResInitialize { unknown1, is_online: is_online != 0, network_id, short_id, unknown2 })
    }
}

/// The mains frequency that an Info response's code stands for.
pub open spec fn hz_of(code: nat) -> u8 {
    if code == 133 {
        50
    } else if code == 197 {
        60
    } else {
        0
    }
}

/// Response to Info.
#[derive(Debug, Clone)]
pub struct ResInfo {
    pub datetime: DateTime,
    /// Index of the last log slot written.
    pub last_logaddr: u32,
    pub relay_state: bool,
    /// Mains frequency in Hz, 0 where unknown.
    pub hz: u8,
    pub hw_ver: String,
    /// Firmware build time in seconds since 1970.
    pub fw_ver: i64,
    pub unknown: u8,
}

impl ResInfo {
    /// Body `s` is a well-formed Info response.
    pub open spec fn wire_ok(s: Seq<u8>) -> bool {
        &&& s.len() == 42
        &&& datetime_at(s, 0) is Some
        &&& field_at(s, 8, 8) is Some
        &&& field_at(s, 16, 2) is Some
        &&& field_at(s, 18, 2) is Some
        &&& valid_utf8(s.subrange(20, 32))
        &&& field_at(s, 32, 8) is Some
        &&& field_at(s, 40, 2) is Some
    }

    /// `self` is what body `s` holds.
    pub open spec fn decodes(self, s: Seq<u8>) -> bool {
        &&& ResInfo::wire_ok(s)
        &&& self.datetime == datetime_at(s, 0)->0
        &&& self.last_logaddr == addr2pos_spec(field_at(s, 8, 8)->0 as u32)
        &&& self.relay_state == (field_at(s, 16, 2)->0 != 0)
        &&& self.hz == hz_of(field_at(s, 18, 2)->0)
        &&& self.hw_ver@ == decode_utf8(s.subrange(20, 32))
        &&& self.fw_ver == (field_at(s, 32, 8)->0 as u32) as i32 as i64
        &&& self.unknown == field_at(s, 40, 2)->0 as u8
    }

    /// Decodes an Info response body.
    pub fn new(decoder: RawDataConsumer) -> (r: PlResult<ResInfo>)
        ensures
            r is Ok <==> ResInfo::wire_ok(decoder@),
            r matches Ok(v) ==> v.decodes(decoder@),
            r matches Err(e) ==> e == PlError::Protocol,
    {
        let ghost s = decoder@;
        let (decoder, datetime) = decoder.decode_datetime()?;
        proof {
            lemma_field_skip(s, 8, 0, 8);
        }
        let (decoder, last_logaddr) = decoder.decode_u32()?;
        proof {
            assert(decoder@ =~= s.skip(16));
            lemma_field_skip(s, 16, 0, 2);
        }
        let (decoder, relay_state) = decoder.decode_u8()?;
        proof {
            assert(decoder@ =~= s.skip(18));
            lemma_field_skip(s, 18, 0, 2);
        }
        let (decoder, hz) = decoder.decode_u8()?;
        proof {
            assert(decoder@ =~= s.skip(20));
            if s.len() >= 32 {
                assert(decoder@.take(12) =~= s.subrange(20, 32));
            }
        }
        let (decoder, hw_ver) = decoder.decode_string(12)?;
        proof {
            assert(decoder@ =~= s.skip(32));
            lemma_field_skip(s, 32, 0, 8);
        }
        let (decoder, fw_ver) = decoder.decode_u32()?;
        proof {
            assert(decoder@ =~= s.skip(40));
            lemma_field_skip(s, 40, 0, 2);
        }
        let (decoder, unknown) = decoder.decode_u8()?;
        decoder.check_fully_consumed()?;
        let hz = if hz == 133 {
            50
        } else if hz == 197 {
            60
        } else {
            0
        };
        Ok(
            ResInfo {
                datetime,
                last_logaddr: addr2pos(last_logaddr),
                relay_state: relay_state != 0,
                hz,
                hw_ver,
                fw_ver: (fw_ver as i32) as i64,
                unknown,
            },
        )
    }
}

/// Request body of Switch.
#[derive(Debug, Clone, Copy, PartialEq, Eq, Structural)]
pub struct ReqSwitch {
    pub on: bool,
}

impl ReqSwitch {
    pub open spec fn spec_bytes(self) -> Seq<u8> {
        hex_upper(if self.on { 1 } else { 0 }, 2)
    }

    pub fn as_bytes(&self) -> (r: Vec<u8>)
        ensures
            r@ == self.spec_bytes(),
    {
        let on: u64 = if self.on { 1 } else { 0 };
        let mut v: Vec<u8> = Vec::new();
        push_hex(&mut v, on, 2);
        proof {
            assert(v@ =~= self.spec_bytes());
        }
        v
    }
}

/// Response to Calibration: the four constants as the bit patterns of
/// IEEE-754 single-precision numbers.
#[derive(Debug, Clone, Copy, PartialEq, Eq, Structural)]
pub struct ResCalibration {
    pub gain_a: u32,
    pub gain_b: u32,
    pub off_total: u32,
    pub off_noise: u32,
}

impl ResCalibration {
    pub open spec fn spec_decode(s: Seq<u8>) -> Option<ResCalibration> {
        if s.len() == 32 && field_at(s, 0, 8) is Some && field_at(s, 8, 8) is Some && field_at(
            s,
            16,
            8,
        ) is Some && field_at(s, 24, 8) is Some {
            Some(
                ResCalibration {
                    gain_a: field_at(s, 0, 8)->0 as u32,
                    gain_b: field_at(s, 8, 8)->0 as u32,
                    off_total: field_at(s, 16, 8)->0 as u32,
                    off_noise: field_at(s, 24, 8)->0 as u32,
                },
            )
        } else {
            None
        }
    }

    /// Decodes a calibration response body.
    pub fn new(decoder: RawDataConsumer) -> (r: PlResult<ResCalibration>)
        ensures
            r is Ok <==> ResCalibration::spec_decode(decoder@) is Some,
            r matches Ok(v) ==> ResCalibration::spec_decode(decoder@) == Some(v),
            r matches Err(e) ==> e == PlError::Protocol,
    {
        let ghost s = decoder@;
        let (decoder, gain_a) = decoder.decode_u32()?;
        proof {
            lemma_field_skip(s, 8, 0, 8);
        }
        let (decoder, gain_b) = decoder.decode_u32()?;
        proof {
            assert(decoder@ =~= s.skip(16));
            lemma_field_skip(s, 16, 0, 8);
        }
        let (decoder, off_total) = decoder.decode_u32()?;
        proof {
            assert(decoder@ =~= s.skip(24));
            lemma_field_skip(s, 24, 0, 8);
        }
        let (decoder, off_noise) = decoder.decode_u32()?;
        decoder.check_fully_consumed()?;
        Ok(ResCalibration { gain_a, gain_b, off_total, off_noise })
    }
}

/// Request body of PowerBuffer: the log slot to read.
#[derive(Debug, Clone, Copy, PartialEq, Eq, Structural)]
pub struct ReqPowerBuffer {
    pub logaddr: u32,
}

impl ReqPowerBuffer {
    pub open spec fn spec_bytes(self) -> Seq<u8> {
        hex_upper(pos2addr_spec(self.logaddr) as nat, 8)
    }

    /// The slot's flash address as 8 hex characters.
    pub fn as_bytes(&self) -> (r: Vec<u8>)
        ensures
            r@ == self.spec_bytes(),
    {
        let logaddr = pos2addr(self.logaddr);
        let mut v: Vec<u8> = Vec::new();
        push_hex(&mut v, logaddr as u64, 8);
        proof {
            assert(v@ =~= self.spec_bytes());
        }
        v
    }
}

/// Response to PowerBuffer: four hourly entries and the slot they came from.
#[derive(Debug, Clone, Copy, PartialEq, Eq, Structural)]
pub struct ResPowerBuffer {
    pub datetime1: DateTime,
    pub pulses1: Pulses,
    pub datetime2: DateTime,
    pub pulses2: Pulses,
    pub datetime3: DateTime,
    pub pulses3: Pulses,
    pub datetime4: DateTime,
    pub pulses4: Pulses,
    pub logaddr: u32,
}

impl ResPowerBuffer {
    pub open spec fn spec_decode(s: Seq<u8>) -> Option<ResPowerBuffer> {
        if s.len() == 72 && datetime_at(s, 0) is Some && field_at(s, 8, 8) is Some && datetime_at(
            s,
            16,
        ) is Some && field_at(s, 24, 8) is Some && datetime_at(s, 32) is Some && field_at(s, 40, 8)
            is Some && datetime_at(s, 48) is Some && field_at(s, 56, 8) is Some && field_at(s, 64, 8)
            is Some {
            Some(
                ResPowerBuffer {
                    datetime1: datetime_at(s, 0)->0,
                    pulses1: Pulses { pulses: field_at(s, 8, 8)->0 as u32, timespan: 3600 },
                    datetime2: datetime_at(s, 16)->0,
                    pulses2: Pulses { pulses: field_at(s, 24, 8)->0 as u32, timespan: 3600 },
                    datetime3: datetime_at(s, 32)->0,
                    pulses3: Pulses { pulses: field_at(s, 40, 8)->0 as u32, timespan: 3600 },
                    datetime4: datetime_at(s, 48)->0,
                    pulses4: Pulses { pulses: field_at(s, 56, 8)->0 as u32, timespan: 3600 },
                    logaddr: addr2pos_spec(field_at(s, 64, 8)->0 as u32),
                },
            )
        } else {
            None
        }
    }

    /// Decodes a power buffer response body.
    pub fn new(decoder: RawDataConsumer) -> (r: PlResult<ResPowerBuffer>)
        ensures
            r is Ok <==> ResPowerBuffer::spec_decode(decoder@) is Some,
            r matches Ok(v) ==> ResPowerBuffer::spec_decode(decoder@) == Some(v),
            r matches Err(e) ==> e == PlError::Protocol,
    {
        let ghost s = decoder@;
        let (decoder, datetime1) = decoder.decode_datetime()?;
        proof {
            lemma_field_skip(s, 8, 0, 8);
        }
        let (decoder, pulses1) = decoder.decode_u32()?;
        proof {
            assert(decoder@ =~= s.skip(16));
            lemma_datetime_skip(s, 16, 0);
        }
        let (decoder, datetime2) = decoder.decode_datetime()?;
        proof {
            assert(decoder@ =~= s.skip(24));
            lemma_field_skip(s, 24, 0, 8);
        }
        let (decoder, pulses2) = decoder.decode_u32()?;
        proof {
            assert(decoder@ =~= s.skip(32));
            lemma_datetime_skip(s, 32, 0);
        }
        let (decoder, datetime3) = decoder.decode_datetime()?;
        proof {
            assert(decoder@ =~= s.skip(40));
            lemma_field_skip(s, 40, 0, 8);
        }
        let (decoder, pulses3) = decoder.decode_u32()?;
        proof {
            assert(decoder@ =~= s.skip(48));
            lemma_datetime_skip(s, 48, 0);
        }
        let (decoder, datetime4) = decoder.decode_datetime()?;
        proof {
            assert(decoder@ =~= s.skip(56));
            lemma_field_skip(s, 56, 0, 8);
        }
        let (decoder, pulses4) = decoder.decode_u32()?;
        proof {
            assert(decoder@ =~= s.skip(64));
            lemma_field_skip(s, 64, 0, 8);
        }
        let (decoder, logaddr) = decoder.decode_u32()?;
        decoder.check_fully_consumed()?;
        Ok(
            ResPowerBuffer {
                datetime1,
                pulses1: Pulses::new(pulses1, 3600),
                datetime2,
                pulses2: Pulses::new(pulses2, 3600),
                datetime3,
                pulses3: Pulses::new(pulses3, 3600),
                datetime4,
                pulses4: Pulses::new(pulses4, 3600),
                logaddr: addr2pos(logaddr),
            },
        )
    }
}

/// Response to PowerUse: pulses over the last second, 8 seconds and hour.
#[derive(Debug, Clone, Copy, PartialEq, Eq, Structural)]
pub struct ResPowerUse {
    pub pulse_1s: Pulses,
    pub pulse_8s: Pulses,
    pub pulse_hour: Pulses,
    pub unknown1: u16,
    pub unknown2: u16,
    pub unknown3: u16,
}

impl ResPowerUse {
    pub open spec fn spec_decode(s: Seq<u8>) -> Option<ResPowerUse> {
        if s.len() == 28 && field_at(s, 0, 4) is Some && field_at(s, 4, 4) is Some && field_at(
            s,
            8,
            8,
        ) is Some && field_at(s, 16, 4) is Some && field_at(s, 20, 4) is Some && field_at(s, 24, 4)
            is Some {
            Some(
                ResPowerUse {
                    pulse_1s: Pulses { pulses: field_at(s, 0, 4)->0 as u32, timespan: 1 },
                    pulse_8s: Pulses { pulses: field_at(s, 4, 4)->0 as u32, timespan: 8 },
                    pulse_hour: Pulses { pulses: field_at(s, 8, 8)->0 as u32, timespan: 3600 },
                    unknown1: field_at(s, 16, 4)->0 as u16,
                    unknown2: field_at(s, 20, 4)->0 as u16,
                    unknown3: field_at(s, 24, 4)->0 as u16,
                },
            )
        } else {
            None
        }
    }

    /// Decodes a power use response body.
    pub fn new(decoder: RawDataConsumer) -> (r: PlResult<ResPowerUse>)
        ensures
            r is Ok <==> ResPowerUse::spec_decode(decoder@) is Some,
            r matches Ok(v) ==> ResPowerUse::spec_decode(decoder@) == Some(v),
            r matches Err(e) ==> e == PlError::Protocol,
    {
        let ghost s = decoder@;
        let (decoder, pulse_1s) = decoder.decode_u16()?;
        proof {
            lemma_field_skip(s, 4, 0, 4);
        }
        let (decoder, pulse_8s) = decoder.decode_u16()?;
        proof {
            assert(decoder@ =~= s.skip(8));
            lemma_field_skip(s, 8, 0, 8);
        }
        let (decoder, pulse_hour) = decoder.decode_u32()?;
        proof {
            assert(decoder@ =~= s.skip(16));
            lemma_field_skip(s, 16, 0, 4);
        }
        let (decoder, unknown1) = decoder.decode_u16()?;
        proof {
            assert(decoder@ =~= s.skip(20));
            lemma_field_skip(s, 20, 0, 4);
        }
        let (decoder, unknown2) = decoder.decode_u16()?;
        proof {
            assert(decoder@ =~= s.skip(24));
            lemma_field_skip(s, 24, 0, 4);
        }
        let (decoder, unknown3) = decoder.decode_u16()?;
        decoder.check_fully_consumed()?;
        Ok(
            ResPowerUse {
                pulse_1s: Pulses::new(pulse_1s as u32, 1),
                pulse_8s: Pulses::new(pulse_8s as u32, 8),
                pulse_hour: Pulses::new(pulse_hour, 3600),
                unknown1,
                unknown2,
                unknown3,
            },
        )
    }
}

/// Response to ClockInfo.
#[derive(Debug, Clone, Copy, PartialEq, Eq, Structural)]
pub struct ResClockInfo {
    pub hour: u8,
    pub minute: u8,
    pub second: u8,
    pub day_of_week: u8,
    pub unknown1: u8,
    pub unknown2: u16,
}

impl ResClockInfo {
    pub open spec fn spec_decode(s: Seq<u8>) -> Option<ResClockInfo> {
        if s.len() == 14 && field_at(s, 0, 2) is Some && field_at(s, 2, 2) is Some && field_at(
            s,
            4,
            2,
        ) is Some && field_at(s, 6, 2) is Some && field_at(s, 8, 2) is Some && field_at(s, 10, 4)
            is Some {
            Some(
                ResClockInfo {
                    hour: field_at(s, 0, 2)->0 as u8,
                    minute: field_at(s, 2, 2)->0 as u8,
                    second: field_at(s, 4, 2)->0 as u8,
                    day_of_week: field_at(s, 6, 2)->0 as u8,
                    unknown1: field_at(s, 8, 2)->0 as u8,
                    unknown2: field_at(s, 10, 4)->0 as u16,
                },
            )
        } else {
            None
        }
    }

    /// Decodes a clock info response body.
    pub fn new(decoder: RawDataConsumer) -> (r: PlResult<ResClockInfo>)
        ensures
            r is Ok <==> ResClockInfo::spec_decode(decoder@) is Some,
            r matches Ok(v) ==> ResClockInfo::spec_decode(decoder@) == Some(v),
            r matches Err(e) ==> e == PlError::Protocol,
    {
        let ghost s = decoder@;
        let (decoder, hour) = decoder.decode_u8()?;
        proof {
            lemma_field_skip(s, 2, 0, 2);
        }
        let (decoder, minute) = decoder.decode_u8()?;
        proof {
            assert(decoder@ =~= s.skip(4));
            lemma_field_skip(s, 4, 0, 2);
        }
        let (decoder, second) = decoder.decode_u8()?;
        proof {
            assert(decoder@ =~= s.skip(6));
            lemma_field_skip(s, 6, 0, 2);
        }
        let (decoder, day_of_week) = decoder.decode_u8()?;
        proof {
            assert(decoder@ =~= s.skip(8));
            lemma_field_skip(s, 8, 0, 2);
        }
        let (decoder, unknown1) = decoder.decode_u8()?;
        proof {
            assert(decoder@ =~= s.skip(10));
            lemma_field_skip(s, 10, 0, 4);
        }
        let (decoder, unknown2) = decoder.decode_u16()?;
        decoder.check_fully_consumed()?;
        Ok(ResClockInfo { hour, minute, second, day_of_week, unknown1, unknown2 })
    }
}

/// Request body of ClockSet.
#[derive(Debug, Clone, Copy, PartialEq, Eq, Structural)]
pub struct ReqClockSet {
    pub datetime: DateTime,
    /// Log slot to continue at; `None` leaves the log where it is.
    pub logaddr: Option<u32>,
    pub hour: u8,
    pub minute: u8,
    pub second: u8,
    /// Monday is 1, Sunday is 7.
    pub day_of_week: u8,
}

impl ReqClockSet {
    /// The log word: a slot's flash address, or all ones for none.
    pub open spec fn logaddr_word(self) -> u32 {
        match self.logaddr {
            None => 0xffff_ffff,
            Some(addr) => pos2addr_spec(addr),
        }
    }

    pub open spec fn spec_bytes(self) -> Seq<u8> {
        hex_upper(self.datetime.year as nat, 2) + hex_upper(self.datetime.months as nat, 2)
            + hex_upper(self.datetime.minutes as nat, 4) + hex_upper(self.logaddr_word() as nat, 8)
            + hex_upper(self.hour as nat, 2) + hex_upper(self.minute as nat, 2) + hex_upper(
            self.second as nat,
            2,
        ) + hex_upper(self.day_of_week as nat, 2)
    }

    /// `self` sets a clock to `tm`: the date-time, no log slot, the time of
    /// day, and the weekday with Sunday as 7.
    pub open spec fn is_for(self, tm: Tm) -> bool {
        &&& self.datetime.year == (tm.tm_year - 100) as u8
        &&& self.datetime.months == tm.tm_mon + 1
        &&& self.datetime.minutes == (tm.tm_mday - 1) * 1440 + tm.tm_hour * 60 + tm.tm_min
        &&& self.logaddr is None
        &&& self.hour == tm.tm_hour
        &&& self.minute == tm.tm_min
        &&& self.second == tm.tm_sec
        &&& self.day_of_week == (if tm.tm_wday == 0 { 7 } else { tm.tm_wday })
    }

    /// The request that sets a Circle's clock to `tm` (a UTC time).
    pub fn new_from_tm(tm: &Tm) -> (r: ReqClockSet)
        requires
            tm.wf(),
        ensures
            r.is_for(*tm),
            r.datetime.year == (tm.tm_year - 100) as u8,
            r.datetime.months == tm.tm_mon + 1,
            r.datetime.minutes == (tm.tm_mday - 1) * 1440 + tm.tm_hour * 60 + tm.tm_min,
            r.logaddr is None,
            r.hour == tm.tm_hour,
            r.minute == tm.tm_min,
            r.second == tm.tm_sec,
            r.day_of_week == (if tm.tm_wday == 0 { 7 } else { tm.tm_wday }),
    {
        let day_of_week: u8 = if tm.tm_wday == 0 {
            7
        } else {
            tm.tm_wday as u8
        };
        ReqClockSet {
            datetime: DateTime::new(tm),
            logaddr: None,
            hour: tm.tm_hour as u8,
            minute: tm.tm_min as u8,
            second: tm.tm_sec as u8,
            day_of_week,
        }
    }

    pub fn as_bytes(&self) -> (r: Vec<u8>)
        ensures
            r@ == self.spec_bytes(),
    {
        let logaddr = match self.logaddr {
            None => 0xffff_ffffu32,
            Some(addr) => pos2addr(addr),
        };
        let mut v: Vec<u8> = Vec::new();
        push_hex(&mut v, self.datetime.year as u64, 2);
        push_hex(&mut v, self.datetime.months as u64, 2);
        push_hex(&mut v, self.datetime.minutes as u64, 4);
        push_hex(&mut v, logaddr as u64, 8);
        push_hex(&mut v, self.hour as u64, 2);
        push_hex(&mut v, self.minute as u64, 2);
        push_hex(&mut v, self.second as u64, 2);
        push_hex(&mut v, self.day_of_week as u64, 2);
        proof {
            assert(v@ =~= self.spec_bytes());
        }
        v
    }
}

/// The identifiers of the message family.
#[derive(Debug, Clone, Copy, PartialEq, Eq, Structural)]
pub enum MessageId {
    Ack,
    ReqInitialize,
    ResInitialize,
    ReqInfo,
    ResInfo,
    ReqSwitch,
    ReqCalibration,
    ResCalibration,
    ReqPowerBuffer,
    ResPowerBuffer,
    ReqPowerUse,
    ResPowerUse,
    ReqClockInfo,
    ResClockInfo,
    ReqClockSet,
}

impl MessageId {
    /// The identifier's code on the wire.
    pub open spec fn code(self) -> u16 {
        match self {
            MessageId::Ack => 0x0000,
            MessageId::ReqInitialize => 0x000A,
            MessageId::ResInitialize => 0x0011,
            MessageId::ReqInfo => 0x0023,
            MessageId::ResInfo => 0x0024,
            MessageId::ReqSwitch => 0x0017,
            MessageId::ReqCalibration => 0x0026,
            MessageId::ResCalibration => 0x0027,
            MessageId::ReqPowerBuffer => 0x0048,
            MessageId::ResPowerBuffer => 0x0049,
            MessageId::ReqPowerUse => 0x0012,
            MessageId::ResPowerUse => 0x0013,
            MessageId::ReqClockInfo => 0x003E,
            MessageId::ResClockInfo => 0x003F,
            MessageId::ReqClockSet => 0x0016,
        }
    }

    /// The identifier with code `id`, if there is one.
    pub open spec fn spec_new(id: u16) -> Option<MessageId> {
        if id == 0x0000 {
            Some(MessageId::Ack)
        } else if id == 0x000A {
            Some(MessageId::ReqInitialize)
        } else if id == 0x0011 {
            Some(MessageId::ResInitialize)
        } else if id == 0x0023 {
            Some(MessageId::ReqInfo)
        } else if id == 0x0024 {
            Some(MessageId::ResInfo)
        } else if id == 0x0017 {
            Some(MessageId::ReqSwitch)
        } else if id == 0x0026 {
            Some(MessageId::ReqCalibration)
        } else if id == 0x0027 {
            Some(MessageId::ResCalibration)
        } else if id == 0x0048 {
            Some(MessageId::ReqPowerBuffer)
        } else if id == 0x0049 {
            Some(MessageId::ResPowerBuffer)
        } else if id == 0x0012 {
            Some(MessageId::ReqPowerUse)
        } else if id == 0x0013 {
            Some(MessageId::ResPowerUse)
        } else if id == 0x003E {
            Some(MessageId::ReqClockInfo)
        } else if id == 0x003F {
            Some(MessageId::ResClockInfo)
        } else if id == 0x0016 {
            Some(MessageId::ReqClockSet)
        } else {
            None
        }
    }

    /// Looks an identifier up by its code; unknown codes give `None`.
    pub fn new(id: u16) -> (r: Option<MessageId>)
        ensures
            r == MessageId::spec_new(id),
            r matches Some(m) ==> m.code() == id,
    {
        match id {
            0x0000 => Some(MessageId::Ack),
            0x000A => Some(MessageId::ReqInitialize),
            0x0011 => Some(MessageId::ResInitialize),
            0x0023 => Some(MessageId::ReqInfo),
            0x0024 => Some(MessageId::ResInfo),
            0x0017 => Some(MessageId::ReqSwitch),
            0x0026 => Some(MessageId::ReqCalibration),
            0x0027 => Some(MessageId::ResCalibration),
            0x0048 => Some(MessageId::ReqPowerBuffer),
            0x0049 => Some(MessageId::ResPowerBuffer),
            0x0012 => Some(MessageId::ReqPowerUse),
            0x0013 => Some(MessageId::ResPowerUse),
            0x003E => Some(MessageId::ReqClockInfo),
            0x003F => Some(MessageId::ResClockInfo),
            0x0016 => Some(MessageId::ReqClockSet),
            _ => None,
        }
    }

    /// The identifier's code on the wire.
    pub fn as_u16(&self) -> (r: u16)
        ensures
            r == self.code(),
    {
        match self {
            MessageId::Ack => 0x0000,
            MessageId::ReqInitialize => 0x000A,
            MessageId::ResInitialize => 0x0011,
            MessageId::ReqInfo => 0x0023,
            MessageId::ResInfo => 0x0024,
            MessageId::ReqSwitch => 0x0017,
            MessageId::ReqCalibration => 0x0026,
            MessageId::ResCalibration => 0x0027,
            MessageId::ReqPowerBuffer => 0x0048,
            MessageId::ResPowerBuffer => 0x0049,
            MessageId::ReqPowerUse => 0x0012,
            MessageId::ResPowerUse => 0x0013,
            MessageId::ReqClockInfo => 0x003E,
            MessageId::ResClockInfo => 0x003F,
            MessageId::ReqClockSet => 0x0016,
        }
    }

    /// The code as four upper-case hex characters.
    pub fn as_bytes(&self) -> (r: Vec<u8>)
        ensures
            r@ == hex_upper(self.code() as nat, 4),
    {
        let mut v: Vec<u8> = Vec::new();
        push_hex(&mut v, self.as_u16() as u64, 4);
        proof {
            assert(v@ =~= hex_upper(self.code() as nat, 4));
        }
        v
    }
}

/// The identifier that payload `p` starts with, if it is a known one.
pub open spec fn payload_id(p: Seq<u8>) -> Option<MessageId> {
    match field_at(p, 0, 4) {
        Some(code) => MessageId::spec_new(code as u16),
        None => None,
    }
}

/// Where the body starts: after identifier and counter, and after the
/// SocketId for every identifier but ACK.
pub open spec fn body_offset(id: MessageId) -> int {
    if id == MessageId::Ack {
        8
    } else {
        24
    }
}

/// The counter, and the SocketId where one is due, are well formed.
pub open spec fn header_ok(p: Seq<u8>, id: MessageId) -> bool {
    field_at(p, 4, 4) is Some && (id == MessageId::Ack || field_at(p, 8, 16) is Some)
}

/// The response header of payload `p`; an ACK has SocketId 0 there.
pub open spec fn spec_header(p: Seq<u8>, id: MessageId) -> ResHeader {
    ResHeader {
        msgid: id,
        count: field_at(p, 4, 4)->0 as u16,
        mac: if id == MessageId::Ack {
            0
        } else {
            field_at(p, 8, 16)->0 as u64
        },
    }
}

/// A message of the protocol, request or response.
#[derive(Debug, Clone)]
pub enum Message {
    Ack(ResHeader, Ack),
    ReqInitialize,
    ResInitialize(ResHeader, ResInitialize),
    ReqInfo(ReqHeader),
    ResInfo(ResHeader, ResInfo),
    ReqSwitch(ReqHeader, ReqSwitch),
    ReqCalibration(ReqHeader),
    ResCalibration(ResHeader, ResCalibration),
    ReqPowerBuffer(ReqHeader, ReqPowerBuffer),
    ResPowerBuffer(ResHeader, ResPowerBuffer),
    ReqPowerUse(ReqHeader),
    ResPowerUse(ResHeader, ResPowerUse),
    ReqClockInfo(ReqHeader),
    ResClockInfo(ResHeader, ResClockInfo),
    ReqClockSet(ReqHeader, ReqClockSet),
}

impl Message {
    pub open spec fn id(self) -> MessageId {
        match self {
            Message::Ack(..) => MessageId::Ack,
            Message::ReqInitialize => MessageId::ReqInitialize,
            Message::ResInitialize(..) => MessageId::ResInitialize,
            Message::ReqInfo(..) => MessageId::ReqInfo,
            Message::ResInfo(..) => MessageId::ResInfo,
            Message::ReqSwitch(..) => MessageId::ReqSwitch,
            Message::ReqCalibration(..) => MessageId::ReqCalibration,
            Message::ResCalibration(..) => MessageId::ResCalibration,
            Message::ReqPowerBuffer(..) => MessageId::ReqPowerBuffer,
            Message::ResPowerBuffer(..) => MessageId::ResPowerBuffer,
            Message::ReqPowerUse(..) => MessageId::ReqPowerUse,
            Message::ResPowerUse(..) => MessageId::ResPowerUse,
            Message::ReqClockInfo(..) => MessageId::ReqClockInfo,
            Message::ResClockInfo(..) => MessageId::ResClockInfo,
            Message::ReqClockSet(..) => MessageId::ReqClockSet,
        }
    }

    /// The messages that the host sends.
    pub open spec fn is_request(self) -> bool {
        match self {
            Message::ReqInitialize | Message::ReqInfo(..) | Message::ReqSwitch(..)
            | Message::ReqCalibration(..) | Message::ReqPowerBuffer(..) | Message::ReqPowerUse(..)
            | Message::ReqClockInfo(..) | Message::ReqClockSet(..) => true,
            _ => false,
        }
    }

    /// What follows the identifier in a request: the SocketId, then the body.
    pub open spec fn request_rest(self) -> Seq<u8> {
        match self {
            Message::ReqInfo(h) => hex_upper(h.mac as nat, 16),
            Message::ReqCalibration(h) => hex_upper(h.mac as nat, 16),
            Message::ReqPowerUse(h) => hex_upper(h.mac as nat, 16),
            Message::ReqClockInfo(h) => hex_upper(h.mac as nat, 16),
            Message::ReqSwitch(h, r) => hex_upper(h.mac as nat, 16) + r.spec_bytes(),
            Message::ReqPowerBuffer(h, r) => hex_upper(h.mac as nat, 16) + r.spec_bytes(),
            Message::ReqClockSet(h, r) => hex_upper(h.mac as nat, 16) + r.spec_bytes(),
            _ => seq![],
        }
    }

    /// The payload of a request.
    pub open spec fn spec_payload(self) -> Seq<u8> {
        hex_upper(self.id().code() as nat, 4) + self.request_rest()
    }

    /// Payload `p` is a well-formed message, request or response.
    pub open spec fn spec_decodable(p: Seq<u8>) -> bool {
        Message::response_decodable(p) || Message::request_decodable(p)
    }

    /// `m` is the message that payload `p` holds.
    pub open spec fn spec_decodes(p: Seq<u8>, m: Message) -> bool {
        Message::response_decodes(p, m) || Message::request_decodes(p, m)
    }

    /// Payload `p` is a well-formed request: identifier, SocketId (but for
    /// Initialize) and body, with nothing left over.
    pub open spec fn request_decodable(p: Seq<u8>) -> bool {
        match payload_id(p) {
            Some(MessageId::ReqInitialize) => p.len() == 4,
            Some(MessageId::ReqInfo) | Some(MessageId::ReqCalibration) | Some(MessageId::ReqPowerUse)
            | Some(MessageId::ReqClockInfo) => p.len() == 20 && field_at(p, 4, 16) is Some,
            Some(MessageId::ReqSwitch) => p.len() == 22 && field_at(p, 4, 16) is Some && field_at(p, 20, 2)
                is Some,
            Some(MessageId::ReqPowerBuffer) => p.len() == 28 && field_at(p, 4, 16) is Some && field_at(
                p,
                20,
                8,
            ) is Some,
            Some(MessageId::ReqClockSet) => {
                &&& p.len() == 44
                &&& field_at(p, 4, 16) is Some
                &&& field_at(p, 20, 2) is Some
                &&& field_at(p, 22, 2) is Some
                &&& field_at(p, 24, 4) is Some
                &&& field_at(p, 28, 8) is Some
                &&& field_at(p, 36, 2) is Some
                &&& field_at(p, 38, 2) is Some
                &&& field_at(p, 40, 2) is Some
                &&& field_at(p, 42, 2) is Some
            },
            _ => false,
        }
    }

    /// `m` is the request that payload `p` holds. A flash address is read
    /// back as its log slot; all ones in ClockSet means no slot.
    pub open spec fn request_decodes(p: Seq<u8>, m: Message) -> bool {
        &&& Message::request_decodable(p)
        &&& payload_id(p) == Some(m.id())
        &&& match m {
            Message::ReqInitialize => true,
            Message::ReqInfo(h) | Message::ReqCalibration(h) | Message::ReqPowerUse(h)
            | Message::ReqClockInfo(h) => h.mac == field_at(p, 4, 16)->0,
            Message::ReqSwitch(h, r) => h.mac == field_at(p, 4, 16)->0 && r.on == (field_at(p, 20, 2)->0
                != 0),
            Message::ReqPowerBuffer(h, r) => h.mac == field_at(p, 4, 16)->0 && r.logaddr == addr2pos_spec(
                field_at(p, 20, 8)->0 as u32,
            ),
            Message::ReqClockSet(h, r) => {
                &&& h.mac == field_at(p, 4, 16)->0
                &&& r.datetime.year == field_at(p, 20, 2)->0
                &&& r.datetime.months == field_at(p, 22, 2)->0
                &&& r.datetime.minutes == field_at(p, 24, 4)->0
                &&& r.logaddr == if field_at(p, 28, 8)->0 == 0xffff_ffff {
                    None
                } else {
                    Some(addr2pos_spec(field_at(p, 28, 8)->0 as u32))
                }
                &&& r.hour == field_at(p, 36, 2)->0
                &&& r.minute == field_at(p, 38, 2)->0
                &&& r.second == field_at(p, 40, 2)->0
                &&& r.day_of_week == field_at(p, 42, 2)->0
            },
            _ => false,
        }
    }

    /// Payload `p` is a well-formed response (or ACK).
    pub open spec fn response_decodable(p: Seq<u8>) -> bool {
        match payload_id(p) {
            Some(id) => header_ok(p, id) && {
                let b = p.skip(body_offset(id));
                match id {
                    MessageId::Ack => Ack::spec_decode(b) is Some,
                    MessageId::ResInitialize => ResInitialize::spec_decode(b) is Some,
                    MessageId::ResInfo => ResInfo::wire_ok(b),
                    MessageId::ResCalibration => ResCalibration::spec_decode(b) is Some,
                    MessageId::ResPowerBuffer => ResPowerBuffer::spec_decode(b) is Some,
                    MessageId::ResPowerUse => ResPowerUse::spec_decode(b) is Some,
                    MessageId::ResClockInfo => ResClockInfo::spec_decode(b) is Some,
                    _ => false,
                }
            },
            None => false,
        }
    }

    /// `m` is the response that payload `p` holds.
    pub open spec fn response_decodes(p: Seq<u8>, m: Message) -> bool {
        match payload_id(p) {
            Some(id) => header_ok(p, id) && {
                let h = spec_header(p, id);
                let b = p.skip(body_offset(id));
                match m {
                    Message::Ack(mh, a) => id == MessageId::Ack && mh == h && Ack::spec_decode(b)
                        == Some(a),
                    Message::ResInitialize(mh, r) => id == MessageId::ResInitialize && mh == h
                        && ResInitialize::spec_decode(b) == Some(r),
                    Message::ResInfo(mh, r) => id == MessageId::ResInfo && mh == h && r.decodes(b),
                    Message::ResCalibration(mh, r) => id == MessageId::ResCalibration && mh == h
                        && ResCalibration::spec_decode(b) == Some(r),
                    Message::ResPowerBuffer(mh, r) => id == MessageId::ResPowerBuffer && mh == h
                        && ResPowerBuffer::spec_decode(b) == Some(r),
                    Message::ResPowerUse(mh, r) => id == MessageId::ResPowerUse && mh == h
                        && ResPowerUse::spec_decode(b) == Some(r),
                    Message::ResClockInfo(mh, r) => id == MessageId::ResClockInfo && mh == h
                        && ResClockInfo::spec_decode(b) == Some(r),
                    _ => false,
                }
            },
            None => false,
        }
    }

    /// Encodes a request; responses cannot be encoded.
    pub fn to_payload(&self) -> (r: PlResult<Vec<u8>>)
        ensures
            r is Ok <==> self.is_request(),
            r matches Ok(v) ==> v@ == self.spec_payload(),
            r matches Err(e) ==> e == PlError::Protocol,
    {
        let mut vec = self.to_message_id().as_bytes();
        match self {
            Message::ReqInfo(header) | Message::ReqSwitch(header, _) | Message::ReqCalibration(
                header,
            ) | Message::ReqPowerBuffer(header, _) | Message::ReqPowerUse(header)
            | Message::ReqClockInfo(header) | Message::ReqClockSet(header, _) => {
                let mut h = header.as_bytes();
                vec.append(&mut h);
            },
            _ => {},
        }
        match self {
            Message::ReqInitialize | Message::ReqInfo(_) | Message::ReqCalibration(_)
            | Message::ReqPowerUse(_) | Message::ReqClockInfo(_) => {},
            Message::ReqPowerBuffer(_, req) => {
                let mut b = req.as_bytes();
                vec.append(&mut b);
            },
            Message::ReqSwitch(_, req) => {
                let mut b = req.as_bytes();
                vec.append(&mut b);
            },
            Message::ReqClockSet(_, req) => {
                let mut b = req.as_bytes();
                vec.append(&mut b);
            },
            _ => {
                return Err(PlError::Protocol);
            },
        }
        proof {
            assert(vec@ =~= self.spec_payload());
        }
        Ok(vec)
    }

    /// Decodes the rest of a request payload, after its identifier.
    fn request_from_payload(decoder: RawDataConsumer, id: MessageId, p: Ghost<Seq<u8>>) -> (r: PlResult<Message>)
        requires
            payload_id(p@) == Some(id),
            p@.len() >= 4,
            decoder@ == p@.skip(4),
            id == MessageId::ReqInitialize || id == MessageId::ReqInfo || id == MessageId::ReqSwitch || id
                == MessageId::ReqCalibration || id == MessageId::ReqPowerBuffer || id
                == MessageId::ReqPowerUse || id == MessageId::ReqClockInfo || id == MessageId::ReqClockSet,
        ensures
            r is Ok <==> Message::request_decodable(p@),
            r matches Ok(m) ==> Message::request_decodes(p@, m),
            r matches Err(e) ==> e == PlError::Protocol,
    {
        let ghost p = p@;
        if id == MessageId::ReqInitialize {
            decoder.check_fully_consumed()?;
            return Ok(Message::ReqInitialize);
        }
        proof {
            lemma_field_skip(p, 4, 0, 16);
        }
        let (d, mac) = decoder.decode_u64()?;
        let h = ReqHeader { mac };
        proof {
            assert(d@ =~= p.skip(20));
            lemma_field_skip(p, 20, 0, 2);
            lemma_field_skip(p, 20, 0, 8);
        }
        match id {
            MessageId::ReqInfo => {
                d.check_fully_consumed()?;
                Ok(Message::ReqInfo(h))
            },
            MessageId::ReqCalibration => {
                d.check_fully_consumed()?;
                Ok(Message::ReqCalibration(h))
            },
            MessageId::ReqPowerUse => {
                d.check_fully_consumed()?;
                Ok(Message::ReqPowerUse(h))
            },
            MessageId::ReqClockInfo => {
                d.check_fully_consumed()?;
                Ok(Message::ReqClockInfo(h))
            },
            MessageId::ReqSwitch => {
                let (d, on) = d.decode_u8()?;
                d.check_fully_consumed()?;
                Ok(Message::ReqSwitch(h, ReqSwitch { on: on != 0 }))
            },
            MessageId::ReqPowerBuffer => {
                let (d, addr) = d.decode_u32()?;
                d.check_fully_consumed()?;
                Ok(Message::ReqPowerBuffer(h, ReqPowerBuffer { logaddr: addr2pos(addr) }))
            },
            _ => {
                let (d, year) = d.decode_u8()?;
                proof {
                    assert(d@ =~= p.skip(22));
                    lemma_field_skip(p, 22, 0, 2);
                }
                let (d, months) = d.decode_u8()?;
                proof {
                    assert(d@ =~= p.skip(24));
                    lemma_field_skip(p, 24, 0, 4);
                }
                let (d, minutes) = d.decode_u16()?;
                proof {
                    assert(d@ =~= p.skip(28));
                    lemma_field_skip(p, 28, 0, 8);
                }
                let (d, word) = d.decode_u32()?;
                proof {
                    assert(d@ =~= p.skip(36));
                    lemma_field_skip(p, 36, 0, 2);
                }
                let (d, hour) = d.decode_u8()?;
                proof {
                    assert(d@ =~= p.skip(38));
                    lemma_field_skip(p, 38, 0, 2);
                }
                let (d, minute) = d.decode_u8()?;
                proof {
                    assert(d@ =~= p.skip(40));
                    lemma_field_skip(p, 40, 0, 2);
                }
                let (d, second) = d.decode_u8()?;
                proof {
                    assert(d@ =~= p.skip(42));
                    lemma_field_skip(p, 42, 0, 2);
                }
                let (d, day_of_week) = d.decode_u8()?;
                d.check_fully_consumed()?;
                let logaddr = if word == 0xffff_ffff {
                    None
                } else {
                    Some(addr2pos(word))
                };
                Ok(
                    Message::ReqClockSet(
                        h,
                        ReqClockSet {
                            datetime: DateTime { year, months, minutes },
                            logaddr,
                            hour,
                            minute,
                            second,
                            day_of_week,
                        },
                    ),
                )
            },
        }
    }

    /// Decodes a payload, request or response. Unknown identifiers,
    /// malformed fields and bytes left over are all protocol errors.
    pub fn from_payload(payload: &[u8]) -> (r: PlResult<Message>)
        ensures
            r is Ok <==> Message::spec_decodable(payload@),
            r matches Ok(m) ==> Message::spec_decodes(payload@, m),
            r matches Err(e) ==> e == PlError::Protocol,
    {
        let ghost p = payload@;
        let decoder = RawDataConsumer::new(payload);
        let (decoder, msg_id) = decoder.decode_u16()?;
        let msg_id = match MessageId::new(msg_id) {
            Some(id) => id,
            None => {
                return Err(PlError::Protocol);
            },
        };
        match msg_id {
            MessageId::ReqInitialize | MessageId::ReqInfo | MessageId::ReqSwitch
            | MessageId::ReqCalibration | MessageId::ReqPowerBuffer | MessageId::ReqPowerUse
            | MessageId::ReqClockInfo | MessageId::ReqClockSet => {
                return Message::request_from_payload(decoder, msg_id, Ghost(p));
            },
            _ => {},
        }
        proof {
            lemma_field_skip(p, 4, 0, 4);
        }
        let (decoder, counter) = decoder.decode_u16()?;
        proof {
            assert(decoder@ =~= p.skip(8));
            lemma_field_skip(p, 8, 0, 16);
        }
        let (decoder, mac) = if msg_id != MessageId::Ack {
            let (d, mac) = decoder.decode_u64()?;
            proof {
                assert(d@ =~= p.skip(24));
            }
            (d, mac)
        } else {
            (decoder, 0)
        };
        let header = ResHeader { msgid: msg_id, count: counter, mac };
        match msg_id {
            MessageId::ResInitialize => Ok(
                Message::ResInitialize(header, ResInitialize::new(decoder)?),
            ),
            MessageId::ResInfo => Ok(Message::ResInfo(header, ResInfo::new(decoder)?)),
            MessageId::ResCalibration => Ok(
                Message::ResCalibration(header, ResCalibration::new(decoder)?),
            ),
            MessageId::ResPowerBuffer => Ok(
                Message::ResPowerBuffer(header, ResPowerBuffer::new(decoder)?),
            ),
            MessageId::ResPowerUse => Ok(Message::ResPowerUse(header, ResPowerUse::new(decoder)?)),
            MessageId::ResClockInfo => Ok(
                Message::ResClockInfo(header, ResClockInfo::new(decoder)?),
            ),
            _ => Ok(Message::Ack(header, Ack::new(decoder)?)),
        }
    }

    pub fn to_message_id(&self) -> (r: MessageId)
        ensures
            r == self.id(),
    {
        match self {
            Message::Ack(..) => MessageId::Ack,
            Message::ReqInitialize => MessageId::ReqInitialize,
            Message::ResInitialize(..) => MessageId::ResInitialize,
            Message::ReqInfo(..) => MessageId::ReqInfo,
            Message::ResInfo(..) => MessageId::ResInfo,
            Message::ReqSwitch(..) => MessageId::ReqSwitch,
            Message::ReqCalibration(..) => MessageId::ReqCalibration,
            Message::ResCalibration(..) => MessageId::ResCalibration,
            Message::ReqPowerBuffer(..) => MessageId::ReqPowerBuffer,
            Message::ResPowerBuffer(..) => MessageId::ResPowerBuffer,
            Message::ReqPowerUse(..) => MessageId::ReqPowerUse,
            Message::ResPowerUse(..) => MessageId::ResPowerUse,
            Message::ReqClockInfo(..) => MessageId::ReqClockInfo,
            Message::ResClockInfo(..) => MessageId::ResClockInfo,
            Message::ReqClockSet(..) => MessageId::ReqClockSet,
        }
    }
}

/// Appending a byte leaves every field of the shorter payload unchanged.
proof fn lemma_field_push(p: Seq<u8>, b: u8, off: int, n: int)
    requires
        0 <= off,
        0 <= n,
        off + n <= p.len(),
    ensures
        field_at(p.push(b), off, n) == field_at(p, off, n),
{
    assert(p.push(b).subrange(off, off + n) =~= p.subrange(off, off + n));
}

/// Every response has a fixed length (ACK one of two): after a payload
/// decodes, nothing is left, and the same payload with one more byte is
/// rejected.
pub proof fn lemma_trailing_byte_rejected(p: Seq<u8>, b: u8)
    requires
        Message::spec_decodable(p),
    ensures
        !Message::spec_decodable(p.push(b)),
{
    let q = p.push(b);
    let id = payload_id(p)->0;
    lemma_field_push(p, b, 0, 4);
    if Message::response_decodable(p) {
        let off = body_offset(id);
        lemma_field_push(p, b, 4, 4);
        if id != MessageId::Ack {
            lemma_field_push(p, b, 8, 16);
        }
        assert(q.skip(off) =~= p.skip(off).push(b));
    }
}

/// A field rendered inside a payload reads back as its value.
proof fn lemma_field_reads_back(p: Seq<u8>, off: int, v: nat, w: nat)
    requires
        w > 0,
        v < crate::hex::pow16(w),
        0 <= off,
        off + w <= p.len(),
        p.subrange(off, off + w) == hex_upper(v, w),
    ensures
        field_at(p, off, w as int) == Some(v),
{
    crate::hex::lemma_parse_hex_upper(v, w);
}

pub proof fn lemma_pow16_16()
    ensures
        crate::hex::pow16(16) == 0x1_0000_0000 * 0x1_0000_0000,
{
    crate::hex::lemma_pow16_values();
    lemma_pow16_add(8, 8);
}

/// Encoding loses nothing: every field of a request's payload reads back as
/// the value it was built from, and the payload has exactly the length of
/// its fields.
pub proof fn lemma_request_round_trip(m: Message)
    requires
        m.is_request(),
    ensures
        payload_id(m.spec_payload()) == Some(m.id()),
        match m {
            Message::ReqInitialize => m.spec_payload().len() == 4,
            Message::ReqInfo(h) | Message::ReqCalibration(h) | Message::ReqPowerUse(h)
            | Message::ReqClockInfo(h) => m.spec_payload().len() == 20 && field_at(m.spec_payload(), 4, 16)
                == Some(h.mac as nat),
            Message::ReqSwitch(h, r) => m.spec_payload().len() == 22 && field_at(m.spec_payload(), 4, 16)
                == Some(h.mac as nat) && field_at(m.spec_payload(), 20, 2) == Some(
                if r.on {
                    1nat
                } else {
                    0nat
                },
            ),
            Message::ReqPowerBuffer(h, r) => m.spec_payload().len() == 28 && field_at(
                m.spec_payload(),
                4,
                16,
            ) == Some(h.mac as nat) && field_at(m.spec_payload(), 20, 8) == Some(
                pos2addr_spec(r.logaddr) as nat,
            ),
            Message::ReqClockSet(h, r) => {
                let p = m.spec_payload();
                &&& p.len() == 44
                &&& field_at(p, 4, 16) == Some(h.mac as nat)
                &&& field_at(p, 20, 2) == Some(r.datetime.year as nat)
                &&& field_at(p, 22, 2) == Some(r.datetime.months as nat)
                &&& field_at(p, 24, 4) == Some(r.datetime.minutes as nat)
                &&& field_at(p, 28, 8) == Some(r.logaddr_word() as nat)
                &&& field_at(p, 36, 2) == Some(r.hour as nat)
                &&& field_at(p, 38, 2) == Some(r.minute as nat)
                &&& field_at(p, 40, 2) == Some(r.second as nat)
                &&& field_at(p, 42, 2) == Some(r.day_of_week as nat)
            },
            _ => true,
        },
{
    let p = m.spec_payload();
    let code = m.id().code() as nat;
    crate::hex::lemma_pow16_values();
    lemma_pow16_16();
    crate::hex::lemma_hex_upper_value(code, 4);
    assert(p.subrange(0, 4) =~= hex_upper(code, 4));
    lemma_field_reads_back(p, 0, code, 4);
    match m {
        Message::ReqInitialize => {},
        Message::ReqInfo(h) | Message::ReqCalibration(h) | Message::ReqPowerUse(h)
        | Message::ReqClockInfo(h) => {
            crate::hex::lemma_hex_upper_value(h.mac as nat, 16);
            assert(p.subrange(4, 20) =~= hex_upper(h.mac as nat, 16));
            lemma_field_reads_back(p, 4, h.mac as nat, 16);
        },
        Message::ReqSwitch(h, r) => {
            let on: nat = if r.on { 1 } else { 0 };
            crate::hex::lemma_hex_upper_value(h.mac as nat, 16);
            crate::hex::lemma_hex_upper_value(on, 2);
            assert(p.subrange(4, 20) =~= hex_upper(h.mac as nat, 16));
            lemma_field_reads_back(p, 4, h.mac as nat, 16);
            assert(p.subrange(20, 22) =~= hex_upper(on, 2));
            lemma_field_reads_back(p, 20, on, 2);
        },
        Message::ReqPowerBuffer(h, r) => {
            let a = pos2addr_spec(r.logaddr) as nat;
            crate::hex::lemma_hex_upper_value(h.mac as nat, 16);
            crate::hex::lemma_hex_upper_value(a, 8);
            assert(p.subrange(4, 20) =~= hex_upper(h.mac as nat, 16));
            lemma_field_reads_back(p, 4, h.mac as nat, 16);
            assert(p.subrange(20, 28) =~= hex_upper(a, 8));
            lemma_field_reads_back(p, 20, a, 8);
        },
        Message::ReqClockSet(h, r) => {
            crate::hex::lemma_hex_upper_value(h.mac as nat, 16);
            crate::hex::lemma_hex_upper_value(r.datetime.year as nat, 2);
            crate::hex::lemma_hex_upper_value(r.datetime.months as nat, 2);
            crate::hex::lemma_hex_upper_value(r.datetime.minutes as nat, 4);
            crate::hex::lemma_hex_upper_value(r.logaddr_word() as nat, 8);
            crate::hex::lemma_hex_upper_value(r.hour as nat, 2);
            crate::hex::lemma_hex_upper_value(r.minute as nat, 2);
            crate::hex::lemma_hex_upper_value(r.second as nat, 2);
            crate::hex::lemma_hex_upper_value(r.day_of_week as nat, 2);
            assert(p.subrange(4, 20) =~= hex_upper(h.mac as nat, 16));
            lemma_field_reads_back(p, 4, h.mac as nat, 16);
            assert(p.subrange(20, 22) =~= hex_upper(r.datetime.year as nat, 2));
            lemma_field_reads_back(p, 20, r.datetime.year as nat, 2);
            assert(p.subrange(22, 24) =~= hex_upper(r.datetime.months as nat, 2));
            lemma_field_reads_back(p, 22, r.datetime.months as nat, 2);
            assert(p.subrange(24, 28) =~= hex_upper(r.datetime.minutes as nat, 4));
            lemma_field_reads_back(p, 24, r.datetime.minutes as nat, 4);
            assert(p.subrange(28, 36) =~= hex_upper(r.logaddr_word() as nat, 8));
            lemma_field_reads_back(p, 28, r.logaddr_word() as nat, 8);
            assert(p.subrange(36, 38) =~= hex_upper(r.hour as nat, 2));
            lemma_field_reads_back(p, 36, r.hour as nat, 2);
            assert(p.subrange(38, 40) =~= hex_upper(r.minute as nat, 2));
            lemma_field_reads_back(p, 38, r.minute as nat, 2);
            assert(p.subrange(40, 42) =~= hex_upper(r.second as nat, 2));
            lemma_field_reads_back(p, 40, r.second as nat, 2);
            assert(p.subrange(42, 44) =~= hex_upper(r.day_of_week as nat, 2));
            lemma_field_reads_back(p, 42, r.day_of_week as nat, 2);
        },
        _ => {},
    }
}

pub proof fn lemma_pow16_add(a: nat, b: nat)
    ensures
        crate::hex::pow16(a + b) == crate::hex::pow16(a) * crate::hex::pow16(b),
    decreases a,
{
    if a > 0 {
        lemma_pow16_add((a - 1) as nat, b);
        assert(crate::hex::pow16(a + b) == 16 * crate::hex::pow16((a - 1 + b) as nat));
        vstd::arithmetic::mul::lemma_mul_is_associative(
            16,
            crate::hex::pow16((a - 1) as nat) as int,
            crate::hex::pow16(b) as int,
        );
    } else {
        assert(crate::hex::pow16(0) == 1);
        assert(a + b == b);
    }
}

/// Request payloads hold hex digits `0-9`, `A-F` only.
pub proof fn lemma_request_payload_upper(m: Message)
    requires
        m.is_request(),
    ensures
        upper_hex_only(m.spec_payload()),
{
    let code = hex_upper(m.id().code() as nat, 4);
    lemma_hex_upper_is_upper(m.id().code() as nat, 4);
    match m {
        Message::ReqInitialize => {
            assert(m.spec_payload() =~= code + seq![]);
        },
        Message::ReqInfo(h) | Message::ReqCalibration(h) | Message::ReqPowerUse(h)
        | Message::ReqClockInfo(h) => {
            lemma_hex_upper_is_upper(h.mac as nat, 16);
            lemma_upper_hex_concat(code, hex_upper(h.mac as nat, 16));
        },
        Message::ReqSwitch(h, r) => {
            lemma_hex_upper_is_upper(h.mac as nat, 16);
            lemma_hex_upper_is_upper(if r.on { 1 } else { 0 }, 2);
            lemma_upper_hex_concat(hex_upper(h.mac as nat, 16), r.spec_bytes());
            lemma_upper_hex_concat(code, hex_upper(h.mac as nat, 16) + r.spec_bytes());
        },
        Message::ReqPowerBuffer(h, r) => {
            lemma_hex_upper_is_upper(h.mac as nat, 16);
            lemma_hex_upper_is_upper(pos2addr_spec(r.logaddr) as nat, 8);
            lemma_upper_hex_concat(hex_upper(h.mac as nat, 16), r.spec_bytes());
            lemma_upper_hex_concat(code, hex_upper(h.mac as nat, 16) + r.spec_bytes());
        },
        Message::ReqClockSet(h, r) => {
            let a = hex_upper(r.datetime.year as nat, 2);
            let b = hex_upper(r.datetime.months as nat, 2);
            let c = hex_upper(r.datetime.minutes as nat, 4);
            let d = hex_upper(r.logaddr_word() as nat, 8);
            let e = hex_upper(r.hour as nat, 2);
            let f = hex_upper(r.minute as nat, 2);
            let g = hex_upper(r.second as nat, 2);
            let k = hex_upper(r.day_of_week as nat, 2);
            lemma_hex_upper_is_upper(r.datetime.year as nat, 2);
            lemma_hex_upper_is_upper(r.datetime.months as nat, 2);
            lemma_hex_upper_is_upper(r.datetime.minutes as nat, 4);
            lemma_hex_upper_is_upper(r.logaddr_word() as nat, 8);
            lemma_hex_upper_is_upper(r.hour as nat, 2);
            lemma_hex_upper_is_upper(r.minute as nat, 2);
            lemma_hex_upper_is_upper(r.second as nat, 2);
            lemma_hex_upper_is_upper(r.day_of_week as nat, 2);
            lemma_upper_hex_concat(a, b);
            lemma_upper_hex_concat(a + b, c);
            lemma_upper_hex_concat(a + b + c, d);
            lemma_upper_hex_concat(a + b + c + d, e);
            lemma_upper_hex_concat(a + b + c + d + e, f);
            lemma_upper_hex_concat(a + b + c + d + e + f, g);
            lemma_upper_hex_concat(a + b + c + d + e + f + g, k);
            lemma_hex_upper_is_upper(h.mac as nat, 16);
            lemma_upper_hex_concat(hex_upper(h.mac as nat, 16), r.spec_bytes());
            lemma_upper_hex_concat(code, hex_upper(h.mac as nat, 16) + r.spec_bytes());
        },
        _ => {},
    }
}

/// Log slots whose flash address fits in 32 bits.
pub open spec fn slot_fits(a: u32) -> bool {
    a < 134209024
}

/// The log slots a request names have flash addresses that fit in 32 bits.
pub open spec fn addresses_fit(m: Message) -> bool {
    match m {
        Message::ReqPowerBuffer(_, r) => slot_fits(r.logaddr),
        Message::ReqClockSet(_, r) => r.logaddr matches Some(a) ==> slot_fits(a),
        _ => true,
    }
}

proof fn lemma_slot_round_trip(a: u32)
    requires
        slot_fits(a),
    ensures
        addr2pos_spec(pos2addr_spec(a)) == a,
        pos2addr_spec(a) != 0xffff_ffff,
{
    let v = a as int * 32 + 278528;
    assert(0 <= v < 0x1_0000_0000);
    assert(pos2addr_spec(a) == v);
    assert(((pos2addr_spec(a) as int - 278528) as u32) == a as int * 32);
    assert(v % 2 == 0);
}

/// Encoding and decoding agree: every request, whose log slot (if any) has
/// a 32-bit flash address, decodes back to itself.
pub proof fn lemma_request_codec_round_trip(m: Message)
    requires
        m.is_request(),
        addresses_fit(m),
    ensures
        Message::spec_decodable(m.spec_payload()),
        Message::spec_decodes(m.spec_payload(), m),
{
    lemma_request_round_trip(m);
    match m {
        Message::ReqPowerBuffer(_, r) => {
            lemma_slot_round_trip(r.logaddr);
        },
        Message::ReqClockSet(_, r) => {
            if let Some(a) = r.logaddr {
                lemma_slot_round_trip(a);
            }
        },
        _ => {},
    }
}

/// The words of request payload `p` are the ones encoding writes: the
/// Switch byte is 00 or 01, and a log word is the address of the slot read
/// from it (or all ones for no slot).
pub open spec fn canonical_words(p: Seq<u8>, m: Message) -> bool {
    match m {
        Message::ReqSwitch(_, _) => field_at(p, 20, 2)->0 <= 1,
        Message::ReqPowerBuffer(_, r) => pos2addr_spec(r.logaddr) == field_at(p, 20, 8)->0,
        Message::ReqClockSet(_, r) => r.logaddr_word() == field_at(p, 28, 8)->0,
        _ => true,
    }
}

proof fn lemma_code_of_id(x: u16, id: MessageId)
    requires
        MessageId::spec_new(x) == Some(id),
    ensures
        id.code() == x,
{
}

/// Re-encoding is byte-identical: a request payload written in upper-case
/// hex with canonical words encodes back from the request it decodes to.
pub proof fn lemma_request_reencode(p: Seq<u8>, m: Message)
    requires
        Message::request_decodes(p, m),
        crate::hex::upper_hex_only(p),
        canonical_words(p, m),
    ensures
        m.is_request(),
        m.spec_payload() == p,
{
    crate::hex::lemma_upper_field(p, 0, 4);
    let code = crate::hex::hex_value(p.subrange(0, 4));
    crate::hex::lemma_pow16_values();
    lemma_code_of_id(code as u16, m.id());
    assert(m.id().code() == code);
    if p.len() >= 20 {
        crate::hex::lemma_upper_field(p, 4, 16);
    }
    match m {
        Message::ReqInitialize => {
            assert(m.spec_payload() =~= p);
        },
        Message::ReqInfo(h) | Message::ReqCalibration(h) | Message::ReqPowerUse(h)
        | Message::ReqClockInfo(h) => {
            assert(m.spec_payload() =~= p);
        },
        Message::ReqSwitch(h, r) => {
            crate::hex::lemma_upper_field(p, 20, 2);
            assert(r.spec_bytes() == p.subrange(20, 22));
            assert(m.spec_payload() =~= p);
        },
        Message::ReqPowerBuffer(h, r) => {
            crate::hex::lemma_upper_field(p, 20, 8);
            assert(r.spec_bytes() == p.subrange(20, 28));
            assert(m.spec_payload() =~= p);
        },
        Message::ReqClockSet(h, r) => {
            crate::hex::lemma_upper_field(p, 20, 2);
            crate::hex::lemma_upper_field(p, 22, 2);
            crate::hex::lemma_upper_field(p, 24, 4);
            crate::hex::lemma_upper_field(p, 28, 8);
            crate::hex::lemma_upper_field(p, 36, 2);
            crate::hex::lemma_upper_field(p, 38, 2);
            crate::hex::lemma_upper_field(p, 40, 2);
            crate::hex::lemma_upper_field(p, 42, 2);
            assert(r.spec_bytes() =~= p.subrange(20, 44));
            assert(m.spec_payload() =~= p);
        },
        _ => {},
    }
}

} // verus!
