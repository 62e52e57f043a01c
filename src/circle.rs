//! The device façade: a stick and the Circles on it. The helpers for the
//! power log and the clock serve any port; `Plugwise` and `Circle` run on
//! the simulated stick.
use vstd::prelude::*;
use std::collections::BTreeMap;
use crate::error::{PlError, PlResult};
use crate::engine::Expect;
use crate::messages::{
    DateTime, Message, MessageId, Pulses, ReqClockSet, ReqHeader, ReqPowerBuffer, ReqSwitch,
    ResCalibration, ResClockInfo, ResHeader, ResInfo, ResInitialize, ResPowerBuffer, ResPowerUse, Tm,
};
use crate::protocol::{Protocol, received, sim_after, sim_answer};
use crate::stub::sim_request;
use crate::stub::Stub;

verus! {

/// Days from 1970-01-01 to a date of the proleptic Gregorian calendar
/// (year `y`, month `m` in 1 to 12, day `d`); days beyond the end of a
/// month run on into the next.
pub open spec fn days_from_civil(y: int, m: int, d: int) -> int {
    let (y, m) = if m <= 2 {
        (y - 1, m + 12)
    } else {
        (y, m)
    };
    365 * y + y / 4 - y / 100 + y / 400 + 3 * (m + 1) / 5 + 30 * m + d - 719561
}

/// Seconds since 1970 of a UTC calendar time (year counted from 1900, month
/// from 0).
pub open spec fn utc_seconds(year: int, mon: int, mday: int, hour: int, min: int, sec: int) -> int {
    days_from_civil(year + 1900, mon + 1, mday) * 86400 + 3600 * hour + 60 * min + sec
}

/// Seconds since 1970 of a calendar time in UTC.
pub fn timestamp_of(tm: &Tm) -> (r: i64)
    requires
        tm.wf(),
        tm.tm_year >= -1898,
    ensures
        r == utc_seconds(
            tm.tm_year as int,
            tm.tm_mon as int,
            tm.tm_mday as int,
            tm.tm_hour as int,
            tm.tm_min as int,
            tm.tm_sec as int,
        ),
{
    let mut y: i64 = tm.tm_year as i64 + 1900;
    let mut m: i64 = tm.tm_mon as i64 + 1;
    if m <= 2 {
        y = y - 1;
        m = m + 12;
    }
    let d = tm.tm_mday as i64;
    assert(0 < y < 0x1_0000_0000);
    assert(365 * y < 0x180_0000_0000) by (nonlinear_arith)
        requires
            0 < y < 0x1_0000_0000,
    ;
    let days: i64 = 365 * y + y / 4 - y / 100 + y / 400 + 3 * (m + 1) / 5 + 30 * m + d - 719561;
    assert(-0x1_0000_0000 < days < 0x200_0000_0000);
    assert(days * 86400 < 0x7000_0000_0000_0000 && days * 86400 > -0x7000_0000_0000_0000)
        by (nonlinear_arith)
        requires
            -0x1_0000_0000 < days < 0x200_0000_0000,
    ;
    days * 86400 + 3600 * (tm.tm_hour as i64) + 60 * (tm.tm_min as i64) + tm.tm_sec as i64
}

/// The timestamp of a valid date-time.
pub open spec fn datetime_seconds(dt: DateTime) -> int {
    let tm = dt.tm_spec();
    utc_seconds(
        tm.tm_year as int,
        tm.tm_mon as int,
        tm.tm_mday as int,
        tm.tm_hour as int,
        tm.tm_min as int,
        tm.tm_sec as int,
    )
}

/// First log slot to read: all of them without a limit; otherwise enough
/// blocks of four hourly entries back from the last slot to hold
/// `max_entries` entries (a partial block counts as none), but not before 0.
pub open spec fn start_spec(last_logaddr: u32, max_entries: Option<u32>) -> u32 {
    match max_entries {
        None => 0,
        Some(n) => if last_logaddr > n / 4 {
            (last_logaddr - n / 4) as u32
        } else {
            0
        },
    }
}

pub fn power_buffer_start(last_logaddr: u32, max_entries: Option<u32>) -> (r: u32)
    ensures
        r == start_spec(last_logaddr, max_entries),
{
    match max_entries {
        None => 0,
        Some(n) => {
            let n_of_calls = n / 4;
            if last_logaddr > n_of_calls {
                last_logaddr - n_of_calls
            } else {
                0
            }
        },
    }
}

/// The map after recording one entry: invalid date-times are dropped, a
/// valid one sets its timestamp.
pub open spec fn put_entry(m: Map<i64, Pulses>, dt: DateTime, p: Pulses) -> Map<i64, Pulses> {
    if dt.is_valid() {
        m.insert(datetime_seconds(dt) as i64, p)
    } else {
        m
    }
}

/// The map after recording the four entries of a block, in order.
pub open spec fn put_block(m: Map<i64, Pulses>, b: ResPowerBuffer) -> Map<i64, Pulses> {
    put_entry(
        put_entry(put_entry(put_entry(m, b.datetime1, b.pulses1), b.datetime2, b.pulses2), b.datetime3, b.pulses3),
        b.datetime4,
        b.pulses4,
    )
}

/// The map after recording the blocks in order.
pub open spec fn put_blocks(m: Map<i64, Pulses>, bs: Seq<ResPowerBuffer>) -> Map<i64, Pulses>
    decreases bs.len(),
{
    if bs.len() == 0 {
        m
    } else {
        put_block(put_blocks(m, bs.drop_last()), bs.last())
    }
}

/// Every key is the timestamp of a valid date-time.
pub open spec fn keys_valid(m: Map<i64, Pulses>) -> bool {
    forall|k: i64|
        #[trigger] m.contains_key(k) ==> exists|dt: DateTime|
            dt.is_valid() && k == datetime_seconds(dt)
}

/// Recording entries keeps every key the timestamp of a valid date-time.
pub proof fn lemma_put_blocks_keys_valid(m: Map<i64, Pulses>, bs: Seq<ResPowerBuffer>)
    requires
        keys_valid(m),
    ensures
        keys_valid(put_blocks(m, bs)),
    decreases bs.len(),
{
    if bs.len() > 0 {
        lemma_put_blocks_keys_valid(m, bs.drop_last());
        let b = bs.last();
        let m0 = put_blocks(m, bs.drop_last());
        lemma_put_entry_keys_valid(m0, b.datetime1, b.pulses1);
        let m1 = put_entry(m0, b.datetime1, b.pulses1);
        lemma_put_entry_keys_valid(m1, b.datetime2, b.pulses2);
        let m2 = put_entry(m1, b.datetime2, b.pulses2);
        lemma_put_entry_keys_valid(m2, b.datetime3, b.pulses3);
        let m3 = put_entry(m2, b.datetime3, b.pulses3);
        lemma_put_entry_keys_valid(m3, b.datetime4, b.pulses4);
    }
}

proof fn lemma_put_entry_keys_valid(m: Map<i64, Pulses>, dt: DateTime, p: Pulses)
    requires
        keys_valid(m),
    ensures
        keys_valid(put_entry(m, dt, p)),
{
    let n = put_entry(m, dt, p);
    assert forall|k: i64| #[trigger] n.contains_key(k) implies exists|d: DateTime|
        d.is_valid() && k == datetime_seconds(d) by {
        if dt.is_valid() && k == datetime_seconds(dt) as i64 {
            assert(k == datetime_seconds(dt));
        } else {
            assert(m.contains_key(k));
        }
    }
}

/// Records one hourly entry under its timestamp; entries whose date-time
/// is invalid are dropped.
pub fn add_power_entry(map: &mut BTreeMap<i64, Pulses>, datetime: &DateTime, pulses: &Pulses)
    ensures
        final(map)@ == put_entry(old(map)@, *datetime, *pulses),
{
    if let Some(tm) = datetime.to_tm() {
        let ts = timestamp_of(&tm);
        map.insert(ts, *pulses);
    }
}

/// Records the four entries of a power buffer block, in order.
pub fn add_power_block(map: &mut BTreeMap<i64, Pulses>, block: &ResPowerBuffer)
    ensures
        final(map)@ == put_block(old(map)@, *block),
{
    add_power_entry(map, &block.datetime1, &block.pulses1);
    add_power_entry(map, &block.datetime2, &block.pulses2);
    add_power_entry(map, &block.datetime3, &block.pulses3);
    add_power_entry(map, &block.datetime4, &block.pulses4);
}

/// The calendar time of date `dt` at the time of day of `clock`.
pub open spec fn clock_spec(dt: DateTime, clock: ResClockInfo) -> Tm {
    Tm {
        tm_sec: clock.second as i32,
        tm_min: clock.minute as i32,
        tm_hour: clock.hour as i32,
        tm_wday: (clock.day_of_week % 7) as i32,
        ..dt.tm_spec()
    }
}

/// A Circle's clock: the date of its Info response with the time of day
/// and weekday of its ClockInfo response (weekday 7 becomes Sunday, 0).
pub fn clock_from(datetime: &DateTime, clock: &ResClockInfo) -> (r: PlResult<Tm>)
    ensures
        r is Err <==> !datetime.is_valid(),
        r matches Err(e) ==> e == PlError::InvalidTimestamp,
        r matches Ok(tm) ==> tm == clock_spec(*datetime, *clock),
{
    let mut tm = match datetime.to_tm() {
        Some(tm) => tm,
        None => {
            return Err(PlError::InvalidTimestamp);
        },
    };
    tm.tm_sec = clock.second as i32;
    tm.tm_min = clock.minute as i32;
    tm.tm_hour = clock.hour as i32;
    tm.tm_wday = (clock.day_of_week % 7) as i32;
    Ok(tm)
}

/// Fails with `NotOnline` exactly when the stick reports its network of
/// Circles offline.
pub fn require_online(res: &ResInitialize) -> (r: PlResult<()>)
    ensures
        r is Ok <==> res.is_online,
        r matches Err(e) ==> e == PlError::NotOnline,
{
    if res.is_online {
        Ok(())
    } else {
        Err(PlError::NotOnline)
    }
}

/// An Info response holding `info` was received.
pub open spec fn info_received(info: ResInfo) -> bool {
    exists|h: ResHeader| #[trigger] received(Expect::Message(MessageId::ResInfo), Message::ResInfo(h, info))
}

/// A PowerBuffer response holding `b` was received.
pub open spec fn block_received(b: ResPowerBuffer) -> bool {
    exists|h: ResHeader|
        #[trigger] received(Expect::Message(MessageId::ResPowerBuffer), Message::ResPowerBuffer(h, b))
}

/// The Info request for Circle `mac`.
pub open spec fn info_request(mac: u64) -> Message {
    Message::ReqInfo(ReqHeader { mac })
}

/// The PowerBuffer request for slot `slot` of Circle `mac`.
pub open spec fn block_request(mac: u64, slot: int) -> Message {
    Message::ReqPowerBuffer(ReqHeader { mac }, ReqPowerBuffer { logaddr: slot as u32 })
}

/// The PowerBuffer requests for `count` slots from `start` on, in order.
pub open spec fn block_requests(mac: u64, start: int, count: int) -> Seq<Seq<u8>> {
    Seq::new(count as nat, |i: int| sim_request(block_request(mac, start + i)))
}

/// Number of log slots read for `max_entries`, given the last slot.
pub open spec fn slot_count(last: u32, max_entries: Option<u32>) -> int {
    last - start_spec(last, max_entries) + 1
}

/// The power log was read: Info `info`, then one block per slot
/// `start_spec(last, max_entries) ..= last`.
pub open spec fn fetched(max_entries: Option<u32>, info: ResInfo, blocks: Seq<ResPowerBuffer>) -> bool {
    &&& info_received(info)
    &&& blocks.len() == slot_count(info.last_logaddr, max_entries)
    &&& forall|i: int| 0 <= i < blocks.len() ==> #[trigger] block_received(blocks[i])
}

/// On the simulated stick `port`, the power log of Circle `mac` was read
/// from the stick's own answers, slot by slot in ascending order.
pub open spec fn sim_fetched(
    port: Stub,
    mac: u64,
    max_entries: Option<u32>,
    info: ResInfo,
    blocks: Seq<ResPowerBuffer>,
) -> bool {
    let start = start_spec(info.last_logaddr, max_entries) as int;
    &&& exists|h: ResHeader|
        #[trigger] Message::spec_decodes(sim_answer(port, info_request(mac)), Message::ResInfo(h, info))
    &&& blocks.len() == slot_count(info.last_logaddr, max_entries)
    &&& forall|i: int| 0 <= i < blocks.len() ==> #[trigger] sim_block(port, mac, start, i, blocks[i])
}

/// The simulated stick's answer for slot `start + i` of Circle `mac` holds block `b`.
pub open spec fn sim_block(port: Stub, mac: u64, start: int, i: int, b: ResPowerBuffer) -> bool {
    exists|h: ResHeader|
        #[trigger] Message::spec_decodes(
            sim_answer(port, block_request(mac, start + i)),
            Message::ResPowerBuffer(h, b),
        )
}

/// The power log the simulated stick gives: its one block, recorded `n` times.
pub open spec fn sim_log(n: int, m: Map<i64, Pulses>) -> bool {
    m == put_blocks(Map::empty(), Seq::new(n as nat, |i: int| crate::stub::sim_block_answer()))
}

/// The simulated stick's power log, however many slots are read: four
/// hours of 2013-09-14, from 17:00 UTC.
pub proof fn lemma_sim_log(n: int)
    requires
        n >= 1,
    ensures
        sim_log(n, map![
            1379178000i64 => Pulses { pulses: 0x7B, timespan: 3600 },
            1379181600i64 => Pulses { pulses: 0x76, timespan: 3600 },
            1379185200i64 => Pulses { pulses: 0x71, timespan: 3600 },
            1379188800i64 => Pulses { pulses: 0x31, timespan: 3600 },
        ]),
    decreases n,
{
    let b = crate::stub::sim_block_answer();
    let four = map![
        1379178000i64 => Pulses { pulses: 0x7B, timespan: 3600 },
        1379181600i64 => Pulses { pulses: 0x76, timespan: 3600 },
        1379185200i64 => Pulses { pulses: 0x71, timespan: 3600 },
        1379188800i64 => Pulses { pulses: 0x31, timespan: 3600 },
    ];
    assert(b.datetime1.is_valid() && b.datetime2.is_valid() && b.datetime3.is_valid()
        && b.datetime4.is_valid());
    assert(datetime_seconds(b.datetime1) == 1379178000);
    assert(datetime_seconds(b.datetime2) == 1379181600);
    assert(datetime_seconds(b.datetime3) == 1379185200);
    assert(datetime_seconds(b.datetime4) == 1379188800);
    let bs = Seq::new(n as nat, |i: int| crate::stub::sim_block_answer());
    assert(bs.last() == b);
    assert(put_blocks(Map::empty(), bs) == put_block(put_blocks(Map::empty(), bs.drop_last()), b));
    if n == 1 {
        assert(bs.drop_last() =~= Seq::<ResPowerBuffer>::empty());
        assert(put_blocks(Map::empty(), bs.drop_last()) == Map::<i64, Pulses>::empty());
        assert(put_block(Map::empty(), b) =~= four);
    } else {
        lemma_sim_log(n - 1);
        assert(bs.drop_last() =~= Seq::new((n - 1) as nat, |i: int| crate::stub::sim_block_answer()));
        assert(put_block(four, b) =~= four);
    }
}

/// A connected stick: the command engine on the simulated port.
pub struct Plugwise {
    protocol: Protocol,
}

/// A Circle, with the calibration constants read when it was created.
#[derive(Debug, Clone, Copy)]
pub struct Circle {
    mac: u64,
    calibration: ResCalibration,
}

impl Plugwise {
    pub closed spec fn retries(&self) -> u8 {
        self.protocol.retries()
    }

    /// The simulated stick.
    pub closed spec fn port(&self) -> Stub {
        self.protocol.port()
    }

    /// The simulated stick holds no traffic in flight.
    pub open spec fn idle(&self) -> bool {
        self.port().idle()
    }

    /// Relay states that Switch requests have set.
    pub open spec fn relays(&self) -> Map<u64, bool> {
        self.port().relays()
    }

    /// Whether the simulated stick holds Circle `mac` switched on.
    pub open spec fn is_on(&self, mac: u64) -> bool {
        self.relays().contains_key(mac) && self.relays()[mac]
    }

    /// Initializes the stick; fails with `NotOnline` where its network of
    /// Circles is not online. A fresh simulated stick connects.
    pub fn initialize(port: Stub) -> (r: PlResult<Plugwise>)
        ensures
            r matches Ok(p) ==> p.retries() == crate::engine::DEFAULT_RETRIES,
            r is Ok ==> exists|h: ResHeader, res: ResInitialize|
                #[trigger] received(
                    Expect::Message(MessageId::ResInitialize),
                    Message::ResInitialize(h, res),
                ) && res.is_online,
            port.idle() ==> (r matches Ok(p) && sim_after(port, p.port(), Message::ReqInitialize)
                && p.relays() == port.relays()),
    {
        let mut protocol = Protocol::new(port);
        let result = protocol.initialize()?;
        let ghost h = choose|h: ResHeader|
            #[trigger] received(
                Expect::Message(MessageId::ResInitialize),
                Message::ResInitialize(h, result),
            );
        proof {
            assert(received(Expect::Message(MessageId::ResInitialize), Message::ResInitialize(h, result)));
        }
        if let Err(e) = require_online(&result) {
            return Err(e);
        }
        Ok(Plugwise { protocol })
    }

    pub fn set_retries(&mut self, retries: u8)
        ensures
            final(self).retries() == retries,
            final(self).port() == old(self).port(),
    {
        self.protocol.set_retries(retries);
    }

    /// Calibrates Circle `mac` and returns its handle, which holds the
    /// constants received.
    pub fn create_circle(&mut self, mac: u64) -> (r: PlResult<Circle>)
        ensures
            final(self).retries() == old(self).retries(),
            r matches Ok(c) ==> c.mac() == mac && exists|h: ResHeader|
                #[trigger] received(
                    Expect::Message(MessageId::ResCalibration),
                    Message::ResCalibration(h, c.calibration_spec()),
                ),
            old(self).idle() ==> (r matches Ok(c) && exists|h: ResHeader|
                #[trigger] Message::spec_decodes(
                    sim_answer(old(self).port(), Message::ReqCalibration(ReqHeader { mac })),
                    Message::ResCalibration(h, c.calibration_spec()),
                )) && sim_after(old(self).port(), final(self).port(), Message::ReqCalibration(ReqHeader { mac }))
                && final(self).relays() == old(self).relays(),
    {
        let calibration_data = self.protocol.calibrate(mac)?;
        let c = Circle { mac, calibration: calibration_data };
        proof {
            let h = choose|h: ResHeader|
                #[trigger] received(
                    Expect::Message(MessageId::ResCalibration),
                    Message::ResCalibration(h, calibration_data),
                );
            assert(received(
                Expect::Message(MessageId::ResCalibration),
                Message::ResCalibration(h, c.calibration_spec()),
            ));
            assert(c.mac() == mac);
            if old(self).idle() {
                let h2 = choose|h2: ResHeader|
                    #[trigger] Message::spec_decodes(
                        sim_answer(old(self).port(), Message::ReqCalibration(ReqHeader { mac })),
                        Message::ResCalibration(h2, calibration_data),
                    );
                assert(Message::spec_decodes(
                    sim_answer(old(self).port(), Message::ReqCalibration(ReqHeader { mac })),
                    Message::ResCalibration(h2, c.calibration_spec()),
                ));
            }
        }
        let r = Ok(c);
        assert(r matches Ok(x) ==> x.mac() == mac && exists|h: ResHeader|
            #[trigger] received(
                Expect::Message(MessageId::ResCalibration),
                Message::ResCalibration(h, x.calibration_spec()),
            ));
        assert(old(self).idle() ==> (r matches Ok(x) && exists|h: ResHeader|
            #[trigger] Message::spec_decodes(
                sim_answer(old(self).port(), Message::ReqCalibration(ReqHeader { mac })),
                Message::ResCalibration(h, x.calibration_spec()),
            )));
        r
    }
}

impl Circle {
    pub closed spec fn mac(&self) -> u64 {
        self.mac
    }

    pub closed spec fn calibration_spec(&self) -> ResCalibration {
        self.calibration
    }

    /// The Circle's address.
    pub fn get_mac(&self) -> (r: u64)
        ensures
            r == self.mac(),
    {
        self.mac
    }

    /// The calibration constants read at creation.
    pub fn calibration(&self) -> (r: ResCalibration)
        ensures
            r == self.calibration_spec(),
    {
        self.calibration
    }

    pub fn switch_on(&self, stick: &mut Plugwise) -> (r: PlResult<()>)
        ensures
            final(stick).retries() == old(stick).retries(),
            r is Ok ==> exists|m: Message| #[trigger] received(Expect::AckFrom(self.mac()), m),
            old(stick).idle() ==> r is Ok && sim_after(
                old(stick).port(),
                final(stick).port(),
                Message::ReqSwitch(ReqHeader { mac: self.mac() }, ReqSwitch { on: true }),
            ) && final(stick).relays() == old(stick).relays().insert(self.mac(), true),
    {
        assert(self.mac() == self.mac);
        stick.protocol.switch(self.mac, true)
    }

    pub fn switch_off(&self, stick: &mut Plugwise) -> (r: PlResult<()>)
        ensures
            final(stick).retries() == old(stick).retries(),
            r is Ok ==> exists|m: Message| #[trigger] received(Expect::AckFrom(self.mac()), m),
            old(stick).idle() ==> r is Ok && sim_after(
                old(stick).port(),
                final(stick).port(),
                Message::ReqSwitch(ReqHeader { mac: self.mac() }, ReqSwitch { on: false }),
            ) && final(stick).relays() == old(stick).relays().insert(self.mac(), false),
    {
        assert(self.mac() == self.mac);
        stick.protocol.switch(self.mac, false)
    }

    /// The relay state that the Circle reports.
    pub fn is_switched_on(&self, stick: &mut Plugwise) -> (r: PlResult<bool>)
        ensures
            final(stick).retries() == old(stick).retries(),
            r matches Ok(on) ==> exists|info: ResInfo| #[trigger] info_received(info) && info.relay_state == on,
            old(stick).idle() ==> r == Ok::<bool, PlError>(old(stick).is_on(self.mac())) && sim_after(
                old(stick).port(),
                final(stick).port(),
                info_request(self.mac()),
            ) && final(stick).relays() == old(stick).relays(),
    {
        assert(self.mac() == self.mac);
        let info = stick.protocol.get_info(self.mac)?;
        proof {
            assert(info_received(info));
        }
        Ok(info.relay_state)
    }

    /// Pulses over the last 8 seconds, as the Circle's PowerUse answer gives
    /// them; the actual power follows from them.
    pub fn get_actual_pulses(&self, stick: &mut Plugwise) -> (r: PlResult<Pulses>)
        ensures
            final(stick).retries() == old(stick).retries(),
            r matches Ok(p) ==> exists|h: ResHeader, u: ResPowerUse|
                #[trigger] received(Expect::Message(MessageId::ResPowerUse), Message::ResPowerUse(h, u))
                    && p == u.pulse_8s,
            old(stick).idle() ==> (r matches Ok(p) && exists|h: ResHeader, u: ResPowerUse|
                #[trigger] Message::spec_decodes(
                    sim_answer(old(stick).port(), Message::ReqPowerUse(ReqHeader { mac: self.mac() })),
                    Message::ResPowerUse(h, u),
                ) && p == u.pulse_8s) && sim_after(
                old(stick).port(),
                final(stick).port(),
                Message::ReqPowerUse(ReqHeader { mac: self.mac() }),
            ) && final(stick).relays() == old(stick).relays(),
    {
        assert(self.mac() == self.mac);
        let power_usage = stick.protocol.get_power_usage(self.mac)?;
        Ok(power_usage.pulse_8s)
    }

    /// The Circle's clock, in UTC: the date of its Info answer with the time
    /// of its ClockInfo answer; `InvalidTimestamp` exactly where that date
    /// is invalid.
    pub fn get_clock(&self, stick: &mut Plugwise) -> (r: PlResult<Tm>)
        ensures
            final(stick).retries() == old(stick).retries(),
            r matches Ok(tm) ==> exists|info: ResInfo, h2: ResHeader, c: ResClockInfo|
                #[trigger] info_received(info) && #[trigger] received(
                    Expect::Message(MessageId::ResClockInfo),
                    Message::ResClockInfo(h2, c),
                ) && info.datetime.is_valid() && tm == clock_spec(info.datetime, c),
            old(stick).idle() ==> (exists|h: ResHeader, info: ResInfo, h2: ResHeader, c: ResClockInfo|
                #[trigger] Message::spec_decodes(
                    sim_answer(old(stick).port(), info_request(self.mac())),
                    Message::ResInfo(h, info),
                ) && #[trigger] Message::spec_decodes(
                    sim_answer(old(stick).port(), Message::ReqClockInfo(ReqHeader { mac: self.mac() })),
                    Message::ResClockInfo(h2, c),
                ) && r == (if info.datetime.is_valid() {
                    Ok::<Tm, PlError>(clock_spec(info.datetime, c))
                } else {
                    Err::<Tm, PlError>(PlError::InvalidTimestamp)
                })) && final(stick).idle() && final(stick).relays() == old(stick).relays()
                && final(stick).port().handled() == old(stick).port().handled().push(
                sim_request(info_request(self.mac())),
            ).push(sim_request(Message::ReqClockInfo(ReqHeader { mac: self.mac() }))),
    {
        assert(self.mac() == self.mac);
        let info = stick.protocol.get_info(self.mac)?;
        let ghost mid = stick.port();
        let clock = stick.protocol.get_clock_info(self.mac)?;
        proof {
            assert(info_received(info));
            if old(stick).idle() {
                assert(sim_answer(mid, Message::ReqClockInfo(ReqHeader { mac: self.mac }))
                    == sim_answer(old(stick).port(), Message::ReqClockInfo(ReqHeader { mac: self.mac })));
            }
        }
        clock_from(&info.datetime, &clock)
    }

    /// Sets the Circle's clock to `tm` (a UTC time).
    pub fn set_clock(&self, stick: &mut Plugwise, tm: &Tm) -> (r: PlResult<()>)
        requires
            tm.wf(),
        ensures
            final(stick).retries() == old(stick).retries(),
            r is Ok ==> exists|m: Message| #[trigger] received(Expect::AckFrom(self.mac()), m),
            old(stick).idle() ==> r is Ok && exists|cs: ReqClockSet|
                #[trigger] cs.is_for(*tm) && sim_after(
                    old(stick).port(),
                    final(stick).port(),
                    Message::ReqClockSet(ReqHeader { mac: self.mac() }, cs),
                ) && final(stick).relays() == old(stick).relays(),
    {
        let clock_set = ReqClockSet::new_from_tm(tm);
        assert(self.mac() == self.mac);
        stick.protocol.set_clock(self.mac, clock_set)
    }

    /// Hourly pulse counts by timestamp (a map, so ordered by time), from
    /// the blocks of log slots `power_buffer_start(last, max_entries) ..=
    /// last`, recorded in that order.
    pub fn get_power_buffer(&self, stick: &mut Plugwise, max_entries: Option<u32>) -> (r: PlResult<
        BTreeMap<i64, Pulses>,
    >)
        ensures
            final(stick).retries() == old(stick).retries(),
            r matches Ok(m) ==> keys_valid(m@) && exists|info: ResInfo, blocks: Seq<ResPowerBuffer>|
                #[trigger] fetched(max_entries, info, blocks) && m@ == put_blocks(Map::empty(), blocks),
            old(stick).idle() ==> (r matches Ok(m) && exists|info: ResInfo, blocks: Seq<ResPowerBuffer>|
                #[trigger] sim_fetched(old(stick).port(), self.mac(), max_entries, info, blocks) && m@
                    == put_blocks(Map::empty(), blocks) && final(stick).port().handled() == old(
                    stick,
                ).port().handled().push(sim_request(info_request(self.mac()))) + block_requests(
                    self.mac(),
                    start_spec(info.last_logaddr, max_entries) as int,
                    slot_count(info.last_logaddr, max_entries),
                )) && final(stick).idle() && final(stick).relays() == old(stick).relays(),
            old(stick).idle() ==> (r matches Ok(m) && m@ == map![
                1379178000i64 => Pulses { pulses: 0x7B, timespan: 3600 },
                1379181600i64 => Pulses { pulses: 0x76, timespan: 3600 },
                1379185200i64 => Pulses { pulses: 0x71, timespan: 3600 },
                1379188800i64 => Pulses { pulses: 0x31, timespan: 3600 },
            ]),
    {
        assert(self.mac() == self.mac);
        let mut result: BTreeMap<i64, Pulses> = BTreeMap::new();
        let info = stick.protocol.get_info(self.mac)?;
        let ghost after_info = stick.port().handled();
        let last = info.last_logaddr;
        let start = power_buffer_start(last, max_entries);
        let mut index: u64 = start as u64;
        let ghost mut blocks: Seq<ResPowerBuffer> = Seq::empty();
        proof {
            assert(info_received(info));
            assert(result@ =~= put_blocks(Map::empty(), blocks));
            assert(block_requests(self.mac, start as int, 0) =~= Seq::<Seq<u8>>::empty());
        }
        while index <= last as u64
            invariant
                start as u64 <= index <= last as u64 + 1,
                start == start_spec(last, max_entries),
                blocks.len() == index - start,
                result@ == put_blocks(Map::empty(), blocks),
                forall|i: int| 0 <= i < blocks.len() ==> #[trigger] block_received(blocks[i]),
                old(stick).idle() ==> forall|i: int|
                    0 <= i < blocks.len() ==> #[trigger] blocks[i] == crate::stub::sim_block_answer(),
                stick.retries() == old(stick).retries(),
                old(stick).idle() ==> stick.idle() && stick.relays() == old(stick).relays()
                    && stick.port().handled() == after_info + block_requests(
                    self.mac,
                    start as int,
                    index - start,
                ) && forall|i: int|
                    0 <= i < blocks.len() ==> #[trigger] sim_block(
                        old(stick).port(),
                        self.mac,
                        start as int,
                        i,
                        blocks[i],
                    ),
            decreases last as u64 + 1 - index,
        {
            let ghost before = stick.port();
            let buffer = stick.protocol.get_power_buffer(self.mac, index as u32)?;
            add_power_block(&mut result, &buffer);
            proof {
                let k = index - start;
                assert(block_received(buffer));
                if old(stick).idle() {
                    assert(sim_answer(before, block_request(self.mac, start + k)) == sim_answer(
                        old(stick).port(),
                        block_request(self.mac, start + k),
                    ));
                    assert(block_request(self.mac, start + k) == Message::ReqPowerBuffer(
                        ReqHeader { mac: self.mac },
                        ReqPowerBuffer { logaddr: index as u32 },
                    ));
                    assert(after_info + block_requests(self.mac, start as int, k + 1) =~= (after_info
                        + block_requests(self.mac, start as int, k)).push(
                        sim_request(block_request(self.mac, start + k)),
                    ));
                }
                let nb = blocks.push(buffer);
                assert(nb.drop_last() =~= blocks);
                blocks = nb;
            }
            index = index + 1;
        }
        proof {
            lemma_put_blocks_keys_valid(Map::empty(), blocks);
            assert(fetched(max_entries, info, blocks));
            if old(stick).idle() {
                assert(sim_fetched(old(stick).port(), self.mac, max_entries, info, blocks));
                assert(blocks =~= Seq::new(blocks.len(), |i: int| crate::stub::sim_block_answer()));
                assert(sim_log(blocks.len() as int, result@));
                lemma_sim_log(blocks.len() as int);
            }
        }
        let r = Ok(result);
        assert(old(stick).idle() ==> (r matches Ok(m) && exists|i: ResInfo, b: Seq<ResPowerBuffer>|
            #[trigger] sim_fetched(old(stick).port(), self.mac(), max_entries, i, b) && m@
                == put_blocks(Map::empty(), b) && stick.port().handled() == old(
                stick,
            ).port().handled().push(sim_request(info_request(self.mac()))) + block_requests(
                self.mac(),
                start_spec(i.last_logaddr, max_entries) as int,
                slot_count(i.last_logaddr, max_entries),
            ))) by {
            if old(stick).idle() {
                assert(sim_fetched(old(stick).port(), self.mac(), max_entries, info, blocks));
            }
        }
        r
    }
}

} // verus!
