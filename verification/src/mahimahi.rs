//! Traces of packet opportunities: a list of millisecond timestamps, one for
//! each packet of 1500 bytes that a link can carry, as the emulator mahimahi
//! reads them.
//!
//! A bandwidth generator is turned into such a list (`mahimahi`), and such a
//! list into the blueprint of a bandwidth generator (`load_mahimahi_trace`).

use crate::bandwidth::Bandwidth;
use crate::duration::Duration;
use crate::model::bw::{RepeatedBwPatternConfig, StaticBwConfig};
use crate::trace::{BwTrace, Trace};
use vstd::prelude::*;

verus! {

/// The bytes of one packet.
pub const MTU_IN_BYTES: u128 = 1500;

/// The bits of one packet.
pub const MTU_IN_BITS: u128 = MTU_IN_BYTES * 8;

/// The rate, in bits per second, at which a link carries one packet in each
/// millisecond.
pub const MTU_PER_MILLIS: u128 = MTU_IN_BITS * 1000;

/// The nanoseconds of the bin that one timestamp stands for.
pub const BIN: u128 = 1_000_000;

/// One packet in the unit in which the credit of a link is counted: bits per
/// second times nanoseconds, which is a billionth of a bit.
pub const PACKET: u128 = MTU_PER_MILLIS * BIN;

/// The time at which the last bin ends that lies within `total` nanoseconds.
pub open spec fn limit(total: nat) -> nat {
    total / (BIN as nat) * (BIN as nat)
}

/// The timestamp of the bin that the time `elapsed` lies in, counted from 1
/// and cut off at `u64::MAX`.
pub open spec fn timestamp(elapsed: nat) -> u64 {
    if elapsed / (BIN as nat) + 1 <= u64::MAX {
        (elapsed / (BIN as nat) + 1) as u64
    } else {
        u64::MAX
    }
}

/// What is left of the bin that the time `elapsed` lies in.
pub open spec fn bin_left(elapsed: nat) -> nat {
    (BIN - elapsed % (BIN as nat)) as nat
}

/// The part of a span of `left` nanoseconds that lies in the bin in which it
/// starts.
pub open spec fn in_bin(elapsed: nat, left: nat) -> nat {
    if left <= bin_left(elapsed) {
        left
    } else {
        bin_left(elapsed)
    }
}

/// The same timestamp `n` times.
pub open spec fn copies(n: nat, ts: u64) -> Seq<u64> {
    Seq::new(n, |i: int| ts)
}

/// What a link writes down while it carries `rate` bits per second for
/// `span` nanoseconds from the time `elapsed` on, and the credit that it is
/// left with.
///
/// Bin by bin, what the link carries is added to its credit, and for each
/// whole packet in the credit the timestamp of the bin is written down and
/// the packet is taken off the credit.
pub open spec fn carried(rate: nat, elapsed: nat, span: nat, credit: nat) -> (Seq<u64>, nat)
    decreases span,
{
    if span == 0 {
        (Seq::empty(), credit)
    } else {
        let part = in_bin(elapsed, span);
        let sum = credit + rate * part;
        let rest = carried(
            rate,
            elapsed + part,
            (span - part) as nat,
            sum % (PACKET as nat),
        );
        (copies(sum / (PACKET as nat), timestamp(elapsed)) + rest.0, rest.1)
    }
}

/// The part of a segment of `span` nanoseconds that lies before the limit.
pub open spec fn within(elapsed: nat, span: nat, total: nat) -> nat {
    if elapsed + span <= limit(total) {
        span
    } else {
        (limit(total) - elapsed) as nat
    }
}

/// What the walk over a generator in state `s` writes down from the time
/// `elapsed` on, with `credit` in hand, and the state in which it leaves the
/// generator.
///
/// The walk pulls segment after segment. It ends when the generator has
/// ended, when it pulls a segment that lasts no time, or when it pulls a
/// segment after the last bin within `total` is full; that segment is lost.
pub open spec fn walk<T: Trace<Segment = (Bandwidth, Duration)>>(
    s: T::State,
    elapsed: nat,
    credit: nat,
    total: nat,
) -> (Seq<u64>, T::State)
    decreases limit(total) - elapsed,
{
    match T::head(s) {
        None => (Seq::empty(), T::tail(s)),
        Some((rate, span)) => if elapsed >= limit(total) || span == 0 {
            (Seq::empty(), T::tail(s))
        } else {
            let used = within(elapsed, span, total);
            let out = carried(rate, elapsed, used, credit);
            let rest = walk::<T>(T::tail(s), elapsed + used, out.1, total);
            (out.0 + rest.0, rest.1)
        },
    }
}

/// The trace of packet opportunities of a generator over `total`
/// nanoseconds: what the walk writes down from the start, without credit.
pub open spec fn exported<T: Trace<Segment = (Bandwidth, Duration)>>(s: T::State, total: nat) -> (
    Seq<u64>,
    T::State,
) {
    walk::<T>(s, 0, 0, total)
}

/// Whether no timestamp of the trace is below one before it.
pub open spec fn nondecreasing(trace: Seq<u64>) -> bool {
    forall|i: int, j: int| 0 <= i <= j < trace.len() ==> trace[i] <= trace[j]
}

/// Whether every timestamp of the trace lies between two timestamps.
pub open spec fn between(trace: Seq<u64>, low: u64, high: u64) -> bool {
    forall|i: int| 0 <= i < trace.len() ==> low <= #[trigger] trace[i] <= high
}

/// A later time lies in a bin with a timestamp that is not lower.
proof fn lemma_timestamp_grows(earlier: nat, later: nat)
    requires
        earlier <= later,
    ensures
        timestamp(earlier) <= timestamp(later),
{
    vstd::arithmetic::div_mod::lemma_div_is_ordered(earlier as int, later as int, BIN as int);
}

/// A trace that does not go down, followed by one that does not go down and
/// starts where the first one ends or above, does not go down.
proof fn lemma_nondecreasing_joined(front: Seq<u64>, behind: Seq<u64>, low: u64, mid: u64, high: u64)
    requires
        nondecreasing(front),
        nondecreasing(behind),
        between(front, low, mid),
        between(behind, mid, high),
        low <= mid <= high,
    ensures
        nondecreasing(front + behind),
        between(front + behind, low, high),
{
    let all = front + behind;
    assert forall|i: int, j: int| 0 <= i <= j < all.len() implies all[i] <= all[j] by {
        if j < front.len() {
            assert(front[i] <= front[j]);
        } else if i >= front.len() {
            assert(behind[i - front.len()] <= behind[j - front.len()]);
        } else {
            assert(front[i] <= mid);
            assert(mid <= behind[j - front.len()]);
        }
    }
    assert forall|i: int| 0 <= i < all.len() implies low <= #[trigger] all[i] <= high by {
        if i < front.len() {
            assert(front[i] <= mid);
        } else {
            assert(mid <= behind[i - front.len()]);
        }
    }
}

/// What a link writes down within one segment does not go down, and lies
/// between the timestamp of the bin in which the segment starts and that of
/// the bin in which it ends.
pub proof fn lemma_carried_nondecreasing(rate: nat, elapsed: nat, span: nat, credit: nat)
    ensures
        nondecreasing(carried(rate, elapsed, span, credit).0),
        between(
            carried(rate, elapsed, span, credit).0,
            timestamp(elapsed),
            timestamp(elapsed + span),
        ),
    decreases span,
{
    if span > 0 {
        let part = in_bin(elapsed, span);
        let sum = credit + rate * part;
        let first = copies(sum / (PACKET as nat), timestamp(elapsed));
        lemma_carried_nondecreasing(
            rate,
            elapsed + part,
            (span - part) as nat,
            sum % (PACKET as nat),
        );
        lemma_timestamp_grows(elapsed, elapsed + part);
        lemma_timestamp_grows(elapsed + part, elapsed + span);
        lemma_nondecreasing_joined(
            first,
            carried(rate, elapsed + part, (span - part) as nat, sum % (PACKET as nat)).0,
            timestamp(elapsed),
            timestamp(elapsed + part),
            timestamp(elapsed + span),
        );
    }
}

/// No packet is lost within a segment and none is made up: the packets that
/// are written down and the credit that is left are together what the link
/// carried on top of the credit that it had.
pub proof fn lemma_carried_accounts(rate: nat, elapsed: nat, span: nat, credit: nat)
    ensures
        carried(rate, elapsed, span, credit).0.len() * PACKET + carried(
            rate,
            elapsed,
            span,
            credit,
        ).1 == credit + rate * span,
        carried(rate, elapsed, span, credit).1 < PACKET || span == 0,
    decreases span,
{
    if span > 0 {
        let part = in_bin(elapsed, span);
        let sum = credit + rate * part;
        let rest = carried(rate, elapsed + part, (span - part) as nat, sum % (PACKET as nat));
        lemma_carried_accounts(rate, elapsed + part, (span - part) as nat, sum % (PACKET as nat));
        vstd::arithmetic::div_mod::lemma_fundamental_div_mod(sum as int, PACKET as int);
        let first = sum / (PACKET as nat);
        assert((first + rest.0.len()) * PACKET + rest.1 == credit + rate * span)
            by (nonlinear_arith)
            requires
                rest.0.len() * PACKET + rest.1 == sum % (PACKET as nat) + rate * (span - part),
                sum == PACKET * first + sum % (PACKET as nat),
                sum == credit + rate * part,
                part <= span,
        ;
    }
}

/// What a walk writes down does not go down, and starts at the timestamp of
/// the bin in which the walk starts or above.
pub proof fn lemma_walk_nondecreasing<T: Trace<Segment = (Bandwidth, Duration)>>(
    s: T::State,
    elapsed: nat,
    credit: nat,
    total: nat,
)
    ensures
        nondecreasing(walk::<T>(s, elapsed, credit, total).0),
        between(walk::<T>(s, elapsed, credit, total).0, timestamp(elapsed), u64::MAX),
    decreases limit(total) - elapsed,
{
    match T::head(s) {
        None => {},
        Some((rate, span)) => {
            if !(elapsed >= limit(total) || span == 0) {
                let used = within(elapsed, span, total);
                let out = carried(rate, elapsed, used, credit);
                lemma_carried_nondecreasing(rate, elapsed, used, credit);
                lemma_walk_nondecreasing::<T>(T::tail(s), elapsed + used, out.1, total);
                lemma_timestamp_grows(elapsed, elapsed + used);
                lemma_nondecreasing_joined(
                    out.0,
                    walk::<T>(T::tail(s), elapsed + used, out.1, total).0,
                    timestamp(elapsed),
                    timestamp(elapsed + used),
                    u64::MAX,
                );
            }
        },
    }
}

/// Writes down what a link carries within one segment, bin by bin.
fn carry(rate: u128, span: u128, elapsed: &mut u128, credit: &mut u128, v: &mut Vec<u64>)
    requires
        rate <= crate::bandwidth::MAX_BPS,
        *old(credit) < PACKET,
        *old(elapsed) + span <= crate::duration::MAX_NANOS,
    ensures
        final(v)@ == old(v)@ + carried(
            rate as nat,
            *old(elapsed) as nat,
            span as nat,
            *old(credit) as nat,
        ).0,
        *final(credit) == carried(
            rate as nat,
            *old(elapsed) as nat,
            span as nat,
            *old(credit) as nat,
        ).1,
        *final(credit) < PACKET,
        *final(elapsed) == *old(elapsed) + span,
{
    let mut left: u128 = span;
    let ghost start_v = v@;
    let ghost whole = carried(rate as nat, *elapsed as nat, span as nat, *credit as nat);
    while left > 0
        invariant
            rate <= crate::bandwidth::MAX_BPS,
            *credit < PACKET,
            *elapsed + left <= crate::duration::MAX_NANOS,
            *elapsed + left == *old(elapsed) + span,
            start_v == old(v)@,
            whole == carried(rate as nat, *old(elapsed) as nat, span as nat, *old(credit) as nat),
            v@ + carried(rate as nat, *elapsed as nat, left as nat, *credit as nat).0 == start_v
                + whole.0,
            carried(rate as nat, *elapsed as nat, left as nat, *credit as nat).1 == whole.1,
        decreases left,
    {
        let ghost before = v@;
        let ghost rest = carried(rate as nat, *elapsed as nat, left as nat, *credit as nat);
        let room: u128 = BIN - *elapsed % BIN;
        let part: u128 = if left <= room {
            left
        } else {
            room
        };
        assert(rate * part <= crate::bandwidth::MAX_BPS * BIN) by (nonlinear_arith)
            requires
                rate <= crate::bandwidth::MAX_BPS,
                part <= BIN,
        ;
        let mut sum: u128 = *credit + rate * part;
        let ts: u128 = *elapsed / BIN + 1;
        let stamp: u64 = if ts <= u64::MAX as u128 {
            ts as u64
        } else {
            u64::MAX
        };
        let ghost packets = sum as nat / (PACKET as nat);
        let ghost after = carried(
            rate as nat,
            (*elapsed + part) as nat,
            (left - part) as nat,
            sum as nat % (PACKET as nat),
        );
        assert(rest.0 == copies(packets, stamp) + after.0);
        let ghost mut written: nat = 0;
        let ghost first_sum = sum;
        while sum >= PACKET
            invariant
                sum == first_sum - written * PACKET,
                written <= packets,
                packets == first_sum as nat / (PACKET as nat),
                v@ == before + copies(written, stamp),
            decreases sum,
        {
            v.push(stamp);
            sum = sum - PACKET;
            proof {
                assert(written + 1 <= packets) by {
                    vstd::arithmetic::div_mod::lemma_fundamental_div_mod(
                        first_sum as int,
                        PACKET as int,
                    );
                    assert(written < packets) by (nonlinear_arith)
                        requires
                            first_sum - written * PACKET >= PACKET,
                            first_sum == PACKET * packets + first_sum % PACKET,
                            first_sum % PACKET < PACKET,
                            PACKET > 0,
                    ;
                }
                assert(copies(written + 1, stamp) =~= copies(written, stamp).push(stamp));
                written = written + 1;
                assert((written - 1) * PACKET + PACKET == written * PACKET) by (nonlinear_arith);
            }
        }
        proof {
            vstd::arithmetic::div_mod::lemma_fundamental_div_mod(first_sum as int, PACKET as int);
            assert(written == packets && sum == first_sum % PACKET) by (nonlinear_arith)
                requires
                    sum == first_sum - written * PACKET,
                    0 <= sum < PACKET,
                    written <= packets,
                    first_sum == PACKET * packets + first_sum % PACKET,
                    0 <= first_sum % PACKET < PACKET,
            ;
            assert(before + (copies(packets, stamp) + after.0) =~= (before + copies(
                packets,
                stamp,
            )) + after.0);
        }
        *credit = sum;
        *elapsed = *elapsed + part;
        left = left - part;
    }
    assert(v@ + Seq::<u64>::empty() =~= v@);
}

/// A bandwidth generator that can be written down as a trace of packet
/// opportunities.
pub trait Mahimahi: BwTrace {
    /// Writes down the timestamp of each packet of 1500 bytes that the link
    /// which the generator describes can carry within `total_dur`.
    ///
    /// The first bin has the timestamp 1. A timestamp stands as often as
    /// the link completes packets in its bin; what is left of a packet is
    /// carried over to the next bin.
    fn mahimahi(&mut self, total_dur: &Duration) -> (v: Vec<u64>)
        ensures
            v@ == exported::<Self>(old(self).state(), total_dur@).0,
            final(self).state() == exported::<Self>(old(self).state(), total_dur@).1,
            nondecreasing(v@),
    {
        let total: u128 = total_dur.as_nanos();
        let end: u128 = total / BIN * BIN;
        let mut elapsed: u128 = 0;
        let mut credit: u128 = 0;
        let mut v: Vec<u64> = Vec::new();
        let ghost whole = exported::<Self>(self.state(), total as nat);
        assert(v@ + whole.0 =~= whole.0);
        proof {
            lemma_walk_nondecreasing::<Self>(self.state(), 0, 0, total as nat);
        }
        loop
            invariant
                nondecreasing(whole.0),
                total == total_dur@,
                total <= crate::duration::MAX_NANOS,
                end == limit(total as nat),
                elapsed <= end || elapsed == 0,
                credit < PACKET,
                whole == exported::<Self>(old(self).state(), total as nat),
                v@ + walk::<Self>(self.state(), elapsed as nat, credit as nat, total as nat).0
                    == whole.0,
                walk::<Self>(self.state(), elapsed as nat, credit as nat, total as nat).1
                    == whole.1,
            decreases end - elapsed,
        {
            let ghost s = self.state();
            let ghost before = v@;
            let ghost rest = walk::<Self>(s, elapsed as nat, credit as nat, total as nat);
            match self.next_bw() {
                None => {
                    assert(before + Seq::<u64>::empty() =~= before);
                    return v;
                },
                Some((bw, dur)) => {
                    let rate = bw.as_bps();
                    let span = dur.as_nanos();
                    if elapsed >= end || span == 0 {
                        assert(before + Seq::<u64>::empty() =~= before);
                        return v;
                    }
                    let used: u128 = if span <= end - elapsed {
                        span
                    } else {
                        end - elapsed
                    };
                    let ghost out = carried(
                        rate as nat,
                        elapsed as nat,
                        used as nat,
                        credit as nat,
                    );
                    let ghost after = walk::<Self>(
                        Self::tail(s),
                        (elapsed + used) as nat,
                        out.1,
                        total as nat,
                    );
                    assert(rest.0 == out.0 + after.0);
                    assert(end <= total) by (nonlinear_arith)
                        requires
                            end == total / BIN * BIN,
                    ;
                    carry(rate, used, &mut elapsed, &mut credit, &mut v);
                    assert(before + (out.0 + after.0) =~= (before + out.0) + after.0);
                },
            }
        }
    }
}

impl<T: BwTrace> Mahimahi for T {
}

/// The character of one decimal digit.
pub open spec fn digit(d: nat) -> char {
    if d == 0 {
        '0'
    } else if d == 1 {
        '1'
    } else if d == 2 {
        '2'
    } else if d == 3 {
        '3'
    } else if d == 4 {
        '4'
    } else if d == 5 {
        '5'
    } else if d == 6 {
        '6'
    } else if d == 7 {
        '7'
    } else if d == 8 {
        '8'
    } else {
        '9'
    }
}

/// A number in decimal digits, without leading zeros.
pub open spec fn decimal(n: nat) -> Seq<char>
    decreases n,
{
    if n < 10 {
        seq![digit(n)]
    } else {
        decimal(n / 10).push(digit(n % 10))
    }
}

/// The timestamps in decimal digits, one on each line, with no line feed
/// behind the last one.
pub open spec fn lines(timestamps: Seq<u64>) -> Seq<char>
    decreases timestamps.len(),
{
    if timestamps.len() == 0 {
        Seq::empty()
    } else if timestamps.len() == 1 {
        decimal(timestamps[0] as nat)
    } else {
        lines(timestamps.drop_last()) + seq!['\n'] + decimal(timestamps.last() as nat)
    }
}

/// Calls `itertools::join` on the timestamps with a line feed as separator.
/// It writes each timestamp as `Display` does, which for an integer is its
/// decimal digits, and puts the separator between two of them.
#[verifier::external_body]
fn join_lines(timestamps: &Vec<u64>) -> (s: String)
    ensures
        s@ == lines(timestamps@),
{
    itertools::join(timestamps, "\n")
}

/// A bandwidth generator whose trace of packet opportunities can be written
/// as text.
pub trait MahimahiExt: Mahimahi {
    /// Writes the trace of packet opportunities within `total_dur` as text,
    /// one timestamp on each line.
    fn mahimahi_to_string(&mut self, total_dur: &Duration) -> (s: String)
        ensures
            s@ == lines(exported::<Self>(old(self).state(), total_dur@).0),
            final(self).state() == exported::<Self>(old(self).state(), total_dur@).1,
    {
        let timestamps = self.mahimahi(total_dur);
        join_lines(&timestamps)
    }
}

impl<T: Mahimahi> MahimahiExt for T {
}

/// What `load_mahimahi_trace` says of a trace whose timestamps go down
/// somewhere.
pub const NOT_NONDECREASING: &'static str = "timestamps must be monotonically nondecreasing";

/// What `load_mahimahi_trace` says of a trace that holds no timestamp above
/// zero.
pub const NO_TIME: &'static str = "trace must last for a nonzero amount of time";

/// How often the timestamp `ts` stands in the trace.
pub open spec fn occurrences(trace: Seq<u64>, ts: nat) -> nat
    decreases trace.len(),
{
    if trace.len() == 0 {
        0
    } else if trace.last() == ts {
        occurrences(trace.drop_last(), ts) + 1
    } else {
        occurrences(trace.drop_last(), ts)
    }
}

/// The packets that the trace gives to the millisecond `ms`: one for each
/// time that `ms` stands in it. The last millisecond of the trace is given
/// the packets of the timestamp 0 as well.
pub open spec fn opportunities(trace: Seq<u64>, ms: nat) -> nat {
    if trace.len() > 0 && ms == trace.last() {
        occurrences(trace, ms) + occurrences(trace, 0)
    } else {
        occurrences(trace, ms)
    }
}

/// The milliseconds that segments, each a rate and a number of
/// milliseconds, last together.
pub open spec fn lasting(segments: Seq<(nat, nat)>) -> nat
    decreases segments.len(),
{
    if segments.len() == 0 {
        0
    } else {
        lasting(segments.drop_last()) + segments.last().1
    }
}

/// The rate of the segment in which the millisecond `ms`, counted from 1,
/// lies; 0 behind the last segment.
pub open spec fn rate_in(segments: Seq<(nat, nat)>, ms: nat) -> nat
    decreases segments.len(),
{
    if segments.len() == 0 {
        0
    } else if ms > lasting(segments) {
        0
    } else if ms > lasting(segments.drop_last()) {
        segments.last().0
    } else {
        rate_in(segments.drop_last(), ms)
    }
}

/// Whether every segment lasts some time and no segment has the rate of the
/// one before it.
pub open spec fn compact(segments: Seq<(nat, nat)>) -> bool {
    &&& forall|k: int| 0 <= k < segments.len() ==> (#[trigger] segments[k]).1 > 0
    &&& forall|k: int|
        0 <= k < segments.len() - 1 ==> (#[trigger] segments[k]).0 != segments[k + 1].0
}

/// Whether the segments say what the trace says: they last as long as the
/// trace, in every millisecond their rate carries the packets that the trace
/// gives to it, and they are as few as can be.
pub open spec fn decoded(trace: Seq<u64>, segments: Seq<(nat, nat)>) -> bool {
    &&& trace.len() > 0
    &&& lasting(segments) == trace.last()
    &&& forall|ms: nat|
        1 <= ms <= trace.last() ==> #[trigger] rate_in(segments, ms) == MTU_PER_MILLIS
            * opportunities(trace, ms)
    &&& compact(segments)
}

/// The blueprint of the static bandwidth that one segment stands for.
pub open(crate) spec fn segment_config(segment: (nat, nat)) -> StaticBwConfig {
    StaticBwConfig {
        bw: Some(Bandwidth { bps: segment.0 as u128 }),
        duration: Some(Duration { nanos: (segment.1 * BIN) as u128 }),
    }
}

/// The blueprints of the static bandwidths that the segments stand for.
pub open spec fn segment_configs(segments: Seq<(nat, nat)>) -> Seq<StaticBwConfig> {
    Seq::new(segments.len(), |k: int| segment_config(segments[k]))
}

/// The segments with one more at their end, which is joined to the last one
/// where both have the same rate.
pub open spec fn appended(segments: Seq<(nat, nat)>, rate: nat, ms: nat) -> Seq<(nat, nat)> {
    if segments.len() > 0 && segments.last().0 == rate {
        segments.drop_last().push((rate, segments.last().1 + ms))
    } else {
        segments.push((rate, ms))
    }
}

/// A timestamp that stands nowhere in a trace occurs in it no time.
pub proof fn lemma_absent(trace: Seq<u64>, ts: nat)
    requires
        forall|i: int| 0 <= i < trace.len() ==> trace[i] != ts,
    ensures
        occurrences(trace, ts) == 0,
    decreases trace.len(),
{
    if trace.len() > 0 {
        lemma_absent(trace.drop_last(), ts);
    }
}

/// No timestamp occurs more often in a trace than the trace is long.
pub proof fn lemma_occurrences_bound(trace: Seq<u64>, ts: nat)
    ensures
        occurrences(trace, ts) <= trace.len(),
    decreases trace.len(),
{
    if trace.len() > 0 {
        lemma_occurrences_bound(trace.drop_last(), ts);
    }
}

/// No segment lasts longer than all of them together.
pub proof fn lemma_each_lasting(segments: Seq<(nat, nat)>, k: int)
    requires
        0 <= k < segments.len(),
    ensures
        segments[k].1 <= lasting(segments),
    decreases segments.len(),
{
    if k < segments.len() - 1 {
        lemma_each_lasting(segments.drop_last(), k);
    }
}

/// What appending a segment does to the segments.
proof fn lemma_appended(segments: Seq<(nat, nat)>, rate: nat, ms: nat)
    requires
        compact(segments),
        ms > 0,
    ensures
        compact(appended(segments, rate, ms)),
        lasting(appended(segments, rate, ms)) == lasting(segments) + ms,
        appended(segments, rate, ms).len() > 0,
        appended(segments, rate, ms).last().0 == rate,
        forall|m: nat|
            1 <= m <= lasting(segments) ==> #[trigger] rate_in(appended(segments, rate, ms), m)
                == rate_in(segments, m),
        forall|m: nat|
            lasting(segments) < m <= lasting(segments) + ms ==> #[trigger] rate_in(
                appended(segments, rate, ms),
                m,
            ) == rate,
{
    let joined = appended(segments, rate, ms);
    if segments.len() > 0 && segments.last().0 == rate {
        let front = segments.drop_last();
        assert(joined.drop_last() =~= front);
        assert(joined.last() == (rate, segments.last().1 + ms));
        assert forall|k: int| 0 <= k < joined.len() implies (#[trigger] joined[k]).1 > 0 by {
            if k < joined.len() - 1 {
                assert(joined[k] == segments[k]);
            }
        }
        assert forall|k: int| 0 <= k < joined.len() - 1 implies (#[trigger] joined[k]).0
            != joined[k + 1].0 by {
            assert(joined[k] == segments[k]);
            assert(joined[k + 1].0 == segments[k + 1].0);
        }
    } else {
        assert(joined.drop_last() =~= segments);
        assert forall|k: int| 0 <= k < joined.len() implies (#[trigger] joined[k]).1 > 0 by {
            if k < joined.len() - 1 {
                assert(joined[k] == segments[k]);
            }
        }
        assert forall|k: int| 0 <= k < joined.len() - 1 implies (#[trigger] joined[k]).0
            != joined[k + 1].0 by {
            assert(joined[k] == segments[k]);
            if k + 1 < segments.len() {
                assert(joined[k + 1] == segments[k + 1]);
            }
        }
    }
}

/// The segments that are being put together: the complete ones as
/// blueprints, and the last one, which may still grow.
struct Decoder {
    complete: Vec<StaticBwConfig>,
    open_rate: u128,
    open_ms: u128,
    segments: Ghost<Seq<(nat, nat)>>,
}

impl Decoder {
    /// Whether the parts fit together, and no segment is beyond what a
    /// blueprint can hold.
    spec fn fits(&self) -> bool {
        let segments = self.segments@;
        &&& compact(segments)
        &&& lasting(segments) <= u64::MAX
        &&& forall|k: int|
            0 <= k < segments.len() ==> (#[trigger] segments[k]).0 <= crate::bandwidth::MAX_BPS
        &&& if segments.len() == 0 {
            self.complete@.len() == 0 && self.open_ms == 0
        } else {
            &&& self.complete@ == segment_configs(segments.drop_last())
            &&& segments.last() == (self.open_rate as nat, self.open_ms as nat)
        }
    }

    /// Closes the segment that may still grow.
    fn close(&mut self)
        requires
            old(self).fits(),
            old(self).segments@.len() > 0,
        ensures
            final(self).complete@ == segment_configs(old(self).segments@),
            final(self).segments == old(self).segments,
    {
        proof {
            lemma_each_lasting(self.segments@, self.segments@.len() - 1);
        }
        let config = StaticBwConfig {
            bw: Some(Bandwidth { bps: self.open_rate }),
            duration: Some(Duration { nanos: self.open_ms * BIN }),
        };
        self.complete.push(config);
        assert(self.complete@ =~= segment_configs(self.segments@));
    }

    /// Appends a segment.
    fn append(&mut self, rate: u128, ms: u128)
        requires
            old(self).fits(),
            ms > 0,
            rate <= crate::bandwidth::MAX_BPS,
            lasting(old(self).segments@) + ms <= u64::MAX,
        ensures
            final(self).fits(),
            final(self).segments@ == appended(old(self).segments@, rate as nat, ms as nat),
    {
        let ghost before = self.segments@;
        proof {
            lemma_appended(before, rate as nat, ms as nat);
        }
        if self.open_ms > 0 && self.open_rate == rate {
            proof {
                lemma_each_lasting(before, before.len() - 1);
                assert(before.len() > 0);
            }
            self.open_ms = self.open_ms + ms;
            self.segments = Ghost(appended(before, rate as nat, ms as nat));
            assert(self.segments@.drop_last() =~= before.drop_last());
        } else {
            if self.open_ms > 0 {
                self.close();
            }
            assert(before.len() > 0 ==> before[before.len() - 1].1 > 0);
            self.open_rate = rate;
            self.open_ms = ms;
            self.segments = Ghost(appended(before, rate as nat, ms as nat));
            assert(self.segments@.drop_last() =~= before);
            assert(self.complete@ =~= segment_configs(before));
        }
        assert forall|k: int| 0 <= k < self.segments@.len() implies (#[trigger] self.segments@[k]).0
            <= crate::bandwidth::MAX_BPS by {
            if k < self.segments@.len() - 1 {
                assert(self.segments@[k] == before[k]);
            }
        }
    }
}

/// Reads a trace of packet opportunities as the blueprint of a repeated
/// pattern of static bandwidths, walked `count` times, or without end where
/// `count` is `None` or 0.
///
/// Each timestamp above zero gives one packet to its millisecond, and so
/// 12 Mbps to the rate of that millisecond. The timestamp 0 stands for no
/// millisecond: its packets go to the last millisecond of the trace.
/// Milliseconds in a row with the same rate make one segment.
///
/// A trace whose timestamps go down somewhere is refused, and so is one that
/// holds no timestamp above zero.
pub fn load_mahimahi_trace(trace: Vec<u64>, count: Option<usize>) -> (r: Result<
    RepeatedBwPatternConfig<StaticBwConfig>,
    &'static str,
>)
    ensures
        !nondecreasing(trace@) ==> r == Err::<RepeatedBwPatternConfig<StaticBwConfig>, &str>(
            NOT_NONDECREASING,
        ),
        nondecreasing(trace@) && (trace@.len() == 0 || trace@.last() == 0) ==> r == Err::<
            RepeatedBwPatternConfig<StaticBwConfig>,
            &str,
        >(NO_TIME),
        nondecreasing(trace@) && trace@.len() > 0 && trace@.last() > 0 ==> r is Ok && exists|
            segments: Seq<(nat, nat)>,
        |
            {
                &&& decoded(trace@, segments)
                &&& (#[trigger] segment_configs(segments)) == r->Ok_0.pattern@
            } && r->Ok_0.count == match count {
            Some(n) => n,
            None => 0,
        },
{
    let mut decoder = Decoder {
        complete: Vec::new(),
        open_rate: 0,
        open_ms: 0,
        segments: Ghost(Seq::empty()),
    };
    let mut zeros: u128 = 0;
    let mut last_ts: u64 = 0;
    let mut last_cnt: u128 = 0;
    let mut i: usize = 0;
    assert(trace@.take(0) =~= Seq::<u64>::empty());
    while i < trace.len()
        invariant
            i <= trace.len(),
            decoder.fits(),
            nondecreasing(trace@.take(i as int)),
            i > 0 ==> last_ts == trace@[i - 1],
            i == 0 ==> last_ts == 0,
            zeros == occurrences(trace@.take(i as int), 0),
            last_ts > 0 ==> last_cnt == occurrences(trace@.take(i as int), last_ts as nat),
            last_ts > 0 ==> last_cnt > 0,
            last_ts > 0 ==> lasting(decoder.segments@) == last_ts - 1,
            last_ts == 0 ==> lasting(decoder.segments@) == 0,
            last_ts == 0 ==> last_cnt == 0,
            forall|ms: nat|
                1 <= ms <= lasting(decoder.segments@) ==> #[trigger] rate_in(decoder.segments@, ms)
                    == MTU_PER_MILLIS * occurrences(trace@.take(i as int), ms),
        decreases trace.len() - i,
    {
        let ts = trace[i];
        let ghost seen = trace@.take(i as int);
        let ghost more = trace@.take(i + 1);
        assert(more.drop_last() =~= seen);
        assert(more.last() == ts);
        proof {
            lemma_occurrences_bound(seen, 0);
            lemma_occurrences_bound(seen, last_ts as nat);
        }
        if ts < last_ts {
            assert(!nondecreasing(trace@)) by {
                assert(trace@[i - 1] > trace@[i as int]);
            }
            return Err(NOT_NONDECREASING);
        }
        assert(nondecreasing(more)) by {
            assert forall|a: int, b: int| 0 <= a <= b < more.len() implies more[a] <= more[b] by {
                if b < i {
                    assert(seen[a] <= seen[b]);
                } else if a < i {
                    if i > 0 {
                        assert(seen[a] <= seen[i - 1]);
                    }
                }
            }
        }
        if ts == 0 {
            zeros = zeros + 1;
        } else if ts == last_ts {
            last_cnt = last_cnt + 1;
        } else {
            let ghost before = decoder.segments@;
            proof {
                lemma_occurrences_bound(seen, last_ts as nat);
            }
            if last_ts > 0 {
                assert(MTU_PER_MILLIS * last_cnt <= MTU_PER_MILLIS * usize::MAX)
                    by (nonlinear_arith)
                    requires
                        last_cnt <= usize::MAX,
                ;
                proof {
                    lemma_appended(before, (MTU_PER_MILLIS * last_cnt) as nat, 1);
                }
                decoder.append(MTU_PER_MILLIS * last_cnt, 1);
            }
            let ghost middle = decoder.segments@;
            if ts - last_ts > 1 {
                proof {
                    lemma_appended(middle, 0, (ts - last_ts - 1) as nat);
                }
                decoder.append(0, (ts - last_ts - 1) as u128);
            }
            assert forall|ms: nat| 1 <= ms <= lasting(decoder.segments@) implies #[trigger] rate_in(
                decoder.segments@,
                ms,
            ) == MTU_PER_MILLIS * occurrences(more, ms) by {
                assert(ms < ts);
                if ms < last_ts {
                    assert(rate_in(middle, ms) == rate_in(before, ms));
                    assert(rate_in(decoder.segments@, ms) == rate_in(middle, ms));
                } else if ms == last_ts {
                    assert(rate_in(middle, ms) == MTU_PER_MILLIS * last_cnt);
                    assert(rate_in(decoder.segments@, ms) == rate_in(middle, ms));
                } else {
                    assert(rate_in(decoder.segments@, ms) == 0);
                    assert forall|j: int| 0 <= j < seen.len() implies seen[j] != ms by {
                        if i > 0 {
                            assert(seen[j] <= seen[i - 1]);
                        }
                    }
                    lemma_absent(seen, ms);
                }
            }
            assert(occurrences(seen, ts as nat) == 0) by {
                assert forall|j: int| 0 <= j < seen.len() implies seen[j] != ts by {
                    if i > 0 {
                        assert(seen[j] <= seen[i - 1]);
                    }
                }
                lemma_absent(seen, ts as nat);
            }
            last_cnt = 1;
            last_ts = ts;
        }
        i = i + 1;
    }
    assert(trace@.take(trace.len() as int) =~= trace@);
    if last_cnt == 0 {
        assert(trace@.len() == 0 || trace@.last() == 0);
        return Err(NO_TIME);
    }
    let ghost before = decoder.segments@;
    proof {
        lemma_occurrences_bound(trace@, 0);
        lemma_occurrences_bound(trace@, last_ts as nat);
        lemma_appended(before, (MTU_PER_MILLIS * (last_cnt + zeros)) as nat, 1);
    }
    assert(MTU_PER_MILLIS * (last_cnt + zeros) <= MTU_PER_MILLIS * (2 * usize::MAX))
        by (nonlinear_arith)
        requires
            last_cnt + zeros <= 2 * usize::MAX,
    ;
    decoder.append(MTU_PER_MILLIS * (last_cnt + zeros), 1);
    decoder.close();
    let ghost segments = decoder.segments@;
    assert(decoded(trace@, segments)) by {
        assert forall|ms: nat| 1 <= ms <= trace@.last() implies #[trigger] rate_in(segments, ms)
            == MTU_PER_MILLIS * opportunities(trace@, ms) by {
            if ms < last_ts {
                assert(rate_in(segments, ms) == rate_in(before, ms));
            }
        }
    }
    let steady = match count {
        Some(n) => n,
        None => 0,
    };
    let config = RepeatedBwPatternConfig::new().count(steady).pattern(decoder.complete);
    assert(segment_configs(segments) == config.pattern@);
    Ok(config)
}

} // verus!
