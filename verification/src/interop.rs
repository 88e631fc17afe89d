//! What holds between the reading and the writing of traces of packet
//! opportunities: a trace without the timestamp 0 that is read as a
//! blueprint and written down again comes back as it was.

use crate::bandwidth::{Bandwidth, MAX_BPS};
use crate::duration::Duration;
use crate::mahimahi::{
    carried, copies, decoded, exported, lasting, lemma_absent, lemma_each_lasting,
    lemma_occurrences_bound, limit, nondecreasing, occurrences, opportunities, rate_in,
    segment_config, segment_configs, timestamp, walk, BIN, MTU_PER_MILLIS, PACKET,
};
use crate::model::bw::{lemma_repeated_as_produced, RepeatedBwPattern, StaticBw, StaticBwConfig};
use crate::repeat::{
    cycles, lemma_repeats_count_times, lemma_repeats_without_end, place_after, start, traced,
    walked,
};
use crate::trace::{emits, lemma_starts_with_front, starts_with, Trace, TraceConfig};
use vstd::prelude::*;

verus! {

/// The timestamps from 1 to `upto`, each as often as `times` says.
pub open spec fn stamps(times: spec_fn(nat) -> nat, upto: nat) -> Seq<u64>
    decreases upto,
{
    if upto == 0 {
        Seq::empty()
    } else {
        stamps(times, (upto - 1) as nat) + copies(times(upto), upto as u64)
    }
}

/// The timestamps of the `bins` bins behind the bin `from`, each `times`
/// times.
spec fn run(times: nat, from: nat, bins: nat) -> Seq<u64>
    decreases bins,
{
    if bins == 0 {
        Seq::empty()
    } else {
        copies(times, (from + 1) as u64) + run(times, from + 1, (bins - 1) as nat)
    }
}

/// What a link writes down while it carries one segment after the other,
/// each a rate and a span in nanoseconds, with the time at which it is done
/// and the credit that it is left with.
spec fn fed(segments: Seq<(nat, nat)>, elapsed: nat, credit: nat) -> (Seq<u64>, nat, nat)
    decreases segments.len(),
{
    if segments.len() == 0 {
        (Seq::empty(), elapsed, credit)
    } else {
        let out = carried(segments[0].0, elapsed, segments[0].1, credit);
        let rest = fed(segments.skip(1), elapsed + segments[0].1, out.1);
        (out.0 + rest.0, rest.1, rest.2)
    }
}

/// The nanoseconds that segments, each a rate and a span in nanoseconds,
/// last together.
spec fn spans(segments: Seq<(nat, nat)>) -> nat
    decreases segments.len(),
{
    if segments.len() == 0 {
        0
    } else {
        segments[0].1 + spans(segments.skip(1))
    }
}

/// The segments with their spans in nanoseconds in place of milliseconds.
spec fn in_nanos(segments: Seq<(nat, nat)>) -> Seq<(nat, nat)> {
    Seq::new(segments.len(), |k: int| (segments[k].0, (segments[k].1 * BIN) as nat))
}

proof fn lemma_stamps_alike(f: spec_fn(nat) -> nat, g: spec_fn(nat) -> nat, upto: nat)
    requires
        forall|m: nat| 1 <= m <= upto ==> #[trigger] f(m) == g(m),
    ensures
        stamps(f, upto) == stamps(g, upto),
    decreases upto,
{
    if upto > 0 {
        lemma_stamps_alike(f, g, (upto - 1) as nat);
    }
}

proof fn lemma_stamps_skip(f: spec_fn(nat) -> nat, a: nat, b: nat)
    requires
        a <= b,
        forall|m: nat| a < m <= b ==> #[trigger] f(m) == 0,
    ensures
        stamps(f, b) == stamps(f, a),
    decreases b,
{
    if a < b {
        lemma_stamps_skip(f, a, (b - 1) as nat);
        assert(copies(f(b), b as u64) =~= Seq::<u64>::empty());
        assert(stamps(f, b) =~= stamps(f, (b - 1) as nat));
    }
}

proof fn lemma_run_end(times: nat, from: nat, bins: nat)
    requires
        bins > 0,
    ensures
        run(times, from, bins) == run(times, from, (bins - 1) as nat) + copies(
            times,
            (from + bins) as u64,
        ),
    decreases bins,
{
    if bins > 1 {
        lemma_run_end(times, from + 1, (bins - 1) as nat);
        assert(run(times, from, bins) =~= run(times, from, (bins - 1) as nat) + copies(
            times,
            (from + bins) as u64,
        ));
    } else {
        assert(run(times, from + 1, 0) =~= Seq::<u64>::empty());
        assert(run(times, from, 0) =~= Seq::<u64>::empty());
        assert(run(times, from, bins) =~= run(times, from, (bins - 1) as nat) + copies(
            times,
            (from + bins) as u64,
        ));
    }
}

proof fn lemma_stamps_run(f: spec_fn(nat) -> nat, times: nat, from: nat, bins: nat)
    requires
        forall|m: nat| from < m <= from + bins ==> #[trigger] f(m) == times,
    ensures
        stamps(f, from + bins) == stamps(f, from) + run(times, from, bins),
    decreases bins,
{
    if bins > 0 {
        lemma_stamps_run(f, times, from, (bins - 1) as nat);
        lemma_run_end(times, from, bins);
        assert(stamps(f, from + bins) =~= stamps(f, from) + run(times, from, bins));
    } else {
        assert(stamps(f, from + bins) =~= stamps(f, from) + run(times, from, bins));
    }
}

/// A trace without the timestamp 0 that does not go down holds the
/// timestamps from 1 to its last one, each as often as it occurs.
proof fn lemma_trace_is_stamps(trace: Seq<u64>)
    requires
        nondecreasing(trace),
        trace.len() > 0,
        forall|i: int| 0 <= i < trace.len() ==> trace[i] >= 1,
    ensures
        trace == stamps(|m: nat| occurrences(trace, m), trace.last() as nat),
    decreases trace.len(),
{
    let f = |m: nat| occurrences(trace, m);
    let init = trace.drop_last();
    let g = |m: nat| occurrences(init, m);
    let x = trace.last() as nat;
    assert forall|m: nat| 1 <= m <= (x - 1) as nat implies #[trigger] f(m) == g(m) by {}
    lemma_stamps_alike(f, g, (x - 1) as nat);
    assert(f(x) == g(x) + 1);
    assert(copies(g(x) + 1, x as u64) =~= copies(g(x), x as u64).push(x as u64));
    assert(trace =~= init.push(x as u64));
    if init.len() == 0 {
        assert forall|m: nat| 0 < m <= (x - 1) as nat implies #[trigger] g(m) == 0 by {}
        lemma_stamps_skip(g, 0, (x - 1) as nat);
        assert(g(x) == 0);
        assert(stamps(f, x) =~= trace);
    } else {
        let y = init.last() as nat;
        assert(init.last() == trace[trace.len() - 2]);
        assert(y <= x);
        assert(nondecreasing(init)) by {
            assert forall|i: int, j: int| 0 <= i <= j < init.len() implies init[i] <= init[j] by {
                assert(trace[i] <= trace[j]);
            }
        }
        assert forall|i: int| 0 <= i < init.len() implies init[i] >= 1 by {
            assert(init[i] == trace[i]);
        }
        lemma_trace_is_stamps(init);
        let h = |m: nat| occurrences(init, m);
        assert(init == stamps(h, y));
        lemma_stamps_alike(g, h, y);
        if y == x {
            assert(stamps(f, x) =~= trace);
        } else {
            assert forall|m: nat| y < m <= x implies #[trigger] g(m) == 0 by {
                assert forall|i: int| 0 <= i < init.len() implies init[i] != m by {
                    assert(trace[i] <= trace[trace.len() - 2]);
                }
                lemma_absent(init, m);
            }
            lemma_stamps_skip(g, y, (x - 1) as nat);
            assert(stamps(f, x) =~= trace);
        }
    }
}

/// A link that carries a whole number of packets in each bin, for a whole
/// number of bins from the start of a bin on and without credit, writes
/// down the timestamp of each of these bins for each of its packets, and is
/// left without credit.
proof fn lemma_carried_whole(times: nat, from: nat, bins: nat)
    requires
        from + bins <= u64::MAX,
    ensures
        carried(
            (MTU_PER_MILLIS * times) as nat,
            (from * BIN) as nat,
            (bins * BIN) as nat,
            0,
        ) == (run(times, from, bins), 0nat),
    decreases bins,
{
    let rate = (MTU_PER_MILLIS * times) as nat;
    let elapsed = (from * BIN) as nat;
    let span = (bins * BIN) as nat;
    if bins == 0 {
        assert(span == 0);
    } else {
        assert(elapsed % (BIN as nat) == 0 && elapsed / (BIN as nat) == from) by (nonlinear_arith)
            requires
                elapsed == from * BIN,
                BIN == 1_000_000,
        ;
        assert(span >= BIN) by (nonlinear_arith)
            requires
                span == bins * BIN,
                bins >= 1,
                BIN == 1_000_000,
        ;
        let sum = (0 + rate * BIN) as nat;
        assert(sum == times * PACKET) by (nonlinear_arith)
            requires
                sum == rate * BIN,
                rate == MTU_PER_MILLIS * times,
                MTU_PER_MILLIS == 12_000_000,
                BIN == 1_000_000,
                PACKET == 12_000_000_000_000,
        ;
        assert(sum / (PACKET as nat) == times && sum % (PACKET as nat) == 0) by (nonlinear_arith)
            requires
                sum == times * PACKET,
                PACKET == 12_000_000_000_000,
        ;
        assert(elapsed + BIN == (from + 1) * BIN) by (nonlinear_arith)
            requires
                elapsed == from * BIN,
        ;
        assert(span - BIN == (bins - 1) * BIN) by (nonlinear_arith)
            requires
                span == bins * BIN,
        ;
        lemma_carried_whole(times, from + 1, (bins - 1) as nat);
        assert(timestamp(elapsed) == (from + 1) as u64);
    }
}

proof fn lemma_fed_push(segments: Seq<(nat, nat)>, last: (nat, nat), elapsed: nat, credit: nat)
    ensures
        fed(segments.push(last), elapsed, credit) == ({
            let front = fed(segments, elapsed, credit);
            let out = carried(last.0, front.1, last.1, front.2);
            (front.0 + out.0, front.1 + last.1, out.1)
        }),
    decreases segments.len(),
{
    let all = segments.push(last);
    assert(all.len() > 0);
    if segments.len() == 0 {
        assert(all.skip(1) =~= Seq::<(nat, nat)>::empty());
        assert(all[0] == last);
        let out = carried(last.0, elapsed, last.1, credit);
        assert(fed(all.skip(1), elapsed + last.1, out.1) == (
            Seq::<u64>::empty(),
            elapsed + last.1,
            out.1,
        ));
        assert(out.0 + Seq::<u64>::empty() =~= Seq::<u64>::empty() + out.0);
    } else {
        assert(all.skip(1) =~= segments.skip(1).push(last));
        assert(all[0] == segments[0]);
        let first = carried(segments[0].0, elapsed, segments[0].1, credit);
        lemma_fed_push(segments.skip(1), last, elapsed + segments[0].1, first.1);
        let rest = fed(segments.skip(1), elapsed + segments[0].1, first.1);
        let out = carried(last.0, rest.1, last.1, rest.2);
        assert(first.0 + (rest.0 + out.0) =~= (first.0 + rest.0) + out.0);
    }
}

proof fn lemma_spans_push(segments: Seq<(nat, nat)>, last: (nat, nat))
    ensures
        spans(segments.push(last)) == spans(segments) + last.1,
    decreases segments.len(),
{
    let all = segments.push(last);
    assert(all.len() > 0);
    if segments.len() == 0 {
        assert(all.skip(1) =~= Seq::<(nat, nat)>::empty());
        assert(all[0] == last);
        assert(spans(all.skip(1)) == 0);
    } else {
        assert(all.skip(1) =~= segments.skip(1).push(last));
        assert(all[0] == segments[0]);
        lemma_spans_push(segments.skip(1), last);
    }
}

/// Segments whose rates carry a whole number of packets in each
/// millisecond are written down as the timestamps of their milliseconds,
/// each as often as the rate of its segment carries a packet.
proof fn lemma_fed_segments(segments: Seq<(nat, nat)>)
    requires
        lasting(segments) <= u64::MAX,
        forall|k: int|
            0 <= k < segments.len() ==> (#[trigger] segments[k]).0 % (MTU_PER_MILLIS as nat) == 0,
    ensures
        fed(in_nanos(segments), 0, 0) == (
            stamps(|m: nat| rate_in(segments, m) / (MTU_PER_MILLIS as nat), lasting(segments)),
            (lasting(segments) * BIN) as nat,
            0nat,
        ),
        spans(in_nanos(segments)) == lasting(segments) * BIN,
    decreases segments.len(),
{
    let f = |m: nat| rate_in(segments, m) / (MTU_PER_MILLIS as nat);
    if segments.len() == 0 {
        assert(lasting(segments) * BIN == 0);
    } else {
        let front = segments.drop_last();
        let last = segments.last();
        let g = |m: nat| rate_in(front, m) / (MTU_PER_MILLIS as nat);
        let before = lasting(front);
        assert forall|k: int| 0 <= k < front.len() implies (#[trigger] front[k]).0 % (
        MTU_PER_MILLIS as nat) == 0 by {
            assert(front[k] == segments[k]);
        }
        lemma_fed_segments(front);
        assert(in_nanos(segments) =~= in_nanos(front).push((last.0, (last.1 * BIN) as nat)));
        lemma_fed_push(in_nanos(front), (last.0, (last.1 * BIN) as nat), 0, 0);
        lemma_spans_push(in_nanos(front), (last.0, (last.1 * BIN) as nat));
        let times = last.0 / (MTU_PER_MILLIS as nat);
        assert(last.0 == MTU_PER_MILLIS * times) by {
            vstd::arithmetic::div_mod::lemma_fundamental_div_mod(
                last.0 as int,
                MTU_PER_MILLIS as int,
            );
        }
        lemma_carried_whole(times, before, last.1);
        assert forall|m: nat| 1 <= m <= before implies #[trigger] f(m) == g(m) by {}
        lemma_stamps_alike(f, g, before);
        assert forall|m: nat| before < m <= before + last.1 implies #[trigger] f(m) == times by {}
        lemma_stamps_run(f, times, before, last.1);
        assert((before + last.1) * BIN == before * BIN + last.1 * BIN) by (nonlinear_arith);
    }
}

/// A generator that hands out a list of segments first, each of which lasts
/// some time, and all of which together last to the limit, is written down
/// as the list is.
proof fn lemma_walk_is_fed<T: Trace<Segment = (Bandwidth, Duration)>>(
    s: T::State,
    out: Seq<(nat, nat)>,
    elapsed: nat,
    credit: nat,
    total: nat,
)
    requires
        starts_with::<T>(s, out),
        forall|k: int| 0 <= k < out.len() ==> (#[trigger] out[k]).1 > 0,
        elapsed + spans(out) == limit(total),
    ensures
        walk::<T>(s, elapsed, credit, total).0 == fed(out, elapsed, credit).0,
    decreases out.len(),
{
    if out.len() > 0 {
        let first = carried(out[0].0, elapsed, out[0].1, credit);
        assert(out[0].1 > 0);
        assert forall|k: int| 0 <= k < out.skip(1).len() implies (#[trigger] out.skip(1)[k]).1
            > 0 by {
            assert(out.skip(1)[k] == out[k + 1]);
        }
        lemma_walk_is_fed::<T>(T::tail(s), out.skip(1), elapsed + out[0].1, first.1, total);
    }
}

/// The segment at a place is the one in which some millisecond lies.
proof fn lemma_rate_of_segment(segments: Seq<(nat, nat)>, k: int) -> (ms: nat)
    requires
        0 <= k < segments.len(),
        forall|j: int| 0 <= j < segments.len() ==> (#[trigger] segments[j]).1 > 0,
    ensures
        1 <= ms <= lasting(segments),
        rate_in(segments, ms) == segments[k].0,
    decreases segments.len(),
{
    let front = segments.drop_last();
    assert(segments[segments.len() - 1].1 > 0);
    if k == segments.len() - 1 {
        lasting(segments)
    } else {
        assert forall|j: int| 0 <= j < front.len() implies (#[trigger] front[j]).1 > 0 by {
            assert(front[j] == segments[j]);
        }
        lemma_rate_of_segment(front, k)
    }
}

proof fn lemma_walked_list<E>(traces: Seq<Seq<E>>, list: Seq<E>, from: nat)
    requires
        traces.len() == list.len(),
        from <= list.len(),
        forall|k: int| 0 <= k < traces.len() ==> #[trigger] traces[k] == seq![list[k]],
    ensures
        walked(traces, from, (list.len() - from) as nat) == list.skip(from as int),
    decreases list.len() - from,
{
    if from < list.len() {
        if from + 1 < list.len() {
            lemma_walked_list(traces, list, from + 1);
        } else {
            assert(walked(traces, place_after(from, traces.len()), 0) =~= Seq::<E>::empty());
            assert(list.skip(from + 1 as int) =~= Seq::<E>::empty());
        }
        assert(traces[from as int] == seq![list[from as int]]);
        assert(list.skip(from as int) =~= seq![list[from as int]] + list.skip(from + 1 as int));
    } else {
        assert(list.skip(from as int) =~= Seq::<E>::empty());
    }
}

/// A trace of packet opportunities that does not go down and does not hold
/// the timestamp 0 comes back as it was, when it is read as a blueprint, a
/// generator is made from the blueprint, and the generator is written down
/// over the time of the last timestamp of the trace.
///
/// `segments` are the segments that `load_mahimahi_trace` reads from the
/// trace, and the state is the one in which the generator starts that is
/// made from its blueprint, whatever the count is.
pub proof fn lemma_trace_comes_back(trace: Seq<u64>, segments: Seq<(nat, nat)>, count: nat)
    requires
        nondecreasing(trace),
        trace.len() > 0,
        trace.len() <= usize::MAX,
        forall|i: int| 0 <= i < trace.len() ==> trace[i] >= 1,
        decoded(trace, segments),
    ensures
        exported::<RepeatedBwPattern<StaticBwConfig>>(
            start::<StaticBwConfig>(segment_configs(segments), count),
            (trace.last() * BIN) as nat,
        ).0 == trace,
{
    let last = trace.last() as nat;
    let total = (last * BIN) as nat;
    let list = in_nanos(segments);
    let pattern = segment_configs(segments);
    let traces = Seq::new(segments.len(), |k: int| seq![list[k]]);
    lemma_absent(trace, 0);
    assert forall|k: int| 0 <= k < segments.len() implies (#[trigger] segments[k]).0 % (
    MTU_PER_MILLIS as nat) == 0 && segments[k].0 <= MAX_BPS && segments[k].1 * BIN <= u64::MAX
        * BIN by {
        let ms = lemma_rate_of_segment(segments, k);
        assert(rate_in(segments, ms) == MTU_PER_MILLIS * opportunities(trace, ms));
        lemma_occurrences_bound(trace, ms);
        lemma_occurrences_bound(trace, 0);
        let n = opportunities(trace, ms);
        assert((MTU_PER_MILLIS * n) % (MTU_PER_MILLIS as int) == 0 && MTU_PER_MILLIS * n
            <= MAX_BPS) by (nonlinear_arith)
            requires
                n <= 2 * usize::MAX,
                MTU_PER_MILLIS == 12_000_000,
                MAX_BPS == 18_446_744_073_709_551_615_999_999_999,
        ;
        lemma_each_lasting(segments, k);
        assert(segments[k].1 * BIN <= u64::MAX * BIN) by (nonlinear_arith)
            requires
                segments[k].1 <= u64::MAX,
        ;
    }
    assert(traced::<StaticBwConfig>(pattern, traces)) by {
        assert forall|j: int| 0 <= j < pattern.len() implies #[trigger] emits::<StaticBw>(
            StaticBwConfig::fresh(pattern[j]),
            traces[j],
        ) by {
            let made = StaticBwConfig::fresh(pattern[j]);
            assert(pattern[j] == segment_config(segments[j]));
            assert(segments[j].1 > 0);
            assert(segments[j].0 % (MTU_PER_MILLIS as nat) == 0);
            assert(segments[j].1 * BIN > 0) by (nonlinear_arith)
                requires
                    segments[j].1 > 0,
                    BIN == 1_000_000,
            ;
            assert(StaticBw::head(made) == Some(list[j]));
            assert(traces[j].skip(1) =~= Seq::<(nat, nat)>::empty());
            assert(emits::<StaticBw>(StaticBw::tail(made), traces[j].skip(1)));
        }
    }
    if segments.len() == 0 {
        assert(lasting(segments) == 0);
    }
    lemma_walked_list(traces, list, 0);
    assert(list.skip(0) =~= list);
    let s = start::<StaticBwConfig>(pattern, count);
    if count == 0 {
        lemma_repeats_without_end::<StaticBwConfig>(pattern, traces, 1);
        assert(cycles(list, 0) =~= Seq::<(nat, nat)>::empty());
        assert(cycles(list, 1) =~= list);
        lemma_repeated_as_produced::<StaticBwConfig>(s, list, false);
    } else {
        lemma_repeats_count_times::<StaticBwConfig>(pattern, traces, count);
        let behind = cycles(list, (count - 1) as nat);
        assert(cycles(list, count) == list + behind);
        lemma_repeated_as_produced::<StaticBwConfig>(s, list + behind, true);
        lemma_starts_with_front::<RepeatedBwPattern<StaticBwConfig>>(s, list, behind);
    }
    lemma_fed_segments(segments);
    assert(limit(total) == total) by (nonlinear_arith)
        requires
            total == last * BIN,
            BIN == 1_000_000,
            limit(total) == total / (BIN as nat) * (BIN as nat),
    ;
    assert forall|k: int| 0 <= k < list.len() implies (#[trigger] list[k]).1 > 0 by {
        assert(segments[k].1 > 0);
        assert(segments[k].1 * BIN > 0) by (nonlinear_arith)
            requires
                segments[k].1 > 0,
                BIN == 1_000_000,
        ;
    }
    lemma_walk_is_fed::<RepeatedBwPattern<StaticBwConfig>>(s, list, 0, 0, total);
    let f = |m: nat| rate_in(segments, m) / (MTU_PER_MILLIS as nat);
    let g = |m: nat| occurrences(trace, m);
    assert forall|m: nat| 1 <= m <= last implies #[trigger] f(m) == g(m) by {
        assert(rate_in(segments, m) == MTU_PER_MILLIS * opportunities(trace, m));
        assert(opportunities(trace, m) == occurrences(trace, m));
        let n = occurrences(trace, m);
        assert((MTU_PER_MILLIS * n) / (MTU_PER_MILLIS as int) == n) by (nonlinear_arith)
            requires
                MTU_PER_MILLIS == 12_000_000,
        ;
    }
    lemma_stamps_alike(f, g, last);
    lemma_trace_is_stamps(trace);
}

} // verus!
