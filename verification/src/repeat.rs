//! The engine behind every repeated pattern: it walks a list of blueprints
//! again and again, and hands out what the generators made from them hand out.
//!
//! One generator is alive at a time. It is made from its blueprint when the
//! walk reaches it, and it is pulled until it ends before the walk goes on.
//! A walk that passes every blueprint of the list once from fresh without
//! getting a segment ends the pull with nothing: such a list will never give
//! anything.

use crate::trace::{emits, Emission, Trace, TraceConfig};
use vstd::prelude::*;

verus! {

/// Where a walk stands: the cycle, the place in the list and the generator
/// that is alive.
pub struct Cursor<M> {
    pub cycle: usize,
    pub index: usize,
    pub live: Option<M>,
}

/// What fixes every segment that a repeated pattern still hands out.
pub struct RepeatedState<C: TraceConfig> {
    /// The blueprints, in the order of the walk.
    pub pattern: Seq<C::State>,
    /// How often the list is walked; 0 stands for without end.
    pub count: nat,
    /// The walks that are complete.
    pub cycle: nat,
    /// The place of the walk in the list.
    pub index: nat,
    /// The generator that is alive, if one is.
    pub live: Option<<C::Model as Trace>::State>,
}

/// What one pull on a generator made from the blueprints `C` hands out.
pub type Emitted<C> = Emission<<C as TraceConfig>::Model>;

/// What the blueprints of a list hold.
pub open spec fn pattern_states<C: TraceConfig>(pattern: Seq<C>) -> Seq<C::State> {
    Seq::new(pattern.len(), |i: int| pattern[i].state())
}

/// The state of a repeated pattern that is made of these parts.
pub open spec fn state_of<C: TraceConfig>(
    pattern: Seq<C>,
    count: usize,
    cursor: Cursor<C::Model>,
) -> RepeatedState<C> {
    RepeatedState {
        pattern: pattern_states(pattern),
        count: count as nat,
        cycle: cursor.cycle as nat,
        index: cursor.index as nat,
        live: match cursor.live {
            Some(m) => Some(m.state()),
            None => None,
        },
    }
}

/// The state in which a repeated pattern starts.
pub open spec fn start<C: TraceConfig>(pattern: Seq<C::State>, count: nat) -> RepeatedState<C> {
    RepeatedState { pattern, count, cycle: 0, index: 0, live: None }
}

/// Whether the walk is over: the list is empty, or it has been walked `count`
/// times.
pub open spec fn done<C: TraceConfig>(s: RepeatedState<C>) -> bool {
    s.pattern.len() == 0 || s.index >= s.pattern.len() || (s.count != 0 && s.cycle >= s.count)
}

/// The walk one place further, with no generator alive. Behind the last place
/// comes the first one of the next cycle. A walk without end counts no cycles.
pub open spec fn advance<C: TraceConfig>(s: RepeatedState<C>) -> RepeatedState<C> {
    if s.index + 1 < s.pattern.len() {
        RepeatedState { index: s.index + 1, live: None, ..s }
    } else {
        RepeatedState {
            index: 0,
            cycle: if s.count == 0 {
                s.cycle
            } else {
                s.cycle + 1
            },
            live: None,
            ..s
        }
    }
}

/// The walk with this generator alive.
pub open spec fn with_live<C: TraceConfig>(
    s: RepeatedState<C>,
    m: <C::Model as Trace>::State,
) -> RepeatedState<C> {
    RepeatedState { live: Some(m), ..s }
}

/// The walk with no generator alive.
pub open spec fn without_live<C: TraceConfig>(s: RepeatedState<C>) -> RepeatedState<C> {
    RepeatedState { live: None, ..s }
}

/// Looks for the next segment from a place where no generator is alive, and
/// tries at most `fuel` blueprints: the state after the search and what it
/// found.
pub open spec fn search<C: TraceConfig>(s: RepeatedState<C>, fuel: nat) -> (
    RepeatedState<C>,
    Option<Emitted<C>>,
)
    decreases fuel,
{
    if done(s) || fuel == 0 {
        (without_live(s), None)
    } else {
        let m = C::fresh(s.pattern[s.index as int]);
        match <C::Model as Trace>::head(m) {
            Some(x) => (with_live(s, <C::Model as Trace>::tail(m)), Some(x)),
            None => search(advance(s), (fuel - 1) as nat),
        }
    }
}

/// One pull: the state that it leaves behind and what it hands out.
///
/// The generator that is alive is asked first. When it has ended, or none is
/// alive, the walk goes on from blueprint to blueprint until a generator
/// hands out a segment, the walk is over, or every blueprint of the list has
/// been tried once from fresh in vain.
pub open spec fn step<C: TraceConfig>(s: RepeatedState<C>) -> (
    RepeatedState<C>,
    Option<Emitted<C>>,
) {
    if done(s) {
        (s, None)
    } else {
        match s.live {
            Some(m) => match <C::Model as Trace>::head(m) {
                Some(x) => (with_live(s, <C::Model as Trace>::tail(m)), Some(x)),
                None => search(advance(s), s.pattern.len()),
            },
            None => search(s, s.pattern.len()),
        }
    }
}

/// Whether no generator made from a blueprint of the list hands out anything.
pub open spec fn barren<C: TraceConfig>(pattern: Seq<C::State>) -> bool {
    forall|j: int|
        0 <= j < pattern.len() ==> (#[trigger] <C::Model as Trace>::head(C::fresh(pattern[j])))
            is None
}

/// Moving the walk on changes neither the list nor the count.
proof fn lemma_search_keeps_list<C: TraceConfig>(s: RepeatedState<C>, fuel: nat)
    ensures
        search(s, fuel).0.pattern == s.pattern,
        search(s, fuel).0.count == s.count,
        search(s, fuel).1 is None ==> search(s, fuel).0.live is None,
    decreases fuel,
{
    if !(done(s) || fuel == 0) {
        let m = C::fresh(s.pattern[s.index as int]);
        if <C::Model as Trace>::head(m) is None {
            lemma_search_keeps_list(advance(s), (fuel - 1) as nat);
        }
    }
}

/// A search over a barren list finds nothing, however far it may go.
proof fn lemma_barren_search<C: TraceConfig>(s: RepeatedState<C>, fuel: nat)
    requires
        barren::<C>(s.pattern),
    ensures
        search(s, fuel).1 is None,
    decreases fuel,
{
    if !(done(s) || fuel == 0) {
        lemma_barren_search(advance(s), (fuel - 1) as nat);
    }
}

/// A search that finds nothing has either reached the end of the walk, or
/// used up its fuel on generators that hand out nothing: those of the `fuel`
/// places from the one where it began, around the list.
proof fn lemma_vain_search<C: TraceConfig>(s: RepeatedState<C>, fuel: nat, k: nat)
    requires
        search(s, fuel).1 is None,
        !done(search(s, fuel).0),
        k < fuel,
    ensures
        s.index < s.pattern.len(),
        (<C::Model as Trace>::head(
            C::fresh(s.pattern[((s.index + k) % s.pattern.len()) as int]),
        )) is None,
    decreases fuel,
{
    let n = s.pattern.len();
    if done(s) {
        assert(done(without_live(s)));
    } else {
        let m = C::fresh(s.pattern[s.index as int]);
        assert(<C::Model as Trace>::head(m) is None);
        if k == 0 {
            assert((s.index + 0) % n == s.index) by (nonlinear_arith)
                requires
                    s.index < n,
            ;
        } else {
            let t = advance(s);
            lemma_vain_search(t, (fuel - 1) as nat, (k - 1) as nat);
            if s.index + 1 < n {
                assert(t.index + (k - 1) == s.index + k);
            } else {
                assert(s.index + 1 == n);
                assert(t.index == 0);
                assert((s.index + k) % n == (k - 1) % (n as int)) by (nonlinear_arith)
                    requires
                        s.index + 1 == n,
                        k >= 1,
                        n > 0,
                ;
            }
        }
    }
}

/// A repeated pattern that has ended stays ended.
pub proof fn lemma_step_stays_ended<C: TraceConfig>(s: RepeatedState<C>)
    requires
        step(s).1 is None,
    ensures
        step(step(s).0).1 is None,
{
    if !done(s) {
        let n = s.pattern.len();
        let from = if s.live is Some {
            advance(s)
        } else {
            s
        };
        assert(step(s) == search(from, n));
        let after = search(from, n).0;
        lemma_search_keeps_list(from, n);
        if !done(after) {
            assert forall|j: int| 0 <= j < n implies (#[trigger] <C::Model as Trace>::head(
                C::fresh(s.pattern[j]),
            )) is None by {
                let k: nat = if j >= from.index {
                    (j - from.index) as nat
                } else {
                    (j + n - from.index) as nat
                };
                lemma_vain_search(from, n, 0);
                lemma_vain_search(from, n, k);
                assert((from.index + k) % n == j) by (nonlinear_arith)
                    requires
                        0 <= j < n,
                        from.index < n,
                        k == if j >= from.index {
                            j - from.index
                        } else {
                            j + n - from.index
                        },
                ;
            }
            assert(barren::<C>(after.pattern));
            lemma_barren_search(after, n);
        }
    }
}

/// Pulls the next segment of a repeated pattern made of these parts.
pub fn pull<C: TraceConfig>(pattern: &Vec<C>, count: usize, cursor: &mut Cursor<C::Model>) -> (r:
    Option<<C::Model as Trace>::Segment>)
    ensures
        r.deep_view() == step(state_of(pattern@, count, *old(cursor))).1,
        state_of(pattern@, count, *final(cursor)) == step(
            state_of(pattern@, count, *old(cursor)),
        ).0,
{
    let ghost s0 = state_of(pattern@, count, *cursor);
    let n = pattern.len();
    if n == 0 || cursor.index >= n || (count != 0 && cursor.cycle >= count) {
        return None;
    }
    let live = cursor.live.take();
    match live {
        Some(mut m) => {
            let r = m.next_segment();
            if r.is_some() {
                cursor.live = Some(m);
                return r;
            }
            if cursor.index + 1 < n {
                cursor.index = cursor.index + 1;
            } else {
                cursor.index = 0;
                if count != 0 {
                    cursor.cycle = cursor.cycle + 1;
                }
            }
        },
        None => {},
    }
    let ghost from = state_of(pattern@, count, *cursor);
    assert(step(s0) == search(from, n as nat));
    let mut fuel: usize = n;
    loop
        invariant
            n == pattern.len(),
            cursor.live is None,
            s0 == state_of(pattern@, count, *old(cursor)),
            step(s0) == search(from, n as nat),
            search(state_of(pattern@, count, *cursor), fuel as nat) == search(from, n as nat),
        decreases fuel,
    {
        let ghost s = state_of(pattern@, count, *cursor);
        if fuel == 0 || cursor.index >= n || (count != 0 && cursor.cycle >= count) {
            assert(without_live(s) == s);
            return None;
        }
        let mut m = pattern[cursor.index].model();
        assert(pattern_states(pattern@)[cursor.index as int]
            == pattern@[cursor.index as int].state());
        let r = m.next_segment();
        if r.is_some() {
            cursor.live = Some(m);
            return r;
        }
        if cursor.index + 1 < n {
            cursor.index = cursor.index + 1;
        } else {
            cursor.index = 0;
            if count != 0 {
                cursor.cycle = cursor.cycle + 1;
            }
        }
        fuel = fuel - 1;
    }
}

/// Copies a list of blueprints.
pub fn duplicate_all<C: TraceConfig>(pattern: &Vec<C>) -> (r: Vec<C>)
    ensures
        pattern_states(r@) == pattern_states(pattern@),
{
    let mut r: Vec<C> = Vec::new();
    let mut i: usize = 0;
    while i < pattern.len()
        invariant
            i <= pattern.len(),
            r.len() == i,
            forall|j: int| 0 <= j < i ==> (#[trigger] r@[j]).state() == pattern@[j].state(),
        decreases pattern.len() - i,
    {
        r.push(pattern[i].duplicate());
        i = i + 1;
    }
    assert(pattern_states(r@) =~= pattern_states(pattern@));
    r
}

/// The place behind `index` in a list of `len` places: behind the last place
/// comes the first.
pub open spec fn place_after(index: nat, len: nat) -> nat {
    if index + 1 < len {
        index + 1
    } else {
        0
    }
}

/// What `steps` generators in a row hand out, one after the other, where
/// each generator made from the blueprint at a place hands out the segments
/// that `traces` holds at that place: the walk starts at `index` and goes
/// around the list.
pub open spec fn walked<E>(traces: Seq<Seq<E>>, index: nat, steps: nat) -> Seq<E>
    decreases steps,
{
    if steps == 0 {
        Seq::empty()
    } else {
        traces[index as int] + walked(traces, place_after(index, traces.len()), (steps - 1) as nat)
    }
}

/// The segments of `one` walk, `n` times in a row.
pub open spec fn cycles<E>(one: Seq<E>, n: nat) -> Seq<E>
    decreases n,
{
    if n == 0 {
        Seq::empty()
    } else {
        one + cycles(one, (n - 1) as nat)
    }
}

/// Whether a repeated pattern in state `s` hands out the segments of `out`
/// first, in that order, and, where `ends` is set, has ended behind them.
pub open spec fn produces<C: TraceConfig>(
    s: RepeatedState<C>,
    out: Seq<Emitted<C>>,
    ends: bool,
) -> bool
    decreases out.len(),
{
    if out.len() == 0 {
        ends ==> step(s).1 is None
    } else {
        step(s).1 == Some(out[0]) && produces(step(s).0, out.skip(1), ends)
    }
}

/// Whether a generator made from the blueprint at each place hands out
/// exactly the segments that `traces` holds at that place.
pub open spec fn traced<C: TraceConfig>(
    pattern: Seq<C::State>,
    traces: Seq<Seq<Emitted<C>>>,
) -> bool {
    &&& traces.len() == pattern.len()
    &&& forall|j: int|
        0 <= j < pattern.len() ==> #[trigger] emits::<C::Model>(C::fresh(pattern[j]), traces[j])
}

/// The children of a repeated pattern that are still to come, the one at
/// which the walk stands among them, where the pattern is not repeated
/// without end.
pub open spec fn children_left<C: TraceConfig>(s: RepeatedState<C>) -> int {
    (s.count - s.cycle) * s.pattern.len() - s.index
}

/// A search that found a segment, or the end of the walk, finds the same
/// with more fuel.
proof fn lemma_search_settled<C: TraceConfig>(s: RepeatedState<C>, fuel: nat, more: nat)
    requires
        search(s, fuel).1 is Some || done(search(s, fuel).0),
        more >= fuel,
    ensures
        search(s, more) == search(s, fuel),
    decreases fuel,
{
    if done(s) {
    } else if fuel == 0 {
        assert(done(without_live(s)));
    } else {
        let m = C::fresh(s.pattern[s.index as int]);
        if <C::Model as Trace>::head(m) is None {
            lemma_search_settled(advance(s), (fuel - 1) as nat, (more - 1) as nat);
        }
    }
}

/// The place at which a walk stands after `k` places from `index`.
pub open spec fn place_at(index: nat, len: nat, k: nat) -> nat
    decreases k,
{
    if k == 0 {
        index
    } else {
        place_at(place_after(index, len), len, (k - 1) as nat)
    }
}

/// A search that ran out of fuel, and finds a segment with one more, finds
/// it in the generator at the place where it ran out.
proof fn lemma_search_one_more<C: TraceConfig>(s: RepeatedState<C>, fuel: nat)
    requires
        search(s, fuel).1 is None,
        !done(search(s, fuel).0),
        search(s, fuel + 1).1 is Some,
    ensures
        place_at(s.index, s.pattern.len(), fuel) < s.pattern.len(),
        search(s, fuel + 1).1 == <C::Model as Trace>::head(
            C::fresh(s.pattern[place_at(s.index, s.pattern.len(), fuel) as int]),
        ),
    decreases fuel,
{
    let n = s.pattern.len();
    if done(s) {
        assert(done(without_live(s)));
    } else if fuel == 0 {
        assert(search(advance(s), 0).1 is None);
    } else {
        let m = C::fresh(s.pattern[s.index as int]);
        assert(<C::Model as Trace>::head(m) is None);
        lemma_search_one_more(advance(s), (fuel - 1) as nat);
        assert(advance(s).index == place_after(s.index, n));
        assert(place_at(s.index, n, fuel) == place_at(
            place_after(s.index, n),
            n,
            (fuel - 1) as nat,
        ));
        assert(search(s, fuel + 1) == search(advance(s), fuel));
    }
}

/// Around a list of `len` places, the walk is back where it began after
/// `len` places.
proof fn lemma_place_around(index: nat, len: nat)
    requires
        index < len,
    ensures
        place_at(place_after(index, len), len, (len - 1) as nat) == index,
{
    if index + 1 < len {
        lemma_place_forward(index + 1, len, (len - index - 2) as nat);
        assert(place_at(index + 1, len, (len - index - 2) as nat) == len - 1);
        lemma_place_split(index + 1, len, (len - index - 2) as nat, (index + 1) as nat);
        assert(place_at((len - 1) as nat, len, (index + 1) as nat) == place_at(0, len, index));
        lemma_place_forward(0, len, index);
    } else {
        lemma_place_forward(0, len, (len - 1) as nat);
    }
}

/// As long as the walk does not pass the last place, it moves on by one
/// place at a time.
proof fn lemma_place_forward(index: nat, len: nat, k: nat)
    requires
        index + k < len,
    ensures
        place_at(index, len, k) == index + k,
    decreases k,
{
    if k > 0 {
        lemma_place_forward(index + 1, len, (k - 1) as nat);
    }
}

/// A walk of `a` places and then `b` more is a walk of `a + b` places.
proof fn lemma_place_split(index: nat, len: nat, a: nat, b: nat)
    ensures
        place_at(index, len, a + b) == place_at(place_at(index, len, a), len, b),
    decreases a,
{
    if a > 0 {
        lemma_place_split(place_after(index, len), len, (a - 1) as nat, b);
    }
}

/// Two states of a repeated pattern from which one pull does the same
/// hand out the same from then on.
proof fn lemma_produces_alike<C: TraceConfig>(
    a: RepeatedState<C>,
    b: RepeatedState<C>,
    out: Seq<Emitted<C>>,
    ends: bool,
)
    requires
        step(a) == step(b),
        produces(b, out, ends),
    ensures
        produces(a, out, ends),
{
}

/// The main step of the proof that a repeated pattern hands out what its
/// children hand out, child after child.
///
/// The walk stands at a child that still hands out `own`, with `k` children
/// to come, that child among them. Then the pattern hands out `own` and
/// what the `k - 1` children behind it hand out. It has ended behind these
/// segments where the pattern is not repeated without end and no child is
/// left.
proof fn lemma_walk_on<C: TraceConfig>(
    s: RepeatedState<C>,
    traces: Seq<Seq<Emitted<C>>>,
    own: Seq<Emitted<C>>,
    k: nat,
    ends: bool,
)
    requires
        traced::<C>(s.pattern, traces),
        !done(s),
        match s.live {
            Some(m) => emits::<C::Model>(m, own),
            None => own == traces[s.index as int],
        },
        k >= 1,
        s.count != 0 ==> k <= children_left(s),
        ends ==> s.count != 0 && k == children_left(s),
    ensures
        produces(
            s,
            own + walked(traces, place_after(s.index, traces.len()), (k - 1) as nat),
            ends,
        ),
    decreases k, own.len(),
{
    let n = s.pattern.len();
    let behind = walked(traces, place_after(s.index, n), (k - 1) as nat);
    let out = own + behind;
    let child = match s.live {
        Some(m) => m,
        None => C::fresh(s.pattern[s.index as int]),
    };
    assert(emits::<C::Model>(child, own));
    if own.len() > 0 {
        let next = with_live(s, <C::Model as Trace>::tail(child));
        assert(step(s) == (next, Some(own[0])));
        lemma_walk_on(next, traces, own.skip(1), k, ends);
        assert(out[0] == own[0]);
        assert(out.skip(1) =~= own.skip(1) + behind);
    } else {
        assert(out =~= behind);
        assert(<C::Model as Trace>::head(child) is None);
        let u = advance(s);
        if k == 1 {
            assert(behind =~= Seq::<Emitted<C>>::empty());
            if ends {
                assert(children_left(s) == 1);
                assert(s.index + 1 == n && s.cycle + 1 == s.count) by (nonlinear_arith)
                    requires
                        (s.count - s.cycle) * n - s.index == 1,
                        s.index < n,
                        s.cycle < s.count,
                ;
                assert(done(u));
            }
        } else {
            assert(!done(u)) by {
                if s.count != 0 && s.index + 1 >= n {
                    assert(s.cycle + 1 < s.count) by (nonlinear_arith)
                        requires
                            2 <= (s.count - s.cycle) * n - s.index,
                            s.index + 1 == n,
                            s.cycle < s.count,
                    ;
                }
            }
            if s.count != 0 {
                assert(children_left(u) == children_left(s) - 1) by (nonlinear_arith)
                    requires
                        u.count == s.count,
                        u.pattern.len() == n,
                        n == s.pattern.len(),
                        s.index + 1 < n ==> u.index == s.index + 1 && u.cycle == s.cycle,
                        s.index + 1 >= n ==> u.index == 0 && u.cycle == s.cycle + 1,
                        s.index < n,
                ;
            }
            lemma_walk_on(u, traces, traces[u.index as int], (k - 1) as nat, ends);
            assert(behind == traces[u.index as int] + walked(
                traces,
                place_after(u.index, n),
                (k - 2) as nat,
            ));
            assert(produces(u, behind, ends));
            assert(step(u) == search(u, n));
        }
        if s.live is Some {
            assert(step(s) == search(u, n));
            if k > 1 {
                lemma_produces_alike(s, u, behind, ends);
            } else if ends {
                assert(search(u, n) == (without_live(u), None::<Emitted<C>>));
            }
        } else {
            assert(step(s) == search(u, (n - 1) as nat));
            if k > 1 {
                let short = search(u, (n - 1) as nat);
                if short.1 is Some || done(short.0) {
                    lemma_search_settled(u, (n - 1) as nat, n);
                    lemma_produces_alike(s, u, behind, ends);
                } else {
                    if search(u, n).1 is Some {
                        lemma_search_one_more(u, (n - 1) as nat);
                        lemma_place_around(s.index, n);
                        assert(false);
                    }
                    assert(behind.len() == 0);
                }
            } else if ends {
                assert(search(u, (n - 1) as nat) == (without_live(u), None::<Emitted<C>>));
            }
        }
    }
}

/// One walk over the whole list hands out the segments of all children in
/// their order, and each walk after it hands out the same.
proof fn lemma_walked_cycles<E>(traces: Seq<Seq<E>>, n: nat)
    requires
        traces.len() > 0,
    ensures
        walked(traces, 0, n * traces.len()) == cycles(walked(traces, 0, traces.len()), n),
    decreases n,
{
    let len = traces.len();
    if n > 0 {
        lemma_walked_cycles(traces, (n - 1) as nat);
        assert(n * len == len + (n - 1) * len) by (nonlinear_arith);
        lemma_walked_split(traces, 0, len, ((n - 1) * len) as nat);
        lemma_place_forward(0, len, (len - 1) as nat);
        lemma_place_split(0, len, (len - 1) as nat, 1);
        assert(place_at((len - 1) as nat, len, 1) == place_at(0, len, 0));
        assert(place_at(0, len, len) == 0);
    } else {
        assert(n * len == 0) by (nonlinear_arith)
            requires
                n == 0,
        ;
    }
}

/// What `a` children and then `b` more hand out is what `a + b` children in
/// a row hand out.
proof fn lemma_walked_split<E>(traces: Seq<Seq<E>>, index: nat, a: nat, b: nat)
    ensures
        walked(traces, index, a + b) == walked(traces, index, a) + walked(
            traces,
            place_at(index, traces.len(), a),
            b,
        ),
    decreases a,
{
    if a > 0 {
        lemma_walked_split(traces, place_after(index, traces.len()), (a - 1) as nat, b);
        assert(walked(traces, index, a + b) =~= walked(traces, index, a) + walked(
            traces,
            place_at(index, traces.len(), a),
            b,
        ));
    } else {
        assert(walked(traces, index, a + b) =~= walked(traces, index, a) + walked(
            traces,
            place_at(index, traces.len(), a),
            b,
        ));
    }
}

/// A repeated pattern with a count of `n` above zero hands out what one
/// walk over its children hands out, `n` times in a row, and has then ended.
///
/// `traces` holds for each child what a generator made from its blueprint
/// hands out before it ends.
pub proof fn lemma_repeats_count_times<C: TraceConfig>(
    pattern: Seq<C::State>,
    traces: Seq<Seq<Emitted<C>>>,
    n: nat,
)
    requires
        traced::<C>(pattern, traces),
        pattern.len() > 0,
        n > 0,
    ensures
        produces(start::<C>(pattern, n), cycles(walked(traces, 0, traces.len()), n), true),
{
    let s = start::<C>(pattern, n);
    let len = pattern.len();
    assert(n * len >= 1) by (nonlinear_arith)
        requires
            n >= 1,
            len >= 1,
    ;
    assert(children_left(s) == n * len) by (nonlinear_arith)
        requires
            children_left(s) == (n - 0) * len - 0,
    ;
    lemma_walk_on(s, traces, traces[0], n * len, true);
    lemma_walked_cycles(traces, n);
}

/// A repeated pattern without end hands out what one walk over its children
/// hands out, again and again: as many times in a row as one likes.
pub proof fn lemma_repeats_without_end<C: TraceConfig>(
    pattern: Seq<C::State>,
    traces: Seq<Seq<Emitted<C>>>,
    n: nat,
)
    requires
        traced::<C>(pattern, traces),
        pattern.len() > 0,
    ensures
        produces(start::<C>(pattern, 0), cycles(walked(traces, 0, traces.len()), n), false),
{
    let s = start::<C>(pattern, 0);
    let len = pattern.len();
    if n > 0 {
        assert(n * len >= 1) by (nonlinear_arith)
            requires
                n >= 1,
                len >= 1,
        ;
        lemma_walk_on(s, traces, traces[0], n * len, false);
        lemma_walked_cycles(traces, n);
    }
}

/// Walks that hand out something hand out at least one segment each.
pub proof fn lemma_cycles_len<E>(one: Seq<E>, n: nat)
    ensures
        cycles(one, n).len() == n * one.len(),
        one.len() > 0 ==> cycles(one, n).len() >= n,
    decreases n,
{
    if n > 0 {
        lemma_cycles_len(one, (n - 1) as nat);
        assert(n * one.len() == one.len() + (n - 1) * one.len()) by (nonlinear_arith);
        assert(one.len() > 0 ==> n * one.len() >= n) by (nonlinear_arith);
    } else {
        assert(n * one.len() == 0) by (nonlinear_arith)
            requires
                n == 0,
        ;
    }
}

} // verus!
