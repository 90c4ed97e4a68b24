//! What holds of the flock as a whole.

use vstd::prelude::*;

use crate::anim::Child;
use crate::dice::next_seed;
use crate::flock::{
    caught_up, covers, generations_of, handled_from, joined_by, later, ordinary_from, reared,
    resynced, run_from, soonest_from, ticked, topmost, topped_up, with_companion, with_more,
    with_ordinary, Pen, Run, State, Yard, MAX_STEPS_PER_FRAME,
};
use crate::laws::a_step_keeps_the_sheep;
use crate::manners::{calls_on, companions_take_after_their_parent};
use crate::number::Number;
use crate::sheep::{Event, Sheep};

verus! {

/// Do the sheep of `a` stand in `b` as they are, ahead of all others?
pub open spec fn leads<N>(a: Seq<Pen<N>>, b: Seq<Pen<N>>) -> bool {
    a.len() <= b.len() && b.take(a.len() as int) == a
}

/// Are the sheep of `b` that are not of `a` all companions?
pub open spec fn only_companions_after<N>(a: Seq<Pen<N>>, b: Seq<Pen<N>>) -> bool {
    forall|i: int| a.len() <= i < b.len() ==> (#[trigger] b[i]).sheep.is_child
}

proof fn lemma_begun_child<N: Number>(state: State<N>, yard: Yard<N>, call: Event<N>)
    requires
        call is SpawnChild,
    ensures
        ({
            let sheep = Sheep {
                x: call->x,
                y: call->y,
                rand_s: call->rand_s,
                workspace: call->workspace,
                ..reared(state, yard, true)
            };
            let begun = sheep.beginning(
                yard.pet,
                yard.world,
                yard.tile,
                call->animation,
                next_seed(state.seed),
            ).sheep;
            begun.is_child && begun.id == state.ids && begun.rand_s == call->rand_s
                && begun.workspace == call->workspace
        }),
{
    reveal(Sheep::entering);
}

proof fn lemma_with_companion<N: Number>(
    state: State<N>,
    yard: Yard<N>,
    call: Event<N>,
    now: u64,
    generations: nat,
)
    ensures
        leads(state.pens, with_companion(state, yard, call, now, generations).pens),
        only_companions_after(
            state.pens,
            with_companion(state, yard, call, now, generations).pens,
        ),
    decreases generations, 0int,
{
    if call is SpawnChild {
        lemma_begun_child(state, yard, call);
        let sheep = Sheep {
            x: call->x,
            y: call->y,
            rand_s: call->rand_s,
            workspace: call->workspace,
            ..reared(state, yard, true)
        };
        let turn = sheep.beginning(
            yard.pet,
            yard.world,
            yard.tile,
            call->animation,
            next_seed(state.seed),
        );
        let joined = joined_by(state, turn, now);
        assert(joined.pens.take(state.pens.len() as int) == state.pens);
        if generations > 0 {
            let less = (generations - 1) as nat;
            calls_only_add_companions(joined, yard, turn.events, 0, now, less);
            let after = handled_from(joined, yard, turn.events, 0, now, less);
            assert(after.pens.take(state.pens.len() as int) == state.pens) by {
                assert(after.pens.take(state.pens.len() as int) == after.pens.take(
                    joined.pens.len() as int,
                ).take(state.pens.len() as int));
            }
            assert(after.pens[state.pens.len() as int] == after.pens.take(
                joined.pens.len() as int,
            )[state.pens.len() as int]);
        }
    } else {
        assert(state.pens.take(state.pens.len() as int) == state.pens);
    }
}

/// Answering calls adds companions behind the sheep there are, and nothing
/// else: nobody who is there already is touched, and no ordinary sheep comes.
pub proof fn calls_only_add_companions<N: Number>(
    state: State<N>,
    yard: Yard<N>,
    events: Seq<Event<N>>,
    i: int,
    now: u64,
    generations: nat,
)
    requires
        0 <= i,
    ensures
        leads(state.pens, handled_from(state, yard, events, i, now, generations).pens),
        only_companions_after(
            state.pens,
            handled_from(state, yard, events, i, now, generations).pens,
        ),
    decreases generations, events.len() - i,
{
    if i < events.len() {
        let next = with_companion(state, yard, events[i], now, generations);
        lemma_with_companion(state, yard, events[i], now, generations);
        calls_only_add_companions(next, yard, events, i + 1, now, generations);
        let after = handled_from(next, yard, events, i + 1, now, generations);
        let n = state.pens.len() as int;
        let m = next.pens.len() as int;
        assert(after.pens.take(n) == after.pens.take(m).take(n));
        assert forall|k: int| n <= k < after.pens.len() implies (
        #[trigger] after.pens[k]).sheep.is_child by {
            if k < m {
                assert(after.pens[k] == after.pens.take(m)[k]);
                assert(next.pens[k].sheep.is_child);
            }
        }
    } else {
        assert(state.pens.take(state.pens.len() as int) == state.pens);
    }
}

proof fn lemma_ordinary_of_prefix<N>(a: Seq<Pen<N>>, b: Seq<Pen<N>>, i: int)
    requires
        0 <= i <= a.len(),
        leads(a, b),
        only_companions_after(a, b),
    ensures
        ordinary_from(a, i) == ordinary_from(b, i),
    decreases b.len() - i,
{
    if i < a.len() {
        assert(b[i] == b.take(a.len() as int)[i]);
        lemma_ordinary_of_prefix(a, b, i + 1);
    } else {
        lemma_no_ordinary(b, i);
    }
}

proof fn lemma_no_ordinary<N>(b: Seq<Pen<N>>, i: int)
    requires
        0 <= i,
        forall|k: int| i <= k < b.len() ==> (#[trigger] b[k]).sheep.is_child,
    ensures
        ordinary_from(b, i) == 0,
    decreases b.len() - i,
{
    if i < b.len() {
        assert(b[i].sheep.is_child);
        lemma_no_ordinary(b, i + 1);
    }
}

proof fn lemma_ordinary_of_push<N>(a: Seq<Pen<N>>, p: Pen<N>, i: int)
    requires
        0 <= i <= a.len(),
        !p.sheep.is_child,
    ensures
        ordinary_from(a.push(p), i) == ordinary_from(a, i) + 1,
    decreases a.len() - i,
{
    if i < a.len() {
        assert(a.push(p)[i] == a[i]);
        lemma_ordinary_of_push(a, p, i + 1);
    } else {
        assert(a.push(p)[i] == p);
        assert(ordinary_from(a.push(p), i + 1) == 0);
    }
}

proof fn lemma_one_more<N: Number>(state: State<N>, yard: Yard<N>, now: u64)
    ensures
        ordinary_from(with_ordinary(state, yard, now).pens, 0) == ordinary_from(state.pens, 0) + 1,
{
    reveal(Sheep::spawning);
    reveal(Sheep::entering);
    let turn = reared(state, yard, false).spawning(
        yard.pet,
        yard.world,
        yard.tile,
        next_seed(state.seed),
    );
    let joined = joined_by(state, turn, now);
    assert(!turn.sheep.is_child);
    lemma_ordinary_of_push(state.pens, Pen { sheep: turn.sheep, next_step: now }, 0);
    calls_only_add_companions(joined, yard, turn.events, 0, now, generations_of(yard));
    lemma_ordinary_of_prefix(joined.pens, with_ordinary(state, yard, now).pens, 0);
}

proof fn lemma_more<N: Number>(state: State<N>, yard: Yard<N>, n: nat, now: u64)
    ensures
        ordinary_from(with_more(state, yard, n, now).pens, 0) == ordinary_from(state.pens, 0) + n,
    decreases n,
{
    if n > 0 {
        lemma_one_more(state, yard, now);
        lemma_more(with_ordinary(state, yard, now), yard, (n - 1) as nat, now);
    }
}

/// After a frame there are as many ordinary sheep as are wanted, or more where
/// there were more already.
pub proof fn the_number_is_made_up<N: Number>(state: State<N>, yard: Yard<N>, now: u64)
    ensures
        ordinary_from(topped_up(state, yard, now).pens, 0) == if ordinary_from(state.pens, 0)
            < yard.cfg.sheep {
            yard.cfg.sheep as nat
        } else {
            ordinary_from(state.pens, 0)
        },
        ordinary_from(ticked(state, yard, now).pens, 0) >= yard.cfg.sheep,
{
    let ordinary = ordinary_from(state.pens, 0);
    lemma_more(
        state,
        yard,
        if ordinary < yard.cfg.sheep {
            (yard.cfg.sheep - ordinary) as nat
        } else {
            0
        },
        now,
    );
    let run = run_from(state.pens, yard, now, 0, state.seed);
    let after = State { pens: run.pens, seed: run.seed, ..state };
    let handled = handled_from(after, yard, run.calls, 0, now, generations_of(yard));
    let count = ordinary_from(handled.pens, 0);
    lemma_more(
        handled,
        yard,
        if count < yard.cfg.sheep {
            (yard.cfg.sheep - count) as nat
        } else {
            0
        },
        now,
    );
}

// -- identities --

/// Do all sheep have an identity of their own, handed out already?
pub open spec fn ids_are_own<N>(state: State<N>) -> bool {
    &&& forall|i: int| 0 <= i < state.pens.len() ==> (#[trigger] state.pens[i]).sheep.id < state.ids
    &&& forall|i: int, j: int|
        0 <= i < j < state.pens.len() ==> (#[trigger] state.pens[i]).sheep.id != (
        #[trigger] state.pens[j]).sheep.id
}

/// Are the sheep behind those of `state` numbered from its next identity on?
pub open spec fn newcomers_are_numbered_from<N>(state: State<N>, pens: Seq<Pen<N>>) -> bool {
    forall|k: int|
        state.pens.len() <= k < pens.len() ==> state.ids <= (#[trigger] pens[k]).sheep.id
}

proof fn lemma_companion_ids<N: Number>(
    state: State<N>,
    yard: Yard<N>,
    call: Event<N>,
    now: u64,
    generations: nat,
)
    requires
        ids_are_own(state),
        state.ids + (with_companion(state, yard, call, now, generations).pens.len()
            - state.pens.len()) <= u64::MAX,
    ensures
        ({
            let after = with_companion(state, yard, call, now, generations);
            &&& ids_are_own(after)
            &&& after.ids == state.ids + (after.pens.len() - state.pens.len())
            &&& after.pens.len() >= state.pens.len()
            &&& newcomers_are_numbered_from(state, after.pens)
        }),
    decreases generations, 0int,
{
    lemma_with_companion(state, yard, call, now, generations);
    if call is SpawnChild {
        lemma_begun_child(state, yard, call);
        let sheep = Sheep {
            x: call->x,
            y: call->y,
            rand_s: call->rand_s,
            workspace: call->workspace,
            ..reared(state, yard, true)
        };
        let turn = sheep.beginning(
            yard.pet,
            yard.world,
            yard.tile,
            call->animation,
            next_seed(state.seed),
        );
        let joined = joined_by(state, turn, now);
        let after = with_companion(state, yard, call, now, generations);
        if generations > 0 {
            let less = (generations - 1) as nat;
            calls_only_add_companions(joined, yard, turn.events, 0, now, less);
        }
        assert(joined.pens.len() == state.pens.len() + 1);
        assert(after.pens.len() >= joined.pens.len());
        assert(state.ids < u64::MAX);
        assert(ids_are_own(joined));
        if generations > 0 {
            let less = (generations - 1) as nat;
            newcomers_have_identities_of_their_own(joined, yard, turn.events, 0, now, less);
        }
        let n = state.pens.len() as int;
        assert forall|k: int| n <= k < after.pens.len() implies state.ids <= (
        #[trigger] after.pens[k]).sheep.id by {
            if k == n {
                assert(joined.pens.take(n + 1) == joined.pens);
                assert(after.pens[k] == after.pens.take(n + 1)[k]) by {
                    if generations == 0 {
                        assert(after.pens.take(n + 1) == after.pens);
                    }
                }
            }
        }
    }
}

/// Companions that come get identities of their own, as long as there are
/// any left to hand out.
pub proof fn newcomers_have_identities_of_their_own<N: Number>(
    state: State<N>,
    yard: Yard<N>,
    events: Seq<Event<N>>,
    i: int,
    now: u64,
    generations: nat,
)
    requires
        0 <= i,
        ids_are_own(state),
        state.ids + (handled_from(state, yard, events, i, now, generations).pens.len()
            - state.pens.len()) <= u64::MAX,
    ensures
        ({
            let after = handled_from(state, yard, events, i, now, generations);
            &&& ids_are_own(after)
            &&& after.ids == state.ids + (after.pens.len() - state.pens.len())
            &&& newcomers_are_numbered_from(state, after.pens)
        }),
    decreases generations, events.len() - i,
{
    if i < events.len() {
        let next = with_companion(state, yard, events[i], now, generations);
        lemma_with_companion(state, yard, events[i], now, generations);
        calls_only_add_companions(next, yard, events, i + 1, now, generations);
        lemma_companion_ids(state, yard, events[i], now, generations);
        newcomers_have_identities_of_their_own(next, yard, events, i + 1, now, generations);
        let after = handled_from(next, yard, events, i + 1, now, generations);
        let m = next.pens.len() as int;
        assert forall|k: int| state.pens.len() <= k < after.pens.len() implies state.ids <= (
        #[trigger] after.pens[k]).sheep.id by {
            if k < m {
                assert(after.pens[k] == after.pens.take(m)[k]);
                assert(state.ids <= next.pens[k].sheep.id);
            }
        }
    }
}

proof fn lemma_ordinary_ids<N: Number>(state: State<N>, yard: Yard<N>, now: u64)
    requires
        ids_are_own(state),
        state.ids + (with_ordinary(state, yard, now).pens.len() - state.pens.len()) <= u64::MAX,
    ensures
        ({
            let after = with_ordinary(state, yard, now);
            &&& ids_are_own(after)
            &&& after.ids == state.ids + (after.pens.len() - state.pens.len())
            &&& leads(state.pens, after.pens)
            &&& newcomers_are_numbered_from(state, after.pens)
        }),
{
    lemma_ordinary_leads(state, yard, now);
    reveal(Sheep::spawning);
    reveal(Sheep::entering);
    let turn = reared(state, yard, false).spawning(
        yard.pet,
        yard.world,
        yard.tile,
        next_seed(state.seed),
    );
    let joined = joined_by(state, turn, now);
    let after = with_ordinary(state, yard, now);
    let g = generations_of(yard);
    calls_only_add_companions(joined, yard, turn.events, 0, now, g);
    assert(turn.sheep.id == state.ids);
    assert(ids_are_own(joined));
    newcomers_have_identities_of_their_own(joined, yard, turn.events, 0, now, g);
    let n = state.pens.len() as int;
    assert forall|k: int| n <= k < after.pens.len() implies state.ids <= (
    #[trigger] after.pens[k]).sheep.id by {
        if k == n {
            assert(after.pens[k] == after.pens.take(n + 1)[k]);
        }
    }
}

proof fn lemma_ordinary_leads<N: Number>(state: State<N>, yard: Yard<N>, now: u64)
    ensures
        leads(state.pens, with_ordinary(state, yard, now).pens),
        state.pens.len() < with_ordinary(state, yard, now).pens.len(),
{
    let turn = reared(state, yard, false).spawning(
        yard.pet,
        yard.world,
        yard.tile,
        next_seed(state.seed),
    );
    let joined = joined_by(state, turn, now);
    let after = with_ordinary(state, yard, now);
    calls_only_add_companions(joined, yard, turn.events, 0, now, generations_of(yard));
    let n = state.pens.len() as int;
    assert(after.pens.take(n) == after.pens.take(n + 1).take(n));
    assert(joined.pens.take(n) == state.pens);
}

proof fn lemma_more_lead<N: Number>(state: State<N>, yard: Yard<N>, n: nat, now: u64)
    ensures
        leads(state.pens, with_more(state, yard, n, now).pens),
    decreases n,
{
    let len = state.pens.len() as int;
    if n > 0 {
        let next = with_ordinary(state, yard, now);
        let after = with_more(state, yard, n, now);
        lemma_ordinary_leads(state, yard, now);
        lemma_more_lead(next, yard, (n - 1) as nat, now);
        assert(after.pens.take(len) == after.pens.take(next.pens.len() as int).take(len));
    } else {
        assert(state.pens.take(len) == state.pens);
    }
}

proof fn lemma_more_ids<N: Number>(state: State<N>, yard: Yard<N>, n: nat, now: u64)
    requires
        ids_are_own(state),
        state.ids + (with_more(state, yard, n, now).pens.len() - state.pens.len()) <= u64::MAX,
    ensures
        ids_are_own(with_more(state, yard, n, now)),
        newcomers_are_numbered_from(state, with_more(state, yard, n, now).pens),
    decreases n,
{
    if n > 0 {
        let next = with_ordinary(state, yard, now);
        let after = with_more(state, yard, n, now);
        lemma_ordinary_leads(state, yard, now);
        lemma_more_lead(next, yard, (n - 1) as nat, now);
        lemma_ordinary_ids(state, yard, now);
        lemma_more_ids(next, yard, (n - 1) as nat, now);
        let m = next.pens.len() as int;
        assert forall|k: int| state.pens.len() <= k < after.pens.len() implies state.ids <= (
        #[trigger] after.pens[k]).sheep.id by {
            if k < m {
                assert(after.pens[k] == after.pens.take(m)[k]);
                assert(state.ids <= next.pens[k].sheep.id);
            }
        }
    }
}

// -- time --

proof fn lemma_run_is_on_time<N: Number>(
    pens: Seq<Pen<N>>,
    yard: Yard<N>,
    now: u64,
    i: int,
    seed: u64,
)
    requires
        0 <= i,
    ensures
        ({
            let run = run_from(pens, yard, now, i, seed);
            &&& run.pens.len() <= pens.len() - i || i >= pens.len()
            &&& forall|k: int| 0 <= k < run.pens.len() ==> now <= (#[trigger] run.pens[k]).next_step
        }),
    decreases pens.len() - i,
{
    if i < pens.len() {
        let one = caught_up(pens[i], yard, now, MAX_STEPS_PER_FRAME as nat, seed);
        lemma_run_is_on_time(pens, yard, now, i + 1, one.seed);
        let rest = run_from(pens, yard, now, i + 1, one.seed);
        let run = run_from(pens, yard, now, i, seed);
        assert forall|k: int| 0 <= k < run.pens.len() implies now <= (
        #[trigger] run.pens[k]).next_step by {
            if one.events.contains(Event::Died) {
                assert(run.pens == rest.pens);
            } else if k > 0 {
                assert(run.pens[k] == rest.pens[k - 1]);
            }
        }
        if one.events.contains(Event::Died) {
            assert(run.pens == rest.pens);
        }
    }
}

/// However long the host was held up, no sheep that has been run is left
/// behind: none is due before now.
pub proof fn nobody_is_left_behind<N: Number>(state: State<N>, yard: Yard<N>, now: u64)
    ensures
        ({
            let run = run_from(state.pens, yard, now, 0, state.seed);
            forall|k: int| 0 <= k < run.pens.len() ==> now <= (#[trigger] run.pens[k]).next_step
        }),
{
    lemma_run_is_on_time(state.pens, yard, now, 0, state.seed);
}

/// A sheep that is not due is left alone.
pub proof fn a_sheep_not_due_is_left_alone<N: Number>(
    pen: Pen<N>,
    yard: Yard<N>,
    now: u64,
    n: nat,
    seed: u64,
)
    requires
        now < pen.next_step,
    ensures
        caught_up(pen, yard, now, n, seed).pen == pen,
        resynced(pen, now) == pen,
        caught_up(pen, yard, now, n, seed).events == Seq::<Event<N>>::empty(),
        caught_up(pen, yard, now, n, seed).seed == seed,
{
}

/// The next deadline is no later than the next layout poll or any sheep's next
/// step, and is one of them.
pub proof fn the_deadline_is_the_soonest<N>(pens: Seq<Pen<N>>, i: int, refresh: u64)
    requires
        0 <= i,
    ensures
        soonest_from(pens, i, refresh) <= refresh,
        forall|k: int|
            i <= k < pens.len() ==> soonest_from(pens, i, refresh) <= (
            #[trigger] pens[k]).next_step,
        soonest_from(pens, i, refresh) == refresh || exists|k: int|
            i <= k < pens.len() && (#[trigger] pens[k]).next_step == soonest_from(
                pens,
                i,
                refresh,
            ),
    decreases pens.len() - i,
{
    if i < pens.len() {
        let next = if pens[i].next_step < refresh {
            pens[i].next_step
        } else {
            refresh
        };
        the_deadline_is_the_soonest(pens, i + 1, next);
        assert(soonest_from(pens, i, refresh) == soonest_from(pens, i + 1, next));
    }
}

/// The sheep that a press lands on covers the point, and none in front of it
/// does; where it lands on none, none covers the point.
pub proof fn a_press_lands_on_the_topmost<N: Number>(
    pens: Seq<Pen<N>>,
    x: N,
    y: N,
    tile: N,
    n: int,
)
    requires
        0 <= n <= pens.len() <= usize::MAX,
    ensures
        match topmost(pens, x, y, tile, n) {
            Some(i) => i < n && covers(&pens[i as int].sheep, x, y, tile) && forall|k: int|
                i < k < n ==> !covers(&(#[trigger] pens[k]).sheep, x, y, tile),
            None => forall|k: int|
                0 <= k < n ==> !covers(&(#[trigger] pens[k]).sheep, x, y, tile),
        },
    decreases n,
{
    if n > 0 {
        a_press_lands_on_the_topmost(pens, x, y, tile, n - 1);
    }
}

// -- a frame --

/// A sheep that has taken so many steps, one after another.
pub open spec fn after_steps<N: Number>(
    pen: Pen<N>,
    yard: Yard<N>,
    steps: nat,
    seed: u64,
) -> Run<N>
    decreases steps,
{
    if steps == 0 {
        Run { pen, events: seq![], moves: seq![], seed }
    } else {
        let (turn, wait) = pen.sheep.stepping(yard.pet, yard.world, yard.tile, seed);
        let next = Pen { sheep: turn.sheep, next_step: later(pen.next_step, wait) };
        let rest = after_steps(next, yard, (steps - 1) as nat, turn.seed);
        Run {
            pen: rest.pen,
            events: turn.events + rest.events,
            moves: (if turn.sheep.animation != pen.sheep.animation {
                seq![turn.sheep]
            } else {
                seq![]
            }) + rest.moves,
            seed: rest.seed,
        }
    }
}

proof fn lemma_steps_taken<N: Number>(
    pen: Pen<N>,
    yard: Yard<N>,
    now: u64,
    most: nat,
    seed: u64,
) -> (steps: nat)
    ensures
        steps <= most,
        caught_up(pen, yard, now, most, seed) == after_steps(pen, yard, steps, seed),
        steps < most ==> now < caught_up(pen, yard, now, most, seed).pen.next_step,
    decreases most,
{
    if most > 0 && pen.next_step <= now {
        let (turn, wait) = pen.sheep.stepping(yard.pet, yard.world, yard.tile, seed);
        let next = Pen { sheep: turn.sheep, next_step: later(pen.next_step, wait) };
        lemma_steps_taken(next, yard, now, (most - 1) as nat, turn.seed) + 1
    } else {
        0
    }
}

/// What running one sheep for a frame comes to.
#[verifier::opaque]
pub open spec fn frame_of<N: Number>(pen: Pen<N>, yard: Yard<N>, now: u64, seed: u64) -> Run<N> {
    caught_up(pen, yard, now, MAX_STEPS_PER_FRAME as nat, seed)
}

/// What running each of the sheep from place `i` on comes to.
pub open spec fn runs_from<N: Number>(
    pens: Seq<Pen<N>>,
    yard: Yard<N>,
    now: u64,
    i: int,
    seed: u64,
) -> Seq<Run<N>>
    decreases pens.len() - i,
{
    if 0 <= i < pens.len() {
        let run = frame_of(pens[i], yard, now, seed);
        seq![run] + runs_from(pens, yard, now, i + 1, run.seed)
    } else {
        seq![]
    }
}

/// The seed that the sheep in place `k` is run from.
pub open spec fn seed_of_run<N>(runs: Seq<Run<N>>, k: int, seed: u64) -> u64 {
    if k == 0 {
        seed
    } else {
        runs[k - 1].seed
    }
}

proof fn lemma_runs<N: Number>(pens: Seq<Pen<N>>, yard: Yard<N>, now: u64, i: int, seed: u64)
    requires
        0 <= i <= pens.len(),
    ensures
        ({
            let runs = runs_from(pens, yard, now, i, seed);
            &&& runs.len() == pens.len() - i
            &&& forall|k: int|
                0 <= k < runs.len() ==> #[trigger] runs[k] == frame_of(
                    pens[i + k],
                    yard,
                    now,
                    seed_of_run(runs, k, seed),
                )
        }),
    decreases pens.len() - i,
{
    if i < pens.len() {
        let run = frame_of(pens[i], yard, now, seed);
        lemma_runs(pens, yard, now, i + 1, run.seed);
        let rest = runs_from(pens, yard, now, i + 1, run.seed);
        let runs = runs_from(pens, yard, now, i, seed);
        assert forall|k: int| 0 <= k < runs.len() implies #[trigger] runs[k] == frame_of(
            pens[i + k],
            yard,
            now,
            seed_of_run(runs, k, seed),
        ) by {
            if k > 0 {
                assert(runs[k] == rest[k - 1]);
                assert(seed_of_run(runs, k, seed) == seed_of_run(rest, k - 1, run.seed));
                assert(pens[i + k] == pens[(i + 1) + (k - 1)]);
            }
        }
    }
}

/// In a frame no sheep takes more than eight steps, and one that takes fewer
/// is not due again yet.
pub proof fn nobody_takes_more_than_eight_steps<N: Number>(
    state: State<N>,
    yard: Yard<N>,
    now: u64,
    i: int,
) -> (steps: nat)
    requires
        0 <= i < state.pens.len(),
    ensures
        ({
            let runs = runs_from(state.pens, yard, now, 0, state.seed);
            &&& steps <= 8
            &&& runs[i] == after_steps(
                state.pens[i],
                yard,
                steps,
                seed_of_run(runs, i, state.seed),
            )
            &&& steps < 8 ==> now < runs[i].pen.next_step
        }),
{
    lemma_runs(state.pens, yard, now, 0, state.seed);
    let runs = runs_from(state.pens, yard, now, 0, state.seed);
    assert(runs[i] == frame_of(
        state.pens[0 + i],
        yard,
        now,
        seed_of_run(runs, i, state.seed),
    ));
    reveal(frame_of);
    lemma_steps_taken(
        state.pens[i],
        yard,
        now,
        MAX_STEPS_PER_FRAME as nat,
        seed_of_run(runs, i, state.seed),
    )
}

/// Did the sheep live through its steps?
pub open spec fn lives<N>() -> spec_fn(Run<N>) -> bool {
    |run: Run<N>| !run.events.contains(Event::Died)
}

/// The sheep that lived through their steps, in the order they were in.
pub open spec fn survivors<N>(runs: Seq<Run<N>>, now: u64) -> Seq<Pen<N>> {
    runs.filter(lives()).map_values(|run: Run<N>| resynced(run.pen, now))
}

proof fn lemma_survivors<N: Number>(
    pens: Seq<Pen<N>>,
    yard: Yard<N>,
    now: u64,
    i: int,
    seed: u64,
)
    requires
        0 <= i <= pens.len(),
    ensures
        run_from(pens, yard, now, i, seed).pens == survivors(
            runs_from(pens, yard, now, i, seed),
            now,
        ),
    decreases pens.len() - i,
{
    reveal(Seq::filter);
    if i < pens.len() {
        let run = frame_of(pens[i], yard, now, seed);
        assert(run == caught_up(pens[i], yard, now, MAX_STEPS_PER_FRAME as nat, seed)) by {
            reveal(frame_of);
        }
        lemma_survivors(pens, yard, now, i + 1, run.seed);
        let rest = runs_from(pens, yard, now, i + 1, run.seed);
        let first = seq![run];
        assert(first.drop_last() == Seq::<Run<N>>::empty());
        assert(first.drop_last().filter(lives()) == Seq::<Run<N>>::empty());
        assert(first.filter(lives()) == if lives()(run) {
            first
        } else {
            seq![]
        });
        Seq::filter_distributes_over_add(first, rest, lives());
        assert(survivors(first + rest, now) == survivors(first, now) + survivors(rest, now));
    } else {
        assert(survivors(Seq::<Run<N>>::empty(), now) == Seq::<Pen<N>>::empty());
    }
}

proof fn lemma_running_keeps_the_sheep<N: Number>(
    pen: Pen<N>,
    yard: Yard<N>,
    now: u64,
    n: nat,
    seed: u64,
)
    ensures
        caught_up(pen, yard, now, n, seed).pen.sheep.id == pen.sheep.id,
    decreases n,
{
    if n > 0 && pen.next_step <= now {
        let (turn, wait) = pen.sheep.stepping(yard.pet, yard.world, yard.tile, seed);
        a_step_keeps_the_sheep(pen.sheep, yard.pet, yard.world, yard.tile, seed);
        let next = Pen { sheep: turn.sheep, next_step: later(pen.next_step, wait) };
        lemma_running_keeps_the_sheep(next, yard, now, (n - 1) as nat, turn.seed);
    }
}

/// After a frame the sheep that lived through their steps stand first, in the
/// order they were in, and none that died is among them.
pub proof fn the_dead_are_gone<N: Number>(state: State<N>, yard: Yard<N>, now: u64)
    ensures
        ({
            let runs = runs_from(state.pens, yard, now, 0, state.seed);
            &&& runs.len() == state.pens.len()
            &&& leads(survivors(runs, now), ticked(state, yard, now).pens)
        }),
{
    lemma_runs(state.pens, yard, now, 0, state.seed);
    lemma_survivors(state.pens, yard, now, 0, state.seed);
    let run = run_from(state.pens, yard, now, 0, state.seed);
    let after = State { pens: run.pens, seed: run.seed, ..state };
    let g = generations_of(yard);
    calls_only_add_companions(after, yard, run.calls, 0, now, g);
    let handled = handled_from(after, yard, run.calls, 0, now, g);
    let count = ordinary_from(handled.pens, 0);
    lemma_more_lead(
        handled,
        yard,
        if count < yard.cfg.sheep {
            (yard.cfg.sheep - count) as nat
        } else {
            0
        },
        now,
    );
    let end = ticked(state, yard, now).pens;
    let n = run.pens.len() as int;
    assert(end.take(n) == end.take(handled.pens.len() as int).take(n));
}

/// Is the sheep one of those from place `i` on?
spec fn is_among<N>(pens: Seq<Pen<N>>, i: int, id: u64) -> bool {
    exists|m: int| i <= m < pens.len() && (#[trigger] pens[m]).sheep.id == id
}

proof fn lemma_survivors_ids<N: Number>(
    pens: Seq<Pen<N>>,
    yard: Yard<N>,
    now: u64,
    i: int,
    seed: u64,
)
    requires
        0 <= i <= pens.len(),
        forall|a: int, b: int|
            0 <= a < b < pens.len() ==> (#[trigger] pens[a]).sheep.id != (
            #[trigger] pens[b]).sheep.id,
    ensures
        ({
            let out = run_from(pens, yard, now, i, seed).pens;
            let runs = runs_from(pens, yard, now, i, seed);
            &&& runs.len() == pens.len() - i
            &&& forall|k: int|
                0 <= k < out.len() ==> is_among(pens, i, (#[trigger] out[k]).sheep.id)
            &&& forall|a: int, b: int|
                0 <= a < b < out.len() ==> (#[trigger] out[a]).sheep.id != (
                #[trigger] out[b]).sheep.id
            &&& forall|m: int, k: int|
                0 <= m < runs.len() && 0 <= k < out.len() && (
                #[trigger] runs[m]).events.contains(Event::Died) ==> (
                #[trigger] out[k]).sheep.id != pens[i + m].sheep.id
        }),
    decreases pens.len() - i,
{
    if i < pens.len() {
        let run = frame_of(pens[i], yard, now, seed);
        assert(run == caught_up(pens[i], yard, now, MAX_STEPS_PER_FRAME as nat, seed)) by {
            reveal(frame_of);
        }
        lemma_running_keeps_the_sheep(pens[i], yard, now, MAX_STEPS_PER_FRAME as nat, seed);
        lemma_survivors_ids(pens, yard, now, i + 1, run.seed);
        let rest = run_from(pens, yard, now, i + 1, run.seed).pens;
        let rest_runs = runs_from(pens, yard, now, i + 1, run.seed);
        let out = run_from(pens, yard, now, i, seed).pens;
        let runs = runs_from(pens, yard, now, i, seed);
        let dead = run.events.contains(Event::Died);
        let first = if dead {
            0int
        } else {
            1int
        };
        assert(out.len() == first + rest.len());
        assert forall|k: int| first <= k < out.len() implies #[trigger] out[k] == rest[k
            - first] by {}
        assert(!dead ==> out[0].sheep.id == pens[i].sheep.id);
        assert forall|k: int| 0 <= k < out.len() implies is_among(
            pens,
            i,
            (#[trigger] out[k]).sheep.id,
        ) by {
            if k >= first {
                assert(is_among(pens, i + 1, rest[k - first].sheep.id));
            } else {
                assert(pens[i].sheep.id == out[k].sheep.id);
            }
        }
        assert forall|k: int| first <= k < out.len() implies (#[trigger] out[k]).sheep.id
            != pens[i].sheep.id by {
            assert(is_among(pens, i + 1, rest[k - first].sheep.id));
        }
        assert forall|a: int, b: int| 0 <= a < b < out.len() implies (
        #[trigger] out[a]).sheep.id != (#[trigger] out[b]).sheep.id by {
            if a >= first {
                assert(rest[a - first].sheep.id != rest[b - first].sheep.id);
            }
        }
        assert forall|m: int, k: int|
            0 <= m < runs.len() && 0 <= k < out.len() && (
            #[trigger] runs[m]).events.contains(Event::Died) implies (
        #[trigger] out[k]).sheep.id != pens[i + m].sheep.id by {
            if m > 0 {
                assert(runs[m] == rest_runs[m - 1]);
                assert(pens[i + m] == pens[(i + 1) + (m - 1)]);
                if k >= first {
                    assert(rest[k - first].sheep.id != pens[(i + 1) + (m - 1)].sheep.id);
                } else {
                    assert(pens[i].sheep.id != pens[i + m].sheep.id);
                }
            }
        }
    }
}

/// A sheep that died in a frame is gone: nobody left or come has its identity,
/// as long as there are any left to hand out.
pub proof fn a_dead_sheep_does_not_come_back<N: Number>(
    state: State<N>,
    yard: Yard<N>,
    now: u64,
    i: int,
)
    requires
        ids_are_own(state),
        0 <= i < state.pens.len(),
        runs_from(state.pens, yard, now, 0, state.seed)[i].events.contains(Event::Died),
        state.ids + ticked(state, yard, now).pens.len() <= u64::MAX,
    ensures
        ids_are_own(ticked(state, yard, now)),
        forall|k: int|
            0 <= k < ticked(state, yard, now).pens.len() ==> (
            #[trigger] ticked(state, yard, now).pens[k]).sheep.id != state.pens[i].sheep.id,
{
    lemma_survivors_ids(state.pens, yard, now, 0, state.seed);
    let runs = runs_from(state.pens, yard, now, 0, state.seed);
    let run = run_from(state.pens, yard, now, 0, state.seed);
    let after = State { pens: run.pens, seed: run.seed, ..state };
    assert forall|k: int| 0 <= k < after.pens.len() implies (
    #[trigger] after.pens[k]).sheep.id < after.ids by {
        assert(is_among(state.pens, 0, run.pens[k].sheep.id));
    }
    let g = generations_of(yard);
    let handled = handled_from(after, yard, run.calls, 0, now, g);
    let count = ordinary_from(handled.pens, 0);
    let missing = if count < yard.cfg.sheep {
        (yard.cfg.sheep - count) as nat
    } else {
        0
    };
    let end = with_more(handled, yard, missing, now);
    calls_only_add_companions(after, yard, run.calls, 0, now, g);
    lemma_more_lead(handled, yard, missing, now);
    newcomers_have_identities_of_their_own(after, yard, run.calls, 0, now, g);
    lemma_more_ids(handled, yard, missing, now);
    assert(end == ticked(state, yard, now));
    let n = after.pens.len() as int;
    let m = handled.pens.len() as int;
    assert forall|k: int| 0 <= k < end.pens.len() implies (#[trigger] end.pens[k]).sheep.id
        != state.pens[i].sheep.id by {
        if k < m {
            assert(end.pens[k] == end.pens.take(m)[k]);
            if k < n {
                assert(handled.pens[k] == handled.pens.take(n)[k]);
                assert(runs[i].events.contains(Event::Died));
                assert(run.pens[k].sheep.id != state.pens[0 + i].sheep.id);
            } else {
                assert(after.ids <= handled.pens[k].sheep.id);
            }
        } else {
            assert(handled.ids <= end.pens[k].sheep.id);
        }
    }
}

// -- generations --

/// Do the calls that entering animation `id` leads to end within `k`
/// generations?
pub open spec fn ends_within(children: Seq<Child>, id: u32, k: nat) -> bool
    decreases k,
{
    forall|j: int|
        0 <= j < children.len() && (#[trigger] children[j]).animation_id == id ==> k > 0
            && ends_within(children, children[j].next, (k - 1) as nat)
}

/// Do the calls that answering this one leads to end within `k` generations?
pub open spec fn call_ends<N>(children: Seq<Child>, call: Event<N>, k: nat) -> bool {
    match call {
        Event::Died => true,
        Event::SpawnChild { animation, .. } => ends_within(children, animation, k),
    }
}

/// No animation calls, in however many generations, on itself: there is an
/// order in which every call goes down.
pub open spec fn goes_down(children: Seq<Child>, order: spec_fn(u32) -> nat) -> bool {
    forall|j: int|
        0 <= j < children.len() ==> order((#[trigger] children[j]).next) < order(
            children[j].animation_id,
        )
}

proof fn lemma_companion_at_any_bound<N: Number>(
    state: State<N>,
    yard: Yard<N>,
    call: Event<N>,
    now: u64,
    k: nat,
    g: nat,
    h: nat,
)
    requires
        call_ends(yard.pet.children@, call, k),
        k <= g,
        k <= h,
    ensures
        with_companion(state, yard, call, now, g) == with_companion(state, yard, call, now, h),
    decreases k, 0int,
{
    if let Event::SpawnChild { animation, x, y, rand_s, workspace } = call {
        let children = yard.pet.children@;
        let sheep = Sheep { x, y, rand_s, workspace, ..reared(state, yard, true) };
        let seed = next_seed(state.seed);
        let placed = Sheep { on_screen: sheep.screen(&yard.world, yard.tile).id, ..sheep };
        let turn = sheep.beginning(yard.pet, yard.world, yard.tile, animation, seed);
        companions_take_after_their_parent(
            placed,
            yard.pet,
            yard.world,
            yard.tile,
            animation,
            seed,
        );
        assert forall|e: int| 0 <= e < turn.events.len() implies k > 0 && call_ends(
            children,
            #[trigger] turn.events[e],
            (k - 1) as nat,
        ) by {
            assert(calls_on(placed, yard.pet, animation, turn.events[e]));
        }
        let joined = joined_by(state, turn, now);
        if k == 0 {
            assert(turn.events.len() == 0) by {
                if turn.events.len() > 0 {
                    assert(call_ends(children, turn.events[0], 0));
                }
            }
        } else {
            lemma_handled_at_any_bound(
                joined,
                yard,
                turn.events,
                0,
                now,
                (k - 1) as nat,
                (g - 1) as nat,
                (h - 1) as nat,
            );
        }
    }
}

proof fn lemma_handled_at_any_bound<N: Number>(
    state: State<N>,
    yard: Yard<N>,
    events: Seq<Event<N>>,
    i: int,
    now: u64,
    k: nat,
    g: nat,
    h: nat,
)
    requires
        forall|e: int|
            0 <= e < events.len() ==> call_ends(yard.pet.children@, #[trigger] events[e], k),
        k <= g,
        k <= h,
    ensures
        handled_from(state, yard, events, i, now, g) == handled_from(
            state,
            yard,
            events,
            i,
            now,
            h,
        ),
    decreases k, events.len() - i + 1,
{
    if 0 <= i < events.len() {
        lemma_companion_at_any_bound(state, yard, events[i], now, k, g, h);
        let next = with_companion(state, yard, events[i], now, g);
        lemma_handled_at_any_bound(next, yard, events, i + 1, now, k, g, h);
    }
}

/// How many of the children from place `j` on have a parent no higher than
/// `most`.
spec fn parents_below(
    children: Seq<Child>,
    order: spec_fn(u32) -> nat,
    most: nat,
    j: int,
) -> nat
    decreases children.len() - j,
{
    if 0 <= j < children.len() {
        (if order(children[j].animation_id) <= most {
            1nat
        } else {
            0nat
        }) + parents_below(children, order, most, j + 1)
    } else {
        0
    }
}

proof fn lemma_fewer_parents_below(
    children: Seq<Child>,
    order: spec_fn(u32) -> nat,
    less: nat,
    most: nat,
    j: int,
)
    requires
        less <= most,
        0 <= j <= children.len(),
    ensures
        parents_below(children, order, less, j) <= parents_below(children, order, most, j),
        parents_below(children, order, most, j) <= children.len() - j,
        (exists|c: int|
            j <= c < children.len() && less < order((#[trigger] children[c]).animation_id)
                <= most) ==> parents_below(children, order, less, j) < parents_below(
            children,
            order,
            most,
            j,
        ),
    decreases children.len() - j,
{
    if j < children.len() {
        lemma_fewer_parents_below(children, order, less, most, j + 1);
    }
}

proof fn lemma_ends_sooner(children: Seq<Child>, id: u32, k: nat, more: nat)
    requires
        ends_within(children, id, k),
        k <= more,
    ensures
        ends_within(children, id, more),
    decreases k,
{
    assert forall|j: int|
        0 <= j < children.len() && (#[trigger] children[j]).animation_id == id implies more > 0
        && ends_within(children, children[j].next, (more - 1) as nat) by {
        lemma_ends_sooner(children, children[j].next, (k - 1) as nat, (more - 1) as nat);
    }
}

proof fn lemma_calls_end(children: Seq<Child>, order: spec_fn(u32) -> nat, id: u32)
    requires
        goes_down(children, order),
    ensures
        ends_within(children, id, parents_below(children, order, order(id), 0)),
    decreases order(id),
{
    let k = parents_below(children, order, order(id), 0);
    assert forall|j: int|
        0 <= j < children.len() && (#[trigger] children[j]).animation_id == id implies k > 0
        && ends_within(children, children[j].next, (k - 1) as nat) by {
        let next = children[j].next;
        lemma_calls_end(children, order, next);
        lemma_fewer_parents_below(children, order, order(next), order(id), 0);
        lemma_ends_sooner(
            children,
            next,
            parents_below(children, order, order(next), 0),
            (k - 1) as nat,
        );
    }
}

/// Where no companions call on one another in a circle, none is left out: as
/// many generations as the pet has kinds of companions answer every call, and
/// allowing for more changes nothing.
pub proof fn calls_that_end_are_all_answered<N: Number>(
    state: State<N>,
    yard: Yard<N>,
    events: Seq<Event<N>>,
    now: u64,
    order: spec_fn(u32) -> nat,
    more: nat,
)
    requires
        goes_down(yard.pet.children@, order),
        generations_of(yard) <= more,
    ensures
        handled_from(state, yard, events, 0, now, generations_of(yard)) == handled_from(
            state,
            yard,
            events,
            0,
            now,
            more,
        ),
{
    let children = yard.pet.children@;
    let k = generations_of(yard);
    assert forall|e: int| 0 <= e < events.len() implies call_ends(
        children,
        #[trigger] events[e],
        k,
    ) by {
        if let Event::SpawnChild { animation, .. } = events[e] {
            lemma_calls_end(children, order, animation);
            lemma_fewer_parents_below(children, order, order(animation), order(animation), 0);
            lemma_ends_sooner(
                children,
                animation,
                parents_below(children, order, order(animation), 0),
                k,
            );
        }
    }
    lemma_handled_at_any_bound(state, yard, events, 0, now, k, k, more);
}

} // verus!
