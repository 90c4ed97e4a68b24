//! What holds of the sheep that join a flock.

use vstd::prelude::*;

use crate::config::Config;
use crate::dice::next_seed;
use crate::flock::{
    caught_up, generations_of, handled_from, joined_by, ordinary_from, reared, run_from, ticked,
    topped_up, with_companion, with_more, with_ordinary, Pen, State, Yard, MAX_STEPS_PER_FRAME,
};
use crate::herding::leads;
use crate::laws::{a_step_keeps_the_sheep, same_sheep};
use crate::number::Number;
use crate::sheep::{Event, Sheep};

verus! {

/// Is the sheep as big, as fast and as much of a climber as the settings say?
pub open spec fn made_as<N>(s: Sheep<N>, cfg: Config<N>) -> bool {
    &&& s.scale == cfg.scale
    &&& s.speed == cfg.speed
    &&& s.climb_windows == cfg.climb_windows
}

/// Has the flock only grown, by sheep that are made as the settings say, are
/// in nobody's hands and are due to step at once?
pub open spec fn only_grown<N>(
    before: Seq<Pen<N>>,
    after: Seq<Pen<N>>,
    cfg: Config<N>,
    now: u64,
) -> bool {
    &&& leads(before, after)
    &&& forall|k: int|
        before.len() <= k < after.len() ==> {
            let pen = #[trigger] after[k];
            &&& made_as(pen.sheep, cfg)
            &&& pen.next_step == now
            &&& !pen.sheep.dragging
            &&& pen.sheep.toss is None
        }
}

proof fn lemma_grown_twice<N>(
    a: Seq<Pen<N>>,
    b: Seq<Pen<N>>,
    c: Seq<Pen<N>>,
    cfg: Config<N>,
    now: u64,
)
    requires
        only_grown(a, b, cfg, now),
        only_grown(b, c, cfg, now),
    ensures
        only_grown(a, c, cfg, now),
{
    let (n, m) = (a.len() as int, b.len() as int);
    assert(c.take(n) == c.take(m).take(n));
    assert forall|k: int| n <= k < c.len() implies ({
        let pen = #[trigger] c[k];
        &&& made_as(pen.sheep, cfg)
        &&& pen.next_step == now
        &&& !pen.sheep.dragging
        &&& pen.sheep.toss is None
    }) by {
        if k < m {
            assert(c[k] == c.take(m)[k]);
            assert(made_as(b[k].sheep, cfg));
        }
    }
}

proof fn lemma_not_grown<N>(a: Seq<Pen<N>>, cfg: Config<N>, now: u64)
    ensures
        only_grown(a, a, cfg, now),
{
    assert(a.take(a.len() as int) == a);
}

proof fn lemma_grown_by_one<N>(a: Seq<Pen<N>>, p: Pen<N>, cfg: Config<N>, now: u64)
    requires
        made_as(p.sheep, cfg),
        p.next_step == now,
        !p.sheep.dragging,
        p.sheep.toss is None,
    ensures
        only_grown(a, a.push(p), cfg, now),
{
    assert(a.push(p).take(a.len() as int) == a);
}

/// A companion comes as it was called: where the call says, in the animation
/// that the call says, with the personality and the workspace of the sheep
/// that called. It comes last, before those that it calls on itself, and gets
/// the next identity.
pub proof fn a_companion_comes_as_called<N: Number>(
    state: State<N>,
    yard: Yard<N>,
    call: Event<N>,
    now: u64,
    generations: nat,
)
    requires
        call is SpawnChild,
    ensures
        ({
            let after = with_companion(state, yard, call, now, generations).pens;
            let n = state.pens.len() as int;
            &&& n < after.len()
            &&& after[n].sheep.id == state.ids
            &&& after[n].sheep.is_child
            &&& after[n].sheep.x == call->x
            &&& after[n].sheep.y == call->y
            &&& after[n].sheep.animation == call->animation
            &&& after[n].sheep.step == 0
            &&& !after[n].sheep.flipped
            &&& after[n].sheep.rand_s == call->rand_s
            &&& after[n].sheep.workspace == call->workspace
            &&& made_as(after[n].sheep, yard.cfg)
            &&& after[n].next_step == now
        }),
{
    reveal(Sheep::entering);
    let sheep = Sheep {
        x: call->x,
        y: call->y,
        rand_s: call->rand_s,
        workspace: call->workspace,
        ..reared(state, yard, true)
    };
    let turn = sheep.beginning(
        yard.pet,
        yard.world,
        yard.tile,
        call->animation,
        next_seed(state.seed),
    );
    let joined = joined_by(state, turn, now);
    if generations > 0 {
        let less = (generations - 1) as nat;
        companions_are_made_as_the_settings_say(joined, yard, turn.events, 0, now, less);
        let after = with_companion(state, yard, call, now, generations).pens;
        let n = state.pens.len() as int;
        assert(after[n] == after.take(n + 1)[n]);
    }
}

proof fn lemma_companion_made<N: Number>(
    state: State<N>,
    yard: Yard<N>,
    call: Event<N>,
    now: u64,
    generations: nat,
)
    ensures
        only_grown(
            state.pens,
            with_companion(state, yard, call, now, generations).pens,
            yard.cfg,
            now,
        ),
    decreases generations, 0int,
{
    if call is SpawnChild {
        let sheep = Sheep {
            x: call->x,
            y: call->y,
            rand_s: call->rand_s,
            workspace: call->workspace,
            ..reared(state, yard, true)
        };
        let turn = sheep.beginning(
            yard.pet,
            yard.world,
            yard.tile,
            call->animation,
            next_seed(state.seed),
        );
        assert(made_as(turn.sheep, yard.cfg) && !turn.sheep.dragging && turn.sheep.toss is None)
            by {
            reveal(Sheep::entering);
        }
        let joined = joined_by(state, turn, now);
        lemma_grown_by_one(
            state.pens,
            Pen { sheep: turn.sheep, next_step: now },
            yard.cfg,
            now,
        );
        if generations > 0 {
            let less = (generations - 1) as nat;
            companions_are_made_as_the_settings_say(joined, yard, turn.events, 0, now, less);
            lemma_grown_twice(
                state.pens,
                joined.pens,
                with_companion(state, yard, call, now, generations).pens,
                yard.cfg,
                now,
            );
        }
    } else {
        lemma_not_grown(state.pens, yard.cfg, now);
    }
}

/// Every companion that comes on a call, in however many generations, is as
/// big, as fast and as much of a climber as the settings say, and is due to
/// step at once. Those who are there already are left as they are.
pub proof fn companions_are_made_as_the_settings_say<N: Number>(
    state: State<N>,
    yard: Yard<N>,
    events: Seq<Event<N>>,
    i: int,
    now: u64,
    generations: nat,
)
    requires
        0 <= i,
    ensures
        only_grown(
            state.pens,
            handled_from(state, yard, events, i, now, generations).pens,
            yard.cfg,
            now,
        ),
    decreases generations, events.len() - i,
{
    if i < events.len() {
        let next = with_companion(state, yard, events[i], now, generations);
        lemma_companion_made(state, yard, events[i], now, generations);
        companions_are_made_as_the_settings_say(next, yard, events, i + 1, now, generations);
        lemma_grown_twice(
            state.pens,
            next.pens,
            handled_from(state, yard, events, i, now, generations).pens,
            yard.cfg,
            now,
        );
    } else {
        lemma_not_grown(state.pens, yard.cfg, now);
    }
}

/// A sheep that is added is as big, as fast and as much of a climber as the
/// settings say, and so are the companions that come with it; all are due to
/// step at once. The sheep itself comes first of them, is nobody's companion
/// and gets the next identity.
pub proof fn an_added_sheep_is_made_as_the_settings_say<N: Number>(
    state: State<N>,
    yard: Yard<N>,
    now: u64,
)
    ensures
        only_grown(state.pens, with_ordinary(state, yard, now).pens, yard.cfg, now),
        state.pens.len() < with_ordinary(state, yard, now).pens.len(),
        ({
            let added = with_ordinary(state, yard, now).pens[state.pens.len() as int].sheep;
            !added.is_child && added.id == state.ids
        }),
{
    let turn = reared(state, yard, false).spawning(
        yard.pet,
        yard.world,
        yard.tile,
        next_seed(state.seed),
    );
    assert(made_as(turn.sheep, yard.cfg) && !turn.sheep.dragging && turn.sheep.toss is None
        && !turn.sheep.is_child && turn.sheep.id == state.ids) by {
        reveal(Sheep::spawning);
        reveal(Sheep::entering);
    }
    let joined = joined_by(state, turn, now);
    lemma_grown_by_one(state.pens, Pen { sheep: turn.sheep, next_step: now }, yard.cfg, now);
    companions_are_made_as_the_settings_say(
        joined,
        yard,
        turn.events,
        0,
        now,
        generations_of(yard),
    );
    let after = with_ordinary(state, yard, now).pens;
    lemma_grown_twice(state.pens, joined.pens, after, yard.cfg, now);
    let n = state.pens.len() as int;
    assert(after[n] == after.take(n + 1)[n]);
}

proof fn lemma_more_are_made<N: Number>(state: State<N>, yard: Yard<N>, n: nat, now: u64)
    ensures
        only_grown(state.pens, with_more(state, yard, n, now).pens, yard.cfg, now),
    decreases n,
{
    if n == 0 {
        lemma_not_grown(state.pens, yard.cfg, now);
    } else {
        let next = with_ordinary(state, yard, now);
        an_added_sheep_is_made_as_the_settings_say(state, yard, now);
        lemma_more_are_made(next, yard, (n - 1) as nat, now);
        lemma_grown_twice(
            state.pens,
            next.pens,
            with_more(state, yard, n, now).pens,
            yard.cfg,
            now,
        );
    }
}

/// Making the number up leaves the sheep there are as they are, and every
/// sheep that comes is made as the settings say.
pub proof fn a_topped_up_flock_is_made_as_the_settings_say<N: Number>(
    state: State<N>,
    yard: Yard<N>,
    now: u64,
)
    ensures
        only_grown(state.pens, topped_up(state, yard, now).pens, yard.cfg, now),
{
    let ordinary = ordinary_from(state.pens, 0);
    lemma_more_are_made(
        state,
        yard,
        if ordinary < yard.cfg.sheep {
            (yard.cfg.sheep - ordinary) as nat
        } else {
            0
        },
        now,
    );
}

/// Is the sheep one of those, whatever it has been up to since?
pub open spec fn is_one_of<N>(s: Sheep<N>, pens: Seq<Pen<N>>) -> bool {
    exists|i: int| 0 <= i < pens.len() && same_sheep(s, (#[trigger] pens[i]).sheep)
}

proof fn lemma_running_keeps_its_make<N: Number>(
    pen: Pen<N>,
    yard: Yard<N>,
    now: u64,
    n: nat,
    seed: u64,
)
    ensures
        same_sheep(caught_up(pen, yard, now, n, seed).pen.sheep, pen.sheep),
    decreases n,
{
    if n > 0 && pen.next_step <= now {
        let (turn, wait) = pen.sheep.stepping(yard.pet, yard.world, yard.tile, seed);
        a_step_keeps_the_sheep(pen.sheep, yard.pet, yard.world, yard.tile, seed);
        let next = Pen { sheep: turn.sheep, next_step: crate::flock::later(pen.next_step, wait) };
        lemma_running_keeps_its_make(next, yard, now, (n - 1) as nat, turn.seed);
    }
}

proof fn lemma_run_is_of_the_flock<N: Number>(
    pens: Seq<Pen<N>>,
    yard: Yard<N>,
    now: u64,
    i: int,
    seed: u64,
)
    requires
        0 <= i,
    ensures
        ({
            let out = run_from(pens, yard, now, i, seed).pens;
            forall|k: int| 0 <= k < out.len() ==> is_one_of((#[trigger] out[k]).sheep, pens)
        }),
    decreases pens.len() - i,
{
    if i < pens.len() {
        let run = caught_up(pens[i], yard, now, MAX_STEPS_PER_FRAME as nat, seed);
        lemma_running_keeps_its_make(pens[i], yard, now, MAX_STEPS_PER_FRAME as nat, seed);
        lemma_run_is_of_the_flock(pens, yard, now, i + 1, run.seed);
        let rest = run_from(pens, yard, now, i + 1, run.seed).pens;
        let out = run_from(pens, yard, now, i, seed).pens;
        let first = if run.events.contains(Event::Died) {
            0int
        } else {
            1int
        };
        assert forall|k: int| 0 <= k < out.len() implies is_one_of(
            (#[trigger] out[k]).sheep,
            pens,
        ) by {
            if k >= first {
                assert(out[k] == rest[k - first]);
            } else {
                assert(same_sheep(out[k].sheep, pens[i].sheep));
            }
        }
    }
}

/// After a frame every sheep is either one that was there before, of the same
/// make, or one that has come, made as the settings say and due at once.
pub proof fn a_frame_brings_only_sheep_as_the_settings_say<N: Number>(
    state: State<N>,
    yard: Yard<N>,
    now: u64,
)
    ensures
        forall|k: int|
            0 <= k < ticked(state, yard, now).pens.len() ==> {
                let pen = #[trigger] ticked(state, yard, now).pens[k];
                is_one_of(pen.sheep, state.pens) || (made_as(pen.sheep, yard.cfg) && pen.next_step
                    == now)
            },
{
    let run = run_from(state.pens, yard, now, 0, state.seed);
    lemma_run_is_of_the_flock(state.pens, yard, now, 0, state.seed);
    let after = State { pens: run.pens, seed: run.seed, ..state };
    let g = generations_of(yard);
    let handled = handled_from(after, yard, run.calls, 0, now, g);
    companions_are_made_as_the_settings_say(after, yard, run.calls, 0, now, g);
    a_topped_up_flock_is_made_as_the_settings_say(handled, yard, now);
    let end = ticked(state, yard, now).pens;
    lemma_grown_twice(after.pens, handled.pens, end, yard.cfg, now);
    assert forall|k: int| 0 <= k < end.len() implies ({
        let pen = #[trigger] end[k];
        is_one_of(pen.sheep, state.pens) || (made_as(pen.sheep, yard.cfg) && pen.next_step == now)
    }) by {
        if k < after.pens.len() {
            assert(end[k] == end.take(after.pens.len() as int)[k]);
            assert(is_one_of(run.pens[k].sheep, state.pens));
        }
    }
}

/// In a flock that is made as the settings say, every sheep is, frame after
/// frame.
pub proof fn a_frame_keeps_the_flock_as_the_settings_say<N: Number>(
    state: State<N>,
    yard: Yard<N>,
    now: u64,
)
    requires
        forall|k: int|
            0 <= k < state.pens.len() ==> made_as((#[trigger] state.pens[k]).sheep, yard.cfg),
    ensures
        forall|k: int|
            0 <= k < ticked(state, yard, now).pens.len() ==> made_as(
                (#[trigger] ticked(state, yard, now).pens[k]).sheep,
                yard.cfg,
            ),
{
    a_frame_brings_only_sheep_as_the_settings_say(state, yard, now);
}

} // verus!
