//! The flock: when each sheep is next due to step, who comes and who goes,
//! and what the mouse does to them.
//!
//! Times are nanoseconds on a clock of the host's own.

use vstd::prelude::*;

use crate::anim::Pet;
use crate::blit::to_i32;
use crate::config::Config;
use crate::dice::{next_seed, thrown, Dice};
use crate::number::{clamped, one, zero, Number};
use crate::sheep::{id_after, Event, Sheep, Turn};
use crate::world::{Rect, World};

verus! {

/// How often to re-read the window layout while the desktop is busy, so that
/// interactive drags and resizes are followed smoothly. The compositor reports
/// the start of a drag but not each step of it, so this is a poll.
pub const BUSY_REFRESH: u64 = 200_000_000;

/// How long after the last window actually moved the desktop counts as busy.
pub const SETTLE: u64 = 2_000_000_000;

/// How often to re-read it once everything has settled. An event wakes the
/// host the moment the compositor says anything, so this is only a safety net
/// against a change the event socket never mentioned.
pub const IDLE_REFRESH: u64 = 2_000_000_000;

/// Guard against a burst of catch-up steps after the compositor stalls us.
pub const MAX_STEPS_PER_FRAME: usize = 8;

/// How many nanoseconds a millisecond has.
pub const MILLI: u64 = 1_000_000;

/// A sheep and when it is next due to step.
#[derive(Debug)]
pub struct Pen<N> {
    pub sheep: Sheep<N>,
    pub next_step: u64,
}

impl<N: Copy> Copy for Pen<N> {

}

impl<N: Copy> Clone for Pen<N> {
    fn clone(&self) -> (r: Self)
        ensures
            r == *self,
    {
        *self
    }
}

/// Where the flock lives.
#[derive(Debug)]
pub struct Yard<N> {
    pub pet: Pet<N>,
    pub world: World<N>,
    /// How big the sheep are, in logical pixels.
    pub tile: N,
    pub cfg: Config<N>,
}

/// The sheep there are.
#[derive(Debug)]
pub struct Flock<N> {
    pub pens: Vec<Pen<N>>,
    /// The identity the next sheep gets.
    pub ids: u64,
    pub dice: Dice,
    /// The place of the sheep the pointer is pressed on, if any.
    pub pressed: Option<usize>,
}

/// The state of a flock.
pub struct State<N> {
    pub pens: Seq<Pen<N>>,
    pub ids: u64,
    pub seed: u64,
    pub pressed: Option<usize>,
}

impl<N> View for Flock<N> {
    type V = State<N>;

    open spec fn view(&self) -> State<N> {
        State {
            pens: self.pens@,
            ids: self.ids,
            seed: self.dice.seed,
            pressed: self.pressed,
        }
    }
}

// -- time --

/// So many milliseconds later, as far as the clock goes.
#[verifier::allow_in_spec]
pub fn later(t: u64, ms: u64) -> u64
    returns
        (if t + ms * MILLI > u64::MAX {
            u64::MAX
        } else {
            (t + ms * MILLI) as u64
        }),
{
    assert(ms * MILLI <= u64::MAX * 1_000_000) by (nonlinear_arith)
        requires
            ms <= u64::MAX,
            MILLI == 1_000_000,
    ;
    let sum: u128 = t as u128 + ms as u128 * MILLI as u128;
    if sum > u64::MAX as u128 {
        u64::MAX
    } else {
        sum as u64
    }
}

/// How often the window layout is worth re-reading: often enough to follow a
/// drag while one might be going on, rarely once it is over.
///
/// A pending event shortens the wait rather than forcing a query outright,
/// which bounds the cost of the bursts the compositor sends for things that
/// cannot move a window, such as a terminal retitling itself.
#[verifier::allow_in_spec]
pub fn refresh_interval(dirty: bool, since_change: u64) -> u64
    returns
        (if dirty || since_change < SETTLE {
            BUSY_REFRESH
        } else {
            IDLE_REFRESH
        }),
{
    if dirty || since_change < SETTLE {
        BUSY_REFRESH
    } else {
        IDLE_REFRESH
    }
}

/// The soonest of `soonest` and the steps due from place `i` on.
pub open spec fn soonest_from<N>(pens: Seq<Pen<N>>, i: int, soonest: u64) -> u64
    decreases pens.len() - i,
{
    if 0 <= i < pens.len() {
        soonest_from(
            pens,
            i + 1,
            if pens[i].next_step < soonest {
                pens[i].next_step
            } else {
                soonest
            },
        )
    } else {
        soonest
    }
}

// -- who comes --

/// A sheep as this flock would have it.
pub open spec fn reared<N: Number>(state: State<N>, yard: Yard<N>, is_child: bool) -> Sheep<N> {
    Sheep {
        scale: yard.cfg.scale,
        speed: yard.cfg.speed,
        climb_windows: yard.cfg.climb_windows,
        ..Sheep::fresh(state.ids, is_child, thrown::<N>(state.seed).times(N::whole(100)))
    }
}

/// The flock with one more sheep, due to step at once.
pub open spec fn joined_by<N: Number>(state: State<N>, turn: Turn<N>, now: u64) -> State<N> {
    State {
        pens: state.pens.push(Pen { sheep: turn.sheep, next_step: now }),
        ids: id_after(state.ids),
        seed: turn.seed,
        ..state
    }
}

/// The flock with a companion called on, and with the companions it calls on
/// in turn, for so many generations.
pub open spec fn with_companion<N: Number>(
    state: State<N>,
    yard: Yard<N>,
    call: Event<N>,
    now: u64,
    generations: nat,
) -> State<N>
    decreases generations, 0int,
{
    match call {
        Event::Died => state,
        Event::SpawnChild { animation, x, y, rand_s, workspace } => {
            let sheep = Sheep { x, y, rand_s, workspace, ..reared(state, yard, true) };
            let turn = sheep.beginning(
                yard.pet,
                yard.world,
                yard.tile,
                animation,
                next_seed(state.seed),
            );
            let joined = joined_by(state, turn, now);
            if generations == 0 {
                joined
            } else {
                handled_from(joined, yard, turn.events, 0, now, (generations - 1) as nat)
            }
        },
    }
}

/// The flock after the calls from place `i` on have been answered.
pub open spec fn handled_from<N: Number>(
    state: State<N>,
    yard: Yard<N>,
    events: Seq<Event<N>>,
    i: int,
    now: u64,
    generations: nat,
) -> State<N>
    decreases generations, events.len() - i,
{
    if 0 <= i < events.len() {
        let next = with_companion(state, yard, events[i], now, generations);
        handled_from(next, yard, events, i + 1, now, generations)
    } else {
        state
    }
}

/// How many generations of companions are called on at most: as many as the
/// pet has kinds, which is as far as any calls that ever end can go.
pub open spec fn generations_of<N: Number>(yard: Yard<N>) -> nat {
    yard.pet.children@.len()
}

/// The flock with an ordinary sheep more.
pub open spec fn with_ordinary<N: Number>(state: State<N>, yard: Yard<N>, now: u64) -> State<N> {
    let turn = reared(state, yard, false).spawning(
        yard.pet,
        yard.world,
        yard.tile,
        next_seed(state.seed),
    );
    handled_from(joined_by(state, turn, now), yard, turn.events, 0, now, generations_of(yard))
}

/// The flock with `n` ordinary sheep more.
pub open spec fn with_more<N: Number>(state: State<N>, yard: Yard<N>, n: nat, now: u64) -> State<N>
    decreases n,
{
    if n == 0 {
        state
    } else {
        with_more(with_ordinary(state, yard, now), yard, (n - 1) as nat, now)
    }
}

/// How many ordinary sheep there are from place `i` on.
pub open spec fn ordinary_from<N>(pens: Seq<Pen<N>>, i: int) -> nat
    decreases pens.len() - i,
{
    if 0 <= i < pens.len() {
        (if pens[i].sheep.is_child {
            0nat
        } else {
            1nat
        }) + ordinary_from(pens, i + 1)
    } else {
        0
    }
}

/// The flock brought up to the number of ordinary sheep that is wanted.
/// Companions are not counted: they come and go on their own.
pub open spec fn topped_up<N: Number>(state: State<N>, yard: Yard<N>, now: u64) -> State<N> {
    let ordinary = ordinary_from(state.pens, 0);
    with_more(
        state,
        yard,
        if ordinary < yard.cfg.sheep {
            (yard.cfg.sheep - ordinary) as nat
        } else {
            0
        },
        now,
    )
}

// -- a frame --

/// What running one sheep comes to: the sheep, what it called for, every
/// change of animation on the way, and the seed.
pub struct Run<N> {
    pub pen: Pen<N>,
    pub events: Seq<Event<N>>,
    pub moves: Seq<Sheep<N>>,
    pub seed: u64,
}

/// A sheep that has taken the steps that are due, but no more than `n`.
pub open spec fn caught_up<N: Number>(
    pen: Pen<N>,
    yard: Yard<N>,
    now: u64,
    n: nat,
    seed: u64,
) -> Run<N>
    decreases n,
{
    if n > 0 && pen.next_step <= now {
        let (turn, wait) = pen.sheep.stepping(yard.pet, yard.world, yard.tile, seed);
        let next = Pen { sheep: turn.sheep, next_step: later(pen.next_step, wait) };
        let rest = caught_up(next, yard, now, (n - 1) as nat, turn.seed);
        Run {
            pen: rest.pen,
            events: turn.events + rest.events,
            moves: (if turn.sheep.animation != pen.sheep.animation {
                seq![turn.sheep]
            } else {
                seq![]
            }) + rest.moves,
            seed: rest.seed,
        }
    } else {
        Run { pen, events: seq![], moves: seq![], seed }
    }
}

/// A sheep that fell far behind is brought up to now rather than left to
/// sprint.
pub open spec fn resynced<N>(pen: Pen<N>, now: u64) -> Pen<N> {
    Pen {
        next_step: if pen.next_step < now {
            now
        } else {
            pen.next_step
        },
        ..pen
    }
}

/// The calls for companions among the events.
pub open spec fn calls_in<N>(events: Seq<Event<N>>) -> Seq<Event<N>> {
    events.filter(|e: Event<N>| !(e is Died))
}

/// What running the whole flock comes to: the sheep that live on, the
/// companions called for, every change of animation, and the seed.
pub struct FlockRun<N> {
    pub pens: Seq<Pen<N>>,
    pub calls: Seq<Event<N>>,
    pub moves: Seq<Sheep<N>>,
    pub seed: u64,
}

/// The sheep from place `i` on, run one after another.
pub open spec fn run_from<N: Number>(
    pens: Seq<Pen<N>>,
    yard: Yard<N>,
    now: u64,
    i: int,
    seed: u64,
) -> FlockRun<N>
    decreases pens.len() - i,
{
    if 0 <= i < pens.len() {
        let run = caught_up(pens[i], yard, now, MAX_STEPS_PER_FRAME as nat, seed);
        let rest = run_from(pens, yard, now, i + 1, run.seed);
        FlockRun {
            pens: (if run.events.contains(Event::Died) {
                seq![]
            } else {
                seq![resynced(run.pen, now)]
            }) + rest.pens,
            calls: calls_in(run.events) + rest.calls,
            moves: run.moves + rest.moves,
            seed: rest.seed,
        }
    } else {
        FlockRun { pens: seq![], calls: seq![], moves: seq![], seed }
    }
}

/// The flock after a frame: everyone who is due has stepped, the dead are
/// gone, those called for have come, and the number is made up.
pub open spec fn ticked<N: Number>(state: State<N>, yard: Yard<N>, now: u64) -> State<N> {
    let run = run_from(state.pens, yard, now, 0, state.seed);
    let after = State { pens: run.pens, seed: run.seed, ..state };
    topped_up(
        handled_from(after, yard, run.calls, 0, now, generations_of(yard)),
        yard,
        now,
    )
}

// -- the mouse --

/// Does the sheep's sprite cover the point?
#[verifier::allow_in_spec]
pub fn covers<N: Number>(s: &Sheep<N>, x: N, y: N, tile: N) -> bool
    returns
        ({
            let top = s.y.plus(s.offset_y);
            s.x.at_most(x) && x.below(s.x.plus(tile)) && top.at_most(y) && y.below(top.plus(tile))
        }),
{
    let top = s.y.plus(s.offset_y);
    s.x.at_most(x) && x.below(s.x.plus(tile)) && top.at_most(y) && y.below(top.plus(tile))
}

/// The place of the last of the first `n` sheep that covers the point.
pub open spec fn topmost<N: Number>(pens: Seq<Pen<N>>, x: N, y: N, tile: N, n: int) -> Option<usize>
    decreases n,
{
    if 0 < n <= pens.len() {
        if covers(&pens[n - 1].sheep, x, y, tile) {
            Some((n - 1) as usize)
        } else {
            topmost(pens, x, y, tile, n - 1)
        }
    } else {
        None
    }
}

/// What one sheep looks like on screen, rounded to what actually gets drawn.
///
/// The scene is compared against the last one drawn, so a sheep that is
/// mid-nap - or simply between steps - costs nothing at all.
#[derive(Clone, Copy, Debug, PartialEq, Eq, Structural)]
pub struct Look {
    pub x: i32,
    pub y: i32,
    pub frame: u32,
    pub flipped: bool,
    pub alpha: u8,
}

/// What a sheep looks like.
#[verifier::allow_in_spec]
pub fn look_of<N: Number>(s: &Sheep<N>) -> Look
    returns
        ({
            let alpha = clamped(s.opacity, zero(), one()).times(N::whole(255)).to_u64();
            Look {
                x: to_i32(s.x.round()),
                y: to_i32(s.y.plus(s.offset_y).round()),
                frame: s.frame,
                flipped: s.flipped,
                alpha: if alpha > 255 {
                    255u8
                } else {
                    alpha as u8
                },
            }
        }),
{
    let alpha: u64 = clamped(s.opacity, zero(), one()).times(N::whole(255)).to_u64();
    Look {
        x: to_i32(s.x.round()),
        y: to_i32(s.y.plus(s.offset_y).round()),
        frame: s.frame,
        flipped: s.flipped,
        alpha: if alpha > 255 {
            255
        } else {
            alpha as u8
        },
    }
}

/// The squares of the sheep from place `i` on that can be seen.
pub open spec fn squares_from<N: Number>(
    pens: Seq<Pen<N>>,
    world: World<N>,
    tile: N,
    i: int,
) -> Seq<Rect<N>>
    decreases pens.len() - i,
{
    if 0 <= i < pens.len() {
        if pens[i].sheep.shown(&world, tile) {
            seq![pens[i].sheep.bounds(tile)] + squares_from(pens, world, tile, i + 1)
        } else {
            squares_from(pens, world, tile, i + 1)
        }
    } else {
        seq![]
    }
}

/// The flock with the pressed sheep following the mouse, taken hold of if it
/// was not yet.
pub open spec fn dragged<N: Number>(
    state: State<N>,
    yard: Yard<N>,
    i: int,
    x: N,
    y: N,
    now: u64,
) -> State<N> {
    let pen = state.pens[i];
    if pen.sheep.dragging {
        let moved = Pen { sheep: pen.sheep.dragged_to(x, y, yard.tile), ..pen };
        State { pens: state.pens.update(i, moved), ..state }
    } else {
        let turn = pen.sheep.grabbed(yard.pet, yard.world, yard.tile, state.seed);
        let moved = Pen { sheep: turn.sheep.dragged_to(x, y, yard.tile), next_step: now };
        State { pens: state.pens.update(i, moved), seed: turn.seed, ..state }
    }
}

/// The flock with the sheep let go of. With throwing off it is simply dropped,
/// however fast the mouse was.
pub open spec fn let_go<N: Number>(
    state: State<N>,
    yard: Yard<N>,
    i: int,
    vx: N,
    vy: N,
    now: u64,
) -> State<N> {
    let pen = state.pens[i];
    if pen.sheep.dragging {
        let (vx, vy) = if yard.cfg.throw {
            (vx, vy)
        } else {
            (zero(), zero())
        };
        let turn = pen.sheep.released(yard.pet, yard.world, yard.tile, vx, vy, state.seed);
        let free = State {
            pens: state.pens.update(i, Pen { sheep: turn.sheep, ..pen }),
            seed: turn.seed,
            ..state
        };
        handled_from(free, yard, turn.events, 0, now, generations_of(yard))
    } else {
        state
    }
}

impl<N: Number> Flock<N> {
    /// No sheep yet.
    pub fn new(dice: Dice) -> (r: Flock<N>)
        ensures
            r.pens@.len() == 0,
            r.ids == 1,
            r.dice == dice,
            r.pressed is None,
    {
        Flock { pens: Vec::new(), ids: 1, dice, pressed: None }
    }

    /// When the host next has something to do: the soonest sheep step, or the
    /// next layout poll.
    pub fn next_deadline(&self, refresh: u64) -> (r: u64)
        ensures
            r == soonest_from(self.pens@, 0, refresh),
    {
        let mut soonest: u64 = refresh;
        let mut i: usize = 0;
        while i < self.pens.len()
            invariant
                i <= self.pens@.len(),
                soonest_from(self.pens@, 0, refresh) == soonest_from(
                    self.pens@,
                    i as int,
                    soonest,
                ),
            decreases self.pens@.len() - i,
        {
            if self.pens[i].next_step < soonest {
                soonest = self.pens[i].next_step;
            }
            i = i + 1;
        }
        soonest
    }

    /// How the flock currently looks, in the terms the drawing code uses.
    pub fn scene(&self) -> (r: Vec<Look>)
        ensures
            r@ == self.pens@.map_values(|p: Pen<N>| look_of(&p.sheep)),
    {
        let ghost all = self.pens@.map_values(|p: Pen<N>| look_of(&p.sheep));
        let mut out: Vec<Look> = Vec::new();
        let mut i: usize = 0;
        while i < self.pens.len()
            invariant
                i <= self.pens@.len(),
                all == self.pens@.map_values(|p: Pen<N>| look_of(&p.sheep)),
                out@ == all.take(i as int),
            decreases self.pens@.len() - i,
        {
            out.push(look_of(&self.pens[i].sheep));
            i = i + 1;
            assert(all.take(i as int) == all.take(i - 1).push(all[i - 1]));
        }
        assert(all.take(i as int) == all);
        out
    }

    /// The sheep themselves.
    pub fn members(&self) -> (r: Vec<Sheep<N>>)
        ensures
            r@ == self.pens@.map_values(|p: Pen<N>| p.sheep),
    {
        let ghost all = self.pens@.map_values(|p: Pen<N>| p.sheep);
        let mut out: Vec<Sheep<N>> = Vec::new();
        let mut i: usize = 0;
        while i < self.pens.len()
            invariant
                i <= self.pens@.len(),
                all == self.pens@.map_values(|p: Pen<N>| p.sheep),
                out@ == all.take(i as int),
            decreases self.pens@.len() - i,
        {
            out.push(self.pens[i].sheep);
            i = i + 1;
            assert(all.take(i as int) == all.take(i - 1).push(all[i - 1]));
        }
        assert(all.take(i as int) == all);
        out
    }

    /// Where the sheep are that can be seen, as the rest of the flock sees
    /// them.
    pub fn squares(&self, world: &World<N>, tile: N) -> (r: Vec<Rect<N>>)
        ensures
            r@ == squares_from(self.pens@, *world, tile, 0),
    {
        let mut out: Vec<Rect<N>> = Vec::new();
        let mut i: usize = 0;
        while i < self.pens.len()
            invariant
                i <= self.pens@.len(),
                squares_from(self.pens@, *world, tile, 0) == out@ + squares_from(
                    self.pens@,
                    *world,
                    tile,
                    i as int,
                ),
            decreases self.pens@.len() - i,
        {
            let s = &self.pens[i].sheep;
            if s.shown(world, tile) {
                let ghost before = out@;
                let square = s.bounds(tile);
                out.push(square);
                assert(before + (seq![square] + squares_from(self.pens@, *world, tile, i + 1))
                    == out@ + squares_from(self.pens@, *world, tile, i + 1));
            }
            i = i + 1;
        }
        assert(out@ + squares_from(self.pens@, *world, tile, i as int) == out@);
        out
    }

    /// The topmost sheep whose sprite covers a global point.
    pub fn sheep_at(&self, x: N, y: N, tile: N) -> (r: Option<usize>)
        ensures
            r == topmost(self.pens@, x, y, tile, self.pens@.len() as int),
    {
        let mut n: usize = self.pens.len();
        while n > 0
            invariant
                n <= self.pens@.len(),
                topmost(self.pens@, x, y, tile, self.pens@.len() as int) == topmost(
                    self.pens@,
                    x,
                    y,
                    tile,
                    n as int,
                ),
            decreases n,
        {
            if covers(&self.pens[n - 1].sheep, x, y, tile) {
                return Some(n - 1);
            }
            n = n - 1;
        }
        None
    }

    /// Rears a sheep.
    fn rear(&mut self, yard: &Yard<N>, is_child: bool) -> (r: Sheep<N>)
        ensures
            r == reared(old(self)@, *yard, is_child),
            final(self)@ == (State {
                ids: id_after(old(self)@.ids),
                seed: next_seed(old(self)@.seed),
                ..old(self)@
            }),
            final(self).pressed == old(self).pressed,
    {
        let mut sheep: Sheep<N> = Sheep::new(is_child, &mut self.ids, &mut self.dice);
        sheep.scale = yard.cfg.scale;
        sheep.speed = yard.cfg.speed;
        sheep.climb_windows = yard.cfg.climb_windows;
        sheep
    }

    /// Calls a companion on. It is a fully independent sheep that dies rather
    /// than respawning when its chain ends.
    fn add_companion(&mut self, yard: &Yard<N>, call: Event<N>, now: u64, generations: usize)
        ensures
            final(self)@ == with_companion(old(self)@, *yard, call, now, generations as nat),
            final(self).pressed == old(self).pressed,
        decreases generations, 0int,
    {
        let Event::SpawnChild { animation, x, y, rand_s, workspace } = call else {
            return ;
        };
        let mut sheep = self.rear(yard, true);
        sheep.x = x;
        sheep.y = y;
        sheep.set_rand_s(rand_s);
        sheep.workspace = workspace;
        let mut events: Vec<Event<N>> = Vec::new();
        sheep.begin(&yard.pet, &yard.world, yard.tile, animation, &mut events, &mut self.dice);
        self.pens.push(Pen { sheep, next_step: now });
        if generations > 0 {
            self.handle(yard, &events, now, generations - 1);
        }
    }

    /// Answers calls for companions. Should a pet's companions call on one
    /// another in a circle, the calls stop after `generations` of them.
    pub fn handle(&mut self, yard: &Yard<N>, events: &Vec<Event<N>>, now: u64, generations: usize)
        ensures
            final(self)@ == handled_from(
                old(self)@,
                *yard,
                events@,
                0,
                now,
                generations as nat,
            ),
            final(self).pressed == old(self).pressed,
        decreases generations, events@.len() + 1,
    {
        let ghost start = self@;
        let mut i: usize = 0;
        while i < events.len()
            invariant
                i <= events@.len(),
                start == old(self)@,
                self.pressed == old(self).pressed,
                handled_from(start, *yard, events@, 0, now, generations as nat) == handled_from(
                    self@,
                    *yard,
                    events@,
                    i as int,
                    now,
                    generations as nat,
                ),
            decreases events@.len() - i,
        {
            self.add_companion(yard, events[i], now, generations);
            i = i + 1;
        }
    }

    /// Adds an ordinary sheep at one of the pet's spawn points.
    pub fn add_sheep(&mut self, yard: &Yard<N>, now: u64)
        ensures
            final(self)@ == with_ordinary(old(self)@, *yard, now),
            final(self).pressed == old(self).pressed,
    {
        let mut sheep = self.rear(yard, false);
        let mut events: Vec<Event<N>> = Vec::new();
        sheep.spawn(&yard.pet, &yard.world, yard.tile, &mut events, &mut self.dice);
        self.pens.push(Pen { sheep, next_step: now });
        self.handle(yard, &events, now, yard.pet.children.len());
    }

    /// How many ordinary sheep there are.
    fn ordinary(&self) -> (r: usize)
        ensures
            r == ordinary_from(self.pens@, 0),
    {
        let mut n: usize = 0;
        let mut i: usize = 0;
        while i < self.pens.len()
            invariant
                n <= i <= self.pens@.len(),
                ordinary_from(self.pens@, 0) == n + ordinary_from(self.pens@, i as int),
            decreases self.pens@.len() - i,
        {
            if !self.pens[i].sheep.is_child {
                n = n + 1;
            }
            i = i + 1;
        }
        n
    }

    /// Keep the configured number of ordinary sheep on screen. Companions are
    /// not counted: they come and go on their own.
    pub fn top_up_flock(&mut self, yard: &Yard<N>, now: u64)
        ensures
            final(self)@ == topped_up(old(self)@, *yard, now),
            final(self).pressed == old(self).pressed,
    {
        let ghost start = self@;
        let ordinary: usize = self.ordinary();
        let mut missing: usize = if ordinary < yard.cfg.sheep {
            yard.cfg.sheep - ordinary
        } else {
            0
        };
        while missing > 0
            invariant
                topped_up(start, *yard, now) == with_more(self@, *yard, missing as nat, now),
                self.pressed == old(self).pressed,
            decreases missing,
        {
            self.add_sheep(yard, now);
            missing = missing - 1;
        }
    }

    /// Runs one sheep up to now.
    fn catch_up(
        pen: &mut Pen<N>,
        yard: &Yard<N>,
        now: u64,
        events: &mut Vec<Event<N>>,
        moves: &mut Vec<Sheep<N>>,
        dice: &mut Dice,
    )
        ensures
            ({
                let run = caught_up(
                    *old(pen),
                    *yard,
                    now,
                    MAX_STEPS_PER_FRAME as nat,
                    old(dice).seed,
                );
                &&& *final(pen) == run.pen
                &&& final(events)@ == old(events)@ + run.events
                &&& final(moves)@ == old(moves)@ + run.moves
                &&& final(dice).seed == run.seed
            }),
    {
        let ghost run = caught_up(*pen, *yard, now, MAX_STEPS_PER_FRAME as nat, dice.seed);
        let ghost heard = events@;
        let ghost logged = moves@;
        let mut left: usize = MAX_STEPS_PER_FRAME;
        assert(events@ + run.events == heard + run.events);
        while left > 0 && pen.next_step <= now
            invariant
                ({
                    let rest = caught_up(*pen, *yard, now, left as nat, dice.seed);
                    &&& run.pen == rest.pen
                    &&& heard + run.events == events@ + rest.events
                    &&& logged + run.moves == moves@ + rest.moves
                    &&& run.seed == rest.seed
                }),
            decreases left,
        {
            let ghost said = events@;
            let ghost moved = moves@;
            let ghost rest = caught_up(*pen, *yard, now, left as nat, dice.seed);
            let before: u32 = pen.sheep.animation;
            let wait = pen.sheep.step(&yard.pet, &yard.world, yard.tile, events, dice);
            pen.next_step = later(pen.next_step, wait);
            // Log inside the loop: several steps can run between frames,
            // and sampling afterwards hides the transitions in between.
            if pen.sheep.animation != before {
                moves.push(pen.sheep);
            }
            left = left - 1;
            proof {
                let after = caught_up(*pen, *yard, now, left as nat, dice.seed);
                assert(said + rest.events == events@ + after.events);
                assert(moved + rest.moves == moves@ + after.moves);
            }
        }
        assert(events@ == heard + run.events);
        assert(moves@ == logged + run.moves);
    }

    /// Is there a death among the events?
    fn died(events: &Vec<Event<N>>) -> (r: bool)
        ensures
            r == events@.contains(Event::Died),
    {
        let mut i: usize = 0;
        while i < events.len()
            invariant
                i <= events@.len(),
                forall|j: int| 0 <= j < i ==> !(#[trigger] events@[j] is Died),
            decreases events@.len() - i,
        {
            match events[i] {
                Event::Died => {
                    assert(events@[i as int] == Event::<N>::Died);
                    return true;
                },
                _ => {},
            }
            i = i + 1;
        }
        false
    }

    /// Collects the calls for companions among the events.
    fn collect_calls(calls: &mut Vec<Event<N>>, events: &Vec<Event<N>>)
        ensures
            final(calls)@ == old(calls)@ + calls_in(events@),
    {
        let ghost test = |e: Event<N>| !(e is Died);
        let mut i: usize = 0;
        assert(events@.take(0).filter(test) == Seq::<Event<N>>::empty()) by {
            reveal(Seq::filter);
        }
        while i < events.len()
            invariant
                i <= events@.len(),
                test == |e: Event<N>| !(e is Died),
                calls@ == old(calls)@ + events@.take(i as int).filter(test),
            decreases events@.len() - i,
        {
            proof {
                reveal(Seq::filter);
                assert(events@.take(i + 1).drop_last() == events@.take(i as int));
            }
            match events[i] {
                Event::Died => {},
                e => {
                    calls.push(e);
                },
            }
            i = i + 1;
        }
        assert(events@.take(i as int) == events@);
    }

    /// Runs every sheep that is due, buries the dead, brings on those called
    /// for and makes up the number. Returns the sheep as they were at every
    /// change of animation on the way.
    pub fn tick(&mut self, yard: &Yard<N>, now: u64) -> (r: Vec<Sheep<N>>)
        ensures
            final(self)@ == ticked(old(self)@, *yard, now),
            r@ == run_from(old(self)@.pens, *yard, now, 0, old(self)@.seed).moves,
            final(self).pressed == old(self).pressed,
    {
        let ghost all = self.pens@;
        let ghost whole = run_from(all, *yard, now, 0, self.dice.seed);
        let mut alive: Vec<Pen<N>> = Vec::new();
        let mut calls: Vec<Event<N>> = Vec::new();
        let mut moves: Vec<Sheep<N>> = Vec::new();
        let mut i: usize = 0;
        while i < self.pens.len()
            invariant
                i <= self.pens@.len(),
                self.pens@ == all,
                self.ids == old(self).ids,
                self.pressed == old(self).pressed,
                ({
                    let rest = run_from(all, *yard, now, i as int, self.dice.seed);
                    &&& whole.pens == alive@ + rest.pens
                    &&& whole.calls == calls@ + rest.calls
                    &&& whole.moves == moves@ + rest.moves
                    &&& whole.seed == rest.seed
                }),
            decreases self.pens@.len() - i,
        {
            let ghost before = alive@;
            let ghost called = calls@;
            let ghost moved = moves@;
            let ghost rest = run_from(all, *yard, now, i as int, self.dice.seed);
            let mut pen: Pen<N> = self.pens[i];
            let mut events: Vec<Event<N>> = Vec::new();
            Self::catch_up(&mut pen, yard, now, &mut events, &mut moves, &mut self.dice);
            let ghost run = caught_up(
                all[i as int],
                *yard,
                now,
                MAX_STEPS_PER_FRAME as nat,
                rest.seed,
            );
            // If it fell far behind, resynchronise rather than sprinting.
            if pen.next_step < now {
                pen.next_step = now;
            }
            if !Self::died(&events) {
                alive.push(pen);
            }
            Self::collect_calls(&mut calls, &events);
            i = i + 1;
            proof {
                let after = run_from(all, *yard, now, i as int, self.dice.seed);
                assert(before + rest.pens == alive@ + after.pens);
                assert(called + rest.calls == calls@ + after.calls);
                assert(moved + rest.moves == moves@ + after.moves);
            }
        }
        assert(alive@ == whole.pens);
        assert(calls@ == whole.calls);
        assert(moves@ == whole.moves);
        self.pens = alive;
        self.handle(yard, &calls, now, yard.pet.children.len());
        self.top_up_flock(yard, now);
        moves
    }

    /// The mouse button went down at a point.
    pub fn press(&mut self, x: N, y: N, tile: N)
        ensures
            final(self)@ == (State {
                pressed: topmost(
                    old(self).pens@,
                    x,
                    y,
                    tile,
                    old(self).pens@.len() as int,
                ),
                ..old(self)@
            }),
    {
        self.pressed = self.sheep_at(x, y, tile);
    }

    /// The mouse moved to a point. A click alone does not pick the sheep up;
    /// it takes a press followed by movement.
    pub fn motion(&mut self, yard: &Yard<N>, x: N, y: N, now: u64)
        ensures
            final(self).pressed == old(self).pressed,
            final(self)@ == match old(self).pressed {
                Some(i) if i < old(self).pens@.len() => dragged(
                    old(self)@,
                    *yard,
                    i as int,
                    x,
                    y,
                    now,
                ),
                _ => old(self)@,
            },
    {
        let Some(i) = self.pressed else {
            return ;
        };
        if i >= self.pens.len() {
            return ;
        }
        let mut pen: Pen<N> = self.pens[i];
        if !pen.sheep.dragging {
            pen.sheep.grab(&yard.pet, &yard.world, yard.tile, &mut self.dice);
            pen.next_step = now;
        }
        pen.sheep.drag_to(x, y, yard.tile);
        self.pens.set(i, pen);
    }

    /// The mouse button came up, with the mouse still travelling at `vx`,
    /// `vy`.
    pub fn release(&mut self, yard: &Yard<N>, vx: N, vy: N, now: u64)
        ensures
            final(self).pressed is None,
            ({
                let free = State { pressed: None, ..old(self)@ };
                final(self)@ == match old(self).pressed {
                    Some(i) if i < old(self).pens@.len() => let_go(
                        free,
                        *yard,
                        i as int,
                        vx,
                        vy,
                        now,
                    ),
                    _ => free,
                }
            }),
    {
        let Some(i) = self.pressed else {
            return ;
        };
        self.pressed = None;
        if i >= self.pens.len() {
            return ;
        }
        let mut pen: Pen<N> = self.pens[i];
        if !pen.sheep.dragging {
            return ;
        }
        let (vx, vy) = if yard.cfg.throw {
            (vx, vy)
        } else {
            (zero(), zero())
        };
        let mut events: Vec<Event<N>> = Vec::new();
        pen.sheep.release(
            &yard.pet,
            &yard.world,
            yard.tile,
            vx,
            vy,
            &mut events,
            &mut self.dice,
        );
        self.pens.set(i, pen);
        self.handle(yard, &events, now, yard.pet.children.len());
    }

    /// The mouse left the overlay.
    pub fn leave(&mut self)
        ensures
            final(self)@ == (State { pressed: None, ..old(self)@ }),
    {
        self.pressed = None;
    }
}

} // verus!
