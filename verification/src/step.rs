//! The sheep state machine: one `step()` per animation frame.
//!
//! Movement, gravity and collision all come out of the pet data rather than a
//! physics simulation - `<start>`/`<end>` carry per-step velocities that ramp
//! across the sequence, so e.g. falling accelerates because the XML says so.

use vstd::prelude::*;

use crate::anim::{chosen, seed_after_choice, Action, Animation, Next, Only, Pet, Situation};
use crate::dice::{next_seed, thrown, Dice};
use crate::expr::{eval_or, seed_after, value_or, Ctx};
use crate::number::{at_least, clamped, one, ratio, within_two, zero, Number};
use crate::senses::{first_where, stopping_face};
use crate::sheep::{half, side_reach, Event, Sheep, Turn};
use crate::world::{Rect, Screen, World};

verus! {

/// How far past a window's edge the sheep will still step back on. Beyond
/// this it is not a ledge any more: the window moved out from under it.
pub const NUDGE_REACH: i64 = 40;

/// How often a window's side that is not being climbed turns the sheep back.
/// The rest of the time it is walked through, as it would be with the sides
/// left open. Screen edges are unaffected: those are always walls.
#[verifier::allow_in_spec]
pub fn turn_at_face<N: Number>() -> N
    returns
        ratio::<N>(1, 5),
{
    ratio(1, 5)
}

/// How often meeting another sheep turns this one back. The rest of the time
/// it walks on past: a sheep is not a wall to another sheep, and a flock that
/// always turned would never mingle.
#[verifier::allow_in_spec]
pub fn turn_at_sheep<N: Number>() -> N
    returns
        ratio::<N>(3, 4),
{
    ratio(3, 4)
}

/// How far off a resting pointer can be and still be worth walking over to
/// look at, in logical pixels. Scaled with the sheep, like every other
/// distance in here.
pub const POINTER_REACH: i64 = 250;

/// While being dragged the sheep ignores physics and ticks at a fixed rate, in
/// milliseconds.
pub const DRAG_INTERVAL: u64 = 50;

/// How often a thrown sheep is moved along its arc, in milliseconds. The pet
/// file's own steps are far too coarse for one, so a throw runs on its own
/// clock - and unlike every other animation, `speed` does not touch it. A
/// throw is the one thing the sheep does not choose to do: it is the mouse's
/// velocity carried on, and watching a hurried sheep cross the screen faster
/// than it was flung looks wrong in a way that a hurried walk does not.
pub const TOSS_INTERVAL: u64 = 25;

/// The same in seconds.
#[verifier::allow_in_spec]
pub fn toss_seconds<N: Number>() -> N
    returns
        ratio::<N>(25, 1000),
{
    ratio(25, 1000)
}

/// Downward acceleration of a thrown sheep, in logical pixels per second
/// squared. Scaled with the sheep, like every other motion in here, so a big
/// one arcs like a small one seen from closer up.
pub const TOSS_GRAVITY: i64 = 2400;

/// The shortest a step is ever held for, in milliseconds. It is what stops a
/// fast sheep from spinning the event loop.
pub const LEAST_WAIT: u64 = 10;

/// How far along an animation a value is read: values ramp linearly from the
/// start endpoint to the end endpoint across the sequence.
#[derive(Clone, Copy, Debug)]
pub struct Ramp {
    pub at: u32,
    pub steps: u32,
}

impl Ramp {
    /// The value between `a` and `b`.
    #[verifier::allow_in_spec]
    pub fn mix<N: Number>(&self, a: N, b: N) -> N
        returns
            a.plus(
                b.minus(a).times(N::whole(self.at as i64)).over(
                    N::whole(
                        if self.steps < 1 {
                            1
                        } else {
                            self.steps as i64
                        },
                    ),
                ),
            ),
    {
        let steps: i64 = if self.steps < 1 {
            1
        } else {
            self.steps as i64
        };
        a.plus(b.minus(a).times(N::whole(self.at as i64)).over(N::whole(steps)))
    }

    /// The value between what two expressions come to, and the seed.
    pub open spec fn along<N: Number>(
        self,
        a: Seq<char>,
        b: Seq<char>,
        ctx: Ctx<N>,
        seed: u64,
    ) -> (N, u64) {
        let seed_a = seed_after(a, ctx, seed);
        (
            self.mix(value_or(a, ctx, zero(), seed), value_or(b, ctx, zero(), seed_a)),
            seed_after(b, ctx, seed_a),
        )
    }

    /// Reads a value between what two expressions come to.
    pub fn run<N: Number>(&self, a: &str, b: &str, ctx: &Ctx<N>, dice: &mut Dice) -> (r: N)
        ensures
            (r, final(dice).seed) == self.along(a@, b@, *ctx, old(dice).seed),
    {
        let from = eval_or(a, ctx, zero(), dice);
        let to = eval_or(b, ctx, zero(), dice);
        self.mix(from, to)
    }
}

/// What stops a walking sheep: where it is held, and the animation that it
/// turns to.
pub struct Stop<N> {
    pub at: Option<N>,
    pub next: Option<u32>,
}

/// Nothing in the way.
pub open spec fn no_stop<N>() -> Stop<N> {
    Stop { at: None, next: None }
}

/// What the edges around a sheep did to it.
#[derive(Clone, Copy, Debug, PartialEq, Eq, Structural)]
pub struct Contact {
    /// It ran into one.
    pub hit: bool,
    /// It was stepped back onto a ledge it had just walked off, which counts
    /// as still having support.
    pub nudged: bool,
    /// It climbed onto level ground.
    pub arrived: bool,
}

/// Where a choice leads.
#[verifier::allow_in_spec]
pub fn target_of<N: Number>(pick: Option<Next<N>>) -> Option<u32>
    returns
        (match pick {
            Some(n) => Some(n.target),
            None => None,
        }),
{
    match pick {
        Some(n) => Some(n.target),
        None => None,
    }
}

/// The situation of a sheep that has run into something flat.
pub open spec fn plain() -> Situation {
    Situation { on_window: false, on_taskbar: false, on_vertical: false, on_horizontal: false }
}

/// What deciding after a step's movement comes to: a turn, and the animation
/// to move to.
pub struct Verdict<N> {
    pub turn: Turn<N>,
    pub next: Option<u32>,
}

/// Nothing happens but what already has.
pub open spec fn quiet<N>(sheep: Sheep<N>, next: Option<u32>, seed: u64) -> Verdict<N> {
    Verdict { turn: Turn { sheep, events: seq![], seed }, next }
}

impl<N: Number> Sheep<N> {
    // -- 1. the end of a sequence --

    /// Coming to the end of an animation. A throw keeps falling; otherwise
    /// the pet's own table says what comes next, and at the end of the road
    /// children die and ordinary sheep start over.
    #[verifier::opaque]
    pub open spec fn finishing(
        self,
        pet: Pet<N>,
        world: World<N>,
        tile: N,
        anim: Animation<N>,
        supported: bool,
        seed: u64,
    ) -> Verdict<N> {
        if self.toss is Some {
            quiet(Sheep { step: 0, ..self }, None, seed)
        } else {
            let turned = Sheep { flipped: self.flipped != (anim.action is Flip), ..self };
            let sheep = turned.situated(world, tile, supported);
            let seed_next = seed_after_choice(anim.next@, sheep.situation, seed);
            match chosen(anim.next@, sheep.situation, seed) {
                Some(n) => quiet(sheep, Some(n.target), seed_next),
                None => if self.is_child {
                    Verdict {
                        turn: Turn { sheep, events: seq![Event::Died], seed: seed_next },
                        next: None,
                    }
                } else {
                    Verdict { turn: sheep.spawning(pet, world, tile, seed_next), next: None }
                },
            }
        }
    }

    /// Come to the end of an animation.
    fn finish(
        &mut self,
        pet: &Pet<N>,
        world: &World<N>,
        tile: N,
        anim: &Animation<N>,
        supported: bool,
        events: &mut Vec<Event<N>>,
        dice: &mut Dice,
    ) -> (r: Option<u32>)
        ensures
            ({
                let v = old(self).finishing(
                    *pet,
                    *world,
                    tile,
                    *anim,
                    supported,
                    old(dice).seed,
                );
                &&& *final(self) == v.turn.sheep
                &&& final(events)@ == old(events)@ + v.turn.events
                &&& final(dice).seed == v.turn.seed
                &&& r == v.next
            }),
    {
        reveal(Sheep::finishing);
        reveal(Sheep::situated);
        // A throw that outlasts the falling sequence keeps falling, rather
        // than resolving into something else in mid-air.
        if self.toss.is_some() {
            self.step = 0;
            return None;
        }
        if anim.action == Action::Flip {
            self.flipped = !self.flipped;
        }
        self.update_situation(world, tile, supported);
        match pet.pick_next(anim.next.as_slice(), self.situation, dice) {
            Some(n) => Some(n.target),
            None => {
                if self.is_child {
                    events.push(Event::Died);
                } else {
                    self.spawn(pet, world, tile, events, dice);
                }
                None
            },
        }
    }

    // -- 2. what is in the way --

    /// Is the sheep still over the window it is walking through?
    #[verifier::allow_in_spec]
    pub fn within(&self, r: Option<Rect<N>>, tile: N) -> bool
        returns
            (match r {
                Some(r) => r.spans(self.x, tile),
                None => false,
            }),
    {
        match r {
            Some(r) => r.spans(self.x, tile),
            None => false,
        }
    }

    /// The sheep, having put behind it what it is clear of. A window whose
    /// side was walked through is solid again, and a sheep walked past is in
    /// the way again, once the two have come apart.
    #[verifier::opaque]
    pub open spec fn clear_of_passed(self, world: World<N>, tile: N) -> Sheep<N> {
        Sheep {
            passing: match self.passing {
                Some(id) if self.within(world.window(id), tile) => Some(id),
                _ => None,
            },
            passing_sheep: match self.passing_sheep {
                Some(id) if self.touching(&world, id, tile) => Some(id),
                _ => None,
            },
            ..self
        }
    }

    /// Put behind what the sheep is clear of.
    fn forget_passed(&mut self, world: &World<N>, tile: N)
        ensures
            *final(self) == old(self).clear_of_passed(*world, tile),
    {
        reveal(Sheep::clear_of_passed);
        if let Some(id) = self.passing {
            if !self.within(world.find(id), tile) {
                self.passing = None;
            }
        }
        if let Some(id) = self.passing_sheep {
            if !self.touching(world, id, tile) {
                self.passing_sheep = None;
            }
        }
    }

    /// Meeting a window's side. The pet's own table decides whether this is a
    /// climb; if it is not, the side turns the sheep back only now and then,
    /// and is otherwise walked through. An animation that declares no border
    /// table is not asking to be stopped, and windows are not there for it.
    #[verifier::opaque]
    pub open spec fn at_face(
        self,
        world: World<N>,
        tile: N,
        anim: Animation<N>,
        x2: N,
        supported: bool,
        seed: u64,
    ) -> (Sheep<N>, Stop<N>, u64) {
        match stopping_face(
            world.windows@.filter(self.solid(tile)),
            self.x,
            tile,
            side_reach(self.scale),
            x2,
        ) {
            Some((id, edge)) if anim.border@.len() > 0 => {
                let held = Sheep { x: edge, ..self }.situated(world, tile, supported);
                let pick = chosen(anim.border@, held.situation, seed);
                let seed_pick = seed_after_choice(anim.border@, held.situation, seed);
                if pick is Some && (pick->0).only is Vertical {
                    (held, Stop { at: Some(edge), next: target_of(pick) }, seed_pick)
                } else if thrown::<N>(seed_pick).below(turn_at_face()) {
                    (held, Stop { at: Some(edge), next: target_of(pick) }, next_seed(seed_pick))
                } else {
                    (Sheep { x: self.x, passing: Some(id), ..held }, no_stop(), next_seed(
                        seed_pick,
                    ))
                }
            },
            _ => (self, no_stop(), seed),
        }
    }

    /// Meet a window's side.
    fn meet_face(
        &mut self,
        pet: &Pet<N>,
        world: &World<N>,
        tile: N,
        anim: &Animation<N>,
        x2: N,
        supported: bool,
        dice: &mut Dice,
    ) -> (r: Stop<N>)
        ensures
            (*final(self), r, final(dice).seed) == old(self).at_face(
                *world,
                tile,
                *anim,
                x2,
                supported,
                old(dice).seed,
            ),
    {
        reveal(Sheep::at_face);
        reveal(chosen);
        if anim.border.len() == 0 {
            return Stop { at: None, next: None };
        }
        let Some((id, edge)) = self.window_side(world, tile, x2) else {
            return Stop { at: None, next: None };
        };
        let stood_at = self.x;
        self.x = edge;
        self.update_situation(world, tile, supported);
        let pick = pet.pick_next(anim.border.as_slice(), self.situation, dice);
        let climbs = match pick {
            Some(n) => n.only == Only::Vertical,
            None => false,
        };
        if climbs || dice.throw::<N>().below(turn_at_face()) {
            Stop { at: Some(edge), next: target_of(pick) }
        } else {
            self.x = stood_at;
            self.passing = Some(id);
            Stop { at: None, next: None }
        }
    }

    /// Meeting another sheep: more often than not the sheep turns, the way the
    /// pet file turns on running into something flat; else it walks on past.
    pub open spec fn at_sheep(
        self,
        world: World<N>,
        tile: N,
        anim: Animation<N>,
        x2: N,
        seed: u64,
    ) -> (Sheep<N>, Stop<N>, u64) {
        match self.spec_sheep_face(world, tile, x2) {
            Some((id, edge)) => if thrown::<N>(seed).below(turn_at_sheep()) {
                (
                    self,
                    Stop {
                        at: Some(edge),
                        next: target_of(chosen(anim.border@, plain(), next_seed(seed))),
                    },
                    seed_after_choice(anim.border@, plain(), next_seed(seed)),
                )
            } else {
                (Sheep { passing_sheep: Some(id), ..self }, no_stop(), next_seed(seed))
            },
            None => (self, no_stop(), seed),
        }
    }

    /// Meet another sheep.
    fn meet_sheep(
        &mut self,
        pet: &Pet<N>,
        world: &World<N>,
        tile: N,
        anim: &Animation<N>,
        x2: N,
        dice: &mut Dice,
    ) -> (r: Stop<N>)
        ensures
            (*final(self), r, final(dice).seed) == old(self).at_sheep(
                *world,
                tile,
                *anim,
                x2,
                old(dice).seed,
            ),
    {
        let Some((id, edge)) = self.sheep_face(world, tile, x2) else {
            return Stop { at: None, next: None };
        };
        if dice.throw::<N>().below(turn_at_sheep()) {
            let pick = pet.pick_next(anim.border.as_slice(), Situation::default(), dice);
            Stop { at: Some(edge), next: target_of(pick) }
        } else {
            self.passing_sheep = Some(id);
            Stop { at: None, next: None }
        }
    }

    /// Meeting the resting pointer, which always stops the sheep: a mouse
    /// parked in front of one is a person asking for its attention. Looked
    /// at, it is walked through until it moves again.
    pub open spec fn at_pointer(
        self,
        world: World<N>,
        tile: N,
        anim: Animation<N>,
        x2: N,
        seed: u64,
    ) -> (Sheep<N>, Stop<N>, u64) {
        match self.pointer_face(&world, tile, x2) {
            Some(edge) if anim.border@.len() > 0 => (
                Sheep { met_pointer: world.pointer, ..self },
                Stop { at: Some(edge), next: target_of(chosen(anim.border@, plain(), seed)) },
                seed_after_choice(anim.border@, plain(), seed),
            ),
            _ => (self, no_stop(), seed),
        }
    }

    /// Meet the resting pointer.
    fn meet_pointer(
        &mut self,
        pet: &Pet<N>,
        world: &World<N>,
        tile: N,
        anim: &Animation<N>,
        x2: N,
        dice: &mut Dice,
    ) -> (r: Stop<N>)
        ensures
            (*final(self), r, final(dice).seed) == old(self).at_pointer(
                *world,
                tile,
                *anim,
                x2,
                old(dice).seed,
            ),
    {
        if anim.border.len() == 0 {
            return Stop { at: None, next: None };
        }
        let Some(edge) = self.pointer_face(world, tile, x2) else {
            return Stop { at: None, next: None };
        };
        let pick = pet.pick_next(anim.border.as_slice(), Situation::default(), dice);
        self.met_pointer = world.pointer;
        Stop { at: Some(edge), next: target_of(pick) }
    }

    /// Meeting whoever is in the way: another sheep, else the pointer. A sheep
    /// in flight is not meeting anyone; it is passing through.
    #[verifier::opaque]
    pub open spec fn at_company(
        self,
        world: World<N>,
        tile: N,
        anim: Animation<N>,
        x2: N,
        seed: u64,
    ) -> (Sheep<N>, Stop<N>, u64) {
        if self.toss is Some {
            (self, no_stop(), seed)
        } else {
            let (sheep, met, seed_met) = self.at_sheep(world, tile, anim, x2, seed);
            if met.at is Some {
                (sheep, met, seed_met)
            } else {
                sheep.at_pointer(world, tile, anim, x2, seed_met)
            }
        }
    }

    /// Meet whoever is in the way.
    fn meet_company(
        &mut self,
        pet: &Pet<N>,
        world: &World<N>,
        tile: N,
        anim: &Animation<N>,
        x2: N,
        dice: &mut Dice,
    ) -> (r: Stop<N>)
        ensures
            (*final(self), r, final(dice).seed) == old(self).at_company(
                *world,
                tile,
                *anim,
                x2,
                old(dice).seed,
            ),
    {
        reveal(Sheep::at_company);
        if self.toss.is_some() {
            return Stop { at: None, next: None };
        }
        let met = self.meet_sheep(pet, world, tile, anim, x2, dice);
        if met.at.is_some() {
            return met;
        }
        self.meet_pointer(pet, world, tile, anim, x2, dice)
    }

    // -- 3. the edges --

    /// Standing on a window: has it moved, closed, or has the sheep walked
    /// off? A step off its edge is taken back; anything further is not.
    pub open spec fn on_ledge(self, world: World<N>, tile: N, id: u64) -> (Sheep<N>, Contact) {
        let missed = Contact { hit: false, nudged: false, arrived: false };
        let let_go = Sheep { resting_on: None, ..self };
        match world.window(id) {
            None => (let_go, missed),
            Some(r) => {
                let (overrun, step_back) = if self.x.at_most(r.left()) {
                    (r.left().minus(self.x), N::whole(3))
                } else {
                    (self.x.minus(r.right().minus(tile)), N::whole(-3i64))
                };
                if self.stands_on(&r, tile, true) {
                    (self, missed)
                } else if N::whole(3).below(self.y.plus(tile).minus(r.top()).magnitude()) {
                    (let_go, missed)
                } else if N::whole(NUDGE_REACH).below(overrun) {
                    (let_go, missed)
                } else {
                    (
                        Sheep { x: self.x.plus(step_back), ..self },
                        Contact { hit: true, nudged: true, arrived: false },
                    )
                }
            },
        }
    }

    /// Keep to the window the sheep stands on.
    fn keep_to_ledge(&mut self, world: &World<N>, tile: N, id: u64) -> (r: Contact)
        ensures
            (*final(self), r) == old(self).on_ledge(*world, tile, id),
    {
        let missed = Contact { hit: false, nudged: false, arrived: false };
        let Some(r) = world.find(id) else {
            self.resting_on = None;
            return missed;
        };
        if self.stands_on(&r, tile, true) {
            return missed;
        }
        // Which edge are we off, and by how far?
        let (overrun, step_back) = if self.x.at_most(r.left()) {
            (r.left().minus(self.x), N::whole(3))
        } else {
            (self.x.minus(r.right().minus(tile)), N::whole(-3))
        };
        if N::whole(3).below(self.y.plus(tile).minus(r.top()).magnitude()) {
            // The window moved vertically out from under us.
            self.resting_on = None;
            missed
        } else if N::whole(NUDGE_REACH).below(overrun) {
            // Too far past the edge to be a step off it: the window was
            // dragged out from under us.
            self.resting_on = None;
            missed
        } else {
            self.x = self.x.plus(step_back);
            Contact { hit: true, nudged: true, arrived: false }
        }
    }

    /// Coming down onto a window's top, where there is one to land on that is
    /// on this screen.
    pub open spec fn on_top(self, world: World<N>, tile: N, screen: Screen<N>) -> (
        Sheep<N>,
        Contact,
    ) {
        match first_where(world.windows@, self.under(tile, false), 0) {
            Some(r) if screen.y.at_most(r.top().ceil().minus(tile)) => (
                Sheep { y: r.top().ceil().minus(tile), resting_on: Some(r.id), ..self },
                Contact { hit: true, nudged: false, arrived: false },
            ),
            _ => (self, Contact { hit: false, nudged: false, arrived: false }),
        }
    }

    /// Look for a window top to land on.
    fn land(&mut self, world: &World<N>, tile: N, screen: &Screen<N>) -> (r: Contact)
        ensures
            (*final(self), r) == old(self).on_top(*world, tile, *screen),
    {
        if let Some(r) = self.surface_under(world, tile, false) {
            // On screen means inside *this* monitor, not y >= 0: a monitor
            // taller than its neighbour is centred against it and starts
            // at a negative y, which would otherwise make every window in
            // its top band unlandable.
            let landing = r.top().ceil().minus(tile);
            if screen.y.at_most(landing) {
                self.y = landing;
                self.resting_on = Some(r.id);
                return Contact { hit: true, nudged: false, arrived: false };
            }
        }
        Contact { hit: false, nudged: false, arrived: false }
    }

    /// The sheep climbed onto the screen beside the edge it was climbing. The
    /// sideways step is a tile wide: the sheep was hugging the face, so a
    /// tile clears it.
    pub open spec fn onto_screen(self, s: Screen<N>, tile: N) -> Sheep<N> {
        Sheep {
            x: if within_two(self.x, s.right()) {
                s.right().minus(tile).minus(one())
            } else {
                s.x.plus(one())
            },
            y: s.floor().minus(tile),
            resting_on: None,
            ..self
        }
    }

    /// The sheep climbed over the top of the window it was climbing. The ledge
    /// only starts a tile in.
    pub open spec fn onto_window(self, r: Rect<N>, tile: N) -> Sheep<N> {
        Sheep {
            x: if self.x.below(r.left().plus(tile)) {
                r.left().plus(one())
            } else {
                r.right().minus(tile).minus(one())
            },
            y: r.top().ceil().minus(tile),
            resting_on: Some(r.id),
            ..self
        }
    }

    /// Running into the left or right edge of the screen, where the desktop
    /// does not go on behind it.
    pub open spec fn at_side(
        self,
        world: World<N>,
        tile: N,
        x2: N,
        screen: Screen<N>,
        mid_y: N,
    ) -> Option<N> {
        if x2.below(zero()) && self.x.below(screen.x) && !world.continues(
            self.x.minus(one()),
            mid_y,
        ) {
            Some(screen.x)
        } else if zero::<N>().below(x2) && screen.right().minus(tile).below(self.x)
            && !world.continues(self.x.plus(tile).plus(one()), mid_y) {
            Some(screen.right().minus(tile))
        } else {
            None
        }
    }

    /// Find the edge of the screen that the sheep ran into.
    fn side_hit(&self, world: &World<N>, tile: N, x2: N, screen: &Screen<N>, mid_y: N) -> (r:
        Option<N>)
        ensures
            r == self.at_side(*world, tile, x2, *screen, mid_y),
    {
        if x2.below(zero()) && self.x.below(screen.x) && !world.continues(
            self.x.minus(one()),
            mid_y,
        ) {
            Some(screen.x)
        } else if zero::<N>().below(x2) && screen.right().minus(tile).below(self.x)
            && !world.continues(self.x.plus(tile).plus(one()), mid_y) {
            Some(screen.right().minus(tile))
        } else {
            None
        }
    }

    /// Running into what is above, below or underfoot.
    pub open spec fn at_level(
        self,
        world: World<N>,
        tile: N,
        anim: Animation<N>,
        y2: N,
        screen: Screen<N>,
        mid_x: N,
    ) -> (Sheep<N>, Contact) {
        let floor = screen.floor().minus(tile);
        let hit = Contact { hit: true, nudged: false, arrived: false };
        if y2.below(zero()) && self.y.below(screen.y) && !world.continues(
            mid_x,
            self.y.minus(one()),
        ) {
            (
                Sheep {
                    y: screen.y,
                    situation: Situation { on_horizontal: true, ..self.situation },
                    ..self
                },
                hit,
            )
        } else if let Some(s) = self.spec_screen_crest(world, tile, y2) {
            (self.onto_screen(s, tile), Contact { arrived: true, ..hit })
        } else if let Some(r) = self.spec_window_crest(world, tile, y2) {
            (self.onto_window(r, tile), Contact { arrived: true, ..hit })
        } else if zero::<N>().below(y2) && floor.below(self.y) && !world.continues(
            mid_x,
            self.y.plus(tile).plus(one()),
        ) {
            (Sheep { y: floor, resting_on: None, ..self }, hit)
        } else if zero::<N>().below(y2) && anim.border@.len() > 0 {
            self.on_top(world, tile, screen)
        } else {
            match self.resting_on {
                Some(id) => self.on_ledge(world, tile, id),
                None => (self, Contact { hit: false, nudged: false, arrived: false }),
            }
        }
    }

    /// Run into what is above, below or underfoot.
    fn touch_level(
        &mut self,
        world: &World<N>,
        tile: N,
        anim: &Animation<N>,
        y2: N,
        screen: &Screen<N>,
        mid_x: N,
    ) -> (r: Contact)
        ensures
            (*final(self), r) == old(self).at_level(*world, tile, *anim, y2, *screen, mid_x),
    {
        let floor = screen.floor().minus(tile);
        if y2.below(zero()) && self.y.below(screen.y) && !world.continues(
            mid_x,
            self.y.minus(one()),
        ) {
            self.y = screen.y;
            self.situation.on_horizontal = true;
            Contact { hit: true, nudged: false, arrived: false }
        } else if let Some(s) = self.screen_crest(world, tile, y2) {
            let hugging_right = within_two(self.x, s.right());
            self.y = s.floor().minus(tile);
            self.x = if hugging_right {
                s.right().minus(tile).minus(one())
            } else {
                s.x.plus(one())
            };
            self.resting_on = None;
            Contact { hit: true, nudged: false, arrived: true }
        } else if let Some(r) = self.window_crest(world, tile, y2) {
            self.y = r.top().ceil().minus(tile);
            self.x = if self.x.below(r.left().plus(tile)) {
                r.left().plus(one())
            } else {
                r.right().minus(tile).minus(one())
            };
            self.resting_on = Some(r.id);
            Contact { hit: true, nudged: false, arrived: true }
        } else if zero::<N>().below(y2) && floor.below(self.y) && !world.continues(
            mid_x,
            self.y.plus(tile).plus(one()),
        ) {
            self.y = floor;
            self.resting_on = None;
            Contact { hit: true, nudged: false, arrived: false }
        } else if zero::<N>().below(y2) && anim.border.len() > 0 {
            self.land(world, tile, screen)
        } else {
            match self.resting_on {
                Some(id) => self.keep_to_ledge(world, tile, id),
                None => Contact { hit: false, nudged: false, arrived: false },
            }
        }
    }

    /// Running into the first of: the side of the screen, a window's face,
    /// whoever was met, and what is above, below or underfoot.
    #[verifier::opaque]
    pub open spec fn at_edges(
        self,
        world: World<N>,
        tile: N,
        anim: Animation<N>,
        x2: N,
        y2: N,
        screen: Screen<N>,
        mid: (N, N),
        face: Option<N>,
        met: Option<N>,
    ) -> (Sheep<N>, Contact) {
        let hit = Contact { hit: true, nudged: false, arrived: false };
        let upright = Situation { on_vertical: true, ..self.situation };
        if let Some(x) = self.at_side(world, tile, x2, screen, mid.1) {
            (Sheep { x, situation: upright, ..self }, hit)
        } else if let Some(x) = face {
            (Sheep { x, situation: upright, ..self }, hit)
        } else if let Some(x) = met {
            (Sheep { x, ..self }, hit)
        } else {
            self.at_level(world, tile, anim, y2, screen, mid.0)
        }
    }

    /// Run into the edges around the sheep.
    fn touch_edges(
        &mut self,
        world: &World<N>,
        tile: N,
        anim: &Animation<N>,
        x2: N,
        y2: N,
        screen: &Screen<N>,
        mid: (N, N),
        face: Option<N>,
        met: Option<N>,
    ) -> (r: Contact)
        ensures
            (*final(self), r) == old(self).at_edges(
                *world,
                tile,
                *anim,
                x2,
                y2,
                *screen,
                mid,
                face,
                met,
            ),
    {
        reveal(Sheep::at_edges);
        if let Some(x) = self.side_hit(world, tile, x2, screen, mid.1) {
            self.x = x;
            self.situation.on_vertical = true;
            Contact { hit: true, nudged: false, arrived: false }
        } else if let Some(x) = face {
            // A window's side, which is solid only with `climb_windows` on.
            self.x = x;
            self.situation.on_vertical = true;
            Contact { hit: true, nudged: false, arrived: false }
        } else if let Some(x) = met {
            // Nose to nose with another sheep.
            self.x = x;
            Contact { hit: true, nudged: false, arrived: false }
        } else {
            self.touch_level(world, tile, anim, y2, screen, mid.0)
        }
    }

    // -- 4. gravity and curiosity --

    /// Turning towards a resting pointer, if there is one worth turning for:
    /// within reach, at the sheep's height, and behind it. The turn itself is
    /// whatever the animation's own border table does.
    #[verifier::opaque]
    pub open spec fn noticing(
        self,
        world: World<N>,
        tile: N,
        anim: Animation<N>,
        x2: N,
        y2: N,
        seed: u64,
    ) -> Verdict<N> {
        let busy = self.is_child || self.toss is Some || self.dragging;
        let walking = !x2.same(zero()) && y2.same(zero()) && !(anim.action is Flip);
        match self.pointer(&world) {
            Some((px, py)) if !busy && walking && self.level_at(py, tile) => {
                let away = px.minus(self.x.plus(half(tile)));
                if N::whole(POINTER_REACH).times(self.scale).below(away.magnitude())
                    || away.magnitude().at_most(side_reach(self.scale)) || away.sign().same(
                    x2.sign(),
                ) {
                    quiet(self, None, seed)
                } else {
                    match chosen(anim.border@, plain(), seed) {
                        Some(n) => quiet(
                            self,
                            Some(n.target),
                            seed_after_choice(anim.border@, plain(), seed),
                        ),
                        None => quiet(Sheep { flipped: !self.flipped, ..self }, None, seed),
                    }
                }
            },
            _ => quiet(self, None, seed),
        }
    }

    /// Turn towards a resting pointer, if there is one worth turning for.
    ///
    /// The pet format has nothing to say about the mouse beyond being dragged
    /// by it. Only the decision to turn is an addition, though - the turn
    /// itself is whatever the animation's own border table does, which for a
    /// walking sheep is its about-face, so it comes about the way it comes
    /// about at a wall rather than snapping round on the spot.
    pub fn notice_pointer(
        &mut self,
        pet: &Pet<N>,
        world: &World<N>,
        tile: N,
        anim: &Animation<N>,
        x2: N,
        y2: N,
        dice: &mut Dice,
    ) -> (r: Option<u32>)
        ensures
            quiet(*final(self), r, final(dice).seed) == old(self).noticing(
                *world,
                tile,
                *anim,
                x2,
                y2,
                old(dice).seed,
            ),
    {
        reveal(Sheep::noticing);
        reveal(chosen);
        reveal(seed_after_choice);
        // Only a sheep travelling along the ground notices. Climbing and
        // falling have a y of their own and are busy; sitting, sleeping and
        // eating do not move and have nowhere to turn to. A companion's
        // course is its parent's business, not the mouse's.
        if self.is_child || self.toss.is_some() || self.dragging {
            return None;
        }
        if x2.same(zero()) || !y2.same(zero()) || anim.action == Action::Flip {
            return None;
        }
        let Some((px, py)) = self.pointer(world) else {
            return None;
        };
        if !self.level_at(py, tile) {
            return None;
        }
        let away = px.minus(self.x.plus(half(tile)));
        // Out of reach, or already close enough to be about to bump into it.
        if N::whole(POINTER_REACH).times(self.scale).below(away.magnitude())
            || away.magnitude().at_most(side_reach(self.scale)) {
            return None;
        }
        // Already on its way there.
        if away.sign().same(x2.sign()) {
            return None;
        }
        match pet.pick_next(anim.border.as_slice(), Situation::default(), dice) {
            Some(n) => Some(n.target),
            None => {
                // Nothing in the file to turn round with: mirror it in place.
                self.flipped = !self.flipped;
                None
            },
        }
    }

    /// Airborne with nothing underfoot, the sheep falls: as its animation
    /// says, or, having just lost what it stood on in one that is not already
    /// taking it down, as the pet's own fall. Otherwise it may be curious.
    #[verifier::opaque]
    pub open spec fn falling(
        self,
        pet: Pet<N>,
        world: World<N>,
        tile: N,
        anim: Animation<N>,
        x2: N,
        y2: N,
        floor: N,
        had_support: bool,
        supported: bool,
        seed: u64,
    ) -> Verdict<N> {
        if supported {
            self.noticing(world, tile, anim, x2, y2, seed)
        } else {
            let loose = Sheep { resting_on: None, ..self };
            if self.y.below(floor.minus(N::whole(2))) {
                let sheep = loose.situated(world, tile, false);
                match chosen(anim.gravity@, sheep.situation, seed) {
                    Some(n) => quiet(
                        sheep,
                        Some(n.target),
                        seed_after_choice(anim.gravity@, sheep.situation, seed),
                    ),
                    None => if had_support && y2.at_most(zero()) {
                        quiet(sheep, pet.spec_fall_animation(), seed)
                    } else {
                        sheep.noticing(world, tile, anim, x2, y2, seed)
                    },
                }
            } else {
                loose.noticing(world, tile, anim, x2, y2, seed)
            }
        }
    }

    /// Fall, if there is nothing underfoot; else look around.
    fn fall(
        &mut self,
        pet: &Pet<N>,
        world: &World<N>,
        tile: N,
        anim: &Animation<N>,
        x2: N,
        y2: N,
        floor: N,
        had_support: bool,
        supported: bool,
        dice: &mut Dice,
    ) -> (r: Option<u32>)
        ensures
            quiet(*final(self), r, final(dice).seed) == old(self).falling(
                *pet,
                *world,
                tile,
                *anim,
                x2,
                y2,
                floor,
                had_support,
                supported,
                old(dice).seed,
            ),
    {
        reveal(Sheep::falling);
        reveal(chosen);
        reveal(seed_after_choice);
        if !supported {
            self.resting_on = None;
            if self.y.below(floor.minus(N::whole(2))) {
                self.update_situation(world, tile, false);
                if let Some(n) = pet.pick_next(anim.gravity.as_slice(), self.situation, dice) {
                    return Some(n.target);
                }
                // Few animations declare any gravity, so a sleeping or idling
                // sheep never checks the ground, and windows move constantly:
                // it would hang in mid-air until its animation happened to
                // end.
                //
                // This applies only to a sheep that just lost real support
                // while in an animation that is not already taking it
                // downwards. An animation that descends under its own steam -
                // falling, dropping off a ledge, climbing down a wall - is
                // already dealing with gravity, and interrupting it would
                // bounce the sheep between falling and landing forever.
                if had_support && y2.at_most(zero()) {
                    return pet.fall_animation();
                }
            }
        }
        self.notice_pointer(pet, world, tile, anim, x2, y2, dice)
    }

    // -- the decision --

    /// Meeting what is in the way: a window's face, else whoever else is
    /// there. Gives the sheep, what the face does, what the company does, and
    /// the seed.
    #[verifier::opaque]
    pub open spec fn obstructed(
        self,
        world: World<N>,
        tile: N,
        anim: Animation<N>,
        x2: N,
        supported: bool,
        seed: u64,
    ) -> (Sheep<N>, Stop<N>, Stop<N>, u64) {
        let (sheep, face, seed_face) = self.clear_of_passed(world, tile).at_face(
            world,
            tile,
            anim,
            x2,
            supported,
            seed,
        );
        if face.at is Some {
            (sheep, face, no_stop(), seed_face)
        } else {
            let (sheep_met, met, seed_met) = sheep.at_company(world, tile, anim, x2, seed_face);
            (sheep_met, face, met, seed_met)
        }
    }

    /// Meet what is in the way.
    fn meet_obstacles(
        &mut self,
        pet: &Pet<N>,
        world: &World<N>,
        tile: N,
        anim: &Animation<N>,
        x2: N,
        supported: bool,
        dice: &mut Dice,
    ) -> (r: (Stop<N>, Stop<N>))
        ensures
            (*final(self), r.0, r.1, final(dice).seed) == old(self).obstructed(
                *world,
                tile,
                *anim,
                x2,
                supported,
                old(dice).seed,
            ),
    {
        reveal(Sheep::obstructed);
        self.forget_passed(world, tile);
        // What a window's side does is settled before the sheep is held
        // against it, because walking through means there was no border here
        // at all.
        let face = self.meet_face(pet, world, tile, anim, x2, supported, dice);
        let met = if face.at.is_some() {
            Stop { at: None, next: None }
        } else {
            self.meet_company(pet, world, tile, anim, x2, dice)
        };
        (face, met)
    }

    /// What follows from running into an edge, or not: the animation that what
    /// was met calls for, else the border table's, else gravity and curiosity.
    /// Climbing onto level ground calls for the pet's own arrival.
    #[verifier::opaque]
    pub open spec fn concluding(
        self,
        pet: Pet<N>,
        world: World<N>,
        tile: N,
        anim: Animation<N>,
        x2: N,
        y2: N,
        floor: N,
        contact: Contact,
        met: Option<u32>,
        had_support: bool,
        supported_now: bool,
        seed: u64,
    ) -> Verdict<N> {
        let supported = contact.nudged || supported_now;
        if contact.hit {
            let sheep = Sheep { toss: None, ..self }.situated(world, tile, supported);
            let forced = if contact.arrived {
                pet.spec_landing_animation()
            } else {
                met
            };
            if forced is Some {
                quiet(sheep, forced, seed)
            } else {
                match chosen(anim.border@, sheep.situation, seed) {
                    Some(n) => quiet(
                        sheep,
                        Some(n.target),
                        seed_after_choice(anim.border@, sheep.situation, seed),
                    ),
                    None => sheep.falling(
                        pet,
                        world,
                        tile,
                        anim,
                        x2,
                        y2,
                        floor,
                        had_support,
                        supported,
                        seed,
                    ),
                }
            }
        } else {
            self.falling(
                pet,
                world,
                tile,
                anim,
                x2,
                y2,
                floor,
                had_support,
                supported,
                seed,
            )
        }
    }

    /// Conclude what follows from running into an edge, or not.
    fn conclude(
        &mut self,
        pet: &Pet<N>,
        world: &World<N>,
        tile: N,
        anim: &Animation<N>,
        x2: N,
        y2: N,
        floor: N,
        contact: Contact,
        met: Option<u32>,
        had_support: bool,
        supported_now: bool,
        dice: &mut Dice,
    ) -> (r: Option<u32>)
        ensures
            quiet(*final(self), r, final(dice).seed) == old(self).concluding(
                *pet,
                *world,
                tile,
                *anim,
                x2,
                y2,
                floor,
                contact,
                met,
                had_support,
                supported_now,
                old(dice).seed,
            ),
    {
        reveal(Sheep::concluding);
        reveal(chosen);
        reveal(seed_after_choice);
        let supported = contact.nudged || supported_now;
        if contact.hit {
            // A throw is over the moment it hits something.
            self.toss = None;
            self.update_situation(world, tile, supported);
            // A face has already drawn from the same table; rolling again here
            // could contradict the choice that held the sheep in the first
            // place. Climbing onto level ground is not the climb's own border
            // either: that one is the top of the screen, and would flip the
            // sheep onto a ceiling that is not there.
            let forced = if contact.arrived {
                pet.landing_animation()
            } else {
                met
            };
            if forced.is_some() {
                return forced;
            }
            if let Some(n) = pet.pick_next(anim.border.as_slice(), self.situation, dice) {
                return Some(n.target);
            }
        }
        self.fall(pet, world, tile, anim, x2, y2, floor, had_support, supported, dice)
    }

    /// Deciding what comes after a step's movement: the end of the sequence,
    /// else what the sheep ran into, else gravity, else curiosity. Which edge
    /// matters depends on the direction of travel, `x2` and `y2`.
    #[verifier::opaque]
    pub open spec fn resolving(
        self,
        pet: Pet<N>,
        world: World<N>,
        tile: N,
        anim: Animation<N>,
        x2: N,
        y2: N,
        seed: u64,
    ) -> Verdict<N> {
        let supported_now = self.standing_on(&world, tile) is Some;
        if self.step >= self.steps {
            self.finishing(pet, world, tile, anim, supported_now, seed)
        } else {
            let screen = self.screen(&world, tile);
            let mid = (self.x.plus(half(tile)), self.y.plus(half(tile)));
            let (sheep, face, met, seed_met) = self.obstructed(
                world,
                tile,
                anim,
                x2,
                supported_now,
                seed,
            );
            let (touched, contact) = sheep.at_edges(
                world,
                tile,
                anim,
                x2,
                y2,
                screen,
                mid,
                face.at,
                met.at,
            );
            touched.concluding(
                pet,
                world,
                tile,
                anim,
                x2,
                y2,
                screen.floor().minus(tile),
                contact,
                if face.next is Some {
                    face.next
                } else {
                    met.next
                },
                self.resting_on is Some,
                supported_now,
                seed_met,
            )
        }
    }

    /// Decide which animation to move to, if any, after this step's movement.
    pub fn resolve(
        &mut self,
        pet: &Pet<N>,
        world: &World<N>,
        tile: N,
        anim: &Animation<N>,
        x2: N,
        y2: N,
        events: &mut Vec<Event<N>>,
        dice: &mut Dice,
    ) -> (r: Option<u32>)
        ensures
            ({
                let v = old(self).resolving(*pet, *world, tile, *anim, x2, y2, old(dice).seed);
                &&& *final(self) == v.turn.sheep
                &&& final(events)@ == old(events)@ + v.turn.events
                &&& final(dice).seed == v.turn.seed
                &&& r == v.next
            }),
    {
        reveal(Sheep::resolving);
        // Revalidate support up front so that every decision below - the
        // `only` filters included - sees whether the sheep is really still on
        // a window, rather than a claim left over from an earlier step.
        let had_support = self.resting_on.is_some();
        let supported_now = self.standing_on(world, tile).is_some();
        if self.step >= self.steps {
            return self.finish(pet, world, tile, anim, supported_now, events, dice);
        }
        // An edge with another monitor behind it is not an edge at all - the
        // sheep walks straight across the seam.
        let screen = self.screen(world, tile);
        let mid = (self.x.plus(half(tile)), self.y.plus(half(tile)));
        let (face, met) = self.meet_obstacles(pet, world, tile, anim, x2, supported_now, dice);
        let contact = self.touch_edges(
            world,
            tile,
            anim,
            x2,
            y2,
            &screen,
            mid,
            face.at,
            met.at,
        );
        let floor = screen.floor().minus(tile);
        let next = if face.next.is_some() {
            face.next
        } else {
            met.next
        };
        let r = self.conclude(
            pet,
            world,
            tile,
            anim,
            x2,
            y2,
            floor,
            contact,
            next,
            had_support,
            supported_now,
            dice,
        );
        assert(quiet(*self, r, dice.seed).turn.events == Seq::<Event<N>>::empty());
        r
    }

    // -- the step --

    /// Deciding, and entering the animation decided on.
    #[verifier::opaque]
    pub open spec fn going_on(
        self,
        pet: Pet<N>,
        world: World<N>,
        tile: N,
        anim: Animation<N>,
        x2: N,
        y2: N,
        seed: u64,
    ) -> Turn<N> {
        let v = self.resolving(pet, world, tile, anim, x2, y2, seed);
        match v.next {
            None => v.turn,
            Some(id) => {
                let entered = v.turn.sheep.entering(pet, world, tile, id, v.turn.seed);
                Turn { events: v.turn.events + entered.events, ..entered }
            },
        }
    }

    /// Decide, and enter the animation decided on.
    fn go_on(
        &mut self,
        pet: &Pet<N>,
        world: &World<N>,
        tile: N,
        anim: &Animation<N>,
        x2: N,
        y2: N,
        events: &mut Vec<Event<N>>,
        dice: &mut Dice,
    )
        ensures
            ({
                let turn = old(self).going_on(
                    *pet,
                    *world,
                    tile,
                    *anim,
                    x2,
                    y2,
                    old(dice).seed,
                );
                &&& *final(self) == turn.sheep
                &&& final(events)@ == old(events)@ + turn.events
                &&& final(dice).seed == turn.seed
            }),
    {
        reveal(Sheep::going_on);
        if let Some(id) = self.resolve(pet, world, tile, anim, x2, y2, events, dice) {
            self.enter(pet, world, tile, id, events, dice);
        }
    }

    /// The step after this one.
    #[verifier::allow_in_spec]
    pub fn step_after(step: u32) -> u32
        returns
            (if step == u32::MAX {
                0u32
            } else {
                (step + 1) as u32
            }),
    {
        if step == u32::MAX {
            0
        } else {
            step + 1
        }
    }

    /// How long to hold a step for, hurried or dawdled by `speed`. The floor
    /// is what stops a fast sheep from spinning the event loop.
    #[verifier::allow_in_spec]
    pub fn wait(&self, ms: N) -> u64
        returns
            ({
                let wait = ms.over(at_least(self.speed, N::least())).to_u64();
                if wait < LEAST_WAIT {
                    LEAST_WAIT
                } else {
                    wait
                }
            }),
    {
        let wait: u64 = ms.over(at_least(self.speed, N::least())).to_u64();
        if wait < LEAST_WAIT {
            LEAST_WAIT
        } else {
            wait
        }
    }

    /// A thrown sheep moved along its arc. No animation describes an arc, so
    /// the falling frames are borrowed and the motion is the throw's own.
    #[verifier::opaque]
    pub open spec fn flown(self, vx: N, vy: N) -> Sheep<N> {
        let dt = toss_seconds();
        let gravity = N::whole(TOSS_GRAVITY).times(self.scale).times(dt);
        Sheep {
            x: self.x.plus(vx.times(dt)),
            y: self.y.plus(vy.times(dt)),
            offset_y: zero(),
            opacity: one(),
            step: Self::step_after(self.step),
            toss: Some((vx.times(N::toss_keep()), vy.plus(gravity).times(N::toss_keep()))),
            ..self
        }
    }

    /// Move a thrown sheep along its arc.
    fn fly(&mut self, vx: N, vy: N)
        ensures
            *final(self) == old(self).flown(vx, vy),
    {
        reveal(Sheep::flown);
        let dt = toss_seconds();
        let gravity = N::whole(TOSS_GRAVITY).times(self.scale).times(dt);
        self.x = self.x.plus(vx.times(dt));
        self.y = self.y.plus(vy.times(dt));
        self.offset_y = zero();
        self.opacity = one();
        self.step = Self::step_after(self.step);
        self.toss = Some((vx.times(N::toss_keep()), vy.plus(gravity).times(N::toss_keep())));
    }

    /// A sheep moved as its animation says, the horizontal velocity and the
    /// vertical velocity it ends on, and the seed. Flipping mirrors horizontal
    /// motion only.
    #[verifier::opaque]
    pub open spec fn walked(self, anim: Animation<N>, ctx: Ctx<N>, seed: u64) -> (
        Sheep<N>,
        N,
        N,
        u64,
    ) {
        let x2 = value_or(anim.end.x@, ctx, zero(), seed);
        let seed_x2 = seed_after(anim.end.x@, ctx, seed);
        let y2 = value_or(anim.end.y@, ctx, zero(), seed_x2);
        let seed_y2 = seed_after(anim.end.y@, ctx, seed_x2);
        let at = Ramp { at: self.step, steps: self.steps };
        let (dx, seed_x) = at.along(anim.start.x@, anim.end.x@, ctx, seed_y2);
        let (dy, seed_y) = at.along(anim.start.y@, anim.end.y@, ctx, seed_x);
        let (lift, seed_lift) = at.along(anim.start.offset_y@, anim.end.offset_y@, ctx, seed_y);
        let sign = N::whole(
            if self.flipped {
                -1i64
            } else {
                1i64
            },
        );
        let sheep = Sheep {
            x: self.x.plus(dx.times(sign).times(self.scale).trunc()),
            y: self.y.plus(dy.times(self.scale).trunc()),
            offset_y: lift.times(self.scale),
            opacity: clamped(at.mix(anim.start.opacity, anim.end.opacity), zero(), one()),
            step: Self::step_after(self.step),
            ..self
        };
        (sheep, x2.times(sign), y2, seed_lift)
    }

    /// Move the sheep as its animation says.
    fn walk(&mut self, anim: &Animation<N>, ctx: &Ctx<N>, dice: &mut Dice) -> (r: (N, N))
        ensures
            (*final(self), r.0, r.1, final(dice).seed) == old(self).walked(
                *anim,
                *ctx,
                old(dice).seed,
            ),
    {
        reveal(Sheep::walked);
        let at = Ramp { at: self.step, steps: self.steps };
        let x2 = eval_or(anim.end.x.as_str(), ctx, zero(), dice);
        let y2 = eval_or(anim.end.y.as_str(), ctx, zero(), dice);
        let dx = at.run(anim.start.x.as_str(), anim.end.x.as_str(), ctx, dice);
        let dy = at.run(anim.start.y.as_str(), anim.end.y.as_str(), ctx, dice);
        let sign = N::whole(
            if self.flipped {
                -1
            } else {
                1
            },
        );
        self.x = self.x.plus(dx.times(sign).times(self.scale).trunc());
        self.y = self.y.plus(dy.times(self.scale).trunc());
        let lift = at.run(anim.start.offset_y.as_str(), anim.end.offset_y.as_str(), ctx, dice);
        self.offset_y = lift.times(self.scale);
        self.opacity = clamped(at.mix(anim.start.opacity, anim.end.opacity), zero(), one());
        self.step = Self::step_after(self.step);
        (x2.times(sign), y2)
    }

    /// One step as the pet file has it, and how long to hold it for. A sheep
    /// without an animation dies. A dragged one keeps the sprite moving and
    /// nothing else; a thrown one flies.
    pub open spec fn taking_step(
        self,
        pet: Pet<N>,
        world: World<N>,
        tile: N,
        seed: u64,
    ) -> (Turn<N>, u64) {
        match pet.animation(self.animation) {
            None => (Turn { sheep: self, events: seq![Event::Died], seed }, DRAG_INTERVAL),
            Some(anim) => {
                let posed = Sheep {
                    frame: anim.spec_frame_at(self.step),
                    prev: self.pose(),
                    ..self
                };
                if self.dragging {
                    let sheep = Sheep { step: Self::step_after(self.step), ..posed };
                    (
                        Turn { sheep, events: seq![], seed },
                        sheep.wait(N::whole(DRAG_INTERVAL as i64)),
                    )
                } else if let Some((vx, vy)) = self.toss {
                    let flown = posed.flown(vx, vy);
                    (flown.going_on(pet, world, tile, anim, vx, vy, seed), TOSS_INTERVAL)
                } else {
                    let ctx = self.ctx(&world, tile);
                    let (walked, x2, y2, seed_walk) = posed.walked(anim, ctx, seed);
                    let turn = walked.going_on(pet, world, tile, anim, x2, y2, seed_walk);
                    let at = Ramp { at: turn.sheep.step, steps: self.steps };
                    let (ms, seed_ms) = at.along(
                        anim.start.interval@,
                        anim.end.interval@,
                        ctx,
                        turn.seed,
                    );
                    (Turn { seed: seed_ms, ..turn }, turn.sheep.wait(ms))
                }
            },
        }
    }

    /// The step itself: everything the pet file has to say about it.
    pub fn take_step(
        &mut self,
        pet: &Pet<N>,
        world: &World<N>,
        tile: N,
        events: &mut Vec<Event<N>>,
        dice: &mut Dice,
    ) -> (r: u64)
        ensures
            ({
                let (turn, wait) = old(self).taking_step(*pet, *world, tile, old(dice).seed);
                &&& *final(self) == turn.sheep
                &&& final(events)@ == old(events)@ + turn.events
                &&& final(dice).seed == turn.seed
                &&& r == wait
            }),
    {
        let Some(anim) = pet.get(self.animation) else {
            events.push(Event::Died);
            return DRAG_INTERVAL;
        };
        let ctx = self.ctx(world, tile);
        let steps = self.steps;
        self.frame = anim.frame_at(self.step);
        self.prev = self.pose();
        // Dragging freezes physics but keeps the sprite animating, at the
        // sheep's own pace like every other animation.
        if self.dragging {
            self.step = Self::step_after(self.step);
            return self.wait(N::whole(DRAG_INTERVAL as i64));
        }
        // Borders are still resolved from the animation's own tables, so the
        // throw ends in whatever the file says landing looks like.
        if let Some((vx, vy)) = self.toss {
            self.fly(vx, vy);
            self.go_on(pet, world, tile, anim, vx, vy, events, dice);
            return TOSS_INTERVAL;
        }
        let (x2, y2) = self.walk(anim, &ctx, dice);
        self.go_on(pet, world, tile, anim, x2, y2, events, dice);
        // The delay uses the step that is now next.
        let at = Ramp { at: self.step, steps };
        let ms = at.run(anim.start.interval.as_str(), anim.end.interval.as_str(), &ctx, dice);
        self.wait(ms)
    }

    /// One step, and joining the screen it ended on.
    pub open spec fn stepping(
        self,
        pet: Pet<N>,
        world: World<N>,
        tile: N,
        seed: u64,
    ) -> (Turn<N>, u64) {
        let (turn, wait) = self.taking_step(pet, world, tile, seed);
        (Turn { sheep: turn.sheep.following(world, tile), ..turn }, wait)
    }

    /// Advance one animation step. Returns how long to wait before the next,
    /// in milliseconds.
    pub fn step(
        &mut self,
        pet: &Pet<N>,
        world: &World<N>,
        tile: N,
        events: &mut Vec<Event<N>>,
        dice: &mut Dice,
    ) -> (r: u64)
        ensures
            ({
                let (turn, wait) = old(self).stepping(*pet, *world, tile, old(dice).seed);
                &&& *final(self) == turn.sheep
                &&& final(events)@ == old(events)@ + turn.events
                &&& final(dice).seed == turn.seed
                &&& r == wait
            }),
    {
        let wait = self.take_step(pet, world, tile, events, dice);
        // Joining the workspace of the screen it has ended up on belongs
        // here, after the movement rather than before it: a step that has
        // carried the sheep over a seam but not yet onto the new screen's
        // workspace is a step where it cannot be seen at all, and a sheep
        // that blinks out for a step in the middle of a crossing is worse
        // than one that takes a step to notice.
        self.follow_screen(world, tile);
        wait
    }
}

} // verus!
