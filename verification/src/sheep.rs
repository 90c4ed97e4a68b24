//! A sheep: what it is, how it is placed, and what it senses around it.

use vstd::prelude::*;

use crate::anim::{Child, Pet, Situation};
use crate::dice::{next_seed, picked, seed_after_pick, thrown, Dice};
use crate::expr::{eval_or, seed_after, value_or, Ctx};
use crate::number::{at_least, clamped, one, ratio, zero, Number};
use crate::world::{Screen, World};

verus! {

/// Things the host must act on after a step.
#[derive(Debug, PartialEq)]
pub enum Event<N> {
    /// Create an independent companion sheep.
    ///
    /// `rand_s` is the parent's, not a fresh one: a companion's animations are
    /// written to be timed against the sheep that called it on, and the pet
    /// file times them with `randS`. The bathtub waits out the dive by
    /// counting the steps the dive takes, which is a length the parent's
    /// `randS` decides; with a roll of its own the tub splashes early or late.
    ///
    /// The workspace is the parent's too, and for a plainer reason: a bathtub
    /// must be on the same workspace as the sheep diving into it.
    SpawnChild { animation: u32, x: N, y: N, rand_s: N, workspace: Option<i64> },
    /// This sheep reached a terminal animation and should be removed.
    Died,
}

impl<N: Copy> Copy for Event<N> {

}

impl<N: Copy> Clone for Event<N> {
    fn clone(&self) -> (r: Self)
        ensures
            r == *self,
    {
        *self
    }
}

/// What the sheep looks like at one instant: where it is and how solid.
///
/// The sheep moves in discrete hops - two pixels, then nothing for a tenth
/// of a second - so it is kept as two of these, the pose it stepped from
/// and the pose it stepped to, and drawn somewhere between the two.
#[derive(Debug, PartialEq)]
pub struct Pose<N> {
    pub x: N,
    pub y: N,
    pub offset_y: N,
    pub opacity: N,
}

impl<N: Copy> Copy for Pose<N> {

}

impl<N: Copy> Clone for Pose<N> {
    fn clone(&self) -> (r: Self)
        ensures
            r == *self,
    {
        *self
    }
}

/// `t` of the way from `a` to `b`.
#[verifier::allow_in_spec]
pub fn between<N: Number>(a: N, b: N, t: N) -> N
    returns
        a.plus(b.minus(a).times(t)),
{
    a.plus(b.minus(a).times(t))
}

impl<N: Number> Pose<N> {
    /// Blend towards `to`, with `t` running 0 (here) to 1 (arrived).
    #[verifier::allow_in_spec]
    pub fn lerp(self, to: Pose<N>, t: N) -> Pose<N>
        returns
            (Pose {
                x: between(self.x, to.x, t),
                y: between(self.y, to.y, t),
                offset_y: between(self.offset_y, to.offset_y, t),
                opacity: between(self.opacity, to.opacity, t),
            }),
    {
        Pose {
            x: between(self.x, to.x, t),
            y: between(self.y, to.y, t),
            offset_y: between(self.offset_y, to.offset_y, t),
            opacity: between(self.opacity, to.opacity, t),
        }
    }

    /// Do the two poses look the same?
    #[verifier::allow_in_spec]
    pub fn alike(&self, other: &Pose<N>) -> bool
        returns
            self.x.same(other.x) && self.y.same(other.y) && self.offset_y.same(other.offset_y)
                && self.opacity.same(other.opacity),
    {
        self.x.same(other.x) && self.y.same(other.y) && self.offset_y.same(other.offset_y)
            && self.opacity.same(other.opacity)
    }
}

/// One sheep.
#[derive(Debug)]
pub struct Sheep<N> {
    /// Tells this sheep apart from the rest of the flock, so that it can
    /// leave itself out of the crowd it walks into.
    pub id: u64,
    /// Position of the sprite's top-left corner, in logical pixels.
    pub x: N,
    pub y: N,
    pub animation: u32,
    pub step: u32,
    pub flipped: bool,
    /// Current tile index into the sheet.
    pub frame: u32,
    /// Vertical draw offset for the current step.
    pub offset_y: N,
    pub opacity: N,
    pub dragging: bool,
    /// True for companion sheep, which die instead of respawning.
    pub is_child: bool,
    /// How big the sheep is drawn, as a multiple of the sprite's own size.
    /// Motion is scaled with it, so a big sheep does not crawl.
    pub scale: N,
    /// How fast the sheep lives, as a multiple of its natural pace. It shows
    /// up as the wait between steps, so animation and movement speed up
    /// together and what the sheep chooses to do is untouched.
    pub speed: N,
    /// Whether window sides are solid. Off, windows are ledges only and the
    /// sheep walks straight through their sides; on, it bumps into them and
    /// can climb them the way it climbs a screen edge.
    pub climb_windows: bool,
    /// Whether this sheep belongs to a workspace at all. Off, it has none and
    /// is on every one of them.
    pub workspaces: bool,
    /// The workspace the sheep is on, if it is on one. It is only ever drawn
    /// on a monitor showing this workspace; the rest of the time it carries
    /// on living out of sight.
    pub workspace: Option<i64>,
    /// The pose the current step set out from. Equal to the current pose
    /// whenever the sheep was placed rather than moved, which is what stops a
    /// spawn or a drag from being drawn as a glide across the screen.
    pub prev: Pose<N>,
    /// Stable per-sheep personality value in 0..100.
    pub rand_s: N,
    /// The window we are standing on, if any.
    pub resting_on: Option<u64>,
    /// Velocity of a throw in flight, in logical pixels per second. Set when
    /// the sheep is let go of with the mouse still moving, and cleared the
    /// moment it hits anything.
    pub toss: Option<(N, N)>,
    /// A window whose side the sheep declined to climb or turn at, and is
    /// walking through. Held until it is clear of that window, so the choice
    /// is made once per encounter rather than re-rolled every step.
    pub passing: Option<u64>,
    /// A sheep this one has decided to walk on past rather than turn at. Held
    /// until the two are clear of each other, for the same reason.
    pub passing_sheep: Option<u64>,
    /// The screen the sheep was on as of its last step. Crossing onto
    /// another one is what moves it between workspaces.
    pub on_screen: i64,
    /// A resting place of the pointer this sheep has already been over to
    /// look at. It stops being interesting once looked at, so that a sheep
    /// does not spend its life pacing around an abandoned mouse; move the
    /// pointer and it is news again.
    pub met_pointer: Option<(N, N)>,
    pub situation: Situation,
    /// Cached step count for the current animation.
    pub steps: u32,
}

impl<N: Copy> Copy for Sheep<N> {

}

impl<N: Copy> Clone for Sheep<N> {
    fn clone(&self) -> (r: Self)
        ensures
            r == *self,
    {
        *self
    }
}

/// How far past a window's side the sheep may be and still be turned back by
/// it. Beyond this it did not walk into the side: it was already inside the
/// window - dropped there, or the window opened around it - and walks out.
pub const SIDE_REACH: i64 = 20;

/// The same, for a sheep of this scale: a scaled sheep covers more ground per
/// step, so its reach grows with it.
#[verifier::allow_in_spec]
pub fn side_reach<N: Number>(scale: N) -> N
    returns
        N::whole(SIDE_REACH).times(scale),
{
    N::whole(SIDE_REACH).times(scale)
}

/// How far apart two sheep may be vertically and still be in each other's way,
/// as a fraction of the sprite. Further apart, one is on a ledge above or
/// below the other rather than in front of it.
#[verifier::allow_in_spec]
pub fn meet_reach<N: Number>() -> N
    returns
        ratio::<N>(1, 2),
{
    ratio(1, 2)
}

/// How fast the mouse must still be moving at the moment it lets go for that
/// to be a throw rather than a drop, in logical pixels per second.
pub const TOSS_MIN: i64 = 250;

/// The fastest a sheep can be thrown, however hard the flick.
pub const TOSS_MAX: i64 = 2600;

/// Half a tile.
#[verifier::allow_in_spec]
pub fn half<N: Number>(tile: N) -> N
    returns
        tile.over(N::whole(2)),
{
    tile.over(N::whole(2))
}

/// The identity after this one.
pub open spec fn id_after(id: u64) -> u64 {
    if id == u64::MAX {
        0
    } else {
        (id + 1) as u64
    }
}

/// Hand out the next sheep's identity. Only uniqueness matters.
pub fn next_id(next: &mut u64) -> (r: u64)
    ensures
        r == *old(next),
        *final(next) == id_after(*old(next)),
{
    let id: u64 = *next;
    *next = if id == u64::MAX {
        0
    } else {
        id + 1
    };
    id
}

/// The identity handed out `n` after `first`.
pub open spec fn nth_id(first: u64, n: nat) -> u64
    decreases n,
{
    if n == 0 {
        first
    } else {
        id_after(nth_id(first, (n - 1) as nat))
    }
}

proof fn lemma_nth_id(first: u64, n: nat)
    ensures
        nth_id(first, n) == (first + n) % 0x1_0000_0000_0000_0000,
    decreases n,
{
    if n > 0 {
        lemma_nth_id(first, (n - 1) as nat);
    }
}

/// No identity comes round again before every one has been handed out.
pub proof fn identities_do_not_repeat(first: u64, n: nat, m: nat)
    requires
        n < m,
        m - n < 0x1_0000_0000_0000_0000,
    ensures
        nth_id(first, n) != nth_id(first, m),
{
    lemma_nth_id(first, n);
    lemma_nth_id(first, m);
}

/// What some of a sheep's life comes to: the sheep after it, what the host
/// hears of, and the seed the dice are left at.
pub struct Turn<N> {
    pub sheep: Sheep<N>,
    pub events: Seq<Event<N>>,
    pub seed: u64,
}

/// The companions that the children from place `i` on call for when `sheep`
/// enters animation `id`, and the seed after placing them.
pub open spec fn calls_from<N: Number>(
    children: Seq<Child>,
    id: u32,
    sheep: Sheep<N>,
    ctx: Ctx<N>,
    screen: Screen<N>,
    i: int,
    seed: u64,
) -> (Seq<Event<N>>, u64)
    decreases children.len() - i,
{
    if 0 <= i < children.len() {
        let c = children[i];
        if c.animation_id == id {
            let seed_x = seed_after(c.x@, ctx, seed);
            let seed_y = seed_after(c.y@, ctx, seed_x);
            let call = Event::SpawnChild {
                animation: c.next,
                x: screen.x.plus(sheep.child_x(c, ctx, value_or(c.x@, ctx, zero(), seed))),
                y: screen.y.plus(value_or(c.y@, ctx, zero(), seed_x)),
                rand_s: sheep.rand_s,
                workspace: sheep.workspace,
            };
            let rest = calls_from(children, id, sheep, ctx, screen, i + 1, seed_y);
            (seq![call] + rest.0, rest.1)
        } else {
            calls_from(children, id, sheep, ctx, screen, i + 1, seed)
        }
    } else {
        (seq![], seed)
    }
}

impl<N: Number> Sheep<N> {
    /// A sheep nobody has placed yet.
    pub open spec fn fresh(id: u64, is_child: bool, rand_s: N) -> Sheep<N> {
        Sheep {
            id,
            x: zero(),
            y: zero(),
            animation: 1,
            step: 0,
            flipped: false,
            frame: 0,
            offset_y: zero(),
            opacity: one(),
            dragging: false,
            is_child,
            scale: one(),
            speed: one(),
            climb_windows: false,
            workspaces: false,
            workspace: None,
            prev: Pose { x: zero(), y: zero(), offset_y: zero(), opacity: one() },
            rand_s,
            resting_on: None,
            toss: None,
            passing: None,
            passing_sheep: None,
            on_screen: i64::MIN,
            met_pointer: None,
            situation: Situation {
                on_window: false,
                on_taskbar: false,
                on_vertical: false,
                on_horizontal: false,
            },
            steps: 1,
        }
    }

    /// A new sheep, with a personality of its own.
    pub fn new(is_child: bool, ids: &mut u64, dice: &mut Dice) -> (r: Sheep<N>)
        ensures
            r == Sheep::fresh(
                *old(ids),
                is_child,
                thrown::<N>(old(dice).seed).times(N::whole(100)),
            ),
            *final(ids) == id_after(*old(ids)),
            final(dice).seed == next_seed(old(dice).seed),
    {
        Sheep {
            id: next_id(ids),
            x: zero(),
            y: zero(),
            animation: 1,
            step: 0,
            flipped: false,
            frame: 0,
            offset_y: zero(),
            opacity: one(),
            dragging: false,
            is_child,
            scale: one(),
            speed: one(),
            climb_windows: false,
            workspaces: false,
            workspace: None,
            prev: Pose { x: zero(), y: zero(), offset_y: zero(), opacity: one() },
            rand_s: dice.throw::<N>().times(N::whole(100)),
            resting_on: None,
            toss: None,
            passing: None,
            passing_sheep: None,
            on_screen: i64::MIN,
            met_pointer: None,
            situation: Situation::default(),
            steps: 1,
        }
    }

    /// Adopt a companion's `randS` from the sheep that called it on, so the
    /// two agree on the lengths their animations are timed against.
    pub fn set_rand_s(&mut self, rand_s: N)
        ensures
            *final(self) == (Sheep { rand_s, ..*old(self) }),
    {
        self.rand_s = rand_s;
    }

    /// Where the sheep has stepped to.
    #[verifier::allow_in_spec]
    pub fn pose(&self) -> Pose<N>
        returns
            (Pose { x: self.x, y: self.y, offset_y: self.offset_y, opacity: self.opacity }),
    {
        Pose { x: self.x, y: self.y, offset_y: self.offset_y, opacity: self.opacity }
    }

    /// The pose to draw `t` of the way through the current step, with `t`
    /// running 0 at the moment the step was taken to 1 when the next is due.
    /// At `t = 1` and past it this is exactly [`pose`](Self::pose), so a host
    /// that does not interpolate simply passes 1 and gets the stepped motion
    /// back.
    #[verifier::allow_in_spec]
    pub fn pose_at(&self, t: N) -> Pose<N>
        returns
            (if one::<N>().at_most(t) {
                self.pose()
            } else {
                self.prev.lerp(self.pose(), clamped(t, zero(), one()))
            }),
    {
        if one::<N>().at_most(t) {
            self.pose()
        } else {
            self.prev.lerp(self.pose(), clamped(t, zero(), one()))
        }
    }

    /// Whether there is any ground between the last pose and this one - that
    /// is, whether drawing the sheep again before its next step would show
    /// anything different.
    #[verifier::allow_in_spec]
    pub fn gliding(&self) -> bool
        returns
            !self.prev.alike(&self.pose()),
    {
        !self.prev.alike(&self.pose())
    }

    /// The sheep with nothing to glide across.
    pub open spec fn settled(self) -> Sheep<N> {
        Sheep { prev: self.pose(), ..self }
    }

    /// Declare the sheep to be where it is, with nothing to glide across.
    /// Used wherever it is placed outright rather than moved: a spawn, a
    /// drag, a companion set down by its parent.
    pub fn settle(&mut self)
        ensures
            *final(self) == old(self).settled(),
    {
        self.prev = self.pose();
    }

    /// The screen the sheep is currently on.
    #[verifier::allow_in_spec]
    pub fn screen(&self, world: &World<N>, tile: N) -> Screen<N>
        returns
            (match world.screen_for(self.x.plus(half(tile)), self.y.plus(half(tile))) {
                Some(s) => s,
                None => Screen::nowhere(),
            }),
    {
        match world.screen_for(self.x.plus(half(tile)), self.y.plus(half(tile))) {
            Some(s) => s,
            None => Screen::nowhere(),
        }
    }

    /// Expressions are written for a single screen with its origin at the top
    /// left, so they are evaluated in screen-local coordinates and the results
    /// translated back into the global space.
    #[verifier::allow_in_spec]
    pub fn ctx_on(&self, screen: &Screen<N>, tile: N) -> Ctx<N>
        returns
            (Ctx {
                screen_w: screen.w,
                screen_h: screen.h,
                area_w: screen.w.minus(screen.reserved.0).minus(screen.reserved.2),
                area_h: screen.h.minus(screen.reserved.3),
                image_w: tile,
                image_h: tile,
                image_x: self.x.minus(screen.x),
                image_y: self.y.minus(screen.y),
                rand_s: self.rand_s,
            }),
    {
        Ctx {
            screen_w: screen.w,
            screen_h: screen.h,
            area_w: screen.w.minus(screen.reserved.0).minus(screen.reserved.2),
            area_h: screen.h.minus(screen.reserved.3),
            image_w: tile,
            image_h: tile,
            image_x: self.x.minus(screen.x),
            image_y: self.y.minus(screen.y),
            rand_s: self.rand_s,
        }
    }

    /// What expressions are evaluated against on the screen the sheep is on.
    #[verifier::allow_in_spec]
    pub fn ctx(&self, world: &World<N>, tile: N) -> Ctx<N>
        returns
            self.ctx_on(&self.screen(world, tile), tile),
    {
        self.ctx_on(&self.screen(world, tile), tile)
    }

    /// The same context measured in strides rather than pixels.
    ///
    /// A repeat count is a number of strides, and a stride grows with the
    /// sheep, so any length a repeat count is worked out from has to be
    /// measured in the sheep's own units. Half a screen is half a screen at
    /// any size, but at scale 2 it is only half as many strides away. Without
    /// this the two sheep of the black-sheep meeting each walk the pixel count
    /// of an unscaled screen *times* the scale, and stride straight past each
    /// other instead of meeting in the middle.
    #[verifier::allow_in_spec]
    pub fn in_strides(&self, ctx: &Ctx<N>) -> Ctx<N>
        returns
            ({
                let s = at_least(self.scale, N::least());
                Ctx {
                    screen_w: ctx.screen_w.over(s),
                    screen_h: ctx.screen_h.over(s),
                    area_w: ctx.area_w.over(s),
                    area_h: ctx.area_h.over(s),
                    image_w: ctx.image_w.over(s),
                    image_h: ctx.image_h.over(s),
                    image_x: ctx.image_x.over(s),
                    image_y: ctx.image_y.over(s),
                    rand_s: ctx.rand_s,
                }
            }),
    {
        let s = at_least(self.scale, N::least());
        Ctx {
            screen_w: ctx.screen_w.over(s),
            screen_h: ctx.screen_h.over(s),
            area_w: ctx.area_w.over(s),
            area_h: ctx.area_h.over(s),
            image_w: ctx.image_w.over(s),
            image_h: ctx.image_h.over(s),
            image_x: ctx.image_x.over(s),
            image_y: ctx.image_y.over(s),
            rand_s: ctx.rand_s,
        }
    }

    /// Where a child the file puts at `x` goes: a companion placed beside its
    /// parent belongs beside the sprite as drawn, so a flipped parent has it
    /// on the other side.
    pub open spec fn child_x(self, child: Child, ctx: Ctx<N>, x: N) -> N {
        if self.flipped && child.spec_beside_parent() {
            N::whole(2).times(ctx.image_x).minus(x)
        } else {
            x
        }
    }

    /// Entering an animation: its first step, its length, and the companions
    /// it calls on.
    #[verifier::opaque]
    pub open spec fn entering(
        self,
        pet: Pet<N>,
        world: World<N>,
        tile: N,
        id: u32,
        seed: u64,
    ) -> Turn<N> {
        let ctx = self.ctx(&world, tile);
        let strides = self.in_strides(&ctx);
        let (steps, seed_steps) = match pet.animation(id) {
            Some(a) => (a.spec_steps(strides, seed), a.seed_after_steps(strides, seed)),
            None => (1, seed),
        };
        let sheep = Sheep { animation: id, step: 0, steps, ..self };
        let (events, seed_calls) = calls_from(
            pet.children@,
            id,
            sheep,
            ctx,
            self.screen(&world, tile),
            0,
            seed_steps,
        );
        Turn { sheep, events, seed: seed_calls }
    }

    /// Enter `id`, resetting the sequence and spawning any companion it declares.
    pub fn enter(
        &mut self,
        pet: &Pet<N>,
        world: &World<N>,
        tile: N,
        id: u32,
        events: &mut Vec<Event<N>>,
        dice: &mut Dice,
    )
        ensures
            ({
                let turn = old(self).entering(*pet, *world, tile, id, old(dice).seed);
                &&& *final(self) == turn.sheep
                &&& final(events)@ == old(events)@ + turn.events
                &&& final(dice).seed == turn.seed
            }),
    {
        reveal(Sheep::entering);
        let ctx = self.ctx(world, tile);
        let screen = self.screen(world, tile);
        let strides = self.in_strides(&ctx);
        self.animation = id;
        self.step = 0;
        self.steps = match pet.get(id) {
            Some(a) => a.steps(&strides, dice),
            None => 1,
        };
        let ghost sheep = *self;
        let ghost seed_steps = dice.seed;
        let ghost calls = calls_from(pet.children@, id, sheep, ctx, screen, 0, seed_steps);
        let mut i: usize = 0;
        while i < pet.children.len()
            invariant
                i <= pet.children@.len(),
                *self == sheep,
                calls.0 == events@.skip(old(events)@.len() as int) + calls_from(
                    pet.children@,
                    id,
                    sheep,
                    ctx,
                    screen,
                    i as int,
                    dice.seed,
                ).0,
                calls.1 == calls_from(
                    pet.children@,
                    id,
                    sheep,
                    ctx,
                    screen,
                    i as int,
                    dice.seed,
                ).1,
                events@.len() >= old(events)@.len(),
                events@.take(old(events)@.len() as int) == old(events)@,
            decreases pet.children@.len() - i,
        {
            let c = &pet.children[i];
            if c.animation_id == id {
                let ghost before = events@;
                let mut x = eval_or(c.x.as_str(), &ctx, zero(), dice);
                if self.flipped && c.beside_parent() {
                    x = N::whole(2).times(ctx.image_x).minus(x);
                }
                let y = eval_or(c.y.as_str(), &ctx, zero(), dice);
                let call = Event::SpawnChild {
                    animation: c.next,
                    x: screen.x.plus(x),
                    y: screen.y.plus(y),
                    rand_s: self.rand_s,
                    workspace: self.workspace,
                };
                events.push(call);
                assert(events@.skip(old(events)@.len() as int) == before.skip(
                    old(events)@.len() as int,
                ).push(call));
                assert(events@.take(old(events)@.len() as int) == before.take(
                    old(events)@.len() as int,
                ));
            }
            i = i + 1;
        }
        assert(events@ == events@.take(old(events)@.len() as int) + events@.skip(
            old(events)@.len() as int,
        ));
        assert(calls.0 == events@.skip(old(events)@.len() as int));
    }

    /// Whether anyone can see the sheep: whether the screen it is on is
    /// showing the workspace it belongs to.
    ///
    /// A sheep that belongs to no workspace - which is every sheep with
    /// `workspaces` off - is always on show.
    #[verifier::allow_in_spec]
    pub fn shown(&self, world: &World<N>, tile: N) -> bool
        returns
            (match self.workspace {
                None => true,
                Some(ws) => ws == self.screen(world, tile).workspace,
            }),
    {
        match self.workspace {
            None => true,
            Some(ws) => ws == self.screen(world, tile).workspace,
        }
    }

    /// The sheep, having joined the screen it is on.
    #[verifier::opaque]
    pub open spec fn following(self, world: World<N>, tile: N) -> Sheep<N> {
        let screen = self.screen(&world, tile);
        if screen.id == self.on_screen {
            self
        } else {
            Sheep {
                on_screen: screen.id,
                workspace: match self.workspace {
                    Some(_) => Some(screen.workspace),
                    None => None,
                },
                ..self
            }
        }
    }

    /// Notice having crossed onto another screen, and join whatever that
    /// screen is showing.
    ///
    /// This is what keeps a sheep in sight as it walks over a seam: two
    /// monitors can be showing different workspaces, and a sheep crossing
    /// between them belongs to the one it has walked onto. It is the other
    /// way back into view for a sheep that is out of sight, besides giving up
    /// on its own workspace and coming out on the current one.
    pub fn follow_screen(&mut self, world: &World<N>, tile: N)
        ensures
            *final(self) == old(self).following(*world, tile),
    {
        reveal(Sheep::following);
        let screen = self.screen(world, tile);
        if screen.id == self.on_screen {
            return;
        }
        self.on_screen = screen.id;
        if self.workspace.is_some() {
            self.workspace = Some(screen.workspace);
        }
    }

    /// A sheep out of sight, come out onto the screen it is on: it walks in
    /// from the nearer edge, along the floor, facing in.
    pub open spec fn wandering(self, pet: Pet<N>, world: World<N>, tile: N, seed: u64) -> Turn<N> {
        let screen = self.screen(&world, tile);
        let joined = Sheep {
            workspace: Some(screen.workspace),
            on_screen: screen.id,
            ..self
        };
        match pet.named("walk"@) {
            None => Turn { sheep: joined, events: seq![], seed },
            Some(walk) => {
                let ctx = self.ctx(&world, tile);
                let dx = value_or(walk.end.x@, ctx, zero(), seed);
                let from_left = self.x.plus(half(tile)).below(screen.x.plus(half(screen.w)));
                let sheep = Sheep {
                    x: if from_left {
                        screen.x
                    } else {
                        screen.right().minus(tile)
                    },
                    y: screen.floor().minus(tile),
                    flipped: dx.below(zero()) == from_left,
                    resting_on: None,
                    toss: None,
                    passing: None,
                    passing_sheep: None,
                    met_pointer: None,
                    ..joined
                };
                let turn = sheep.entering(
                    pet,
                    world,
                    tile,
                    walk.id,
                    seed_after(walk.end.x@, ctx, seed),
                );
                Turn { sheep: turn.sheep.settled(), events: seq![], seed: turn.seed }
            },
        }
    }

    /// Give up on a workspace nobody is looking at and come out onto the one
    /// they are.
    ///
    /// Only ever called on a sheep that is out of sight, which is what lets
    /// it be moved: it walks in from the near edge of the screen rather than
    /// appearing out of nowhere in the middle of it. Nobody saw where it was,
    /// so nothing is lost by deciding it was over there all along.
    pub fn wander_on(&mut self, pet: &Pet<N>, world: &World<N>, tile: N, dice: &mut Dice)
        ensures
            ({
                let turn = old(self).wandering(*pet, *world, tile, old(dice).seed);
                &&& *final(self) == turn.sheep
                &&& final(dice).seed == turn.seed
            }),
    {
        let screen = self.screen(world, tile);
        let ctx = self.ctx(world, tile);
        self.workspace = Some(screen.workspace);
        self.on_screen = screen.id;
        // Without a walk in the pet file there is nothing to walk in with, so
        // the sheep simply steps into view where it stands.
        let Some(walk) = pet.by_name("walk") else {
            return ;
        };
        let dx = eval_or(walk.end.x.as_str(), &ctx, zero(), dice);
        let from_left = self.x.plus(half(tile)).below(screen.x.plus(half(screen.w)));
        self.x = if from_left {
            screen.x
        } else {
            screen.right().minus(tile)
        };
        self.y = screen.floor().minus(tile);
        // Turned to face into the screen rather than straight back off it.
        self.flipped = dx.below(zero()) == from_left;
        self.resting_on = None;
        self.toss = None;
        self.passing = None;
        self.passing_sheep = None;
        self.met_pointer = None;
        let mut ignored: Vec<Event<N>> = Vec::new();
        self.enter(pet, world, tile, walk.id, &mut ignored, dice);
        self.settle();
    }

    /// Starting an animation where the sheep has been put.
    pub open spec fn beginning(
        self,
        pet: Pet<N>,
        world: World<N>,
        tile: N,
        id: u32,
        seed: u64,
    ) -> Turn<N> {
        let placed = Sheep { on_screen: self.screen(&world, tile).id, ..self };
        let turn = placed.entering(pet, world, tile, id, seed);
        Turn { sheep: turn.sheep.settled(), ..turn }
    }

    /// Start `id` directly, rather than via the spawn table. Used for
    /// companion sheep, whose animation and position the parent dictates.
    pub fn begin(
        &mut self,
        pet: &Pet<N>,
        world: &World<N>,
        tile: N,
        id: u32,
        events: &mut Vec<Event<N>>,
        dice: &mut Dice,
    )
        ensures
            ({
                let turn = old(self).beginning(*pet, *world, tile, id, old(dice).seed);
                &&& *final(self) == turn.sheep
                &&& final(events)@ == old(events)@ + turn.events
                &&& final(dice).seed == turn.seed
            }),
    {
        // Placed rather than arrived, so this is where it already was: the
        // first step must not read it as having crossed onto a new screen.
        self.on_screen = self.screen(world, tile).id;
        self.enter(pet, world, tile, id, events, dice);
        self.settle();
    }

    /// The screen a sheep is sent to, of those there are.
    pub open spec fn arrival(self, world: World<N>, tile: N, seed: u64) -> Screen<N> {
        if world.screens@.len() == 0 {
            self.screen(&world, tile)
        } else {
            world.screens@[picked(seed, world.screens@.len() as u64) as int]
        }
    }

    /// Starting over at one of the pet's spawn points.
    #[verifier::opaque]
    pub open spec fn spawning(self, pet: Pet<N>, world: World<N>, tile: N, seed: u64) -> Turn<N> {
        match pet.spawn_point(seed) {
            None => Turn { sheep: self, events: seq![], seed },
            Some(spawn) => {
                let seed_point = pet.seed_after_spawn_point(seed);
                let screen = self.arrival(world, tile, seed_point);
                let seed_screen = if world.screens@.len() == 0 {
                    seed_point
                } else {
                    seed_after_pick(seed_point, world.screens@.len() as u64)
                };
                let ctx = self.ctx_on(&screen, tile);
                let seed_x = seed_after(spawn.x@, ctx, seed_screen);
                let placed = Sheep {
                    x: screen.x.plus(value_or(spawn.x@, ctx, zero(), seed_screen)),
                    y: screen.y.plus(value_or(spawn.y@, ctx, zero(), seed_x)),
                    flipped: false,
                    resting_on: None,
                    ..self
                };
                let arrived = placed.screen(&world, tile);
                let sheep = Sheep {
                    on_screen: arrived.id,
                    workspace: if self.workspaces {
                        Some(arrived.workspace)
                    } else {
                        self.workspace
                    },
                    ..placed
                };
                let turn = sheep.entering(
                    pet,
                    world,
                    tile,
                    spawn.next,
                    seed_after(spawn.y@, ctx, seed_x),
                );
                Turn { sheep: turn.sheep.settled(), ..turn }
            },
        }
    }

    /// Place the sheep at a weighted-random spawn point and start its animation.
    pub fn spawn(
        &mut self,
        pet: &Pet<N>,
        world: &World<N>,
        tile: N,
        events: &mut Vec<Event<N>>,
        dice: &mut Dice,
    )
        ensures
            ({
                let turn = old(self).spawning(*pet, *world, tile, old(dice).seed);
                &&& *final(self) == turn.sheep
                &&& final(events)@ == old(events)@ + turn.events
                &&& final(dice).seed == turn.seed
            }),
    {
        reveal(Sheep::spawning);
        let Some(spawn) = pet.choose_spawn(dice) else {
            return ;
        };
        // Pick a monitor to arrive on, so the sheep turns up on either screen.
        let n: usize = world.screens.len();
        let screen = if n == 0 {
            self.screen(world, tile)
        } else {
            world.screens[dice.pick(n as u64) as usize]
        };
        let ctx = self.ctx_on(&screen, tile);
        self.x = screen.x.plus(eval_or(spawn.x.as_str(), &ctx, zero(), dice));
        self.y = screen.y.plus(eval_or(spawn.y.as_str(), &ctx, zero(), dice));
        self.flipped = false;
        self.resting_on = None;
        // A sheep turns up on whatever the screen it arrives on is showing -
        // which at the very edge of one can be the next screen along, since
        // the spawn points are the file's and reach the whole width of it.
        let arrived = self.screen(world, tile);
        self.on_screen = arrived.id;
        if self.workspaces {
            self.workspace = Some(arrived.workspace);
        }
        self.enter(pet, world, tile, spawn.next, events, dice);
        self.settle();
    }

    /// The sheep taken hold of.
    pub open spec fn grabbed(self, pet: Pet<N>, world: World<N>, tile: N, seed: u64) -> Turn<N> {
        let held = Sheep { dragging: true, resting_on: None, toss: None, ..self };
        match pet.named("drag"@) {
            None => Turn { sheep: held, events: seq![], seed },
            Some(drag) => Turn {
                events: seq![],
                ..held.entering(pet, world, tile, drag.id, seed)
            },
        }
    }

    /// Begin a drag: the mouse takes over positioning until released.
    pub fn grab(&mut self, pet: &Pet<N>, world: &World<N>, tile: N, dice: &mut Dice)
        ensures
            ({
                let turn = old(self).grabbed(*pet, *world, tile, old(dice).seed);
                &&& *final(self) == turn.sheep
                &&& final(dice).seed == turn.seed
            }),
    {
        self.dragging = true;
        self.resting_on = None;
        self.toss = None;
        if let Some(drag) = pet.by_name("drag") {
            let mut ignored: Vec<Event<N>> = Vec::new();
            self.enter(pet, world, tile, drag.id, &mut ignored, dice);
        }
    }

    /// The velocity of a throw: as the mouse went, held to the fastest a sheep
    /// can be thrown without changing direction.
    #[verifier::allow_in_spec]
    pub fn throw_of(vx: N, vy: N) -> (N, N)
        returns
            ({
                let speed = vx.hypot(vy);
                let most = N::whole(TOSS_MAX);
                let scale = (if speed.below(most) {
                    speed
                } else {
                    most
                }).over(speed);
                (vx.times(scale), vy.times(scale))
            }),
    {
        let speed = vx.hypot(vy);
        let most = N::whole(TOSS_MAX);
        let scale = (if speed.below(most) {
            speed
        } else {
            most
        }).over(speed);
        (vx.times(scale), vy.times(scale))
    }

    /// The sheep let go of by a mouse moving at `vx`, `vy`.
    pub open spec fn released(
        self,
        pet: Pet<N>,
        world: World<N>,
        tile: N,
        vx: N,
        vy: N,
        seed: u64,
    ) -> Turn<N> {
        let free = Sheep { dragging: false, ..self };
        match pet.spec_fall_animation() {
            Some(fall) if N::whole(TOSS_MIN).at_most(vx.hypot(vy)) => {
                let thrown = Sheep {
                    toss: Some(Sheep::throw_of(vx, vy)),
                    flipped: vx.below(zero()),
                    ..free
                };
                thrown.beginning(pet, world, tile, fall, seed)
            },
            _ => Turn { sheep: Sheep { step: self.steps, ..free }, events: seq![], seed },
        }
    }

    /// End a drag. `vx` and `vy` are how fast the mouse was still travelling
    /// as it let go, in logical pixels per second; let go of a sheep while
    /// moving and it is thrown rather than dropped.
    pub fn release(
        &mut self,
        pet: &Pet<N>,
        world: &World<N>,
        tile: N,
        vx: N,
        vy: N,
        events: &mut Vec<Event<N>>,
        dice: &mut Dice,
    )
        ensures
            ({
                let turn = old(self).released(*pet, *world, tile, vx, vy, old(dice).seed);
                &&& *final(self) == turn.sheep
                &&& final(events)@ == old(events)@ + turn.events
                &&& final(dice).seed == turn.seed
            }),
    {
        self.dragging = false;
        if let Some(fall) = pet.fall_animation() {
            if N::whole(TOSS_MIN).at_most(vx.hypot(vy)) {
                // Keep the direction and only cap the pace, so a hard flick still
                // goes where it was aimed.
                self.toss = Some(Sheep::throw_of(vx, vy));
                self.flipped = vx.below(zero());
                self.begin(pet, world, tile, fall, events, dice);
                return ;
            }
        }
        // The drag sequence is already past its end, so the next step resolves
        // its transition immediately and gravity takes over from there.
        self.step = self.steps;
    }

    /// The sheep dragged so that its middle is at the point.
    pub open spec fn dragged_to(self, x: N, y: N, tile: N) -> Sheep<N> {
        Sheep { x: x.minus(half(tile)), y: y.minus(half(tile)), ..self }.settled()
    }

    /// Follow the mouse.
    pub fn drag_to(&mut self, x: N, y: N, tile: N)
        ensures
            *final(self) == old(self).dragged_to(x, y, tile),
    {
        self.x = x.minus(half(tile));
        self.y = y.minus(half(tile));
        // The pointer is the position; trailing behind it would feel broken.
        self.settle();
    }
}

} // verus!
