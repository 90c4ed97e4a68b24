//! How far a step carries a sheep and how long it takes, counted in units of
//! the last place.

use vstd::prelude::*;

use crate::anim::{Animation, Pet};
use crate::decimals::{
    is_cut_off, products_are_cut_off, rounding_goes_to_whole_numbers, size,
    whole_multiples_are_exact, whole_numbers_are_exact, whole_numbers_are_their_own_whole_parts,
    whole_parts_are_cut_off, whole_shares_are_cut_off,
};
use crate::expr::{seed_after, value_or, Ctx};
use crate::fixed::{quotient_of, Fixed, UNIT};
use crate::ground::{
    a_sheep_on_its_ledge_walks_on, is_bare, is_clear_of_sides, is_near, is_own_window, is_walking,
    stands, PIXEL,
};
use crate::number::{at_least, clamped, one, ratio, zero, Number};
use crate::sheep::{between, Event, Pose, Sheep};
use crate::step::Ramp;
use crate::world::{Screen, World};

verus! {

/// Does the expression come to `v`, whatever is thrown?
pub open spec fn always_comes_to(text: Seq<char>, ctx: Ctx<Fixed>, v: Fixed) -> bool {
    forall|seed: u64| #[trigger] value_or(text, ctx, zero::<Fixed>(), seed) == v
}

/// So far along an animation a value is so far from its start to its end, cut
/// off at the last place: at the first step it is the start, past the last the
/// end, and where the two are the same it never changes.
pub proof fn a_value_ramps_from_start_to_end(ramp: Ramp, a: Fixed, b: Fixed)
    requires
        is_near(a),
        is_near(b),
        -900_000_000 * PIXEL < (b.raw - a.raw) * ramp.at < 900_000_000 * PIXEL,
        1 <= ramp.steps <= 900_000_000,
        ramp.at <= 900_000_000,
        ramp.at <= ramp.steps,
    ensures
        is_cut_off(
            ramp.mix(a, b).raw - a.raw,
            (b.raw - a.raw) * ramp.at,
            ramp.steps as int,
        ),
        ramp.at == 0 ==> ramp.mix(a, b) == a,
        ramp.at == ramp.steps ==> ramp.mix(a, b) == b,
        a == b ==> ramp.mix(a, b) == a,
{
    let d = b.minus(a);
    assert(d.raw == b.raw - a.raw);
    whole_multiples_are_exact(d, ramp.at as int);
    let m = d.times(Fixed::whole(ramp.at as i64));
    assert(m.raw == (b.raw - a.raw) * ramp.at);
    whole_shares_are_cut_off(m, ramp.steps as int);
    let q = m.over(Fixed::whole(ramp.steps as i64)).raw as int;
    let (x, n) = (size(q), ramp.steps as int);
    assert(x <= size(m.raw as int)) by (nonlinear_arith)
        requires
            x * n <= size(m.raw as int),
            n >= 1,
            x >= 0,
    ;
    assert(size(m.raw as int) == size(d.raw as int) * ramp.at) by (nonlinear_arith)
        requires
            m.raw == d.raw * ramp.at,
            ramp.at >= 0,
    ;
    assert(x <= 200_000_000 * PIXEL) by (nonlinear_arith)
        requires
            x * n <= size(m.raw as int),
            size(m.raw as int) == size(d.raw as int) * ramp.at,
            0 <= ramp.at <= n,
            n >= 1,
            0 <= size(d.raw as int) <= 200_000_000 * PIXEL,
    {
        assert(size(d.raw as int) * ramp.at <= size(d.raw as int) * n);
    }
    assert(ramp.mix(a, b).raw == a.raw + q);
    if ramp.at == 0 {
        assert(m.raw == 0);
        assert(x == 0) by (nonlinear_arith)
            requires
                x * n <= 0,
                n >= 1,
                x >= 0,
        ;
    }
    if ramp.at == ramp.steps {
        assert(size(m.raw as int) == size(d.raw as int) * n) by (nonlinear_arith)
            requires
                m.raw == d.raw * n,
                n >= 1,
        ;
        assert(x == size(d.raw as int)) by (nonlinear_arith)
            requires
                x * n <= size(d.raw as int) * n < (x + 1) * n,
                n >= 1,
        ;
        assert((m.raw > 0) == (d.raw > 0)) by (nonlinear_arith)
            requires
                m.raw == d.raw * n,
                n >= 1,
        ;
    }
    if a == b {
        assert(m.raw == 0) by (nonlinear_arith)
            requires
                m.raw == (b.raw - a.raw) * ramp.at,
                a.raw == b.raw,
        ;
        assert(x == 0) by (nonlinear_arith)
            requires
                x * n <= 0,
                n >= 1,
                x >= 0,
        ;
    }
}

proof fn lemma_steady(ramp: Ramp, v: Fixed)
    requires
        is_near(v),
        ramp.at <= 900_000_000,
        ramp.steps <= 900_000_000,
    ensures
        ramp.mix(v, v) == v,
{
    let d = v.minus(v);
    assert(d.raw == 0);
    whole_multiples_are_exact(d, ramp.at as int);
    let m = d.times(Fixed::whole(ramp.at as i64));
    let n = if ramp.steps < 1 {
        1int
    } else {
        ramp.steps as int
    };
    whole_shares_are_cut_off(m, n);
    let x = size(m.over(Fixed::whole(n as i64)).raw as int);
    assert(x == 0) by (nonlinear_arith)
        requires
            x * n <= 0,
            n >= 1,
            x >= 0,
    ;
}

/// Flipping mirrors the way a sheep goes left and right and nothing else: two
/// sheep that are alike but for being flipped are carried as far, one to the
/// left and one to the right, and as far up or down.
pub proof fn flipping_mirrors_the_way(
    s: Sheep<Fixed>,
    anim: Animation<Fixed>,
    ctx: Ctx<Fixed>,
    seed: u64,
)
    requires
        is_near(s.x),
        is_near(s.y),
        s.scale.raw == UNIT,
    ensures
        ({
            let (a, ax, ay, a_seed) = Sheep { flipped: false, ..s }.walked(anim, ctx, seed);
            let (b, bx, by, b_seed) = Sheep { flipped: true, ..s }.walked(anim, ctx, seed);
            let speed = (Ramp { at: s.step, steps: s.steps }).along(
                anim.start.x@,
                anim.end.x@,
                ctx,
                seed_after(anim.end.y@, ctx, seed_after(anim.end.x@, ctx, seed)),
            ).0;
            &&& is_near(speed) ==> a.x.raw - s.x.raw == s.x.raw - b.x.raw
            &&& (a.x.raw - s.x.raw) % PIXEL as int == 0 || !is_near(speed)
            &&& is_near(speed) && speed.raw >= PIXEL ==> a.x.raw > s.x.raw
            &&& is_near(speed) && speed.raw <= -PIXEL ==> a.x.raw < s.x.raw
            &&& a.y == b.y
            &&& a.offset_y == b.offset_y
            &&& a.opacity == b.opacity
            &&& a.step == b.step
            &&& ay == by
            &&& a_seed == b_seed
        }),
{
    reveal(Sheep::walked);
    let x2 = value_or(anim.end.x@, ctx, zero::<Fixed>(), seed);
    let seed_x2 = seed_after(anim.end.x@, ctx, seed);
    let seed_y2 = seed_after(anim.end.y@, ctx, seed_x2);
    let at = Ramp { at: s.step, steps: s.steps };
    let dx = at.along(anim.start.x@, anim.end.x@, ctx, seed_y2).0;
    if is_near(dx) {
        lemma_carried(dx, s.scale, 1);
        lemma_carried(dx, s.scale, -1);
    }
}

/// The way a sheep of its natural size is carried: the speed with the sign,
/// its fraction dropped.
proof fn lemma_carried(speed: Fixed, scale: Fixed, sign: int)
    requires
        is_near(speed),
        scale.raw == UNIT,
        sign == 1 || sign == -1,
    ensures
        ({
            let d = speed.times(Fixed::whole(sign as i64)).times(scale).trunc().raw as int;
            &&& d % 10_000_000_000 == 0
            &&& 0 <= size(speed.raw as int) - size(d) < 10_000_000_000
            &&& d > 0 ==> speed.raw * sign > 0
            &&& d < 0 ==> speed.raw * sign < 0
            &&& is_near(Fixed { raw: d as i64 })
        }),
{
    whole_multiples_are_exact(speed, sign);
    let v = speed.times(Fixed::whole(sign as i64));
    assert(v.raw == speed.raw * sign);
    assert(size(v.raw as int) == size(speed.raw as int)) by (nonlinear_arith)
        requires
            v.raw == speed.raw * sign,
            sign == 1 || sign == -1,
    ;
    whole_numbers_are_exact(1);
    assert(scale == Fixed::whole(1));
    whole_multiples_are_exact(v, 1);
    rounding_goes_to_whole_numbers(v);
}

/// A sheep in an animation of a whole speed is carried that many pixels a
/// step, times its scale: to the side it faces, and up or down as the
/// animation says.
pub proof fn a_step_carries_a_sheep_its_speed(
    s: Sheep<Fixed>,
    anim: Animation<Fixed>,
    ctx: Ctx<Fixed>,
    across: int,
    down: int,
    scale: int,
    seed: u64,
)
    requires
        is_near(s.x),
        is_near(s.y),
        s.steps <= 900_000_000,
        s.step < s.steps,
        -10_000 <= across <= 10_000,
        -10_000 <= down <= 10_000,
        1 <= scale <= 1_000,
        s.scale.raw == scale * PIXEL,
        always_comes_to(anim.start.x@, ctx, Fixed { raw: (across * PIXEL) as i64 }),
        always_comes_to(anim.end.x@, ctx, Fixed { raw: (across * PIXEL) as i64 }),
        always_comes_to(anim.start.y@, ctx, Fixed { raw: (down * PIXEL) as i64 }),
        always_comes_to(anim.end.y@, ctx, Fixed { raw: (down * PIXEL) as i64 }),
    ensures
        ({
            let (after, x2, y2, _) = s.walked(anim, ctx, seed);
            let faced = if s.flipped {
                -across
            } else {
                across
            };
            &&& after.x.raw == s.x.raw + (faced * scale) * PIXEL
            &&& after.y.raw == s.y.raw + (down * scale) * PIXEL
            &&& x2.raw == faced * PIXEL
            &&& y2.raw == down * PIXEL
            &&& after.step == s.step + 1
            &&& after.animation == s.animation
            &&& after.flipped == s.flipped
            &&& after.resting_on == s.resting_on
        }),
{
    reveal(Sheep::walked);
    let at = Ramp { at: s.step, steps: s.steps };
    let (vx, vy) = (
        Fixed { raw: (across * PIXEL) as i64 },
        Fixed { raw: (down * PIXEL) as i64 },
    );
    lemma_steady(at, vx);
    lemma_steady(at, vy);
    let sign = if s.flipped {
        -1int
    } else {
        1int
    };
    let faced = across * sign;
    assert(faced == if s.flipped {
        -across
    } else {
        across
    }) by (nonlinear_arith)
        requires
            faced == across * sign,
            sign == if s.flipped {
                -1int
            } else {
                1int
            },
    ;
    assert(vx.raw * sign == faced * PIXEL) by (nonlinear_arith)
        requires
            vx.raw == across * PIXEL,
            faced == across * sign,
    ;
    whole_multiples_are_exact(vx, sign);
    let turned = vx.times(Fixed::whole(sign as i64));
    assert(turned.raw == faced * PIXEL);
    whole_numbers_are_exact(scale as i64);
    assert(s.scale == Fixed::whole(scale as i64));
    lemma_scaled(turned, faced, scale);
    lemma_scaled(vy, down, scale);
    whole_multiples_are_exact(vx, sign);
}

proof fn lemma_scaled(v: Fixed, n: int, scale: int)
    requires
        v.raw == n * PIXEL,
        -10_000 <= n <= 10_000,
        1 <= scale <= 1_000,
    ensures
        v.times(Fixed::whole(scale as i64)).trunc().raw == (n * scale) * PIXEL,
        -10_000_000 <= n * scale <= 10_000_000,
{
    assert(-10_000_000 <= n * scale <= 10_000_000) by (nonlinear_arith)
        requires
            -10_000 <= n <= 10_000,
            1 <= scale <= 1_000,
    ;
    assert(v.raw * scale == (n * scale) * PIXEL) by (nonlinear_arith)
        requires
            v.raw == n * PIXEL,
    ;
    whole_multiples_are_exact(v, scale);
    whole_numbers_are_their_own_whole_parts(v.times(Fixed::whole(scale as i64)), n * scale);
}

/// A sheep is drawn as far below its place as the animation says, times its
/// scale, and fades from how solid the animation starts to how solid it ends.
pub proof fn a_step_lifts_and_fades_a_sheep(
    s: Sheep<Fixed>,
    anim: Animation<Fixed>,
    ctx: Ctx<Fixed>,
    lift: int,
    scale: int,
    seed: u64,
)
    requires
        1 <= s.steps <= 10_000,
        s.step <= s.steps,
        -10_000 <= lift <= 10_000,
        1 <= scale <= 1_000,
        s.scale.raw == scale * PIXEL,
        always_comes_to(anim.start.offset_y@, ctx, Fixed { raw: (lift * PIXEL) as i64 }),
        always_comes_to(anim.end.offset_y@, ctx, Fixed { raw: (lift * PIXEL) as i64 }),
        0 <= anim.start.opacity.raw <= PIXEL,
        0 <= anim.end.opacity.raw <= PIXEL,
    ensures
        ({
            let after = s.walked(anim, ctx, seed).0;
            let (from, to) = (anim.start.opacity.raw, anim.end.opacity.raw);
            &&& after.offset_y.raw == (lift * scale) * PIXEL
            &&& is_cut_off(after.opacity.raw - from, (to - from) * s.step, s.steps as int)
            &&& s.step == 0 ==> after.opacity == anim.start.opacity
            &&& s.step == s.steps ==> after.opacity == anim.end.opacity
        }),
{
    reveal(Sheep::walked);
    let at = Ramp { at: s.step, steps: s.steps };
    let v = Fixed { raw: (lift * PIXEL) as i64 };
    lemma_steady(at, v);
    whole_numbers_are_exact(scale as i64);
    assert(s.scale == Fixed::whole(scale as i64));
    assert(v.raw * scale == (lift * scale) * PIXEL && -10_000_000 <= lift * scale <= 10_000_000)
        by (nonlinear_arith)
        requires
            v.raw == lift * PIXEL,
            -10_000 <= lift <= 10_000,
            1 <= scale <= 1_000,
    ;
    whole_multiples_are_exact(v, scale);
    let (from, to) = (anim.start.opacity, anim.end.opacity);
    let (d, k, n) = (to.raw - from.raw, s.step as int, s.steps as int);
    assert(-PIXEL * 10_000 <= d * k <= PIXEL * 10_000) by (nonlinear_arith)
        requires
            -PIXEL <= d <= PIXEL,
            0 <= k <= 10_000,
    ;
    a_value_ramps_from_start_to_end(at, from, to);
    let mixed = at.mix(from, to).raw as int;
    let x = mixed - from.raw;
    assert(size(x) <= size(d)) by (nonlinear_arith)
        requires
            size(x) * n <= size(d * k),
            0 <= k <= n,
            n >= 1,
    {
        assert(size(d * k) == size(d) * k);
        assert(size(d) * k <= size(d) * n);
    }
    if x > 0 {
        assert(d > 0) by (nonlinear_arith)
            requires
                (d * k > 0) == (n > 0),
                n >= 1,
                k >= 0,
        ;
    }
    if x < 0 {
        assert(d < 0) by (nonlinear_arith)
            requires
                (d * k > 0) != (n > 0),
                size(x) * n <= size(d * k),
                n >= 1,
                k >= 0,
                x < 0,
        {
            assert(size(x) * n >= 1);
        }
    }
    assert(0 <= mixed <= PIXEL);
}

// -- time --

/// The wait between steps is as long as the animation says, shared out by how
/// fast the sheep lives, in whole milliseconds and never less than ten: twice
/// the speed is half the wait.
pub proof fn a_fast_sheep_waits_less(s: Sheep<Fixed>, ms: Fixed)
    requires
        0 < s.speed.raw <= 1_000_000 * PIXEL,
        0 <= ms.raw,
        ms.raw <= s.speed.raw * 900_000_000,
    ensures
        ({
            let w = s.wait(ms);
            &&& 10 <= w
            &&& w > 10 ==> w * s.speed.raw <= ms.raw < (w + 1) * s.speed.raw
            &&& w == 10 ==> ms.raw < 11 * s.speed.raw
        }),
{
    let speed = at_least(s.speed, Fixed::least());
    assert(speed == s.speed) by {
        if s.speed.raw == 1 {
            assert(Fixed::least() == s.speed);
        }
    }
    let q = quotient_of(ms.raw * UNIT, s.speed.raw as int);
    let (n, v) = (ms.raw * UNIT, s.speed.raw as int);
    assert(n >= 0);
    assert(q == n / v);
    assert(0 <= n / v && (n / v) * v <= n < (n / v + 1) * v) by (nonlinear_arith)
        requires
            n >= 0,
            v > 0,
    ;
    assert(q <= 900_000_000 * UNIT) by (nonlinear_arith)
        requires
            q * v <= n,
            n == ms.raw * UNIT,
            ms.raw <= v * 900_000_000,
            v > 0,
            UNIT == 10_000_000_000,
    ;
    let held = ms.over(speed);
    assert(held.raw == q);
    whole_parts_are_cut_off(held);
    let u = held.to_u64() as int;
    assert(u * v <= ms.raw < (u + 1) * v) by (nonlinear_arith)
        requires
            u * 10_000_000_000 <= q < (u + 1) * 10_000_000_000,
            q * v <= n < (q + 1) * v,
            n == ms.raw * 10_000_000_000,
            v > 0,
    ;
    if u < 10 {
        assert((u + 1) * v <= 11 * v) by (nonlinear_arith)
            requires
                u < 10,
                v > 0,
        ;
    }
}

// -- a whole step --

/// A sheep that walks along a window, in an animation of a whole speed and a
/// steady pace, takes its step: it is carried its speed to the side it faces,
/// shows the frame of the step, is drawn from where it was, stays on the window
/// and in the animation, and waits as long as the animation says at its speed.
pub proof fn a_walking_sheep_takes_its_step(
    s: Sheep<Fixed>,
    pet: Pet<Fixed>,
    world: World<Fixed>,
    tile: Fixed,
    sc: Screen<Fixed>,
    anim: Animation<Fixed>,
    across: int,
    ms: Fixed,
    i: int,
    seed: u64,
)
    requires
        is_bare(world, sc),
        is_walking(s, tile),
        s.step + 1 < s.steps <= 900_000_000,
        !s.dragging,
        pet.animation(s.animation) == Some(anim),
        s.scale.raw == PIXEL,
        -10_000 <= across <= 10_000,
        0 < s.speed.raw <= 1_000_000 * PIXEL,
        0 <= ms.raw <= 1_000_000 * PIXEL,
        ms.raw <= s.speed.raw * 900_000_000,
        -90_000_000 * PIXEL <= s.x.raw <= 90_000_000 * PIXEL,
        ({
            let ctx = s.ctx(&world, tile);
            &&& always_comes_to(anim.start.x@, ctx, Fixed { raw: (across * PIXEL) as i64 })
            &&& always_comes_to(anim.end.x@, ctx, Fixed { raw: (across * PIXEL) as i64 })
            &&& always_comes_to(anim.start.y@, ctx, Fixed { raw: 0 })
            &&& always_comes_to(anim.end.y@, ctx, Fixed { raw: 0 })
            &&& always_comes_to(anim.start.interval@, ctx, ms)
            &&& always_comes_to(anim.end.interval@, ctx, ms)
        }),
        is_own_window(world, i),
        s.resting_on == Some(world.windows@[i].id),
        ({
            let faced = if s.flipped {
                -across
            } else {
                across
            };
            let there = Sheep { x: Fixed { raw: (s.x.raw + faced * PIXEL) as i64 }, ..s };
            &&& stands(there, tile, world.windows@[i])
            &&& is_clear_of_sides(there, tile, sc, Fixed { raw: (faced * PIXEL) as i64 })
        }),
    ensures
        ({
            let (turn, wait) = s.stepping(pet, world, tile, seed);
            let faced = if s.flipped {
                -across
            } else {
                across
            };
            &&& turn.sheep.x.raw == s.x.raw + faced * PIXEL
            &&& turn.sheep.y == s.y
            &&& turn.sheep.prev == Pose {
                x: s.x,
                y: s.y,
                offset_y: s.offset_y,
                opacity: s.opacity,
            }
            &&& anim.frames@.len() > s.step ==> turn.sheep.frame == anim.frames@[s.step as int]
            &&& turn.sheep.animation == s.animation
            &&& turn.sheep.step == s.step + 1
            &&& turn.sheep.flipped == s.flipped
            &&& turn.sheep.resting_on == s.resting_on
            &&& turn.events == Seq::<Event<Fixed>>::empty()
            &&& 10 <= wait
            &&& wait > 10 ==> wait * s.speed.raw <= ms.raw < (wait + 1) * s.speed.raw
            &&& wait == 10 ==> ms.raw < 11 * s.speed.raw
        }),
{
    reveal(Sheep::going_on);
    reveal(Sheep::following);
    let ctx = s.ctx(&world, tile);
    let posed = Sheep { frame: anim.spec_frame_at(s.step), prev: s.pose(), ..s };
    assert(across * 1 == across);
    a_step_carries_a_sheep_its_speed(posed, anim, ctx, across, 0, 1, seed);
    let (walked, x2, y2, seed_walk) = posed.walked(anim, ctx, seed);
    assert(walked.toss is None && !walked.climb_windows && walked.steps == s.steps
        && walked.prev == s.pose() && walked.frame == posed.frame && walked.speed == s.speed) by {
        reveal(Sheep::walked);
    }
    let faced = if s.flipped {
        -across
    } else {
        across
    };
    assert((faced * 1) * PIXEL == faced * PIXEL) by (nonlinear_arith);
    assert(walked.x.raw == s.x.raw + faced * PIXEL);
    let there = Sheep { x: Fixed { raw: (s.x.raw + faced * PIXEL) as i64 }, ..s };
    assert(walked.y == s.y);
    assert(x2 == Fixed { raw: (faced * PIXEL) as i64 });
    a_sheep_on_its_ledge_walks_on(
        walked,
        pet,
        world,
        tile,
        sc,
        anim,
        x2,
        y2,
        i,
        seed_walk,
    );
    let v = walked.resolving(pet, world, tile, anim, x2, y2, seed_walk);
    let at = Ramp { at: v.turn.sheep.step, steps: s.steps };
    lemma_steady(at, ms);
    a_fast_sheep_waits_less(v.turn.sheep, ms);
}

// -- flight --

/// A thrown sheep is moved along its arc by a fortieth of what it does in a
/// second, to the last place; it is drawn solid and where it is.
pub proof fn a_throw_carries_a_sheep(s: Sheep<Fixed>, vx: Fixed, vy: Fixed)
    requires
        is_near(s.x),
        is_near(s.y),
        is_near(vx),
        is_near(vy),
        0 < s.scale.raw <= 1_000 * PIXEL,
    ensures
        ({
            let after = s.flown(vx, vy);
            &&& is_cut_off(after.x.raw - s.x.raw, vx.raw as int, 40)
            &&& is_cut_off(after.y.raw - s.y.raw, vy.raw as int, 40)
            &&& after.offset_y.raw == 0
            &&& after.opacity.raw == PIXEL
            &&& after.flipped == s.flipped
            &&& after.toss is Some
        }),
{
    reveal(Sheep::flown);
    lemma_fortieth(vx);
    lemma_fortieth(vy);
}

proof fn lemma_tick()
    ensures
        ratio::<Fixed>(25, 1000).raw == 250_000_000,
{
    whole_numbers_are_exact(25);
    whole_shares_are_cut_off(Fixed::whole(25), 1000);
    let r = ratio::<Fixed>(25, 1000).raw as int;
    let (x, d) = (size(r), size(1000));
    assert(x == 250_000_000) by (nonlinear_arith)
        requires
            x * d <= 250_000_000_000 < (x + 1) * d,
            d == 1000,
    ;
    assert(r >= 0);
    assert(r == x);
}

proof fn lemma_fortieth(v: Fixed)
    requires
        is_near(v),
    ensures
        is_cut_off(v.times(ratio::<Fixed>(25, 1000)).raw as int, v.raw as int, 40),
        is_near(v.times(ratio::<Fixed>(25, 1000))),
{
    let dt = ratio::<Fixed>(25, 1000);
    lemma_tick();
    let n = v.raw * 250_000_000;
    let q = quotient_of(n, UNIT as int);
    let (m, x) = (size(v.raw as int), size(q));
    assert(size(n) == m * 250_000_000) by (nonlinear_arith)
        requires
            n == v.raw * 250_000_000,
            m == size(v.raw as int),
    ;
    assert(x == size(n) / 10_000_000_000);
    assert(x * 40 <= m < (x + 1) * 40);
    products_are_cut_off(v, dt);
}

/// A throw loses speed to the air and gains it to the ground: what it keeps
/// of its speed across is what a throw keeps, and what it keeps of its speed
/// down is that of sixty pixels a second more, for every whole of its scale.
pub proof fn a_throw_falls_and_tires(s: Sheep<Fixed>, vx: Fixed, vy: Fixed, scale: int)
    requires
        -10_000 * PIXEL <= vx.raw <= 10_000 * PIXEL,
        -10_000 * PIXEL <= vy.raw <= 10_000 * PIXEL,
        1 <= scale <= 1_000,
        s.scale.raw == scale * PIXEL,
    ensures
        ({
            let (ax, ay) = s.flown(vx, vy).toss->0;
            let keep = Fixed::toss_keep().raw as int;
            &&& is_cut_off(ax.raw as int, vx.raw * keep, PIXEL as int)
            &&& is_cut_off(ay.raw as int, (vy.raw + 60 * scale * PIXEL) * keep, PIXEL as int)
            &&& 9_900_000_000 < keep < 9_920_000_000
        }),
{
    reveal(Sheep::flown);
    let keep = Fixed::toss_keep();
    let dt = ratio::<Fixed>(25, 1000);
    lemma_tick();
    let pull = Fixed::whole(2400).times(s.scale);
    whole_multiples_are_exact(s.scale, 2400);
    assert(pull.raw == (2400 * scale) * PIXEL);
    let gravity = pull.times(dt);
    let n = pull.raw * 250_000_000;
    assert(n == (60 * scale * PIXEL) * 10_000_000_000);
    assert(quotient_of(n, UNIT as int) == 60 * scale * PIXEL);
    assert(gravity.raw == 60 * scale * PIXEL);
    let down = vy.plus(gravity);
    assert(down.raw == vy.raw + 60 * scale * PIXEL);
    lemma_kept(vx);
    lemma_kept(down);
}

proof fn lemma_kept(v: Fixed)
    requires
        -1_000_000 * PIXEL <= v.raw <= 1_000_000 * PIXEL,
    ensures
        is_cut_off(
            v.times(Fixed::toss_keep()).raw as int,
            v.raw * Fixed::toss_keep().raw,
            PIXEL as int,
        ),
{
    let keep = Fixed::toss_keep();
    let n = v.raw * keep.raw;
    assert(-1_000_000 * PIXEL * PIXEL <= n <= 1_000_000 * PIXEL * PIXEL) by (nonlinear_arith)
        requires
            n == v.raw * keep.raw,
            0 <= keep.raw <= PIXEL,
            -1_000_000 * PIXEL <= v.raw <= 1_000_000 * PIXEL,
            PIXEL == 10_000_000_000,
    ;
    let q = quotient_of(n, UNIT as int);
    assert(size(q) == size(n) / 10_000_000_000);
    products_are_cut_off(v, keep);
}

// -- drawing between steps --

/// Between two steps a sheep is drawn on the straight line from where it was
/// to where it is, so far along as the time is.
pub proof fn a_pose_lies_on_the_way(a: Fixed, b: Fixed, t: Fixed)
    requires
        is_near(a),
        is_near(b),
        0 <= t.raw <= PIXEL,
    ensures
        is_cut_off(between(a, b, t).raw - a.raw, (b.raw - a.raw) * t.raw, PIXEL as int),
        a.raw <= b.raw ==> a.raw <= between(a, b, t).raw <= b.raw,
        b.raw <= a.raw ==> b.raw <= between(a, b, t).raw <= a.raw,
        t.raw == 0 ==> between(a, b, t) == a,
        t.raw == PIXEL ==> between(a, b, t) == b,
{
    let d = b.minus(a);
    assert(d.raw == b.raw - a.raw);
    let n = d.raw * t.raw;
    let q = quotient_of(n, UNIT as int);
    let (m, x) = (size(d.raw as int), size(q));
    assert(size(n) == m * t.raw) by (nonlinear_arith)
        requires
            n == d.raw * t.raw,
            t.raw >= 0,
            m == size(d.raw as int),
    ;
    assert(x == size(n) / 10_000_000_000);
    assert(0 <= m * t.raw <= m * 10_000_000_000) by (nonlinear_arith)
        requires
            0 <= t.raw <= 10_000_000_000,
            m >= 0,
    ;
    assert(0 <= x <= m);
    products_are_cut_off(d, t);
    assert((n > 0) ==> (d.raw > 0)) by (nonlinear_arith)
        requires
            n == d.raw * t.raw,
            t.raw >= 0,
    ;
    assert((n < 0) ==> (d.raw < 0)) by (nonlinear_arith)
        requires
            n == d.raw * t.raw,
            t.raw >= 0,
    ;
    if t.raw == 0 {
        assert(n == 0) by (nonlinear_arith)
            requires
                n == d.raw * t.raw,
                t.raw == 0,
        ;
    }
}

/// Every part of a pose is drawn on the way: across, down, the lift and how
/// solid it is. From the end of the step on it is where the sheep is.
pub proof fn a_sheep_is_drawn_on_its_way(s: Sheep<Fixed>, t: Fixed)
    requires
        is_near(s.prev.x) && is_near(s.x),
        is_near(s.prev.y) && is_near(s.y),
        is_near(s.prev.offset_y) && is_near(s.offset_y),
        is_near(s.prev.opacity) && is_near(s.opacity),
    ensures
        ({
            let p = s.pose_at(t);
            let along = if t.raw < 0 {
                0int
            } else if t.raw > PIXEL {
                PIXEL as int
            } else {
                t.raw as int
            };
            &&& is_cut_off(p.x.raw - s.prev.x.raw, (s.x.raw - s.prev.x.raw) * along, PIXEL as int)
            &&& is_cut_off(p.y.raw - s.prev.y.raw, (s.y.raw - s.prev.y.raw) * along, PIXEL as int)
            &&& is_cut_off(
                p.offset_y.raw - s.prev.offset_y.raw,
                (s.offset_y.raw - s.prev.offset_y.raw) * along,
                PIXEL as int,
            )
            &&& is_cut_off(
                p.opacity.raw - s.prev.opacity.raw,
                (s.opacity.raw - s.prev.opacity.raw) * along,
                PIXEL as int,
            )
            &&& PIXEL <= t.raw ==> p.x == s.x && p.y == s.y && p.offset_y == s.offset_y
                && p.opacity == s.opacity
        }),
{
    let u = clamped(t, zero::<Fixed>(), one());
    a_pose_lies_on_the_way(s.prev.x, s.x, u);
    a_pose_lies_on_the_way(s.prev.y, s.y, u);
    a_pose_lies_on_the_way(s.prev.offset_y, s.offset_y, u);
    a_pose_lies_on_the_way(s.prev.opacity, s.opacity, u);
}

} // verus!
