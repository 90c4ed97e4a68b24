//! What a flock does from frame to frame, counted in whole units.

use vstd::prelude::*;

use crate::blit::{grips_from, Grip, Panel};
use crate::decimals::{
    is_cut_off, quotients_are_cut_off, size, whole_multiples_are_exact, whole_numbers_are_exact,
    whole_parts_are_cut_off,
};
use crate::fixed::{quotient_of, Fixed};
use crate::flock::{
    calls_in, caught_up, covers, dragged, later, let_go, look_of, ordinary_from, refresh_interval,
    run_from, squares_from, ticked, Pen, State, Yard, MAX_STEPS_PER_FRAME,
};
use crate::ground::{is_near, PIXEL};
use crate::laws::a_step_keeps_the_sheep;
use crate::mouse::{elapsed, Spot, Trail};
use crate::number::{clamped, ratio, Number};
use crate::picture::{is_nearest_pixel, lemma_rounded};
use crate::placing::a_held_sheep_is_drawn_held;
use crate::sheep::{Event, Sheep};
use crate::world::{
    every_point_belongs_to_a_screen, is_nearest, lemma_there_is_a_nearest, nearest, screen_from,
    Rect, Screen, World,
};

verus! {

// -- time --

/// Milliseconds are counted in millions of the clock's units, and the clock
/// does not run over.
pub proof fn a_millisecond_is_a_million(t: u64, ms: u64)
    ensures
        t + ms * 1_000_000 <= u64::MAX ==> later(t, ms) == t + ms * 1_000_000,
        t + ms * 1_000_000 > u64::MAX ==> later(t, ms) == u64::MAX,
{
}

/// The layout is read five times a second while anything has been said of it
/// or was moving in the last two seconds, and every two seconds else.
pub proof fn the_layout_is_read_while_it_moves(dirty: bool, since_change: u64)
    ensures
        dirty || since_change < 2_000_000_000 ==> refresh_interval(dirty, since_change)
            == 200_000_000,
        !dirty && since_change >= 2_000_000_000 ==> refresh_interval(dirty, since_change)
            == 2_000_000_000,
{
}

// -- the mouse --

/// The clock of the mouse comes round to zero. A step of it takes the time
/// from one moment to the other, a millisecond at least.
pub proof fn the_clock_of_the_mouse_comes_round(from: u32, to: u32)
    ensures
        from < to ==> elapsed(from, to) == to - from,
        from == to ==> elapsed(from, to) == 1,
        to < from ==> elapsed(from, to) == to + 0x1_0000_0000 - from,
{
    if to < from {
        assert((to - from) % 0x1_0000_0000 == to - from + 0x1_0000_0000);
    }
}

/// The mouse goes as fast as its last two places are apart, each way, over the
/// time between them; with less than two places it stands still.
pub proof fn the_mouse_goes_as_far_as_it_went(a: Spot<Fixed>, b: Spot<Fixed>)
    requires
        -100_000 * PIXEL <= b.x.raw - a.x.raw <= 100_000 * PIXEL,
        -100_000 * PIXEL <= b.y.raw - a.y.raw <= 100_000 * PIXEL,
        a.time < b.time <= a.time + 900_000_000,
    ensures
        ({
            let (vx, vy) = (Trail { before: Some(a), last: Some(b) }).pace();
            let ms = b.time - a.time;
            &&& is_cut_off(vx.raw as int, (b.x.raw - a.x.raw) * 1000, ms)
            &&& is_cut_off(vy.raw as int, (b.y.raw - a.y.raw) * 1000, ms)
        }),
        (Trail::<Fixed> { before: None, last: Some(b) }).pace() == (
            Fixed { raw: 0 },
            Fixed { raw: 0 },
        ),
{
    let ms = b.time - a.time;
    the_clock_of_the_mouse_comes_round(a.time, b.time);
    let seconds = ratio::<Fixed>(ms as i64, 1000);
    whole_numbers_are_exact(1000);
    assert(seconds.raw == ms * 10_000_000) by {
        let raw = Fixed::whole(ms as i64).raw;
        assert(raw == ms * PIXEL || raw == i64::MAX);
        lemma_seconds(ms);
    }
    lemma_pace((b.x.raw - a.x.raw) as int, ms);
    lemma_pace((b.y.raw - a.y.raw) as int, ms);
}

proof fn lemma_seconds(ms: int)
    requires
        1 <= ms <= 0xffff_ffff,
        ms * PIXEL <= i64::MAX,
    ensures
        quotient_of((ms * PIXEL) * PIXEL, 1000 * PIXEL) == ms * 10_000_000,
{
    assert((ms * PIXEL) * PIXEL / (1000 * PIXEL) == ms * 10_000_000 && (ms * PIXEL) * PIXEL >= 0)
        by (nonlinear_arith)
        requires
            PIXEL == 10_000_000_000,
            ms >= 1,
    ;
}

proof fn lemma_pace(d: int, ms: int)
    requires
        -100_000 * PIXEL <= d <= 100_000 * PIXEL,
        1 <= ms <= 900_000_000,
    ensures
        is_cut_off(
            Fixed { raw: d as i64 }.over(Fixed { raw: (ms * 10_000_000) as i64 }).raw as int,
            d * 1000,
            ms,
        ),
{
    let (a, b) = (Fixed { raw: d as i64 }, Fixed { raw: (ms * 10_000_000) as i64 });
    let (n, by) = (size(d) * PIXEL, ms * 10_000_000);
    assert(0 <= n / by <= 1_000_000_000_000_000_000 && n >= 0) by (nonlinear_arith)
        requires
            0 <= size(d) <= 100_000 * PIXEL,
            PIXEL == 10_000_000_000,
            n == size(d) * PIXEL,
            by >= 10_000_000,
    ;
    assert(quotient_of(d * PIXEL, by) == n / by || quotient_of(d * PIXEL, by) == -(n / by)) by {
        assert(size(d * PIXEL) == n) by (nonlinear_arith)
            requires
                n == size(d) * PIXEL,
                PIXEL == 10_000_000_000,
        ;
    }
    quotients_are_cut_off(a, b);
    let q = a.over(b).raw as int;
    assert(size(q) * ms <= size(d) * 1000 < (size(q) + 1) * ms && (d * PIXEL > 0) == (d * 1000 > 0))
        by (nonlinear_arith)
        requires
            size(q) * (ms * 10_000_000) <= size(d * PIXEL) < (size(q) + 1) * (ms * 10_000_000),
            PIXEL == 10_000_000_000,
    ;
    assert(size(d * 1000) == size(d) * 1000);
}

/// A sheep is under a point that lies within its tile: from its left and upper
/// edge on, up to but not on the right and lower one. Its picture hangs at its
/// offset.
pub proof fn a_sheep_covers_its_tile(s: Sheep<Fixed>, x: Fixed, y: Fixed, tile: Fixed)
    requires
        is_near(s.x),
        is_near(s.y),
        is_near(s.offset_y),
        is_near(tile),
    ensures
        covers(&s, x, y, tile) <==> {
            &&& 0 <= x.raw - s.x.raw < tile.raw
            &&& 0 <= y.raw - (s.y.raw + s.offset_y.raw) < tile.raw
        },
{
}

/// A mouse that moves with a sheep pressed drags that sheep and no other. Only
/// the first movement takes hold of it, and makes it due at once.
pub proof fn a_drag_moves_the_pressed_sheep_alone<N: Number>(
    state: State<N>,
    yard: Yard<N>,
    i: int,
    x: N,
    y: N,
    now: u64,
)
    requires
        0 <= i < state.pens.len(),
    ensures
        ({
            let after = dragged(state, yard, i, x, y, now);
            let (old_pen, pen) = (state.pens[i], after.pens[i]);
            &&& after.pens.len() == state.pens.len()
            &&& forall|k: int|
                0 <= k < state.pens.len() && k != i ==> (#[trigger] after.pens[k])
                    == state.pens[k]
            &&& after.ids == state.ids
            &&& after.pressed == state.pressed
            &&& pen.sheep.dragging
            &&& pen.sheep.x == x.minus(tile_half(yard.tile))
            &&& pen.sheep.y == y.minus(tile_half(yard.tile))
            &&& old_pen.sheep.dragging ==> pen.next_step == old_pen.next_step && pen.sheep.animation
                == old_pen.sheep.animation && after.seed == state.seed
            &&& !old_pen.sheep.dragging ==> pen.next_step == now
        }),
{
    a_held_sheep_is_drawn_held(state.pens[i].sheep, yard.pet, yard.world, yard.tile, state.seed);
}

/// Half a tile.
pub open spec fn tile_half<N: Number>(tile: N) -> N {
    tile.over(N::whole(2))
}

/// Letting go of a sheep that is not held changes nothing. With throwing off,
/// one that is held is let go of as if the mouse stood still.
pub proof fn letting_go_throws_only_where_wanted<N: Number>(
    state: State<N>,
    yard: Yard<N>,
    i: int,
    vx: N,
    vy: N,
    wx: N,
    wy: N,
    now: u64,
)
    requires
        0 <= i < state.pens.len(),
    ensures
        !state.pens[i].sheep.dragging ==> let_go(state, yard, i, vx, vy, now) == state,
        !yard.cfg.throw ==> let_go(state, yard, i, vx, vy, now) == let_go(
            state,
            yard,
            i,
            wx,
            wy,
            now,
        ),
{
}

/// What a sheep looks like: the pixel nearest to where it is, at its offset,
/// the frame and the side it shows, and how solid it is out of two hundred and
/// fifty-five.
pub proof fn a_sheep_looks_as_it_is(s: Sheep<Fixed>, x: int, y: int)
    requires
        is_near(s.y),
        is_near(s.offset_y),
        -0x2fff_ffff <= x <= 0x2fff_ffff,
        -0x2fff_ffff <= y <= 0x2fff_ffff,
        is_nearest_pixel(x, s.x.raw as int),
        is_nearest_pixel(y, s.y.raw + s.offset_y.raw),
    ensures
        ({
            let look = look_of(&s);
            &&& look.x == x
            &&& look.y == y
            &&& look.frame == s.frame
            &&& look.flipped == s.flipped
            &&& s.opacity.raw <= 0 ==> look.alpha == 0
            &&& s.opacity.raw >= PIXEL ==> look.alpha == 255
            &&& 0 <= s.opacity.raw <= PIXEL ==> look.alpha * PIXEL <= s.opacity.raw * 255 < (
            look.alpha + 1) * PIXEL
        }),
{
    lemma_rounded(s.x, x);
    lemma_rounded(s.y.plus(s.offset_y), y);
    let held = if s.opacity.raw < 0 {
        Fixed { raw: 0 }
    } else if s.opacity.raw > PIXEL {
        Fixed { raw: PIXEL }
    } else {
        s.opacity
    };
    whole_multiples_are_exact(held, 255);
    whole_parts_are_cut_off(held.times(Fixed::whole(255)));
}

proof fn lemma_squares<N: Number>(pens: Seq<Pen<N>>, world: World<N>, tile: N, i: int)
    requires
        0 <= i <= pens.len(),
    ensures
        squares_from(pens, world, tile, i) == pens.skip(i).filter(
            |p: Pen<N>| p.sheep.shown(&world, tile),
        ).map_values(
            |p: Pen<N>| Rect { id: p.sheep.id, x: p.sheep.x, y: p.sheep.y, w: tile, h: tile },
        ),
    decreases pens.len() - i,
{
    let test = |p: Pen<N>| p.sheep.shown(&world, tile);
    let square = |p: Pen<N>|
        Rect { id: p.sheep.id, x: p.sheep.x, y: p.sheep.y, w: tile, h: tile };
    reveal(Seq::filter);
    if i < pens.len() {
        let rest = pens.skip(i + 1);
        lemma_squares(pens, world, tile, i + 1);
        assert(pens.skip(i) == seq![pens[i]] + rest);
        Seq::filter_distributes_over_add(seq![pens[i]], rest, test);
        assert(seq![pens[i]].drop_last() == Seq::<Pen<N>>::empty());
        assert(seq![pens[i]].drop_last().filter(test) == Seq::<Pen<N>>::empty());
        if test(pens[i]) {
            assert(seq![pens[i]].filter(test) == seq![pens[i]]);
            assert((seq![pens[i]] + rest.filter(test)).map_values(square) == seq![square(pens[i])]
                + rest.filter(test).map_values(square));
        } else {
            assert(Seq::<Pen<N>>::empty() + rest.filter(test) == rest.filter(test));
        }
    } else {
        assert(pens.skip(i).len() == 0);
    }
}

/// The squares that the flock takes up are those of the sheep that can be
/// seen, in their order, each as big as a tile and where its sheep is.
pub proof fn squares_are_of_the_sheep_in_sight<N: Number>(
    pens: Seq<Pen<N>>,
    world: World<N>,
    tile: N,
)
    ensures
        ({
            let seen = pens.filter(|p: Pen<N>| p.sheep.shown(&world, tile));
            let squares = squares_from(pens, world, tile, 0);
            &&& squares.len() == seen.len()
            &&& forall|k: int|
                0 <= k < seen.len() ==> (#[trigger] squares[k]) == (Rect {
                    id: seen[k].sheep.id,
                    x: seen[k].sheep.x,
                    y: seen[k].sheep.y,
                    w: tile,
                    h: tile,
                })
        }),
{
    lemma_squares(pens, world, tile, 0);
    assert(pens.skip(0) == pens);
}

/// A panel takes input where a sheep is drawn on it, and not for one of which
/// it shows nothing.
pub proof fn a_sheep_is_taken_hold_of_where_it_is_drawn(
    flock: Seq<Sheep<Fixed>>,
    panel: Panel<Fixed>,
    tile: Fixed,
    i: int,
    x: int,
    y: int,
)
    requires
        0 <= i < flock.len(),
        is_near(flock[i].x),
        is_near(flock[i].y),
        is_near(flock[i].offset_y),
        is_near(tile),
        is_near(panel.origin.0),
        is_near(panel.origin.1),
        panel.width <= 0x2fff_ffff,
        panel.height <= 0x2fff_ffff,
        -0x2fff_ffff <= x <= 0x2fff_ffff,
        -0x2fff_ffff <= y <= 0x2fff_ffff,
        is_nearest_pixel(x, flock[i].x.raw - panel.origin.0.raw),
        is_nearest_pixel(y, flock[i].y.raw + flock[i].offset_y.raw - panel.origin.1.raw),
    ensures
        ({
            let s = flock[i];
            let left = s.x.raw - panel.origin.0.raw;
            let top = s.y.raw + s.offset_y.raw - panel.origin.1.raw;
            let rest = grips_from(flock, panel, tile, i + 1);
            let grips = grips_from(flock, panel, tile, i);
            let is_seen = 0 < left + tile.raw && left < panel.width * PIXEL && 0 < top + tile.raw
                && top < panel.height * PIXEL;
            &&& is_seen ==> grips == seq![Grip { x: x as i32, y: y as i32 }] + rest
            &&& !is_seen ==> grips == rest
        }),
{
    let s = flock[i];
    lemma_rounded(s.x.minus(panel.origin.0), x);
    lemma_rounded(s.y.plus(s.offset_y).minus(panel.origin.1), y);
    whole_numbers_are_exact(panel.width as i64);
    whole_numbers_are_exact(panel.height as i64);
}

/// A flock of one sheep that is due, and that calls on nobody, takes one step
/// of it in a frame, and is due again so many milliseconds after it was as the
/// step lasts.
pub proof fn a_frame_steps_the_sheep_that_is_due<N: Number>(
    state: State<N>,
    yard: Yard<N>,
    now: u64,
)
    requires
        state.pens.len() == 1,
        state.pens[0].next_step <= now,
        !state.pens[0].sheep.is_child,
        yard.cfg.sheep == 1,
        ({
            let (turn, wait) = state.pens[0].sheep.stepping(
                yard.pet,
                yard.world,
                yard.tile,
                state.seed,
            );
            &&& turn.events.len() == 0
            &&& now < state.pens[0].next_step + wait * 1_000_000 <= u64::MAX
        }),
    ensures
        ({
            let pen = state.pens[0];
            let (turn, wait) = pen.sheep.stepping(yard.pet, yard.world, yard.tile, state.seed);
            let after = ticked(state, yard, now);
            &&& after.pens.len() == 1
            &&& after.pens[0].sheep == turn.sheep
            &&& after.pens[0].next_step == pen.next_step + wait * 1_000_000
            &&& after.seed == turn.seed
            &&& after.ids == state.ids
            &&& after.pressed == state.pressed
        }),
{
    let pen = state.pens[0];
    let (turn, wait) = pen.sheep.stepping(yard.pet, yard.world, yard.tile, state.seed);
    a_step_keeps_the_sheep(pen.sheep, yard.pet, yard.world, yard.tile, state.seed);
    let next = Pen { sheep: turn.sheep, next_step: later(pen.next_step, wait) };
    reveal_with_fuel(caught_up, 3);
    reveal_with_fuel(run_from, 3);
    reveal_with_fuel(ordinary_from, 3);
    let run = caught_up(pen, yard, now, MAX_STEPS_PER_FRAME as nat, state.seed);
    assert(run.pen == next);
    assert(run.events =~= Seq::<Event<N>>::empty());
    assert(run.seed == turn.seed);
    assert(calls_in(run.events).len() == 0) by {
        reveal(Seq::filter);
    }
    let whole = run_from(state.pens, yard, now, 0, state.seed);
    assert(whole.pens =~= seq![next]);
    assert(whole.calls.len() == 0);
}

// -- screens --

/// How far `v` lies outside the stretch from `from` of that length.
pub open spec fn outside(v: int, from: int, length: int) -> int {
    if v < from {
        from - v
    } else if v > from + length {
        v - (from + length)
    } else {
        0
    }
}

/// A screen holds the points from its left and upper edge on, up to but not on
/// the right and lower one. Its floor is its lower edge but for the bar there.
pub proof fn a_screen_holds_what_lies_on_it(sc: Screen<Fixed>, x: Fixed, y: Fixed)
    requires
        is_near(sc.x),
        is_near(sc.y),
        is_near(sc.w),
        is_near(sc.h),
        is_near(sc.reserved.3),
    ensures
        sc.contains(x, y) <==> 0 <= x.raw - sc.x.raw < sc.w.raw && 0 <= y.raw - sc.y.raw
            < sc.h.raw,
        sc.floor().raw == sc.y.raw + sc.h.raw - sc.reserved.3.raw,
{
}

/// How far a screen is from a point goes by how far the point lies outside it
/// each way, squared and added up.
pub proof fn a_screen_is_as_far_as_its_edges(sc: Screen<Fixed>, x: Fixed, y: Fixed)
    requires
        is_near(sc.x),
        is_near(sc.y),
        is_near(sc.w),
        is_near(sc.h),
        is_near(x),
        is_near(y),
        0 <= sc.w.raw,
        0 <= sc.h.raw,
        outside(x.raw as int, sc.x.raw as int, sc.w.raw as int) <= 20_000 * PIXEL,
        outside(y.raw as int, sc.y.raw as int, sc.h.raw as int) <= 20_000 * PIXEL,
    ensures
        ({
            let dx = outside(x.raw as int, sc.x.raw as int, sc.w.raw as int);
            let dy = outside(y.raw as int, sc.y.raw as int, sc.h.raw as int);
            let d = sc.distance(x, y).raw;
            d * PIXEL <= dx * dx + dy * dy < (d + 2) * PIXEL
        }),
{
    let dx = outside(x.raw as int, sc.x.raw as int, sc.w.raw as int);
    let dy = outside(y.raw as int, sc.y.raw as int, sc.h.raw as int);
    let ax = x.minus(clamped(x, sc.x, sc.right()));
    let ay = y.minus(clamped(y, sc.y, sc.bottom()));
    assert(size(ax.raw as int) == dx);
    assert(size(ay.raw as int) == dy);
    lemma_square(ax, dx);
    lemma_square(ay, dy);
}

proof fn lemma_square(a: Fixed, d: int)
    requires
        size(a.raw as int) == d,
        d <= 20_000 * PIXEL,
    ensures
        a.times(a).raw * PIXEL <= d * d < (a.times(a).raw + 1) * PIXEL,
        0 <= a.times(a).raw <= 4_000_000_000_000_000_000,
{
    assert(a.raw * a.raw == d * d) by (nonlinear_arith)
        requires
            size(a.raw as int) == d,
    ;
    let q = (d * d) / PIXEL as int;
    assert(0 <= d * d && 0 <= q <= 4_000_000_000_000_000_000 && q * PIXEL <= d * d < (q + 1)
        * PIXEL) by (nonlinear_arith)
        requires
            0 <= d <= 20_000 * PIXEL,
            PIXEL == 10_000_000_000,
            q == (d * d) / PIXEL as int,
    ;
    assert(quotient_of(a.raw * a.raw, PIXEL as int) == q);
}

/// A point belongs to the first screen that holds it.
pub proof fn a_point_belongs_to_the_screen_that_holds_it(
    world: World<Fixed>,
    x: Fixed,
    y: Fixed,
    k: int,
)
    requires
        0 <= k < world.screens@.len(),
        world.screens@[k].contains(x, y),
        forall|j: int| 0 <= j < k ==> !(#[trigger] world.screens@[j]).contains(x, y),
    ensures
        world.screen_for(x, y) == Some(world.screens@[k]),
        world.screen_at(x, y) == Some(world.screens@[k]),
        world.continues(x, y),
{
    reveal(World::spec_screen_for);
    lemma_first_screen(world, x, y, k, 0);
}

proof fn lemma_first_screen(world: World<Fixed>, x: Fixed, y: Fixed, k: int, from: int)
    requires
        0 <= from <= k < world.screens@.len(),
        world.screens@[k].contains(x, y),
        forall|j: int| 0 <= j < k ==> !(#[trigger] world.screens@[j]).contains(x, y),
    ensures
        screen_from(world.screens@, x, y, from) == Some(world.screens@[k]),
    decreases k - from,
{
    if from < k {
        lemma_first_screen(world, x, y, k, from + 1);
    }
}

/// A point that no screen holds belongs to a screen that is no further from it
/// than any other, and the desktop does not go on there.
pub proof fn a_point_off_every_screen_belongs_to_the_nearest(
    world: World<Fixed>,
    x: Fixed,
    y: Fixed,
    k: int,
)
    requires
        0 <= k < world.screens@.len(),
        forall|j: int|
            0 <= j < world.screens@.len() ==> !(#[trigger] world.screens@[j]).contains(x, y),
    ensures
        ({
            let sc = world.screen_for(x, y);
            &&& sc is Some
            &&& world.screens@.contains(sc->0)
            &&& (sc->0).distance(x, y).raw <= world.screens@[k].distance(x, y).raw
            &&& !world.continues(x, y)
        }),
{
    reveal(World::spec_screen_for);
    every_point_belongs_to_a_screen(world, x, y);
    lemma_no_screen(world, x, y, 0);
    lemma_there_is_a_nearest(world.screens@, x, y);
    let n = nearest(world.screens@, x, y);
    assert(is_nearest(world.screens@, x, y, n));
}

proof fn lemma_no_screen(world: World<Fixed>, x: Fixed, y: Fixed, from: int)
    requires
        0 <= from,
        forall|j: int|
            0 <= j < world.screens@.len() ==> !(#[trigger] world.screens@[j]).contains(x, y),
    ensures
        screen_from(world.screens@, x, y, from) is None,
    decreases world.screens@.len() - from,
{
    if from < world.screens@.len() {
        lemma_no_screen(world, x, y, from + 1);
    }
}

} // verus!
