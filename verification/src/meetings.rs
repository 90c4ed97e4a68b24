//! Whom and what a sheep walks into, counted in units of the last place.

use vstd::prelude::*;

use crate::anim::{chosen, seed_after_choice, Animation, Only, Pet};
use crate::decimals::{
    size, whole_multiples_are_exact, whole_numbers_are_exact, whole_shares_are_cut_off,
};
use crate::dice::{next_seed, thrown};
use crate::fixed::{quotient_of, Fixed, UNIT};
use crate::ground::{is_clear_of_sides, is_near, is_own_window, is_walking, lemma_own_window, PIXEL};
use crate::manners::{a_passed_window_has_no_sides, the_nearest_face_stops};
use crate::number::{one, ratio, Number};
use crate::senses::{face_at, stopping_face};
use crate::sheep::{half, side_reach, Event, Sheep};
use crate::step::{no_stop, plain, target_of};
use crate::world::{every_point_belongs_to_a_screen, Rect, Screen, World};

verus! {

/// Is the desktop this one screen?
pub open spec fn is_one_screen(world: World<Fixed>, sc: Screen<Fixed>) -> bool {
    &&& world.screens@ == seq![sc]
    &&& is_near(sc.x)
    &&& is_near(sc.y)
    &&& is_near(sc.w)
    &&& is_near(sc.h)
    &&& is_near(sc.reserved.3)
}

/// Has the sheep, going in the direction `x2`, just run into the square: has
/// its foremost edge got into it by no more than twenty pixels, times its
/// scale?
pub open spec fn has_run_into(s: Sheep<Fixed>, tile: Fixed, q: Rect<Fixed>, x2: Fixed) -> bool {
    if x2.raw < 0 {
        0 < q.x.raw + q.w.raw - s.x.raw <= 20 * s.scale.raw
    } else {
        0 < s.x.raw + tile.raw - q.x.raw <= 20 * s.scale.raw
    }
}

/// Where a sheep going that way is held, flush with what it ran into.
pub open spec fn flush_with(tile: Fixed, q: Rect<Fixed>, x2: Fixed) -> int {
    if x2.raw < 0 {
        q.x.raw + q.w.raw
    } else {
        q.x.raw - tile.raw
    }
}

/// Is another sheep in the way: as high up, to within half a tile, and just
/// run into?
pub open spec fn is_in_the_way(s: Sheep<Fixed>, tile: Fixed, q: Rect<Fixed>, x2: Fixed) -> bool {
    &&& q.id != s.id
    &&& 2 * size(s.y.raw - q.y.raw) + 2 <= tile.raw
    &&& has_run_into(s, tile, q, x2)
}

/// Are the places and the scale all near enough to be reckoned with?
pub open spec fn are_near(rects: Seq<Rect<Fixed>>) -> bool {
    forall|j: int|
        0 <= j < rects.len() ==> is_near((#[trigger] rects[j]).x) && is_near(rects[j].y) && is_near(
            rects[j].w,
        ) && is_near(rects[j].h)
}

proof fn lemma_one_screen(s: Sheep<Fixed>, world: World<Fixed>, tile: Fixed, sc: Screen<Fixed>)
    requires
        is_one_screen(world, sc),
    ensures
        s.screen(&world, tile) == sc,
{
    let mid = (s.x.plus(half(tile)), s.y.plus(half(tile)));
    every_point_belongs_to_a_screen(world, mid.0, mid.1);
    assert(world.screens@[0] == sc);
}

proof fn lemma_reach(scale: Fixed)
    requires
        0 < scale.raw <= 1_000 * PIXEL,
    ensures
        side_reach(scale).raw == 20 * scale.raw,
{
    whole_multiples_are_exact(scale, 20);
}

/// A share of a number, `a` parts in `b`.
proof fn lemma_part_of(v: Fixed, share: Fixed, a: int, b: int)
    requires
        is_near(v),
        0 <= v.raw,
        share.raw * b == a * PIXEL,
        0 < b <= 10,
        0 < a <= 2 * b,
    ensures
        v.times(share).raw == v.raw * a / b,
{
    let n = v.raw * share.raw;
    assert(0 <= n && 0 <= share.raw <= 2 * PIXEL) by (nonlinear_arith)
        requires
            n == v.raw * share.raw,
            share.raw * b == a * PIXEL,
            0 < b,
            0 < a <= 2 * b,
            0 <= v.raw,
            PIXEL == 10_000_000_000,
    ;
    let q = n / 10_000_000_000;
    let r = v.raw * a / b;
    assert(n * b == (v.raw * a) * 10_000_000_000) by (nonlinear_arith)
        requires
            n == v.raw * share.raw,
            share.raw * b == a * 10_000_000_000,
    ;
    let (m, c) = (v.raw * a, n % 10_000_000_000);
    assert(n == 10_000_000_000 * q + c && 0 <= c < 10_000_000_000);
    assert(q * b <= m < (q + 1) * b) by (nonlinear_arith)
        requires
            n * b == m * 10_000_000_000,
            n == 10_000_000_000 * q + c,
            0 <= c < 10_000_000_000,
            b > 0,
    ;
    assert(r == q) by (nonlinear_arith)
        requires
            r == m / b,
            q * b <= m < (q + 1) * b,
            b > 0,
    ;
    assert(0 <= r <= 2 * v.raw) by (nonlinear_arith)
        requires
            r == (v.raw * a) / b,
            0 < a <= 2 * b,
            0 < b,
            0 <= v.raw,
    ;
    assert(quotient_of(n, UNIT as int) == q);
}

/// A fraction with a small divisor of ten.
proof fn lemma_fraction(a: i64, b: i64, r: int)
    requires
        0 < a <= 100,
        0 < b <= 100,
        r * b == a * 10_000_000_000,
    ensures
        ratio::<Fixed>(a, b).raw == r,
{
    whole_numbers_are_exact(a);
    whole_shares_are_cut_off(Fixed::whole(a), b as int);
    let t = ratio::<Fixed>(a, b).raw as int;
    let (x, d) = (size(t), size(b as int));
    assert(x == r) by (nonlinear_arith)
        requires
            x * d <= a * 10_000_000_000 < (x + 1) * d,
            r * d == a * 10_000_000_000,
            d > 0,
    ;
}

proof fn lemma_face(s: Sheep<Fixed>, tile: Fixed, q: Rect<Fixed>, x2: Fixed)
    requires
        is_near(s.x),
        is_near(tile),
        is_near(q.x),
        is_near(q.w),
        0 < s.scale.raw <= 1_000 * PIXEL,
    ensures
        face_at(&q, s.x, tile, side_reach(s.scale), x2) == if has_run_into(s, tile, q, x2) {
            Some(Fixed { raw: flush_with(tile, q, x2) as i64 })
        } else {
            None
        },
{
    lemma_reach(s.scale);
}

/// The only one of several squares that a sheep has run into stops it.
proof fn lemma_only_face(
    s: Sheep<Fixed>,
    tile: Fixed,
    all: Seq<Rect<Fixed>>,
    test: spec_fn(Rect<Fixed>) -> bool,
    k: int,
    x2: Fixed,
)
    requires
        is_near(s.x),
        is_near(tile),
        are_near(all),
        0 < s.scale.raw <= 1_000 * PIXEL,
        x2.raw != 0,
        0 <= k < all.len(),
        test(all[k]) && has_run_into(s, tile, all[k], x2),
        forall|j: int|
            0 <= j < all.len() && j != k ==> !(test(#[trigger] all[j]) && has_run_into(
                s,
                tile,
                all[j],
                x2,
            )),
    ensures
        stopping_face(all.filter(test), s.x, tile, side_reach(s.scale), x2) == Some(
            (all[k].id, Fixed { raw: flush_with(tile, all[k], x2) as i64 }),
        ),
{
    broadcast use vstd::seq_lib::group_filter_ensures;

    let rects = all.filter(test);
    let reach = side_reach(s.scale);
    the_nearest_face_stops(rects, s.x, tile, reach, x2);
    lemma_face(s, tile, all[k], x2);
    assert(rects.contains(all[k]));
    match stopping_face(rects, s.x, tile, reach, x2) {
        None => {
            let i = choose|i: int| 0 <= i < rects.len() && rects[i] == all[k];
            assert(face_at(&rects[i], s.x, tile, reach, x2) is None);
        },
        Some((id, edge)) => {
            let i = choose|i: int|
                0 <= i < rects.len() && (#[trigger] rects[i]).id == id && face_at(
                    &rects[i],
                    s.x,
                    tile,
                    reach,
                    x2,
                ) == Some(edge);
            assert(test(rects[i]));
            all.lemma_filter_contains_rev(test, rects[i]);
            let j = choose|j: int| 0 <= j < all.len() && all[j] == rects[i];
            lemma_face(s, tile, all[j], x2);
        },
    }
}

/// None of several squares stops a sheep that has run into none.
proof fn lemma_no_face(
    s: Sheep<Fixed>,
    tile: Fixed,
    all: Seq<Rect<Fixed>>,
    test: spec_fn(Rect<Fixed>) -> bool,
    x2: Fixed,
)
    requires
        is_near(s.x),
        is_near(tile),
        are_near(all),
        0 < s.scale.raw <= 1_000 * PIXEL,
        forall|j: int|
            0 <= j < all.len() ==> !(test(#[trigger] all[j]) && has_run_into(s, tile, all[j], x2)),
    ensures
        stopping_face(all.filter(test), s.x, tile, side_reach(s.scale), x2) is None,
{
    broadcast use vstd::seq_lib::group_filter_ensures;

    let rects = all.filter(test);
    let reach = side_reach(s.scale);
    if x2.raw != 0 {
        the_nearest_face_stops(rects, s.x, tile, reach, x2);
        if let Some((id, edge)) = stopping_face(rects, s.x, tile, reach, x2) {
            let i = choose|i: int|
                0 <= i < rects.len() && (#[trigger] rects[i]).id == id && face_at(
                    &rects[i],
                    s.x,
                    tile,
                    reach,
                    x2,
                ) == Some(edge);
            assert(test(rects[i]));
            all.lemma_filter_contains_rev(test, rects[i]);
            let j = choose|j: int| 0 <= j < all.len() && all[j] == rects[i];
            lemma_face(s, tile, all[j], x2);
        }
    }
}

proof fn lemma_level(s: Sheep<Fixed>, tile: Fixed, q: Rect<Fixed>)
    requires
        is_near(s.y),
        is_near(q.y),
        is_near(tile),
        0 < tile.raw,
    ensures
        s.level_with(&q, tile) == (2 * size(s.y.raw - q.y.raw) + 2 <= tile.raw),
{
    lemma_fraction(1, 2, 5_000_000_000);
    lemma_part_of(tile, ratio::<Fixed>(1, 2), 1, 2);
    assert(s.y.minus(q.y).magnitude().raw == size(s.y.raw - q.y.raw));
}

proof fn lemma_met_only(
    s: Sheep<Fixed>,
    world: World<Fixed>,
    tile: Fixed,
    k: int,
    x2: Fixed,
)
    requires
        is_walking(s, tile),
        0 < s.scale.raw <= 1_000 * PIXEL,
        s.passing_sheep is None,
        s.workspace is None,
        are_near(world.flock@),
        x2.raw != 0,
        0 <= k < world.flock@.len(),
        is_in_the_way(s, tile, world.flock@[k], x2),
        forall|j: int|
            0 <= j < world.flock@.len() && j != k ==> !is_in_the_way(
                s,
                tile,
                #[trigger] world.flock@[j],
                x2,
            ),
    ensures
        s.spec_sheep_face(world, tile, x2) == Some(
            (
                world.flock@[k].id,
                Fixed { raw: flush_with(tile, world.flock@[k], x2) as i64 },
            ),
        ),
{
    let test = s.meets(tile);
    assert forall|j: int| 0 <= j < world.flock@.len() implies (test(#[trigger] world.flock@[j])
        && has_run_into(s, tile, world.flock@[j], x2)) == is_in_the_way(
        s,
        tile,
        world.flock@[j],
        x2,
    ) by {
        lemma_level(s, tile, world.flock@[j]);
    }
    assert(is_in_the_way(s, tile, world.flock@[k], x2));
    lemma_only_face(s, tile, world.flock@, test, k, x2);
}

proof fn lemma_no_windows_in_the_way(
    s: Sheep<Fixed>,
    world: World<Fixed>,
    tile: Fixed,
    anim: Animation<Fixed>,
    x2: Fixed,
    supported: bool,
    seed: u64,
)
    requires
        !s.climb_windows,
    ensures
        s.at_face(world, tile, anim, x2, supported, seed) == (s, no_stop::<Fixed>(), seed),
{
    reveal(Sheep::at_face);
    a_passed_window_has_no_sides(s, world, tile, x2);
}

proof fn lemma_nobody_passed(s: Sheep<Fixed>, world: World<Fixed>, tile: Fixed)
    requires
        s.passing_sheep is None,
    ensures
        ({
            let t = s.clear_of_passed(world, tile);
            t == Sheep { passing: t.passing, ..s }
        }),
{
    reveal(Sheep::clear_of_passed);
}

/// Deciding what comes after being held by something at `edge`.
proof fn lemma_held(
    s: Sheep<Fixed>,
    pet: Pet<Fixed>,
    world: World<Fixed>,
    tile: Fixed,
    sc: Screen<Fixed>,
    anim: Animation<Fixed>,
    x2: Fixed,
    y2: Fixed,
    seed: u64,
)
    requires
        is_one_screen(world, sc),
        is_walking(s, tile) || (s.step < s.steps && is_near(s.x) && is_near(tile) && 0
            < tile.raw),
        is_clear_of_sides(s, tile, sc, x2),
        ({
            let supported = s.standing_on(&world, tile) is Some;
            let (t, face, met, _) = s.obstructed(world, tile, anim, x2, supported, seed);
            &&& t.x == s.x || face.at is Some
            &&& face.at is Some ==> face.at == Some(t.x)
            &&& is_clear_of_sides(t, tile, sc, x2) && is_near(t.x)
            &&& face.at is Some && face.next is Some || face.at is None && face.next is None
                && met.at is Some && met.next is Some
        }),
    ensures
        ({
            let supported = s.standing_on(&world, tile) is Some;
            let (t, face, met, seed_met) = s.obstructed(world, tile, anim, x2, supported, seed);
            let v = s.resolving(pet, world, tile, anim, x2, y2, seed);
            &&& v.turn.sheep.x == if face.at is Some {
                face.at->0
            } else {
                met.at->0
            }
            &&& v.turn.sheep.y == t.y
            &&& v.turn.sheep.met_pointer == t.met_pointer
            &&& v.turn.sheep.resting_on == t.resting_on
            &&& v.turn.sheep.flipped == t.flipped
            &&& v.turn.sheep.toss is None
            &&& v.next == if face.at is Some {
                face.next
            } else {
                met.next
            }
            &&& v.turn.events == Seq::<Event<Fixed>>::empty()
            &&& v.turn.seed == seed_met
        }),
{
    reveal(Sheep::resolving);
    reveal(Sheep::at_edges);
    reveal(Sheep::concluding);
    reveal(Sheep::situated);
    lemma_one_screen(s, world, tile, sc);
    assert(sc.right().minus(tile).raw == sc.x.raw + sc.w.raw - tile.raw);
}

/// Walking into another sheep, one throw in four short of the whole stops a
/// sheep: it is held nose to nose with the other, and turns as its animation
/// does at a border. Every sheep but the one in the way is far, or is itself.
pub proof fn a_sheep_is_stopped_by_another(
    s: Sheep<Fixed>,
    pet: Pet<Fixed>,
    world: World<Fixed>,
    tile: Fixed,
    sc: Screen<Fixed>,
    anim: Animation<Fixed>,
    x2: Fixed,
    y2: Fixed,
    k: int,
    seed: u64,
)
    requires
        is_one_screen(world, sc),
        is_walking(s, tile),
        0 < s.scale.raw <= 1_000 * PIXEL,
        s.passing_sheep is None,
        s.workspace is None,
        are_near(world.flock@),
        x2.raw != 0,
        is_clear_of_sides(s, tile, sc, x2),
        anim.border@.len() > 0,
        0 <= k < world.flock@.len(),
        is_in_the_way(s, tile, world.flock@[k], x2),
        forall|j: int|
            0 <= j < world.flock@.len() && j != k ==> !is_in_the_way(
                s,
                tile,
                #[trigger] world.flock@[j],
                x2,
            ),
        4 * thrown::<Fixed>(seed).raw < 3 * PIXEL,
    ensures
        ({
            let v = s.resolving(pet, world, tile, anim, x2, y2, seed);
            &&& v.turn.sheep.x.raw == flush_with(tile, world.flock@[k], x2)
            &&& v.turn.sheep.y == s.y
            &&& v.turn.sheep.flipped == s.flipped
            &&& v.next == target_of(chosen(anim.border@, plain(), next_seed(seed)))
            &&& v.turn.seed == seed_after_choice(anim.border@, plain(), next_seed(seed))
            &&& v.turn.events == Seq::<Event<Fixed>>::empty()
        }),
{
    reveal(Sheep::obstructed);
    reveal(Sheep::at_company);
    reveal(chosen);
    let supported = s.standing_on(&world, tile) is Some;
    let t = s.clear_of_passed(world, tile);
    lemma_nobody_passed(s, world, tile);
    lemma_no_windows_in_the_way(t, world, tile, anim, x2, supported, seed);
    lemma_met_only(t, world, tile, k, x2);
    lemma_fraction(3, 4, 7_500_000_000);
    lemma_held(s, pet, world, tile, sc, anim, x2, y2, seed);
}

/// The rest of the time a sheep decides to walk on past the other: it is not
/// moved, and remembers whom it is passing.
pub proof fn a_sheep_walks_on_past_another(
    s: Sheep<Fixed>,
    world: World<Fixed>,
    tile: Fixed,
    anim: Animation<Fixed>,
    x2: Fixed,
    supported: bool,
    k: int,
    seed: u64,
)
    requires
        is_walking(s, tile),
        0 < s.scale.raw <= 1_000 * PIXEL,
        s.passing_sheep is None,
        s.workspace is None,
        world.pointer is None,
        are_near(world.flock@),
        x2.raw != 0,
        0 <= k < world.flock@.len(),
        is_in_the_way(s, tile, world.flock@[k], x2),
        forall|j: int|
            0 <= j < world.flock@.len() && j != k ==> !is_in_the_way(
                s,
                tile,
                #[trigger] world.flock@[j],
                x2,
            ),
        4 * thrown::<Fixed>(seed).raw >= 3 * PIXEL,
    ensures
        ({
            let (t, face, met, after) = s.obstructed(world, tile, anim, x2, supported, seed);
            &&& t == Sheep {
                passing_sheep: Some(world.flock@[k].id),
                passing: t.passing,
                ..s
            }
            &&& face == no_stop::<Fixed>()
            &&& met == no_stop::<Fixed>()
            &&& after == next_seed(seed)
        }),
{
    reveal(Sheep::obstructed);
    reveal(Sheep::at_company);
    let t = s.clear_of_passed(world, tile);
    lemma_nobody_passed(s, world, tile);
    lemma_no_windows_in_the_way(t, world, tile, anim, x2, supported, seed);
    lemma_met_only(t, world, tile, k, x2);
    lemma_fraction(3, 4, 7_500_000_000);
}

/// Do a sheep and a square overlap sideways?
pub open spec fn overlap(s: Sheep<Fixed>, tile: Fixed, q: Rect<Fixed>) -> bool {
    q.x.raw < s.x.raw + tile.raw && s.x.raw < q.x.raw + q.w.raw
}

/// A sheep remembers whom it is walking past until the two are clear of each
/// other, sideways or in height.
pub proof fn a_passed_sheep_is_remembered_until_it_is_clear(
    s: Sheep<Fixed>,
    world: World<Fixed>,
    tile: Fixed,
    id: u64,
)
    requires
        is_near(s.x),
        is_near(s.y),
        is_near(tile),
        0 < tile.raw,
        are_near(world.flock@),
        s.passing_sheep == Some(id),
    ensures
        s.clear_of_passed(world, tile).passing_sheep == if exists|j: int|
            0 <= j < world.flock@.len() && (#[trigger] world.flock@[j]).id == id && 2 * size(
                s.y.raw - world.flock@[j].y.raw,
            ) + 2 <= tile.raw && overlap(s, tile, world.flock@[j]) {
            Some(id)
        } else {
            None
        },
{
    reveal(Sheep::clear_of_passed);
    assert forall|j: int| 0 <= j < world.flock@.len() implies s.touches(
        #[trigger] &world.flock@[j],
        id,
        tile,
    ) == (world.flock@[j].id == id && 2 * size(s.y.raw - world.flock@[j].y.raw) + 2 <= tile.raw
        && overlap(s, tile, world.flock@[j])) by {
        lemma_level(s, tile, world.flock@[j]);
    }
}

/// A sheep remembers the window it is walking through until it is clear of it
/// sideways, or the window is gone.
pub proof fn a_passed_window_is_remembered_until_it_is_clear(
    s: Sheep<Fixed>,
    world: World<Fixed>,
    tile: Fixed,
    i: int,
)
    requires
        is_near(s.x),
        is_near(tile),
        is_own_window(world, i),
        s.passing == Some(world.windows@[i].id),
    ensures
        s.clear_of_passed(world, tile).passing == if overlap(s, tile, world.windows@[i]) {
            s.passing
        } else {
            None
        },
{
    reveal(Sheep::clear_of_passed);
    lemma_own_window(world, i, 0);
    assert(world.window(world.windows@[i].id) == Some(world.windows@[i]));
}

// -- the pointer --

/// Is the point in front of the sheep's face: from half a tile above it to
/// half a tile below?
pub open spec fn is_at_face_height(s: Sheep<Fixed>, tile: Fixed, py: Fixed) -> bool {
    &&& s.y.raw - tile.raw / 2 < py.raw
    &&& py.raw < s.y.raw + tile.raw * 3 / 2
}

proof fn lemma_face_height(s: Sheep<Fixed>, tile: Fixed, py: Fixed)
    requires
        is_near(s.y),
        is_near(tile),
        0 < tile.raw,
    ensures
        s.level_at(py, tile) == is_at_face_height(s, tile, py),
{
    lemma_fraction(1, 2, 5_000_000_000);
    lemma_part_of(tile, ratio::<Fixed>(1, 2), 1, 2);
    whole_numbers_are_exact(1);
    let more = one::<Fixed>().plus(ratio::<Fixed>(1, 2));
    assert(more.raw == 15_000_000_000);
    lemma_part_of(tile, more, 3, 2);
}

/// The pointer as something to run into: a line at its place.
pub open spec fn pointer_line(px: Fixed) -> Rect<Fixed> {
    Rect { id: 0, x: px, y: px, w: Fixed { raw: 0 }, h: Fixed { raw: 0 } }
}

/// A resting pointer that a sheep walks into always stops it: it is held with
/// its nose to it, remembers having looked at it, and turns as its animation
/// does at a border.
pub proof fn a_sheep_is_stopped_by_the_pointer(
    s: Sheep<Fixed>,
    pet: Pet<Fixed>,
    world: World<Fixed>,
    tile: Fixed,
    sc: Screen<Fixed>,
    anim: Animation<Fixed>,
    px: Fixed,
    py: Fixed,
    x2: Fixed,
    y2: Fixed,
    seed: u64,
)
    requires
        is_one_screen(world, sc),
        is_walking(s, tile),
        0 < s.scale.raw <= 1_000 * PIXEL,
        s.passing_sheep is None,
        s.met_pointer is None,
        world.flock@.len() == 0,
        world.pointer == Some((px, py)),
        is_near(px),
        is_near(py),
        x2.raw != 0,
        is_clear_of_sides(s, tile, sc, x2),
        anim.border@.len() > 0,
        is_at_face_height(s, tile, py),
        has_run_into(s, tile, pointer_line(px), x2),
    ensures
        ({
            let v = s.resolving(pet, world, tile, anim, x2, y2, seed);
            &&& v.turn.sheep.x.raw == flush_with(tile, pointer_line(px), x2)
            &&& v.turn.sheep.y == s.y
            &&& v.turn.sheep.flipped == s.flipped
            &&& v.turn.sheep.met_pointer == Some((px, py))
            &&& v.next == target_of(chosen(anim.border@, plain(), seed))
            &&& v.turn.events == Seq::<Event<Fixed>>::empty()
        }),
{
    reveal(Sheep::obstructed);
    reveal(Sheep::at_company);
    reveal(chosen);
    let supported = s.standing_on(&world, tile) is Some;
    let t = s.clear_of_passed(world, tile);
    lemma_nobody_passed(s, world, tile);
    lemma_no_windows_in_the_way(t, world, tile, anim, x2, supported, seed);
    lemma_face_height(s, tile, py);
    lemma_face_height(t, tile, py);
    lemma_reach(s.scale);
    assert(world.flock@.filter(t.meets(tile)).len() == 0) by {
        reveal(Seq::filter);
    }
    lemma_held(s, pet, world, tile, sc, anim, x2, y2, seed);
}

/// How far to the right of the sheep's middle the pointer is.
pub open spec fn away(s: Sheep<Fixed>, tile: Fixed, px: Fixed) -> int {
    px.raw - (s.x.raw + tile.raw / 2)
}

/// A sheep that walks along the ground away from a resting pointer, further
/// from it than it could run into and no further than two hundred and fifty
/// pixels, times its scale, turns towards it: as its animation does at a
/// border, or, where the animation does nothing there, on the spot. One that
/// walks towards it, or is further away, or does not walk, takes no notice.
pub proof fn a_sheep_turns_to_the_pointer(
    s: Sheep<Fixed>,
    world: World<Fixed>,
    tile: Fixed,
    anim: Animation<Fixed>,
    px: Fixed,
    py: Fixed,
    x2: Fixed,
    y2: Fixed,
    seed: u64,
)
    requires
        is_walking(s, tile),
        0 < s.scale.raw <= 1_000 * PIXEL,
        !s.is_child,
        !s.dragging,
        s.met_pointer is None,
        world.pointer == Some((px, py)),
        is_near(px),
        is_near(py),
    ensures
        ({
            let v = s.noticing(world, tile, anim, x2, y2, seed);
            let far = size(away(s, tile, px));
            let turns = {
                &&& x2.raw != 0
                &&& y2.raw == 0
                &&& !(anim.action is Flip)
                &&& is_at_face_height(s, tile, py)
                &&& 20 * s.scale.raw < far <= 250 * s.scale.raw
                &&& (away(s, tile, px) < 0) != (x2.raw < 0)
            };
            &&& turns && anim.border@.len() > 0 ==> v.next == target_of(
                chosen(anim.border@, plain(), seed),
            ) && v.turn.sheep == s
            &&& turns && anim.border@.len() == 0 ==> v.next is None && v.turn.sheep == Sheep {
                flipped: !s.flipped,
                ..s
            }
            &&& !turns ==> v.next is None && v.turn.sheep == s && v.turn.seed == seed
        }),
{
    reveal(Sheep::noticing);
    reveal(chosen);
    lemma_face_height(s, tile, py);
    lemma_reach(s.scale);
    whole_multiples_are_exact(s.scale, 250);
    whole_shares_are_cut_off(tile, 2);
    let h = half(tile);
    assert(h.raw == tile.raw / 2) by {
        let (x, d) = (size(h.raw as int), size(2));
        assert(x == tile.raw as int / 2) by (nonlinear_arith)
            requires
                x * d <= tile.raw < (x + 1) * d,
                d == 2,
        ;
    }
    let off = px.minus(s.x.plus(h));
    assert(off.raw == away(s, tile, px));
    assert(off.magnitude().raw == size(away(s, tile, px)));
}

// -- windows --

/// Is the window solid to the sheep and just run into: does the sheep climb
/// windows, is its body beside the window rather than on top of it, and has it
/// run into the window's side?
pub open spec fn is_up_against(s: Sheep<Fixed>, tile: Fixed, r: Rect<Fixed>, x2: Fixed) -> bool {
    &&& s.climb_windows
    &&& r.y.raw + 2 * PIXEL < s.y.raw + tile.raw
    &&& s.y.raw < r.y.raw + r.h.raw
    &&& has_run_into(s, tile, r, x2)
}

proof fn lemma_only_window(
    s: Sheep<Fixed>,
    world: World<Fixed>,
    tile: Fixed,
    k: int,
    x2: Fixed,
)
    requires
        is_near(s.x),
        is_near(s.y),
        is_near(tile),
        0 < s.scale.raw <= 1_000 * PIXEL,
        s.passing is None,
        are_near(world.windows@),
        x2.raw != 0,
        0 <= k < world.windows@.len(),
        is_up_against(s, tile, world.windows@[k], x2),
        forall|j: int|
            0 <= j < world.windows@.len() && j != k ==> !is_up_against(
                s,
                tile,
                #[trigger] world.windows@[j],
                x2,
            ),
    ensures
        stopping_face(
            world.windows@.filter(s.solid(tile)),
            s.x,
            tile,
            side_reach(s.scale),
            x2,
        ) == Some(
            (
                world.windows@[k].id,
                Fixed { raw: flush_with(tile, world.windows@[k], x2) as i64 },
            ),
        ),
{
    let test = s.solid(tile);
    assert forall|j: int| 0 <= j < world.windows@.len() implies (test(#[trigger] world.windows@[j])
        && has_run_into(s, tile, world.windows@[j], x2)) == is_up_against(
        s,
        tile,
        world.windows@[j],
        x2,
    ) by {
        let r = world.windows@[j];
        assert(r.y.plus(Fixed::whole(2)).raw == r.y.raw + 2 * PIXEL);
    }
    assert(is_up_against(s, tile, world.windows@[k], x2));
    lemma_only_face(s, tile, world.windows@, test, k, x2);
}

/// Where a climber's body is held by a window's side, what its animation does
/// at a border is drawn there and then. A climb, or one throw in five, holds
/// it there and comes next; else it walks through, stays where it was and
/// remembers the window.
pub proof fn a_climber_meets_a_window(
    s: Sheep<Fixed>,
    world: World<Fixed>,
    tile: Fixed,
    anim: Animation<Fixed>,
    x2: Fixed,
    supported: bool,
    k: int,
    seed: u64,
)
    requires
        is_near(s.x),
        is_near(s.y),
        is_near(tile),
        0 < s.scale.raw <= 1_000 * PIXEL,
        s.passing is None,
        are_near(world.windows@),
        x2.raw != 0,
        anim.border@.len() > 0,
        0 <= k < world.windows@.len(),
        is_up_against(s, tile, world.windows@[k], x2),
        forall|j: int|
            0 <= j < world.windows@.len() && j != k ==> !is_up_against(
                s,
                tile,
                #[trigger] world.windows@[j],
                x2,
            ),
    ensures
        ({
            let edge = Fixed { raw: flush_with(tile, world.windows@[k], x2) as i64 };
            let there = Sheep { x: edge, ..s }.situation_in(&world, tile, supported);
            let pick = chosen(anim.border@, there, seed)->0;
            let after = seed_after_choice(anim.border@, there, seed);
            let held = pick.only == Only::Vertical || 5 * thrown::<Fixed>(after).raw < PIXEL;
            let (t, stop, _) = s.at_face(world, tile, anim, x2, supported, seed);
            &&& held ==> t.x == edge && stop.at == Some(edge) && stop.next == Some(pick.target)
                && t.passing is None
            &&& !held ==> t.x == s.x && stop == no_stop::<Fixed>() && t.passing == Some(
                world.windows@[k].id,
            )
            &&& t.y == s.y
            &&& t.flipped == s.flipped
            &&& t.resting_on == s.resting_on
        }),
{
    reveal(Sheep::at_face);
    reveal(Sheep::situated);
    reveal(chosen);
    lemma_only_window(s, world, tile, k, x2);
    lemma_fraction(1, 5, 2_000_000_000);
}

/// A climber held by a window's side is left there by the step, and does what
/// was drawn there.
pub proof fn a_climber_is_held_by_a_window(
    s: Sheep<Fixed>,
    pet: Pet<Fixed>,
    world: World<Fixed>,
    tile: Fixed,
    sc: Screen<Fixed>,
    anim: Animation<Fixed>,
    x2: Fixed,
    y2: Fixed,
    k: int,
    seed: u64,
)
    requires
        is_one_screen(world, sc),
        s.step < s.steps,
        s.toss is None,
        is_near(s.x),
        is_near(s.y),
        is_near(tile),
        0 < tile.raw,
        0 < s.scale.raw <= 1_000 * PIXEL,
        s.passing is None,
        are_near(world.windows@),
        x2.raw != 0,
        is_clear_of_sides(s, tile, sc, x2),
        anim.border@.len() > 0,
        0 <= k < world.windows@.len(),
        is_up_against(s, tile, world.windows@[k], x2),
        forall|j: int|
            0 <= j < world.windows@.len() && j != k ==> !is_up_against(
                s,
                tile,
                #[trigger] world.windows@[j],
                x2,
            ),
        ({
            let edge = Fixed { raw: flush_with(tile, world.windows@[k], x2) as i64 };
            let supported = s.standing_on(&world, tile) is Some;
            let there = Sheep { x: edge, ..s }.situation_in(&world, tile, supported);
            let pick = chosen(anim.border@, there, seed)->0;
            let after = seed_after_choice(anim.border@, there, seed);
            &&& pick.only == Only::Vertical || 5 * thrown::<Fixed>(after).raw < PIXEL
            &&& is_clear_of_sides(Sheep { x: edge, ..s }, tile, sc, x2)
            &&& is_near(edge)
        }),
    ensures
        ({
            let edge = Fixed { raw: flush_with(tile, world.windows@[k], x2) as i64 };
            let supported = s.standing_on(&world, tile) is Some;
            let there = Sheep { x: edge, ..s }.situation_in(&world, tile, supported);
            let v = s.resolving(pet, world, tile, anim, x2, y2, seed);
            &&& v.turn.sheep.x == edge
            &&& v.turn.sheep.y == s.y
            &&& v.next == Some((chosen(anim.border@, there, seed)->0).target)
        }),
{
    reveal(Sheep::obstructed);
    let supported = s.standing_on(&world, tile) is Some;
    let t = s.clear_of_passed(world, tile);
    assert(t == Sheep { passing_sheep: t.passing_sheep, ..s }) by {
        reveal(Sheep::clear_of_passed);
    }
    let edge = Fixed { raw: flush_with(tile, world.windows@[k], x2) as i64 };
    assert(Sheep { x: edge, ..t }.situation_in(&world, tile, supported) == Sheep {
        x: edge,
        ..s
    }.situation_in(&world, tile, supported)) by {
        lemma_one_screen(Sheep { x: edge, ..t }, world, tile, sc);
        lemma_one_screen(Sheep { x: edge, ..s }, world, tile, sc);
        let (a, b) = (Sheep { x: edge, ..t }, Sheep { x: edge, ..s });
        assert forall|j: int| 0 <= j < world.windows@.len() implies a.presses(
            #[trigger] &world.windows@[j],
            tile,
        ) == b.presses(&world.windows@[j], tile) by {}
    }
    a_climber_meets_a_window(t, world, tile, anim, x2, supported, k, seed);
    lemma_held(s, pet, world, tile, sc, anim, x2, y2, seed);
}

} // verus!
