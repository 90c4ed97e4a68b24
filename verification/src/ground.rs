//! Where a sheep ends up that walks, climbs or falls, counted in units of the
//! last place on a desktop of one screen.

use vstd::prelude::*;

use crate::anim::{chosen, seed_after_choice, Animation, Pet};
use crate::decimals::rounding_goes_to_whole_numbers;
use crate::fixed::Fixed;
use crate::manners::a_passed_window_has_no_sides;
use crate::number::Number;
use crate::senses::first_where;
use crate::sheep::{half, Event, Sheep};
use crate::step::{no_stop, target_of, Verdict};
use crate::world::{every_point_belongs_to_a_screen, rect_from, Rect, Screen, World};

verus! {

/// How many units a pixel has.
pub const PIXEL: i64 = 10_000_000_000;

/// Is it no further than a hundred million pixels from zero?
pub open spec fn is_near(v: Fixed) -> bool {
    -100_000_000 * PIXEL <= v.raw <= 100_000_000 * PIXEL
}

/// Is the desktop this one screen, with nobody else and no pointer on it?
pub open spec fn is_bare(world: World<Fixed>, sc: Screen<Fixed>) -> bool {
    &&& world.screens@ == seq![sc]
    &&& world.flock@.len() == 0
    &&& world.pointer is None
    &&& is_near(sc.x)
    &&& is_near(sc.y)
    &&& is_near(sc.w)
    &&& is_near(sc.h)
    &&& is_near(sc.reserved.3)
}

/// Is the sheep, of so big a tile, somewhere near and still in the middle of
/// an animation, not in flight, and no climber of windows?
pub open spec fn is_walking(s: Sheep<Fixed>, tile: Fixed) -> bool {
    &&& s.step < s.steps
    &&& s.toss is None
    &&& !s.climb_windows
    &&& is_near(s.x)
    &&& is_near(s.y)
    &&& is_near(tile)
    &&& 0 < tile.raw
}

/// Is the window in place `i` the first with its identity?
pub open spec fn is_own_window(world: World<Fixed>, i: int) -> bool {
    &&& 0 <= i < world.windows@.len()
    &&& forall|j: int| 0 <= j < i ==> (#[trigger] world.windows@[j]).id != world.windows@[i].id
    &&& is_near(world.windows@[i].x)
    &&& is_near(world.windows@[i].y)
    &&& is_near(world.windows@[i].w)
}

/// How far the feet of a sheep are below the top of a window.
pub open spec fn below_top(s: Sheep<Fixed>, tile: Fixed, r: Rect<Fixed>) -> int {
    s.y.raw + tile.raw - r.y.raw
}

/// How far to the right of the left end of a window a sheep is.
pub open spec fn from_left_end(s: Sheep<Fixed>, r: Rect<Fixed>) -> int {
    s.x.raw - r.x.raw
}

/// How far to the right of a sheep the right end of a window is, past the
/// sheep's own width.
pub open spec fn to_right_end(s: Sheep<Fixed>, tile: Fixed, r: Rect<Fixed>) -> int {
    r.x.raw + r.w.raw - (s.x.raw + tile.raw)
}

/// Are the feet of the sheep on the top of the window, away from both ends?
pub open spec fn stands(s: Sheep<Fixed>, tile: Fixed, r: Rect<Fixed>) -> bool {
    &&& -2 * PIXEL < below_top(s, tile, r) < 5 * PIXEL
    &&& 0 < from_left_end(s, r)
    &&& 0 < to_right_end(s, tile, r)
}

/// Does nothing about the left and right of the screen stop a sheep that goes
/// in the direction `x2`?
pub open spec fn is_clear_of_sides(
    s: Sheep<Fixed>,
    tile: Fixed,
    sc: Screen<Fixed>,
    x2: Fixed,
) -> bool {
    &&& x2.raw < 0 ==> sc.x.raw <= s.x.raw
    &&& x2.raw > 0 ==> s.x.raw + tile.raw <= sc.x.raw + sc.w.raw
}

pub(crate) proof fn lemma_own_window(world: World<Fixed>, i: int, from: int)
    requires
        is_own_window(world, i),
        0 <= from <= i,
    ensures
        rect_from(world.windows@, world.windows@[i].id, from) == Some(world.windows@[i]),
    decreases i - from,
{
    if from < i {
        lemma_own_window(world, i, from + 1);
    }
}

proof fn lemma_no_window(world: World<Fixed>, id: u64, from: int)
    requires
        0 <= from,
        forall|j: int| 0 <= j < world.windows@.len() ==> (#[trigger] world.windows@[j]).id != id,
    ensures
        rect_from(world.windows@, id, from) is None,
    decreases world.windows@.len() - from,
{
    if from < world.windows@.len() {
        lemma_no_window(world, id, from + 1);
    }
}

pub(crate) proof fn lemma_one_screen(
    s: Sheep<Fixed>,
    world: World<Fixed>,
    tile: Fixed,
    sc: Screen<Fixed>,
)
    requires
        is_bare(world, sc),
    ensures
        s.screen(&world, tile) == sc,
{
    let mid = (s.x.plus(half(tile)), s.y.plus(half(tile)));
    every_point_belongs_to_a_screen(world, mid.0, mid.1);
    assert(world.screens@[0] == sc);
}

proof fn lemma_off_screen(world: World<Fixed>, sc: Screen<Fixed>, x: Fixed, y: Fixed)
    requires
        is_bare(world, sc),
        !sc.contains(x, y),
    ensures
        !world.continues(x, y),
{
    every_point_belongs_to_a_screen(world, x, y);
    assert(world.screens@[0] == sc);
}

/// The sheep as it goes to meet the edges.
spec fn unhindered(s: Sheep<Fixed>, world: World<Fixed>, tile: Fixed) -> Sheep<Fixed> {
    s.clear_of_passed(world, tile)
}

proof fn lemma_unhindered(
    s: Sheep<Fixed>,
    world: World<Fixed>,
    tile: Fixed,
    sc: Screen<Fixed>,
    anim: Animation<Fixed>,
    x2: Fixed,
    supported: bool,
    seed: u64,
)
    requires
        is_bare(world, sc),
        !s.climb_windows,
    ensures
        s.obstructed(world, tile, anim, x2, supported, seed) == (
            unhindered(s, world, tile),
            no_stop::<Fixed>(),
            no_stop::<Fixed>(),
            seed,
        ),
        ({
            let t = unhindered(s, world, tile);
            t == Sheep { passing: t.passing, passing_sheep: t.passing_sheep, ..s }
        }),
{
    reveal(Sheep::obstructed);
    reveal(Sheep::clear_of_passed);
    reveal(Sheep::at_face);
    reveal(Sheep::at_company);
    let t = unhindered(s, world, tile);
    a_passed_window_has_no_sides(t, world, tile, x2);
    assert(world.flock@.filter(t.meets(tile)).len() == 0) by {
        reveal(Seq::filter);
    }
}

/// What deciding comes to where nothing but the edges of things is met.
proof fn lemma_deciding(
    s: Sheep<Fixed>,
    pet: Pet<Fixed>,
    world: World<Fixed>,
    tile: Fixed,
    sc: Screen<Fixed>,
    anim: Animation<Fixed>,
    x2: Fixed,
    y2: Fixed,
    seed: u64,
)
    requires
        is_bare(world, sc),
        is_walking(s, tile),
    ensures
        ({
            let mid = (s.x.plus(half(tile)), s.y.plus(half(tile)));
            let (touched, contact) = unhindered(s, world, tile).at_edges(
                world,
                tile,
                anim,
                x2,
                y2,
                sc,
                mid,
                None,
                None,
            );
            s.resolving(pet, world, tile, anim, x2, y2, seed) == touched.concluding(
                pet,
                world,
                tile,
                anim,
                x2,
                y2,
                sc.floor().minus(tile),
                contact,
                None,
                s.resting_on is Some,
                s.standing_on(&world, tile) is Some,
                seed,
            )
        }),
{
    reveal(Sheep::resolving);
    lemma_one_screen(s, world, tile, sc);
    lemma_unhindered(
        s,
        world,
        tile,
        sc,
        anim,
        x2,
        s.standing_on(&world, tile) is Some,
        seed,
    );
}

proof fn lemma_clear_of_sides(
    s: Sheep<Fixed>,
    world: World<Fixed>,
    tile: Fixed,
    sc: Screen<Fixed>,
    anim: Animation<Fixed>,
    x2: Fixed,
    y2: Fixed,
    mid: (Fixed, Fixed),
)
    requires
        is_bare(world, sc),
        is_walking(s, tile),
        is_clear_of_sides(s, tile, sc, x2),
    ensures
        s.at_edges(world, tile, anim, x2, y2, sc, mid, None, None) == s.at_level(
            world,
            tile,
            anim,
            y2,
            sc,
            mid.0,
        ),
{
    reveal(Sheep::at_edges);
    assert(sc.right().minus(tile).raw == sc.x.raw + sc.w.raw - tile.raw);
}

/// The verdict on a sheep that ran into something that is not to be climbed
/// onto: its animation's border table says what comes next.
spec fn is_border_verdict(
    v: Verdict<Fixed>,
    touched: Sheep<Fixed>,
    world: World<Fixed>,
    tile: Fixed,
    anim: Animation<Fixed>,
    seed: u64,
) -> bool {
    &&& v.turn.sheep == Sheep { situation: v.turn.sheep.situation, toss: None, ..touched }
    &&& v.next == target_of(chosen(anim.border@, v.turn.sheep.situation, seed))
    &&& v.turn.events == Seq::<Event<Fixed>>::empty()
    &&& v.turn.seed == seed_after_choice(anim.border@, v.turn.sheep.situation, seed)
}

proof fn lemma_border(
    touched: Sheep<Fixed>,
    pet: Pet<Fixed>,
    world: World<Fixed>,
    tile: Fixed,
    anim: Animation<Fixed>,
    x2: Fixed,
    y2: Fixed,
    floor: Fixed,
    nudged: bool,
    had_support: bool,
    supported_now: bool,
    seed: u64,
)
    requires
        anim.border@.len() > 0,
    ensures
        ({
            let v = touched.concluding(
                pet,
                world,
                tile,
                anim,
                x2,
                y2,
                floor,
                crate::step::Contact { hit: true, nudged, arrived: false },
                None,
                had_support,
                supported_now,
                seed,
            );
            &&& is_border_verdict(v, touched, world, tile, anim, seed)
            &&& v.turn.sheep.situation == v.turn.sheep.situation_in(
                &world,
                tile,
                nudged || supported_now,
            )
        }),
{
    reveal(Sheep::concluding);
    reveal(Sheep::situated);
    reveal(chosen);
}

/// Walking a step past either end of the window it stands on, a sheep is
/// stepped back onto it: three pixels to the right at the left end, three to
/// the left at the right end. It goes on resting on the window, and what its
/// animation does at a border comes next. So it is for as much as forty
/// pixels past the end, and at both ends alike.
pub proof fn a_sheep_turns_back_at_the_ends_of_its_ledge(
    s: Sheep<Fixed>,
    pet: Pet<Fixed>,
    world: World<Fixed>,
    tile: Fixed,
    sc: Screen<Fixed>,
    anim: Animation<Fixed>,
    x2: Fixed,
    y2: Fixed,
    i: int,
    seed: u64,
)
    requires
        is_bare(world, sc),
        is_walking(s, tile),
        is_clear_of_sides(s, tile, sc, x2),
        y2.raw == 0,
        anim.border@.len() > 0,
        is_own_window(world, i),
        s.resting_on == Some(world.windows@[i].id),
        -3 * PIXEL <= below_top(s, tile, world.windows@[i]) <= 3 * PIXEL,
        ({
            let r = world.windows@[i];
            ||| -40 * PIXEL <= from_left_end(s, r) <= 0
            ||| 0 < from_left_end(s, r) && -40 * PIXEL <= to_right_end(s, tile, r) <= 0
        }),
    ensures
        ({
            let r = world.windows@[i];
            let v = s.resolving(pet, world, tile, anim, x2, y2, seed);
            &&& from_left_end(s, r) <= 0 ==> v.turn.sheep.x.raw == s.x.raw + 3 * PIXEL
            &&& from_left_end(s, r) > 0 ==> v.turn.sheep.x.raw == s.x.raw - 3 * PIXEL
            &&& v.turn.sheep.y == s.y
            &&& v.turn.sheep.resting_on == Some(r.id)
            &&& v.turn.sheep.flipped == s.flipped
            &&& v.turn.sheep.toss is None
            &&& v.turn.sheep.situation.on_window
            &&& v.next == target_of(chosen(anim.border@, v.turn.sheep.situation, seed))
            &&& v.turn.events == Seq::<Event<Fixed>>::empty()
        }),
{
    let r = world.windows@[i];
    let mid = (s.x.plus(half(tile)), s.y.plus(half(tile)));
    lemma_unhindered(s, world, tile, sc, anim, x2, s.standing_on(&world, tile) is Some, seed);
    let t = unhindered(s, world, tile);
    lemma_own_window(world, i, 0);
    lemma_deciding(s, pet, world, tile, sc, anim, x2, y2, seed);
    lemma_clear_of_sides(t, world, tile, sc, anim, x2, y2, mid);
    assert(world.window(r.id) == Some(r));
    assert(r.right().minus(tile).raw == r.x.raw + r.w.raw - tile.raw);
    assert(s.y.plus(tile).raw == s.y.raw + tile.raw);
    let (touched, contact) = t.at_edges(world, tile, anim, x2, y2, sc, mid, None, None);
    lemma_border(
        touched,
        pet,
        world,
        tile,
        anim,
        x2,
        y2,
        sc.floor().minus(tile),
        true,
        true,
        s.standing_on(&world, tile) is Some,
        seed,
    );
}

/// A sheep that stands on its window away from both ends walks on: but for
/// whom it is walking past it stays as it is, nothing comes next, and nothing
/// is left to chance.
pub proof fn a_sheep_on_its_ledge_walks_on(
    s: Sheep<Fixed>,
    pet: Pet<Fixed>,
    world: World<Fixed>,
    tile: Fixed,
    sc: Screen<Fixed>,
    anim: Animation<Fixed>,
    x2: Fixed,
    y2: Fixed,
    i: int,
    seed: u64,
)
    requires
        is_bare(world, sc),
        is_walking(s, tile),
        is_clear_of_sides(s, tile, sc, x2),
        y2.raw == 0,
        is_own_window(world, i),
        s.resting_on == Some(world.windows@[i].id),
        stands(s, tile, world.windows@[i]),
    ensures
        ({
            let v = s.resolving(pet, world, tile, anim, x2, y2, seed);
            let (passing, passing_sheep) = (v.turn.sheep.passing, v.turn.sheep.passing_sheep);
            &&& v.turn.sheep == Sheep { passing, passing_sheep, ..s }
            &&& v.next is None
            &&& v.turn.seed == seed
            &&& v.turn.events == Seq::<Event<Fixed>>::empty()
        }),
{
    reveal(Sheep::concluding);
    reveal(Sheep::falling);
    reveal(Sheep::noticing);
    let r = world.windows@[i];
    let mid = (s.x.plus(half(tile)), s.y.plus(half(tile)));
    lemma_unhindered(s, world, tile, sc, anim, x2, s.standing_on(&world, tile) is Some, seed);
    let t = unhindered(s, world, tile);
    lemma_own_window(world, i, 0);
    lemma_deciding(s, pet, world, tile, sc, anim, x2, y2, seed);
    lemma_clear_of_sides(t, world, tile, sc, anim, x2, y2, mid);
    assert(world.window(r.id) == Some(r));
    assert(r.right().minus(tile).raw == r.x.raw + r.w.raw - tile.raw);
    assert(s.y.plus(tile).raw == s.y.raw + tile.raw);
}

/// Has the window that the sheep rests on closed, or moved out from under it:
/// up or down by more than three pixels, or sideways by more than forty?
pub open spec fn has_lost_its_window(s: Sheep<Fixed>, world: World<Fixed>, tile: Fixed) -> bool {
    s.resting_on matches Some(id) && ((forall|j: int|
        0 <= j < world.windows@.len() ==> (#[trigger] world.windows@[j]).id != id) || (exists|
        i: int,
    |
        {
            let r = #[trigger] world.windows@[i];
            &&& is_own_window(world, i)
            &&& r.id == id
            &&& !stands(s, tile, r)
            &&& {
                ||| below_top(s, tile, r) < -3 * PIXEL
                ||| below_top(s, tile, r) > 3 * PIXEL
                ||| from_left_end(s, r) < -40 * PIXEL
                ||| from_left_end(s, r) > 0 && to_right_end(s, tile, r) < -40 * PIXEL
            }
        }))
}

/// A sheep whose window is gone lets go of it, where it is. In the air, in an
/// animation that says nothing of gravity, it falls the pet's own fall.
pub proof fn a_sheep_falls_when_its_window_is_gone(
    s: Sheep<Fixed>,
    pet: Pet<Fixed>,
    world: World<Fixed>,
    tile: Fixed,
    sc: Screen<Fixed>,
    anim: Animation<Fixed>,
    x2: Fixed,
    y2: Fixed,
    seed: u64,
)
    requires
        is_bare(world, sc),
        is_walking(s, tile),
        is_clear_of_sides(s, tile, sc, x2),
        y2.raw == 0,
        has_lost_its_window(s, world, tile),
    ensures
        ({
            let v = s.resolving(pet, world, tile, anim, x2, y2, seed);
            &&& v.turn.sheep.x == s.x
            &&& v.turn.sheep.y == s.y
            &&& v.turn.sheep.resting_on is None
            &&& v.turn.events == Seq::<Event<Fixed>>::empty()
            &&& s.y.raw + tile.raw + 2 * PIXEL < sc.y.raw + sc.h.raw - sc.reserved.3.raw
                && anim.gravity@.len() == 0 ==> v.next == pet.spec_fall_animation()
            &&& s.y.raw + tile.raw + 2 * PIXEL < sc.y.raw + sc.h.raw - sc.reserved.3.raw
                && anim.gravity@.len() > 0 ==> v.next == target_of(
                chosen(anim.gravity@, v.turn.sheep.situation, seed),
            )
        }),
{
    reveal(Sheep::concluding);
    reveal(Sheep::falling);
    reveal(Sheep::noticing);
    reveal(Sheep::situated);
    reveal(chosen);
    let id = s.resting_on->0;
    let mid = (s.x.plus(half(tile)), s.y.plus(half(tile)));
    lemma_unhindered(s, world, tile, sc, anim, x2, s.standing_on(&world, tile) is Some, seed);
    let t = unhindered(s, world, tile);
    lemma_deciding(s, pet, world, tile, sc, anim, x2, y2, seed);
    lemma_clear_of_sides(t, world, tile, sc, anim, x2, y2, mid);
    if forall|j: int| 0 <= j < world.windows@.len() ==> (#[trigger] world.windows@[j]).id != id {
        lemma_no_window(world, id, 0);
    } else {
        let i = choose|i: int|
            {
                let r = #[trigger] world.windows@[i];
                &&& is_own_window(world, i)
                &&& r.id == id
                &&& !stands(s, tile, r)
                &&& {
                    ||| below_top(s, tile, r) < -3 * PIXEL
                    ||| below_top(s, tile, r) > 3 * PIXEL
                    ||| from_left_end(s, r) < -40 * PIXEL
                    ||| from_left_end(s, r) > 0 && to_right_end(s, tile, r) < -40 * PIXEL
                }
            };
        lemma_own_window(world, i, 0);
        let r = world.windows@[i];
        assert(world.window(r.id) == Some(r));
        assert(r.right().minus(tile).raw == r.x.raw + r.w.raw - tile.raw);
        assert(s.y.plus(tile).raw == s.y.raw + tile.raw);
        assert(!s.stands_on(&r, tile, true));
    }
    assert(s.standing_on(&world, tile) is None);
    assert(sc.floor().minus(tile).raw == sc.y.raw + sc.h.raw - sc.reserved.3.raw - tile.raw);
}

/// A sheep that loses its window while its animation takes it down anyway, and
/// has nothing to say of borders or gravity, is left to that: it lets go and
/// nothing else comes next.
pub proof fn a_sheep_on_its_way_down_is_left_to_it(
    s: Sheep<Fixed>,
    pet: Pet<Fixed>,
    world: World<Fixed>,
    tile: Fixed,
    sc: Screen<Fixed>,
    anim: Animation<Fixed>,
    x2: Fixed,
    y2: Fixed,
    seed: u64,
)
    requires
        is_bare(world, sc),
        is_walking(s, tile),
        is_clear_of_sides(s, tile, sc, x2),
        y2.raw > 0,
        anim.border@.len() == 0,
        anim.gravity@.len() == 0,
        s.y.raw + tile.raw + 2 * PIXEL < sc.y.raw + sc.h.raw - sc.reserved.3.raw,
        s.resting_on matches Some(id) && forall|j: int|
            0 <= j < world.windows@.len() ==> (#[trigger] world.windows@[j]).id != id,
    ensures
        ({
            let v = s.resolving(pet, world, tile, anim, x2, y2, seed);
            &&& v.turn.sheep.x == s.x
            &&& v.turn.sheep.y == s.y
            &&& v.turn.sheep.flipped == s.flipped
            &&& v.turn.sheep.resting_on is None
            &&& v.next is None
            &&& v.turn.seed == seed
        }),
{
    reveal(Sheep::concluding);
    reveal(Sheep::falling);
    reveal(Sheep::noticing);
    reveal(Sheep::situated);
    reveal(chosen);
    let id = s.resting_on->0;
    let mid = (s.x.plus(half(tile)), s.y.plus(half(tile)));
    lemma_unhindered(s, world, tile, sc, anim, x2, s.standing_on(&world, tile) is Some, seed);
    let t = unhindered(s, world, tile);
    lemma_deciding(s, pet, world, tile, sc, anim, x2, y2, seed);
    lemma_clear_of_sides(t, world, tile, sc, anim, x2, y2, mid);
    lemma_no_window(world, id, 0);
    assert(sc.floor().minus(tile).raw == sc.y.raw + sc.h.raw - sc.reserved.3.raw - tile.raw);
}

/// A sheep that stands on nothing and never did, in an animation that has
/// nothing to say of gravity, is left where it is in the air.
pub proof fn a_sheep_that_floats_floats_on(
    s: Sheep<Fixed>,
    pet: Pet<Fixed>,
    world: World<Fixed>,
    tile: Fixed,
    sc: Screen<Fixed>,
    anim: Animation<Fixed>,
    x2: Fixed,
    y2: Fixed,
    seed: u64,
)
    requires
        is_bare(world, sc),
        is_walking(s, tile),
        is_clear_of_sides(s, tile, sc, x2),
        y2.raw == 0,
        anim.gravity@.len() == 0,
        s.resting_on is None,
    ensures
        ({
            let v = s.resolving(pet, world, tile, anim, x2, y2, seed);
            &&& v.turn.sheep.x == s.x
            &&& v.turn.sheep.y == s.y
            &&& v.turn.sheep.flipped == s.flipped
            &&& v.turn.sheep.resting_on is None
            &&& v.next is None
            &&& v.turn.seed == seed
        }),
{
    reveal(Sheep::concluding);
    reveal(Sheep::falling);
    reveal(Sheep::noticing);
    reveal(Sheep::situated);
    reveal(chosen);
    let mid = (s.x.plus(half(tile)), s.y.plus(half(tile)));
    lemma_unhindered(s, world, tile, sc, anim, x2, s.standing_on(&world, tile) is Some, seed);
    let t = unhindered(s, world, tile);
    lemma_deciding(s, pet, world, tile, sc, anim, x2, y2, seed);
    lemma_clear_of_sides(t, world, tile, sc, anim, x2, y2, mid);
}

// -- coming down --

/// Is the top of the window under the feet of a sheep that comes down: from
/// two pixels above it to twenty below, and away from both ends?
pub open spec fn catches(s: Sheep<Fixed>, tile: Fixed, r: Rect<Fixed>) -> bool {
    &&& -2 * PIXEL < below_top(s, tile, r) < 20 * PIXEL
    &&& 0 < from_left_end(s, r)
    &&& 0 < to_right_end(s, tile, r)
}

proof fn lemma_caught(s: Sheep<Fixed>, world: World<Fixed>, tile: Fixed, i: int, from: int)
    requires
        is_near(s.x),
        is_near(s.y),
        is_near(tile),
        0 <= from <= i < world.windows@.len(),
        forall|j: int|
            0 <= j <= i ==> is_near((#[trigger] world.windows@[j]).x) && is_near(
                world.windows@[j].y,
            ) && is_near(world.windows@[j].w),
        catches(s, tile, world.windows@[i]),
        forall|j: int| 0 <= j < i ==> !catches(s, tile, #[trigger] world.windows@[j]),
    ensures
        first_where(world.windows@, s.under(tile, false), from) == Some(world.windows@[i]),
    decreases i - from,
{
    let r = world.windows@[from];
    assert(r.right().minus(tile).raw == r.x.raw + r.w.raw - tile.raw);
    assert(s.y.plus(tile).raw == s.y.raw + tile.raw);
    assert(s.stands_on(&r, tile, false) == catches(s, tile, r));
    if from < i {
        lemma_caught(s, world, tile, i, from + 1);
    }
}

/// A sheep that comes down onto the top of a window lands on it: its feet are
/// put on the first whole pixel at or below the top, it rests on the window,
/// and what its animation does at a border comes next. Of several windows it
/// is the first.
pub proof fn a_sheep_lands_on_a_window(
    s: Sheep<Fixed>,
    pet: Pet<Fixed>,
    world: World<Fixed>,
    tile: Fixed,
    sc: Screen<Fixed>,
    anim: Animation<Fixed>,
    x2: Fixed,
    y2: Fixed,
    i: int,
    seed: u64,
)
    requires
        is_bare(world, sc),
        is_walking(s, tile),
        is_clear_of_sides(s, tile, sc, x2),
        y2.raw > 0,
        anim.border@.len() > 0,
        s.y.raw + tile.raw <= sc.y.raw + sc.h.raw - sc.reserved.3.raw,
        0 <= i < world.windows@.len(),
        forall|j: int|
            0 <= j <= i ==> is_near((#[trigger] world.windows@[j]).x) && is_near(
                world.windows@[j].y,
            ) && is_near(world.windows@[j].w),
        catches(s, tile, world.windows@[i]),
        forall|j: int| 0 <= j < i ==> !catches(s, tile, #[trigger] world.windows@[j]),
        sc.y.raw <= world.windows@[i].y.raw - tile.raw,
    ensures
        ({
            let r = world.windows@[i];
            let v = s.resolving(pet, world, tile, anim, x2, y2, seed);
            let feet = v.turn.sheep.y.raw + tile.raw;
            &&& feet % PIXEL as int == 0
            &&& 0 <= feet - r.y.raw < PIXEL
            &&& v.turn.sheep.x == s.x
            &&& v.turn.sheep.resting_on == Some(r.id)
            &&& v.next == target_of(chosen(anim.border@, v.turn.sheep.situation, seed))
            &&& v.turn.events == Seq::<Event<Fixed>>::empty()
        }),
{
    let r = world.windows@[i];
    let mid = (s.x.plus(half(tile)), s.y.plus(half(tile)));
    lemma_unhindered(s, world, tile, sc, anim, x2, s.standing_on(&world, tile) is Some, seed);
    let t = unhindered(s, world, tile);
    lemma_deciding(s, pet, world, tile, sc, anim, x2, y2, seed);
    lemma_clear_of_sides(t, world, tile, sc, anim, x2, y2, mid);
    lemma_caught(t, world, tile, i, 0);
    rounding_goes_to_whole_numbers(r.y);
    assert(sc.floor().minus(tile).raw == sc.y.raw + sc.h.raw - sc.reserved.3.raw - tile.raw);
    let (touched, contact) = t.at_edges(world, tile, anim, x2, y2, sc, mid, None, None);
    assert(touched.y.raw == r.y.ceil().raw - tile.raw);
    lemma_border(
        touched,
        pet,
        world,
        tile,
        anim,
        x2,
        y2,
        sc.floor().minus(tile),
        false,
        s.resting_on is Some,
        s.standing_on(&world, tile) is Some,
        seed,
    );
}

/// A sheep that comes down through the floor of the screen is put on it, and
/// what its animation does at a border comes next. Where a bar is below the
/// floor the sheep is put back once it is through the bar.
pub proof fn a_sheep_lands_on_the_floor(
    s: Sheep<Fixed>,
    pet: Pet<Fixed>,
    world: World<Fixed>,
    tile: Fixed,
    sc: Screen<Fixed>,
    anim: Animation<Fixed>,
    x2: Fixed,
    y2: Fixed,
    seed: u64,
)
    requires
        is_bare(world, sc),
        is_walking(s, tile),
        is_clear_of_sides(s, tile, sc, x2),
        y2.raw > 0,
        anim.border@.len() > 0,
        s.y.raw + tile.raw > sc.y.raw + sc.h.raw - sc.reserved.3.raw,
        s.y.raw + tile.raw + PIXEL >= sc.y.raw + sc.h.raw,
    ensures
        ({
            let v = s.resolving(pet, world, tile, anim, x2, y2, seed);
            &&& v.turn.sheep.y.raw + tile.raw == sc.y.raw + sc.h.raw - sc.reserved.3.raw
            &&& v.turn.sheep.x == s.x
            &&& v.turn.sheep.resting_on is None
            &&& v.turn.sheep.situation.on_taskbar
            &&& v.next == target_of(chosen(anim.border@, v.turn.sheep.situation, seed))
            &&& v.turn.events == Seq::<Event<Fixed>>::empty()
        }),
{
    let mid = (s.x.plus(half(tile)), s.y.plus(half(tile)));
    lemma_unhindered(s, world, tile, sc, anim, x2, s.standing_on(&world, tile) is Some, seed);
    let t = unhindered(s, world, tile);
    lemma_deciding(s, pet, world, tile, sc, anim, x2, y2, seed);
    lemma_clear_of_sides(t, world, tile, sc, anim, x2, y2, mid);
    assert(sc.floor().minus(tile).raw == sc.y.raw + sc.h.raw - sc.reserved.3.raw - tile.raw);
    assert(s.y.plus(tile).plus(Fixed::whole(1)).raw == s.y.raw + tile.raw + PIXEL);
    lemma_off_screen(world, sc, mid.0, s.y.plus(tile).plus(Fixed::whole(1)));
    let (touched, contact) = t.at_edges(world, tile, anim, x2, y2, sc, mid, None, None);
    lemma_border(
        touched,
        pet,
        world,
        tile,
        anim,
        x2,
        y2,
        sc.floor().minus(tile),
        false,
        s.resting_on is Some,
        s.standing_on(&world, tile) is Some,
        seed,
    );
    let v = s.resolving(pet, world, tile, anim, x2, y2, seed);
    lemma_one_screen(v.turn.sheep, world, tile, sc);
}

/// A sheep that climbs out over the top of the screen is held at the top.
pub proof fn a_sheep_is_held_at_the_top(
    s: Sheep<Fixed>,
    pet: Pet<Fixed>,
    world: World<Fixed>,
    tile: Fixed,
    sc: Screen<Fixed>,
    anim: Animation<Fixed>,
    x2: Fixed,
    y2: Fixed,
    seed: u64,
)
    requires
        is_bare(world, sc),
        is_walking(s, tile),
        is_clear_of_sides(s, tile, sc, x2),
        y2.raw < 0,
        anim.border@.len() > 0,
        s.y.raw < sc.y.raw,
    ensures
        ({
            let v = s.resolving(pet, world, tile, anim, x2, y2, seed);
            &&& v.turn.sheep.y == sc.y
            &&& v.turn.sheep.x == s.x
            &&& v.turn.sheep.resting_on == s.resting_on
            &&& v.turn.sheep.situation.on_horizontal
            &&& v.next == target_of(chosen(anim.border@, v.turn.sheep.situation, seed))
            &&& v.turn.events == Seq::<Event<Fixed>>::empty()
        }),
{
    let mid = (s.x.plus(half(tile)), s.y.plus(half(tile)));
    lemma_unhindered(s, world, tile, sc, anim, x2, s.standing_on(&world, tile) is Some, seed);
    let t = unhindered(s, world, tile);
    lemma_deciding(s, pet, world, tile, sc, anim, x2, y2, seed);
    lemma_clear_of_sides(t, world, tile, sc, anim, x2, y2, mid);
    assert(s.y.minus(Fixed::whole(1)).raw == s.y.raw - PIXEL);
    lemma_off_screen(world, sc, mid.0, s.y.minus(Fixed::whole(1)));
    let (touched, contact) = t.at_edges(world, tile, anim, x2, y2, sc, mid, None, None);
    lemma_border(
        touched,
        pet,
        world,
        tile,
        anim,
        x2,
        y2,
        sc.floor().minus(tile),
        false,
        s.resting_on is Some,
        s.standing_on(&world, tile) is Some,
        seed,
    );
    let v = s.resolving(pet, world, tile, anim, x2, y2, seed);
    lemma_one_screen(v.turn.sheep, world, tile, sc);
}

/// A sheep that walks out over the left or the right edge of the desktop is
/// held at it, all of it inside, and what its animation does at a border comes
/// next.
pub proof fn a_sheep_is_held_at_the_sides(
    s: Sheep<Fixed>,
    pet: Pet<Fixed>,
    world: World<Fixed>,
    tile: Fixed,
    sc: Screen<Fixed>,
    anim: Animation<Fixed>,
    x2: Fixed,
    y2: Fixed,
    seed: u64,
)
    requires
        is_bare(world, sc),
        is_walking(s, tile),
        !is_clear_of_sides(s, tile, sc, x2),
        anim.border@.len() > 0,
    ensures
        ({
            let v = s.resolving(pet, world, tile, anim, x2, y2, seed);
            &&& x2.raw < 0 ==> v.turn.sheep.x == sc.x
            &&& x2.raw > 0 ==> v.turn.sheep.x.raw + tile.raw == sc.x.raw + sc.w.raw
            &&& v.turn.sheep.y == s.y
            &&& v.turn.sheep.resting_on == s.resting_on
            &&& v.turn.sheep.flipped == s.flipped
            &&& v.turn.sheep.situation.on_vertical
            &&& v.next == target_of(chosen(anim.border@, v.turn.sheep.situation, seed))
            &&& v.turn.events == Seq::<Event<Fixed>>::empty()
        }),
{
    reveal(Sheep::at_edges);
    let mid = (s.x.plus(half(tile)), s.y.plus(half(tile)));
    lemma_unhindered(s, world, tile, sc, anim, x2, s.standing_on(&world, tile) is Some, seed);
    let t = unhindered(s, world, tile);
    lemma_deciding(s, pet, world, tile, sc, anim, x2, y2, seed);
    assert(sc.right().minus(tile).raw == sc.x.raw + sc.w.raw - tile.raw);
    assert(s.x.minus(Fixed::whole(1)).raw == s.x.raw - PIXEL);
    assert(s.x.plus(tile).plus(Fixed::whole(1)).raw == s.x.raw + tile.raw + PIXEL);
    if x2.raw < 0 {
        lemma_off_screen(world, sc, s.x.minus(Fixed::whole(1)), mid.1);
    } else {
        lemma_off_screen(world, sc, s.x.plus(tile).plus(Fixed::whole(1)), mid.1);
    }
    let (touched, contact) = t.at_edges(world, tile, anim, x2, y2, sc, mid, None, None);
    lemma_border(
        touched,
        pet,
        world,
        tile,
        anim,
        x2,
        y2,
        sc.floor().minus(tile),
        false,
        s.resting_on is Some,
        s.standing_on(&world, tile) is Some,
        seed,
    );
    let v = s.resolving(pet, world, tile, anim, x2, y2, seed);
    lemma_one_screen(v.turn.sheep, world, tile, sc);
}

} // verus!
