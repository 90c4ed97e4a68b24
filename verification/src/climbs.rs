//! What a sheep climbs onto, where it takes itself to be, and what it falls
//! into.

use vstd::prelude::*;

use crate::anim::{
    falls_from, is_favourite, outranks, tally_from, targets, there_is_a_favourite, Animation, Pet,
};
use crate::decimals::{rounding_goes_to_whole_numbers, size, whole_multiples_are_exact};
use crate::fixed::Fixed;
use crate::ground::{is_bare, is_near, lemma_one_screen, PIXEL};
use crate::meetings::are_near;
use crate::number::Number;
use crate::senses::first_where;
use crate::sheep::{half, Sheep};
use crate::world::{Rect, Screen, World};

verus! {

/// Is the sheep, of so big a tile, up against one of two faces, less than two
/// pixels from it?
pub open spec fn is_flush(s: Sheep<Fixed>, tile: Fixed, left: int, right: int) -> bool {
    size(s.x.raw - right) < 2 * PIXEL || size(s.x.raw + tile.raw - left) < 2 * PIXEL
}

/// Is the sheep climbing up a face that ends at `top`, and its feet about to
/// pass that: above it by less than twenty pixels, times the scale, or below
/// it by no more than two?
pub open spec fn is_topping_out(
    s: Sheep<Fixed>,
    tile: Fixed,
    top: int,
    bottom: int,
    left: int,
    right: int,
) -> bool {
    &&& s.y.raw < bottom
    &&& top - 20 * s.scale.raw < s.y.raw + tile.raw <= top + 2 * PIXEL
    &&& is_flush(s, tile, left, right)
}

/// Is the sheep topping out onto this window?
pub open spec fn tops_window(s: Sheep<Fixed>, tile: Fixed, r: Rect<Fixed>) -> bool {
    is_topping_out(
        s,
        tile,
        r.y.raw as int,
        r.y.raw + r.h.raw,
        r.x.raw as int,
        r.x.raw + r.w.raw,
    )
}

/// Is the sheep topping out onto the floor of this screen?
pub open spec fn tops_screen(s: Sheep<Fixed>, tile: Fixed, sc: Screen<Fixed>) -> bool {
    is_topping_out(
        s,
        tile,
        sc.y.raw + sc.h.raw - sc.reserved.3.raw,
        sc.y.raw + sc.h.raw,
        sc.x.raw as int,
        sc.x.raw + sc.w.raw,
    )
}

/// Is the screen somewhere near?
pub open spec fn is_near_screen(sc: Screen<Fixed>) -> bool {
    &&& is_near(sc.x)
    &&& is_near(sc.y)
    &&& is_near(sc.w)
    &&& is_near(sc.h)
    &&& is_near(sc.reserved.3)
}

/// Is the sheep somewhere near and in the middle of an animation?
pub open spec fn is_climbing(s: Sheep<Fixed>, tile: Fixed) -> bool {
    &&& s.step < s.steps
    &&& is_near(s.x)
    &&& is_near(s.y)
    &&& is_near(tile)
    &&& 0 < tile.raw
    &&& 0 < s.scale.raw <= 1_000 * PIXEL
}

proof fn lemma_window_crest(s: Sheep<Fixed>, tile: Fixed, r: Rect<Fixed>)
    requires
        is_climbing(s, tile),
        is_near(r.x),
        is_near(r.y),
        is_near(r.w),
        is_near(r.h),
    ensures
        s.cresting(r.top(), r.bottom(), r.left(), r.right(), tile) == tops_window(s, tile, r),
{
    whole_multiples_are_exact(s.scale, 20);
}

proof fn lemma_screen_crest(s: Sheep<Fixed>, tile: Fixed, sc: Screen<Fixed>)
    requires
        is_climbing(s, tile),
        is_near_screen(sc),
    ensures
        s.cresting(sc.floor(), sc.bottom(), sc.x, sc.right(), tile) == tops_screen(s, tile, sc),
{
    whole_multiples_are_exact(s.scale, 20);
}

proof fn lemma_first<T>(list: Seq<T>, test: spec_fn(T) -> bool, k: int, from: int)
    requires
        0 <= from <= k < list.len(),
        test(list[k]),
        forall|j: int| 0 <= j < k ==> !test(#[trigger] list[j]),
    ensures
        first_where(list, test, from) == Some(list[k]),
    decreases k - from,
{
    if from < k {
        lemma_first(list, test, k, from + 1);
    }
}

proof fn lemma_none<T>(list: Seq<T>, test: spec_fn(T) -> bool, from: int)
    requires
        0 <= from,
        forall|j: int| 0 <= j < list.len() ==> !test(#[trigger] list[j]),
    ensures
        first_where(list, test, from) is None,
    decreases list.len() - from,
{
    if from < list.len() {
        lemma_none(list, test, from + 1);
    }
}

/// A sheep that goes neither left nor right, on a desktop of its own, meets
/// nothing but the edges of things.
proof fn lemma_straight_up(
    s: Sheep<Fixed>,
    pet: Pet<Fixed>,
    world: World<Fixed>,
    tile: Fixed,
    anim: Animation<Fixed>,
    y2: Fixed,
    seed: u64,
)
    requires
        is_climbing(s, tile),
        world.flock@.len() == 0,
        world.pointer is None,
    ensures
        ({
            let x2 = Fixed { raw: 0 };
            let sc = s.screen(&world, tile);
            let t = s.clear_of_passed(world, tile);
            let (touched, contact) = t.at_level(
                world,
                tile,
                anim,
                y2,
                sc,
                s.x.plus(half(tile)),
            );
            &&& t == Sheep { passing: t.passing, passing_sheep: t.passing_sheep, ..s }
            &&& s.resolving(pet, world, tile, anim, x2, y2, seed) == touched.concluding(
                pet,
                world,
                tile,
                anim,
                x2,
                y2,
                sc.floor().minus(tile),
                contact,
                None,
                s.resting_on is Some,
                s.standing_on(&world, tile) is Some,
                seed,
            )
        }),
{
    reveal(Sheep::resolving);
    reveal(Sheep::obstructed);
    reveal(Sheep::clear_of_passed);
    reveal(Sheep::at_face);
    reveal(Sheep::at_company);
    reveal(Sheep::at_edges);
}

/// A climber whose feet pass the top of a window, up against its side, steps
/// onto it: it stands on the window's top, a pixel in from the side it came up
/// on, and does what the pet does on arriving.
pub proof fn a_climber_steps_onto_a_window(
    s: Sheep<Fixed>,
    pet: Pet<Fixed>,
    world: World<Fixed>,
    tile: Fixed,
    sc: Screen<Fixed>,
    anim: Animation<Fixed>,
    y2: Fixed,
    k: int,
    seed: u64,
)
    requires
        is_bare(world, sc),
        is_climbing(s, tile),
        s.climb_windows,
        y2.raw < 0,
        sc.y.raw <= s.y.raw,
        !is_flush(s, tile, sc.x.raw as int, sc.x.raw + sc.w.raw),
        are_near(world.windows@),
        0 <= k < world.windows@.len(),
        tops_window(s, tile, world.windows@[k]),
        forall|j: int| 0 <= j < k ==> !tops_window(s, tile, #[trigger] world.windows@[j]),
        pet.spec_landing_animation() is Some,
    ensures
        ({
            let r = world.windows@[k];
            let v = s.resolving(pet, world, tile, anim, Fixed { raw: 0 }, y2, seed);
            let t = v.turn.sheep;
            &&& t.resting_on == Some(r.id)
            &&& 0 <= t.y.raw + tile.raw - r.y.raw < PIXEL
            &&& (t.y.raw + tile.raw) % PIXEL as int == 0
            &&& s.x.raw < r.x.raw + tile.raw ==> t.x.raw == r.x.raw + PIXEL
            &&& s.x.raw >= r.x.raw + tile.raw ==> t.x.raw + tile.raw == r.x.raw + r.w.raw - PIXEL
            &&& t.toss is None
            &&& t.flipped == s.flipped
            &&& v.next == pet.spec_landing_animation()
        }),
{
    reveal(Sheep::concluding);
    reveal(Sheep::situated);
    lemma_one_screen(s, world, tile, sc);
    lemma_straight_up(s, pet, world, tile, anim, y2, seed);
    let t = s.clear_of_passed(world, tile);
    lemma_screen_crest(t, tile, sc);
    assert(world.screens@[0] == sc);
    lemma_none(world.screens@, t.surfaces(tile), 0);
    assert forall|j: int| 0 <= j < world.windows@.len() implies t.crests(tile)(
        #[trigger] world.windows@[j],
    ) == tops_window(s, tile, world.windows@[j]) by {
        lemma_window_crest(t, tile, world.windows@[j]);
    }
    lemma_first(world.windows@, t.crests(tile), k, 0);
    rounding_goes_to_whole_numbers(world.windows@[k].y);
}

/// A climber whose feet pass the floor of a screen, up against the outside of
/// it, steps onto that floor, a pixel in from the side it came up on, and does
/// what the pet does on arriving.
pub proof fn a_climber_steps_onto_a_screen(
    s: Sheep<Fixed>,
    pet: Pet<Fixed>,
    world: World<Fixed>,
    tile: Fixed,
    anim: Animation<Fixed>,
    y2: Fixed,
    k: int,
    seed: u64,
)
    requires
        is_climbing(s, tile),
        world.flock@.len() == 0,
        world.pointer is None,
        y2.raw < 0,
        s.screen(&world, tile).y.raw <= s.y.raw,
        forall|j: int|
            0 <= j < world.screens@.len() ==> is_near_screen(#[trigger] world.screens@[j]),
        0 <= k < world.screens@.len(),
        tops_screen(s, tile, world.screens@[k]),
        forall|j: int| 0 <= j < k ==> !tops_screen(s, tile, #[trigger] world.screens@[j]),
        pet.spec_landing_animation() is Some,
    ensures
        ({
            let sc = world.screens@[k];
            let right = sc.x.raw + sc.w.raw;
            let v = s.resolving(pet, world, tile, anim, Fixed { raw: 0 }, y2, seed);
            let t = v.turn.sheep;
            &&& t.resting_on is None
            &&& t.y.raw + tile.raw == sc.y.raw + sc.h.raw - sc.reserved.3.raw
            &&& size(s.x.raw - right) < 2 * PIXEL ==> t.x.raw + tile.raw == right - PIXEL
            &&& size(s.x.raw - right) >= 2 * PIXEL ==> t.x.raw == sc.x.raw + PIXEL
            &&& t.toss is None
            &&& t.flipped == s.flipped
            &&& v.next == pet.spec_landing_animation()
        }),
{
    reveal(Sheep::concluding);
    reveal(Sheep::situated);
    lemma_straight_up(s, pet, world, tile, anim, y2, seed);
    let t = s.clear_of_passed(world, tile);
    assert forall|j: int| 0 <= j < world.screens@.len() implies t.surfaces(tile)(
        #[trigger] world.screens@[j],
    ) == tops_screen(s, tile, world.screens@[j]) by {
        lemma_screen_crest(t, tile, world.screens@[j]);
    }
    lemma_first(world.screens@, t.surfaces(tile), k, 0);
}

/// A sheep arrives the way that climbing down ends: with the first of the
/// transitions that the animation of that name has at a border.
pub proof fn an_arrival_ends_like_a_climb_down<N: Number>(pet: Pet<N>, down: Animation<N>)
    requires
        pet.named("vertical_walk_down"@) == Some(down),
    ensures
        down.border@.len() > 0 ==> pet.spec_landing_animation() == Some(down.border@[0].target),
        down.border@.len() == 0 ==> pet.spec_landing_animation() is None,
{
}

/// Where a sheep takes itself to be. It is on the taskbar within two pixels of
/// the floor or below; on something upright at a side of the screen or up
/// against a window; and on something level at the top of the screen or near
/// the floor.
pub proof fn a_sheep_knows_where_it_is(
    s: Sheep<Fixed>,
    world: World<Fixed>,
    tile: Fixed,
    sc: Screen<Fixed>,
    on_window: bool,
)
    requires
        is_bare(world, sc),
        is_near(s.x),
        is_near(s.y),
        is_near(tile),
        are_near(world.windows@),
    ensures
        ({
            let at = s.situation_in(&world, tile, on_window);
            let floor = sc.y.raw + sc.h.raw - sc.reserved.3.raw - tile.raw;
            let is_low = s.y.raw >= floor - 2 * PIXEL;
            let is_beside = exists|j: int|
                0 <= j < world.windows@.len() && {
                    let r = #[trigger] world.windows@[j];
                    &&& s.climb_windows
                    &&& r.y.raw + 2 * PIXEL < s.y.raw + tile.raw
                    &&& s.y.raw < r.y.raw + r.h.raw
                    &&& is_flush(s, tile, r.x.raw as int, r.x.raw + r.w.raw)
                };
            &&& at.on_window == on_window
            &&& at.on_taskbar == is_low
            &&& at.on_horizontal == (s.y.raw <= sc.y.raw || is_low)
            &&& at.on_vertical == (s.x.raw <= sc.x.raw || s.x.raw + tile.raw >= sc.x.raw
                + sc.w.raw || is_beside)
        }),
{
    lemma_one_screen(s, world, tile, sc);
    assert forall|j: int| 0 <= j < world.windows@.len() implies s.presses(
        #[trigger] &world.windows@[j],
        tile,
    ) == ({
        let r = world.windows@[j];
        &&& s.climb_windows
        &&& r.y.raw + 2 * PIXEL < s.y.raw + tile.raw
        &&& s.y.raw < r.y.raw + r.h.raw
        &&& is_flush(s, tile, r.x.raw as int, r.x.raw + r.w.raw)
    }) by {}
    if s.on_window_side(&world, tile) {
        let j = choose|j: int|
            0 <= j < world.windows@.len() && s.presses(#[trigger] &world.windows@[j], tile);
        assert(s.presses(&world.windows@[j], tile));
        assert(world.windows@[j].y.raw + 2 * PIXEL < s.y.raw + tile.raw);
    }
    if exists|j: int|
        0 <= j < world.windows@.len() && {
            let r = #[trigger] world.windows@[j];
            &&& s.climb_windows
            &&& r.y.raw + 2 * PIXEL < s.y.raw + tile.raw
            &&& s.y.raw < r.y.raw + r.h.raw
            &&& is_flush(s, tile, r.x.raw as int, r.x.raw + r.w.raw)
        } {
        let j = choose|j: int|
            0 <= j < world.windows@.len() && {
                let r = #[trigger] world.windows@[j];
                &&& s.climb_windows
                &&& r.y.raw + 2 * PIXEL < s.y.raw + tile.raw
                &&& s.y.raw < r.y.raw + r.h.raw
                &&& is_flush(s, tile, r.x.raw as int, r.x.raw + r.w.raw)
            };
        assert(s.presses(&world.windows@[j], tile));
    }
}

// -- falling --

/// The test for `t` itself.
pub open spec fn is_just(t: u32) -> spec_fn(u32) -> bool {
    |u: u32| u == t
}

/// How often `t` is in the list.
pub open spec fn times_in(list: Seq<u32>, t: u32) -> nat {
    list.filter(is_just(t)).len()
}

proof fn lemma_tally(list: Seq<u32>, t: u32, i: int)
    requires
        0 <= i <= list.len(),
    ensures
        tally_from(list, t, i) == times_in(list.skip(i), t),
    decreases list.len() - i,
{
    let test = is_just(t);
    reveal(Seq::filter);
    if i < list.len() {
        lemma_tally(list, t, i + 1);
        assert(list.skip(i) == seq![list[i]] + list.skip(i + 1));
        Seq::filter_distributes_over_add(seq![list[i]], list.skip(i + 1), test);
        assert(seq![list[i]].drop_last() == Seq::<u32>::empty());
        assert(seq![list[i]].drop_last().filter(test) == Seq::<u32>::empty());
    } else {
        assert(list.skip(i).len() == 0);
    }
}

proof fn lemma_falls<N>(animations: Seq<Animation<N>>, i: int, k: int, m: int)
    requires
        0 <= i <= k < animations.len(),
        0 <= m < animations[k].gravity@.len(),
    ensures
        falls_from(animations, i).contains(animations[k].gravity@[m].target),
    decreases k - i,
{
    let t = animations[k].gravity@[m].target;
    let (first, rest) = (targets(animations[i].gravity@), falls_from(animations, i + 1));
    if i == k {
        assert((first + rest)[m] == t);
    } else {
        lemma_falls(animations, i + 1, k, m);
        let at = rest.index_of(t);
        assert((first + rest)[first.len() + at] == t);
    }
}

/// What a sheep falls into is where the gravity of the pet's animations leads:
/// nothing is led to oftener, and of those led to as often it is the least.
pub proof fn a_sheep_falls_as_gravity_mostly_leads<N: Number>(pet: Pet<N>, k: int, m: int)
    requires
        0 <= k < pet.animations@.len(),
        0 <= m < pet.animations@[k].gravity@.len(),
    ensures
        ({
            let falls = falls_from(pet.animations@, 0);
            let t = pet.spec_fall_animation();
            let u = pet.animations@[k].gravity@[m].target;
            let often = times_in(falls, t->0);
            let as_often = times_in(falls, u);
            &&& t is Some
            &&& falls.contains(t->0)
            &&& falls.contains(u)
            &&& often > as_often || (often == as_often && t->0 <= u)
        }),
{
    reveal(Pet::spec_fall_animation);
    let falls = falls_from(pet.animations@, 0);
    let u = pet.animations@[k].gravity@[m].target;
    lemma_falls(pet.animations@, 0, k, m);
    there_is_a_favourite(falls);
    let t = pet.spec_fall_animation()->0;
    assert(is_favourite(falls, t));
    let at = falls.index_of(u);
    assert(outranks(falls, t, falls[at]));
    assert(falls.skip(0) == falls);
    lemma_tally(falls, t, 0);
    lemma_tally(falls, u, 0);
}

} // verus!
