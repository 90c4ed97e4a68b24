//! Where sheep are put and what they set out to do there.

use vstd::prelude::*;

use crate::anim::{
    a_spawn_point_is_the_pets, chosen, landed, seed_after_choice, Animation, Child, Pet,
};
use crate::decimals::{
    is_cut_off, size, whole_multiples_are_exact, whole_numbers_are_exact,
    whole_numbers_are_their_own_whole_parts, whole_shares_are_cut_off,
};
use crate::dice::{picked, seed_after_pick};
use crate::expr::{seed_after, value_or, Ctx};
use crate::fixed::{is_root, root_of, Fixed};
use crate::ground::{is_bare, is_near, lemma_one_screen, PIXEL};
use crate::motion::{a_fast_sheep_waits_less, always_comes_to};
use crate::number::{at_least, zero, Number};
use crate::sheep::{calls_from, half, Event, Sheep};
use crate::step::target_of;
use crate::text::mentions;
use crate::world::{Screen, World};

verus! {

/// Expressions are worked out in the coordinates of one screen: its size, the
/// part of it that no bar at the sides or the bottom takes up, the size of the
/// sheep, where on the screen the sheep is, and its personality.
pub proof fn expressions_see_one_screen(s: Sheep<Fixed>, sc: Screen<Fixed>, tile: Fixed)
    requires
        is_near(s.x),
        is_near(s.y),
        is_near(sc.x),
        is_near(sc.y),
        is_near(sc.w),
        is_near(sc.h),
        is_near(sc.reserved.0),
        is_near(sc.reserved.2),
        is_near(sc.reserved.3),
    ensures
        ({
            let ctx = s.ctx_on(&sc, tile);
            &&& ctx.screen_w == sc.w
            &&& ctx.screen_h == sc.h
            &&& ctx.area_w.raw == sc.w.raw - sc.reserved.0.raw - sc.reserved.2.raw
            &&& ctx.area_h.raw == sc.h.raw - sc.reserved.3.raw
            &&& ctx.image_w == tile
            &&& ctx.image_h == tile
            &&& ctx.image_x.raw == s.x.raw - sc.x.raw
            &&& ctx.image_y.raw == s.y.raw - sc.y.raw
            &&& ctx.rand_s == s.rand_s
        }),
{
}

/// Lengths that a count of strides is worked out from are measured in strides:
/// shared out by the scale of the sheep.
pub proof fn strides_grow_with_the_sheep(s: Sheep<Fixed>, ctx: Ctx<Fixed>, k: int)
    requires
        1 <= k <= 1_000,
        s.scale.raw == k * PIXEL,
        is_near(ctx.screen_w),
        is_near(ctx.screen_h),
        is_near(ctx.area_w),
        is_near(ctx.area_h),
        is_near(ctx.image_w),
        is_near(ctx.image_h),
        is_near(ctx.image_x),
        is_near(ctx.image_y),
    ensures
        ({
            let strides = s.in_strides(&ctx);
            &&& is_cut_off(strides.screen_w.raw as int, ctx.screen_w.raw as int, k)
            &&& is_cut_off(strides.screen_h.raw as int, ctx.screen_h.raw as int, k)
            &&& is_cut_off(strides.area_w.raw as int, ctx.area_w.raw as int, k)
            &&& is_cut_off(strides.area_h.raw as int, ctx.area_h.raw as int, k)
            &&& is_cut_off(strides.image_w.raw as int, ctx.image_w.raw as int, k)
            &&& is_cut_off(strides.image_h.raw as int, ctx.image_h.raw as int, k)
            &&& is_cut_off(strides.image_x.raw as int, ctx.image_x.raw as int, k)
            &&& is_cut_off(strides.image_y.raw as int, ctx.image_y.raw as int, k)
            &&& strides.rand_s == ctx.rand_s
        }),
{
    whole_numbers_are_exact(k as i64);
    assert(at_least(s.scale, Fixed::least()) == Fixed::whole(k as i64));
    whole_shares_are_cut_off(ctx.screen_w, k);
    whole_shares_are_cut_off(ctx.screen_h, k);
    whole_shares_are_cut_off(ctx.area_w, k);
    whole_shares_are_cut_off(ctx.area_h, k);
    whole_shares_are_cut_off(ctx.image_w, k);
    whole_shares_are_cut_off(ctx.image_h, k);
    whole_shares_are_cut_off(ctx.image_x, k);
    whole_shares_are_cut_off(ctx.image_y, k);
}

// -- entering an animation --

/// An animation runs through its frames once, and then so many times more from
/// the frame that its loop returns to.
pub proof fn an_animation_runs_through_its_loop(
    a: Animation<Fixed>,
    ctx: Ctx<Fixed>,
    times: int,
    seed: u64,
)
    requires
        0 < a.frames@.len() <= 10_000,
        a.repeat_from <= 10_000,
        0 <= times <= 10_000,
        always_comes_to(a.repeat@, ctx, Fixed { raw: (times * PIXEL) as i64 }),
    ensures
        ({
            let n = a.frames@.len() as int;
            let again = if a.repeat_from < n {
                n - a.repeat_from
            } else {
                0
            };
            a.spec_steps(ctx, seed) == n + again * times
        }),
{
    let n = a.frames@.len() as int;
    let from = a.repeat_from as int;
    let again = if from < n {
        n - from
    } else {
        0
    };
    let repeat = Fixed { raw: (times * PIXEL) as i64 };
    whole_numbers_are_exact(n as i64);
    whole_numbers_are_exact(from as i64);
    assert(value_or(a.repeat@, ctx, zero::<Fixed>(), seed) == repeat);
    let passes = at_least(repeat, zero());
    assert(passes == repeat);
    whole_numbers_are_their_own_whole_parts(repeat, times);
    let span = at_least(Fixed::whole(n as i64).minus(Fixed::whole(from as i64)), zero());
    assert(span.raw == again * PIXEL);
    whole_numbers_are_exact(times as i64);
    assert(repeat == Fixed::whole(times as i64));
    assert(0 <= again * times <= 100_000_000) by (nonlinear_arith)
        requires
            0 <= again <= 10_000,
            0 <= times <= 10_000,
    ;
    assert(span.raw * times == (again * times) * PIXEL) by (nonlinear_arith)
        requires
            span.raw == again * PIXEL,
    ;
    whole_multiples_are_exact(span, times);
    let total = Fixed::whole(n as i64).plus(span.times(repeat));
    assert(total.raw == (n + again * times) * PIXEL);
    whole_numbers_are_their_own_whole_parts(total, n + again * times);
}

/// The children that are called on by entering an animation.
pub open spec fn called_by(children: Seq<Child>, id: u32) -> Seq<Child> {
    children.filter(|c: Child| c.animation_id == id)
}

proof fn lemma_calls<N: Number>(
    children: Seq<Child>,
    id: u32,
    s: Sheep<N>,
    ctx: Ctx<N>,
    screen: Screen<N>,
    i: int,
    seed: u64,
)
    requires
        0 <= i <= children.len(),
    ensures
        ({
            let events = calls_from(children, id, s, ctx, screen, i, seed).0;
            let called = called_by(children.skip(i), id);
            &&& events.len() == called.len()
            &&& forall|k: int|
                0 <= k < events.len() ==> match #[trigger] events[k] {
                    Event::SpawnChild { animation, rand_s, workspace, .. } => animation
                        == called[k].next && rand_s == s.rand_s && workspace == s.workspace,
                    Event::Died => false,
                }
        }),
    decreases children.len() - i,
{
    let test = |c: Child| c.animation_id == id;
    let rest = children.skip(i);
    if i < children.len() {
        let c = children[i];
        let less = children.skip(i + 1);
        assert(rest == seq![c] + less);
        Seq::filter_distributes_over_add(seq![c], less, test);
        assert(seq![c].filter(test) == if test(c) {
            seq![c]
        } else {
            seq![]
        }) by {
            reveal(Seq::filter);
            assert(seq![c].drop_last() == Seq::<Child>::empty());
            assert(seq![c].drop_last().filter(test) == Seq::<Child>::empty());
        }
        let events = calls_from(children, id, s, ctx, screen, i, seed).0;
        let called = called_by(rest, id);
        if c.animation_id == id {
            let seed_y = seed_after(c.y@, ctx, seed_after(c.x@, ctx, seed));
            lemma_calls(children, id, s, ctx, screen, i + 1, seed_y);
            let others = calls_from(children, id, s, ctx, screen, i + 1, seed_y).0;
            let others_called = called_by(less, id);
            assert forall|k: int| 0 <= k < events.len() implies match #[trigger] events[k] {
                Event::SpawnChild { animation, rand_s, workspace, .. } => animation
                    == called[k].next && rand_s == s.rand_s && workspace == s.workspace,
                Event::Died => false,
            } by {
                if k > 0 {
                    assert(events[k] == others[k - 1]);
                    assert(called[k] == others_called[k - 1]);
                } else {
                    assert(called[0] == c);
                }
            }
        } else {
            lemma_calls(children, id, s, ctx, screen, i + 1, seed);
            assert(called == called_by(less, id));
        }
    } else {
        assert(rest.filter(test).len() == 0) by {
            reveal(Seq::filter);
        }
    }
}

/// Entering an animation starts it at its first step, where the sheep is, and
/// calls on every companion that the pet has for it, in the order of the file,
/// and on no other.
pub proof fn entering_calls_on_every_companion<N: Number>(
    s: Sheep<N>,
    pet: Pet<N>,
    world: World<N>,
    tile: N,
    id: u32,
    seed: u64,
)
    ensures
        ({
            let turn = s.entering(pet, world, tile, id, seed);
            let called = called_by(pet.children@, id);
            &&& turn.sheep == Sheep { animation: id, step: 0, steps: turn.sheep.steps, ..s }
            &&& turn.events.len() == called.len()
            &&& forall|k: int|
                0 <= k < turn.events.len() ==> match #[trigger] turn.events[k] {
                    Event::SpawnChild { animation, rand_s, workspace, .. } => animation
                        == called[k].next && rand_s == s.rand_s && workspace == s.workspace,
                    Event::Died => false,
                }
            &&& match pet.animation(id) {
                Some(a) => turn.sheep.steps == a.spec_steps(
                    s.in_strides(&s.ctx(&world, tile)),
                    seed,
                ),
                None => turn.sheep.steps == 1,
            }
        }),
{
    reveal(Sheep::entering);
    let ctx = s.ctx(&world, tile);
    let strides = s.in_strides(&ctx);
    let (steps, seed_steps) = match pet.animation(id) {
        Some(a) => (a.spec_steps(strides, seed), a.seed_after_steps(strides, seed)),
        None => (1, seed),
    };
    let sheep = Sheep { animation: id, step: 0, steps, ..s };
    lemma_calls(pet.children@, id, sheep, ctx, s.screen(&world, tile), 0, seed_steps);
    assert(pet.children@.skip(0) == pet.children@);
}

/// A companion stands where the file puts it on the screen of the sheep that
/// calls it. One that the file puts by where its caller stands is on the other
/// side of a flipped caller, as far from it.
pub proof fn a_companion_stands_beside_its_caller(
    s: Sheep<Fixed>,
    pet: Pet<Fixed>,
    world: World<Fixed>,
    tile: Fixed,
    sc: Screen<Fixed>,
    id: u32,
    x: Fixed,
    y: Fixed,
    seed: u64,
)
    requires
        is_bare(world, sc),
        is_near(s.x),
        is_near(s.y),
        is_near(x),
        is_near(y),
        pet.children@.len() == 1,
        pet.children@[0].animation_id == id,
        always_comes_to(pet.children@[0].x@, s.ctx_on(&sc, tile), x),
        always_comes_to(pet.children@[0].y@, s.ctx_on(&sc, tile), y),
    ensures
        ({
            let events = s.entering(pet, world, tile, id, seed).events;
            &&& events.len() == 1
            &&& events[0] is SpawnChild
            &&& events[0]->animation == pet.children@[0].next
            &&& events[0]->y.raw == sc.y.raw + y.raw
            &&& !(s.flipped && mentions(pet.children@[0].x@, "imageX"@)) ==> events[0]->x.raw
                == sc.x.raw + x.raw
            &&& s.flipped && mentions(pet.children@[0].x@, "imageX"@) ==> events[0]->x.raw
                - s.x.raw == s.x.raw - (sc.x.raw + x.raw)
        }),
{
    reveal(Sheep::entering);
    reveal_with_fuel(calls_from, 2);
    lemma_one_screen(s, world, tile, sc);
    let ctx = s.ctx(&world, tile);
    assert(ctx.image_x.raw == s.x.raw - sc.x.raw);
    whole_multiples_are_exact(ctx.image_x, 2);
}

/// What is decided on is entered: the sheep is then at the first step of it.
/// Where nothing is, it goes on with what it is in.
pub proof fn what_is_decided_on_is_entered<N: Number>(
    s: Sheep<N>,
    pet: Pet<N>,
    world: World<N>,
    tile: N,
    anim: Animation<N>,
    x2: N,
    y2: N,
    seed: u64,
)
    ensures
        ({
            let v = s.resolving(pet, world, tile, anim, x2, y2, seed);
            let after = s.going_on(pet, world, tile, anim, x2, y2, seed).sheep;
            match v.next {
                Some(id) => after.animation == id && after.step == 0 && after.x == v.turn.sheep.x
                    && after.y == v.turn.sheep.y && after.flipped == v.turn.sheep.flipped
                    && after.resting_on == v.turn.sheep.resting_on,
                None => after == v.turn.sheep,
            }
        }),
{
    reveal(Sheep::going_on);
    reveal(Sheep::entering);
}

/// Coming to the end of an animation, a sheep takes one of the transitions of
/// the animation, by where it then is. One that turns it round has turned it;
/// else it faces as it did. It does not move.
pub proof fn an_animation_ends_in_the_next<N: Number>(
    s: Sheep<N>,
    pet: Pet<N>,
    world: World<N>,
    tile: N,
    anim: Animation<N>,
    x2: N,
    y2: N,
    seed: u64,
)
    requires
        s.step >= s.steps,
        s.toss is None,
        anim.next@.len() > 0,
    ensures
        ({
            let v = s.resolving(pet, world, tile, anim, x2, y2, seed);
            &&& anim.action is Flip ==> v.turn.sheep.flipped == !s.flipped
            &&& !(anim.action is Flip) ==> v.turn.sheep.flipped == s.flipped
            &&& v.turn.sheep.x == s.x
            &&& v.turn.sheep.y == s.y
            &&& v.turn.sheep.resting_on == s.resting_on
            &&& v.next == target_of(chosen(anim.next@, v.turn.sheep.situation, seed))
            &&& v.turn.sheep.situation.on_window == (s.standing_on(&world, tile) is Some)
        }),
{
    reveal(Sheep::resolving);
    reveal(Sheep::finishing);
    reveal(Sheep::situated);
    reveal(chosen);
}

/// A thrown sheep whose falling runs out goes on falling from the start of it.
pub proof fn a_throw_outlasts_its_animation<N: Number>(
    s: Sheep<N>,
    pet: Pet<N>,
    world: World<N>,
    tile: N,
    anim: Animation<N>,
    x2: N,
    y2: N,
    seed: u64,
)
    requires
        s.step >= s.steps,
        s.toss is Some,
    ensures
        ({
            let v = s.resolving(pet, world, tile, anim, x2, y2, seed);
            v.turn.sheep == Sheep { step: 0, ..s } && v.next is None && v.turn.seed == seed
        }),
{
    reveal(Sheep::resolving);
    reveal(Sheep::finishing);
}

/// At the end of the road a companion is gone, and an ordinary sheep starts
/// over.
pub proof fn the_road_ends_where_nothing_is_next<N: Number>(
    s: Sheep<N>,
    pet: Pet<N>,
    world: World<N>,
    tile: N,
    anim: Animation<N>,
    x2: N,
    y2: N,
    seed: u64,
)
    requires
        s.step >= s.steps,
        s.toss is None,
        anim.next@.len() == 0,
        pet.spawns@.len() == 1,
    ensures
        ({
            let v = s.resolving(pet, world, tile, anim, x2, y2, seed);
            &&& v.next is None
            &&& s.is_child ==> v.turn.events == seq![Event::<N>::Died] && v.turn.sheep.x == s.x
                && v.turn.sheep.y == s.y
            &&& !s.is_child ==> v.turn.sheep.animation == pet.spawns@[0].next && v.turn.sheep.step
                == 0 && !v.turn.sheep.flipped && v.turn.sheep.resting_on is None
                && !v.turn.events.contains(Event::Died)
        }),
{
    reveal(Sheep::resolving);
    reveal(Sheep::finishing);
    reveal(Sheep::situated);
    reveal(Sheep::spawning);
    reveal(Sheep::entering);
    reveal(landed);
    reveal(chosen);
    reveal(seed_after_choice);
    a_spawn_point_is_the_pets(pet, seed);
    let v = s.resolving(pet, world, tile, anim, x2, y2, seed);
    if !s.is_child {
        let turned = Sheep { flipped: s.flipped != (anim.action is Flip), ..s };
        let sheep = turned.situated(world, tile, s.standing_on(&world, tile) is Some);
        let turn = sheep.spawning(pet, world, tile, seed);
        assert(v.turn == turn);
        lemma_spawning_calls(sheep, pet, world, tile, seed);
    }
}

proof fn lemma_spawning_calls<N: Number>(
    s: Sheep<N>,
    pet: Pet<N>,
    world: World<N>,
    tile: N,
    seed: u64,
)
    ensures
        !s.spawning(pet, world, tile, seed).events.contains(Event::Died),
{
    reveal(Sheep::spawning);
    if pet.spawn_point(seed) is Some {
        let spawn = pet.spawn_point(seed)->0;
        let seed_point = pet.seed_after_spawn_point(seed);
        let screen = s.arrival(world, tile, seed_point);
        let seed_screen = if world.screens@.len() == 0 {
            seed_point
        } else {
            seed_after_pick(seed_point, world.screens@.len() as u64)
        };
        let ctx = s.ctx_on(&screen, tile);
        let seed_x = seed_after(spawn.x@, ctx, seed_screen);
        let placed = Sheep {
            x: screen.x.plus(value_or(spawn.x@, ctx, zero(), seed_screen)),
            y: screen.y.plus(value_or(spawn.y@, ctx, zero(), seed_x)),
            flipped: false,
            resting_on: None,
            ..s
        };
        let arrived = placed.screen(&world, tile);
        let sheep = Sheep {
            on_screen: arrived.id,
            workspace: if s.workspaces {
                Some(arrived.workspace)
            } else {
                s.workspace
            },
            ..placed
        };
        entering_calls_on_every_companion(
            sheep,
            pet,
            world,
            tile,
            spawn.next,
            seed_after(spawn.y@, ctx, seed_x),
        );
    }
}

/// A sheep whose animation the pet does not have is gone.
pub proof fn a_sheep_without_an_animation_is_gone<N: Number>(
    s: Sheep<N>,
    pet: Pet<N>,
    world: World<N>,
    tile: N,
    seed: u64,
)
    requires
        pet.animation(s.animation) is None,
    ensures
        s.stepping(pet, world, tile, seed).0.events == seq![Event::<N>::Died],
{
}

/// A sheep that is held shows its animation where it is: twenty steps of it a
/// second at its ordinary pace, more the faster it lives, and no more than a
/// hundred.
pub proof fn a_held_sheep_moves_its_legs(
    s: Sheep<Fixed>,
    pet: Pet<Fixed>,
    world: World<Fixed>,
    tile: Fixed,
    sc: Screen<Fixed>,
    anim: Animation<Fixed>,
    seed: u64,
)
    requires
        is_bare(world, sc),
        s.dragging,
        pet.animation(s.animation) == Some(anim),
        s.step < 1_000_000,
        PIXEL <= 10 * s.speed.raw,
        s.speed.raw <= 10 * PIXEL,
    ensures
        ({
            let (turn, wait) = s.stepping(pet, world, tile, seed);
            let t = turn.sheep;
            &&& t.x == s.x
            &&& t.y == s.y
            &&& t.flipped == s.flipped
            &&& t.animation == s.animation
            &&& t.step == s.step + 1
            &&& t.frame == anim.spec_frame_at(s.step)
            &&& t.prev.x == s.x
            &&& t.on_screen == sc.id
            &&& turn.events == Seq::<Event<Fixed>>::empty()
            &&& turn.seed == seed
            &&& 10 <= wait
            &&& wait > 10 ==> wait * s.speed.raw <= 50 * PIXEL < (wait + 1) * s.speed.raw
            &&& wait == 10 ==> 50 * PIXEL < 11 * s.speed.raw
        }),
{
    reveal(Sheep::following);
    let posed = Sheep {
        frame: anim.spec_frame_at(s.step),
        prev: s.pose(),
        step: (s.step + 1) as u32,
        ..s
    };
    lemma_one_screen(posed, world, tile, sc);
    whole_numbers_are_exact(50);
    a_fast_sheep_waits_less(posed, Fixed { raw: (50 * PIXEL) as i64 });
}

/// A sheep that flies takes forty steps a second, however fast it lives.
pub proof fn a_throw_takes_forty_steps_a_second<N: Number>(
    s: Sheep<N>,
    pet: Pet<N>,
    world: World<N>,
    tile: N,
    seed: u64,
)
    requires
        s.toss is Some,
        !s.dragging,
        pet.animation(s.animation) is Some,
    ensures
        40 * s.stepping(pet, world, tile, seed).1 == 1000,
{
}

// -- workspaces --

/// A sheep with a workspace of its own can be seen exactly while its screen
/// shows that workspace, and one without can always be seen.
pub proof fn a_sheep_is_seen_on_its_workspace(
    s: Sheep<Fixed>,
    world: World<Fixed>,
    tile: Fixed,
    sc: Screen<Fixed>,
)
    requires
        is_bare(world, sc),
    ensures
        s.workspace is None ==> s.shown(&world, tile),
        s.workspace is Some ==> (s.shown(&world, tile) <==> s.workspace->0 == sc.workspace),
{
    lemma_one_screen(s, world, tile, sc);
}

/// Coming onto another screen a sheep joins the workspace that it shows, if it
/// has one of its own. On its own screen it keeps to the one it is on.
pub proof fn a_sheep_joins_the_screen_it_comes_to(
    s: Sheep<Fixed>,
    world: World<Fixed>,
    tile: Fixed,
    sc: Screen<Fixed>,
)
    requires
        is_bare(world, sc),
    ensures
        ({
            let t = s.following(world, tile);
            &&& t == Sheep { on_screen: sc.id, workspace: t.workspace, ..s }
            &&& s.on_screen == sc.id || s.workspace is None ==> t.workspace == s.workspace
            &&& s.on_screen != sc.id && s.workspace is Some ==> t.workspace == Some(sc.workspace)
        }),
{
    reveal(Sheep::following);
    lemma_one_screen(s, world, tile, sc);
}

// -- spawning and wandering --

/// A sheep that starts over goes to the screen that chance picks, is put where
/// its spawn point says on that screen, faces the way it is drawn, stands on
/// nothing and enters what the spawn point leads to.
pub proof fn a_sheep_spawns_where_its_spawn_point_says(
    s: Sheep<Fixed>,
    pet: Pet<Fixed>,
    world: World<Fixed>,
    tile: Fixed,
    x: Fixed,
    y: Fixed,
    seed: u64,
)
    requires
        is_near(x),
        is_near(y),
        pet.spawns@.len() == 1,
        0 < world.screens@.len() <= u64::MAX,
        forall|i: int|
            0 <= i < world.screens@.len() ==> is_near((#[trigger] world.screens@[i]).x) && is_near(
                world.screens@[i].y,
            ) && always_comes_to(pet.spawns@[0].x@, s.ctx_on(&world.screens@[i], tile), x)
                && always_comes_to(pet.spawns@[0].y@, s.ctx_on(&world.screens@[i], tile), y),
    ensures
        ({
            let n = world.screens@.len();
            let k = picked(pet.seed_after_spawn_point(seed), n as u64);
            let sc = world.screens@[k as int];
            let t = s.spawning(pet, world, tile, seed).sheep;
            k < n ==> {
                &&& t.x.raw == sc.x.raw + x.raw
                &&& t.y.raw == sc.y.raw + y.raw
                &&& !t.flipped
                &&& t.resting_on is None
                &&& t.animation == pet.spawns@[0].next
                &&& t.step == 0
                &&& is_bare(world, sc) ==> t.on_screen == sc.id
                &&& s.workspaces && is_bare(world, sc) ==> t.workspace == Some(sc.workspace)
                &&& !s.workspaces ==> t.workspace == s.workspace
            }
        }),
{
    reveal(Sheep::spawning);
    reveal(Sheep::entering);
    reveal(landed);
    a_spawn_point_is_the_pets(pet, seed);
    assert(pet.spawn_point(seed)->0 == pet.spawns@[0]);
    let k = picked(pet.seed_after_spawn_point(seed), world.screens@.len() as u64);
    let sc = world.screens@[k as int];
    if k < world.screens@.len() {
        assert(s.arrival(world, tile, pet.seed_after_spawn_point(seed)) == sc);
        let t = s.spawning(pet, world, tile, seed).sheep;
        let placed = Sheep { x: t.x, y: t.y, flipped: false, resting_on: None, ..s };
        if is_bare(world, sc) {
            lemma_one_screen(placed, world, tile, sc);
        }
    }
}

/// A sheep out of sight that wanders on comes in from the edge that it is
/// nearer to, walking on the floor and facing into the screen: to the right
/// from the left edge and to the left from the right one.
pub proof fn a_wanderer_walks_in_from_the_nearer_edge(
    s: Sheep<Fixed>,
    pet: Pet<Fixed>,
    world: World<Fixed>,
    tile: Fixed,
    sc: Screen<Fixed>,
    walk: Animation<Fixed>,
    dx: Fixed,
    seed: u64,
)
    requires
        is_bare(world, sc),
        is_near(s.x),
        is_near(tile),
        0 <= tile.raw,
        0 <= sc.w.raw,
        pet.named("walk"@) == Some(walk),
        always_comes_to(walk.end.x@, s.ctx_on(&sc, tile), dx),
    ensures
        ({
            let t = s.wandering(pet, world, tile, seed).sheep;
            let from_left = s.x.raw + tile.raw / 2 < sc.x.raw + sc.w.raw / 2;
            &&& from_left ==> t.x == sc.x
            &&& !from_left ==> t.x.raw + tile.raw == sc.x.raw + sc.w.raw
            &&& t.y.raw + tile.raw == sc.y.raw + sc.h.raw - sc.reserved.3.raw
            &&& t.flipped == ((dx.raw < 0) == from_left)
            &&& t.animation == walk.id
            &&& t.step == 0
            &&& t.resting_on is None
            &&& t.toss is None
            &&& t.workspace == Some(sc.workspace)
        }),
{
    reveal(Sheep::entering);
    lemma_one_screen(s, world, tile, sc);
    lemma_half(tile);
    lemma_half(sc.w);
}

proof fn lemma_half(v: Fixed)
    requires
        is_near(v),
        0 <= v.raw,
    ensures
        half(v).raw == v.raw / 2,
{
    whole_numbers_are_exact(2);
    whole_shares_are_cut_off(v, 2);
    let h = half(v);
    let (x, d) = (size(h.raw as int), size(2));
    assert(x == v.raw as int / 2) by (nonlinear_arith)
        requires
            x * d <= v.raw < (x + 1) * d,
            d == 2,
    ;
}

// -- the mouse --

/// A dragged sheep has its middle at the mouse.
pub proof fn a_dragged_sheep_is_in_the_middle_of_the_mouse(
    s: Sheep<Fixed>,
    x: Fixed,
    y: Fixed,
    tile: Fixed,
)
    requires
        is_near(x),
        is_near(y),
        is_near(tile),
        0 <= tile.raw,
    ensures
        s.dragged_to(x, y, tile).x.raw + tile.raw / 2 == x.raw,
        s.dragged_to(x, y, tile).y.raw + tile.raw / 2 == y.raw,
        s.dragged_to(x, y, tile).animation == s.animation,
        s.dragged_to(x, y, tile).flipped == s.flipped,
{
    lemma_half(tile);
}

/// Taking hold of a sheep puts it in the animation for it, if the pet has one;
/// else it goes on with what it is in.
pub proof fn a_held_sheep_is_drawn_held<N: Number>(
    s: Sheep<N>,
    pet: Pet<N>,
    world: World<N>,
    tile: N,
    seed: u64,
)
    ensures
        ({
            let held = s.grabbed(pet, world, tile, seed).sheep;
            &&& held.dragging
            &&& held.flipped == s.flipped
            &&& match pet.named("drag"@) {
                Some(drag) => held.animation == drag.id && held.step == 0,
                None => held.animation == s.animation && held.step == s.step,
            }
        }),
{
    reveal(Sheep::entering);
}

/// Let go of while the mouse goes at two hundred and fifty pixels a second or
/// more, a sheep is thrown: it falls, facing the way it was thrown, from where
/// it is. Slower, it is dropped: what it was held in is over.
pub proof fn a_flick_throws_a_sheep(
    s: Sheep<Fixed>,
    pet: Pet<Fixed>,
    world: World<Fixed>,
    tile: Fixed,
    vx: Fixed,
    vy: Fixed,
    seed: u64,
)
    requires
        -100_000 * PIXEL <= vx.raw <= 100_000 * PIXEL,
        -100_000 * PIXEL <= vy.raw <= 100_000 * PIXEL,
        pet.spec_fall_animation() is Some,
    ensures
        ({
            let t = s.released(pet, world, tile, vx, vy, seed).sheep;
            let fast = vx.raw * vx.raw + vy.raw * vy.raw >= (250 * PIXEL) * (250 * PIXEL);
            &&& !t.dragging
            &&& t.x == s.x
            &&& t.y == s.y
            &&& fast ==> t.toss is Some && t.flipped == (vx.raw < 0) && Some(t.animation)
                == pet.spec_fall_animation() && t.step == 0
            &&& !fast ==> t.toss == s.toss && t.flipped == s.flipped && t.animation == s.animation
                && t.step == t.steps
        }),
{
    reveal(Sheep::entering);
    let n = vx.raw * vx.raw + vy.raw * vy.raw;
    let m = 100_000 * PIXEL;
    assert(0 <= vx.raw * vx.raw <= m * m) by (nonlinear_arith)
        requires
            -m <= vx.raw <= m,
    ;
    assert(0 <= vy.raw * vy.raw <= m * m) by (nonlinear_arith)
        requires
            -m <= vy.raw <= m,
    ;
    let r = root_of(n as nat) as int;
    assert(0 <= n <= 2 * (100_000 * PIXEL) * (100_000 * PIXEL)) by (nonlinear_arith)
        requires
            0 <= n <= m * m + m * m,
            m == 100_000 * PIXEL,
    ;
    lemma_root(n, 2 * m);
    let least = 250 * PIXEL;
    assert(n >= least * least <==> r >= least) by (nonlinear_arith)
        requires
            r >= 0,
            r * r <= n < (r + 1) * (r + 1),
            least >= 0,
    ;
    assert(vx.hypot(vy).raw == r);
}

proof fn lemma_root(n: int, most: int)
    requires
        0 <= n <= 2 * (100_000 * PIXEL) * (100_000 * PIXEL),
        most == 2 * (100_000 * PIXEL),
    ensures
        ({
            let r = root_of(n as nat) as int;
            0 <= r <= most && r * r <= n < (r + 1) * (r + 1)
        }),
{
    assert(n < (n + 1) * (n + 1)) by (nonlinear_arith)
        requires
            n >= 0,
    ;
    let w = lemma_there_is_a_root(n as nat, (n + 1) as nat);
    assert(is_root(w, n as nat));
    let r = root_of(n as nat) as int;
    assert(r <= most) by (nonlinear_arith)
        requires
            r * r <= n,
            n <= 2 * (100_000 * PIXEL) * (100_000 * PIXEL),
            most == 2 * (100_000 * PIXEL),
            r >= 0,
            PIXEL == 10_000_000_000,
    ;
}

proof fn lemma_there_is_a_root(n: nat, most: nat) -> (r: nat)
    requires
        n < most * most,
    ensures
        is_root(r, n),
    decreases most,
{
    assert(most > 0) by (nonlinear_arith)
        requires
            n < most * most,
            n >= 0,
    ;
    let less = (most - 1) as nat;
    if less * less <= n {
        less
    } else {
        lemma_there_is_a_root(n, less)
    }
}

} // verus!
