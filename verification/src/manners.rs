//! How sheep meet the world and one another.

use vstd::prelude::*;

use crate::anim::{chosen, seed_after_choice, Animation, Pet};
use crate::dice::seed_after_pick;
use crate::expr::{seed_after, value_or, Ctx};
use crate::fixed::Fixed;
use crate::laws::lemma_deciding_is_silent;
use crate::number::{clamped, one, zero, Number};
use crate::senses::{face_at, face_from, further_back, stopping_face};
use crate::sheep::{between, calls_from, half, side_reach, Event, Sheep};
use crate::step::{no_stop, Contact};
use crate::world::{every_point_belongs_to_a_screen, Rect, Screen, World};

verus! {

// -- companions --

/// Is this the call of `s`, made on entering animation `id`?
pub open spec fn calls_on<N>(s: Sheep<N>, pet: Pet<N>, id: u32, e: Event<N>) -> bool {
    match e {
        Event::SpawnChild { animation, rand_s, workspace, .. } => {
            &&& rand_s == s.rand_s
            &&& workspace == s.workspace
            &&& exists|i: int|
                0 <= i < pet.children@.len() && (#[trigger] pet.children@[i]).animation_id == id
                    && pet.children@[i].next == animation
        },
        Event::Died => false,
    }
}

proof fn lemma_calls<N: Number>(
    pet: Pet<N>,
    id: u32,
    s: Sheep<N>,
    ctx: Ctx<N>,
    screen: Screen<N>,
    i: int,
    seed: u64,
)
    requires
        0 <= i,
    ensures
        ({
            let events = calls_from(pet.children@, id, s, ctx, screen, i, seed).0;
            forall|k: int| 0 <= k < events.len() ==> calls_on(s, pet, id, #[trigger] events[k])
        }),
    decreases pet.children@.len() - i,
{
    if i < pet.children@.len() {
        let c = pet.children@[i];
        if c.animation_id == id {
            let seed_y = seed_after(c.y@, ctx, seed_after(c.x@, ctx, seed));
            lemma_calls(pet, id, s, ctx, screen, i + 1, seed_y);
            let rest = calls_from(pet.children@, id, s, ctx, screen, i + 1, seed_y).0;
            let events = calls_from(pet.children@, id, s, ctx, screen, i, seed).0;
            assert forall|k: int| 0 <= k < events.len() implies calls_on(
                s,
                pet,
                id,
                #[trigger] events[k],
            ) by {
                if k > 0 {
                    assert(events[k] == rest[k - 1]);
                    assert(calls_on(s, pet, id, rest[k - 1]));
                } else {
                    assert(pet.children@[i].next == c.next);
                }
            }
        } else {
            lemma_calls(pet, id, s, ctx, screen, i + 1, seed);
            assert(calls_from(pet.children@, id, s, ctx, screen, i, seed) == calls_from(
                pet.children@,
                id,
                s,
                ctx,
                screen,
                i + 1,
                seed,
            ));
        }
    } else {
        assert(calls_from(pet.children@, id, s, ctx, screen, i, seed).0.len() == 0);
    }
}

/// A sheep that enters an animation calls on the companions its pet has for
/// that animation, and gives each its own personality and workspace, so that
/// the two keep time and are seen together.
pub proof fn companions_take_after_their_parent<N: Number>(
    s: Sheep<N>,
    pet: Pet<N>,
    world: World<N>,
    tile: N,
    id: u32,
    seed: u64,
)
    ensures
        ({
            let events = s.entering(pet, world, tile, id, seed).events;
            forall|k: int| 0 <= k < events.len() ==> calls_on(s, pet, id, #[trigger] events[k])
        }),
{
    reveal(Sheep::entering);
    let ctx = s.ctx(&world, tile);
    let strides = s.in_strides(&ctx);
    let (steps, seed_steps) = match pet.animation(id) {
        Some(a) => (a.spec_steps(strides, seed), a.seed_after_steps(strides, seed)),
        None => (1, seed),
    };
    let sheep = Sheep { animation: id, step: 0, steps, ..s };
    lemma_calls(pet, id, sheep, ctx, s.screen(&world, tile), 0, seed_steps);
    let events = s.entering(pet, world, tile, id, seed).events;
    assert forall|k: int| 0 <= k < events.len() implies calls_on(
        s,
        pet,
        id,
        #[trigger] events[k],
    ) by {
        assert(calls_on(sheep, pet, id, events[k]));
    }
}

/// Coming to the end of the road, a companion dies and an ordinary sheep
/// starts over: nothing of the kind is heard of it.
pub proof fn only_companions_end<N: Number>(
    s: Sheep<N>,
    pet: Pet<N>,
    world: World<N>,
    tile: N,
    anim: Animation<N>,
    supported: bool,
    seed: u64,
)
    requires
        s.toss is None,
        anim.next@.len() == 0,
    ensures
        ({
            let v = s.finishing(pet, world, tile, anim, supported, seed);
            &&& v.next is None
            &&& s.is_child <==> v.turn.events.contains(Event::Died)
            &&& s.is_child ==> v.turn.events == seq![Event::<N>::Died]
        }),
{
    reveal(Sheep::finishing);
    reveal(Sheep::situated);
    reveal(Sheep::spawning);
    reveal(chosen);
    let turned = Sheep { flipped: s.flipped != (anim.action is Flip), ..s };
    let sheep = turned.situated(world, tile, supported);
    let v = s.finishing(pet, world, tile, anim, supported, seed);
    if s.is_child {
        assert(v.turn.events[0] is Died);
    } else {
        let seed_next = seed_after_choice(anim.next@, sheep.situation, seed);
        lemma_no_death_in_spawning(sheep, pet, world, tile, seed_next);
    }
}

proof fn lemma_no_death_in_spawning<N: Number>(
    s: Sheep<N>,
    pet: Pet<N>,
    world: World<N>,
    tile: N,
    seed: u64,
)
    ensures
        !s.spawning(pet, world, tile, seed).events.contains(Event::Died),
{
    reveal(Sheep::spawning);
    let events = s.spawning(pet, world, tile, seed).events;
    if let Some(spawn) = pet.spawn_point(seed) {
        let seed_point = pet.seed_after_spawn_point(seed);
        let screen = s.arrival(world, tile, seed_point);
        let seed_screen = if world.screens@.len() == 0 {
            seed_point
        } else {
            seed_after_pick(seed_point, world.screens@.len() as u64)
        };
        let ctx = s.ctx_on(&screen, tile);
        let seed_x = seed_after(spawn.x@, ctx, seed_screen);
        let placed = Sheep {
            x: screen.x.plus(value_or(spawn.x@, ctx, zero(), seed_screen)),
            y: screen.y.plus(value_or(spawn.y@, ctx, zero(), seed_x)),
            flipped: false,
            resting_on: None,
            ..s
        };
        let arrived = placed.screen(&world, tile);
        let sheep = Sheep {
            on_screen: arrived.id,
            workspace: if s.workspaces {
                Some(arrived.workspace)
            } else {
                s.workspace
            },
            ..placed
        };
        let seed_y = seed_after(spawn.y@, ctx, seed_x);
        companions_take_after_their_parent(sheep, pet, world, tile, spawn.next, seed_y);
        assert(events == sheep.entering(pet, world, tile, spawn.next, seed_y).events);
        assert forall|k: int| 0 <= k < events.len() implies !(#[trigger] events[k] is Died) by {
            assert(calls_on(sheep, pet, spawn.next, events[k]));
        }
    }
}

proof fn lemma_no_death_in_resolving<N: Number>(
    s: Sheep<N>,
    pet: Pet<N>,
    world: World<N>,
    tile: N,
    anim: Animation<N>,
    x2: N,
    y2: N,
    seed: u64,
)
    requires
        !s.is_child,
    ensures
        !s.resolving(pet, world, tile, anim, x2, y2, seed).turn.events.contains(Event::Died),
{
    reveal(Sheep::resolving);
    let supported_now = s.standing_on(&world, tile) is Some;
    if s.step >= s.steps {
        reveal(Sheep::finishing);
        reveal(Sheep::situated);
        let turned = Sheep { flipped: s.flipped != (anim.action is Flip), ..s };
        let sheep = turned.situated(world, tile, supported_now);
        let seed_next = seed_after_choice(anim.next@, sheep.situation, seed);
        lemma_no_death_in_spawning(sheep, pet, world, tile, seed_next);
    } else {
        lemma_deciding_is_silent(s, pet, world, tile, anim, x2, y2, seed);
    }
}

proof fn lemma_no_death_in_going_on<N: Number>(
    s: Sheep<N>,
    pet: Pet<N>,
    world: World<N>,
    tile: N,
    anim: Animation<N>,
    x2: N,
    y2: N,
    seed: u64,
)
    requires
        !s.is_child,
    ensures
        !s.going_on(pet, world, tile, anim, x2, y2, seed).events.contains(Event::Died),
{
    reveal(Sheep::going_on);
    lemma_no_death_in_resolving(s, pet, world, tile, anim, x2, y2, seed);
    let v = s.resolving(pet, world, tile, anim, x2, y2, seed);
    if let Some(id) = v.next {
        let entered = v.turn.sheep.entering(pet, world, tile, id, v.turn.seed);
        companions_take_after_their_parent(v.turn.sheep, pet, world, tile, id, v.turn.seed);
        let events = v.turn.events + entered.events;
        assert forall|k: int| 0 <= k < events.len() implies !(#[trigger] events[k] is Died) by {
            if k < v.turn.events.len() {
                assert(v.turn.events.contains(v.turn.events[k]));
            } else {
                assert(calls_on(
                    v.turn.sheep,
                    pet,
                    id,
                    entered.events[k - v.turn.events.len()],
                ));
            }
        }
    }
}

/// An ordinary sheep never dies of a step, as long as its pet has the
/// animation it is in.
pub proof fn ordinary_sheep_live_on<N: Number>(
    s: Sheep<N>,
    pet: Pet<N>,
    world: World<N>,
    tile: N,
    seed: u64,
)
    requires
        !s.is_child,
        pet.animation(s.animation) is Some,
    ensures
        !s.stepping(pet, world, tile, seed).0.events.contains(Event::Died),
{
    reveal(Sheep::walked);
    reveal(Sheep::flown);
    let anim = pet.animation(s.animation)->0;
    let posed = Sheep { frame: anim.spec_frame_at(s.step), prev: s.pose(), ..s };
    if s.dragging {
    } else if let Some((vx, vy)) = s.toss {
        lemma_no_death_in_going_on(posed.flown(vx, vy), pet, world, tile, anim, vx, vy, seed);
    } else {
        let ctx = s.ctx(&world, tile);
        let (walked, x2, y2, seed_walk) = posed.walked(anim, ctx, seed);
        lemma_no_death_in_going_on(walked, pet, world, tile, anim, x2, y2, seed_walk);
    }
}

// -- where a sheep is put --

/// A sheep that is put somewhere - started, spawned, walked in from out of
/// sight, or dragged - has no ground to glide across.
pub proof fn a_placed_sheep_does_not_glide<N: Number>(
    s: Sheep<N>,
    pet: Pet<N>,
    world: World<N>,
    tile: N,
    id: u32,
    x: N,
    y: N,
    seed: u64,
)
    ensures
        ({
            let begun = s.beginning(pet, world, tile, id, seed).sheep;
            begun.prev == begun.pose()
        }),
        pet.spawns@.len() > 0 ==> ({
            let spawned = s.spawning(pet, world, tile, seed).sheep;
            spawned.prev == spawned.pose()
        }),
        pet.named("walk"@) is Some ==> ({
            let wandered = s.wandering(pet, world, tile, seed).sheep;
            wandered.prev == wandered.pose()
        }),
        ({
            let dragged = s.dragged_to(x, y, tile);
            dragged.prev == dragged.pose()
        }),
{
    reveal(Sheep::spawning);
}

/// A dragged sheep has its middle where the mouse is, however it got there.
pub proof fn the_mouse_is_the_position<N: Number>(a: Sheep<N>, b: Sheep<N>, x: N, y: N, tile: N)
    ensures
        a.dragged_to(x, y, tile).x == b.dragged_to(x, y, tile).x,
        a.dragged_to(x, y, tile).y == b.dragged_to(x, y, tile).y,
{
}

/// Let go of gently, a sheep is dropped where it is: it is not thrown.
pub proof fn letting_go_gently_drops<N: Number>(
    s: Sheep<N>,
    pet: Pet<N>,
    world: World<N>,
    tile: N,
    vx: N,
    vy: N,
    seed: u64,
)
    requires
        !N::whole(crate::sheep::TOSS_MIN).at_most(vx.hypot(vy)),
    ensures
        ({
            let turn = s.released(pet, world, tile, vx, vy, seed);
            &&& !turn.sheep.dragging
            &&& turn.sheep.toss == s.toss
            &&& turn.sheep.pose() == s.pose()
            &&& turn.sheep.step == s.steps
            &&& turn.events == Seq::<Event<N>>::empty()
            &&& turn.seed == seed
        }),
{
}

/// Taking hold of a sheep ends its throw and takes it off what it stood on.
pub proof fn a_held_sheep_is_not_in_flight<N: Number>(
    s: Sheep<N>,
    pet: Pet<N>,
    world: World<N>,
    tile: N,
    seed: u64,
)
    ensures
        ({
            let held = s.grabbed(pet, world, tile, seed).sheep;
            held.dragging && held.toss is None && held.resting_on is None && held.pose()
                == s.pose()
        }),
{
    reveal(Sheep::entering);
}

// -- workspaces --

/// Having crossed onto another screen, a sheep is on show there.
pub proof fn a_sheep_that_crosses_is_shown<N: Number>(s: Sheep<N>, world: World<N>, tile: N)
    requires
        s.screen(&world, tile).id != s.on_screen,
    ensures
        s.following(world, tile).shown(&world, tile),
{
    reveal(Sheep::following);
}

/// A step ends with the sheep knowing the screen it is on.
pub proof fn a_step_ends_on_a_known_screen<N: Number>(
    s: Sheep<N>,
    pet: Pet<N>,
    world: World<N>,
    tile: N,
    seed: u64,
)
    ensures
        ({
            let after = s.stepping(pet, world, tile, seed).0.sheep;
            after.on_screen == after.screen(&world, tile).id
        }),
{
    reveal(Sheep::following);
}

/// A sheep that belongs to workspaces turns up on the one that is showing
/// where it arrives.
pub proof fn a_spawned_sheep_is_shown<N: Number>(
    s: Sheep<N>,
    pet: Pet<N>,
    world: World<N>,
    tile: N,
    seed: u64,
)
    requires
        s.workspaces,
        pet.spawns@.len() > 0,
    ensures
        s.spawning(pet, world, tile, seed).sheep.shown(&world, tile),
{
    reveal(Sheep::spawning);
    reveal(Sheep::entering);
}

/// A sheep that belongs to no workspace is always on show.
pub proof fn a_sheep_of_no_workspace_is_shown<N: Number>(s: Sheep<N>, world: World<N>, tile: N)
    requires
        s.workspace is None,
    ensures
        s.shown(&world, tile),
{
}

/// A sheep out of sight that gives up on its workspace joins the one its
/// screen is showing. It comes in at an edge of that screen, on the floor, and
/// is simply there. It is on show as long as that edge is still this screen's,
/// which in a world of one screen it always is.
pub proof fn a_sheep_that_wanders_on_comes_in_at_an_edge<N: Number>(
    s: Sheep<N>,
    pet: Pet<N>,
    world: World<N>,
    tile: N,
    seed: u64,
)
    requires
        pet.named("walk"@) is Some,
    ensures
        ({
            let screen = s.screen(&world, tile);
            let after = s.wandering(pet, world, tile, seed).sheep;
            &&& after.workspace == Some(screen.workspace)
            &&& after.x == screen.x || after.x == screen.right().minus(tile)
            &&& after.y == screen.floor().minus(tile)
            &&& after.prev == after.pose()
            &&& after.screen(&world, tile) == screen ==> after.shown(&world, tile)
            &&& world.screens@.len() == 1 ==> after.shown(&world, tile)
        }),
{
    reveal(Sheep::entering);
    let after = s.wandering(pet, world, tile, seed).sheep;
    if world.screens@.len() == 1 {
        let mid = (s.x.plus(half(tile)), s.y.plus(half(tile)));
        let there = (after.x.plus(half(tile)), after.y.plus(half(tile)));
        every_point_belongs_to_a_screen(world, mid.0, mid.1);
        every_point_belongs_to_a_screen(world, there.0, there.1);
        assert(world.screen_for(mid.0, mid.1) == Some(world.screens@[0]));
        assert(world.screen_for(there.0, there.1) == Some(world.screens@[0]));
    }
}

// -- meetings --

/// Is this the face of one of the rectangles, with none further back along
/// the way the walker came?
pub open spec fn is_stopping_face<N: Number>(
    rects: Seq<Rect<N>>,
    x: N,
    tile: N,
    reach: N,
    dir: N,
    id: u64,
    edge: N,
) -> bool {
    &&& exists|i: int|
        0 <= i < rects.len() && (#[trigger] rects[i]).id == id && face_at(
            &rects[i],
            x,
            tile,
            reach,
            dir,
        ) == Some(edge)
    &&& forall|i: int|
        0 <= i < rects.len() ==> match face_at(#[trigger] &rects[i], x, tile, reach, dir) {
            Some(other) => if dir.below(zero()) {
                other.rank() <= edge.rank()
            } else {
                edge.rank() <= other.rank()
            },
            None => true,
        }
}

proof fn lemma_stopping_face<N: Number>(
    rects: Seq<Rect<N>>,
    x: N,
    tile: N,
    reach: N,
    dir: N,
    i: int,
    best: Option<(u64, N)>,
)
    requires
        0 <= i <= rects.len(),
        match best {
            Some((id, edge)) => is_stopping_face(rects.take(i), x, tile, reach, dir, id, edge),
            None => forall|j: int|
                0 <= j < i ==> face_at(#[trigger] &rects[j], x, tile, reach, dir) is None,
        },
    ensures
        match face_from(rects, x, tile, reach, dir, i, best) {
            Some((id, edge)) => is_stopping_face(rects, x, tile, reach, dir, id, edge),
            None => forall|j: int|
                0 <= j < rects.len() ==> face_at(
                    #[trigger] &rects[j],
                    x,
                    tile,
                    reach,
                    dir,
                ) is None,
        },
    decreases rects.len() - i,
{
    if i < rects.len() {
        let next = match face_at(&rects[i], x, tile, reach, dir) {
            Some(edge) => match best {
                Some(b) => Some(further_back(b, (rects[i].id, edge), dir)),
                None => Some((rects[i].id, edge)),
            },
            None => best,
        };
        let shorter = rects.take(i);
        let longer = rects.take(i + 1);
        assert(longer[i] == rects[i]);
        assert forall|j: int| 0 <= j < i implies shorter[j] == longer[j] by {}
        if let Some((id, edge)) = next {
            if next == best {
                let k = choose|k: int|
                    0 <= k < shorter.len() && (#[trigger] shorter[k]).id == id && face_at(
                        &shorter[k],
                        x,
                        tile,
                        reach,
                        dir,
                    ) == Some(edge);
                assert(longer[k].id == id);
            } else {
                assert(longer[i].id == id);
            }
            assert forall|j: int| 0 <= j < longer.len() implies match face_at(
                #[trigger] &longer[j],
                x,
                tile,
                reach,
                dir,
            ) {
                Some(other) => if dir.below(zero()) {
                    other.rank() <= edge.rank()
                } else {
                    edge.rank() <= other.rank()
                },
                None => true,
            } by {
                if j < i {
                    assert(shorter[j] == longer[j]);
                    assert(rects[j] == longer[j]);
                }
            }
            assert(is_stopping_face(longer, x, tile, reach, dir, id, edge));
        }
        lemma_stopping_face(rects, x, tile, reach, dir, i + 1, next);
    } else {
        assert(rects.take(i) == rects);
    }
}

/// What stops a walker among several rectangles is the face of one of them,
/// the furthest back along the way it came; and there is one wherever any of
/// them has a face just crossed.
pub proof fn the_nearest_face_stops<N: Number>(
    rects: Seq<Rect<N>>,
    x: N,
    tile: N,
    reach: N,
    dir: N,
)
    requires
        dir.below(zero()) || zero::<N>().below(dir),
    ensures
        match stopping_face(rects, x, tile, reach, dir) {
            Some((id, edge)) => is_stopping_face(rects, x, tile, reach, dir, id, edge),
            None => forall|i: int|
                0 <= i < rects.len() ==> face_at(
                    #[trigger] &rects[i],
                    x,
                    tile,
                    reach,
                    dir,
                ) is None,
        },
{
    lemma_stopping_face(rects, x, tile, reach, dir, 0, None);
}

/// A sheep never walks into itself, nor into one it has decided to walk past,
/// nor, out of sight, into any.
pub proof fn a_sheep_meets_only_others<N: Number>(s: Sheep<N>, world: World<N>, tile: N, dir: N)
    ensures
        match s.spec_sheep_face(world, tile, dir) {
            Some((id, _)) => id != s.id && s.passing_sheep != Some(id) && s.shown(&world, tile),
            None => true,
        },
{
    broadcast use vstd::seq_lib::group_filter_ensures;

    let rects = world.flock@.filter(s.meets(tile));
    if let Some((id, edge)) = s.spec_sheep_face(world, tile, dir) {
        the_nearest_face_stops(rects, s.x, tile, side_reach(s.scale), dir);
        let i = choose|i: int|
            0 <= i < rects.len() && (#[trigger] rects[i]).id == id && face_at(
                &rects[i],
                s.x,
                tile,
                side_reach(s.scale),
                dir,
            ) == Some(edge);
        assert(s.meets(tile)(rects[i]));
    }
}

/// A window a sheep has decided to walk through has no sides, and with
/// climbing off no window has any.
pub proof fn a_passed_window_has_no_sides<N: Number>(
    s: Sheep<N>,
    world: World<N>,
    tile: N,
    dir: N,
)
    ensures
        match stopping_face(
            world.windows@.filter(s.solid(tile)),
            s.x,
            tile,
            side_reach(s.scale),
            dir,
        ) {
            Some((id, _)) => s.climb_windows && s.passing != Some(id),
            None => true,
        },
{
    broadcast use vstd::seq_lib::group_filter_ensures;

    let rects = world.windows@.filter(s.solid(tile));
    if let Some((id, edge)) = stopping_face(rects, s.x, tile, side_reach(s.scale), dir) {
        the_nearest_face_stops(rects, s.x, tile, side_reach(s.scale), dir);
        let i = choose|i: int|
            0 <= i < rects.len() && (#[trigger] rects[i]).id == id && face_at(
                &rects[i],
                s.x,
                tile,
                side_reach(s.scale),
                dir,
            ) == Some(edge);
        assert(s.solid(tile)(rects[i]));
    }
}

/// An animation that declares no border table is not asking to be stopped:
/// neither windows nor the pointer are in its way.
pub proof fn nothing_stops_an_animation_without_borders<N: Number>(
    s: Sheep<N>,
    world: World<N>,
    tile: N,
    anim: Animation<N>,
    x2: N,
    supported: bool,
    seed: u64,
)
    requires
        anim.border@.len() == 0,
    ensures
        s.at_face(world, tile, anim, x2, supported, seed) == (s, no_stop::<N>(), seed),
        s.at_pointer(world, tile, anim, x2, seed) == (s, no_stop::<N>(), seed),
{
    reveal(Sheep::at_face);
}

/// A sheep in flight meets nobody.
pub proof fn a_thrown_sheep_passes_through<N: Number>(
    s: Sheep<N>,
    world: World<N>,
    tile: N,
    anim: Animation<N>,
    x2: N,
    seed: u64,
)
    requires
        s.toss is Some,
    ensures
        s.at_company(world, tile, anim, x2, seed) == (s, no_stop::<N>(), seed),
{
    reveal(Sheep::at_company);
}

/// A throw is over the moment it hits something.
pub proof fn a_throw_ends_where_it_hits<N: Number>(
    s: Sheep<N>,
    pet: Pet<N>,
    world: World<N>,
    tile: N,
    anim: Animation<N>,
    x2: N,
    y2: N,
    floor: N,
    contact: Contact,
    met: Option<u32>,
    had_support: bool,
    supported_now: bool,
    seed: u64,
)
    requires
        contact.hit,
    ensures
        s.concluding(
            pet,
            world,
            tile,
            anim,
            x2,
            y2,
            floor,
            contact,
            met,
            had_support,
            supported_now,
            seed,
        ).turn.sheep.toss is None,
{
    reveal(Sheep::concluding);
    reveal(Sheep::falling);
    reveal(Sheep::noticing);
    reveal(Sheep::situated);
}

/// A resting pointer a sheep has been stopped by is not there for it any more
/// while it stays where it is.
pub proof fn a_pointer_looked_at_is_old_news<N: Number>(
    s: Sheep<N>,
    world: World<N>,
    tile: N,
    anim: Animation<N>,
    x2: N,
    seed: u64,
)
    requires
        (s.at_pointer(world, tile, anim, x2, seed).1).at is Some,
        world.pointer matches Some((px, py)) ==> px.same(px) && py.same(py),
    ensures
        s.at_pointer(world, tile, anim, x2, seed).0.pointer(&world) is None,
{
}

// -- edges --

/// Walking out over an edge with no screen behind it, a sheep is held at the
/// edge, whatever else it met.
pub proof fn an_outer_edge_holds_the_sheep<N: Number>(
    s: Sheep<N>,
    world: World<N>,
    tile: N,
    anim: Animation<N>,
    x2: N,
    y2: N,
    screen: Screen<N>,
    mid: (N, N),
    face: Option<N>,
    met: Option<N>,
)
    ensures
        ({
            let (after, contact) = s.at_edges(
                world,
                tile,
                anim,
                x2,
                y2,
                screen,
                mid,
                face,
                met,
            );
            &&& x2.below(zero()) && s.x.below(screen.x) && !world.continues(
                s.x.minus(one()),
                mid.1,
            ) ==> contact.hit && after.x == screen.x
            &&& !(x2.below(zero()) && s.x.below(screen.x)) && zero::<N>().below(x2)
                && screen.right().minus(tile).below(s.x) && !world.continues(
                s.x.plus(tile).plus(one()),
                mid.1,
            ) ==> contact.hit && after.x == screen.right().minus(tile)
        }),
{
    reveal(Sheep::at_edges);
}

/// Having lost what it stood on, a sheep in an animation that says nothing of
/// gravity and is not taking it down falls the pet's own fall.
pub proof fn losing_its_footing_makes_a_sheep_fall<N: Number>(
    s: Sheep<N>,
    pet: Pet<N>,
    world: World<N>,
    tile: N,
    anim: Animation<N>,
    x2: N,
    y2: N,
    floor: N,
    seed: u64,
)
    requires
        s.y.below(floor.minus(N::whole(2))),
        anim.gravity@.len() == 0,
        y2.at_most(zero()),
    ensures
        s.falling(pet, world, tile, anim, x2, y2, floor, true, false, seed).next
            == pet.spec_fall_animation(),
        s.falling(
            pet,
            world,
            tile,
            anim,
            x2,
            y2,
            floor,
            true,
            false,
            seed,
        ).turn.sheep.resting_on is None,
{
    reveal(Sheep::falling);
    reveal(Sheep::situated);
    reveal(chosen);
}

// -- drawing --

/// From the end of a step on a sheep is drawn exactly where it stepped to.
/// Before the start it is drawn as at the start.
pub proof fn drawing_keeps_to_the_step<N: Number>(s: Sheep<N>, t: N)
    ensures
        one::<N>().at_most(t) ==> s.pose_at(t) == s.pose(),
        !one::<N>().at_most(t) && t.below(zero()) ==> s.pose_at(t) == s.prev.lerp(
            s.pose(),
            zero(),
        ),
{
}

proof fn lemma_none_of_the_way(a: Fixed, b: Fixed)
    ensures
        between(a, b, zero::<Fixed>()) == a,
{
    assert(b.minus(a).raw * 0 == 0);
}

/// Up to the start of a step a sheep is drawn exactly where it set out from.
/// Stated of the decimal numbers.
pub proof fn a_step_is_drawn_from_where_it_began(s: Sheep<Fixed>, t: Fixed)
    requires
        t.at_most(zero()),
    ensures
        s.pose_at(t) == s.prev,
{
    assert(clamped(t, zero::<Fixed>(), one()) == zero::<Fixed>());
    lemma_none_of_the_way(s.prev.x, s.x);
    lemma_none_of_the_way(s.prev.y, s.y);
    lemma_none_of_the_way(s.prev.offset_y, s.offset_y);
    lemma_none_of_the_way(s.prev.opacity, s.opacity);
}

} // verus!
