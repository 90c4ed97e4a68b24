//! The pace of life: how fast a sheep lives shows in the wait between its
//! steps and nowhere else.

use vstd::prelude::*;

use crate::anim::{chosen, seed_after_choice, Animation, Pet};
use crate::dice::seed_after_pick;
use crate::expr::{seed_after, value_or, Ctx};
use crate::number::{zero, Number};
use crate::senses::stopping_face;
use crate::sheep::{calls_from, half, side_reach, Sheep, Turn};
use crate::step::{Contact, Verdict, TOSS_INTERVAL};
use crate::world::{Screen, World};

verus! {

/// The same sheep living at another pace.
pub open spec fn paced<N>(s: Sheep<N>, speed: N) -> Sheep<N> {
    Sheep { speed, ..s }
}

/// The same turn of a sheep living at another pace.
pub open spec fn paced_turn<N>(t: Turn<N>, speed: N) -> Turn<N> {
    Turn { sheep: paced(t.sheep, speed), ..t }
}

/// The same verdict on a sheep living at another pace.
pub open spec fn paced_verdict<N>(v: Verdict<N>, speed: N) -> Verdict<N> {
    Verdict { turn: paced_turn(v.turn, speed), ..v }
}

proof fn lemma_calls_at_any_pace<N: Number>(
    pet: Pet<N>,
    id: u32,
    s: Sheep<N>,
    v: N,
    ctx: Ctx<N>,
    screen: Screen<N>,
    i: int,
    seed: u64,
)
    requires
        0 <= i,
    ensures
        calls_from(pet.children@, id, paced(s, v), ctx, screen, i, seed) == calls_from(
            pet.children@,
            id,
            s,
            ctx,
            screen,
            i,
            seed,
        ),
    decreases pet.children@.len() - i,
{
    if i < pet.children@.len() {
        let c = pet.children@[i];
        let seed_x = seed_after(c.x@, ctx, seed);
        let seed_y = seed_after(c.y@, ctx, seed_x);
        lemma_calls_at_any_pace(pet, id, s, v, ctx, screen, i + 1, seed_y);
        lemma_calls_at_any_pace(pet, id, s, v, ctx, screen, i + 1, seed);
    }
}

proof fn lemma_entering_at_any_pace<N: Number>(
    s: Sheep<N>,
    v: N,
    pet: Pet<N>,
    world: World<N>,
    tile: N,
    id: u32,
    seed: u64,
)
    ensures
        paced(s, v).entering(pet, world, tile, id, seed) == paced_turn(
            s.entering(pet, world, tile, id, seed),
            v,
        ),
{
    reveal(Sheep::entering);
    let ctx = s.ctx(&world, tile);
    let strides = s.in_strides(&ctx);
    let (steps, seed_steps) = match pet.animation(id) {
        Some(a) => (a.spec_steps(strides, seed), a.seed_after_steps(strides, seed)),
        None => (1, seed),
    };
    let sheep = Sheep { animation: id, step: 0, steps, ..s };
    lemma_calls_at_any_pace(pet, id, sheep, v, ctx, s.screen(&world, tile), 0, seed_steps);
    assert(paced(sheep, v) == (Sheep { animation: id, step: 0, steps, ..paced(s, v) }));
}

proof fn lemma_spawning_at_any_pace<N: Number>(
    s: Sheep<N>,
    v: N,
    pet: Pet<N>,
    world: World<N>,
    tile: N,
    seed: u64,
)
    ensures
        paced(s, v).spawning(pet, world, tile, seed) == paced_turn(
            s.spawning(pet, world, tile, seed),
            v,
        ),
{
    reveal(Sheep::spawning);
    if let Some(spawn) = pet.spawn_point(seed) {
        let seed_point = pet.seed_after_spawn_point(seed);
        let screen = s.arrival(world, tile, seed_point);
        let seed_screen = if world.screens@.len() == 0 {
            seed_point
        } else {
            seed_after_pick(seed_point, world.screens@.len() as u64)
        };
        let p = paced(s, v);
        assert(p.arrival(world, tile, seed_point) == screen);
        let ctx = s.ctx_on(&screen, tile);
        assert(p.ctx_on(&screen, tile) == ctx);
        let seed_x = seed_after(spawn.x@, ctx, seed_screen);
        let placed = Sheep {
            x: screen.x.plus(value_or(spawn.x@, ctx, zero(), seed_screen)),
            y: screen.y.plus(value_or(spawn.y@, ctx, zero(), seed_x)),
            flipped: false,
            resting_on: None,
            ..s
        };
        let arrived = placed.screen(&world, tile);
        assert(paced(placed, v).screen(&world, tile) == arrived);
        let sheep = Sheep {
            on_screen: arrived.id,
            workspace: if s.workspaces {
                Some(arrived.workspace)
            } else {
                s.workspace
            },
            ..placed
        };
        lemma_entering_at_any_pace(
            sheep,
            v,
            pet,
            world,
            tile,
            spawn.next,
            seed_after(spawn.y@, ctx, seed_x),
        );
    }
}

proof fn lemma_situated_at_any_pace<N: Number>(
    s: Sheep<N>,
    v: N,
    world: World<N>,
    tile: N,
    on_window: bool,
)
    ensures
        paced(s, v).situated(world, tile, on_window) == paced(
            s.situated(world, tile, on_window),
            v,
        ),
{
    reveal(Sheep::situated);
    let p = paced(s, v);
    assert forall|i: int| 0 <= i < world.windows@.len() implies p.presses(
        #[trigger] &world.windows@[i],
        tile,
    ) == s.presses(&world.windows@[i], tile) by {}
    assert(p.on_window_side(&world, tile) == s.on_window_side(&world, tile));
}

#[verifier::rlimit(40)]
proof fn lemma_finishing_at_any_pace<N: Number>(
    s: Sheep<N>,
    v: N,
    pet: Pet<N>,
    world: World<N>,
    tile: N,
    anim: Animation<N>,
    supported: bool,
    seed: u64,
)
    ensures
        paced(s, v).finishing(pet, world, tile, anim, supported, seed) == paced_verdict(
            s.finishing(pet, world, tile, anim, supported, seed),
            v,
        ),
{
    reveal(Sheep::finishing);
    let p = paced(s, v);
    if s.toss is Some {
    } else {
        assert(p.toss is None && p.is_child == s.is_child);
        let turned = Sheep { flipped: s.flipped != (anim.action is Flip), ..s };
        assert(Sheep { flipped: p.flipped != (anim.action is Flip), ..p } == paced(turned, v));
        lemma_situated_at_any_pace(turned, v, world, tile, supported);
        let sheep = turned.situated(world, tile, supported);
        assert(paced(sheep, v).situation == sheep.situation);
        if chosen(anim.next@, sheep.situation, seed) is Some {
            assert(p.finishing(pet, world, tile, anim, supported, seed) == paced_verdict(
                s.finishing(pet, world, tile, anim, supported, seed),
                v,
            ));
        } else if s.is_child {
            assert(p.finishing(pet, world, tile, anim, supported, seed) == paced_verdict(
                s.finishing(pet, world, tile, anim, supported, seed),
                v,
            ));
        } else {
            let seed_next = seed_after_choice(anim.next@, sheep.situation, seed);
            lemma_spawning_at_any_pace(sheep, v, pet, world, tile, seed_next);
            assert(p.finishing(pet, world, tile, anim, supported, seed) == paced_verdict(
                s.finishing(pet, world, tile, anim, supported, seed),
                v,
            ));
        }
    }
}

proof fn lemma_obstructed_at_any_pace<N: Number>(
    s: Sheep<N>,
    v: N,
    world: World<N>,
    tile: N,
    anim: Animation<N>,
    x2: N,
    supported: bool,
    seed: u64,
)
    ensures
        ({
            let (sheep, face, met, seed_met) = s.obstructed(
                world,
                tile,
                anim,
                x2,
                supported,
                seed,
            );
            paced(s, v).obstructed(world, tile, anim, x2, supported, seed) == (
                paced(sheep, v),
                face,
                met,
                seed_met,
            )
        }),
{
    reveal(Sheep::obstructed);
    lemma_clear_at_any_pace(s, v, world, tile);
    let clear = s.clear_of_passed(world, tile);
    lemma_face_at_any_pace(clear, v, world, tile, anim, x2, supported, seed);
    let (sheep, face, seed_face) = clear.at_face(world, tile, anim, x2, supported, seed);
    lemma_company_at_any_pace(sheep, v, world, tile, anim, x2, seed_face);
}

proof fn lemma_clear_at_any_pace<N: Number>(s: Sheep<N>, v: N, world: World<N>, tile: N)
    ensures
        paced(s, v).clear_of_passed(world, tile) == paced(s.clear_of_passed(world, tile), v),
{
    reveal(Sheep::clear_of_passed);
    let p = paced(s, v);
    if let Some(id) = s.passing_sheep {
        assert forall|i: int| 0 <= i < world.flock@.len() implies p.touches(
            #[trigger] &world.flock@[i],
            id,
            tile,
        ) == s.touches(&world.flock@[i], id, tile) by {}
        assert(p.touching(&world, id, tile) == s.touching(&world, id, tile));
    }
}

proof fn lemma_face_at_any_pace<N: Number>(
    s: Sheep<N>,
    v: N,
    world: World<N>,
    tile: N,
    anim: Animation<N>,
    x2: N,
    supported: bool,
    seed: u64,
)
    ensures
        ({
            let (sheep, stop, after) = s.at_face(world, tile, anim, x2, supported, seed);
            paced(s, v).at_face(world, tile, anim, x2, supported, seed) == (
                paced(sheep, v),
                stop,
                after,
            )
        }),
{
    reveal(Sheep::at_face);
    assert(paced(s, v).solid(tile) =~= s.solid(tile));
    match stopping_face(
        world.windows@.filter(s.solid(tile)),
        s.x,
        tile,
        side_reach(s.scale),
        x2,
    ) {
        Some((id, edge)) => {
            lemma_situated_at_any_pace(Sheep { x: edge, ..s }, v, world, tile, supported);
        },
        None => {},
    }
}

proof fn lemma_company_at_any_pace<N: Number>(
    s: Sheep<N>,
    v: N,
    world: World<N>,
    tile: N,
    anim: Animation<N>,
    x2: N,
    seed: u64,
)
    ensures
        ({
            let (sheep, stop, after) = s.at_company(world, tile, anim, x2, seed);
            paced(s, v).at_company(world, tile, anim, x2, seed) == (paced(sheep, v), stop, after)
        }),
{
    reveal(Sheep::at_company);
    assert(paced(s, v).meets(tile) =~= s.meets(tile));
}

proof fn lemma_edges_at_any_pace<N: Number>(
    s: Sheep<N>,
    v: N,
    world: World<N>,
    tile: N,
    anim: Animation<N>,
    x2: N,
    y2: N,
    screen: Screen<N>,
    mid: (N, N),
    face: Option<N>,
    met: Option<N>,
)
    ensures
        ({
            let (sheep, contact) = s.at_edges(
                world,
                tile,
                anim,
                x2,
                y2,
                screen,
                mid,
                face,
                met,
            );
            paced(s, v).at_edges(world, tile, anim, x2, y2, screen, mid, face, met) == (
                paced(sheep, v),
                contact,
            )
        }),
{
    reveal(Sheep::at_edges);
    assert(paced(s, v).under(tile, false) =~= s.under(tile, false));
    assert(paced(s, v).crests(tile) =~= s.crests(tile));
    assert(paced(s, v).surfaces(tile) =~= s.surfaces(tile));
}

proof fn lemma_noticing_at_any_pace<N: Number>(
    s: Sheep<N>,
    v: N,
    world: World<N>,
    tile: N,
    anim: Animation<N>,
    x2: N,
    y2: N,
    seed: u64,
)
    ensures
        paced(s, v).noticing(world, tile, anim, x2, y2, seed) == paced_verdict(
            s.noticing(world, tile, anim, x2, y2, seed),
            v,
        ),
{
    reveal(Sheep::noticing);
}

proof fn lemma_walked_at_any_pace<N: Number>(
    s: Sheep<N>,
    v: N,
    anim: Animation<N>,
    ctx: Ctx<N>,
    seed: u64,
)
    ensures
        ({
            let (sheep, x2, y2, after) = s.walked(anim, ctx, seed);
            paced(s, v).walked(anim, ctx, seed) == (paced(sheep, v), x2, y2, after)
        }),
{
    reveal(Sheep::walked);
}

proof fn lemma_falling_at_any_pace<N: Number>(
    s: Sheep<N>,
    v: N,
    pet: Pet<N>,
    world: World<N>,
    tile: N,
    anim: Animation<N>,
    x2: N,
    y2: N,
    floor: N,
    had_support: bool,
    supported: bool,
    seed: u64,
)
    ensures
        paced(s, v).falling(
            pet,
            world,
            tile,
            anim,
            x2,
            y2,
            floor,
            had_support,
            supported,
            seed,
        ) == paced_verdict(
            s.falling(
                pet,
                world,
                tile,
                anim,
                x2,
                y2,
                floor,
                had_support,
                supported,
                seed,
            ),
            v,
        ),
{
    reveal(Sheep::falling);
    let loose = Sheep { resting_on: None, ..s };
    lemma_situated_at_any_pace(loose, v, world, tile, false);
    let sheep = loose.situated(world, tile, false);
    lemma_noticing_at_any_pace(s, v, world, tile, anim, x2, y2, seed);
    lemma_noticing_at_any_pace(loose, v, world, tile, anim, x2, y2, seed);
    lemma_noticing_at_any_pace(sheep, v, world, tile, anim, x2, y2, seed);
}

#[verifier::rlimit(40)]
proof fn lemma_concluding_at_any_pace<N: Number>(
    s: Sheep<N>,
    v: N,
    pet: Pet<N>,
    world: World<N>,
    tile: N,
    anim: Animation<N>,
    x2: N,
    y2: N,
    floor: N,
    contact: Contact,
    met: Option<u32>,
    had_support: bool,
    supported_now: bool,
    seed: u64,
)
    ensures
        paced(s, v).concluding(
            pet,
            world,
            tile,
            anim,
            x2,
            y2,
            floor,
            contact,
            met,
            had_support,
            supported_now,
            seed,
        ) == paced_verdict(
            s.concluding(
                pet,
                world,
                tile,
                anim,
                x2,
                y2,
                floor,
                contact,
                met,
                had_support,
                supported_now,
                seed,
            ),
            v,
        ),
{
    reveal(Sheep::concluding);
    let p = paced(s, v);
    let verdict = s.concluding(
        pet,
        world,
        tile,
        anim,
        x2,
        y2,
        floor,
        contact,
        met,
        had_support,
        supported_now,
        seed,
    );
    let other = p.concluding(
        pet,
        world,
        tile,
        anim,
        x2,
        y2,
        floor,
        contact,
        met,
        had_support,
        supported_now,
        seed,
    );
    let supported = contact.nudged || supported_now;
    if contact.hit {
        let still = Sheep { toss: None, ..s };
        let sheep = still.situated(world, tile, supported);
        lemma_situated_at_any_pace(still, v, world, tile, supported);
        assert(Sheep { toss: None, ..p } == paced(still, v));
        assert(paced(sheep, v).situation == sheep.situation);
        let forced = if contact.arrived {
            pet.spec_landing_animation()
        } else {
            met
        };
        if forced is Some {
            assert(other == paced_verdict(verdict, v));
        } else if chosen(anim.border@, sheep.situation, seed) is Some {
            assert(other == paced_verdict(verdict, v));
        } else {
            lemma_falling_at_any_pace(
                sheep,
                v,
                pet,
                world,
                tile,
                anim,
                x2,
                y2,
                floor,
                had_support,
                supported,
                seed,
            );
            assert(other == paced_verdict(verdict, v));
        }
    } else {
        lemma_falling_at_any_pace(
            s,
            v,
            pet,
            world,
            tile,
            anim,
            x2,
            y2,
            floor,
            had_support,
            supported,
            seed,
        );
    }
}

proof fn lemma_resolving_at_any_pace<N: Number>(
    s: Sheep<N>,
    v: N,
    pet: Pet<N>,
    world: World<N>,
    tile: N,
    anim: Animation<N>,
    x2: N,
    y2: N,
    seed: u64,
)
    ensures
        paced(s, v).resolving(pet, world, tile, anim, x2, y2, seed) == paced_verdict(
            s.resolving(pet, world, tile, anim, x2, y2, seed),
            v,
        ),
{
    reveal(Sheep::resolving);
    let supported_now = s.standing_on(&world, tile) is Some;
    if s.step >= s.steps {
        lemma_finishing_at_any_pace(s, v, pet, world, tile, anim, supported_now, seed);
    } else {
        let screen = s.screen(&world, tile);
        let mid = (s.x.plus(half(tile)), s.y.plus(half(tile)));
        lemma_obstructed_at_any_pace(s, v, world, tile, anim, x2, supported_now, seed);
        let (sheep, face, met, seed_met) = s.obstructed(
            world,
            tile,
            anim,
            x2,
            supported_now,
            seed,
        );
        lemma_edges_at_any_pace(
            sheep,
            v,
            world,
            tile,
            anim,
            x2,
            y2,
            screen,
            mid,
            face.at,
            met.at,
        );
        let (touched, contact) = sheep.at_edges(
            world,
            tile,
            anim,
            x2,
            y2,
            screen,
            mid,
            face.at,
            met.at,
        );
        lemma_concluding_at_any_pace(
            touched,
            v,
            pet,
            world,
            tile,
            anim,
            x2,
            y2,
            screen.floor().minus(tile),
            contact,
            if face.next is Some {
                face.next
            } else {
                met.next
            },
            s.resting_on is Some,
            supported_now,
            seed_met,
        );
    }
}

proof fn lemma_going_on_at_any_pace<N: Number>(
    s: Sheep<N>,
    v: N,
    pet: Pet<N>,
    world: World<N>,
    tile: N,
    anim: Animation<N>,
    x2: N,
    y2: N,
    seed: u64,
)
    ensures
        paced(s, v).going_on(pet, world, tile, anim, x2, y2, seed) == paced_turn(
            s.going_on(pet, world, tile, anim, x2, y2, seed),
            v,
        ),
{
    reveal(Sheep::going_on);
    lemma_resolving_at_any_pace(s, v, pet, world, tile, anim, x2, y2, seed);
    let verdict = s.resolving(pet, world, tile, anim, x2, y2, seed);
    if let Some(id) = verdict.next {
        lemma_entering_at_any_pace(
            verdict.turn.sheep,
            v,
            pet,
            world,
            tile,
            id,
            verdict.turn.seed,
        );
    }
}

proof fn lemma_taking_step_at_any_pace<N: Number>(
    s: Sheep<N>,
    v: N,
    pet: Pet<N>,
    world: World<N>,
    tile: N,
    seed: u64,
)
    ensures
        paced(s, v).taking_step(pet, world, tile, seed).0 == paced_turn(
            s.taking_step(pet, world, tile, seed).0,
            v,
        ),
{
    let p = paced(s, v);
    if let Some(anim) = pet.animation(s.animation) {
        let posed = Sheep { frame: anim.spec_frame_at(s.step), prev: s.pose(), ..s };
        assert(Sheep { frame: anim.spec_frame_at(p.step), prev: p.pose(), ..p } == paced(posed, v));
        if s.dragging {
        } else if let Some((vx, vy)) = s.toss {
            let flown = posed.flown(vx, vy);
            assert(paced(posed, v).flown(vx, vy) == paced(flown, v)) by {
                reveal(Sheep::flown);
            }
            lemma_going_on_at_any_pace(flown, v, pet, world, tile, anim, vx, vy, seed);
        } else {
            let ctx = s.ctx(&world, tile);
            assert(p.ctx(&world, tile) == ctx);
            lemma_walked_at_any_pace(posed, v, anim, ctx, seed);
            let (walked, x2, y2, seed_walk) = posed.walked(anim, ctx, seed);
            lemma_going_on_at_any_pace(
                walked,
                v,
                pet,
                world,
                tile,
                anim,
                x2,
                y2,
                seed_walk,
            );
        }
    }
}

proof fn lemma_following_at_any_pace<N: Number>(s: Sheep<N>, v: N, world: World<N>, tile: N)
    ensures
        paced(s, v).following(world, tile) == paced(s.following(world, tile), v),
{
    reveal(Sheep::following);
}

/// How fast a sheep lives shows in the wait between steps and nowhere else:
/// what it does in a step is the same at any pace.
#[verifier::spinoff_prover]
pub proof fn pace_touches_only_the_wait<N: Number>(
    s: Sheep<N>,
    speed: N,
    pet: Pet<N>,
    world: World<N>,
    tile: N,
    seed: u64,
)
    ensures
        paced(s, speed).stepping(pet, world, tile, seed).0 == paced_turn(
            s.stepping(pet, world, tile, seed).0,
            speed,
        ),
{
    let p = paced(s, speed);
    let turn = s.taking_step(pet, world, tile, seed).0;
    assert(p.taking_step(pet, world, tile, seed).0 == paced_turn(turn, speed)) by {
        lemma_taking_step_at_any_pace(s, speed, pet, world, tile, seed);
    }
    lemma_following_at_any_pace(turn.sheep, speed, world, tile);
}

/// A throw keeps its own time: however fast the sheep lives, a thrown one is
/// moved along its arc at one rate.
pub proof fn a_throw_keeps_its_own_time<N: Number>(
    s: Sheep<N>,
    pet: Pet<N>,
    world: World<N>,
    tile: N,
    seed: u64,
)
    requires
        s.toss is Some,
        !s.dragging,
        pet.animation(s.animation) is Some,
    ensures
        s.stepping(pet, world, tile, seed).1 == TOSS_INTERVAL,
{
}

} // verus!
