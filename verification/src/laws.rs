//! What holds of every sheep, whatever its pet file says.

use vstd::prelude::*;

use crate::anim::{
    a_choice_keeps_to_the_filter, a_spawn_point_is_the_pets, chosen, falls_from, found,
    found_by_name, is_favourite, seed_after_choice, targets, there_is_a_favourite, Animation, Next,
    Pet, Situation,
};
use crate::fixed::{Fixed, UNIT};
use crate::number::{one, zero, Number};
use crate::sheep::{half, Event, Sheep};
use crate::step::{plain, target_of, Contact, DRAG_INTERVAL, LEAST_WAIT};
use crate::world::{Screen, World};

verus! {

// -- what a step leaves alone --

/// Are the two the same sheep, of the same make and in the same hands?
pub open spec fn same_sheep<N>(a: Sheep<N>, b: Sheep<N>) -> bool {
    &&& a.id == b.id
    &&& a.is_child == b.is_child
    &&& a.dragging == b.dragging
    &&& a.scale == b.scale
    &&& a.speed == b.speed
    &&& a.climb_windows == b.climb_windows
    &&& a.workspaces == b.workspaces
    &&& a.rand_s == b.rand_s
}

/// Are the two the same sheep, and as solid as one another? Deciding what
/// comes next leaves both alone.
spec fn kept<N>(a: Sheep<N>, b: Sheep<N>) -> bool {
    same_sheep(a, b) && a.opacity == b.opacity
}

proof fn lemma_finishing_keeps<N: Number>(
    s: Sheep<N>,
    pet: Pet<N>,
    world: World<N>,
    tile: N,
    anim: Animation<N>,
    supported: bool,
    seed: u64,
)
    ensures
        kept(s.finishing(pet, world, tile, anim, supported, seed).turn.sheep, s),
{
    reveal(Sheep::finishing);
    reveal(Sheep::situated);
    reveal(Sheep::spawning);
    reveal(Sheep::entering);
}

proof fn lemma_obstructed_keeps<N: Number>(
    s: Sheep<N>,
    world: World<N>,
    tile: N,
    anim: Animation<N>,
    x2: N,
    supported: bool,
    seed: u64,
)
    ensures
        kept(s.obstructed(world, tile, anim, x2, supported, seed).0, s),
        s.obstructed(world, tile, anim, x2, supported, seed).0.animation == s.animation,
{
    reveal(Sheep::obstructed);
    reveal(Sheep::clear_of_passed);
    reveal(Sheep::at_face);
    reveal(Sheep::at_company);
    reveal(Sheep::situated);
}

proof fn lemma_edges_keep<N: Number>(
    s: Sheep<N>,
    world: World<N>,
    tile: N,
    anim: Animation<N>,
    x2: N,
    y2: N,
    screen: Screen<N>,
    mid: (N, N),
    face: Option<N>,
    met: Option<N>,
)
    ensures
        kept(s.at_edges(world, tile, anim, x2, y2, screen, mid, face, met).0, s),
        s.at_edges(world, tile, anim, x2, y2, screen, mid, face, met).0.animation == s.animation,
{
    reveal(Sheep::at_edges);
}

proof fn lemma_falling_keeps<N: Number>(
    s: Sheep<N>,
    pet: Pet<N>,
    world: World<N>,
    tile: N,
    anim: Animation<N>,
    x2: N,
    y2: N,
    floor: N,
    had_support: bool,
    supported: bool,
    seed: u64,
)
    ensures
        ({
            let v = s.falling(
                pet,
                world,
                tile,
                anim,
                x2,
                y2,
                floor,
                had_support,
                supported,
                seed,
            );
            &&& kept(v.turn.sheep, s)
            &&& v.turn.sheep.animation == s.animation
            &&& v.turn.events == Seq::<Event<N>>::empty()
        }),
{
    reveal(Sheep::falling);
    reveal(Sheep::noticing);
    reveal(Sheep::situated);
}

proof fn lemma_concluding_keeps<N: Number>(
    s: Sheep<N>,
    pet: Pet<N>,
    world: World<N>,
    tile: N,
    anim: Animation<N>,
    x2: N,
    y2: N,
    floor: N,
    contact: Contact,
    met: Option<u32>,
    had_support: bool,
    supported_now: bool,
    seed: u64,
)
    ensures
        ({
            let v = s.concluding(
                pet,
                world,
                tile,
                anim,
                x2,
                y2,
                floor,
                contact,
                met,
                had_support,
                supported_now,
                seed,
            );
            &&& kept(v.turn.sheep, s)
            &&& v.turn.sheep.animation == s.animation
            &&& v.turn.events == Seq::<Event<N>>::empty()
        }),
{
    reveal(Sheep::concluding);
    reveal(Sheep::situated);
    let supported = contact.nudged || supported_now;
    let sheep = if contact.hit {
        Sheep { toss: None, ..s }.situated(world, tile, supported)
    } else {
        s
    };
    lemma_falling_keeps(
        sheep,
        pet,
        world,
        tile,
        anim,
        x2,
        y2,
        floor,
        had_support,
        supported,
        seed,
    );
}

proof fn lemma_resolving_keeps<N: Number>(
    s: Sheep<N>,
    pet: Pet<N>,
    world: World<N>,
    tile: N,
    anim: Animation<N>,
    x2: N,
    y2: N,
    seed: u64,
)
    ensures
        kept(s.resolving(pet, world, tile, anim, x2, y2, seed).turn.sheep, s),
{
    reveal(Sheep::resolving);
    let supported_now = s.standing_on(&world, tile) is Some;
    if s.step >= s.steps {
        lemma_finishing_keeps(s, pet, world, tile, anim, supported_now, seed);
    } else {
        let screen = s.screen(&world, tile);
        let mid = (s.x.plus(half(tile)), s.y.plus(half(tile)));
        lemma_obstructed_keeps(s, world, tile, anim, x2, supported_now, seed);
        let (sheep, face, met, seed_met) = s.obstructed(
            world,
            tile,
            anim,
            x2,
            supported_now,
            seed,
        );
        lemma_edges_keep(sheep, world, tile, anim, x2, y2, screen, mid, face.at, met.at);
        let (touched, contact) = sheep.at_edges(
            world,
            tile,
            anim,
            x2,
            y2,
            screen,
            mid,
            face.at,
            met.at,
        );
        lemma_concluding_keeps(
            touched,
            pet,
            world,
            tile,
            anim,
            x2,
            y2,
            screen.floor().minus(tile),
            contact,
            if face.next is Some {
                face.next
            } else {
                met.next
            },
            s.resting_on is Some,
            supported_now,
            seed_met,
        );
    }
}

/// A step changes where a sheep is and what it does, never which sheep it is,
/// how it is made, or who is holding it.
pub proof fn a_step_keeps_the_sheep<N: Number>(
    s: Sheep<N>,
    pet: Pet<N>,
    world: World<N>,
    tile: N,
    seed: u64,
)
    ensures
        same_sheep(s.stepping(pet, world, tile, seed).0.sheep, s),
{
    reveal(Sheep::going_on);
    reveal(Sheep::walked);
    reveal(Sheep::flown);
    reveal(Sheep::entering);
    reveal(Sheep::following);
    if let Some(anim) = pet.animation(s.animation) {
        let posed = Sheep { frame: anim.spec_frame_at(s.step), prev: s.pose(), ..s };
        if s.dragging {
        } else if let Some((vx, vy)) = s.toss {
            lemma_resolving_keeps(posed.flown(vx, vy), pet, world, tile, anim, vx, vy, seed);
        } else {
            let ctx = s.ctx(&world, tile);
            let (walked, x2, y2, seed_walk) = posed.walked(anim, ctx, seed);
            lemma_resolving_keeps(walked, pet, world, tile, anim, x2, y2, seed_walk);
        }
    }
}

/// While it is held a sheep does not move, turn, change animation or call
/// anyone on; only the sprite keeps moving.
pub proof fn a_held_sheep_stays_put<N: Number>(
    s: Sheep<N>,
    pet: Pet<N>,
    world: World<N>,
    tile: N,
    seed: u64,
)
    requires
        s.dragging,
        pet.animation(s.animation) is Some,
    ensures
        ({
            let (turn, wait) = s.stepping(pet, world, tile, seed);
            &&& turn.sheep.pose() == s.pose()
            &&& turn.sheep.prev == s.pose()
            &&& turn.sheep.flipped == s.flipped
            &&& turn.sheep.animation == s.animation
            &&& turn.events == Seq::<Event<N>>::empty()
            &&& turn.seed == seed
            &&& wait == s.wait(N::whole(DRAG_INTERVAL as i64))
        }),
{
    reveal(Sheep::following);
}

/// However fast a sheep lives, a step is held for ten milliseconds at least.
pub proof fn no_step_is_too_short<N: Number>(
    s: Sheep<N>,
    pet: Pet<N>,
    world: World<N>,
    tile: N,
    seed: u64,
)
    ensures
        s.stepping(pet, world, tile, seed).1 >= LEAST_WAIT,
{
}

/// Is the sheep neither clearer than clear nor more solid than solid?
pub open spec fn opacity_in_range<N: Number>(s: Sheep<N>) -> bool {
    !s.opacity.below(zero()) && !one::<N>().below(s.opacity)
}

/// Whatever its pet file says, a step leaves a sheep's opacity between clear
/// and solid, in numbers that put clear and solid themselves there.
pub proof fn a_step_keeps_opacity_in_range<N: Number>(
    s: Sheep<N>,
    pet: Pet<N>,
    world: World<N>,
    tile: N,
    seed: u64,
)
    requires
        opacity_in_range(s),
        !zero::<N>().below(zero()),
        !one::<N>().below(one()),
        !one::<N>().below(zero()),
    ensures
        opacity_in_range(s.stepping(pet, world, tile, seed).0.sheep),
{
    reveal(Sheep::going_on);
    reveal(Sheep::entering);
    reveal(Sheep::following);
    if let Some(anim) = pet.animation(s.animation) {
        let posed = Sheep { frame: anim.spec_frame_at(s.step), prev: s.pose(), ..s };
        if s.dragging {
        } else if let Some((vx, vy)) = s.toss {
            let flown = posed.flown(vx, vy);
            assert(opacity_in_range(flown)) by {
                reveal(Sheep::flown);
            }
            lemma_resolving_keeps(flown, pet, world, tile, anim, vx, vy, seed);
        } else {
            let ctx = s.ctx(&world, tile);
            let (walked, x2, y2, seed_walk) = posed.walked(anim, ctx, seed);
            assert(opacity_in_range(walked)) by {
                reveal(Sheep::walked);
            }
            lemma_resolving_keeps(walked, pet, world, tile, anim, x2, y2, seed_walk);
        }
    }
}

/// In the decimal numbers opacity stays between zero and one, with nothing
/// asked of them.
pub proof fn a_step_keeps_decimal_opacity_in_range(
    s: Sheep<Fixed>,
    pet: Pet<Fixed>,
    world: World<Fixed>,
    tile: Fixed,
    seed: u64,
)
    requires
        0 <= s.opacity.raw <= UNIT,
    ensures
        0 <= s.stepping(pet, world, tile, seed).0.sheep.opacity.raw <= UNIT,
{
    a_step_keeps_opacity_in_range(s, pet, world, tile, seed);
}

/// Short of the end of the sequence, deciding what comes next is heard of by
/// nobody.
pub proof fn lemma_deciding_is_silent<N: Number>(
    s: Sheep<N>,
    pet: Pet<N>,
    world: World<N>,
    tile: N,
    anim: Animation<N>,
    x2: N,
    y2: N,
    seed: u64,
)
    requires
        s.step < s.steps,
    ensures
        s.resolving(pet, world, tile, anim, x2, y2, seed).turn.events == Seq::<Event<N>>::empty(),
{
    reveal(Sheep::resolving);
    let supported_now = s.standing_on(&world, tile) is Some;
    let screen = s.screen(&world, tile);
    let mid = (s.x.plus(half(tile)), s.y.plus(half(tile)));
    let (sheep, face, met, seed_met) = s.obstructed(world, tile, anim, x2, supported_now, seed);
    let (touched, contact) = sheep.at_edges(
        world,
        tile,
        anim,
        x2,
        y2,
        screen,
        mid,
        face.at,
        met.at,
    );
    lemma_concluding_keeps(
        touched,
        pet,
        world,
        tile,
        anim,
        x2,
        y2,
        screen.floor().minus(tile),
        contact,
        if face.next is Some {
            face.next
        } else {
            met.next
        },
        s.resting_on is Some,
        supported_now,
        seed_met,
    );
}

// -- keeping to the pet --

/// Do all these transitions lead to animations the pet has?
pub open spec fn leads_home<N: Number>(pet: Pet<N>, list: Seq<Next<N>>) -> bool {
    forall|i: int| 0 <= i < list.len() ==> pet.animation((#[trigger] list[i]).target) is Some
}

/// Does everything in the pet lead to an animation that it has?
pub open spec fn is_whole<N: Number>(pet: Pet<N>) -> bool {
    &&& forall|i: int|
        0 <= i < pet.animations@.len() ==> {
            let a = #[trigger] pet.animations@[i];
            leads_home(pet, a.next@) && leads_home(pet, a.border@) && leads_home(pet, a.gravity@)
        }
    &&& forall|i: int|
        0 <= i < pet.spawns@.len() ==> pet.animation((#[trigger] pet.spawns@[i]).next) is Some
}

/// Is this an animation of the pet, if it is any?
pub open spec fn is_known<N: Number>(pet: Pet<N>, next: Option<u32>) -> bool {
    match next {
        Some(id) => pet.animation(id) is Some,
        None => true,
    }
}

proof fn lemma_found<N>(animations: Seq<Animation<N>>, id: u32, i: int)
    requires
        0 <= i,
    ensures
        match found(animations, id, i) {
            Some(a) => animations.contains(a) && a.id == id,
            None => forall|j: int| i <= j < animations.len() ==> (#[trigger] animations[j]).id != id,
        },
    decreases animations.len() - i,
{
    if i < animations.len() {
        lemma_found(animations, id, i + 1);
    }
}

proof fn lemma_found_by_name<N>(animations: Seq<Animation<N>>, name: Seq<char>, i: int)
    requires
        0 <= i,
    ensures
        match found_by_name(animations, name, i) {
            Some(a) => animations.contains(a),
            None => true,
        },
    decreases animations.len() - i,
{
    if i < animations.len() {
        lemma_found_by_name(animations, name, i + 1);
    }
}

/// An animation of the pet is found by its id.
proof fn lemma_own_id<N: Number>(pet: Pet<N>, a: Animation<N>)
    requires
        pet.animations@.contains(a),
    ensures
        pet.animation(a.id) is Some,
{
    lemma_found(pet.animations@, a.id, 0);
}

proof fn lemma_choice_is_known<N: Number>(
    pet: Pet<N>,
    list: Seq<Next<N>>,
    situation: Situation,
    seed: u64,
)
    requires
        leads_home(pet, list),
    ensures
        is_known(pet, target_of(chosen(list, situation, seed))),
{
    a_choice_keeps_to_the_filter(list, situation, seed);
    if list.len() > 0 {
        let n = chosen(list, situation, seed)->0;
        let i = choose|i: int| 0 <= i < list.len() && list[i] == n;
        assert(pet.animation(list[i].target) is Some);
    }
}

proof fn lemma_falls_are_targets<N: Number>(pet: Pet<N>, i: int)
    requires
        is_whole(pet),
        0 <= i,
    ensures
        forall|j: int|
            0 <= j < falls_from(pet.animations@, i).len() ==> pet.animation(
                #[trigger] falls_from(pet.animations@, i)[j],
            ) is Some,
    decreases pet.animations@.len() - i,
{
    if i < pet.animations@.len() {
        lemma_falls_are_targets(pet, i + 1);
        let gravity = pet.animations@[i].gravity@;
        let here = targets(gravity);
        let rest = falls_from(pet.animations@, i + 1);
        assert(leads_home(pet, gravity));
        assert forall|j: int|
            0 <= j < falls_from(pet.animations@, i).len() implies pet.animation(
            #[trigger] falls_from(pet.animations@, i)[j],
        ) is Some by {
            if j < here.len() {
                assert(pet.animation(gravity[j].target) is Some);
            } else {
                assert(falls_from(pet.animations@, i)[j] == rest[j - here.len()]);
            }
        }
    }
}

proof fn lemma_fall_is_known<N: Number>(pet: Pet<N>)
    requires
        is_whole(pet),
    ensures
        is_known(pet, pet.spec_fall_animation()),
{
    reveal(Pet::spec_fall_animation);
    let falls = falls_from(pet.animations@, 0);
    if falls.len() > 0 {
        there_is_a_favourite(falls);
        lemma_falls_are_targets(pet, 0);
        let t = choose|t: u32| is_favourite(falls, t);
        let j = choose|j: int| 0 <= j < falls.len() && falls[j] == t;
        assert(pet.animation(falls[j]) is Some);
    } else {
        lemma_found_by_name(pet.animations@, "fall"@, 0);
        if let Some(a) = pet.named("fall"@) {
            lemma_own_id(pet, a);
        }
    }
}

proof fn lemma_landing_is_known<N: Number>(pet: Pet<N>)
    requires
        is_whole(pet),
    ensures
        is_known(pet, pet.spec_landing_animation()),
{
    lemma_found_by_name(pet.animations@, "vertical_walk_down"@, 0);
    if let Some(a) = pet.named("vertical_walk_down"@) {
        if a.border@.len() > 0 {
            let i = choose|i: int| 0 <= i < pet.animations@.len() && pet.animations@[i] == a;
            assert(leads_home(pet, pet.animations@[i].border@));
            assert(pet.animation(a.border@[0].target) is Some);
        }
    }
}

proof fn lemma_spawning_is_known<N: Number>(
    s: Sheep<N>,
    pet: Pet<N>,
    world: World<N>,
    tile: N,
    seed: u64,
)
    requires
        is_whole(pet),
        pet.animation(s.animation) is Some,
    ensures
        pet.animation(s.spawning(pet, world, tile, seed).sheep.animation) is Some,
{
    reveal(Sheep::spawning);
    reveal(Sheep::entering);
    a_spawn_point_is_the_pets(pet, seed);
    if let Some(spawn) = pet.spawn_point(seed) {
        let i = choose|i: int| 0 <= i < pet.spawns@.len() && pet.spawns@[i] == spawn;
        assert(pet.animation(pet.spawns@[i].next) is Some);
    }
}

proof fn lemma_finishing_is_known<N: Number>(
    s: Sheep<N>,
    pet: Pet<N>,
    world: World<N>,
    tile: N,
    anim: Animation<N>,
    supported: bool,
    seed: u64,
)
    requires
        is_whole(pet),
        pet.animation(s.animation) is Some,
        leads_home(pet, anim.next@),
    ensures
        ({
            let v = s.finishing(pet, world, tile, anim, supported, seed);
            is_known(pet, v.next) && pet.animation(v.turn.sheep.animation) is Some
        }),
{
    reveal(Sheep::finishing);
    reveal(Sheep::situated);
    let turned = Sheep { flipped: s.flipped != (anim.action is Flip), ..s };
    let sheep = turned.situated(world, tile, supported);
    lemma_choice_is_known(pet, anim.next@, sheep.situation, seed);
    let seed_next = seed_after_choice(anim.next@, sheep.situation, seed);
    lemma_spawning_is_known(sheep, pet, world, tile, seed_next);
}

proof fn lemma_obstructed_is_known<N: Number>(
    s: Sheep<N>,
    pet: Pet<N>,
    world: World<N>,
    tile: N,
    anim: Animation<N>,
    x2: N,
    supported: bool,
    seed: u64,
)
    requires
        leads_home(pet, anim.border@),
    ensures
        is_known(pet, s.obstructed(world, tile, anim, x2, supported, seed).1.next),
        is_known(pet, s.obstructed(world, tile, anim, x2, supported, seed).2.next),
{
    reveal(Sheep::obstructed);
    reveal(Sheep::clear_of_passed);
    reveal(Sheep::at_face);
    reveal(Sheep::at_company);
    assert forall|situation: Situation, seed: u64|
        is_known(pet, target_of(#[trigger] chosen(anim.border@, situation, seed))) by {
        lemma_choice_is_known(pet, anim.border@, situation, seed);
    }
}

proof fn lemma_falling_is_known<N: Number>(
    s: Sheep<N>,
    pet: Pet<N>,
    world: World<N>,
    tile: N,
    anim: Animation<N>,
    x2: N,
    y2: N,
    floor: N,
    had_support: bool,
    supported: bool,
    seed: u64,
)
    requires
        is_whole(pet),
        leads_home(pet, anim.border@),
        leads_home(pet, anim.gravity@),
    ensures
        is_known(
            pet,
            s.falling(pet, world, tile, anim, x2, y2, floor, had_support, supported, seed).next,
        ),
{
    reveal(Sheep::falling);
    reveal(Sheep::noticing);
    lemma_fall_is_known(pet);
    let loose = Sheep { resting_on: None, ..s }.situated(world, tile, false);
    lemma_choice_is_known(pet, anim.gravity@, loose.situation, seed);
    lemma_choice_is_known(pet, anim.border@, plain(), seed);
}

proof fn lemma_concluding_is_known<N: Number>(
    s: Sheep<N>,
    pet: Pet<N>,
    world: World<N>,
    tile: N,
    anim: Animation<N>,
    x2: N,
    y2: N,
    floor: N,
    contact: Contact,
    met: Option<u32>,
    had_support: bool,
    supported_now: bool,
    seed: u64,
)
    requires
        is_whole(pet),
        leads_home(pet, anim.border@),
        leads_home(pet, anim.gravity@),
        is_known(pet, met),
    ensures
        is_known(
            pet,
            s.concluding(
                pet,
                world,
                tile,
                anim,
                x2,
                y2,
                floor,
                contact,
                met,
                had_support,
                supported_now,
                seed,
            ).next,
        ),
{
    reveal(Sheep::concluding);
    lemma_landing_is_known(pet);
    let supported = contact.nudged || supported_now;
    let sheep = if contact.hit {
        Sheep { toss: None, ..s }.situated(world, tile, supported)
    } else {
        s
    };
    lemma_choice_is_known(pet, anim.border@, sheep.situation, seed);
    lemma_falling_is_known(
        sheep,
        pet,
        world,
        tile,
        anim,
        x2,
        y2,
        floor,
        had_support,
        supported,
        seed,
    );
}

proof fn lemma_resolving_is_known<N: Number>(
    s: Sheep<N>,
    pet: Pet<N>,
    world: World<N>,
    tile: N,
    anim: Animation<N>,
    x2: N,
    y2: N,
    seed: u64,
)
    requires
        is_whole(pet),
        pet.animation(s.animation) == Some(anim),
    ensures
        ({
            let v = s.resolving(pet, world, tile, anim, x2, y2, seed);
            is_known(pet, v.next) && pet.animation(v.turn.sheep.animation) is Some
        }),
{
    reveal(Sheep::resolving);
    lemma_found(pet.animations@, s.animation, 0);
    let k = choose|k: int| 0 <= k < pet.animations@.len() && pet.animations@[k] == anim;
    assert(leads_home(pet, pet.animations@[k].next@));
    let supported_now = s.standing_on(&world, tile) is Some;
    if s.step >= s.steps {
        lemma_finishing_is_known(s, pet, world, tile, anim, supported_now, seed);
    } else {
        let screen = s.screen(&world, tile);
        let mid = (s.x.plus(half(tile)), s.y.plus(half(tile)));
        lemma_obstructed_keeps(s, world, tile, anim, x2, supported_now, seed);
        lemma_obstructed_is_known(s, pet, world, tile, anim, x2, supported_now, seed);
        let (sheep, face, met, seed_met) = s.obstructed(
            world,
            tile,
            anim,
            x2,
            supported_now,
            seed,
        );
        lemma_edges_keep(sheep, world, tile, anim, x2, y2, screen, mid, face.at, met.at);
        let (touched, contact) = sheep.at_edges(
            world,
            tile,
            anim,
            x2,
            y2,
            screen,
            mid,
            face.at,
            met.at,
        );
        let next = if face.next is Some {
            face.next
        } else {
            met.next
        };
        let floor = screen.floor().minus(tile);
        let had = s.resting_on is Some;
        lemma_concluding_keeps(
            touched,
            pet,
            world,
            tile,
            anim,
            x2,
            y2,
            floor,
            contact,
            next,
            had,
            supported_now,
            seed_met,
        );
        lemma_concluding_is_known(
            touched,
            pet,
            world,
            tile,
            anim,
            x2,
            y2,
            floor,
            contact,
            next,
            had,
            supported_now,
            seed_met,
        );
    }
}

/// A sheep never leaves the animations of its pet: in a pet where everything
/// leads to an animation that it has, every step of a sheep in one of them
/// ends in one of them.
pub proof fn a_step_keeps_to_the_pet<N: Number>(
    s: Sheep<N>,
    pet: Pet<N>,
    world: World<N>,
    tile: N,
    seed: u64,
)
    requires
        is_whole(pet),
        pet.animation(s.animation) is Some,
    ensures
        pet.animation(s.stepping(pet, world, tile, seed).0.sheep.animation) is Some,
{
    reveal(Sheep::going_on);
    reveal(Sheep::walked);
    reveal(Sheep::flown);
    reveal(Sheep::entering);
    reveal(Sheep::following);
    let anim = pet.animation(s.animation)->0;
    let posed = Sheep { frame: anim.spec_frame_at(s.step), prev: s.pose(), ..s };
    if s.dragging {
    } else if let Some((vx, vy)) = s.toss {
        lemma_resolving_is_known(posed.flown(vx, vy), pet, world, tile, anim, vx, vy, seed);
    } else {
        let ctx = s.ctx(&world, tile);
        let (walked, x2, y2, seed_walk) = posed.walked(anim, ctx, seed);
        lemma_resolving_is_known(walked, pet, world, tile, anim, x2, y2, seed_walk);
    }
}

} // verus!
