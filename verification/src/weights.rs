//! What chance makes of weights, counted out in whole numbers.

use vstd::prelude::*;

use crate::anim::{
    chosen, landed, pool_of, reaching_from, seed_after_choice, seed_after_landing, spawn_weights,
    total_from, weights_of, Next, Only, Pet, Situation,
};
use crate::dice::{a_throw_stays_below_one, fastrand_u64, fraction, next_seed, thrown, COARSE, FINE};
use crate::fixed::{quotient_of, Fixed, UNIT};
use crate::number::{at_least, ratio, zero, Number};

verus! {

/// What a weight counts for. Nothing counts for less than zero.
pub open spec fn counts_for(w: Fixed) -> int {
    if w.raw > 0 {
        w.raw as int
    } else {
        0
    }
}

/// What the first `k` weights count for together.
pub open spec fn counted(weights: Seq<Fixed>, k: int) -> int
    decreases k,
{
    if k <= 0 {
        0
    } else {
        counted(weights, k - 1) + counts_for(weights[k - 1])
    }
}

/// What all the weights count for together.
pub open spec fn counted_all(weights: Seq<Fixed>) -> int {
    counted(weights, weights.len() as int)
}

/// Does a throw of `throw` units out of [`UNIT`] fall to the place `k`? The
/// weights are laid end to end, and so far along them as the throw is along
/// the unit, to the whole unit below, is where it falls: behind all that comes
/// before the place and not behind the place itself. On the very start of it
/// all it falls to the first place.
pub open spec fn falls_to(weights: Seq<Fixed>, throw: int, k: int) -> bool {
    let along = throw * counted_all(weights) / UNIT as int;
    &&& 0 <= k < weights.len()
    &&& k > 0 ==> counted(weights, k) < along
    &&& along <= counted(weights, k + 1)
}

proof fn lemma_counted_grows(weights: Seq<Fixed>, a: int, b: int)
    requires
        0 <= a <= b,
    ensures
        0 <= counted(weights, a) <= counted(weights, b),
    decreases b,
{
    if a < b {
        lemma_counted_grows(weights, a, b - 1);
    } else if a > 0 {
        lemma_counted_grows(weights, a - 1, b - 1);
    }
}

proof fn lemma_total(weights: Seq<Fixed>, i: int, acc: Fixed)
    requires
        0 <= i <= weights.len(),
        acc.raw == counted(weights, i),
        counted_all(weights) <= i64::MAX,
    ensures
        total_from(weights, i, acc).raw == counted_all(weights),
    decreases weights.len() - i,
{
    if i < weights.len() {
        let next = acc.plus(at_least(weights[i], zero()));
        lemma_counted_grows(weights, i, i + 1);
        lemma_counted_grows(weights, i + 1, weights.len() as int);
        assert(counted(weights, i + 1) == counted(weights, i) + counts_for(weights[i]));
        lemma_total(weights, i + 1, next);
    }
}

proof fn lemma_reaching(weights: Seq<Fixed>, roll: Fixed, i: int, acc: Fixed)
    requires
        0 <= i <= weights.len(),
        weights.len() > 0,
        acc.raw == counted(weights, i),
        counted_all(weights) <= i64::MAX,
        0 <= roll.raw <= counted_all(weights),
        i > 0 ==> counted(weights, i) < roll.raw,
    ensures
        ({
            let k = reaching_from(weights, roll, i, acc);
            &&& 0 <= k < weights.len()
            &&& k > 0 ==> counted(weights, k) < roll.raw
            &&& roll.raw <= counted(weights, k + 1)
        }),
    decreases weights.len() - i,
{
    if i < weights.len() {
        let next = acc.plus(at_least(weights[i], zero()));
        lemma_counted_grows(weights, i, i + 1);
        lemma_counted_grows(weights, i + 1, weights.len() as int);
        assert(counted(weights, i + 1) == counted(weights, i) + counts_for(weights[i]));
        if !roll.at_most(next) {
            lemma_reaching(weights, roll, i + 1, next);
        }
    }
}

/// A weighted pick lands where the throw falls along the weights laid end to
/// end, and nowhere else. Where nothing weighs anything it is the first place.
/// So the share of throws that land on a place is its share of the weight.
/// Weights too heavy to be added up are left out.
pub proof fn a_pick_falls_as_the_weights_lie(weights: Seq<Fixed>, seed: u64)
    requires
        weights.len() > 0,
        counted_all(weights) <= i64::MAX,
    ensures
        counted_all(weights) == 0 ==> landed(weights, seed) == 0,
        counted_all(weights) > 0 ==> falls_to(
            weights,
            thrown::<Fixed>(seed).raw as int,
            landed(weights, seed),
        ),
        counted_all(weights) > 0 ==> forall|k: int|
            falls_to(weights, thrown::<Fixed>(seed).raw as int, k) ==> k == landed(weights, seed),
{
    reveal(landed);
    let total = total_from(weights, 0, zero::<Fixed>());
    lemma_counted_grows(weights, 0, weights.len() as int);
    lemma_total(weights, 0, zero());
    if total.raw > 0 {
        a_throw_stays_below_one(seed);
        let throw = thrown::<Fixed>(seed);
        let roll = throw.times(total);
        let product = throw.raw * total.raw;
        assert(0 <= product <= UNIT * total.raw) by (nonlinear_arith)
            requires
                product == throw.raw * total.raw,
                0 <= throw.raw <= UNIT,
                total.raw > 0,
        ;
        assert(0 <= product / UNIT as int <= total.raw) by (nonlinear_arith)
            requires
                0 <= product <= UNIT * total.raw,
                UNIT == 10_000_000_000,
        ;
        assert(quotient_of(product, UNIT as int) == product / UNIT as int);
        assert(roll.raw == product / UNIT as int);
        lemma_reaching(weights, roll, 0, zero());
        let k = landed(weights, seed);
        assert(falls_to(weights, throw.raw as int, k));
        assert forall|j: int| falls_to(weights, throw.raw as int, j) implies j == k by {
            if j < k {
                lemma_counted_grows(weights, j + 1, k);
            }
            if k < j {
                lemma_counted_grows(weights, k + 1, j);
            }
        }
    }
}

/// A place that weighs nothing is not picked where another weighs something,
/// but for the first by a throw that comes to nothing.
pub proof fn what_weighs_nothing_is_not_picked(weights: Seq<Fixed>, seed: u64, k: int)
    requires
        counted_all(weights) <= i64::MAX,
        0 < counted_all(weights),
        0 <= k < weights.len(),
        weights[k].raw <= 0,
        k > 0 || UNIT <= thrown::<Fixed>(seed).raw * counted_all(weights),
    ensures
        landed(weights, seed) != k,
{
    a_pick_falls_as_the_weights_lie(weights, seed);
    let product = thrown::<Fixed>(seed).raw * counted_all(weights);
    if landed(weights, seed) == k {
        assert(counted(weights, k + 1) == counted(weights, k) + counts_for(weights[k]));
        if k == 0 {
            assert(product / UNIT as int >= 1) by (nonlinear_arith)
                requires
                    UNIT <= product,
                    UNIT == 10_000_000_000,
            ;
        }
    }
}

/// The only one that weighs anything is always picked, but for the first place
/// by a throw that comes to nothing.
pub proof fn what_alone_weighs_is_picked(weights: Seq<Fixed>, seed: u64, k: int)
    requires
        0 <= k < weights.len(),
        weights[k].raw > 0,
        forall|j: int| 0 <= j < weights.len() && j != k ==> (#[trigger] weights[j]).raw <= 0,
        UNIT <= thrown::<Fixed>(seed).raw * weights[k].raw,
    ensures
        landed(weights, seed) == k,
{
    lemma_alone(weights, k, weights.len() as int);
    a_pick_falls_as_the_weights_lie(weights, seed);
    let j = landed(weights, seed);
    if j != k {
        assert(weights[j].raw <= 0);
        what_weighs_nothing_is_not_picked(weights, seed, j);
    }
}

proof fn lemma_alone(weights: Seq<Fixed>, k: int, n: int)
    requires
        0 <= k < weights.len(),
        0 <= n <= weights.len(),
        weights[k].raw > 0,
        forall|j: int| 0 <= j < weights.len() && j != k ==> (#[trigger] weights[j]).raw <= 0,
    ensures
        counted(weights, n) == if k < n {
            weights[k].raw as int
        } else {
            0
        },
    decreases n,
{
    if n > 0 {
        lemma_alone(weights, k, n - 1);
        if n - 1 != k {
            assert(weights[n - 1].raw <= 0);
        }
    }
}

// -- transitions and spawn points --

/// Is the sheep where the transition wants it?
pub open spec fn is_where_wanted(only: Only, s: Situation) -> bool {
    &&& only == Only::Window ==> s.on_window
    &&& only == Only::Taskbar ==> s.on_taskbar
    &&& only == Only::Vertical ==> s.on_vertical
    &&& only == Only::Horizontal ==> s.on_horizontal
}

/// The transitions that want the sheep where it is; all of them, if none does.
pub open spec fn in_the_running<N>(list: Seq<Next<N>>, s: Situation) -> Seq<Next<N>> {
    let fit = list.filter(|n: Next<N>| is_where_wanted(n.only, s));
    if fit.len() > 0 {
        fit
    } else {
        list
    }
}

/// What transitions weigh.
pub open spec fn probabilities<N>(list: Seq<Next<N>>) -> Seq<N> {
    Seq::new(list.len(), |i: int| list[i].probability)
}

/// The transition taken is the one that the throw falls to, by weight, of
/// those that want the sheep where it is, and no other; where nothing weighs
/// anything it is the first of them. An empty list leads nowhere.
pub proof fn a_transition_is_taken_by_weight(
    list: Seq<Next<Fixed>>,
    situation: Situation,
    seed: u64,
) -> (k: int)
    requires
        counted_all(probabilities(in_the_running(list, situation))) <= i64::MAX,
    ensures
        list.len() == 0 ==> chosen(list, situation, seed) is None,
        list.len() > 0 ==> {
            let pool = in_the_running(list, situation);
            let weights = probabilities(pool);
            &&& 0 <= k < pool.len()
            &&& chosen(list, situation, seed) == Some(pool[k])
            &&& counted_all(weights) == 0 ==> k == 0
            &&& counted_all(weights) > 0 ==> falls_to(weights, thrown::<Fixed>(seed).raw as int, k)
        },
{
    reveal(chosen);
    reveal(pool_of);
    let pool = in_the_running(list, situation);
    let weights = probabilities(pool);
    let wanted = |n: Next<Fixed>| is_where_wanted(n.only, situation);
    let allowed = |n: Next<Fixed>| situation.allows(n.only);
    assert forall|n: Next<Fixed>| #[trigger] wanted(n) == allowed(n) by {
        assert(situation.allows(n.only) == is_where_wanted(n.only, situation));
    }
    assert(wanted =~= allowed);
    assert(pool == pool_of(list, situation));
    assert(weights_of(pool) =~= weights);
    if list.len() > 0 {
        a_pick_falls_as_the_weights_lie(weights, seed);
        lemma_counted_grows(weights, 0, weights.len() as int);
    }
    landed(weights, seed)
}

/// Taking a transition is one throw of the dice, and none where there is none
/// to take or none of them weighs anything.
pub proof fn a_transition_is_one_throw(list: Seq<Next<Fixed>>, situation: Situation, seed: u64)
    requires
        counted_all(probabilities(in_the_running(list, situation))) <= i64::MAX,
    ensures
        ({
            let weight = counted_all(probabilities(in_the_running(list, situation)));
            &&& list.len() > 0 && weight > 0 ==> seed_after_choice(list, situation, seed)
                == next_seed(seed)
            &&& list.len() == 0 || weight == 0 ==> seed_after_choice(list, situation, seed) == seed
        }),
{
    reveal(seed_after_choice);
    reveal(seed_after_landing);
    reveal(pool_of);
    let pool = in_the_running(list, situation);
    let weights = probabilities(pool);
    let wanted = |n: Next<Fixed>| is_where_wanted(n.only, situation);
    let allowed = |n: Next<Fixed>| situation.allows(n.only);
    assert forall|n: Next<Fixed>| #[trigger] wanted(n) == allowed(n) by {
        assert(situation.allows(n.only) == is_where_wanted(n.only, situation));
    }
    assert(wanted =~= allowed);
    assert(pool == pool_of(list, situation));
    assert(weights_of(pool) =~= weights);
    lemma_total(weights, 0, zero());
    lemma_counted_grows(weights, 0, weights.len() as int);
}

/// The spawn point of a sheep is the one that the throw falls to, by weight.
pub proof fn a_spawn_point_is_taken_by_weight(pet: Pet<Fixed>, seed: u64) -> (k: int)
    requires
        counted_all(
            Seq::new(pet.spawns@.len(), |i: int| pet.spawns@[i].probability),
        ) <= i64::MAX,
    ensures
        pet.spawns@.len() == 0 ==> pet.spawn_point(seed) is None,
        pet.spawns@.len() > 0 ==> {
            let weights = Seq::new(pet.spawns@.len(), |i: int| pet.spawns@[i].probability);
            &&& 0 <= k < pet.spawns@.len()
            &&& pet.spawn_point(seed) == Some(pet.spawns@[k])
            &&& counted_all(weights) == 0 ==> k == 0
            &&& counted_all(weights) > 0 ==> falls_to(weights, thrown::<Fixed>(seed).raw as int, k)
        },
{
    let weights = Seq::new(pet.spawns@.len(), |i: int| pet.spawns@[i].probability);
    assert(spawn_weights(pet.spawns@) =~= weights);
    if pet.spawns@.len() > 0 {
        a_pick_falls_as_the_weights_lie(weights, seed);
        lemma_counted_grows(weights, 0, weights.len() as int);
    }
    landed(weights, seed)
}

// -- the throw itself --

proof fn lemma_cut_off(a: int, b: int)
    requires
        0 <= a,
        0 < b,
        a * UNIT <= i64::MAX,
        b * UNIT <= i64::MAX,
        a <= b,
    ensures
        Fixed::whole(a as i64).over(Fixed::whole(b as i64)).raw == a * UNIT / b,
{
    let (n, d) = ((a * UNIT) * UNIT, b * UNIT);
    vstd::arithmetic::div_mod::lemma_div_denominator(n, UNIT as int, b);
    assert(UNIT * b == b * UNIT) by (nonlinear_arith);
    assert((a * UNIT) * UNIT == UNIT * (a * UNIT)) by (nonlinear_arith);
    vstd::arithmetic::div_mod::lemma_div_multiples_vanish(a * UNIT, UNIT as int);
    assert(n / d == a * UNIT / b);
    assert(n >= 0 && d > 0) by (nonlinear_arith)
        requires
            n == (a * UNIT) * UNIT,
            d == b * UNIT,
            0 <= a,
            0 < b,
            UNIT == 10_000_000_000,
    ;
    assert(0 <= a * UNIT / b <= UNIT) by (nonlinear_arith)
        requires
            0 <= a <= b,
            0 < b,
            UNIT == 10_000_000_000,
    ;
    assert(quotient_of(n, d) == n / d);
}

/// A throw is as far along the unit as what the generator gives is along its
/// range, to within two of the last place, and never beyond it. So a throw is
/// as even as the generator is.
pub proof fn a_throw_is_as_even_as_the_generator(seed: u64)
    ensures
        ({
            let given = fastrand_u64(seed, u64::MAX).0;
            let throw = thrown::<Fixed>(seed).raw;
            let range = 0x1_0000_0000_0000_0000int;
            throw * range <= given * UNIT < (throw + 2) * range
        }),
{
    reveal(thrown);
    let given = fastrand_u64(seed, u64::MAX).0;
    let v = (given / 2048) as u64;
    let coarse = ((v / FINE as u64) % COARSE as u64) as i64;
    let fine = (v % FINE as u64) as i64;
    assert(v < 0x20_0000_0000_0000);
    assert(coarse == v / FINE as u64) by {
        assert(v as int / 0x400_0000 < 0x800_0000) by (nonlinear_arith)
            requires
                v < 0x20_0000_0000_0000,
        ;
        vstd::arithmetic::div_mod::lemma_small_mod(
            (v as int / 0x400_0000) as nat,
            0x800_0000nat,
        );
    }
    let part = ratio::<Fixed>(fine, FINE);
    lemma_cut_off(fine as int, FINE as int);
    let p = fine * UNIT / FINE as int;
    assert(part.raw == p);
    let sum = Fixed::whole(coarse).plus(part);
    assert(0 <= p < UNIT) by (nonlinear_arith)
        requires
            p == fine * UNIT / FINE as int,
            0 <= fine < FINE,
            UNIT == 10_000_000_000,
            FINE == 0x400_0000,
    ;
    assert(sum.raw == coarse * UNIT + p);
    let throw = sum.over(Fixed::whole(COARSE));
    let t = (coarse * UNIT + p) / COARSE as int;
    assert(throw.raw == t) by {
        let (n, d) = (sum.raw * UNIT, COARSE * UNIT);
        vstd::arithmetic::div_mod::lemma_div_denominator(n, UNIT as int, COARSE as int);
        assert(UNIT * COARSE == COARSE * UNIT) by (nonlinear_arith);
        assert(sum.raw * UNIT == UNIT * sum.raw) by (nonlinear_arith);
        vstd::arithmetic::div_mod::lemma_div_multiples_vanish(sum.raw as int, UNIT as int);
        assert(quotient_of(n, d) == n / d);
    }
    assert(throw == fraction::<Fixed>(v));
    let range = 0x1_0000_0000_0000_0000int;
    let low = given % 2048;
    assert(given == 2048 * v + low);
    assert(v == FINE * coarse + fine) by {
        vstd::arithmetic::div_mod::lemma_fundamental_div_mod(v as int, 0x400_0000);
    }
    assert(t * COARSE <= coarse * UNIT + p < (t + 1) * COARSE) by (nonlinear_arith)
        requires
            t == (coarse * UNIT + p) / COARSE as int,
            COARSE == 0x800_0000,
    ;
    assert(p * FINE <= fine * UNIT < (p + 1) * FINE) by (nonlinear_arith)
        requires
            p == fine * UNIT / FINE as int,
            FINE == 0x400_0000,
    ;
}

} // verus!
