//! Chance.
//!
//! Every choice the sheep leaves to chance is drawn from [`Dice`]. What a
//! throw gives depends on the seed alone, so a run can be played again from
//! the seed it started with.

use vstd::prelude::*;

use crate::fixed::{quotient_of, Fixed, UNIT};
use crate::number::{ratio, Number};

verus! {

/// What `fastrand::Rng` gives from a seed when asked for a number of at most
/// `most`: that number, and the seed it then stands at.
pub uninterp spec fn fastrand_u64(seed: u64, most: u64) -> (u64, u64);

/// Calls `fastrand::Rng::u64` with the range `..=most` on a generator with
/// this seed. The answer lies in the range. The generator has no state but its
/// seed, so the answer and the next seed are functions of the seed and `most`.
#[verifier::external_body]
fn rng_u64(seed: u64, most: u64) -> (r: (u64, u64))
    ensures
        r == fastrand_u64(seed, most),
        r.0 <= most,
{
    let mut rng = fastrand::Rng::with_seed(seed);
    let v = rng.u64(..=most);
    (v, rng.get_seed())
}

/// Calls `fastrand::u64` on the thread's own generator. Nothing is known of
/// the answer.
#[verifier::external_body]
fn chance() -> (r: u64) {
    fastrand::u64(..)
}

/// A source of chance.
#[derive(Clone, Copy, Debug, PartialEq, Eq)]
pub struct Dice {
    pub seed: u64,
}

/// How many parts the coarse half of a throw divides the unit into.
pub const COARSE: i64 = 0x800_0000;

/// How many parts the fine half of a throw divides a coarse part into.
pub const FINE: i64 = 0x400_0000;

/// A number of 53 bits as a fraction of their range. It is put together from
/// two halves, neither of which is large.
#[verifier::allow_in_spec]
pub fn fraction<N: Number>(v: u64) -> N
    returns
        N::whole(((v / FINE as u64) % COARSE as u64) as i64).plus(
            ratio((v % FINE as u64) as i64, FINE),
        ).over(N::whole(COARSE)),
{
    N::whole(((v / FINE as u64) % COARSE as u64) as i64).plus(
        ratio((v % FINE as u64) as i64, FINE),
    ).over(N::whole(COARSE))
}

/// The throw from this seed: a number of 53 bits, as a fraction of their range.
#[verifier::opaque]
pub open spec fn thrown<N: Number>(seed: u64) -> N {
    fraction((fastrand_u64(seed, u64::MAX).0 / 2048) as u64)
}

/// The seed after one throw.
pub open spec fn next_seed(seed: u64) -> u64 {
    fastrand_u64(seed, u64::MAX).1
}

/// The pick below `n` from this seed.
pub open spec fn picked(seed: u64, n: u64) -> u64 {
    fastrand_u64(seed, (n - 1) as u64).0
}

/// The seed after one pick below `n`.
pub open spec fn seed_after_pick(seed: u64, n: u64) -> u64 {
    fastrand_u64(seed, (n - 1) as u64).1
}

impl Dice {
    /// Dice that start from a seed of chance's own choosing.
    pub fn new() -> (r: Dice) {
        Dice { seed: chance() }
    }

    /// Dice that start from this seed.
    pub fn with_seed(seed: u64) -> (r: Dice)
        ensures
            r.seed == seed,
    {
        Dice { seed }
    }

    /// Throws: an even chance of every number from zero up to, but not
    /// reaching, one.
    pub fn throw<N: Number>(&mut self) -> (r: N)
        ensures
            r == thrown::<N>(old(self).seed),
            final(self).seed == next_seed(old(self).seed),
    {
        let (v, seed) = rng_u64(self.seed, u64::MAX);
        self.seed = seed;
        proof {
            reveal(thrown);
        }
        fraction(v / 2048)
    }

    /// Picks an even chance of `0` to `n - 1`.
    pub fn pick(&mut self, n: u64) -> (r: u64)
        requires
            n > 0,
        ensures
            r == picked(old(self).seed, n),
            r < n,
            final(self).seed == seed_after_pick(old(self).seed, n),
    {
        let (v, seed) = rng_u64(self.seed, n - 1);
        self.seed = seed;
        v
    }
}

proof fn lemma_share(a: Fixed, b: Fixed)
    requires
        0 <= a.raw < b.raw,
    ensures
        0 <= a.over(b).raw < UNIT,
{
    let q = a.raw * UNIT / b.raw as int;
    assert(0 <= q < UNIT) by (nonlinear_arith)
        requires
            0 <= a.raw < b.raw,
            q == a.raw * UNIT / b.raw as int,
            UNIT == 10_000_000_000,
    ;
    assert(a.raw * UNIT >= 0);
    assert(quotient_of(a.raw * UNIT, b.raw as int) == q);
}

/// Every throw of fixed-point dice is at least zero and below one.
pub proof fn a_throw_stays_below_one(seed: u64)
    ensures
        0 <= thrown::<Fixed>(seed).raw < UNIT,
{
    reveal(thrown);
    let v = (fastrand_u64(seed, u64::MAX).0 / 2048) as u64;
    let coarse = ((v / FINE as u64) % COARSE as u64) as i64;
    let fine = (v % FINE as u64) as i64;
    let part = ratio::<Fixed>(fine, FINE);
    lemma_share(Fixed::whole(fine), Fixed::whole(FINE));
    let sum = Fixed::whole(coarse).plus(part);
    assert(sum.raw == coarse * UNIT + part.raw);
    lemma_share(sum, Fixed::whole(COARSE));
}

/// Every throw of fixed-point dice taken as a percentage, which is what a
/// sheep's personality and `random` in an expression are, is at least zero
/// and below a hundred.
pub proof fn a_percentage_stays_below_a_hundred(seed: u64)
    ensures
        0 <= thrown::<Fixed>(seed).times(Fixed::whole(100)).raw < 100 * UNIT,
{
    a_throw_stays_below_one(seed);
    let share = thrown::<Fixed>(seed).raw;
    assert(share * (100 * UNIT) == (share * 100) * UNIT) by (nonlinear_arith);
    assert((share * 100) * UNIT / UNIT as int == share * 100) by (nonlinear_arith)
        requires
            UNIT == 10_000_000_000,
    ;
}

} // verus!
