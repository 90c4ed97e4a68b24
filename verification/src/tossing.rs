//! What holds of a throw, in decimal numbers.

use vstd::prelude::*;

use crate::anim::Pet;
use crate::decimals::size;
use crate::fixed::{is_root, quotient_of, root_of, Fixed, UNIT};
use crate::number::Number;
use crate::sheep::{Sheep, TOSS_MAX};
use crate::world::World;

verus! {

proof fn lemma_there_is_a_root(n: nat) -> (r: nat)
    ensures
        is_root(r, n),
    decreases n,
{
    if n == 0 {
        assert(is_root(0, 0)) by (nonlinear_arith);
        0
    } else {
        let r = lemma_there_is_a_root((n - 1) as nat);
        if (r + 1) * (r + 1) <= n {
            assert((r + 1) * (r + 1) < (r + 1 + 1) * (r + 1 + 1)) by (nonlinear_arith);
            r + 1
        } else {
            r
        }
    }
}

/// The root of a sum of squares is at least either side.
proof fn lemma_root_of_squares(a: int, b: int) -> (r: nat)
    ensures
        r == root_of((a * a + b * b) as nat),
        a * a + b * b >= 0,
        r * r <= a * a + b * b < (r + 1) * (r + 1),
        -r <= a <= r,
        -r <= b <= r,
{
    assert(a * a >= 0) by (nonlinear_arith);
    assert(b * b >= 0) by (nonlinear_arith);
    let n = (a * a + b * b) as nat;
    let some = lemma_there_is_a_root(n);
    let r = root_of(n);
    assert(is_root(r, n));
    assert(-r <= a <= r) by (nonlinear_arith)
        requires
            a * a < (r + 1) * (r + 1),
            r >= 0,
    ;
    assert(-r <= b <= r) by (nonlinear_arith)
        requires
            b * b < (r + 1) * (r + 1),
            r >= 0,
    ;
    r
}

/// A share of no more than one takes no more of a number than `most` parts in
/// `of`, and leaves its sign alone.
proof fn lemma_scaled(v: Fixed, share: Fixed, most: int, of: int)
    requires
        0 <= share.raw <= UNIT,
        0 <= most,
        0 < of,
        share.raw * of <= most * UNIT,
    ensures
        ({
            let t = v.times(share).raw;
            &&& v.raw >= 0 ==> 0 <= t <= v.raw && 0 <= t * of <= v.raw * most
            &&& v.raw <= 0 ==> v.raw <= t <= 0 && v.raw * most <= t * of <= 0
        }),
{
    let m = if v.raw < 0 {
        -v.raw
    } else {
        v.raw as int
    };
    let k = share.raw as int;
    let q = m * k / UNIT as int;
    assert(0 <= q <= m && 0 <= q * of <= m * most) by (nonlinear_arith)
        requires
            0 <= m,
            0 <= k <= UNIT,
            UNIT == 10_000_000_000,
            0 <= most,
            0 < of,
            k * of <= most * UNIT,
            q == m * k / UNIT as int,
    {
        assert(q * UNIT <= m * k);
        assert(m * k <= m * UNIT);
        assert(q * UNIT * of <= m * k * of);
        assert(m * (k * of) <= m * (most * UNIT));
    }
    assert(v.raw * k == m * k || v.raw * k == -(m * k)) by (nonlinear_arith)
        requires
            m == v.raw || m == -v.raw,
    ;
    assert(m * k >= 0) by (nonlinear_arith)
        requires
            m >= 0,
            k >= 0,
    ;
    let product = v.raw * share.raw;
    let t = v.times(share).raw;
    if v.raw < 0 {
        assert(product == -(m * k)) by (nonlinear_arith)
            requires
                product == v.raw * k,
                m == -v.raw,
        ;
        if m * k == 0 {
            assert(q == 0);
        }
        assert(quotient_of(product, UNIT as int) == -q);
        assert(t == -q);
        assert((-q) * of == -(q * of)) by (nonlinear_arith);
        assert((-m) * most == -(m * most)) by (nonlinear_arith);
    } else {
        assert(product == m * k);
        assert(quotient_of(product, UNIT as int) == q);
        assert(t == q);
        if v.raw == 0 {
            assert(0 * most == 0 && 0 * of == 0);
        }
    }
}

/// A throw keeps the direction of the flick and is never faster than it, and
/// one that is not too hard is the flick itself. However hard the flick, the
/// throw is no faster than it may be. Flicks too hard to be measured are left
/// out.
pub proof fn a_throw_is_capped_but_keeps_its_direction(vx: Fixed, vy: Fixed)
    requires
        0 < root_of((vx.raw * vx.raw + vy.raw * vy.raw) as nat) <= i64::MAX,
    ensures
        ({
            let speed = vx.hypot(vy);
            let most = Fixed::whole(TOSS_MAX);
            let (tx, ty) = Sheep::throw_of(vx, vy);
            &&& vx.raw >= 0 ==> 0 <= tx.raw <= vx.raw
            &&& vx.raw <= 0 ==> vx.raw <= tx.raw <= 0
            &&& vy.raw >= 0 ==> 0 <= ty.raw <= vy.raw
            &&& vy.raw <= 0 ==> vy.raw <= ty.raw <= 0
            &&& speed.raw <= most.raw ==> tx == vx && ty == vy
            &&& tx.hypot(ty).raw <= most.raw
        }),
{
    let s = lemma_root_of_squares(vx.raw as int, vy.raw as int) as int;
    let speed = vx.hypot(vy);
    assert(speed.raw == s);
    let most = Fixed::whole(TOSS_MAX);
    let m = most.raw as int;
    assert(m == TOSS_MAX * UNIT);
    let kept = if speed.below(most) {
        speed
    } else {
        most
    };
    let share = kept.over(speed);
    let (tx, ty) = Sheep::throw_of(vx, vy);
    let k = kept.raw * UNIT / s;
    assert(0 <= k <= UNIT && k * s <= kept.raw * UNIT) by (nonlinear_arith)
        requires
            0 <= kept.raw <= s,
            0 < s,
            UNIT == 10_000_000_000,
            k == kept.raw * UNIT / s,
    ;
    assert(kept.raw * UNIT >= 0);
    assert(share.raw == k);
    lemma_scaled(vx, share, kept.raw as int, s);
    lemma_scaled(vy, share, kept.raw as int, s);
    if speed.raw <= most.raw {
        assert(s * UNIT / s == UNIT) by (nonlinear_arith)
            requires
                0 < s,
        ;
        assert(share.raw == UNIT);
        lemma_whole_share(vx, share);
        lemma_whole_share(vy, share);
    } else {
        let r = lemma_root_of_squares(tx.raw as int, ty.raw as int) as int;
        let (a, b) = (tx.raw as int, ty.raw as int);
        let (c, d) = (vx.raw as int, vy.raw as int);
        assert((a * s) * (a * s) <= (c * m) * (c * m)) by (nonlinear_arith)
            requires
                (0 <= a * s <= c * m) || (c * m <= a * s <= 0),
        ;
        assert((b * s) * (b * s) <= (d * m) * (d * m)) by (nonlinear_arith)
            requires
                (0 <= b * s <= d * m) || (d * m <= b * s <= 0),
        ;
        lemma_square_of_product(a, s);
        lemma_square_of_product(b, s);
        lemma_square_of_product(c, m);
        lemma_square_of_product(d, m);
        assert((a * a + b * b) * (s * s) == a * a * (s * s) + b * b * (s * s)) by (nonlinear_arith);
        assert((c * c + d * d) * (m * m) == c * c * (m * m) + d * d * (m * m)) by (nonlinear_arith);
        assert((c * c + d * d) * (m * m) < (s + 1) * (s + 1) * (m * m)) by (nonlinear_arith)
            requires
                c * c + d * d < (s + 1) * (s + 1),
                0 < m,
        ;
        assert((s + 1) * (s + 1) * (m * m) <= (m + 1) * (m + 1) * (s * s)) by (nonlinear_arith)
            requires
                0 < m <= s,
        {
            let p = (s + 1) * m;
            let q = (m + 1) * s;
            assert(0 <= p <= q);
            assert(p * p <= q * q);
            assert(p * p == (s + 1) * (s + 1) * (m * m));
            assert(q * q == (m + 1) * (m + 1) * (s * s));
        }
        assert(a * a + b * b < (m + 1) * (m + 1)) by (nonlinear_arith)
            requires
                (a * a + b * b) * (s * s) < (m + 1) * (m + 1) * (s * s),
                0 < s,
        ;
        assert(r <= m) by (nonlinear_arith)
            requires
                r * r < (m + 1) * (m + 1),
                0 <= m,
        ;
    }
}

/// A flick of up to twenty-six hundred pixels a second throws a sheep as fast
/// as it went. A harder one throws it at twenty-six hundred pixels a second,
/// shared out as the flick was, to within the last places.
pub proof fn a_hard_flick_is_held_to_the_fastest_throw(
    s: Sheep<Fixed>,
    pet: Pet<Fixed>,
    world: World<Fixed>,
    tile: Fixed,
    vx: Fixed,
    vy: Fixed,
    seed: u64,
)
    requires
        -100_000 * UNIT <= vx.raw <= 100_000 * UNIT,
        -100_000 * UNIT <= vy.raw <= 100_000 * UNIT,
        vx.hypot(vy).raw >= 250 * UNIT,
        pet.spec_fall_animation() is Some,
    ensures
        ({
            let most = 2_600 * UNIT;
            let speed = vx.hypot(vy).raw;
            let toss = s.released(pet, world, tile, vx, vy, seed).sheep.toss;
            let (tx, ty) = toss->0;
            &&& toss is Some
            &&& speed <= most ==> tx == vx && ty == vy
            &&& speed > most ==> {
                &&& tx.hypot(ty).raw <= most
                &&& vx.raw >= 0 ==> 0 <= tx.raw
                &&& vx.raw <= 0 ==> tx.raw <= 0
                &&& vy.raw >= 0 ==> 0 <= ty.raw
                &&& vy.raw <= 0 ==> ty.raw <= 0
                &&& size(vx.raw as int) * most * UNIT <= (size(tx.raw as int) * UNIT + size(
                    vx.raw as int,
                ) + UNIT) * speed
                &&& size(vy.raw as int) * most * UNIT <= (size(ty.raw as int) * UNIT + size(
                    vy.raw as int,
                ) + UNIT) * speed
            }
        }),
{
    reveal(Sheep::entering);
    let r = lemma_root_of_squares(vx.raw as int, vy.raw as int) as int;
    assert(r <= 200_000 * UNIT) by (nonlinear_arith)
        requires
            r * r <= vx.raw * vx.raw + vy.raw * vy.raw,
            -100_000 * UNIT <= vx.raw <= 100_000 * UNIT,
            -100_000 * UNIT <= vy.raw <= 100_000 * UNIT,
            UNIT == 10_000_000_000,
    {
        let m = 100_000 * UNIT;
        assert(vx.raw * vx.raw <= m * m);
        assert(vy.raw * vy.raw <= m * m);
        if r > 2 * m {
            assert(r * r > (2 * m) * (2 * m));
            assert((2 * m) * (2 * m) == 4 * (m * m));
        }
    }
    assert(vx.hypot(vy).raw == r);
    a_throw_is_capped_but_keeps_its_direction(vx, vy);
    let speed = vx.hypot(vy);
    let most = Fixed::whole(TOSS_MAX);
    let (m, v) = (2_600 * UNIT, speed.raw as int);
    assert(most.raw == m);
    if speed.raw > m {
        let k = most.over(speed).raw as int;
        assert(k == m * UNIT / v && 0 <= k <= UNIT && m * UNIT < (k + 1) * v) by {
            let q = m * UNIT / v;
            assert(0 <= q <= UNIT && m * UNIT < (q + 1) * v && m * UNIT >= 0) by (nonlinear_arith)
                requires
                    q == m * UNIT / v,
                    0 < m < v,
                    UNIT == 10_000_000_000,
            ;
            assert(quotient_of(m * UNIT, v) == q);
        }
        lemma_least_share(vx, most.over(speed), m, v);
        lemma_least_share(vy, most.over(speed), m, v);
    }
}

proof fn lemma_least_share(v: Fixed, share: Fixed, most: int, speed: int)
    requires
        0 <= share.raw <= UNIT,
        0 < most,
        0 < speed,
        most * UNIT < (share.raw + 1) * speed,
        -100_000 * UNIT <= v.raw <= 100_000 * UNIT,
    ensures
        size(v.raw as int) * most * UNIT <= (size(v.times(share).raw as int) * UNIT + size(
            v.raw as int,
        ) + UNIT) * speed,
{
    let (a, k) = (size(v.raw as int), share.raw as int);
    let q = a * k / UNIT as int;
    assert(0 <= a * k && 0 <= q <= a && a * k < (q + 1) * UNIT) by (nonlinear_arith)
        requires
            q == a * k / UNIT as int,
            0 <= a,
            0 <= k <= UNIT,
            UNIT == 10_000_000_000,
    ;
    assert(size(v.raw * k) == a * k) by (nonlinear_arith)
        requires
            a == size(v.raw as int),
            k >= 0,
    ;
    assert(size(quotient_of(v.raw * k, UNIT as int)) == q);
    assert(size(v.times(share).raw as int) == q);
    assert(a * most * UNIT <= (q * UNIT + a + UNIT) * speed) by (nonlinear_arith)
        requires
            most * UNIT < (k + 1) * speed,
            a * k < (q + 1) * UNIT,
            0 <= a,
            0 < speed,
    {
        assert(a * (most * UNIT) <= a * ((k + 1) * speed));
        assert(a * ((k + 1) * speed) == (a * k + a) * speed);
        assert((a * k + a) * speed <= ((q + 1) * UNIT + a) * speed);
    }
}

proof fn lemma_square_of_product(a: int, b: int)
    ensures
        (a * b) * (a * b) == a * a * (b * b),
{
    assert((a * b) * (a * b) == a * a * (b * b)) by (nonlinear_arith);
}

proof fn lemma_whole_share(v: Fixed, share: Fixed)
    requires
        share.raw == UNIT,
    ensures
        v.times(share) == v,
{
    assert(quotient_of(v.raw * UNIT, UNIT as int) == v.raw) by (nonlinear_arith)
        requires
            UNIT == 10_000_000_000,
    ;
}

} // verus!
