//! What the decimal numbers come to, counted in whole units of the last place.

use vstd::prelude::*;

use crate::fixed::{
    capped, is_root, magnitude_of, quotient_of, root_of, tally_from, Fixed, Tally, UNIT,
};
use crate::number::Number;

verus! {

/// Is there a decimal number of so many units?
pub open spec fn fits(v: int) -> bool {
    i64::MIN <= v <= i64::MAX
}

/// How far `v` is from zero.
pub open spec fn size(v: int) -> int {
    if v < 0 {
        -v
    } else {
        v
    }
}

/// Is `r` the quotient of `a` by `b`, cut off towards zero?
pub open spec fn is_cut_off(r: int, a: int, b: int) -> bool {
    &&& size(r) * size(b) <= size(a) < (size(r) + 1) * size(b)
    &&& r > 0 ==> (a > 0) == (b > 0)
    &&& r < 0 ==> (a > 0) != (b > 0)
}

proof fn lemma_quotient(a: int, b: int)
    requires
        b != 0,
    ensures
        is_cut_off(quotient_of(a, b), a, b),
{
    let (m, d) = (magnitude_of(a), magnitude_of(b));
    let q = m / d;
    assert(q * d <= m < (q + 1) * d && q >= 0) by (nonlinear_arith)
        requires
            q == m / d,
            d > 0,
            m >= 0,
    ;
    if q > 0 {
        assert(m > 0) by (nonlinear_arith)
            requires
                q * d <= m,
                q > 0,
                d > 0,
        ;
    }
}

proof fn lemma_one_cut_off(r: int, t: int, a: int, b: int)
    requires
        b != 0,
        is_cut_off(r, a, b),
        is_cut_off(t, a, b),
    ensures
        r == t,
{
    let (x, y, d, m) = (size(r), size(t), size(b), size(a));
    assert(x == y) by (nonlinear_arith)
        requires
            x * d <= m < (x + 1) * d,
            y * d <= m < (y + 1) * d,
            d > 0,
    ;
}

/// Sums and differences are exact, and held at the ends of the range beyond
/// it.
pub proof fn sums_are_exact(a: Fixed, b: Fixed)
    ensures
        fits(a.raw + b.raw) ==> a.plus(b).raw == a.raw + b.raw,
        fits(a.raw - b.raw) ==> a.minus(b).raw == a.raw - b.raw,
        fits(-a.raw) ==> a.negated().raw == -a.raw,
        fits(size(a.raw as int)) ==> a.magnitude().raw == size(a.raw as int),
        a.raw + b.raw > i64::MAX ==> a.plus(b).raw == i64::MAX,
        a.raw + b.raw < i64::MIN ==> a.plus(b).raw == i64::MIN,
        a.raw - b.raw > i64::MAX ==> a.minus(b).raw == i64::MAX,
        a.raw - b.raw < i64::MIN ==> a.minus(b).raw == i64::MIN,
{
}

/// A whole number is so many times one.
pub proof fn whole_numbers_are_exact(i: i64)
    ensures
        fits(i * 10_000_000_000) ==> Fixed::whole(i).raw == i * 10_000_000_000,
{
}

/// A product is cut off towards zero at the last place.
pub proof fn products_are_cut_off(a: Fixed, b: Fixed)
    requires
        fits(quotient_of(a.raw * b.raw, UNIT as int)),
    ensures
        is_cut_off(a.times(b).raw as int, a.raw * b.raw, 10_000_000_000),
{
    lemma_quotient(a.raw * b.raw, UNIT as int);
}

/// A quotient is cut off towards zero at the last place.
pub proof fn quotients_are_cut_off(a: Fixed, b: Fixed)
    requires
        b.raw != 0,
        fits(quotient_of(a.raw * UNIT, b.raw as int)),
    ensures
        is_cut_off(a.over(b).raw as int, a.raw * 10_000_000_000, b.raw as int),
{
    lemma_quotient(a.raw * UNIT, b.raw as int);
}

/// A remainder is smaller than the divisor, has the sign of the dividend, and
/// differs from it by a whole number of divisors.
pub proof fn remainders_remain(a: Fixed, b: Fixed) -> (times: int)
    requires
        b.raw != 0,
    ensures
        size(a.modulo(b).raw as int) < size(b.raw as int),
        a.modulo(b).raw > 0 ==> a.raw > 0,
        a.modulo(b).raw < 0 ==> a.raw < 0,
        a.raw == times * b.raw + a.modulo(b).raw,
{
    let q = quotient_of(a.raw as int, b.raw as int);
    lemma_quotient(a.raw as int, b.raw as int);
    let r = a.raw - q * b.raw;
    let (x, d, m) = (size(q), size(b.raw as int), size(a.raw as int));
    assert(size(q * b.raw) == x * d) by (nonlinear_arith)
        requires
            x == size(q),
            d == size(b.raw as int),
    ;
    assert((x + 1) * d == x * d + d) by (nonlinear_arith);
    assert(q > 0 ==> (q * b.raw > 0) == (b.raw > 0)) by (nonlinear_arith);
    assert(q < 0 ==> (q * b.raw > 0) == (b.raw < 0)) by (nonlinear_arith)
        requires
            b.raw != 0,
    ;
    assert(q == 0 ==> q * b.raw == 0) by (nonlinear_arith);
    q
}

/// A product by a whole number is exact.
pub proof fn whole_multiples_are_exact(a: Fixed, k: int)
    requires
        fits(k * UNIT),
        fits(a.raw * k),
    ensures
        a.times(Fixed::whole(k as i64)).raw == a.raw * k,
        Fixed::whole(k as i64).times(a).raw == a.raw * k,
{
    let n = a.raw * (k * UNIT);
    assert(n == (a.raw * k) * UNIT && (k * UNIT) * a.raw == n) by (nonlinear_arith)
        requires
            n == a.raw * (k * UNIT),
    ;
    lemma_quotient(n, UNIT as int);
    assert(is_cut_off(a.raw * k, n, UNIT as int)) by {
        let x = a.raw * k;
        assert(size(n) == size(x) * UNIT) by (nonlinear_arith)
            requires
                n == x * UNIT,
                UNIT == 10_000_000_000,
        ;
        assert((size(x) + 1) * UNIT == size(x) * UNIT + UNIT) by (nonlinear_arith);
        assert(x > 0 ==> n > 0) by (nonlinear_arith)
            requires
                n == x * UNIT,
                UNIT == 10_000_000_000,
        ;
    }
    lemma_one_cut_off(a.raw * k, quotient_of(n, UNIT as int), n, UNIT as int);
}

/// A quotient by a whole number is the units shared out, cut off towards zero.
pub proof fn whole_shares_are_cut_off(a: Fixed, k: int)
    requires
        k != 0,
        fits(k * UNIT),
        a.raw > i64::MIN,
    ensures
        is_cut_off(a.over(Fixed::whole(k as i64)).raw as int, a.raw as int, k),
{
    let (n, d) = (a.raw * UNIT, k * UNIT);
    let q = quotient_of(n, d);
    assert(d != 0) by (nonlinear_arith)
        requires
            d == k * UNIT,
            k != 0,
            UNIT == 10_000_000_000,
    ;
    lemma_quotient(n, d);
    let (x, m, e) = (size(q), size(a.raw as int), size(k));
    assert(size(n) == m * UNIT && size(d) == e * UNIT) by (nonlinear_arith)
        requires
            n == a.raw * UNIT,
            d == k * UNIT,
            m == size(a.raw as int),
            e == size(k),
            UNIT == 10_000_000_000,
    ;
    assert(x * e <= m < (x + 1) * e) by (nonlinear_arith)
        requires
            x * (e * UNIT) <= m * UNIT < (x + 1) * (e * UNIT),
            UNIT == 10_000_000_000,
    ;
    assert((n > 0) == (a.raw > 0) && (d > 0) == (k > 0)) by (nonlinear_arith)
        requires
            n == a.raw * UNIT,
            d == k * UNIT,
            UNIT == 10_000_000_000,
    ;
    assert(x <= m) by (nonlinear_arith)
        requires
            x * e <= m,
            e >= 1,
            x >= 0,
    ;
}

/// Rounding goes to the nearest whole number, away from zero where two are as
/// near; truncating goes towards zero; the ceiling is the least whole number
/// that is no smaller.
pub proof fn rounding_goes_to_whole_numbers(a: Fixed)
    requires
        -9_000_000_000_000_000_000 <= a.raw <= 9_000_000_000_000_000_000,
    ensures
        a.round().raw as int % 10_000_000_000 == 0,
        -10_000_000_000 < 2 * (size(a.round().raw as int) - size(a.raw as int)) <= 10_000_000_000,
        a.round().raw > 0 ==> a.raw > 0,
        a.round().raw < 0 ==> a.raw < 0,
        a.trunc().raw as int % 10_000_000_000 == 0,
        0 <= size(a.raw as int) - size(a.trunc().raw as int) < 10_000_000_000,
        a.trunc().raw > 0 ==> a.raw > 0,
        a.trunc().raw < 0 ==> a.raw < 0,
        a.ceil().raw as int % 10_000_000_000 == 0,
        0 <= a.ceil().raw - a.raw < 10_000_000_000,
{
    let m = size(a.raw as int);
    let n = (m + 5_000_000_000) / 10_000_000_000;
    assert(quotient_of(a.raw as int, UNIT as int) == m / 10_000_000_000 || quotient_of(
        a.raw as int,
        UNIT as int,
    ) == -(m / 10_000_000_000));
    let c = -((-a.raw) / 10_000_000_000int);
    assert(c * 10_000_000_000 - 10_000_000_000 < a.raw <= c * 10_000_000_000);
}

/// The whole part of a number, as an integer, is the number cut off.
pub proof fn whole_parts_are_cut_off(a: Fixed)
    ensures
        a.raw < 0 ==> a.to_u64() == 0,
        a.raw >= 0 ==> a.to_u64() * 10_000_000_000 <= a.raw < (a.to_u64() + 1) * 10_000_000_000,
        size(a.to_i64() as int) * 10_000_000_000 <= size(a.raw as int) < (size(a.to_i64() as int)
            + 1) * 10_000_000_000,
        a.to_i64() > 0 ==> a.raw > 0,
        a.to_i64() < 0 ==> a.raw < 0,
{
    let m = size(a.raw as int);
    assert(quotient_of(a.raw as int, UNIT as int) == m / 10_000_000_000 || quotient_of(
        a.raw as int,
        UNIT as int,
    ) == -(m / 10_000_000_000));
}

/// A whole number of units is its own whole part, and stays itself however it
/// is rounded.
pub proof fn whole_numbers_are_their_own_whole_parts(a: Fixed, k: int)
    requires
        a.raw == k * UNIT,
    ensures
        a.round() == a,
        a.trunc() == a,
        a.ceil() == a,
        a.to_i64() == k,
        k >= 0 ==> a.to_u64() == k,
{
    assert(-922_337_204 <= k <= 922_337_204);
    assert(size(a.raw as int) == size(k) * 10_000_000_000);
    assert((size(k) * 10_000_000_000 + 5_000_000_000) / 10_000_000_000 == size(k));
    assert(size(k) * 10_000_000_000 / 10_000_000_000 == size(k));
    assert((-k * 10_000_000_000) / 10_000_000_000 == -k);
}

/// The length of a vector is the root of the sum of its squares, cut off at
/// the last place.
pub proof fn lengths_are_roots(a: Fixed, b: Fixed)
    requires
        fits(root_of((a.raw * a.raw + b.raw * b.raw) as nat) as int),
    ensures
        ({
            let r = a.hypot(b).raw;
            let squares = a.raw * a.raw + b.raw * b.raw;
            r >= 0 && r * r <= squares < (r + 1) * (r + 1)
        }),
{
    let n = (a.raw * a.raw + b.raw * b.raw) as nat;
    assert(a.raw * a.raw >= 0) by (nonlinear_arith);
    assert(b.raw * b.raw >= 0) by (nonlinear_arith);
    assert(n < (n + 1) * (n + 1)) by (nonlinear_arith);
    let r = lemma_there_is_a_root(n, n + 1);
    assert(is_root(r, n));
}

proof fn lemma_there_is_a_root(n: nat, most: nat) -> (r: nat)
    requires
        n < most * most,
    ensures
        is_root(r, n),
    decreases most,
{
    assert(most > 0) by (nonlinear_arith)
        requires
            n < most * most,
            n >= 0,
    ;
    let less = (most - 1) as nat;
    if less * less <= n {
        less
    } else {
        lemma_there_is_a_root(n, less)
    }
}

/// The order of the numbers is the order of their units.
pub proof fn numbers_are_ordered_by_their_units(a: Fixed, b: Fixed)
    ensures
        a.below(b) <==> a.raw < b.raw,
        a.at_most(b) <==> a.raw <= b.raw,
        a.same(b) <==> a.raw == b.raw,
        a.rank() < b.rank() <==> a.raw < b.raw,
        a.finite(),
        a.sign().raw == (if a.raw < 0 {
            -10_000_000_000int
        } else {
            10_000_000_000
        }),
{
}

// -- numerals --

/// The whole number that digits spell.
pub open spec fn spelled(digits: Seq<char>) -> int
    decreases digits.len(),
{
    if digits.len() == 0 {
        0
    } else {
        10 * spelled(digits.drop_last()) + (digits.last() as int - '0' as int)
    }
}

/// Are they all digits?
pub open spec fn all_digits(text: Seq<char>) -> bool {
    forall|k: int| 0 <= k < text.len() ==> '0' <= #[trigger] text[k] <= '9'
}

proof fn lemma_spelled_grows(text: Seq<char>, a: int, b: int)
    requires
        all_digits(text),
        0 <= a <= b <= text.len(),
    ensures
        0 <= spelled(text.take(a)) <= spelled(text.take(b)),
    decreases b,
{
    if b > 0 {
        assert(text.take(b).drop_last() == text.take(b - 1));
        assert('0' <= text[b - 1] <= '9');
        if a < b {
            lemma_spelled_grows(text, a, b - 1);
        } else {
            lemma_spelled_grows(text, b - 1, b - 1);
        }
    }
}

proof fn lemma_tally(text: Seq<char>, n: int, i: int, t: Tally)
    requires
        0 <= i <= n <= text.len(),
        all_digits(text.take(n)),
        !t.past_point,
        t.worth == spelled(text.take(n).take(i)) * UNIT,
        t.digits == (i > 0),
        spelled(text.take(n)) * UNIT <= i64::MAX,
    ensures
        tally_from(text, i, t) == tally_from(
            text,
            n,
            Tally { worth: spelled(text.take(n)) * UNIT, digits: n > 0, ..t },
        ),
    decreases n - i,
{
    let head = text.take(n);
    if i < n {
        let c = text[i];
        assert(head[i] == c);
        assert('0' <= c <= '9');
        let d = c as int - '0' as int;
        lemma_spelled_grows(head, i + 1, n);
        lemma_spelled_grows(head, i, i + 1);
        assert(head.take(n) == head);
        assert(head.take(i + 1).drop_last() == head.take(i));
        assert(spelled(head.take(i + 1)) == 10 * spelled(head.take(i)) + d);
        let worth = t.worth * 10 + d * UNIT;
        assert(worth == spelled(head.take(i + 1)) * UNIT);
        let next = Tally { worth, next: t.next, past_point: false, digits: true };
        lemma_tally(text, n, i + 1, next);
    } else {
        assert(head.take(n) == head);
    }
}

proof fn lemma_tally_behind_a_sign(sign: char, text: Seq<char>, i: int, t: Tally)
    requires
        0 <= i,
    ensures
        tally_from(seq![sign] + text, i + 1, t) == tally_from(text, i, t),
    decreases text.len() - i,
{
    let signed = seq![sign] + text;
    if i < text.len() {
        assert(signed[i + 1] == text[i]);
        if text[i] == '.' && !t.past_point {
            lemma_tally_behind_a_sign(sign, text, i + 1, Tally { past_point: true, ..t });
        } else if '0' <= text[i] <= '9' {
            let d = text[i] as int - '0' as int;
            let worth = if t.past_point {
                t.worth + d * t.next
            } else {
                t.worth * 10 + d * UNIT
            };
            let next = if t.past_point {
                t.next / 10
            } else {
                t.next
            };
            lemma_tally_behind_a_sign(
                sign,
                text,
                i + 1,
                Tally { worth: capped(worth), next, past_point: t.past_point, digits: true },
            );
        }
    }
}

/// A sign before a numeral makes it stand for as much above or below zero.
pub proof fn a_sign_is_read(text: Seq<char>)
    requires
        text.len() > 0,
        text[0] != '-',
        text[0] != '+',
        Fixed::spec_read(text) is Some,
        (Fixed::spec_read(text)->0).raw < i64::MAX,
    ensures
        Fixed::spec_read(seq!['-'] + text) == Some(
            Fixed { raw: (-(Fixed::spec_read(text)->0).raw) as i64 },
        ),
        Fixed::spec_read(seq!['+'] + text) == Fixed::spec_read(text),
{
    let start = Tally { worth: 0, next: UNIT as int / 10, past_point: false, digits: false };
    lemma_tally_behind_a_sign('-', text, 0, start);
    lemma_tally_behind_a_sign('+', text, 0, start);
    lemma_worth_is_positive(text, 0, start);
    assert((seq!['-'] + text)[0] == '-');
    assert((seq!['+'] + text)[0] == '+');
}

proof fn lemma_worth_is_positive(text: Seq<char>, i: int, t: Tally)
    requires
        0 <= t.worth,
        0 <= t.next,
    ensures
        tally_from(text, i, t) is Some ==> (tally_from(text, i, t)->0).worth >= 0,
    decreases text.len() - i,
{
    if 0 <= i < text.len() {
        if text[i] == '.' && !t.past_point {
            lemma_worth_is_positive(text, i + 1, Tally { past_point: true, ..t });
        } else if '0' <= text[i] <= '9' {
            let d = text[i] as int - '0' as int;
            assert(d * t.next >= 0) by (nonlinear_arith)
                requires
                    d >= 0,
                    t.next >= 0,
            ;
            let worth = if t.past_point {
                t.worth + d * t.next
            } else {
                t.worth * 10 + d * UNIT
            };
            let next = if t.past_point {
                t.next / 10
            } else {
                t.next
            };
            lemma_worth_is_positive(
                text,
                i + 1,
                Tally { worth: capped(worth), next, past_point: t.past_point, digits: true },
            );
        }
    }
}

/// A numeral of digits alone is read as the whole number that they spell.
pub proof fn digits_are_read(text: Seq<char>)
    requires
        text.len() > 0,
        all_digits(text),
        spelled(text) * UNIT <= i64::MAX,
    ensures
        Fixed::spec_read(text) == Some(Fixed { raw: (spelled(text) * UNIT) as i64 }),
{
    let n = text.len() as int;
    assert(text.take(n) == text);
    assert(text.take(n).take(0) == Seq::<char>::empty());
    assert('0' <= text[0] <= '9');
    let start = Tally { worth: 0, next: UNIT as int / 10, past_point: false, digits: false };
    lemma_tally(text, n, 0, start);
    lemma_spelled_grows(text, 0, n);
}

/// Where a point stands before the last digits of a numeral, up to ten of
/// them, it is worth the digits without the point divided by as many tens.
pub proof fn a_point_divides_by_tens(whole: Seq<char>, part: Seq<char>)
    requires
        whole.len() > 0,
        all_digits(whole),
        all_digits(part),
        part.len() <= 10,
        spelled(whole) * UNIT + UNIT <= i64::MAX,
    ensures
        Fixed::spec_read(whole + seq!['.'] + part) == Some(
            Fixed { raw: (spelled(whole) * UNIT + spelled(part) * tens(10 - part.len())) as i64 },
        ),
{
    let text = whole + seq!['.'] + part;
    let n = whole.len() as int;
    assert(text.take(n) == whole);
    assert(whole.take(0) == Seq::<char>::empty());
    assert(whole.take(n) == whole);
    assert('0' <= whole[0] <= '9');
    assert(text[0] == whole[0]);
    lemma_spelled_grows(whole, 0, n);
    let start = Tally { worth: 0, next: UNIT as int / 10, past_point: false, digits: false };
    lemma_tally(text, n, 0, start);
    assert(text[n] == '.');
    let base = spelled(whole) * UNIT;
    let past = Tally { worth: base, next: UNIT as int / 10, past_point: true, digits: true };
    assert(part.take(0) == Seq::<char>::empty());
    assert(tens(9) == 1_000_000_000) by {
        reveal_with_fuel(tens, 11);
    }
    assert(tens(10) == 10_000_000_000);
    lemma_part(text, n + 1, part, base, 0, past);
    lemma_spelled_below(part);
    assert(0 <= spelled(part) * tens(10 - part.len()) < UNIT) by {
        lemma_tens(part.len() as int, 10 - part.len());
        assert(0 <= spelled(part) * tens(10 - part.len()) < tens(part.len() as int) * tens(
            10 - part.len(),
        )) by (nonlinear_arith)
            requires
                0 <= spelled(part) < tens(part.len() as int),
                tens(10 - part.len()) > 0,
        ;
    }
}

/// So many tens multiplied together.
pub open spec fn tens(n: int) -> int
    decreases n,
{
    if n <= 0 {
        1
    } else {
        10 * tens(n - 1)
    }
}

proof fn lemma_tens(a: int, b: int)
    requires
        a >= 0,
        b >= 0,
    ensures
        tens(a) * tens(b) == tens(a + b),
        tens(a) > 0,
        tens(b) > 0,
    decreases a,
{
    if a > 0 {
        lemma_tens(a - 1, b);
        assert((10 * tens(a - 1)) * tens(b) == 10 * (tens(a - 1) * tens(b))) by (nonlinear_arith);
    } else {
        lemma_tens_positive(b);
    }
}

proof fn lemma_tens_positive(b: int)
    ensures
        tens(b) > 0,
    decreases b,
{
    if b > 0 {
        lemma_tens_positive(b - 1);
    }
}

proof fn lemma_spelled_below(digits: Seq<char>)
    requires
        all_digits(digits),
    ensures
        0 <= spelled(digits) < tens(digits.len() as int),
    decreases digits.len(),
{
    if digits.len() > 0 {
        assert('0' <= digits[digits.len() - 1] <= '9');
        lemma_spelled_below(digits.drop_last());
    }
}

proof fn lemma_part(text: Seq<char>, at: int, part: Seq<char>, base: int, k: int, t: Tally)
    requires
        0 <= at,
        text.len() == at + part.len(),
        forall|j: int| 0 <= j < part.len() ==> text[at + j] == #[trigger] part[j],
        all_digits(part),
        part.len() <= 10,
        0 <= k <= part.len(),
        t.past_point,
        t.digits,
        k < 10 ==> t.next == tens(9 - k),
        t.worth == base + spelled(part.take(k)) * tens(10 - k),
        0 <= base,
        base + UNIT <= i64::MAX,
        tens(10) == UNIT,
    ensures
        ({
            let end = tally_from(text, at + k, t);
            &&& end is Some
            &&& (end->0).digits
            &&& (end->0).worth == base + spelled(part) * tens(10 - part.len())
        }),
    decreases part.len() - k,
{
    if k < part.len() {
        let c = part[k];
        assert(text[at + k] == c);
        assert('0' <= c <= '9');
        let d = c as int - '0' as int;
        let here = part.take(k + 1);
        assert(here.drop_last() == part.take(k));
        assert(here.last() == c);
        assert(spelled(here) == 10 * spelled(part.take(k)) + d);
        assert(tens(10 - k) == 10 * tens(9 - k));
        let p = spelled(part.take(k));
        let q = tens(9 - k);
        assert(p * (10 * q) + d * q == (10 * p + d) * q) by (nonlinear_arith);
        let worth = t.worth + d * t.next;
        assert(worth == base + spelled(here) * tens(10 - (k + 1)));
        assert(worth <= i64::MAX) by {
            assert forall|j: int| 0 <= j < here.len() implies '0' <= #[trigger] here[j]
                <= '9' by {
                assert(here[j] == part[j]);
            }
            lemma_spelled_below(here);
            lemma_tens(k + 1, 9 - k);
            assert(spelled(here) * q < tens(k + 1) * q) by (nonlinear_arith)
                requires
                    spelled(here) < tens(k + 1),
                    q > 0,
            ;
        }
        let next = Tally { worth, next: t.next / 10, past_point: true, digits: true };
        if k + 1 < 10 {
            assert(tens(9 - k) == 10 * tens(8 - k));
            assert(t.next / 10 == tens(8 - k));
        }
        lemma_part(text, at, part, base, k + 1, next);
    } else {
        assert(part.take(k) == part);
    }
}

} // verus!
