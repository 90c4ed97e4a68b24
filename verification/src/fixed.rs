//! Decimal fixed-point numbers, with ten places after the point.
//!
//! Results beyond the range are held at its ends, so arithmetic never fails.

use vstd::prelude::*;

use crate::number::Number;

verus! {

/// How many units make one.
pub const UNIT: i64 = 10_000_000_000;

/// A number counted in units of the tenth place after the point.
#[derive(Clone, Copy, Debug, PartialEq, Eq, Structural)]
pub struct Fixed {
    pub raw: i64,
}

/// `v` held within the range of `i64`.
pub open spec fn held(v: int) -> i64 {
    if v > i64::MAX {
        i64::MAX
    } else if v < i64::MIN {
        i64::MIN
    } else {
        v as i64
    }
}

/// The magnitude of `v`.
pub open spec fn magnitude_of(v: int) -> int {
    if v < 0 {
        -v
    } else {
        v
    }
}

/// `a / b` rounded towards zero, for a divisor other than zero.
pub open spec fn quotient_of(a: int, b: int) -> int {
    let q = magnitude_of(a) / magnitude_of(b);
    if (a < 0) != (b < 0) {
        -q
    } else {
        q
    }
}

/// Is `r` the whole part of the square root of `n`?
pub open spec fn is_root(r: nat, n: nat) -> bool {
    r * r <= n < (r + 1) * (r + 1)
}

/// The whole part of the square root of `n`.
pub open spec fn root_of(n: nat) -> nat {
    choose|r: nat| is_root(r, n)
}

/// What a numeral has said so far: how many units its digits are worth,
/// what the next digit is worth and whether it has had its point.
pub struct Tally {
    pub worth: int,
    pub next: int,
    pub past_point: bool,
    pub digits: bool,
}

/// Is the character one of the ten digits?
pub open spec fn is_decimal(c: char) -> bool {
    '0' <= c <= '9'
}

/// Reads on from position `i`; `None` where a character is not part of a
/// numeral. A digit before the point shifts the tally up, one after it adds
/// its own share, and digits past the tenth place add nothing.
pub open spec fn tally_from(text: Seq<char>, i: int, t: Tally) -> Option<Tally>
    decreases text.len() - i,
{
    if i < 0 || i >= text.len() {
        Some(t)
    } else if text[i] == '.' && !t.past_point {
        tally_from(text, i + 1, Tally { past_point: true, ..t })
    } else if !is_decimal(text[i]) {
        None
    } else {
        let d = text[i] as int - '0' as int;
        let worth = if t.past_point {
            t.worth + d * t.next
        } else {
            t.worth * 10 + d * UNIT
        };
        let next = if t.past_point {
            t.next / 10
        } else {
            t.next
        };
        tally_from(
            text,
            i + 1,
            Tally { worth: capped(worth), next, past_point: t.past_point, digits: true },
        )
    }
}

/// The tally stops growing well past the largest number there is.
pub open spec fn capped(worth: int) -> int {
    if worth > 0x1_0000_0000_0000_0000 {
        0x1_0000_0000_0000_0000
    } else {
        worth
    }
}

/// The number that a numeral stands for: an optional sign, then digits with at
/// most one point among or around them. Numerals with an exponent are not
/// read.
pub open spec fn numeral(text: Seq<char>) -> Option<Fixed> {
    let signed = text.len() > 0 && (text[0] == '-' || text[0] == '+');
    let start = Tally { worth: 0, next: UNIT as int / 10, past_point: false, digits: false };
    match tally_from(text, if signed { 1 } else { 0 }, start) {
        Some(t) if t.digits => if signed && text[0] == '-' {
            Some(Fixed { raw: held(-t.worth) })
        } else {
            Some(Fixed { raw: held(t.worth) })
        },
        _ => None,
    }
}

proof fn lemma_root_is_unique(a: nat, b: nat, n: nat)
    requires
        is_root(a, n),
        is_root(b, n),
    ensures
        a == b,
{
    if a < b {
        assert((a + 1) * (a + 1) <= b * b) by (nonlinear_arith)
            requires
                a + 1 <= b,
        ;
    }
    if b < a {
        assert((b + 1) * (b + 1) <= a * a) by (nonlinear_arith)
            requires
                b + 1 <= a,
        ;
    }
}

fn hold(v: i128) -> (r: i64)
    ensures
        r == held(v as int),
{
    if v > i64::MAX as i128 {
        i64::MAX
    } else if v < i64::MIN as i128 {
        i64::MIN
    } else {
        v as i64
    }
}

/// `a / b` rounded towards zero.
fn quotient(a: i128, b: i128) -> (r: i128)
    requires
        b != 0,
        -0x4000_0000_0000_0000_0000_0000_0000_0000 <= a,
        a <= 0x4000_0000_0000_0000_0000_0000_0000_0000,
        b > i128::MIN,
    ensures
        r == quotient_of(a as int, b as int),
        -0x4000_0000_0000_0000_0000_0000_0000_0000 <= r,
        r <= 0x4000_0000_0000_0000_0000_0000_0000_0000,
{
    let m: u128 = if a < 0 {
        (-a) as u128
    } else {
        a as u128
    };
    let d: u128 = if b < 0 {
        (-b) as u128
    } else {
        b as u128
    };
    let q: u128 = m / d;
    proof {
        assert(m as int / d as int <= m as int) by (nonlinear_arith)
            requires
                d >= 1,
                m >= 0,
        ;
    }
    if (a < 0) != (b < 0) {
        -(q as i128)
    } else {
        q as i128
    }
}

/// The whole part of the square root, found bit by bit from the top.
fn root(n: u128) -> (r: u64)
    requires
        n <= 0x8000_0000_0000_0000_0000_0000_0000_0000,
    ensures
        r == root_of(n as nat),
        is_root(r as nat, n as nat),
{
    let mut low: u128 = 0;
    let mut high: u128 = 0x1_0000_0000_0000_0000;
    assert(n < high * high) by (nonlinear_arith)
        requires
            n <= 0x8000_0000_0000_0000_0000_0000_0000_0000,
            high == 0x1_0000_0000_0000_0000,
    ;
    while high - low > 1
        invariant
            low < high <= 0x1_0000_0000_0000_0000,
            low * low <= n,
            n < high * high,
        decreases high - low,
    {
        let mid: u128 = low + (high - low) / 2;
        assert(mid * mid < 0x1_0000_0000_0000_0000 * 0x1_0000_0000_0000_0000) by (nonlinear_arith)
            requires
                0 <= mid < 0x1_0000_0000_0000_0000,
        ;
        if mid * mid <= n {
            low = mid;
        } else {
            high = mid;
        }
    }
    proof {
        assert(high == low + 1);
        assert(is_root(low as nat, n as nat));
        lemma_root_is_unique(low as nat, root_of(n as nat), n as nat);
    }
    low as u64
}

proof fn lemma_product_is_small(a: i64, b: i64)
    ensures
        -0x4000_0000_0000_0000_0000_0000_0000_0000 <= a * b,
        a * b <= 0x4000_0000_0000_0000_0000_0000_0000_0000,
{
    let m = 0x8000_0000_0000_0000int;
    assert(-(m * m) <= a * b && a * b <= m * m) by (nonlinear_arith)
        requires
            -m <= a <= m,
            -m <= b <= m,
    ;
    assert(m * m == 0x4000_0000_0000_0000_0000_0000_0000_0000) by (nonlinear_arith)
        requires
            m == 0x8000_0000_0000_0000int,
    ;
}

impl Number for Fixed {
    open spec fn spec_whole(i: i64) -> Self {
        Fixed { raw: held(i * UNIT) }
    }

    fn whole(i: i64) -> (r: Self) {
        proof {
            lemma_product_is_small(i, UNIT);
        }
        Fixed { raw: hold(i as i128 * UNIT as i128) }
    }

    open spec fn spec_read(text: Seq<char>) -> Option<Self> {
        numeral(text)
    }

    fn read(text: &str) -> (r: Option<Self>) {
        let n: usize = text.unicode_len();
        let first: char = if n > 0 {
            text.get_char(0)
        } else {
            ' '
        };
        let signed = first == '-' || first == '+';
        let mut i: usize = if signed {
            1
        } else {
            0
        };
        let mut worth: i128 = 0;
        let mut next: i128 = 1_000_000_000;
        let mut past_point = false;
        let mut digits = false;
        let ghost start = Tally { worth: 0, next: UNIT as int / 10, past_point: false, digits: false };
        while i < n
            invariant
                i <= n,
                n == text@.len(),
                first == (if n > 0 {
                    text@[0]
                } else {
                    ' '
                }),
                signed == (first == '-' || first == '+'),
                start == (Tally {
                    worth: 0,
                    next: UNIT as int / 10,
                    past_point: false,
                    digits: false,
                }),
                0 <= worth <= 0x1_0000_0000_0000_0000,
                0 <= next <= 1_000_000_000,
                tally_from(text@, if signed { 1 } else { 0 }, start) == tally_from(
                    text@,
                    i as int,
                    Tally { worth: worth as int, next: next as int, past_point, digits },
                ),
            decreases n - i,
        {
            let c: char = text.get_char(i);
            if c == '.' && !past_point {
                past_point = true;
            } else if c < '0' || c > '9' {
                return None;
            } else {
                let d: i128 = (c as u32 - '0' as u32) as i128;
                if past_point {
                    assert(0 <= d * next <= 9_000_000_000) by (nonlinear_arith)
                        requires
                            0 <= d <= 9,
                            0 <= next <= 1_000_000_000,
                    ;
                    worth = worth + d * next;
                    next = next / 10;
                } else {
                    worth = worth * 10 + d * 10_000_000_000;
                }
                if worth > 0x1_0000_0000_0000_0000 {
                    worth = 0x1_0000_0000_0000_0000;
                }
                digits = true;
            }
            i = i + 1;
        }
        if !digits {
            return None;
        }
        if first == '-' {
            Some(Fixed { raw: hold(-worth) })
        } else {
            Some(Fixed { raw: hold(worth) })
        }
    }

    open spec fn spec_least() -> Self {
        Fixed { raw: 1 }
    }

    fn least() -> (r: Self) {
        Fixed { raw: 1 }
    }

    open spec fn spec_toss_keep() -> Self {
        Fixed { raw: 9_911_227_638 }
    }

    fn toss_keep() -> (r: Self) {
        Fixed { raw: 9_911_227_638 }
    }

    open spec fn spec_plus(self, other: Self) -> Self {
        Fixed { raw: held(self.raw + other.raw) }
    }

    fn plus(self, other: Self) -> (r: Self) {
        Fixed { raw: hold(self.raw as i128 + other.raw as i128) }
    }

    open spec fn spec_minus(self, other: Self) -> Self {
        Fixed { raw: held(self.raw - other.raw) }
    }

    fn minus(self, other: Self) -> (r: Self) {
        Fixed { raw: hold(self.raw as i128 - other.raw as i128) }
    }

    open spec fn spec_times(self, other: Self) -> Self {
        Fixed { raw: held(quotient_of(self.raw * other.raw, UNIT as int)) }
    }

    fn times(self, other: Self) -> (r: Self) {
        proof {
            lemma_product_is_small(self.raw, other.raw);
        }
        Fixed { raw: hold(quotient(self.raw as i128 * other.raw as i128, UNIT as i128)) }
    }

    /// Dividing by zero gives the end of the range that the dividend's sign
    /// points at, and zero for zero.
    open spec fn spec_over(self, other: Self) -> Self {
        if other.raw != 0 {
            Fixed { raw: held(quotient_of(self.raw * UNIT, other.raw as int)) }
        } else if self.raw > 0 {
            Fixed { raw: i64::MAX }
        } else if self.raw < 0 {
            Fixed { raw: i64::MIN }
        } else {
            Fixed { raw: 0 }
        }
    }

    fn over(self, other: Self) -> (r: Self) {
        if other.raw != 0 {
            Fixed { raw: hold(quotient(self.raw as i128 * UNIT as i128, other.raw as i128)) }
        } else if self.raw > 0 {
            Fixed { raw: i64::MAX }
        } else if self.raw < 0 {
            Fixed { raw: i64::MIN }
        } else {
            Fixed { raw: 0 }
        }
    }

    open spec fn spec_modulo(self, other: Self) -> Self {
        if other.raw == 0 {
            Fixed { raw: 0 }
        } else {
            Fixed {
                raw: held(
                    self.raw - quotient_of(self.raw as int, other.raw as int) * other.raw,
                ),
            }
        }
    }

    fn modulo(self, other: Self) -> (r: Self) {
        if other.raw == 0 {
            Fixed { raw: 0 }
        } else {
            let q: i128 = quotient(self.raw as i128, other.raw as i128);
            proof {
                let m = magnitude_of(self.raw as int);
                let d = magnitude_of(other.raw as int);
                assert(0 <= (m / d) * d <= m) by (nonlinear_arith)
                    requires
                        d >= 1,
                        m >= 0,
                ;
                assert(magnitude_of(q * other.raw) == (m / d) * d) by (nonlinear_arith)
                    requires
                        m == magnitude_of(self.raw as int),
                        d == magnitude_of(other.raw as int),
                        q == (if (self.raw < 0) != (other.raw < 0) {
                            -(m / d)
                        } else {
                            m / d
                        }),
                        m / d >= 0,
                        d >= 1,
                ;
            }
            Fixed { raw: hold(self.raw as i128 - q * other.raw as i128) }
        }
    }

    open spec fn spec_hypot(self, other: Self) -> Self {
        Fixed {
            raw: held(root_of((self.raw * self.raw + other.raw * other.raw) as nat) as int),
        }
    }

    fn hypot(self, other: Self) -> (r: Self) {
        proof {
            lemma_product_is_small(self.raw, self.raw);
            lemma_product_is_small(other.raw, other.raw);
            assert(self.raw * self.raw >= 0) by (nonlinear_arith);
            assert(other.raw * other.raw >= 0) by (nonlinear_arith);
        }
        let a: u128 = (self.raw as i128 * self.raw as i128) as u128;
        let b: u128 = (other.raw as i128 * other.raw as i128) as u128;
        Fixed { raw: hold(root(a + b) as i128) }
    }

    open spec fn spec_negated(self) -> Self {
        Fixed { raw: held(-self.raw) }
    }

    fn negated(self) -> (r: Self) {
        Fixed { raw: hold(-(self.raw as i128)) }
    }

    open spec fn spec_magnitude(self) -> Self {
        Fixed { raw: held(magnitude_of(self.raw as int)) }
    }

    fn magnitude(self) -> (r: Self) {
        if self.raw < 0 {
            Fixed { raw: hold(-(self.raw as i128)) }
        } else {
            self
        }
    }

    open spec fn spec_sign(self) -> Self {
        Fixed {
            raw: if self.raw < 0 {
                -10_000_000_000i64
            } else {
                10_000_000_000
            },
        }
    }

    fn sign(self) -> (r: Self) {
        if self.raw < 0 {
            Fixed { raw: -10_000_000_000 }
        } else {
            Fixed { raw: 10_000_000_000 }
        }
    }

    open spec fn spec_trunc(self) -> Self {
        Fixed { raw: held(quotient_of(self.raw as int, UNIT as int) * UNIT) }
    }

    fn trunc(self) -> (r: Self) {
        let q: i128 = quotient(self.raw as i128, UNIT as i128);
        Fixed { raw: hold(q * UNIT as i128) }
    }

    open spec fn spec_ceil(self) -> Self {
        Fixed { raw: held(-((-self.raw) / UNIT as int) * UNIT) }
    }

    fn ceil(self) -> (r: Self) {
        let q: i128 = quotient(self.raw as i128, UNIT as i128);
        proof {
            let m = 10_000_000_000int;
            let up = -((-self.raw) / m);
            assert(up * m - m < self.raw <= up * m);
            let a = magnitude_of(self.raw as int);
            let b = a / m;
            assert(b * m <= a < b * m + m);
            assert(q == b || q == -b);
            assert(q * m - m < self.raw < q * m + m);
        }
        if q * (UNIT as i128) < self.raw as i128 {
            Fixed { raw: hold((q + 1) * UNIT as i128) }
        } else {
            Fixed { raw: hold(q * UNIT as i128) }
        }
    }

    open spec fn spec_round(self) -> Self {
        let m = (magnitude_of(self.raw as int) + UNIT as int / 2) / UNIT as int * UNIT;
        Fixed {
            raw: held(
                if self.raw < 0 {
                    -m
                } else {
                    m
                },
            ),
        }
    }

    fn round(self) -> (r: Self) {
        let a: i128 = if self.raw < 0 {
            -(self.raw as i128)
        } else {
            self.raw as i128
        };
        let m: i128 = (a + 5_000_000_000) / UNIT as i128 * UNIT as i128;
        if self.raw < 0 {
            Fixed { raw: hold(-m) }
        } else {
            Fixed { raw: hold(m) }
        }
    }

    open spec fn spec_below(self, other: Self) -> bool {
        self.raw < other.raw
    }

    fn below(self, other: Self) -> (r: bool) {
        self.raw < other.raw
    }

    open spec fn spec_at_most(self, other: Self) -> bool {
        self.raw <= other.raw
    }

    fn at_most(self, other: Self) -> (r: bool) {
        self.raw <= other.raw
    }

    open spec fn spec_same(self, other: Self) -> bool {
        self.raw == other.raw
    }

    fn same(self, other: Self) -> (r: bool) {
        self.raw == other.raw
    }

    open spec fn spec_rank(self) -> i64 {
        self.raw
    }

    fn rank(self) -> (r: i64) {
        self.raw
    }

    open spec fn spec_finite(self) -> bool {
        true
    }

    fn finite(self) -> (r: bool) {
        true
    }

    open spec fn spec_to_u64(self) -> u64 {
        if self.raw < 0 {
            0
        } else {
            (self.raw / UNIT) as u64
        }
    }

    fn to_u64(self) -> (r: u64) {
        if self.raw < 0 {
            0
        } else {
            (self.raw / UNIT) as u64
        }
    }

    open spec fn spec_to_i64(self) -> i64 {
        quotient_of(self.raw as int, UNIT as int) as i64
    }

    fn to_i64(self) -> (r: i64) {
        quotient(self.raw as i128, UNIT as i128) as i64
    }
}

} // verus!
