//! The numbers the sheep is measured in.
//!
//! Positions, sizes, weights and paces are all of one type, chosen by the
//! host. [`Number`] lists what the library asks of it. A desktop host brings a
//! hardware floating-point type; [`Fixed`] is a decimal fixed-point type for
//! hosts that have none.

use vstd::prelude::*;

verus! {

/// What the library asks of a number type.
///
/// Every operation is a function of its operands alone, named by a spec
/// function of the same meaning; nothing else is taken for granted, not even
/// that `plus` commutes. A type that is not itself verified leaves the spec
/// functions at their defaults, which say nothing.
pub trait Number: Copy {
    /// The whole number `i`, or the nearest the type has.
    closed spec fn spec_whole(i: i64) -> Self {
        arbitrary()
    }

    #[verifier::when_used_as_spec(spec_whole)]
    fn whole(i: i64) -> (r: Self)
        ensures
            r == Self::spec_whole(i),
    ;

    /// The number a decimal numeral stands for, if the text is one.
    closed spec fn spec_read(text: Seq<char>) -> Option<Self> {
        arbitrary()
    }

    fn read(text: &str) -> (r: Option<Self>)
        ensures
            r == Self::spec_read(text@),
    ;

    /// The smallest positive number.
    closed spec fn spec_least() -> Self {
        arbitrary()
    }

    #[verifier::when_used_as_spec(spec_least)]
    fn least() -> (r: Self)
        ensures
            r == Self::spec_least(),
    ;

    /// Seven tenths to the power of a fortieth: the share of its speed that a
    /// thrown sheep keeps over one fortieth of a second.
    closed spec fn spec_toss_keep() -> Self {
        arbitrary()
    }

    #[verifier::when_used_as_spec(spec_toss_keep)]
    fn toss_keep() -> (r: Self)
        ensures
            r == Self::spec_toss_keep(),
    ;

    /// The sum.
    closed spec fn spec_plus(self, other: Self) -> Self {
        arbitrary()
    }

    #[verifier::when_used_as_spec(spec_plus)]
    fn plus(self, other: Self) -> (r: Self)
        ensures
            r == self.spec_plus(other),
    ;

    /// The difference.
    closed spec fn spec_minus(self, other: Self) -> Self {
        arbitrary()
    }

    #[verifier::when_used_as_spec(spec_minus)]
    fn minus(self, other: Self) -> (r: Self)
        ensures
            r == self.spec_minus(other),
    ;

    /// The product.
    closed spec fn spec_times(self, other: Self) -> Self {
        arbitrary()
    }

    #[verifier::when_used_as_spec(spec_times)]
    fn times(self, other: Self) -> (r: Self)
        ensures
            r == self.spec_times(other),
    ;

    /// The quotient.
    closed spec fn spec_over(self, other: Self) -> Self {
        arbitrary()
    }

    #[verifier::when_used_as_spec(spec_over)]
    fn over(self, other: Self) -> (r: Self)
        ensures
            r == self.spec_over(other),
    ;

    /// The remainder of the quotient truncated towards zero.
    closed spec fn spec_modulo(self, other: Self) -> Self {
        arbitrary()
    }

    #[verifier::when_used_as_spec(spec_modulo)]
    fn modulo(self, other: Self) -> (r: Self)
        ensures
            r == self.spec_modulo(other),
    ;

    /// The length of the vector whose sides these are.
    closed spec fn spec_hypot(self, other: Self) -> Self {
        arbitrary()
    }

    #[verifier::when_used_as_spec(spec_hypot)]
    fn hypot(self, other: Self) -> (r: Self)
        ensures
            r == self.spec_hypot(other),
    ;

    /// The number with its sign turned round.
    closed spec fn spec_negated(self) -> Self {
        arbitrary()
    }

    #[verifier::when_used_as_spec(spec_negated)]
    fn negated(self) -> (r: Self)
        ensures
            r == self.spec_negated(),
    ;

    /// The number without its sign.
    closed spec fn spec_magnitude(self) -> Self {
        arbitrary()
    }

    #[verifier::when_used_as_spec(spec_magnitude)]
    fn magnitude(self) -> (r: Self)
        ensures
            r == self.spec_magnitude(),
    ;

    /// One with the sign of this number.
    closed spec fn spec_sign(self) -> Self {
        arbitrary()
    }

    #[verifier::when_used_as_spec(spec_sign)]
    fn sign(self) -> (r: Self)
        ensures
            r == self.spec_sign(),
    ;

    /// The whole part, rounding towards zero.
    closed spec fn spec_trunc(self) -> Self {
        arbitrary()
    }

    #[verifier::when_used_as_spec(spec_trunc)]
    fn trunc(self) -> (r: Self)
        ensures
            r == self.spec_trunc(),
    ;

    /// The least whole number that is no smaller.
    closed spec fn spec_ceil(self) -> Self {
        arbitrary()
    }

    #[verifier::when_used_as_spec(spec_ceil)]
    fn ceil(self) -> (r: Self)
        ensures
            r == self.spec_ceil(),
    ;

    /// The nearest whole number, halves going away from zero.
    closed spec fn spec_round(self) -> Self {
        arbitrary()
    }

    #[verifier::when_used_as_spec(spec_round)]
    fn round(self) -> (r: Self)
        ensures
            r == self.spec_round(),
    ;

    /// Is this number less than the other?
    closed spec fn spec_below(self, other: Self) -> bool {
        arbitrary()
    }

    #[verifier::when_used_as_spec(spec_below)]
    fn below(self, other: Self) -> (r: bool)
        ensures
            r == self.spec_below(other),
    ;

    /// Is this number less than or equal to the other?
    closed spec fn spec_at_most(self, other: Self) -> bool {
        arbitrary()
    }

    #[verifier::when_used_as_spec(spec_at_most)]
    fn at_most(self, other: Self) -> (r: bool)
        ensures
            r == self.spec_at_most(other),
    ;

    /// Are the two numbers equal in value?
    closed spec fn spec_same(self, other: Self) -> bool {
        arbitrary()
    }

    #[verifier::when_used_as_spec(spec_same)]
    fn same(self, other: Self) -> (r: bool)
        ensures
            r == self.spec_same(other),
    ;

    /// Where the number stands in the type's total order.
    closed spec fn spec_rank(self) -> i64 {
        arbitrary()
    }

    #[verifier::when_used_as_spec(spec_rank)]
    fn rank(self) -> (r: i64)
        ensures
            r == self.spec_rank(),
    ;

    /// Is this a proper number, neither infinite nor undefined?
    closed spec fn spec_finite(self) -> bool {
        arbitrary()
    }

    #[verifier::when_used_as_spec(spec_finite)]
    fn finite(self) -> (r: bool)
        ensures
            r == self.spec_finite(),
    ;

    /// The whole part, held within the range of the integer type; an
    /// undefined number counts as zero.
    closed spec fn spec_to_u64(self) -> u64 {
        arbitrary()
    }

    #[verifier::when_used_as_spec(spec_to_u64)]
    fn to_u64(self) -> (r: u64)
        ensures
            r == self.spec_to_u64(),
    ;

    /// The whole part, held within the range of the integer type; an
    /// undefined number counts as zero.
    closed spec fn spec_to_i64(self) -> i64 {
        arbitrary()
    }

    #[verifier::when_used_as_spec(spec_to_i64)]
    fn to_i64(self) -> (r: i64)
        ensures
            r == self.spec_to_i64(),
    ;
}

/// The number zero.
#[verifier::allow_in_spec]
pub fn zero<N: Number>() -> N
    returns
        N::whole(0),
{
    N::whole(0)
}

/// The number one.
#[verifier::allow_in_spec]
pub fn one<N: Number>() -> N
    returns
        N::whole(1),
{
    N::whole(1)
}

/// The fraction `a / b`.
#[verifier::allow_in_spec]
pub fn ratio<N: Number>(a: i64, b: i64) -> N
    returns
        N::whole(a).over(N::whole(b)),
{
    N::whole(a).over(N::whole(b))
}

/// `x`, or `floor` where `x` is not above it.
#[verifier::allow_in_spec]
pub fn at_least<N: Number>(x: N, floor: N) -> N
    returns
        (if floor.below(x) {
            x
        } else {
            floor
        }),
{
    if floor.below(x) {
        x
    } else {
        floor
    }
}

/// `x` held between `low` and `high`.
#[verifier::allow_in_spec]
pub fn clamped<N: Number>(x: N, low: N, high: N) -> N
    returns
        (if x.below(low) {
            low
        } else if high.below(x) {
            high
        } else {
            x
        }),
{
    if x.below(low) {
        low
    } else if high.below(x) {
        high
    } else {
        x
    }
}

/// Do two numbers lie less than two apart?
#[verifier::allow_in_spec]
pub fn within_two<N: Number>(a: N, b: N) -> bool
    returns
        a.minus(b).magnitude().below(N::whole(2)),
{
    a.minus(b).magnitude().below(N::whole(2))
}

} // verus!
