use vstd::prelude::*;

verus! {

/// A number type on which a unit's arithmetic runs.
///
/// Every operation is total and has a model: a spec function that says what the operation
/// returns. The contracts of the units, layers and networks are written over these models, so
/// they fix which operations are applied to which values, and in which order.
///
/// The instance for `i64` in this module is proved against its models. An instance that is
/// written elsewhere without proof, such as one for floating-point numbers, is taken at its
/// word: what is proved of a network then holds as far as each operation of the instance
/// returns what its model returns.
pub trait Scalar: Copy {
    /// The neutral element of `plus`.
    spec fn zero_spec() -> Self;

    /// The neutral element of `times`.
    spec fn one_spec() -> Self;

    /// What `plus` returns.
    spec fn plus_spec(self, other: Self) -> Self;

    /// What `minus` returns.
    spec fn minus_spec(self, other: Self) -> Self;

    /// What `times` returns.
    spec fn times_spec(self, other: Self) -> Self;

    /// What `negate` returns.
    spec fn negate_spec(self) -> Self;

    /// What `is_non_negative` returns.
    spec fn is_non_negative_spec(self) -> bool;

    /// The number zero.
    fn zero() -> (r: Self)
        ensures
            r == Self::zero_spec(),
    ;

    /// The number one.
    fn one() -> (r: Self)
        ensures
            r == Self::one_spec(),
    ;

    /// The sum of two numbers.
    fn plus(self, other: Self) -> (r: Self)
        ensures
            r == self.plus_spec(other),
    ;

    /// The difference of two numbers.
    fn minus(self, other: Self) -> (r: Self)
        ensures
            r == self.minus_spec(other),
    ;

    /// The product of two numbers.
    fn times(self, other: Self) -> (r: Self)
        ensures
            r == self.times_spec(other),
    ;

    /// The number with the opposite sign.
    fn negate(self) -> (r: Self)
        ensures
            r == self.negate_spec(),
    ;

    /// Whether the number is zero or above.
    fn is_non_negative(self) -> (r: bool)
        ensures
            r == self.is_non_negative_spec(),
    ;
}

/// The 64-bit integer nearest to `x`.
pub open spec fn saturate(x: int) -> i64 {
    if x > i64::MAX {
        i64::MAX
    } else if x < i64::MIN {
        i64::MIN
    } else {
        x as i64
    }
}

/// The 64-bit integer nearest to `wide`.
fn saturate_wide(wide: i128) -> (r: i64)
    ensures
        r == saturate(wide as int),
{
    if wide > i64::MAX as i128 {
        i64::MAX
    } else if wide < i64::MIN as i128 {
        i64::MIN
    } else {
        wide as i64
    }
}

/// Exact integer arithmetic that stops at the ends of the 64-bit range instead of wrapping.
impl Scalar for i64 {
    open spec fn zero_spec() -> i64 {
        0
    }

    open spec fn one_spec() -> i64 {
        1
    }

    open spec fn plus_spec(self, other: i64) -> i64 {
        saturate(self + other)
    }

    open spec fn minus_spec(self, other: i64) -> i64 {
        saturate(self - other)
    }

    open spec fn times_spec(self, other: i64) -> i64 {
        saturate(self * other)
    }

    open spec fn negate_spec(self) -> i64 {
        saturate(-self)
    }

    open spec fn is_non_negative_spec(self) -> bool {
        self >= 0
    }

    fn zero() -> (r: i64) {
        0
    }

    fn one() -> (r: i64) {
        1
    }

    fn plus(self, other: i64) -> (r: i64) {
        saturate_wide(self as i128 + other as i128)
    }

    fn minus(self, other: i64) -> (r: i64) {
        saturate_wide(self as i128 - other as i128)
    }

    fn times(self, other: i64) -> (r: i64) {
        assert(-0x4000_0000_0000_0000_0000_0000_0000_0000 <= self * other
            <= 0x4000_0000_0000_0000_0000_0000_0000_0000) by (nonlinear_arith)
            requires
                -0x8000_0000_0000_0000 <= self <= 0x7fff_ffff_ffff_ffff,
                -0x8000_0000_0000_0000 <= other <= 0x7fff_ffff_ffff_ffff,
        ;
        saturate_wide(self as i128 * other as i128)
    }

    fn negate(self) -> (r: i64) {
        saturate_wide(-(self as i128))
    }

    fn is_non_negative(self) -> (r: bool) {
        self >= 0
    }
}

/// The sum of the products of the elements that stand at the same place in `a` and in `b`,
/// added up from the left, starting from zero.
pub open spec fn dot_spec<T: Scalar>(a: Seq<T>, b: Seq<T>) -> T
    recommends
        a.len() == b.len(),
    decreases a.len(),
{
    if a.len() == 0 {
        T::zero_spec()
    } else {
        dot_spec(a.drop_last(), b.drop_last()).plus_spec(a.last().times_spec(b.last()))
    }
}

/// Computes the sum of the products of two equally long vectors.
pub fn dot<T: Scalar>(a: &Vec<T>, b: &Vec<T>) -> (r: T)
    requires
        a.len() == b.len(),
    ensures
        r == dot_spec(a@, b@),
{
    let mut acc: T = T::zero();
    let mut i: usize = 0;
    while i < a.len()
        invariant
            a.len() == b.len(),
            i <= a.len(),
            acc == dot_spec(a@.take(i as int), b@.take(i as int)),
        decreases a.len() - i,
    {
        assert(a@.take(i + 1).drop_last() =~= a@.take(i as int));
        assert(b@.take(i + 1).drop_last() =~= b@.take(i as int));
        acc = acc.plus(a[i].times(b[i]));
        i += 1;
    }
    assert(a@.take(i as int) =~= a@);
    assert(b@.take(i as int) =~= b@);
    acc
}

} // verus!
