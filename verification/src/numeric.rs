//! The arithmetic the simulation is written against.
//!
//! The library never inspects a real number: it only combines them through
//! the traits of this module. Nothing is promised of any method here, so
//! every contract in the crate holds whatever an implementation computes.
//!
//! What a contract can say of a computed value is which operations it came
//! out of, and from what. The relations of this module say so for a single
//! operation: `sum(a, b, r)` holds when `r` is what `a.plus(b)` returned.

use vstd::prelude::*;

verus! {

/// A real number.
pub trait Scalar: Copy {
    /// The quotient `num / den`.
    fn ratio(num: i32, den: i32) -> Self;

    /// The value nearest to `value`.
    fn from_u32(value: u32) -> Self;

    /// The value nearest to `value`.
    fn from_i32(value: i32) -> Self;

    /// The integer part, saturated to the range of `i32`.
    fn to_i32(self) -> i32;

    /// The largest whole number not above `self`.
    fn floor(self) -> Self;

    fn plus(self, rhs: Self) -> Self;

    fn minus(self, rhs: Self) -> Self;

    fn times(self, rhs: Self) -> Self;

    fn over(self, rhs: Self) -> Self;

    /// The value with the opposite sign.
    fn negated(self) -> Self;

    /// `self < rhs`.
    fn less(self, rhs: Self) -> bool;

    /// `self <= rhs`.
    fn at_most(self, rhs: Self) -> bool;

    /// `self == rhs`.
    fn equals(self, rhs: Self) -> bool;

    /// The value without its sign.
    fn absolute(self) -> Self;

    /// The larger of the two; the other one where one is undefined.
    fn maximum(self, rhs: Self) -> Self;

    /// Neither zero, subnormal, infinite nor undefined.
    fn is_normal(self) -> bool;

    /// The 32 bits in which the renderer reads the value.
    fn to_bits(self) -> u32;
}

/// A point or direction in three dimensions over the scalar `S`.
pub trait Vector<S: Scalar>: Copy {
    fn new(x: S, y: S, z: S) -> Self;

    fn x(self) -> S;

    fn y(self) -> S;

    fn z(self) -> S;

    fn plus(self, rhs: Self) -> Self;

    fn minus(self, rhs: Self) -> Self;

    /// Every component multiplied by `factor`.
    fn scaled(self, factor: S) -> Self;

    /// Every component divided by `divisor`.
    fn divided(self, divisor: S) -> Self;

    fn length(self) -> S;

    /// The squared distance between two points.
    fn distance_squared(self, other: Self) -> S;

    /// The inner product.
    fn dot(self, other: Self) -> S;

    /// The same direction at length one.
    fn normalized(self) -> Self;

    /// The opposite direction.
    fn negated(self) -> Self;
}

/// A rotation in three dimensions, as a quaternion over the scalar `S`.
pub trait Rotation<S: Scalar, V: Vector<S>>: Copy {
    /// The rotation that turns nothing.
    fn identity() -> Self;

    /// The shortest rotation that turns the unit vector `from` into the
    /// unit vector `to`.
    fn from_rotation_arc(from: V, to: V) -> Self;

    /// The inner product of the two quaternions.
    fn dot(self, rhs: Self) -> S;

    /// The same rotation with every lane negated.
    fn negated(self) -> Self;

    /// The sum, lane by lane.
    fn plus(self, rhs: Self) -> Self;

    /// The four lanes `x`, `y`, `z`, `w`.
    fn lanes(self) -> [S; 4];
}

/// `r` is `num / den`.
#[verifier::inline]
pub open spec fn ratio_of<S: Scalar>(num: i32, den: i32, r: S) -> bool {
    call_ensures(S::ratio, (num, den), r)
}

/// `r` is `value` as a real.
#[verifier::inline]
pub open spec fn real_of_u32<S: Scalar>(value: u32, r: S) -> bool {
    call_ensures(S::from_u32, (value,), r)
}

/// `r` is `value` as a real.
#[verifier::inline]
pub open spec fn real_of_i32<S: Scalar>(value: i32, r: S) -> bool {
    call_ensures(S::from_i32, (value,), r)
}

/// `r` is the integer part of `a`.
#[verifier::inline]
pub open spec fn integer_of<S: Scalar>(a: S, r: i32) -> bool {
    call_ensures(S::to_i32, (a,), r)
}

/// `r` is `a` rounded down.
#[verifier::inline]
pub open spec fn floor_of<S: Scalar>(a: S, r: S) -> bool {
    call_ensures(S::floor, (a,), r)
}

/// `r` is `a + b`.
#[verifier::inline]
pub open spec fn sum<S: Scalar>(a: S, b: S, r: S) -> bool {
    call_ensures(S::plus, (a, b), r)
}

/// `r` is `a - b`.
#[verifier::inline]
pub open spec fn difference<S: Scalar>(a: S, b: S, r: S) -> bool {
    call_ensures(S::minus, (a, b), r)
}

/// `r` is `a * b`.
#[verifier::inline]
pub open spec fn product<S: Scalar>(a: S, b: S, r: S) -> bool {
    call_ensures(S::times, (a, b), r)
}

/// `r` is `a / b`.
#[verifier::inline]
pub open spec fn quotient<S: Scalar>(a: S, b: S, r: S) -> bool {
    call_ensures(S::over, (a, b), r)
}

/// `r` is `-a`.
#[verifier::inline]
pub open spec fn negation<S: Scalar>(a: S, r: S) -> bool {
    call_ensures(S::negated, (a,), r)
}

/// `r` tells whether `a < b`.
#[verifier::inline]
pub open spec fn is_less<S: Scalar>(a: S, b: S, r: bool) -> bool {
    call_ensures(S::less, (a, b), r)
}

/// `r` tells whether `a <= b`.
#[verifier::inline]
pub open spec fn is_at_most<S: Scalar>(a: S, b: S, r: bool) -> bool {
    call_ensures(S::at_most, (a, b), r)
}

/// `r` tells whether `a == b`.
#[verifier::inline]
pub open spec fn is_equal<S: Scalar>(a: S, b: S, r: bool) -> bool {
    call_ensures(S::equals, (a, b), r)
}

/// `r` is `a` without its sign.
#[verifier::inline]
pub open spec fn absolute_of<S: Scalar>(a: S, r: S) -> bool {
    call_ensures(S::absolute, (a,), r)
}

/// `r` is the larger of `a` and `b`.
#[verifier::inline]
pub open spec fn maximum_of<S: Scalar>(a: S, b: S, r: S) -> bool {
    call_ensures(S::maximum, (a, b), r)
}

/// `r` tells whether `a` is a normal number.
#[verifier::inline]
pub open spec fn is_normal_of<S: Scalar>(a: S, r: bool) -> bool {
    call_ensures(S::is_normal, (a,), r)
}

/// `r` holds the bits of `a`.
#[verifier::inline]
pub open spec fn bits_of<S: Scalar>(a: S, r: u32) -> bool {
    call_ensures(S::to_bits, (a,), r)
}

/// `r` is the vector `(x, y, z)`.
#[verifier::inline]
pub open spec fn vector_of<S: Scalar, V: Vector<S>>(x: S, y: S, z: S, r: V) -> bool {
    call_ensures(<V as Vector<S>>::new, (x, y, z), r)
}

/// `r` is the first coordinate of `v`.
#[verifier::inline]
pub open spec fn x_of<S: Scalar, V: Vector<S>>(v: V, r: S) -> bool {
    call_ensures(<V as Vector<S>>::x, (v,), r)
}

/// `r` is the second coordinate of `v`.
#[verifier::inline]
pub open spec fn y_of<S: Scalar, V: Vector<S>>(v: V, r: S) -> bool {
    call_ensures(<V as Vector<S>>::y, (v,), r)
}

/// `r` is the third coordinate of `v`.
#[verifier::inline]
pub open spec fn z_of<S: Scalar, V: Vector<S>>(v: V, r: S) -> bool {
    call_ensures(<V as Vector<S>>::z, (v,), r)
}

/// `r` is `a + b`.
#[verifier::inline]
pub open spec fn vsum<S: Scalar, V: Vector<S>>(a: V, b: V, r: V) -> bool {
    call_ensures(<V as Vector<S>>::plus, (a, b), r)
}

/// `r` is `a - b`.
#[verifier::inline]
pub open spec fn vdifference<S: Scalar, V: Vector<S>>(a: V, b: V, r: V) -> bool {
    call_ensures(<V as Vector<S>>::minus, (a, b), r)
}

/// `r` is `a` times `k`.
#[verifier::inline]
pub open spec fn vscaled<S: Scalar, V: Vector<S>>(a: V, k: S, r: V) -> bool {
    call_ensures(<V as Vector<S>>::scaled, (a, k), r)
}

/// `r` is `a` over `k`.
#[verifier::inline]
pub open spec fn vdivided<S: Scalar, V: Vector<S>>(a: V, k: S, r: V) -> bool {
    call_ensures(<V as Vector<S>>::divided, (a, k), r)
}

/// `r` is the length of `a`.
#[verifier::inline]
pub open spec fn length_of<S: Scalar, V: Vector<S>>(a: V, r: S) -> bool {
    call_ensures(<V as Vector<S>>::length, (a,), r)
}

/// `r` is the squared distance from `a` to `b`.
#[verifier::inline]
pub open spec fn distance_squared_of<S: Scalar, V: Vector<S>>(a: V, b: V, r: S) -> bool {
    call_ensures(<V as Vector<S>>::distance_squared, (a, b), r)
}

/// `r` is the inner product of `a` and `b`.
#[verifier::inline]
pub open spec fn dot_of<S: Scalar, V: Vector<S>>(a: V, b: V, r: S) -> bool {
    call_ensures(<V as Vector<S>>::dot, (a, b), r)
}

/// `r` is `a` at length one.
#[verifier::inline]
pub open spec fn normalized_of<S: Scalar, V: Vector<S>>(a: V, r: V) -> bool {
    call_ensures(<V as Vector<S>>::normalized, (a,), r)
}

/// `r` is `-a`.
#[verifier::inline]
pub open spec fn vnegation<S: Scalar, V: Vector<S>>(a: V, r: V) -> bool {
    call_ensures(<V as Vector<S>>::negated, (a,), r)
}

/// `r` is the rotation that turns nothing.
#[verifier::inline]
pub open spec fn identity_rotation<S: Scalar, V: Vector<S>, Q: Rotation<S, V>>(r: Q) -> bool {
    call_ensures(<Q as Rotation<S, V>>::identity, (), r)
}

/// `r` is the shortest rotation that turns `from` into `to`.
#[verifier::inline]
pub open spec fn arc_of<S: Scalar, V: Vector<S>, Q: Rotation<S, V>>(from: V, to: V, r: Q) -> bool {
    call_ensures(<Q as Rotation<S, V>>::from_rotation_arc, (from, to), r)
}

/// `r` is the inner product of `a` and `b`.
#[verifier::inline]
pub open spec fn rdot_of<S: Scalar, V: Vector<S>, Q: Rotation<S, V>>(a: Q, b: Q, r: S) -> bool {
    call_ensures(<Q as Rotation<S, V>>::dot, (a, b), r)
}

/// `r` is `a` with every lane negated.
#[verifier::inline]
pub open spec fn rnegation<S: Scalar, V: Vector<S>, Q: Rotation<S, V>>(a: Q, r: Q) -> bool {
    call_ensures(<Q as Rotation<S, V>>::negated, (a,), r)
}

/// `r` is `a + b`, lane by lane.
#[verifier::inline]
pub open spec fn rsum<S: Scalar, V: Vector<S>, Q: Rotation<S, V>>(a: Q, b: Q, r: Q) -> bool {
    call_ensures(<Q as Rotation<S, V>>::plus, (a, b), r)
}

/// `r` holds the four lanes of `a`.
#[verifier::inline]
pub open spec fn lanes_of_rotation<S: Scalar, V: Vector<S>, Q: Rotation<S, V>>(
    a: Q,
    r: [S; 4],
) -> bool {
    call_ensures(<Q as Rotation<S, V>>::lanes, (a,), r)
}

/// `r` is a zero: `0 / 1`.
#[verifier::inline]
pub open spec fn is_zero<S: Scalar>(r: S) -> bool {
    ratio_of(0, 1, r)
}

/// `r` is a one: `1 / 1`.
#[verifier::inline]
pub open spec fn is_one<S: Scalar>(r: S) -> bool {
    ratio_of(1, 1, r)
}

/// `r` is an origin: the vector of three zeros.
pub open spec fn is_origin<S: Scalar, V: Vector<S>>(r: V) -> bool {
    exists|x: S, y: S, z: S|
        #![trigger vector_of::<S, V>(x, y, z, r)]
        is_zero(x) && is_zero(y) && is_zero(z) && vector_of::<S, V>(x, y, z, r)
}

/// The zero scalar.
pub fn zero<S: Scalar>() -> (r: S)
    ensures
        is_zero(r),
{
    S::ratio(0, 1)
}

/// The origin.
pub fn origin<S: Scalar, V: Vector<S>>() -> (r: V)
    ensures
        is_origin::<S, V>(r),
{
    V::new(S::ratio(0, 1), S::ratio(0, 1), S::ratio(0, 1))
}

} // verus!
