//! The equations of motion, one row at a time.
//!
//! Every function here computes what one node or one link needs in one
//! phase of a substep, and its contract names the operations that the
//! result came out of. The solver applies them row by row.

use vstd::prelude::*;
use crate::numeric::{
    Scalar,
    Vector,
    is_normal_of,
    is_zero,
    real_of_u32,
    zero,
    difference,
    is_at_most,
    is_less,
    length_of,
    negation,
    product,
    quotient,
    sum,
    vdifference,
    vdivided,
    vector_of,
    vscaled,
    vsum,
    x_of,
    y_of,
    z_of,
};

verus! {

/// `p` is where a node at `x` with velocity `v`, force `f` and inverse mass
/// `w` would be after the time `h`, whose square is `h2`, if nothing held it:
/// `x + h v + h2 f w`.
pub open spec fn predicted<S: Scalar, V: Vector<S>>(h: S, h2: S, x: V, v: V, f: V, w: S, p: V) -> bool {
    exists|hv: V, xv: V, hf: V, hfw: V|
        #![auto]
        vscaled::<S, V>(v, h, hv) && vsum::<S, V>(x, hv, xv) && vscaled::<S, V>(f, h2, hf)
            && vscaled::<S, V>(hf, w, hfw) && vsum::<S, V>(xv, hfw, p)
}

/// The predicted position of one node.
pub fn predict<S: Scalar, V: Vector<S>>(h: S, h2: S, x: V, v: V, f: V, w: S) -> (p: V)
    ensures
        predicted(h, h2, x, v, f, w, p),
{
    x.plus(v.scaled(h)).plus(f.scaled(h2).scaled(w))
}

/// `r` is `p` with its height replaced by `level`.
pub open spec fn on_level<S: Scalar, V: Vector<S>>(level: S, p: V, r: V) -> bool {
    exists|px: S, pz: S|
        #![auto]
        x_of::<S, V>(p, px) && z_of::<S, V>(p, pz) && vector_of::<S, V>(px, level, pz, r)
}

/// `r` is `v` after a bounce: the height scaled by `bounce`, the other two
/// coordinates by `friction`.
pub open spec fn bounced<S: Scalar, V: Vector<S>>(bounce: S, friction: S, v: V, r: V) -> bool {
    exists|vx: S, vy: S, vz: S, fx: S, by: S, fz: S|
        #![auto]
        x_of::<S, V>(v, vx) && product(vx, friction, fx) && y_of::<S, V>(v, vy) && product(
            vy,
            bounce,
            by,
        ) && z_of::<S, V>(v, vz) && product(vz, friction, fz) && vector_of::<S, V>(fx, by, fz, r)
}

/// A node after the ground had its say: predicted position, current
/// position, velocity.
pub struct Landing<V> {
    pub predicted: V,
    pub current: V,
    pub velocity: V,
}

/// `out` is the node `(p, x, v)` after the ground at `level`: a node
/// predicted below the ground is lifted onto it, with both positions, and
/// bounces; any other node is left as it is.
pub open spec fn grounded<S: Scalar, V: Vector<S>>(
    level: S,
    bounce: S,
    friction: S,
    p: V,
    x: V,
    v: V,
    out: Landing<V>,
) -> bool {
    exists|height: S, below: bool|
        #![auto]
        y_of::<S, V>(p, height) && is_less(height, level, below) && if below {
            on_level(level, p, out.predicted) && on_level(level, x, out.current) && bounced(
                bounce,
                friction,
                v,
                out.velocity,
            )
        } else {
            out.predicted == p && out.current == x && out.velocity == v
        }
}

/// One node after the ground had its say.
pub fn ground<S: Scalar, V: Vector<S>>(level: S, bounce: S, friction: S, p: V, x: V, v: V) -> (out:
    Landing<V>)
    ensures
        grounded(level, bounce, friction, p, x, v, out),
{
    if p.y().less(level) {
        Landing {
            predicted: V::new(p.x(), level, p.z()),
            current: V::new(x.x(), level, x.z()),
            velocity: V::new(v.x().times(friction), v.y().times(bounce), v.z().times(friction)),
        }
    } else {
        Landing { predicted: p, current: x, velocity: v }
    }
}

/// What the projection of one link yields: the new multiplier, and how far
/// to push the first end forward and the second end back.
pub struct Correction<S, V> {
    pub lambda: S,
    pub push_a: V,
    pub push_b: V,
}

/// `d_y` is how much the multiplier `y` of a link grows in one projection:
/// `(-(dist - rest) - alpha y) / (w_a + w_b + alpha)`, for a link of length
/// `dist` that rests at `rest`, between ends of the inverse masses `w_a` and
/// `w_b`, with the compliance `alpha` over the squared time.
pub open spec fn growth<S: Scalar>(w_a: S, w_b: S, dist: S, alpha: S, rest: S, y: S, d_y: S) -> bool {
    exists|constraint: S, pull: S, held: S, num: S, both: S, den: S|
        #![auto]
        difference(dist, rest, constraint) && negation(constraint, pull) && product(alpha, y, held)
            && difference(pull, held, num) && sum(w_a, w_b, both) && sum(both, alpha, den)
            && quotient(num, den, d_y)
}

/// `push` is how far an end of the inverse mass `w` moves along `gradient`
/// when the multiplier grows by `d_y`: `(w d_y) gradient`.
pub open spec fn along<S: Scalar, V: Vector<S>>(gradient: V, w: S, d_y: S, push: V) -> bool {
    exists|k: S| #![auto] product(w, d_y, k) && vscaled::<S, V>(gradient, k, push)
}

/// `out` corrects a link of length `dist` along `d`: the multiplier `y`
/// grows by its [`growth`], and each end is pushed [`along`] `d / dist`.
pub open spec fn corrected<S: Scalar, V: Vector<S>>(
    w_a: S,
    w_b: S,
    d: V,
    dist: S,
    alpha: S,
    rest: S,
    y: S,
    out: Correction<S, V>,
) -> bool {
    exists|d_y: S, gradient: V|
        #![trigger growth(w_a, w_b, dist, alpha, rest, y, d_y), along(gradient, w_a, d_y, out.push_a)]
        growth(w_a, w_b, dist, alpha, rest, y, d_y) && sum(y, d_y, out.lambda) && vdivided::<S, V>(
            d,
            dist,
            gradient,
        ) && along(gradient, w_a, d_y, out.push_a) && along(gradient, w_b, d_y, out.push_b)
}

/// `out` is the projection of a link of length `dist` along `d` that is
/// not too short: none when the inverse masses of its ends add up to less
/// than `tolerance`; else the correction with the compliance
/// `inv_stiffness / h2`.
pub open spec fn stretched<S: Scalar, V: Vector<S>>(
    h2: S,
    tolerance: S,
    w_a: S,
    w_b: S,
    d: V,
    dist: S,
    inv_stiffness: S,
    rest: S,
    y: S,
    out: Option<Correction<S, V>>,
) -> bool {
    exists|alpha: S, w_t: S, fixed: bool|
        #![trigger quotient(inv_stiffness, h2, alpha), is_less(w_t, tolerance, fixed)]
        quotient(inv_stiffness, h2, alpha) && sum(w_a, w_b, w_t) && is_less(w_t, tolerance, fixed)
            && if fixed {
            out.is_none()
        } else {
            out.is_some() && corrected(w_a, w_b, d, dist, alpha, rest, y, out.unwrap())
        }
}

/// `out` is the projection of the link between the ends at `p_a` and `p_b`:
/// none when the link is shorter than `tolerance`; else as [`stretched`]
/// says, along `p_a - p_b`.
pub open spec fn projected<S: Scalar, V: Vector<S>>(
    h2: S,
    tolerance: S,
    w_a: S,
    w_b: S,
    p_a: V,
    p_b: V,
    inv_stiffness: S,
    rest: S,
    y: S,
    out: Option<Correction<S, V>>,
) -> bool {
    exists|d: V, dist: S, short: bool|
        #![trigger length_of::<S, V>(d, dist), is_less(dist, tolerance, short)]
        vdifference::<S, V>(p_a, p_b, d) && length_of::<S, V>(d, dist) && is_less(
            dist,
            tolerance,
            short,
        ) && if short {
            out.is_none()
        } else {
            stretched(h2, tolerance, w_a, w_b, d, dist, inv_stiffness, rest, y, out)
        }
}

/// The projection of one link.
pub fn project<S: Scalar, V: Vector<S>>(
    h2: S,
    tolerance: S,
    w_a: S,
    w_b: S,
    p_a: V,
    p_b: V,
    inv_stiffness: S,
    rest: S,
    y: S,
) -> (out: Option<Correction<S, V>>)
    ensures
        projected(h2, tolerance, w_a, w_b, p_a, p_b, inv_stiffness, rest, y, out),
{
    let d: V = p_a.minus(p_b);
    let dist: S = d.length();
    if dist.less(tolerance) {
        return None;
    }
    let alpha: S = inv_stiffness.over(h2);
    let w_t: S = w_a.plus(w_b);
    if w_t.less(tolerance) {
        let out: Option<Correction<S, V>> = None;
        assert(stretched(h2, tolerance, w_a, w_b, d, dist, inv_stiffness, rest, y, out));
        return out;
    }
    let constraint: S = dist.minus(rest);
    let d_y: S = constraint.negated().minus(alpha.times(y)).over(w_a.plus(w_b).plus(alpha));
    let lambda: S = y.plus(d_y);
    let gradient: V = d.divided(dist);
    let correction = Correction {
        lambda,
        push_a: gradient.scaled(w_a.times(d_y)),
        push_b: gradient.scaled(w_b.times(d_y)),
    };
    let out = Some(correction);
    proof {
        assert(growth(w_a, w_b, dist, alpha, rest, y, d_y));
        assert(along(gradient, w_a, d_y, correction.push_a));
        assert(along(gradient, w_b, d_y, correction.push_b));
        assert(corrected(w_a, w_b, d, dist, alpha, rest, y, correction));
        assert(stretched(h2, tolerance, w_a, w_b, d, dist, inv_stiffness, rest, y, out));
    }
    out
}

/// `r` tells whether a link with the multiplier `lambda` breaks: whether
/// `lambda / h2` is at least `tensile` or at most `compressive`.
pub open spec fn strained<S: Scalar>(h2: S, tensile: S, compressive: S, lambda: S, r: bool) -> bool {
    exists|strain: S, torn: bool|
        #![auto]
        quotient(lambda, h2, strain) && is_at_most(tensile, strain, torn) && if torn {
            r
        } else {
            is_at_most(strain, compressive, r)
        }
}

/// Whether one link breaks.
pub fn breaks<S: Scalar>(h2: S, tensile: S, compressive: S, lambda: S) -> (r: bool)
    ensures
        strained(h2, tensile, compressive, lambda, r),
{
    let strain: S = lambda.over(h2);
    tensile.at_most(strain) || strain.at_most(compressive)
}

/// `v` is the velocity of a node that moved from `x` to `p` in the time
/// `h`: `(p - x) / h`.
pub open spec fn derived<S: Scalar, V: Vector<S>>(h: S, p: V, x: V, v: V) -> bool {
    exists|moved: V| #![auto] vdifference::<S, V>(p, x, moved) && vdivided::<S, V>(moved, h, v)
}

/// The velocity of one node after a substep.
pub fn derive_velocity<S: Scalar, V: Vector<S>>(h: S, p: V, x: V) -> (v: V)
    ensures
        derived(h, p, x, v),
{
    p.minus(x).divided(h)
}

/// `w` is the inverse of `mass`: `one / mass`, or a zero for a node that is
/// fixed or where the quotient is not a normal number.
pub open spec fn inverse_of<S: Scalar>(one: S, mass: S, fixed: bool, w: S) -> bool {
    exists|inverse: S, normal: bool|
        #![trigger is_normal_of(inverse, normal)]
        quotient(one, mass, inverse) && is_normal_of(inverse, normal) && if !normal || fixed {
            is_zero(w)
        } else {
            w == inverse
        }
}

/// The inverse mass of one node.
pub fn inverse_mass<S: Scalar>(one: S, mass: S, fixed: bool) -> (w: S)
    ensures
        inverse_of(one, mass, fixed, w),
{
    let inverse: S = one.over(mass);
    if !inverse.is_normal() || fixed {
        zero::<S>()
    } else {
        inverse
    }
}

/// `r` is the distance from `p_b` to `p_a`: the length of `p_a - p_b`.
pub open spec fn spanned<S: Scalar, V: Vector<S>>(p_a: V, p_b: V, r: S) -> bool {
    exists|d: V| #![auto] vdifference::<S, V>(p_a, p_b, d) && length_of::<S, V>(d, r)
}

/// The distance between two points.
pub fn span<S: Scalar, V: Vector<S>>(p_a: V, p_b: V) -> (r: S)
    ensures
        spanned(p_a, p_b, r),
{
    p_a.minus(p_b).length()
}

/// `h` is the time of one of `substeps` substeps that share `delta`, and
/// `h2` is its square: `delta / substeps` and `h h`.
pub open spec fn timed<S: Scalar>(substeps: u32, delta: S, h: S, h2: S) -> bool {
    exists|parts: S| #![auto] real_of_u32(substeps, parts) && quotient(delta, parts, h) && product(h, h, h2)
}

/// `r` is the force `f` on a node of the mass `mass` after it was pushed by
/// `force`: `f + force mass`.
pub open spec fn pushed_by<S: Scalar, V: Vector<S>>(force: V, mass: S, f: V, r: V) -> bool {
    exists|push: V| #![auto] vscaled::<S, V>(force, mass, push) && vsum::<S, V>(f, push, r)
}

/// The force on one node after a push.
pub fn accumulate<S: Scalar, V: Vector<S>>(force: V, mass: S, f: V) -> (r: V)
    ensures
        pushed_by(force, mass, f, r),
{
    f.plus(force.scaled(mass))
}

} // verus!
