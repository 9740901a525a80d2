//! Lines, rays and segments, and where a ray passes a segment.

use vstd::prelude::*;
use vstd::std_specs::convert::FromSpecImpl;
use crate::numeric::{
    Scalar,
    Vector,
    absolute_of,
    difference,
    distance_squared_of,
    dot_of,
    is_at_most,
    is_equal,
    is_less,
    is_one,
    is_zero,
    length_of,
    maximum_of,
    product,
    quotient,
    ratio_of,
    sum,
    vdifference,
    vdivided,
    vscaled,
    vsum,
    zero,
};

verus! {

/// Two directions count as parallel when the determinant of their inner
/// products is below one part in `PARALLEL_DEN`.
pub const PARALLEL_DEN: i32 = 100_000;

/// A direction through the origin.
#[derive(Clone, Copy, Debug)]
pub struct Line<V> {
    pub dir: V,
}

impl<V: Copy> Line<V> {
    pub fn from_vector(vector: V) -> (line: Self)
        ensures
            line.dir == vector,
    {
        Line { dir: vector }
    }

    /// The ray along this line that starts at `p`.
    pub fn into_ray(self, p: V) -> (ray: Ray<V>)
        ensures
            ray.origin == p,
            ray.line == self,
    {
        Ray { origin: p, line: self }
    }
}

impl<V: Copy> From<V> for Line<V> {
    fn from(value: V) -> (line: Self) {
        Line { dir: value }
    }
}

impl<V: Copy> FromSpecImpl<V> for Line<V> {
    open spec fn obeys_from_spec() -> bool {
        true
    }

    open spec fn from_spec(value: V) -> Self {
        Line { dir: value }
    }
}

/// A half line: a start and a direction.
#[derive(Clone, Copy, Debug)]
pub struct Ray<V> {
    pub origin: V,
    pub line: Line<V>,
}

impl<V: Copy> Ray<V> {
    pub fn new(origin: V, dir: V) -> (ray: Self)
        ensures
            ray.origin == origin,
            ray.line.dir == dir,
    {
        Ray { origin, line: Line { dir } }
    }

    pub fn as_line(self) -> (line: Line<V>)
        ensures
            line == self.line,
    {
        self.line
    }
}

/// The stretch between two points.
#[derive(Clone, Copy, Debug)]
pub struct Segment<V> {
    pub start: V,
    pub end: V,
}

/// `r` is the direction from `start` to `end` at length one: their
/// difference over its length.
pub open spec fn directed<S: Scalar, V: Vector<S>>(start: V, end: V, r: V) -> bool {
    exists|d: V, long: S|
        #![auto]
        vdifference::<S, V>(end, start, d) && length_of::<S, V>(d, long) && vdivided::<S, V>(
            d,
            long,
            r,
        )
}

impl<V: Copy> From<(V, V)> for Segment<V> {
    fn from(ends: (V, V)) -> (segment: Self) {
        Segment { start: ends.0, end: ends.1 }
    }
}

impl<V: Copy> FromSpecImpl<(V, V)> for Segment<V> {
    open spec fn obeys_from_spec() -> bool {
        true
    }

    open spec fn from_spec(ends: (V, V)) -> Self {
        Segment { start: ends.0, end: ends.1 }
    }
}

impl<V: Copy> Segment<V> {
    pub fn new(a: V, b: V) -> (segment: Self)
        ensures
            segment.start == a,
            segment.end == b,
    {
        Segment { start: a, end: b }
    }

    /// The line along the segment, at length one.
    pub fn to_line<S: Scalar>(self) -> (line: Line<V>) where V: Vector<S>
        ensures
            directed::<S, V>(self.start, self.end, line.dir),
    {
        Line::from_vector(self.direction())
    }

    /// The direction from start to end, at length one.
    pub fn direction<S: Scalar>(&self) -> (r: V) where V: Vector<S>
        ensures
            directed::<S, V>(self.start, self.end, r),
    {
        let d: V = self.direction_u();
        d.divided(d.length())
    }

    /// The end minus the start.
    pub fn direction_u<S: Scalar>(&self) -> (r: V) where V: Vector<S>
        ensures
            vdifference::<S, V>(self.end, self.start, r),
    {
        self.end.minus(self.start)
    }

    pub fn length_squared<S: Scalar>(&self) -> (r: S) where V: Vector<S>
        ensures
            distance_squared_of::<S, V>(self.start, self.end, r),
    {
        self.start.distance_squared(self.end)
    }
}

/// `r` is `value` held between zero and one.
pub open spec fn unit_clamped<S: Scalar>(value: S, r: S) -> bool {
    exists|none: S, one: S, low: bool|
        #![trigger is_one(one), is_less(value, none, low)]
        is_zero(none) && is_one(one) && is_less(value, none, low) && if low {
            r == none
        } else {
            exists|high: bool|
                #![trigger is_less(one, value, high)]
                is_less(one, value, high) && r == if high {
                    one
                } else {
                    value
                }
        }
}

/// `value` held between zero and one.
pub fn clamp_unit<S: Scalar>(value: S) -> (r: S)
    ensures
        unit_clamped(value, r),
{
    let none: S = zero::<S>();
    let one: S = S::ratio(1, 1);
    if value.less(none) {
        none
    } else if one.less(value) {
        one
    } else {
        value
    }
}

/// The inner products that the nearest points of a ray and a segment are
/// found from, and the direction of the segment.
pub struct Measures<S, V> {
    /// The direction of the segment: its end minus its start.
    pub d2: V,
    /// The ray's direction with itself.
    pub a: S,
    /// The segment's direction with itself.
    pub e: S,
    /// The two directions with one another.
    pub b: S,
    /// The way from the ray's origin to the segment's start, with the ray's
    /// direction.
    pub c: S,
    /// The same way with the segment's direction.
    pub f: S,
}

/// `m` holds the measures of `ray` and `segment`.
pub open spec fn measured<S: Scalar, V: Vector<S>>(
    ray: Ray<V>,
    segment: Segment<V>,
    m: Measures<S, V>,
) -> bool {
    exists|w: V|
        #![trigger vdifference::<S, V>(segment.start, ray.origin, w)]
        vdifference::<S, V>(segment.end, segment.start, m.d2) && vdifference::<S, V>(
            segment.start,
            ray.origin,
            w,
        ) && dot_of::<S, V>(ray.line.dir, ray.line.dir, m.a) && dot_of::<S, V>(m.d2, m.d2, m.e)
            && dot_of::<S, V>(ray.line.dir, m.d2, m.b) && dot_of::<S, V>(w, ray.line.dir, m.c)
            && dot_of::<S, V>(w, m.d2, m.f)
}

/// The measures of a ray and a segment.
pub fn measure<S: Scalar, V: Vector<S>>(ray: Ray<V>, segment: Segment<V>) -> (m: Measures<S, V>)
    ensures
        measured(ray, segment, m),
{
    let d1: V = ray.line.dir;
    let d2: V = segment.direction_u();
    let w: V = segment.start.minus(ray.origin);
    let a: S = d1.dot(d1);
    let e: S = d2.dot(d2);
    let b: S = d1.dot(d2);
    let c: S = w.dot(d1);
    let f: S = w.dot(d2);
    Measures { d2, a, e, b, c, f }
}

/// `t1` is how far along the ray the point nearest to the point `t2` of
/// the segment lies, but not behind the origin: `(c + b t2) / a`, or zero
/// if that is more.
pub open spec fn opposite<S: Scalar, V: Vector<S>>(m: Measures<S, V>, none: S, t2: S, t1: S) -> bool {
    exists|bt: S, s: S, q: S|
        #![auto]
        product(m.b, t2, bt) && sum(m.c, bt, s) && quotient(s, m.a, q) && maximum_of(q, none, t1)
}

/// How far along the ray the point nearest to a point of the segment lies.
pub fn oppose<S: Scalar, V: Vector<S>>(m: &Measures<S, V>, none: S, t2: S) -> (t1: S)
    ensures
        opposite(*m, none, t2, t1),
{
    m.c.plus(m.b.times(t2)).over(m.a).maximum(none)
}

/// `denom` is the determinant of the measures: `a e - b b`.
pub open spec fn determinant<S: Scalar, V: Vector<S>>(m: Measures<S, V>, denom: S) -> bool {
    exists|ae: S, bb: S| #![auto] product(m.a, m.e, ae) && product(m.b, m.b, bb) && difference(ae, bb, denom)
}

/// `r` is `(x y - z w) / denom`.
pub open spec fn crossed<S: Scalar>(x: S, y: S, z: S, w: S, denom: S, r: S) -> bool {
    exists|xy: S, zw: S, n: S|
        #![auto]
        product(x, y, xy) && product(z, w, zw) && difference(xy, zw, n) && quotient(n, denom, r)
}

/// `(x y - z w) / denom`.
pub fn cross<S: Scalar>(x: S, y: S, z: S, w: S, denom: S) -> (r: S)
    ensures
        crossed(x, y, z, w, denom, r),
{
    x.times(y).minus(z.times(w)).over(denom)
}

/// `t1` and `t2` are the parameters, on the ray and on the segment, of the
/// nearest points for directions that are parallel: on the segment, `f / e` held between zero and one; on the
/// ray, the point opposite.
pub open spec fn nearest_parallel<S: Scalar, V: Vector<S>>(
    m: Measures<S, V>,
    none: S,
    t1: S,
    t2: S,
) -> bool {
    exists|fe: S|
        #![trigger quotient(m.f, m.e, fe)]
        quotient(m.f, m.e, fe) && unit_clamped(fe, t2) && opposite(m, none, t2, t1)
}

/// `t1` and `t2` are the parameters, on the ray and on the segment, of the
/// nearest points for directions that cross: the nearest points of the two lines, `(e c - b f) / denom` on the
/// ray and `(b c - a f) / denom` on the segment; where the latter falls
/// off the segment, the end of the segment and the point opposite; and on
/// the ray, not behind the origin.
pub open spec fn nearest_crossing<S: Scalar, V: Vector<S>>(
    m: Measures<S, V>,
    none: S,
    denom: S,
    t1: S,
    t2: S,
) -> bool {
    exists|free1: S, free2: S, same: bool|
        #![trigger crossed(m.e, m.c, m.b, m.f, denom, free1), is_equal(free2, t2, same)]
        crossed(m.e, m.c, m.b, m.f, denom, free1) && crossed(m.b, m.c, m.a, m.f, denom, free2)
            && unit_clamped(free2, t2) && is_equal(free2, t2, same) && if same {
            maximum_of(free1, none, t1)
        } else {
            opposite(m, none, t2, t1)
        }
}

/// `t1` and `t2` are the parameters, on the ray and on the segment, of the
/// points where the two come nearest: as for parallel directions when the
/// determinant is less than one part in `PARALLEL_DEN`, else as for
/// crossing ones.
pub open spec fn nearest<S: Scalar, V: Vector<S>>(m: Measures<S, V>, none: S, t1: S, t2: S) -> bool {
    exists|denom: S, size: S, limit: S, parallel: bool|
        #![trigger absolute_of(denom, size), is_less(size, limit, parallel)]
        determinant(m, denom) && absolute_of(denom, size) && ratio_of(1, PARALLEL_DEN, limit)
            && is_less(size, limit, parallel) && if parallel {
            nearest_parallel(m, none, t1, t2)
        } else {
            nearest_crossing(m, none, denom, t1, t2)
        }
}

/// The parameters of the points where a ray and a segment come nearest.
pub fn approach<S: Scalar, V: Vector<S>>(m: &Measures<S, V>, none: S) -> (t: (S, S))
    ensures
        nearest(*m, none, t.0, t.1),
{
    let denom: S = m.a.times(m.e).minus(m.b.times(m.b));
    proof {
        assert(determinant(*m, denom));
    }
    if denom.absolute().less(S::ratio(1, PARALLEL_DEN)) {
        let t2: S = clamp_unit(m.f.over(m.e));
        let t1: S = oppose(m, none, t2);
        assert(nearest_parallel(*m, none, t1, t2));
        (t1, t2)
    } else {
        let free1: S = cross(m.e, m.c, m.b, m.f, denom);
        let free2: S = cross(m.b, m.c, m.a, m.f, denom);
        let t2: S = clamp_unit(free2);
        let t1: S = if !free2.equals(t2) {
            oppose(m, none, t2)
        } else {
            free1.maximum(none)
        };
        assert(nearest_crossing(*m, none, denom, t1, t2));
        (t1, t2)
    }
}

/// `p` is the point `from + t along`.
pub open spec fn reached<S: Scalar, V: Vector<S>>(from: V, along: V, t: S, p: V) -> bool {
    exists|way: V| #![auto] vscaled::<S, V>(along, t, way) && vsum::<S, V>(from, way, p)
}

/// `r` is `Some(t1)` when the point of the ray at `t1` and the point of
/// the segment at `t2` are no farther apart than `threshold`, else `None`.
pub open spec fn touching<S: Scalar, V: Vector<S>>(
    ray: Ray<V>,
    segment: Segment<V>,
    d2: V,
    t1: S,
    t2: S,
    threshold: S,
    r: Option<S>,
) -> bool {
    exists|on_ray: V, on_segment: V, apart: S, reach: S, near: bool|
        #![trigger reached(ray.origin, ray.line.dir, t1, on_ray), reached(segment.start, d2, t2, on_segment), is_at_most(apart, reach, near)]
        reached(ray.origin, ray.line.dir, t1, on_ray) && reached(
            segment.start,
            d2,
            t2,
            on_segment,
        ) && distance_squared_of::<S, V>(on_ray, on_segment, apart) && product(
            threshold,
            threshold,
            reach,
        ) && is_at_most(apart, reach, near) && r == if near {
            Some(t1)
        } else {
            None
        }
}

/// `r` tells how far along `ray` it comes nearest to `segment`, if it comes
/// within `threshold` of it.
pub open spec fn intersected<S: Scalar, V: Vector<S>>(
    ray: Ray<V>,
    segment: Segment<V>,
    threshold: S,
    r: Option<S>,
) -> bool {
    exists|m: Measures<S, V>, none: S, t1: S, t2: S|
        #![trigger measured(ray, segment, m), nearest(m, none, t1, t2)]
        measured(ray, segment, m) && is_zero(none) && nearest(m, none, t1, t2) && touching(
            ray,
            segment,
            m.d2,
            t1,
            t2,
            threshold,
            r,
        )
}

/// How far along `ray` it comes nearest to `segment`, if it comes within
/// `threshold` of it: the parameter `t` of the point `origin + t dir`. The
/// nearest point is sought on the segment itself, not beyond its ends, and
/// on the ray from its origin on.
pub fn intersect_ray_segment<S: Scalar, V: Vector<S>>(ray: Ray<V>, segment: Segment<V>, threshold: S) -> (r:
    Option<S>)
    ensures
        intersected(ray, segment, threshold, r),
{
    let none: S = zero::<S>();
    let m: Measures<S, V> = measure(ray, segment);
    let t: (S, S) = approach(&m, none);
    let on_ray: V = ray.origin.plus(ray.line.dir.scaled(t.0));
    let on_segment: V = segment.start.plus(m.d2.scaled(t.1));
    let apart: S = on_ray.distance_squared(on_segment);
    let r: Option<S> = if apart.at_most(threshold.times(threshold)) {
        Some(t.0)
    } else {
        None
    };
    proof {
        assert(reached(ray.origin, ray.line.dir, t.0, on_ray));
        assert(reached(segment.start, m.d2, t.1, on_segment));
        assert(touching(ray, segment, m.d2, t.0, t.1, threshold, r));
    }
    r
}

} // verus!
