use razed::numeric::{Scalar, Vector};

#[derive(Clone, Copy, Debug, PartialEq, PartialOrd)]
struct Real(f32);

impl Scalar for Real {
    fn ratio(num: i32, den: i32) -> Self {
        Real(num as f32 / den as f32)
    }
    fn from_u32(value: u32) -> Self {
        Real(value as f32)
    }
    fn from_i32(value: i32) -> Self {
        Real(value as f32)
    }
    fn to_i32(self) -> i32 {
        self.0 as i32
    }
    fn floor(self) -> Self {
        Real(self.0.floor())
    }
    fn plus(self, rhs: Self) -> Self {
        Real(self.0 + rhs.0)
    }
    fn minus(self, rhs: Self) -> Self {
        Real(self.0 - rhs.0)
    }
    fn times(self, rhs: Self) -> Self {
        Real(self.0 * rhs.0)
    }
    fn over(self, rhs: Self) -> Self {
        Real(self.0 / rhs.0)
    }
    fn negated(self) -> Self {
        Real(-self.0)
    }
    fn less(self, rhs: Self) -> bool {
        self.0 < rhs.0
    }
    fn at_most(self, rhs: Self) -> bool {
        self.0 <= rhs.0
    }
    fn equals(self, rhs: Self) -> bool {
        self.0 == rhs.0
    }
    fn absolute(self) -> Self {
        Real(self.0.abs())
    }
    fn maximum(self, rhs: Self) -> Self {
        Real(self.0.max(rhs.0))
    }
    fn is_normal(self) -> bool {
        self.0.is_normal()
    }
    fn to_bits(self) -> u32 {
        self.0.to_bits()
    }
}

#[derive(Clone, Copy, Debug, PartialEq)]
struct Point(glam::Vec3);

impl Vector<Real> for Point {
    fn new(x: Real, y: Real, z: Real) -> Self {
        Point(glam::Vec3::new(x.0, y.0, z.0))
    }
    fn x(self) -> Real {
        Real(self.0.x)
    }
    fn y(self) -> Real {
        Real(self.0.y)
    }
    fn z(self) -> Real {
        Real(self.0.z)
    }
    fn plus(self, rhs: Self) -> Self {
        Point(self.0 + rhs.0)
    }
    fn minus(self, rhs: Self) -> Self {
        Point(self.0 - rhs.0)
    }
    fn scaled(self, factor: Real) -> Self {
        Point(self.0 * factor.0)
    }
    fn divided(self, divisor: Real) -> Self {
        Point(self.0 / divisor.0)
    }
    fn length(self) -> Real {
        Real(self.0.length())
    }
    fn distance_squared(self, other: Self) -> Real {
        Real(self.0.distance_squared(other.0))
    }
    fn dot(self, other: Self) -> Real {
        Real(self.0.dot(other.0))
    }
    fn normalized(self) -> Self {
        Point(self.0.normalize())
    }
    fn negated(self) -> Self {
        Point(-self.0)
    }
}

fn point(x: f32, y: f32, z: f32) -> Point {
    Point(glam::Vec3::new(x, y, z))
}

use razed::geometry::{intersect_ray_segment, Line, Ray, Segment};

fn ray(origin: Point, dir: Point) -> Ray<Point> {
    Ray::new(origin, dir)
}

#[test]
fn lines_rays_and_segments_keep_their_points() {
    let line = Line::from_vector(point(1.0, 2.0, 3.0));
    assert_eq!(line.dir, point(1.0, 2.0, 3.0));
    let from = line.into_ray(point(4.0, 5.0, 6.0));
    assert_eq!(from.origin, point(4.0, 5.0, 6.0));
    assert_eq!(from.as_line().dir, point(1.0, 2.0, 3.0));
    let segment = Segment::new(point(1.0, 1.0, 1.0), point(1.0, 4.0, 5.0));
    assert_eq!(segment.direction_u(), point(0.0, 3.0, 4.0));
    assert_eq!(segment.length_squared::<Real>(), Real(25.0));
    assert_eq!(segment.direction(), point(0.0, 0.6, 0.8));
    assert_eq!(segment.to_line().dir, point(0.0, 0.6, 0.8));
}

#[test]
fn a_ray_hits_the_segment_it_crosses() {
    let segment = Segment::new(point(-1.0, 0.0, 5.0), point(1.0, 0.0, 5.0));
    let along_z = ray(point(0.0, 0.0, 0.0), point(0.0, 0.0, 1.0));
    assert_eq!(intersect_ray_segment(along_z, segment, Real(0.05)), Some(Real(5.0)));

    // passing at a distance of 0.04, then of 0.06
    let near = ray(point(0.0, 0.04, 0.0), point(0.0, 0.0, 1.0));
    assert_eq!(intersect_ray_segment(near, segment, Real(0.05)), Some(Real(5.0)));
    let far = ray(point(0.0, 0.06, 0.0), point(0.0, 0.0, 1.0));
    assert_eq!(intersect_ray_segment(far, segment, Real(0.05)), None);

    // beyond the end of the segment
    let beside = ray(point(1.5, 0.0, 0.0), point(0.0, 0.0, 1.0));
    assert_eq!(intersect_ray_segment(beside, segment, Real(0.05)), None);
    assert_eq!(intersect_ray_segment(beside, segment, Real(0.6)), Some(Real(5.0)));

    // behind the origin of the ray
    let away = ray(point(0.0, 0.0, 0.0), point(0.0, 0.0, -1.0));
    assert_eq!(intersect_ray_segment(away, segment, Real(0.05)), None);

    // the direction need not be of length one
    let long = ray(point(0.0, 0.0, 0.0), point(0.0, 0.0, 2.0));
    assert_eq!(intersect_ray_segment(long, segment, Real(0.05)), Some(Real(2.5)));
}

#[test]
fn a_ray_along_the_segment_meets_it() {
    // parallel directions: the point of the segment is chosen first, at
    // t2 = clamp(w . d2 / d2 . d2) = 1, and the ray is measured up to it
    let segment = Segment::new(point(0.0, 0.0, 2.0), point(0.0, 0.0, 4.0));
    let along = ray(point(0.0, 0.0, 0.0), point(0.0, 0.0, 1.0));
    assert_eq!(intersect_ray_segment(along, segment, Real(0.05)), Some(Real(4.0)));
    let beside = ray(point(0.0, 1.0, 0.0), point(0.0, 0.0, 1.0));
    assert_eq!(intersect_ray_segment(beside, segment, Real(0.05)), None);
}

#[test]
fn lines_and_segments_convert_from_their_points() {
    let line: Line<Point> = Line::from(point(1.0, 2.0, 3.0));
    assert_eq!(line.dir, point(1.0, 2.0, 3.0));
    let segment: Segment<Point> = Segment::from((point(1.0, 1.0, 1.0), point(1.0, 4.0, 5.0)));
    assert_eq!(segment.start, point(1.0, 1.0, 1.0));
    assert_eq!(segment.end, point(1.0, 4.0, 5.0));
}
