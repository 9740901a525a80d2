use razed::numeric::{Scalar, Vector};

#[derive(Clone, Copy, Debug, PartialEq, PartialOrd)]
struct Real(f32);

impl Scalar for Real {
    fn ratio(num: i32, den: i32) -> Self {
        Real(num as f32 / den as f32)
    }
    fn from_u32(value: u32) -> Self {
        Real(value as f32)
    }
    fn from_i32(value: i32) -> Self {
        Real(value as f32)
    }
    fn to_i32(self) -> i32 {
        self.0 as i32
    }
    fn floor(self) -> Self {
        Real(self.0.floor())
    }
    fn plus(self, rhs: Self) -> Self {
        Real(self.0 + rhs.0)
    }
    fn minus(self, rhs: Self) -> Self {
        Real(self.0 - rhs.0)
    }
    fn times(self, rhs: Self) -> Self {
        Real(self.0 * rhs.0)
    }
    fn over(self, rhs: Self) -> Self {
        Real(self.0 / rhs.0)
    }
    fn negated(self) -> Self {
        Real(-self.0)
    }
    fn less(self, rhs: Self) -> bool {
        self.0 < rhs.0
    }
    fn at_most(self, rhs: Self) -> bool {
        self.0 <= rhs.0
    }
    fn equals(self, rhs: Self) -> bool {
        self.0 == rhs.0
    }
    fn absolute(self) -> Self {
        Real(self.0.abs())
    }
    fn maximum(self, rhs: Self) -> Self {
        Real(self.0.max(rhs.0))
    }
    fn is_normal(self) -> bool {
        self.0.is_normal()
    }
    fn to_bits(self) -> u32 {
        self.0.to_bits()
    }
}

#[derive(Clone, Copy, Debug, PartialEq)]
struct Point(glam::Vec3);

impl Vector<Real> for Point {
    fn new(x: Real, y: Real, z: Real) -> Self {
        Point(glam::Vec3::new(x.0, y.0, z.0))
    }
    fn x(self) -> Real {
        Real(self.0.x)
    }
    fn y(self) -> Real {
        Real(self.0.y)
    }
    fn z(self) -> Real {
        Real(self.0.z)
    }
    fn plus(self, rhs: Self) -> Self {
        Point(self.0 + rhs.0)
    }
    fn minus(self, rhs: Self) -> Self {
        Point(self.0 - rhs.0)
    }
    fn scaled(self, factor: Real) -> Self {
        Point(self.0 * factor.0)
    }
    fn divided(self, divisor: Real) -> Self {
        Point(self.0 / divisor.0)
    }
    fn length(self) -> Real {
        Real(self.0.length())
    }
    fn distance_squared(self, other: Self) -> Real {
        Real(self.0.distance_squared(other.0))
    }
    fn dot(self, other: Self) -> Real {
        Real(self.0.dot(other.0))
    }
    fn normalized(self) -> Self {
        Point(self.0.normalize())
    }
    fn negated(self) -> Self {
        Point(-self.0)
    }
}

fn point(x: f32, y: f32, z: f32) -> Point {
    Point(glam::Vec3::new(x, y, z))
}

use razed::numeric::Rotation;

#[derive(Clone, Copy, Debug, PartialEq)]
struct Turn(glam::Quat);

impl Rotation<Real, Point> for Turn {
    fn identity() -> Self {
        Turn(glam::Quat::IDENTITY)
    }
    fn from_rotation_arc(from: Point, to: Point) -> Self {
        Turn(glam::Quat::from_rotation_arc(from.0, to.0))
    }
    fn dot(self, rhs: Self) -> Real {
        Real(self.0.dot(rhs.0))
    }
    fn negated(self) -> Self {
        Turn(-self.0)
    }
    fn plus(self, rhs: Self) -> Self {
        Turn(self.0 + rhs.0)
    }
    fn lanes(self) -> [Real; 4] {
        [Real(self.0.x), Real(self.0.y), Real(self.0.z), Real(self.0.w)]
    }
}

use razed::fragment::Weighting;
use razed::geometry::clamp_unit;
use razed::motion::{
    accumulate, breaks, derive_velocity, ground, inverse_mass, predict, project, span,
};
use razed::rotor::{point_to, turn_by};
use razed::skin::weigh;
use razed::state::lanes;
use razed::structure::corner_at;
use razed::voxel::{place_voxel, VoxelCell, VoxelGridOptions};

#[test]
fn prediction_adds_velocity_and_force() {
    // x + h v + h2 f w, with h = 0.5
    let p = predict(
        Real(0.5),
        Real(0.25),
        point(1.0, 2.0, 3.0),
        point(2.0, 0.0, -4.0),
        point(0.0, -8.0, 16.0),
        Real(0.5),
    );
    assert_eq!(p, point(2.0, 1.0, 3.0));
    // a fixed node does not feel the force
    let p = predict(
        Real(0.5),
        Real(0.25),
        point(1.0, 2.0, 3.0),
        point(0.0, 0.0, 0.0),
        point(0.0, -8.0, 16.0),
        Real(0.0),
    );
    assert_eq!(p, point(1.0, 2.0, 3.0));
}

#[test]
fn the_ground_lifts_and_bounces() {
    let bounce = Real(-0.4);
    let friction = Real(0.2);
    let out = ground(
        Real(1.0),
        bounce,
        friction,
        point(3.0, 0.5, 4.0),
        point(3.0, 1.5, 4.5),
        point(10.0, -5.0, -20.0),
    );
    assert_eq!(out.predicted, point(3.0, 1.0, 4.0));
    assert_eq!(out.current, point(3.0, 1.0, 4.5));
    assert_eq!(out.velocity, point(10.0 * 0.2, -5.0 * -0.4, -20.0 * 0.2));

    // on the ground is not below it
    let out = ground(
        Real(1.0),
        bounce,
        friction,
        point(3.0, 1.0, 4.0),
        point(3.0, 1.5, 4.5),
        point(10.0, -5.0, -20.0),
    );
    assert_eq!(out.predicted, point(3.0, 1.0, 4.0));
    assert_eq!(out.current, point(3.0, 1.5, 4.5));
    assert_eq!(out.velocity, point(10.0, -5.0, -20.0));
}

#[test]
fn projection_shares_the_correction_by_inverse_mass() {
    // a link of length 5 along (3, 4, 0) that rests at 3, with the
    // compliance 0.5 over h2 = 0.25 and the multiplier 1
    let out = project(
        Real(0.25),
        Real(1e-7),
        Real(1.0),
        Real(0.5),
        point(3.0, 4.0, 0.0),
        point(0.0, 0.0, 0.0),
        Real(0.5),
        Real(3.0),
        Real(1.0),
    )
    .expect("the link is long enough and one end is free");
    let d_lambda = (-2.0f32 - 2.0 * 1.0) / (1.0 + 0.5 + 2.0);
    assert_eq!(out.lambda, Real(1.0 + d_lambda));
    let gradient = glam::Vec3::new(3.0, 4.0, 0.0) / 5.0;
    assert_eq!(out.push_a.0, gradient * (1.0 * d_lambda));
    assert_eq!(out.push_b.0, gradient * (0.5 * d_lambda));

    // too short
    let none = project(
        Real(0.25),
        Real(1e-7),
        Real(1.0),
        Real(0.5),
        point(0.0, 0.0, 0.0),
        point(0.0, 0.0, 5e-8),
        Real(0.5),
        Real(3.0),
        Real(1.0),
    );
    assert!(none.is_none());
    // both ends fixed
    let none = project(
        Real(0.25),
        Real(1e-7),
        Real(0.0),
        Real(0.0),
        point(3.0, 4.0, 0.0),
        point(0.0, 0.0, 0.0),
        Real(0.5),
        Real(3.0),
        Real(1.0),
    );
    assert!(none.is_none());
}

#[test]
fn strain_is_the_multiplier_over_the_squared_time() {
    let tensile = Real(45000.0);
    let compressive = Real(-15000.0);
    assert!(breaks(Real(0.25), tensile, compressive, Real(11250.0)));
    assert!(!breaks(Real(0.25), tensile, compressive, Real(11249.0)));
    assert!(breaks(Real(0.25), tensile, compressive, Real(-3750.0)));
    assert!(!breaks(Real(0.25), tensile, compressive, Real(-3749.0)));
    assert!(!breaks(Real(0.25), tensile, compressive, Real(0.0)));
    // no strain without time: 0 / 0 compares with nothing
    assert!(!breaks(Real(0.0), tensile, compressive, Real(0.0)));
}

#[test]
fn small_kernels_follow_their_formulas() {
    assert_eq!(
        derive_velocity(Real(0.5), point(3.0, 2.0, 1.0), point(1.0, 2.0, 3.0)),
        point(4.0, 0.0, -4.0)
    );
    assert_eq!(inverse_mass(Real(1.0), Real(4.0), false), Real(0.25));
    assert_eq!(inverse_mass(Real(1.0), Real(4.0), true), Real(0.0));
    assert_eq!(inverse_mass(Real(1.0), Real(0.0), false), Real(0.0));
    assert_eq!(inverse_mass(Real(1.0), Real(f32::INFINITY), false), Real(0.0));
    assert_eq!(inverse_mass(Real(1.0), Real(f32::NAN), false), Real(0.0));
    assert_eq!(span(point(1.0, 1.0, 1.0), point(4.0, 5.0, 1.0)), Real(5.0));
    assert_eq!(
        accumulate(point(1.0, -2.0, 0.5), Real(4.0), point(1.0, 1.0, 1.0)),
        point(5.0, -7.0, 3.0)
    );
    assert_eq!(clamp_unit(Real(-0.5)), Real(0.0));
    assert_eq!(clamp_unit(Real(0.25)), Real(0.25));
    assert_eq!(clamp_unit(Real(7.0)), Real(1.0));
    assert_eq!(
        lanes(point(1.0, 2.0, 3.0), Real(9.0)),
        [Real(1.0), Real(2.0), Real(3.0), Real(9.0)]
    );
    assert_eq!(
        corner_at(point(10.0, 20.0, 30.0), Real(-1.0), Real(2.0), Real(3.0)),
        point(9.0, 22.0, 33.0)
    );
    assert_eq!(point_to(point(1.0, 1.0, 1.0), point(1.0, 1.0, 4.0)), point(0.0, 0.0, 1.0));
}

#[test]
fn weights_follow_the_weighting() {
    let voxel = point(0.0, 0.0, 0.0);
    let parent = point(1.0, 2.0, 2.0);
    assert_eq!(weigh(Weighting::DistanceSquared, voxel, parent), Real(9.0));
    assert_eq!(
        weigh(Weighting::InverseDistanceSquared { epsilon: Real(1.0) }, voxel, parent),
        Real(0.1)
    );
    assert_eq!(
        weigh(Weighting::InverseDistanceSquared { epsilon: Real(0.5) }, voxel, voxel),
        Real(2.0)
    );
}

#[test]
fn a_voxel_lies_at_its_share_of_the_grid() {
    let options = VoxelGridOptions::new(Real(12.0), Real(24.0), Real(16.0), 1);
    // centre + cell / extent * size + offset
    let place = place_voxel(
        point(100.0, 0.0, 0.0),
        Real(12.0),
        Real(24.0),
        Real(16.0),
        &options,
        VoxelCell { x: 6, y: -12, z: 4 },
        point(0.0, 0.5, 0.0),
    );
    assert_eq!(place, point(106.0, -11.5, 4.0));
    // a denser grid has more cells on the same length
    let place = place_voxel(
        point(0.0, 0.0, 0.0),
        Real(24.0),
        Real(48.0),
        Real(32.0),
        &options,
        VoxelCell { x: 6, y: -12, z: 4 },
        point(0.0, 0.0, 0.0),
    );
    assert_eq!(place, point(3.0, -6.0, 2.0));
}

#[test]
fn arcs_are_added_on_the_side_of_the_sum() {
    let none = Real(0.0);
    let x = point(1.0, 0.0, 0.0);
    let y = point(0.0, 1.0, 0.0);
    let start = Turn(glam::Quat::IDENTITY);
    let next = turn_by(none, x, y, start);
    let arc = glam::Quat::from_rotation_arc(glam::Vec3::X, glam::Vec3::Y);
    assert_eq!(next.0, glam::Quat::IDENTITY + arc);
    // an arc on the far side of the sum is negated before it is added
    let far = Turn(-glam::Quat::IDENTITY);
    let next = turn_by(none, x, y, far);
    assert_eq!(next.0, -glam::Quat::IDENTITY + -arc);
}
