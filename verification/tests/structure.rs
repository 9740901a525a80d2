use razed::numeric::{Scalar, Vector};

#[derive(Clone, Copy, Debug, PartialEq, PartialOrd)]
struct Real(f32);

impl Scalar for Real {
    fn ratio(num: i32, den: i32) -> Self {
        Real(num as f32 / den as f32)
    }
    fn from_u32(value: u32) -> Self {
        Real(value as f32)
    }
    fn from_i32(value: i32) -> Self {
        Real(value as f32)
    }
    fn to_i32(self) -> i32 {
        self.0 as i32
    }
    fn floor(self) -> Self {
        Real(self.0.floor())
    }
    fn plus(self, rhs: Self) -> Self {
        Real(self.0 + rhs.0)
    }
    fn minus(self, rhs: Self) -> Self {
        Real(self.0 - rhs.0)
    }
    fn times(self, rhs: Self) -> Self {
        Real(self.0 * rhs.0)
    }
    fn over(self, rhs: Self) -> Self {
        Real(self.0 / rhs.0)
    }
    fn negated(self) -> Self {
        Real(-self.0)
    }
    fn less(self, rhs: Self) -> bool {
        self.0 < rhs.0
    }
    fn at_most(self, rhs: Self) -> bool {
        self.0 <= rhs.0
    }
    fn equals(self, rhs: Self) -> bool {
        self.0 == rhs.0
    }
    fn absolute(self) -> Self {
        Real(self.0.abs())
    }
    fn maximum(self, rhs: Self) -> Self {
        Real(self.0.max(rhs.0))
    }
    fn is_normal(self) -> bool {
        self.0.is_normal()
    }
    fn to_bits(self) -> u32 {
        self.0.to_bits()
    }
}

#[derive(Clone, Copy, Debug, PartialEq)]
struct Point(glam::Vec3);

impl Vector<Real> for Point {
    fn new(x: Real, y: Real, z: Real) -> Self {
        Point(glam::Vec3::new(x.0, y.0, z.0))
    }
    fn x(self) -> Real {
        Real(self.0.x)
    }
    fn y(self) -> Real {
        Real(self.0.y)
    }
    fn z(self) -> Real {
        Real(self.0.z)
    }
    fn plus(self, rhs: Self) -> Self {
        Point(self.0 + rhs.0)
    }
    fn minus(self, rhs: Self) -> Self {
        Point(self.0 - rhs.0)
    }
    fn scaled(self, factor: Real) -> Self {
        Point(self.0 * factor.0)
    }
    fn divided(self, divisor: Real) -> Self {
        Point(self.0 / divisor.0)
    }
    fn length(self) -> Real {
        Real(self.0.length())
    }
    fn distance_squared(self, other: Self) -> Real {
        Real(self.0.distance_squared(other.0))
    }
    fn dot(self, other: Self) -> Real {
        Real(self.0.dot(other.0))
    }
    fn normalized(self) -> Self {
        Point(self.0.normalize())
    }
    fn negated(self) -> Self {
        Point(-self.0)
    }
}

fn point(x: f32, y: f32, z: f32) -> Point {
    Point(glam::Vec3::new(x, y, z))
}

use razed::lattice::XpbdLatticeBuilder;
use razed::structure::{create_structure_lattice, MAX_FLOORS};
use razed::xpbd::{LinksRowTable, NodesRowTable};

fn building(floors: u32) -> XpbdLatticeBuilder<Real, Point> {
    create_structure_lattice(point(10.0, -15.0, 20.0), Real(12.0), Real(6.0), Real(16.0), floors)
}

#[test]
fn a_building_has_eight_nodes_and_twenty_six_links_per_floor() {
    for floors in [1u32, 2, 4, 9] {
        let lattice = building(floors);
        assert_eq!(lattice.nodes.len() as u32, 4 + 8 * floors);
        assert_eq!(lattice.links.len() as u32, 4 + 26 * floors);
        assert_eq!(lattice.stack.len(), lattice.nodes.len());
        for (i, node) in lattice.nodes.iter().enumerate() {
            assert_eq!(node.fixed, i < 4);
            assert_eq!(node.mass, Real(250.0));
        }
        for link in &lattice.links {
            assert!((link.node_a as usize) < lattice.nodes.len());
            assert!((link.node_b as usize) < lattice.nodes.len());
            assert_ne!(link.node_a, link.node_b);
            assert!(link.options.rest_length.is_none());
        }
    }
    assert!(MAX_FLOORS as u64 * 26 + 4 <= u32::MAX as u64);
}

#[test]
fn the_first_floor_is_wired_to_the_anchors() {
    let lattice = building(1);
    let pairs: Vec<(u32, u32)> = lattice.links.iter().map(|l| (l.node_a, l.node_b)).collect();
    let expected = vec![
        // anchors
        (0, 1), (1, 2), (2, 3), (3, 0),
        // ring
        (4, 5), (5, 6), (6, 7), (7, 4),
        // pillars
        (4, 0), (5, 1), (6, 2), (7, 3),
        // braces
        (8, 4), (8, 7), (8, 0), (8, 3),
        (9, 5), (9, 6), (9, 1), (9, 2),
        (10, 7), (10, 6), (10, 2), (10, 3),
        (11, 5), (11, 4), (11, 0), (11, 1),
        // ceiling
        (4, 6), (5, 7),
    ];
    assert_eq!(pairs, expected);
    let stiffness: Vec<f32> = lattice.links.iter().map(|l| l.options.compliance.0).collect();
    assert!(stiffness[..12].iter().all(|&c| c == 0.175e-6));
    assert!(stiffness[12..28].iter().all(|&c| c == 0.75e-5));
    assert!(stiffness[28..].iter().all(|&c| c == 0.1e-2));
}

#[test]
fn the_second_floor_stands_on_the_first() {
    let lattice = building(2);
    let pairs: Vec<(u32, u32)> = lattice.links.iter().map(|l| (l.node_a, l.node_b)).collect();
    let second = &pairs[30..];
    assert_eq!(second[..8], [(12, 13), (13, 14), (14, 15), (15, 12), (12, 4), (13, 5), (14, 6), (15, 7)]);
    assert_eq!(second[8..12], [(16, 12), (16, 15), (16, 4), (16, 7)]);
    assert_eq!(second[24..], [(12, 14), (13, 15)]);
}

#[test]
fn nodes_stand_on_the_corners_and_walls() {
    let lattice = building(2);
    let at = |i: usize| lattice.nodes[i].pos.0;
    // anchors: back left, back right, front right, front left
    assert_eq!(at(0), glam::Vec3::new(4.0, -15.0, 12.0));
    assert_eq!(at(1), glam::Vec3::new(16.0, -15.0, 12.0));
    assert_eq!(at(2), glam::Vec3::new(16.0, -15.0, 28.0));
    assert_eq!(at(3), glam::Vec3::new(4.0, -15.0, 28.0));
    // first ceiling and the braces half way up
    assert_eq!(at(4), glam::Vec3::new(4.0, -9.0, 12.0));
    assert_eq!(at(6), glam::Vec3::new(16.0, -9.0, 28.0));
    assert_eq!(at(8), glam::Vec3::new(4.0, -12.0, 20.0));
    assert_eq!(at(9), glam::Vec3::new(16.0, -12.0, 20.0));
    assert_eq!(at(10), glam::Vec3::new(10.0, -12.0, 28.0));
    assert_eq!(at(11), glam::Vec3::new(10.0, -12.0, 12.0));
    // second ceiling
    assert_eq!(at(12), glam::Vec3::new(4.0, -3.0, 12.0));
    assert_eq!(at(19), glam::Vec3::new(10.0, -6.0, 12.0));
}

#[test]
fn a_building_exports_into_the_tables() {
    let lattice = building(3);
    let mut nodes = NodesRowTable::new();
    let mut links = LinksRowTable::new();
    let ids = lattice.export(&mut nodes, &mut links);
    assert_eq!(ids.nodes, (1..=28).collect::<Vec<u32>>());
    assert_eq!(ids.links, (1..=82).collect::<Vec<u32>>());
    assert_eq!(nodes.inv_mass_slice()[1..5], [Real(0.0); 4]);
    assert!(nodes.inv_mass_slice()[5..].iter().all(|w| *w == Real(1.0 / 250.0)));
    // the pillar from the first corner to its anchor is one floor high
    assert_eq!(links.rest_length_slice()[9], Real(6.0));
    assert_eq!(links.rest_length_slice()[1], Real(12.0));
}
