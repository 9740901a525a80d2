use razed::numeric::{Scalar, Vector};

#[derive(Clone, Copy, Debug, PartialEq, PartialOrd)]
struct Real(f32);

impl Scalar for Real {
    fn ratio(num: i32, den: i32) -> Self {
        Real(num as f32 / den as f32)
    }
    fn from_u32(value: u32) -> Self {
        Real(value as f32)
    }
    fn from_i32(value: i32) -> Self {
        Real(value as f32)
    }
    fn to_i32(self) -> i32 {
        self.0 as i32
    }
    fn floor(self) -> Self {
        Real(self.0.floor())
    }
    fn plus(self, rhs: Self) -> Self {
        Real(self.0 + rhs.0)
    }
    fn minus(self, rhs: Self) -> Self {
        Real(self.0 - rhs.0)
    }
    fn times(self, rhs: Self) -> Self {
        Real(self.0 * rhs.0)
    }
    fn over(self, rhs: Self) -> Self {
        Real(self.0 / rhs.0)
    }
    fn negated(self) -> Self {
        Real(-self.0)
    }
    fn less(self, rhs: Self) -> bool {
        self.0 < rhs.0
    }
    fn at_most(self, rhs: Self) -> bool {
        self.0 <= rhs.0
    }
    fn equals(self, rhs: Self) -> bool {
        self.0 == rhs.0
    }
    fn absolute(self) -> Self {
        Real(self.0.abs())
    }
    fn maximum(self, rhs: Self) -> Self {
        Real(self.0.max(rhs.0))
    }
    fn is_normal(self) -> bool {
        self.0.is_normal()
    }
    fn to_bits(self) -> u32 {
        self.0.to_bits()
    }
}

#[derive(Clone, Copy, Debug, PartialEq)]
struct Point(glam::Vec3);

impl Vector<Real> for Point {
    fn new(x: Real, y: Real, z: Real) -> Self {
        Point(glam::Vec3::new(x.0, y.0, z.0))
    }
    fn x(self) -> Real {
        Real(self.0.x)
    }
    fn y(self) -> Real {
        Real(self.0.y)
    }
    fn z(self) -> Real {
        Real(self.0.z)
    }
    fn plus(self, rhs: Self) -> Self {
        Point(self.0 + rhs.0)
    }
    fn minus(self, rhs: Self) -> Self {
        Point(self.0 - rhs.0)
    }
    fn scaled(self, factor: Real) -> Self {
        Point(self.0 * factor.0)
    }
    fn divided(self, divisor: Real) -> Self {
        Point(self.0 / divisor.0)
    }
    fn length(self) -> Real {
        Real(self.0.length())
    }
    fn distance_squared(self, other: Self) -> Real {
        Real(self.0.distance_squared(other.0))
    }
    fn dot(self, other: Self) -> Real {
        Real(self.0.dot(other.0))
    }
    fn normalized(self) -> Self {
        Point(self.0.normalize())
    }
    fn negated(self) -> Self {
        Point(-self.0)
    }
}

fn point(x: f32, y: f32, z: f32) -> Point {
    Point(glam::Vec3::new(x, y, z))
}

use razed::lattice::{XpbdLatticeBuilder, XpbdLinkOptions, XpbdNodeOptions};
use razed::xpbd::{LinkNodes, LinksRowTable, NodesRowTable};

const MASS: f32 = 5.0;
const COMPLIANCE: f32 = 1.0;

fn node() -> XpbdNodeOptions<Real, Point> {
    XpbdNodeOptions::new(Point(glam::Vec3::ONE), Real(MASS))
}

fn link() -> XpbdLinkOptions<Real> {
    XpbdLinkOptions::new(Real(COMPLIANCE))
}

#[test]
fn xpbd_lattice_builder() {
    let mut builder = XpbdLatticeBuilder::new();

    {
        builder.node(node()); // A
        builder.node(node()); // B
        builder.node(node()); // C
        builder.link(link()); // B->C
        builder.link(link()); // A->B
        builder.node(node()); // D
        builder.node(node()); // E
        builder.node(node()); // F
        builder.link(link()); // E->F
        builder.link(link()); // D->E
        builder.node(node()); // G
        builder.node(node()); // H
        builder.link(link()); // G->H
        builder.link(link()); // D->G
        builder.link(link()); // A->D
    }

    const A: u32 = 0;
    const B: u32 = 1;
    const C: u32 = 2;
    const D: u32 = 3;
    const E: u32 = 4;
    const F: u32 = 5;
    const G: u32 = 6;
    const H: u32 = 7;

    const BC: u32 = 0;
    const AB: u32 = 1;
    const EF: u32 = 2;
    const DE: u32 = 3;
    const GH: u32 = 4;
    const DG: u32 = 5;
    const AD: u32 = 6;

    let mut nodes = NodesRowTable::new();
    let mut links = LinksRowTable::new();

    let map = builder.export(&mut nodes, &mut links);
    {
        let node_ids = map.nodes;
        let compare = {
            let mut v = vec![A, B, C, D, E, F, G, H];
            v.iter_mut().for_each(|i| *i += 1);
            v
        };
        assert_eq!(node_ids, compare);

        let link_ids = map.links;
        let compare = {
            let mut v = vec![BC, AB, EF, DE, GH, DG, AD];
            v.iter_mut().for_each(|i| *i += 1);
            v
        };
        assert_eq!(link_ids, compare);
    }
}

#[test]
fn xpbd_lattice_builder_cross_link() {
    let mut builder = XpbdLatticeBuilder::new();

    {
        let root = builder.node(node()); // A
        builder.node(node()); // B
        builder.node(node()); // C
        builder.node(node()); // D
        builder.link_to(root, link()); // A->D
        builder.link(link()); // C->D
        builder.link(link()); // B->C
    }

    const A: u32 = 0;
    const B: u32 = 1;
    const C: u32 = 2;
    const D: u32 = 3;

    const AD: u32 = 0;
    const CD: u32 = 1;
    const BC: u32 = 2;

    let mut nodes = NodesRowTable::new();
    let mut links = LinksRowTable::new();

    let map = builder.export(&mut nodes, &mut links);
    {
        let node_ids = map.nodes;
        let compare = {
            let mut v = vec![A, B, C, D];
            v.iter_mut().for_each(|i| *i += 1);
            v
        };
        assert_eq!(node_ids, compare);

        let link_ids = map.links;
        let compare = {
            let mut v = vec![AD, CD, BC];
            v.iter_mut().for_each(|i| *i += 1);
            v
        };
        assert_eq!(link_ids, compare);
    }
}

#[test]
fn builder_links_follow_the_cursor_stack() {
    let mut builder = XpbdLatticeBuilder::new();
    let a = builder.node(node());
    let b = builder.node(node());
    let c = builder.node(node());
    assert_eq!((a, b, c), (0, 1, 2));
    assert_eq!(builder.link(link()), 0);
    assert_eq!(builder.link(link()), 1);
    assert_eq!(builder.stack, vec![a]);
    let d = builder.node(node());
    let e = builder.node(node());
    let f = builder.node(node());
    builder.link(link());
    builder.link(link());
    assert_eq!(builder.stack, vec![a, d]);

    let pairs: Vec<(u32, u32)> = builder.links.iter().map(|l| (l.node_a, l.node_b)).collect();
    assert_eq!(pairs, vec![(b, c), (a, b), (e, f), (d, e)]);

    let mut nodes = NodesRowTable::new();
    let mut links = LinksRowTable::new();
    let ids = builder.export(&mut nodes, &mut links);
    assert!(ids.nodes.iter().all(|&h| h != 0));
    assert!(ids.links.iter().all(|&h| h != 0));
    let mut seen = ids.nodes.clone();
    seen.sort();
    seen.dedup();
    assert_eq!(seen.len(), ids.nodes.len());
    let mut seen = ids.links.clone();
    seen.sort();
    seen.dedup();
    assert_eq!(seen.len(), ids.links.len());

    let relation = links.relation_slice();
    assert_eq!(relation[0], LinkNodes(0, 0));
    assert_eq!(relation[1], LinkNodes(ids.nodes[1], ids.nodes[2]));
    assert_eq!(relation[2], LinkNodes(ids.nodes[0], ids.nodes[1]));
    assert_eq!(relation[3], LinkNodes(ids.nodes[4], ids.nodes[5]));
    assert_eq!(relation[4], LinkNodes(ids.nodes[3], ids.nodes[4]));
}

#[test]
fn export_fills_the_node_and_link_rows() {
    let mut builder = XpbdLatticeBuilder::new();
    let a = builder.node(XpbdNodeOptions::new(point(0.0, 0.0, 0.0), Real(2.0)).with_fixed(true));
    let b = builder.node(XpbdNodeOptions::new(point(3.0, 4.0, 0.0), Real(4.0)));
    let c = builder.node(XpbdNodeOptions::new(point(3.0, 4.0, 12.0), Real(0.0)));
    builder.link_nodes(a, b, XpbdLinkOptions::new(Real(0.5)));
    builder.link_nodes(b, c, XpbdLinkOptions::with_rest_length(Real(0.25), Real(7.0)));
    builder.link_nodes(a, c, XpbdLinkOptions::new(Real(0.125)).and_rest_length(Real(9.0)));

    let mut nodes = NodesRowTable::new();
    let mut links = LinksRowTable::new();
    let ids = builder.export(&mut nodes, &mut links);

    assert_eq!(nodes.len(), 4);
    assert_eq!(nodes.handles(), &[0, 1, 2, 3]);
    assert_eq!(nodes.current_pos_slice()[2], point(3.0, 4.0, 0.0));
    assert_eq!(nodes.predicted_pos_slice()[3], point(3.0, 4.0, 12.0));
    assert_eq!(nodes.mass_slice()[1..], [Real(2.0), Real(4.0), Real(0.0)]);
    // fixed, free, and a mass whose inverse is not a normal number
    assert_eq!(nodes.inv_mass_slice()[1..], [Real(0.0), Real(0.25), Real(0.0)]);
    assert_eq!(nodes.velocity_slice()[1], point(0.0, 0.0, 0.0));
    assert_eq!(nodes.forces_slice()[1], point(0.0, 0.0, 0.0));

    assert_eq!(links.len(), 4);
    assert_eq!(ids.links, vec![1, 2, 3]);
    assert_eq!(links.compliance_slice()[1..], [Real(0.5), Real(0.25), Real(0.125)]);
    // derived from the positions, then the two given lengths
    assert_eq!(links.rest_length_slice()[1..], [Real(5.0), Real(7.0), Real(9.0)]);
    assert_eq!(links.lambda_slice()[1..], [Real(0.0), Real(0.0), Real(0.0)]);
}
