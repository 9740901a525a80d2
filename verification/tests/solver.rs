use razed::numeric::{Scalar, Vector};

#[derive(Clone, Copy, Debug, PartialEq, PartialOrd)]
struct Real(f32);

impl Scalar for Real {
    fn ratio(num: i32, den: i32) -> Self {
        Real(num as f32 / den as f32)
    }
    fn from_u32(value: u32) -> Self {
        Real(value as f32)
    }
    fn from_i32(value: i32) -> Self {
        Real(value as f32)
    }
    fn to_i32(self) -> i32 {
        self.0 as i32
    }
    fn floor(self) -> Self {
        Real(self.0.floor())
    }
    fn plus(self, rhs: Self) -> Self {
        Real(self.0 + rhs.0)
    }
    fn minus(self, rhs: Self) -> Self {
        Real(self.0 - rhs.0)
    }
    fn times(self, rhs: Self) -> Self {
        Real(self.0 * rhs.0)
    }
    fn over(self, rhs: Self) -> Self {
        Real(self.0 / rhs.0)
    }
    fn negated(self) -> Self {
        Real(-self.0)
    }
    fn less(self, rhs: Self) -> bool {
        self.0 < rhs.0
    }
    fn at_most(self, rhs: Self) -> bool {
        self.0 <= rhs.0
    }
    fn equals(self, rhs: Self) -> bool {
        self.0 == rhs.0
    }
    fn absolute(self) -> Self {
        Real(self.0.abs())
    }
    fn maximum(self, rhs: Self) -> Self {
        Real(self.0.max(rhs.0))
    }
    fn is_normal(self) -> bool {
        self.0.is_normal()
    }
    fn to_bits(self) -> u32 {
        self.0.to_bits()
    }
}

#[derive(Clone, Copy, Debug, PartialEq)]
struct Point(glam::Vec3);

impl Vector<Real> for Point {
    fn new(x: Real, y: Real, z: Real) -> Self {
        Point(glam::Vec3::new(x.0, y.0, z.0))
    }
    fn x(self) -> Real {
        Real(self.0.x)
    }
    fn y(self) -> Real {
        Real(self.0.y)
    }
    fn z(self) -> Real {
        Real(self.0.z)
    }
    fn plus(self, rhs: Self) -> Self {
        Point(self.0 + rhs.0)
    }
    fn minus(self, rhs: Self) -> Self {
        Point(self.0 - rhs.0)
    }
    fn scaled(self, factor: Real) -> Self {
        Point(self.0 * factor.0)
    }
    fn divided(self, divisor: Real) -> Self {
        Point(self.0 / divisor.0)
    }
    fn length(self) -> Real {
        Real(self.0.length())
    }
    fn distance_squared(self, other: Self) -> Real {
        Real(self.0.distance_squared(other.0))
    }
    fn dot(self, other: Self) -> Real {
        Real(self.0.dot(other.0))
    }
    fn normalized(self) -> Self {
        Point(self.0.normalize())
    }
    fn negated(self) -> Self {
        Point(-self.0)
    }
}

fn point(x: f32, y: f32, z: f32) -> Point {
    Point(glam::Vec3::new(x, y, z))
}

use razed::lattice::{XpbdLatticeBuilder, XpbdLinkOptions, XpbdNodeOptions};
use razed::solver::{XpbdOptions, XpbdSolver};
use razed::system::XpbdSystem;
use razed::xpbd::{LinkNodes, LinksRowTable, NodesRowTable};

const DT: f32 = 1.0 / 60.0;

fn gravity() -> Point {
    point(0.0, -9.81, 0.0)
}

fn system(options: XpbdOptions<Real>) -> XpbdSystem<Real, Point> {
    XpbdSystem::new(XpbdSolver::new(options))
}

fn position(system: &XpbdSystem<Real, Point>, handle: u32) -> glam::Vec3 {
    let at = system.nodes().get_indirect(handle).unwrap() as usize;
    system.nodes().current_pos_slice()[at].0
}

fn velocity(system: &XpbdSystem<Real, Point>, handle: u32) -> glam::Vec3 {
    let at = system.nodes().get_indirect(handle).unwrap() as usize;
    system.nodes().velocity_slice()[at].0
}

fn kinetic_energy(system: &XpbdSystem<Real, Point>) -> f32 {
    let nodes = system.nodes();
    let mut total = 0.0;
    for i in 0..nodes.len() {
        total += 0.5 * nodes.mass_slice()[i].0 * nodes.velocity_slice()[i].0.length_squared();
    }
    total
}

#[test]
fn solver_defaults() {
    let solver: XpbdSolver<Real> = XpbdSolver::default();
    assert_eq!(solver.iterations(), 8);
    assert_eq!(solver.substeps(), 4);
    assert!(solver.allow_breaking);
    assert!(solver.ground_level.is_none());
    assert!(solver.broken_links().is_empty());

    let options: XpbdOptions<Real> = XpbdOptions::default();
    assert_eq!((options.iterations, options.substeps), (8, 4));
    let options = options
        .with_iterations(3)
        .with_substeps(2)
        .with_breaking(false)
        .with_ground_level(Some(Real(-1.0)));
    let mut solver = XpbdSolver::new(options);
    assert_eq!((solver.iterations(), solver.substeps()), (3, 2));
    assert!(!solver.allow_breaking);
    assert_eq!(solver.ground_level, Some(Real(-1.0)));
    solver.set_iterations(5);
    solver.set_substeps(10);
    assert_eq!((solver.iterations(), solver.substeps()), (5, 10));
    solver.set_step_time(Real(0.5));
    assert_eq!(solver.h, Real(0.05));
    assert_eq!(solver.h2, Real(0.05 * 0.05));
}

#[test]
fn two_fixed_nodes_stay_where_they_are() {
    let mut system = system(XpbdOptions::default());
    let mut builder = XpbdLatticeBuilder::new();
    let a = builder.node(XpbdNodeOptions::new(point(0.0, 1.0, 0.0), Real(1.0)).with_fixed(true));
    let b = builder.node(XpbdNodeOptions::new(point(2.0, 3.0, 4.0), Real(1.0)).with_fixed(true));
    builder.link_nodes(a, b, XpbdLinkOptions::with_rest_length(Real(1e-6), Real(1.0)));
    let ids = system.import_lattice(builder);
    for _ in 0..200 {
        system.apply_forces_batched(gravity());
        system.update(Real(DT));
        assert_eq!(position(&system, ids.nodes[0]), glam::Vec3::new(0.0, 1.0, 0.0));
        assert_eq!(position(&system, ids.nodes[1]), glam::Vec3::new(2.0, 3.0, 4.0));
    }
    assert_eq!(system.links().len(), 2);
}

#[test]
fn pendulum_keeps_its_length() {
    let mut system = system(XpbdOptions::default().with_breaking(false));
    let mut builder = XpbdLatticeBuilder::new();
    let pivot = builder.node(XpbdNodeOptions::new(point(0.0, 5.0, 0.0), Real(1.0)).with_fixed(true));
    let bob = builder.node(XpbdNodeOptions::new(point(2.0, 5.0, 0.0), Real(1.0)));
    builder.link_nodes(pivot, bob, XpbdLinkOptions::new(Real(1e-7)));
    let ids = system.import_lattice(builder);
    let rest = 2.0f32;
    for _ in 0..300 {
        system.apply_forces_batched(gravity());
        system.update(Real(DT));
    }
    let length = (position(&system, ids.nodes[1]) - position(&system, ids.nodes[0])).length();
    assert!((length - rest).abs() <= 0.005 * rest, "length {length}");
    assert_eq!(position(&system, ids.nodes[0]), glam::Vec3::new(0.0, 5.0, 0.0));
}

#[test]
fn kinetic_energy_decays_without_forces() {
    let mut system = system(XpbdOptions::default().with_breaking(false));
    let mut builder = XpbdLatticeBuilder::new();
    builder.node(XpbdNodeOptions::new(point(0.0, 0.0, 0.0), Real(2.0)));
    builder.node(XpbdNodeOptions::new(point(5.0, 1.0, 0.0), Real(3.0)));
    builder.node(XpbdNodeOptions::new(point(-4.0, 2.0, 7.0), Real(0.5)));
    let ids = system.import_lattice(builder);
    {
        let nodes = system.nodes_mut();
        nodes.velocity[ids.nodes[0] as usize] = point(1.0, 2.0, 3.0);
        nodes.velocity[ids.nodes[1] as usize] = point(-3.0, 0.5, 0.0);
        nodes.velocity[ids.nodes[2] as usize] = point(0.0, -6.0, 1.5);
    }
    for _ in 0..50 {
        let before = kinetic_energy(&system);
        system.update(Real(DT));
        let after = kinetic_energy(&system);
        assert!(after <= 0.996 * 0.996 * before * (1.0 + 1e-4), "{after} > {before}");
        assert!(after < before);
    }
}

#[test]
fn equal_inputs_give_equal_positions() {
    let run = || {
        let mut system = system(XpbdOptions::default().with_ground_level(Some(Real(-2.0))));
        let mut builder = XpbdLatticeBuilder::new();
        let a = builder.node(XpbdNodeOptions::new(point(0.0, 5.0, 0.0), Real(1.0)).with_fixed(true));
        let b = builder.node(XpbdNodeOptions::new(point(1.0, 5.0, 0.5), Real(2.0)));
        let c = builder.node(XpbdNodeOptions::new(point(0.5, 6.0, -0.5), Real(3.0)));
        builder.link_nodes(a, b, XpbdLinkOptions::new(Real(1e-6)));
        builder.link_nodes(b, c, XpbdLinkOptions::new(Real(1e-5)));
        builder.link_nodes(c, a, XpbdLinkOptions::new(Real(1e-4)));
        system.import_lattice(builder);
        for step in 0..120 {
            system.apply_forces_batched(gravity());
            if step % 7 == 0 {
                system.apply_forces(2, point(3.0, 0.0, -1.0));
            }
            system.update(Real(DT));
        }
        let bits: Vec<[u32; 3]> = system
            .nodes()
            .current_pos_slice()
            .iter()
            .map(|p| [p.0.x.to_bits(), p.0.y.to_bits(), p.0.z.to_bits()])
            .collect();
        bits
    };
    assert_eq!(run(), run());
}

#[test]
fn free_node_drops_to_the_ground() {
    let mut system = system(XpbdOptions::default().with_ground_level(Some(Real(0.0))));
    let mut builder = XpbdLatticeBuilder::new();
    builder.node(XpbdNodeOptions::new(point(0.0, 10.0, 0.0), Real(1.0)));
    let ids = system.import_lattice(builder);
    let node = ids.nodes[0];

    // a force acts during the first substep of a step only, so that sixty
    // steps are not yet enough to reach the ground from ten metres
    for _ in 0..60 {
        system.apply_forces_batched(gravity());
        system.update(Real(DT));
    }
    let y = position(&system, node).y;
    let v = velocity(&system, node).y;
    assert!(y > 8.0 && y < 10.0, "{y}");
    assert!(v < 0.0 && v > -9.81, "{v}");
    assert_eq!(position(&system, node).x, 0.0);
    assert_eq!(position(&system, node).z, 0.0);

    let mut impact = v;
    let mut steps = 60;
    while position(&system, node).y > 0.0 {
        impact = velocity(&system, node).y;
        system.apply_forces_batched(gravity());
        system.update(Real(DT));
        steps += 1;
        assert!(steps < 1000);
    }
    assert!(impact < -1.0);
    let y = position(&system, node).y;
    let v = velocity(&system, node).y;
    assert!(y <= 0.0);
    assert_eq!(y, 0.0);
    assert!(v >= -0.4 * impact.abs(), "{v} against {impact}");

    // it stays on the ground
    for _ in 0..30 {
        system.apply_forces_batched(gravity());
        system.update(Real(DT));
        assert_eq!(position(&system, node).y, 0.0);
    }
}

#[test]
fn ground_contact_clamps_and_bounces() {
    let mut solver = XpbdSolver::new(
        XpbdOptions::default().with_substeps(1).with_ground_level(Some(Real(0.0))),
    );
    let mut nodes: NodesRowTable<Real, Point> = NodesRowTable::new();
    let mut links: LinksRowTable<Real> = LinksRowTable::new();
    let h = nodes.put((
        point(1.0, 0.5, 2.0),
        point(1.0, 0.5, 2.0),
        Real(1.0),
        Real(1.0),
        point(0.0, 0.0, 0.0),
        point(10.0, -60.0, -20.0),
    ));
    solver.set_step_time(Real(DT));
    solver.step(&mut nodes, &mut links);
    let at = nodes.get_indirect(h).unwrap() as usize;
    // predicted y = 0.5 - 1 = -0.5 is below the ground: both positions are
    // put on it and the velocity becomes (0.2 vx, -0.4 vy, 0.2 vz); the
    // velocity that the substep then derives is the distance moved over h
    assert_eq!(nodes.current_pos_slice()[at].0.y, 0.0);
    let expected = glam::Vec3::new(10.0 * DT, 0.0, -20.0 * DT) / DT * 0.996;
    let v = nodes.velocity_slice()[at].0;
    assert!((v - expected).length() < 1e-3, "{v}");
}

#[test]
fn triangle_keeps_its_sides() {
    let mut system = system(XpbdOptions::default());
    let mut builder = XpbdLatticeBuilder::new();
    let a = builder.node(XpbdNodeOptions::new(point(0.0, 5.0, 0.0), Real(1.0)));
    let b = builder.node(XpbdNodeOptions::new(point(1.0, 5.0, 0.0), Real(1.0)));
    let c = builder.node(XpbdNodeOptions::new(point(0.5, 6.0, 0.0), Real(1.0)));
    builder.link_nodes(a, b, XpbdLinkOptions::new(Real(1e-6)));
    builder.link_nodes(b, c, XpbdLinkOptions::new(Real(1e-6)));
    builder.link_nodes(c, a, XpbdLinkOptions::new(Real(1e-6)));
    let ids = system.import_lattice(builder);
    let side = |system: &XpbdSystem<Real, Point>, i: usize, j: usize| {
        (position(system, ids.nodes[i]) - position(system, ids.nodes[j])).length()
    };
    let initial = [side(&system, 0, 1), side(&system, 1, 2), side(&system, 2, 0)];
    assert_eq!(system.links().rest_length_slice()[1].0, initial[0]);
    for _ in 0..100 {
        system.update(Real(DT));
    }
    let now = [side(&system, 0, 1), side(&system, 1, 2), side(&system, 2, 0)];
    for k in 0..3 {
        assert!((now[k] - initial[k]).abs() <= 0.001 * initial[k]);
    }
    assert!(system.frame_broken_links().is_empty());
    assert_eq!(system.links().len(), 4);
}

#[test]
fn chain_breaks_next_to_the_anchor() {
    let mut system = system(XpbdOptions::default());
    let mut builder = XpbdLatticeBuilder::new();
    let mass = Real(20000.0);
    let a = builder.node(XpbdNodeOptions::new(point(0.0, 10.0, 0.0), mass).with_fixed(true));
    let b = builder.node(XpbdNodeOptions::new(point(0.0, 9.0, 0.0), mass));
    let c = builder.node(XpbdNodeOptions::new(point(0.0, 8.0, 0.0), mass));
    let d = builder.node(XpbdNodeOptions::new(point(0.0, 7.0, 0.0), mass));
    builder.link_nodes(a, b, XpbdLinkOptions::new(Real(1e-6)));
    builder.link_nodes(b, c, XpbdLinkOptions::new(Real(1e-6)));
    builder.link_nodes(c, d, XpbdLinkOptions::new(Real(1e-6)));
    let ids = system.import_lattice(builder);
    let at_anchor = ids.links[0];

    let mut broke_at = None;
    for step in 0..7 {
        system.apply_forces_batched(gravity());
        system.update(Real(DT));
        let broken = system.frame_broken_links().to_vec();
        if !broken.is_empty() {
            assert_eq!(broken, vec![at_anchor]);
            assert!(system.links().get_indirect(at_anchor).is_none());
            broke_at = Some(step);
            break;
        }
    }
    // the multiplier builds up over the steps: the link gives way in the
    // seventh, before thirty substeps are over
    let broke_at = broke_at.expect("the link at the anchor breaks");
    assert_eq!(broke_at, 6);
    assert!((broke_at + 1) * 4 <= 30);

    // the rest of the chain falls freely and nothing more breaks
    for _ in 0..20 {
        system.apply_forces_batched(gravity());
        system.update(Real(DT));
        assert!(system.frame_broken_links().is_empty());
    }
    assert_eq!(system.links().len(), 3);
    assert!(system.links().get_indirect(ids.links[1]).is_some());
    assert!(system.links().get_indirect(ids.links[2]).is_some());
    assert_eq!(position(&system, ids.nodes[0]), glam::Vec3::new(0.0, 10.0, 0.0));
    assert!(position(&system, ids.nodes[1]).y < 9.0);
}

#[test]
fn solver_without_breaking_frees_nothing() {
    let mut system = system(XpbdOptions::default().with_breaking(false));
    let mut builder = XpbdLatticeBuilder::new();
    builder.node(XpbdNodeOptions::new(point(0.0, 10.0, 0.0), Real(5000.0)).with_fixed(true));
    builder.node(XpbdNodeOptions::new(point(1.0, 10.0, 0.0), Real(5000.0)));
    builder.link(XpbdLinkOptions::new(Real(1e-6)));
    system.import_lattice(builder);
    for _ in 0..30 {
        system.apply_forces_batched(gravity());
        system.update(Real(DT));
    }
    assert_eq!(system.links().len(), 2);
    assert!(system.solver.broken_links.is_empty());
}

#[test]
fn forces_are_scaled_by_mass_and_cleared_by_a_step() {
    let mut system = system(XpbdOptions::default().with_breaking(false));
    let mut builder = XpbdLatticeBuilder::new();
    builder.node(XpbdNodeOptions::new(point(0.0, 0.0, 0.0), Real(2.0)));
    builder.node(XpbdNodeOptions::new(point(1.0, 0.0, 0.0), Real(3.0)));
    let ids = system.import_lattice(builder);
    system.apply_forces(ids.nodes[0], point(1.0, 2.0, 3.0));
    system.apply_forces(99, point(1.0, 2.0, 3.0));
    system.apply_forces_multi(&[ids.nodes[1], ids.nodes[1]], point(1.0, 0.0, 0.0));
    assert_eq!(system.nodes().forces_slice()[1], point(2.0, 4.0, 6.0));
    assert_eq!(system.nodes().forces_slice()[2], point(6.0, 0.0, 0.0));
    system.apply_forces_batched(point(0.0, -1.0, 0.0));
    assert_eq!(system.nodes().forces_slice()[0], point(0.0, 0.0, 0.0));
    assert_eq!(system.nodes().forces_slice()[1], point(2.0, 2.0, 6.0));
    assert_eq!(system.nodes().forces_slice()[2], point(6.0, -3.0, 0.0));
    system.update(Real(DT));
    assert_eq!(system.nodes().forces_slice()[1], point(0.0, 0.0, 0.0));
    assert_eq!(system.nodes().forces_slice()[2], point(0.0, 0.0, 0.0));
    // one step under the force f m, from rest: v = damping * a * dt, where
    // the substeps add up the acceleration a = f
    let v = system.nodes().velocity_slice()[2].0;
    assert!((v.y - (-1.0 * DT / 4.0 * 0.996)).abs() < 1e-5, "{v}");
}

#[test]
fn break_constraint_frees_the_link() {
    let mut system = system(XpbdOptions::default());
    let mut builder = XpbdLatticeBuilder::new();
    builder.node(XpbdNodeOptions::new(point(0.0, 0.0, 0.0), Real(1.0)));
    builder.node(XpbdNodeOptions::new(point(1.0, 0.0, 0.0), Real(1.0)));
    builder.node(XpbdNodeOptions::new(point(2.0, 0.0, 0.0), Real(1.0)));
    builder.link(XpbdLinkOptions::new(Real(1e-6)));
    builder.link(XpbdLinkOptions::new(Real(1e-6)));
    let ids = system.import_lattice(builder);
    system.break_constraint(ids.links[0]);
    assert_eq!(system.links().len(), 2);
    assert_eq!(system.links().handles(), &[0, ids.links[1]]);
    system.break_constraint(ids.links[0]);
    system.break_constraint(0);
    assert_eq!(system.links().len(), 2);
}

fn row(x: f32, mass: f32, inv_mass: f32) -> (Point, Point, Real, Real, Point, Point) {
    (
        point(x, 0.0, 0.0),
        point(x, 0.0, 0.0),
        Real(mass),
        Real(inv_mass),
        point(0.0, 0.0, 0.0),
        point(0.0, 0.0, 0.0),
    )
}

#[test]
fn one_projection_follows_the_formula() {
    let mut solver = XpbdSolver::new(XpbdOptions::new(1, 1, false, None));
    let mut nodes: NodesRowTable<Real, Point> = NodesRowTable::new();
    let mut links: LinksRowTable<Real> = LinksRowTable::new();
    let a = nodes.put(row(0.0, 2.0, 0.5));
    let b = nodes.put(row(2.0, 4.0, 0.25));
    let link = links.put((LinkNodes(a, b), Real(0.5), Real(1.0), Real(7.0)));
    solver.set_step_time(Real(0.5));
    solver.step(&mut nodes, &mut links);

    // h = 0.5: the compliance over h squared is 2, the link is one too
    // long, and the multiplier starts from zero
    let d_lambda = (-1.0f32 - 2.0 * 0.0) / (0.5 + 0.25 + 2.0);
    assert_eq!(links.lambda_slice()[link as usize], Real(d_lambda));
    // the ends move along (-1, 0, 0), each by its inverse mass
    let x_a = 0.0 + 0.5 * d_lambda * -1.0;
    let x_b = 2.0 - 0.25 * d_lambda * -1.0;
    assert_eq!(nodes.current_pos_slice()[a as usize], point(x_a, 0.0, 0.0));
    assert_eq!(nodes.current_pos_slice()[b as usize], point(x_b, 0.0, 0.0));
    assert_eq!(nodes.predicted_pos_slice(), nodes.current_pos_slice());
    // velocity is the distance moved over h, damped once
    assert_eq!(nodes.velocity_slice()[a as usize], point((x_a - 0.0) / 0.5 * 0.996, 0.0, 0.0));
    assert_eq!(nodes.velocity_slice()[b as usize], point((x_b - 2.0) / 0.5 * 0.996, 0.0, 0.0));
    // the degenerate row took no part
    assert_eq!(nodes.current_pos_slice()[0], point(0.0, 0.0, 0.0));
    assert_eq!(links.lambda_slice()[0], Real(0.0));
}

#[test]
fn short_links_and_fixed_pairs_are_skipped() {
    let mut solver = XpbdSolver::new(XpbdOptions::new(4, 1, false, None));
    let mut nodes: NodesRowTable<Real, Point> = NodesRowTable::new();
    let mut links: LinksRowTable<Real> = LinksRowTable::new();
    let a = nodes.put(row(1.0, 1.0, 1.0));
    let b = nodes.put(row(1.0, 1.0, 1.0));
    let c = nodes.put(row(5.0, 1.0, 0.0));
    let d = nodes.put(row(9.0, 1.0, 0.0));
    links.put((LinkNodes(a, b), Real(0.0), Real(3.0), Real(0.0)));
    links.put((LinkNodes(c, d), Real(0.0), Real(1.0), Real(0.0)));
    solver.set_step_time(Real(1.0));
    solver.step(&mut nodes, &mut links);
    assert_eq!(links.lambda_slice(), &[Real(0.0); 3]);
    for (h, x) in [(a, 1.0), (b, 1.0), (c, 5.0), (d, 9.0)] {
        assert_eq!(nodes.current_pos_slice()[h as usize], point(x, 0.0, 0.0));
    }
}

/// One link from a fixed node at the origin to a node of inverse mass
/// 2^-14 at `x`, stiff, at rest at `rest`; one substep of one second.
fn strained(x: f32, rest: f32) -> (Vec<u32>, usize) {
    let mut solver = XpbdSolver::new(XpbdOptions::new(1, 1, true, None));
    let mut nodes: NodesRowTable<Real, Point> = NodesRowTable::new();
    let mut links: LinksRowTable<Real> = LinksRowTable::new();
    let a = nodes.put(row(0.0, 16384.0, 0.0));
    let b = nodes.put(row(x, 16384.0, 1.0 / 16384.0));
    links.put((LinkNodes(a, b), Real(0.0), Real(rest), Real(0.0)));
    solver.set_step_time(Real(1.0));
    solver.step(&mut nodes, &mut links);
    (solver.broken_links().to_vec(), links.len())
}

#[test]
fn links_break_at_the_thresholds() {
    // stretched by c, the multiplier over h squared is -16384 c
    assert_eq!(strained(1.0 + 15000.0 / 16384.0, 1.0), (vec![1], 1));
    assert_eq!(strained(1.0 + 14999.0 / 16384.0, 1.0), (vec![], 2));
    assert_eq!(strained(1.0 + 20000.0 / 16384.0, 1.0), (vec![1], 1));
    // squeezed by c, it is 16384 c
    assert_eq!(strained(4.0 - 45000.0 / 16384.0, 4.0), (vec![1], 1));
    assert_eq!(strained(4.0 - 44999.0 / 16384.0, 4.0), (vec![], 2));
    assert_eq!(strained(4.0, 4.0), (vec![], 2));
}

#[test]
fn a_step_without_substeps_only_damps() {
    let mut solver = XpbdSolver::new(XpbdOptions::new(8, 0, true, Some(Real(100.0))));
    let mut nodes: NodesRowTable<Real, Point> = NodesRowTable::new();
    let mut links: LinksRowTable<Real> = LinksRowTable::new();
    let mut moving = row(3.0, 1.0, 1.0);
    moving.4 = point(0.0, -5.0, 0.0);
    moving.5 = point(1.0, 2.0, 3.0);
    let a = nodes.put(moving);
    solver.set_step_time(Real(1.0));
    solver.step(&mut nodes, &mut links);
    assert_eq!(nodes.current_pos_slice()[a as usize], point(3.0, 0.0, 0.0));
    assert_eq!(nodes.forces_slice()[a as usize], point(0.0, -5.0, 0.0));
    assert_eq!(nodes.velocity_slice()[a as usize], point(0.996, 2.0 * 0.996, 3.0 * 0.996));
    assert!(solver.broken_links().is_empty());
}

#[test]
fn tables_free_rows_by_swapping_in_the_last() {
    let mut nodes: NodesRowTable<Real, Point> = NodesRowTable::with_capacity(4);
    let a = nodes.put(row(1.0, 1.0, 1.0));
    let b = nodes.put(row(2.0, 2.0, 0.5));
    let c = nodes.put(row(3.0, 3.0, 0.25));
    assert_eq!((a, b, c), (1, 2, 3));
    nodes.free(a);
    assert_eq!(nodes.handles(), &[0, c, b]);
    assert_eq!(nodes.slots_map(), &[0, 0, 2, 1]);
    assert_eq!(nodes.current_pos_slice()[1], point(3.0, 0.0, 0.0));
    assert_eq!(nodes.mass_slice(), &[Real(0.0), Real(3.0), Real(2.0)]);
    assert_eq!(nodes.get_indirect(a), None);
    assert_eq!(nodes.get_indirect_unchecked(a), 0);
    assert_eq!(nodes.get_indirect(b), Some(2));
    nodes.free(0);
    nodes.free(a);
    assert_eq!(nodes.len(), 3);
    assert_eq!(nodes.put(row(4.0, 4.0, 0.125)), a);
    {
        let (_, current, mass, _, _, velocity) = nodes.split_mut();
        current[3] = point(9.0, 9.0, 9.0);
        mass[3] = Real(8.0);
        velocity[1] = point(0.0, 1.0, 0.0);
    }
    assert_eq!(nodes.current_pos_slice()[3], point(9.0, 9.0, 9.0));
    assert_eq!(nodes.mass_slice()[3], Real(8.0));
    assert_eq!(nodes.velocity_slice()[1], point(0.0, 1.0, 0.0));

    let mut links: LinksRowTable<Real> = LinksRowTable::with_capacity(4);
    let x = links.put((LinkNodes(a, b), Real(0.1), Real(1.0), Real(0.0)));
    let y = links.put((LinkNodes(b, c), Real(0.2), Real(2.0), Real(0.0)));
    links.free(x);
    assert_eq!(links.handles(), &[0, y]);
    assert_eq!(links.relation_slice(), &[LinkNodes(0, 0), LinkNodes(b, c)]);
    assert_eq!(links.compliance_slice()[1], Real(0.2));
    {
        let (relation, _, rest, _) = links.split_mut();
        relation[1] = LinkNodes(c, b);
        rest[1] = Real(5.0);
    }
    assert_eq!(links.relation_slice()[1], LinkNodes(c, b));
    assert_eq!(links.rest_length_slice()[1], Real(5.0));
    assert_eq!(links.get_indirect(y), Some(1));
    assert_eq!(links.get_indirect_unchecked(x), 0);
}
