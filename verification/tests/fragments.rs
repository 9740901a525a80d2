use razed::numeric::{Scalar, Vector};

#[derive(Clone, Copy, Debug, PartialEq, PartialOrd)]
struct Real(f32);

impl Scalar for Real {
    fn ratio(num: i32, den: i32) -> Self {
        Real(num as f32 / den as f32)
    }
    fn from_u32(value: u32) -> Self {
        Real(value as f32)
    }
    fn from_i32(value: i32) -> Self {
        Real(value as f32)
    }
    fn to_i32(self) -> i32 {
        self.0 as i32
    }
    fn floor(self) -> Self {
        Real(self.0.floor())
    }
    fn plus(self, rhs: Self) -> Self {
        Real(self.0 + rhs.0)
    }
    fn minus(self, rhs: Self) -> Self {
        Real(self.0 - rhs.0)
    }
    fn times(self, rhs: Self) -> Self {
        Real(self.0 * rhs.0)
    }
    fn over(self, rhs: Self) -> Self {
        Real(self.0 / rhs.0)
    }
    fn negated(self) -> Self {
        Real(-self.0)
    }
    fn less(self, rhs: Self) -> bool {
        self.0 < rhs.0
    }
    fn at_most(self, rhs: Self) -> bool {
        self.0 <= rhs.0
    }
    fn equals(self, rhs: Self) -> bool {
        self.0 == rhs.0
    }
    fn absolute(self) -> Self {
        Real(self.0.abs())
    }
    fn maximum(self, rhs: Self) -> Self {
        Real(self.0.max(rhs.0))
    }
    fn is_normal(self) -> bool {
        self.0.is_normal()
    }
    fn to_bits(self) -> u32 {
        self.0.to_bits()
    }
}

#[derive(Clone, Copy, Debug, PartialEq)]
struct Point(glam::Vec3);

impl Vector<Real> for Point {
    fn new(x: Real, y: Real, z: Real) -> Self {
        Point(glam::Vec3::new(x.0, y.0, z.0))
    }
    fn x(self) -> Real {
        Real(self.0.x)
    }
    fn y(self) -> Real {
        Real(self.0.y)
    }
    fn z(self) -> Real {
        Real(self.0.z)
    }
    fn plus(self, rhs: Self) -> Self {
        Point(self.0 + rhs.0)
    }
    fn minus(self, rhs: Self) -> Self {
        Point(self.0 - rhs.0)
    }
    fn scaled(self, factor: Real) -> Self {
        Point(self.0 * factor.0)
    }
    fn divided(self, divisor: Real) -> Self {
        Point(self.0 / divisor.0)
    }
    fn length(self) -> Real {
        Real(self.0.length())
    }
    fn distance_squared(self, other: Self) -> Real {
        Real(self.0.distance_squared(other.0))
    }
    fn dot(self, other: Self) -> Real {
        Real(self.0.dot(other.0))
    }
    fn normalized(self) -> Self {
        Point(self.0.normalize())
    }
    fn negated(self) -> Self {
        Point(-self.0)
    }
}

fn point(x: f32, y: f32, z: f32) -> Point {
    Point(glam::Vec3::new(x, y, z))
}

use razed::fragment::{FragmentState, FragmentSystem, FragmentsRowTable, Weighting};
use razed::lattice::{XpbdLatticeBuilder, XpbdLinkOptions, XpbdNodeOptions};
use razed::spatial::Cell;
use razed::voxel::{VoxelCell, VoxelGrid, VoxelGridOptions};
use razed::xpbd::{LinkNodes, LinksRowTable, NodesRowTable};

type Offset = fn(VoxelCell) -> Point;
type Grid<G> = VoxelGrid<Real, Point, G, Offset>;

fn options(width: f32, height: f32, depth: f32, density: i32) -> VoxelGridOptions<Real> {
    VoxelGridOptions::new(Real(width), Real(height), Real(depth), density)
}

/// The eight corners of a cube of side two around the origin, with the
/// twelve edges as links.
fn cube() -> (NodesRowTable<Real, Point>, LinksRowTable<Real>, Vec<u32>, Vec<u32>) {
    let mut builder = XpbdLatticeBuilder::new();
    let mut ids = Vec::new();
    for x in [-1.0f32, 1.0] {
        for y in [-1.0f32, 1.0] {
            for z in [-1.0f32, 1.0] {
                ids.push(builder.node(XpbdNodeOptions::new(point(x, y, z), Real(1.0))));
            }
        }
    }
    for a in 0..8u32 {
        for bit in [1u32, 2, 4] {
            if a & bit == 0 {
                builder.link_nodes(a, a | bit, XpbdLinkOptions::new(Real(1e-6)));
            }
        }
    }
    let mut nodes = NodesRowTable::new();
    let mut links = LinksRowTable::new();
    let map = builder.export(&mut nodes, &mut links);
    (nodes, links, map.nodes, map.links)
}

fn skinned_cube(
    weighting: Option<Weighting<Real>>,
) -> (FragmentSystem<Real, Point>, NodesRowTable<Real, Point>, LinksRowTable<Real>, Vec<u32>) {
    let (nodes, links, node_ids, link_ids) = cube();
    let mut grid: Grid<_> = VoxelGrid::new(|_| true, options(3.0, 3.0, 3.0, 1));
    grid.build(point(0.0, 0.0, 0.0));
    assert_eq!(grid.count(), 27);
    let mut system = FragmentSystem::new();
    if let Some(weighting) = weighting {
        system = system.with_weighting(weighting);
    }
    let owners: Vec<u32> = nodes.slots_map().iter().map(|at| at.saturating_sub(1)).collect();
    system.generate_fragments(
        &grid,
        (&owners, &nodes.handles()[1..], &nodes.current_pos_slice()[1..]),
    );
    (system, nodes, links, link_ids)
}

#[test]
fn fragment_state_starts_attached() {
    assert_eq!(FragmentState::default(), FragmentState::Attached);
    let table: FragmentsRowTable<Real, Point> = FragmentsRowTable::new();
    assert_eq!(table.len(), 1);
    assert_eq!(table.state_slice(), &[FragmentState::Attached]);
    assert_eq!(table.parents_slice(), &[[0, 0, 0, 0]]);
}

#[test]
fn voxel_cells_convert_to_hash_cells_and_back() {
    let voxel = VoxelCell { x: -3, y: 0, z: 7 };
    let cell: Cell = voxel.into();
    assert_eq!(cell, Cell { x: -3, y: 0, z: 7 });
    assert_eq!(VoxelCell::from(cell), voxel);
    assert_eq!(VoxelCell::default(), VoxelCell { x: 0, y: 0, z: 0 });
}

#[test]
fn grid_options_are_set_one_by_one() {
    let defaults: VoxelGridOptions<Real> = VoxelGridOptions::default();
    assert_eq!(
        (defaults.width, defaults.height, defaults.depth, defaults.density),
        (Real(1.0), Real(1.0), Real(1.0), 1)
    );
    let changed = defaults.with_width(Real(2.0)).with_height(Real(3.0)).with_depth(Real(4.0)).with_density(5);
    assert_eq!(
        (changed.width, changed.height, changed.depth, changed.density),
        (Real(2.0), Real(3.0), Real(4.0), 5)
    );
    let mut grid: Grid<_> = VoxelGrid::new(|_| true, defaults);
    assert_eq!(grid.options().density, 1);
    grid.options_mut().density = 4;
    assert_eq!(grid.options().density, 4);
    assert_eq!(grid.extent(), (4, 4, 4));
}

#[test]
fn grid_is_symmetric_around_its_centre() {
    let mut grid: Grid<_> = VoxelGrid::new(|_| true, options(3.0, 1.0, 2.0, 1));
    assert_eq!(grid.extent(), (3, 1, 2));
    grid.build(point(10.0, 20.0, 30.0));
    // cells -1..=1 by 0..=0 by -1..=1
    assert_eq!(grid.count(), 9);
    let cells: Vec<(i32, i32, i32)> = grid.voxels().iter().map(|(c, _)| (c.x, c.y, c.z)).collect();
    assert_eq!(
        cells,
        vec![
            (-1, 0, -1),
            (-1, 0, 0),
            (-1, 0, 1),
            (0, 0, -1),
            (0, 0, 0),
            (0, 0, 1),
            (1, 0, -1),
            (1, 0, 0),
            (1, 0, 1)
        ]
    );
    // a voxel lies at centre + cell / extent * size
    assert_eq!(grid.get_voxel(VoxelCell { x: 0, y: 0, z: 0 }), Some(point(10.0, 20.0, 30.0)));
    assert_eq!(grid.get_voxel(VoxelCell { x: 1, y: 0, z: -1 }), Some(point(11.0, 20.0, 29.0)));
    assert_eq!(grid.get_voxel(VoxelCell { x: 2, y: 0, z: 0 }), None);
    assert_eq!(grid.get_voxel(VoxelCell { x: 0, y: 1, z: 0 }), None);

    // rebuilding starts over
    grid.build(point(0.0, 0.0, 0.0));
    assert_eq!(grid.count(), 9);
    assert_eq!(grid.get_voxel(VoxelCell { x: -1, y: 0, z: 1 }), Some(point(-1.0, 0.0, 1.0)));
}

#[test]
fn grid_follows_generator_offsets_and_density() {
    let mut grid = VoxelGrid::with_offsets(
        |c: VoxelCell| (c.x + c.y + c.z) % 2 == 0,
        options(2.0, 2.0, 2.0, 2),
        |c: VoxelCell| point(0.0, 0.25 * c.y as f32, 0.0),
    );
    assert_eq!(grid.extent(), (4, 4, 4));
    grid.build(point(0.0, 0.0, 0.0));
    // 5 by 5 by 5 cells, those with an even sum kept
    assert_eq!(grid.count(), 63);
    assert!(grid.voxels().iter().all(|(c, _)| (c.x + c.y + c.z) % 2 == 0));
    assert_eq!(grid.get_voxel(VoxelCell { x: 1, y: 0, z: 0 }), None);
    // cell / extent * size = 2 / 4 * 2, and the offset a quarter per cell
    assert_eq!(grid.get_voxel(VoxelCell { x: 2, y: 2, z: 0 }), Some(point(1.0, 1.5, 0.0)));
    assert_eq!(grid.get_voxel(VoxelCell { x: -2, y: -1, z: 1 }), Some(point(-1.0, -0.75, 0.5)));

    let mut none: Grid<_> = VoxelGrid::new(|_| true, options(0.5, 3.0, 3.0, 1));
    none.build(point(0.0, 0.0, 0.0));
    assert_eq!(none.count(), 0);
    none.build_in(point(0.0, 0.0, 0.0), (1, 1, 1));
    assert_eq!(none.count(), 1);
    none.build_in(point(0.0, 0.0, 0.0), (2, -3, 2));
    assert_eq!(none.count(), 0);
}

#[test]
fn cube_is_skinned_with_twenty_seven_fragments() {
    for weighting in [
        None,
        Some(Weighting::DistanceSquared),
        Some(Weighting::InverseDistanceSquared { epsilon: Real(1e-3) }),
    ] {
        let (system, nodes, _, _) = skinned_cube(weighting);
        let table = system.table();
        assert_eq!(table.len(), 28);
        assert_eq!(table.handles()[1..], (1..=27).collect::<Vec<u32>>()[..]);
        for row in 1..table.len() {
            let parents = table.parents_slice()[row];
            let weights = table.influence_slice()[row];
            assert_eq!(table.state_slice()[row], FragmentState::Attached);
            assert_eq!(table.health_slice()[row], Real(100.0));
            assert_eq!(table.velocity_slice()[row], point(0.0, 0.0, 0.0));
            assert_eq!(table.forces_slice()[row], point(0.0, 0.0, 0.0));

            // four distinct parents among the eight corners
            for (k, &parent) in parents.iter().enumerate() {
                assert!((1..=8).contains(&parent));
                assert!(nodes.get_indirect(parent).is_some());
                assert!(!parents[..k].contains(&parent));
                assert!(system.fragments_of(parent).contains(&table.handles()[row]));
            }
            let total: f32 = weights.iter().map(|w| w.0).sum();
            assert!((total - 1.0).abs() <= 1e-5, "{total}");

            // the voxel is the rest offset plus the weighted parents
            let mut centre = glam::Vec3::ZERO;
            for k in 0..4 {
                let at = nodes.get_indirect(parents[k]).unwrap() as usize;
                centre += nodes.current_pos_slice()[at].0 * weights[k].0;
            }
            let voxel = table.position_slice()[row].0;
            let rebuilt = table.rest_offset_slice()[row].0 + centre;
            assert!((rebuilt - voxel).length() <= 1e-5);
        }
        let places: Vec<glam::Vec3> = table.position_slice()[1..].iter().map(|p| p.0).collect();
        for x in [-1.0f32, 0.0, 1.0] {
            for y in [-1.0f32, 0.0, 1.0] {
                for z in [-1.0f32, 0.0, 1.0] {
                    assert!(places.contains(&glam::Vec3::new(x, y, z)));
                }
            }
        }
    }
}

#[test]
fn weighting_decides_which_parent_counts_most() {
    // the voxel at the corner (1, 1, 1) sits on one of its parents
    let find = |system: &FragmentSystem<Real, Point>, nodes: &NodesRowTable<Real, Point>| {
        let table = system.table();
        let row = table
            .position_slice()
            .iter()
            .position(|p| p.0 == glam::Vec3::new(1.0, 1.0, 1.0))
            .unwrap();
        let parents = table.parents_slice()[row];
        let squared: Vec<f32> = parents
            .iter()
            .map(|&p| {
                let at = nodes.get_indirect(p).unwrap() as usize;
                nodes.current_pos_slice()[at].0.distance_squared(glam::Vec3::ONE)
            })
            .collect();
        (squared, table.influence_slice()[row])
    };
    let (far, nodes, _, _) = skinned_cube(Some(Weighting::DistanceSquared));
    let (squared, weights) = find(&far, &nodes);
    // its own cell first, then the first three cells of the ring around it
    assert_eq!(squared, vec![0.0, 12.0, 8.0, 8.0]);
    assert_eq!(weights[0], Real(0.0));
    assert!((weights[1].0 - 12.0 / 28.0).abs() < 1e-6);
    assert!((weights[2].0 - 8.0 / 28.0).abs() < 1e-6);
    assert!((weights[3].0 - 8.0 / 28.0).abs() < 1e-6);

    let (near, nodes, _, _) =
        skinned_cube(Some(Weighting::InverseDistanceSquared { epsilon: Real(1.0) }));
    let (squared, weights) = find(&near, &nodes);
    assert_eq!(squared, vec![0.0, 12.0, 8.0, 8.0]);
    let total = 1.0 + 1.0 / 13.0 + 2.0 / 9.0;
    assert!((weights[0].0 - 1.0 / total).abs() < 1e-6);
    assert!((weights[1].0 - 1.0 / 13.0 / total).abs() < 1e-6);
    assert!((weights[2].0 - 1.0 / 9.0 / total).abs() < 1e-6);
    assert!((weights[3].0 - 1.0 / 9.0 / total).abs() < 1e-6);

    // by default the nearest parent weighs most
    let (default, nodes, _, _) = skinned_cube(None);
    let (_, weights) = find(&default, &nodes);
    assert!(weights[0].0 > 0.99);
}

#[test]
fn voxels_far_from_every_node_are_passed_over() {
    let (nodes, _, _, _) = cube();
    let mut grid: Grid<_> = VoxelGrid::new(|_| true, options(3.0, 3.0, 3.0, 1));
    grid.build(point(100.0, 0.0, 0.0));
    let mut system: FragmentSystem<Real, Point> = FragmentSystem::new();
    let owners: Vec<u32> = nodes.slots_map().iter().map(|at| at.saturating_sub(1)).collect();
    system.generate_fragments(
        &grid,
        (&owners, &nodes.handles()[1..], &nodes.current_pos_slice()[1..]),
    );
    assert_eq!(system.table().len(), 1);
    // every node still got its list
    for node in 0..=8 {
        assert!(system.fragments_of(node).is_empty());
    }
}

#[test]
fn a_lone_node_is_the_only_parent() {
    let mut nodes: NodesRowTable<Real, Point> = NodesRowTable::new();
    let h = nodes.put((
        point(0.5, 0.5, 0.5),
        point(0.5, 0.5, 0.5),
        Real(1.0),
        Real(1.0),
        point(0.0, 0.0, 0.0),
        point(0.0, 0.0, 0.0),
    ));
    let mut grid: Grid<_> = VoxelGrid::new(|_| true, options(1.0, 1.0, 1.0, 1));
    grid.build(point(2.0, 0.5, 0.5));
    assert_eq!(grid.count(), 1);
    let mut system: FragmentSystem<Real, Point> =
        FragmentSystem::with_capacity(4).with_weighting(Weighting::DistanceSquared);
    system.generate_fragments(&grid, (&[0, 0], &[h], &nodes.current_pos_slice()[1..]));
    let table = system.table();
    assert_eq!(table.len(), 2);
    assert_eq!(table.parents_slice()[1], [h, 0, 0, 0]);
    assert_eq!(table.influence_slice()[1], [Real(1.0), Real(0.0), Real(0.0), Real(0.0)]);
    assert_eq!(table.rest_offset_slice()[1], point(1.5, 0.0, 0.0));
    assert_eq!(system.fragments_of(h), &[1]);
    // the three empty places count for the degenerate node
    assert_eq!(system.fragments_of(0), &[1, 1, 1]);
}

#[test]
fn a_broken_link_turns_the_fragments_of_its_nodes_into_debris() {
    let (mut system, _, links, link_ids) = skinned_cube(None);
    assert!(system.frame_disabled_frags_direct().is_empty());
    let broken = [link_ids[0]];
    let LinkNodes(a, b) = links.relation_slice()[links.get_indirect(broken[0]).unwrap() as usize];
    let mut expected: Vec<u32> = system.fragments_of(a).to_vec();
    for &f in system.fragments_of(b) {
        if !expected.contains(&f) {
            expected.push(f);
        }
    }
    system.handle_constraint_break(&broken, &links);

    let frame: Vec<u32> = system.frame_disabled_frags_direct().to_vec();
    let table = system.table();
    // no fragment was freed, so handles and dense positions agree
    assert_eq!(frame, expected);
    for row in 1..table.len() {
        let state = table.state_slice()[row];
        if frame.contains(&(row as u32)) {
            assert_eq!(state, FragmentState::Debris);
        } else {
            assert_eq!(state, FragmentState::Attached);
        }
    }
    assert!(system.disabled_nodes.contains(&a) && system.disabled_nodes.contains(&b));
    assert_eq!(system.disabled_nodes.len(), 2);
    assert_eq!(system.disabled_frags_alltime.len(), frame.len());
}

#[test]
fn propagating_the_same_break_twice_adds_nothing() {
    let (mut system, _, links, link_ids) = skinned_cube(None);
    let broken = [link_ids[3], link_ids[7], link_ids[3]];
    system.handle_constraint_break(&broken, &links);
    let first: Vec<u32> = system.frame_disabled_frags_direct().to_vec();
    assert!(!first.is_empty());
    let mut all_time: Vec<u32> = system.disabled_frags_alltime.iter().copied().collect();
    all_time.sort();
    let states = system.table().state_slice().to_vec();

    system.handle_constraint_break(&broken, &links);
    assert!(system.frame_disabled_frags_direct().is_empty());
    let mut again: Vec<u32> = system.disabled_frags_alltime.iter().copied().collect();
    again.sort();
    assert_eq!(again, all_time);
    assert_eq!(system.table().state_slice(), &states[..]);

    // a further link disables only what was not disabled before
    system.handle_constraint_break(&[link_ids[0]], &links);
    for at in system.frame_disabled_frags_direct() {
        assert!(!first.contains(at));
    }
}

#[test]
fn links_that_are_gone_resolve_to_the_degenerate_row() {
    let (mut system, _, mut links, link_ids) = skinned_cube(None);
    links.free(link_ids[0]);
    system.handle_constraint_break(&[link_ids[0], 0, 999], &links);
    // the degenerate link joins the degenerate node to itself, and that
    // node has no fragments here: every voxel found four parents
    assert!(system.frame_disabled_frags_direct().is_empty());
    assert_eq!(system.disabled_nodes.len(), 1);
    assert!(system.disabled_nodes.contains(&0));
}

#[test]
fn reset_forgets_nodes_but_not_fragments() {
    let (mut system, _, links, link_ids) = skinned_cube(None);
    system.handle_constraint_break(&[link_ids[0]], &links);
    let disabled = system.disabled_frags_alltime.len();
    system.reset();
    assert!(system.disabled_nodes.is_empty());
    assert!(system.node_map.is_empty());
    assert_eq!(system.table().len(), 28);
    assert_eq!(system.disabled_frags_alltime.len(), disabled);
    // nodes without a list have no fragments to disable
    system.handle_constraint_break(&[link_ids[5]], &links);
    assert!(system.frame_disabled_frags_direct().is_empty());
    assert_eq!(system.disabled_nodes.len(), 2);
}

#[test]
fn a_default_system_has_no_fragments() {
    let system: FragmentSystem<Real, Point> = FragmentSystem::default();
    assert_eq!(system.table().len(), 1);
    assert!(system.fragments_of(0).is_empty());
    assert!(system.frame_disabled_frags_direct().is_empty());
}
