use razed::numeric::{Scalar, Vector};

#[derive(Clone, Copy, Debug, PartialEq, PartialOrd)]
struct Real(f32);

impl Scalar for Real {
    fn ratio(num: i32, den: i32) -> Self {
        Real(num as f32 / den as f32)
    }
    fn from_u32(value: u32) -> Self {
        Real(value as f32)
    }
    fn from_i32(value: i32) -> Self {
        Real(value as f32)
    }
    fn to_i32(self) -> i32 {
        self.0 as i32
    }
    fn floor(self) -> Self {
        Real(self.0.floor())
    }
    fn plus(self, rhs: Self) -> Self {
        Real(self.0 + rhs.0)
    }
    fn minus(self, rhs: Self) -> Self {
        Real(self.0 - rhs.0)
    }
    fn times(self, rhs: Self) -> Self {
        Real(self.0 * rhs.0)
    }
    fn over(self, rhs: Self) -> Self {
        Real(self.0 / rhs.0)
    }
    fn negated(self) -> Self {
        Real(-self.0)
    }
    fn less(self, rhs: Self) -> bool {
        self.0 < rhs.0
    }
    fn at_most(self, rhs: Self) -> bool {
        self.0 <= rhs.0
    }
    fn equals(self, rhs: Self) -> bool {
        self.0 == rhs.0
    }
    fn absolute(self) -> Self {
        Real(self.0.abs())
    }
    fn maximum(self, rhs: Self) -> Self {
        Real(self.0.max(rhs.0))
    }
    fn is_normal(self) -> bool {
        self.0.is_normal()
    }
    fn to_bits(self) -> u32 {
        self.0.to_bits()
    }
}

#[derive(Clone, Copy, Debug, PartialEq)]
struct Point(glam::Vec3);

impl Vector<Real> for Point {
    fn new(x: Real, y: Real, z: Real) -> Self {
        Point(glam::Vec3::new(x.0, y.0, z.0))
    }
    fn x(self) -> Real {
        Real(self.0.x)
    }
    fn y(self) -> Real {
        Real(self.0.y)
    }
    fn z(self) -> Real {
        Real(self.0.z)
    }
    fn plus(self, rhs: Self) -> Self {
        Point(self.0 + rhs.0)
    }
    fn minus(self, rhs: Self) -> Self {
        Point(self.0 - rhs.0)
    }
    fn scaled(self, factor: Real) -> Self {
        Point(self.0 * factor.0)
    }
    fn divided(self, divisor: Real) -> Self {
        Point(self.0 / divisor.0)
    }
    fn length(self) -> Real {
        Real(self.0.length())
    }
    fn distance_squared(self, other: Self) -> Real {
        Real(self.0.distance_squared(other.0))
    }
    fn dot(self, other: Self) -> Real {
        Real(self.0.dot(other.0))
    }
    fn normalized(self) -> Self {
        Point(self.0.normalize())
    }
    fn negated(self) -> Self {
        Point(-self.0)
    }
}

fn point(x: f32, y: f32, z: f32) -> Point {
    Point(glam::Vec3::new(x, y, z))
}

use razed::numeric::Rotation;

#[derive(Clone, Copy, Debug, PartialEq)]
struct Turn(glam::Quat);

impl Rotation<Real, Point> for Turn {
    fn identity() -> Self {
        Turn(glam::Quat::IDENTITY)
    }
    fn from_rotation_arc(from: Point, to: Point) -> Self {
        Turn(glam::Quat::from_rotation_arc(from.0, to.0))
    }
    fn dot(self, rhs: Self) -> Real {
        Real(self.0.dot(rhs.0))
    }
    fn negated(self) -> Self {
        Turn(-self.0)
    }
    fn plus(self, rhs: Self) -> Self {
        Turn(self.0 + rhs.0)
    }
    fn lanes(self) -> [Real; 4] {
        [Real(self.0.x), Real(self.0.y), Real(self.0.z), Real(self.0.w)]
    }
}

use razed::fragment::FragmentState;
use razed::frame::{DrawArraysIndirectCommand, GpuCommandQueue, Renderable, StorageSection};
use razed::geometry::Ray;
use razed::lattice::{XpbdLatticeBuilder, XpbdLinkOptions, XpbdNodeOptions};
use razed::layout::{FrameDataBuffers, LayoutEntityData, LayoutFragmentData, LayoutXpbdDebugData};
use razed::state::State;
use razed::structure::create_structure_lattice;
use razed::voxel::{VoxelCell, VoxelGrid, VoxelGridOptions};

type Scene = State<Real, Point, Turn>;
type Offset = fn(VoxelCell) -> Point;

fn bits(x: f32) -> u32 {
    x.to_bits()
}

fn cube_lattice() -> XpbdLatticeBuilder<Real, Point> {
    let mut builder = XpbdLatticeBuilder::new();
    for x in [-1.0f32, 1.0] {
        for y in [-1.0f32, 1.0] {
            for z in [-1.0f32, 1.0] {
                builder.node(XpbdNodeOptions::new(point(x, y, z), Real(1.0)).with_fixed(y < 0.0));
            }
        }
    }
    for a in 0..8u32 {
        for bit in [1u32, 2, 4] {
            if a & bit == 0 {
                builder.link_nodes(a, a | bit, XpbdLinkOptions::new(Real(1e-6)));
            }
        }
    }
    builder
}

fn cube_scene() -> (Scene, Vec<u32>, Vec<u32>) {
    let mut scene = Scene::new();
    let mut grid: VoxelGrid<Real, Point, _, Offset> = VoxelGrid::new(
        |_| true,
        VoxelGridOptions::new(Real(3.0), Real(3.0), Real(3.0), 1),
    );
    grid.build(point(0.0, 0.0, 0.0));
    let ids = scene.register_structure(&grid, cube_lattice());
    (scene, ids.nodes, ids.links)
}

#[test]
fn a_new_scene_is_empty() {
    let scene = Scene::new();
    assert!(scene.renderables.is_empty());
    assert!(scene.mesh_ids.is_empty());
    assert_eq!(scene.entity_data.len(), 1);
    assert_eq!(scene.xpbd.nodes().len(), 1);
    assert_eq!(scene.xpbd.links().len(), 1);
    assert_eq!(scene.fragments.table().len(), 1);
    assert_eq!(scene.frag_map, vec![0]);
    assert_eq!(scene.selection, None);
    assert_eq!(scene.xpbd.solver.ground_level, Some(Real(-15.0)));
    assert!(scene.xpbd.solver.allow_breaking);
}

#[test]
fn renderables_get_a_row_of_entity_data() {
    let mut scene = Scene::new();
    let turn = [Real(0.0), Real(0.0), Real(0.0), Real(1.0)];
    let a = scene.create_renderable(7, point(1.0, 2.0, 3.0), turn, point(4.0, 5.0, 6.0));
    let b = scene.create_renderable(8, point(0.0, 0.0, 0.0), turn, point(1.0, 1.0, 1.0));
    assert_eq!((a, b), (0, 1));
    assert_eq!(
        scene.renderables,
        vec![Renderable { mesh_id: 7, data_handle: 1 }, Renderable { mesh_id: 8, data_handle: 2 }]
    );
    assert_eq!(scene.entity_data.position_slice()[1], [Real(1.0), Real(2.0), Real(3.0), Real(1.0)]);
    assert_eq!(scene.entity_data.scale_slice()[1], [Real(4.0), Real(5.0), Real(6.0), Real(1.0)]);
    assert_eq!(scene.entity_data.rotation_slice()[2], turn);
    assert_eq!(scene.entity_data.handles(), &[0, 1, 2]);
    scene.entity_data.free(1);
    assert_eq!(scene.entity_data.handles(), &[0, 2]);
    assert_eq!(scene.entity_data.get_indirect(2), Some(1));
    assert_eq!(scene.entity_data.get_indirect_unchecked(1), 0);
}

#[test]
fn registering_a_structure_skins_it() {
    let (scene, nodes, links) = cube_scene();
    assert_eq!(nodes, (1..=8).collect::<Vec<u32>>());
    assert_eq!(links, (1..=12).collect::<Vec<u32>>());
    assert_eq!(scene.fragments.table().len(), 28);
    assert_eq!(scene.renderables.len(), 27);
    assert_eq!(scene.frag_map, (0..28).map(|i: u32| i.saturating_sub(1)).collect::<Vec<u32>>());
    assert_eq!(scene.entity_data.len(), 28);
    for row in 1..28usize {
        let renderable = scene.renderables[scene.frag_map[row] as usize];
        assert_eq!(renderable.mesh_id, 0);
        let at = scene.entity_data.get_indirect(renderable.data_handle).unwrap() as usize;
        let place = scene.fragments.table().position_slice()[row].0;
        assert_eq!(
            scene.entity_data.position_slice()[at],
            [Real(place.x), Real(place.y), Real(place.z), Real(1.0)]
        );
        assert_eq!(scene.entity_data.rotation_slice()[at], [Real(0.0), Real(0.0), Real(0.0), Real(1.0)]);
        assert_eq!(scene.entity_data.scale_slice()[at], [Real(1.0); 4]);
    }
}

#[test]
fn a_second_structure_is_skinned_by_its_own_nodes() {
    let (mut scene, _, _) = cube_scene();
    let mut builder = XpbdLatticeBuilder::new();
    builder.node(XpbdNodeOptions::new(point(50.0, 0.0, 0.0), Real(1.0)));
    builder.node(XpbdNodeOptions::new(point(52.0, 0.0, 0.0), Real(1.0)));
    builder.link(XpbdLinkOptions::new(Real(1e-6)));
    let mut grid: VoxelGrid<Real, Point, _, Offset> = VoxelGrid::new(
        |c: VoxelCell| c.y == 0 && c.z == 0,
        VoxelGridOptions::new(Real(2.0), Real(1.0), Real(1.0), 1),
    );
    grid.build(point(51.0, 0.0, 0.0));
    assert_eq!(grid.count(), 3);
    let ids = scene.register_structure(&grid, builder);
    assert_eq!(ids.nodes, vec![9, 10]);
    assert_eq!(ids.links, vec![13]);
    assert_eq!(scene.fragments.table().len(), 31);
    assert_eq!(scene.renderables.len(), 30);
    assert_eq!(scene.frag_map.len(), 31);
    for row in 28..31 {
        let parents = scene.fragments.table().parents_slice()[row];
        assert!(parents[..2].iter().all(|p| ids.nodes.contains(p)));
        assert_eq!(parents[2..], [0, 0]);
    }

    // an empty lattice adds nothing
    let ids = scene.register_structure(&grid, XpbdLatticeBuilder::new());
    assert!(ids.nodes.is_empty() && ids.links.is_empty());
    assert_eq!(scene.fragments.table().len(), 31);
    assert_eq!(scene.renderables.len(), 30);
}

#[test]
fn a_tick_hides_the_fragments_that_became_debris() {
    let (mut scene, _, links) = cube_scene();
    let wind = point(1.0, -9.81, 1.0);
    scene.simulate(Real(1.0 / 60.0), wind);
    assert!(scene.fragments.frame_disabled_frags_direct().is_empty());
    assert!(scene.entity_data.position_slice()[1..].iter().all(|p| p[3] == Real(1.0)));

    // a link that the solver reports as broken and that is still looked up
    // in the table disables the fragments of its two nodes
    scene.xpbd.solver.broken_links.push(links[0]);
    scene.simulate(Real(1.0 / 60.0), wind);
    let frame: Vec<u32> = scene.fragments.frame_disabled_frags_direct().to_vec();
    assert!(!frame.is_empty());
    for row in 1..28u32 {
        let renderable = scene.renderables[scene.frag_map[row as usize] as usize];
        let at = scene.entity_data.get_indirect(renderable.data_handle).unwrap() as usize;
        let lane = scene.entity_data.position_slice()[at][3];
        if frame.contains(&row) {
            assert_eq!(scene.fragments.table().state_slice()[row as usize], FragmentState::Debris);
            assert_eq!(lane, Real(0.0));
        } else {
            assert_eq!(scene.fragments.table().state_slice()[row as usize], FragmentState::Attached);
            assert_eq!(lane, Real(1.0));
        }
    }
    // the step cleared the list of broken links and broke nothing itself
    assert!(scene.xpbd.frame_broken_links().is_empty());
    scene.simulate(Real(1.0 / 60.0), wind);
    assert!(scene.fragments.frame_disabled_frags_direct().is_empty());
}

#[test]
fn a_ray_picks_the_nearest_link_and_delete_breaks_it() {
    let (mut scene, nodes, links) = cube_scene();
    // along the edge from (-1,-1,-1) to (-1,-1,1) no ray from outside hits
    // first; a ray down the x axis at y = -1, z = 1 meets the corner
    // (-1,-1,1) and its links
    scene.pick_link(Ray::new(point(-5.0, -1.0, 0.0), point(1.0, 0.0, 0.0)));
    let picked = scene.selection.expect("a link is picked");
    let at = scene.xpbd.links().get_indirect(picked).unwrap() as usize;
    let relation = scene.xpbd.links().relation_slice()[at];
    // the edge between the corners (-1,-1,-1) and (-1,-1,1), met in its middle
    assert_eq!((relation.0, relation.1), (nodes[0], nodes[1]));
    assert!(links.contains(&picked));

    // a ray that passes nothing keeps the selection
    scene.pick_link(Ray::new(point(-5.0, 40.0, 0.0), point(1.0, 0.0, 0.0)));
    assert_eq!(scene.selection, Some(picked));

    scene.break_selected();
    assert_eq!(scene.selection, None);
    assert_eq!(scene.xpbd.links().len(), 12);
    assert!(scene.xpbd.links().get_indirect(picked).is_none());
    scene.break_selected();
    assert_eq!(scene.xpbd.links().len(), 12);
}

#[test]
fn upload_copies_the_frame_into_one_section() {
    let (mut scene, nodes, links) = cube_scene();
    scene.mesh_ids = vec![40, 41];
    scene.selection = Some(links[4]);
    scene.rotors.recompute_basis_cache(&scene.xpbd.nodes, &scene.xpbd.links, true);
    scene.rotors.recompute_relatives(&scene.xpbd.nodes, &scene.xpbd.links);
    scene.rotors.recompute_rotations(&scene.xpbd.nodes);
    let mut buffers = FrameDataBuffers::new();
    let mut queue = GpuCommandQueue::with_capacity(512);
    queue.push(DrawArraysIndirectCommand { count: 3, instance_count: 1, first_vertex: 0, base_instance: 0 });
    let section = StorageSection::Second;
    assert_eq!(scene.upload_gpu(&mut buffers, section, &mut queue), Ok(()));

    assert_eq!(queue.len(), 0);
    let commands = buffers.command.view_section(section);
    assert_eq!(commands.len(), 2);
    assert_eq!(
        commands[1],
        DrawArraysIndirectCommand { count: 36, instance_count: 27, first_vertex: 0, base_instance: 0 }
    );
    assert!(buffers.command.view_section(StorageSection::First).is_empty());
    assert_eq!(buffers.xpbd_debug_link_count, 13);

    let fragments = &buffers.fragments;
    let imap = fragments.view_part(section, LayoutFragmentData::ImapNodes.bind());
    assert_eq!(imap[..10], [0, 1, 2, 3, 4, 5, 6, 7, 8, 0]);
    let positions = fragments.view_part(section, LayoutFragmentData::PodNodesPositions.bind());
    // the node (1, -1, 1) is the sixth row; its fourth lane is untouched
    assert_eq!(nodes[5], 6);
    assert_eq!(positions[24..28], [bits(1.0), bits(-1.0), bits(1.0), 0]);
    let rotors = fragments.view_part(section, LayoutFragmentData::PodNodesRotors.bind());
    assert_eq!(rotors[4..8], [bits(0.0), bits(0.0), bits(0.0), bits(4.0)]);
    let parents = fragments.view_part(section, LayoutFragmentData::PodParents.bind());
    assert_eq!(parents[..4], [0, 0, 0, 0]);
    assert_eq!(parents[4..8], scene.fragments.table().parents_slice()[1]);
    let weights = fragments.view_part(section, LayoutFragmentData::PodWeights.bind());
    let expected: Vec<u32> =
        scene.fragments.table().influence_slice()[27].iter().map(|w| bits(w.0)).collect();
    assert_eq!(weights[108..112], expected[..]);
    let offsets = fragments.view_part(section, LayoutFragmentData::PodOffsets.bind());
    let offset = scene.fragments.table().rest_offset_slice()[2].0;
    assert_eq!(offsets[8..12], [bits(offset.x), bits(offset.y), bits(offset.z), 0]);
    assert!(fragments.view_part(section, LayoutFragmentData::PodStates.bind()).iter().all(|w| *w == 0));
    assert!(fragments
        .view_part(StorageSection::First, LayoutFragmentData::ImapNodes.bind())
        .iter()
        .all(|w| *w == 0));

    let view = &buffers.scene;
    let entities = view.view_part(section, LayoutEntityData::EntityIndexMap.bind());
    assert_eq!(entities[..6], [0, 1, 0, 2, 0, 3]);
    assert_eq!(view.view_part(section, LayoutEntityData::MeshData.bind())[..3], [40, 41, 0]);
    assert_eq!(view.view_part(section, LayoutEntityData::ImapEntityData.bind())[..4], [0, 1, 2, 3]);
    let place = scene.fragments.table().position_slice()[1].0;
    assert_eq!(
        view.view_part(section, LayoutEntityData::PodPositions.bind())[4..8],
        [bits(place.x), bits(place.y), bits(place.z), bits(1.0)]
    );
    assert_eq!(
        view.view_part(section, LayoutEntityData::PodRotations.bind())[4..8],
        [0, 0, 0, bits(1.0)]
    );
    assert_eq!(view.view_part(section, LayoutEntityData::PodScales.bind())[4..8], [bits(1.0); 4]);

    let lattice = &buffers.xpbd_debug;
    let constraints = lattice.view_part(section, LayoutXpbdDebugData::Constraints.bind());
    assert_eq!(constraints[..2], [0, 0]);
    let relation = scene.xpbd.links().relation_slice()[5];
    assert_eq!(constraints[10..12], [relation.0, relation.1]);
    assert_eq!(lattice.view_part(section, LayoutXpbdDebugData::ImapNodes.bind())[..9], imap[..9]);
    assert_eq!(
        lattice.view_part(section, LayoutXpbdDebugData::PodNodes.bind())[24..28],
        [bits(1.0), bits(-1.0), bits(1.0), 0]
    );
    assert_eq!(lattice.view_part(section, LayoutXpbdDebugData::ISelected.bind()), &[5]);
}

#[test]
fn upload_reports_the_commands_that_did_not_fit() {
    let scene = Scene::new();
    let mut buffers = FrameDataBuffers::new();
    let mut queue = GpuCommandQueue::with_capacity(0);
    for _ in 0..2050 {
        queue.push(DrawArraysIndirectCommand::default());
    }
    assert_eq!(scene.upload_gpu(&mut buffers, StorageSection::First, &mut queue), Err(3));
    assert_eq!(buffers.command.view_section(StorageSection::First).len(), 2048);
    assert_eq!(queue.len(), 0);
    assert_eq!(buffers.xpbd_debug_link_count, 1);
    assert_eq!(
        buffers.xpbd_debug.view_part(StorageSection::First, LayoutXpbdDebugData::ISelected.bind()),
        &[0]
    );
}

#[test]
fn a_building_stands_and_is_skinned() {
    let mut scene = Scene::new();
    let centre = point(0.0, -15.0, 0.0);
    let lattice = create_structure_lattice(centre, Real(12.0), Real(6.0), Real(16.0), 4);
    let mut grid: VoxelGrid<Real, Point, _, Offset> = VoxelGrid::new(
        |_| true,
        VoxelGridOptions::default().with_width(Real(12.0)).with_height(Real(24.0)).with_depth(Real(16.0)),
    );
    grid.build(point(0.0, -3.0, 0.0));
    assert_eq!(grid.count(), 13 * 25 * 17);
    let ids = scene.register_structure(&grid, lattice);
    assert_eq!(ids.nodes.len(), 36);
    assert_eq!(ids.links.len(), 108);
    let made = scene.fragments.table().len() - 1;
    assert!(made > 0 && made <= grid.count());
    assert_eq!(scene.renderables.len(), made);
    for row in 1..=made {
        let parents = scene.fragments.table().parents_slice()[row];
        assert!(parents.iter().all(|p| *p == 0 || ids.nodes.contains(p)));
        assert_ne!(parents[0], 0);
    }
    for _ in 0..10 {
        scene.simulate(Real(1.0 / 60.0), point(1.0, -9.81, 1.0));
    }
    assert_eq!(scene.xpbd.nodes().len(), 37);
    // the anchors have not moved
    assert_eq!(scene.xpbd.nodes().current_pos_slice()[1], point(-6.0, -15.0, -8.0));
}

#[test]
fn a_default_scene_is_a_new_scene() {
    let scene = Scene::default();
    assert!(scene.renderables.is_empty());
    assert_eq!(scene.entity_data.len(), 1);
    assert_eq!(scene.xpbd.nodes().len(), 1);
    assert_eq!(scene.xpbd.links().len(), 1);
    assert_eq!(scene.fragments.table().len(), 1);
    assert_eq!(scene.frag_map, vec![0]);
    assert_eq!(scene.xpbd.solver.ground_level, Some(Real(-15.0)));
}

#[test]
fn an_entity_is_added_like_a_renderable() {
    let mut scene = Scene::new();
    let id = scene.create_entity(3, point(1.0, 2.0, 3.0), [Real(0.0), Real(0.0), Real(0.0), Real(1.0)], point(2.0, 2.0, 2.0));
    assert_eq!(id, 0);
    assert_eq!(scene.renderables.len(), 1);
    assert_eq!(scene.renderables[0].mesh_id, 3);
    let row = scene.entity_data.get_indirect(scene.renderables[0].data_handle).unwrap() as usize;
    assert_eq!(scene.entity_data.position_slice()[row], [Real(1.0), Real(2.0), Real(3.0), Real(1.0)]);
    assert_eq!(scene.entity_data.scale_slice()[row], [Real(2.0), Real(2.0), Real(2.0), Real(1.0)]);
}
