use razed::numeric::{Scalar, Vector};

#[derive(Clone, Copy, Debug, PartialEq, PartialOrd)]
struct Real(f32);

impl Scalar for Real {
    fn ratio(num: i32, den: i32) -> Self {
        Real(num as f32 / den as f32)
    }
    fn from_u32(value: u32) -> Self {
        Real(value as f32)
    }
    fn from_i32(value: i32) -> Self {
        Real(value as f32)
    }
    fn to_i32(self) -> i32 {
        self.0 as i32
    }
    fn floor(self) -> Self {
        Real(self.0.floor())
    }
    fn plus(self, rhs: Self) -> Self {
        Real(self.0 + rhs.0)
    }
    fn minus(self, rhs: Self) -> Self {
        Real(self.0 - rhs.0)
    }
    fn times(self, rhs: Self) -> Self {
        Real(self.0 * rhs.0)
    }
    fn over(self, rhs: Self) -> Self {
        Real(self.0 / rhs.0)
    }
    fn negated(self) -> Self {
        Real(-self.0)
    }
    fn less(self, rhs: Self) -> bool {
        self.0 < rhs.0
    }
    fn at_most(self, rhs: Self) -> bool {
        self.0 <= rhs.0
    }
    fn equals(self, rhs: Self) -> bool {
        self.0 == rhs.0
    }
    fn absolute(self) -> Self {
        Real(self.0.abs())
    }
    fn maximum(self, rhs: Self) -> Self {
        Real(self.0.max(rhs.0))
    }
    fn is_normal(self) -> bool {
        self.0.is_normal()
    }
    fn to_bits(self) -> u32 {
        self.0.to_bits()
    }
}

#[derive(Clone, Copy, Debug, PartialEq)]
struct Point(glam::Vec3);

impl Vector<Real> for Point {
    fn new(x: Real, y: Real, z: Real) -> Self {
        Point(glam::Vec3::new(x.0, y.0, z.0))
    }
    fn x(self) -> Real {
        Real(self.0.x)
    }
    fn y(self) -> Real {
        Real(self.0.y)
    }
    fn z(self) -> Real {
        Real(self.0.z)
    }
    fn plus(self, rhs: Self) -> Self {
        Point(self.0 + rhs.0)
    }
    fn minus(self, rhs: Self) -> Self {
        Point(self.0 - rhs.0)
    }
    fn scaled(self, factor: Real) -> Self {
        Point(self.0 * factor.0)
    }
    fn divided(self, divisor: Real) -> Self {
        Point(self.0 / divisor.0)
    }
    fn length(self) -> Real {
        Real(self.0.length())
    }
    fn distance_squared(self, other: Self) -> Real {
        Real(self.0.distance_squared(other.0))
    }
    fn dot(self, other: Self) -> Real {
        Real(self.0.dot(other.0))
    }
    fn normalized(self) -> Self {
        Point(self.0.normalize())
    }
    fn negated(self) -> Self {
        Point(-self.0)
    }
}

fn point(x: f32, y: f32, z: f32) -> Point {
    Point(glam::Vec3::new(x, y, z))
}

use razed::frame::{
    DrawArraysIndirectCommand, GpuCommandQueue, PartitionedTriBuffer, Renderable, SectionCursor,
    StorageSection, TriBuffer,
};
use razed::layout::{
    FrameDataBuffers, LayoutEntityData as E, LayoutFragmentData as F, LayoutXpbdDebugData as X,
};

fn command(i: u32) -> DrawArraysIndirectCommand {
    DrawArraysIndirectCommand { count: 3 * i, instance_count: i, first_vertex: i + 1, base_instance: i + 2 }
}

#[test]
fn sections_rotate_in_threes() {
    let first = StorageSection::First;
    let second = StorageSection::Second;
    let third = StorageSection::Third;
    assert_eq!([first.as_index(), second.as_index(), third.as_index()], [0, 1, 2]);
    assert_eq!([first.next(), second.next(), third.next()], [second, third, first]);
    assert_eq!([first.previous(), second.previous(), third.previous()], [third, first, second]);
    assert_eq!(StorageSection::from_index(0), Some(first));
    assert_eq!(StorageSection::from_index(2), Some(third));
    assert_eq!(StorageSection::from_index(3), None);
    for section in [first, second, third] {
        assert_eq!(section.next().next().next(), section);
        assert_eq!(section.next().previous(), section);
    }

    let mut cursor = SectionCursor::new();
    assert_eq!(cursor.producer_section(), first);
    assert_eq!(cursor.consumer_section(), third);
    assert_eq!(cursor.flip(), first);
    assert_eq!(cursor.producer_section(), second);
    assert_eq!(cursor.consumer_section(), first);
    assert_eq!(cursor.flip(), second);
    assert_eq!(cursor.flip(), third);
    assert_eq!(cursor.producer_section(), first);
}

#[test]
fn consumer_reads_what_the_producer_flipped() {
    let mut commands: TriBuffer<DrawArraysIndirectCommand> = TriBuffer::new(2048);
    let mut queue = GpuCommandQueue::with_capacity(512);
    let mut cursor = SectionCursor::new();

    for i in 0..100 {
        queue.push(command(i));
    }
    assert_eq!(queue.len(), 100);
    assert_eq!(queue.upload(&mut commands, cursor.producer_section()), Ok(()));
    queue.clear();
    let handed = cursor.flip();

    // the producer goes on with another section
    assert_ne!(cursor.producer_section(), handed);
    assert_eq!(cursor.consumer_section(), handed);
    for i in 0..7 {
        queue.push(command(1000 + i));
    }
    assert_eq!(queue.upload(&mut commands, cursor.producer_section()), Ok(()));

    // the consumer finds the hundred commands, in order
    let read = commands.view_section(cursor.consumer_section());
    assert_eq!(read.len(), 100);
    for (i, c) in read.iter().enumerate() {
        assert_eq!(*c, command(i as u32));
    }
    assert_eq!(commands.view_section(cursor.producer_section()).len(), 7);
    assert!(commands.view_section(cursor.producer_section().next()).is_empty());
}

#[test]
fn commands_beyond_the_capacity_are_left_out() {
    let mut commands: TriBuffer<DrawArraysIndirectCommand> = TriBuffer::new(4);
    let mut queue = GpuCommandQueue::with_capacity(0);
    for i in 0..4 {
        queue.push(command(i));
    }
    assert_eq!(queue.upload(&mut commands, StorageSection::Second), Ok(()));
    assert_eq!(commands.view_section(StorageSection::Second).len(), 4);
    for i in 4..7 {
        queue.push(command(i));
    }
    assert_eq!(queue.upload(&mut commands, StorageSection::Second), Err(3));
    let kept = commands.view_section(StorageSection::Second);
    assert_eq!(kept.len(), 4);
    assert_eq!(kept[3], command(3));
    assert!(commands.view_section(StorageSection::First).is_empty());
    // a shorter upload replaces the longer one
    assert_eq!(commands.upload(StorageSection::Second, &[command(9)]), Ok(()));
    assert_eq!(commands.view_section(StorageSection::Second), &[command(9)]);
}

#[test]
fn blit_copies_into_one_partition_of_one_section() {
    let mut buffer: PartitionedTriBuffer<3> = PartitionedTriBuffer::new(&[4, 6]);
    for section in [StorageSection::First, StorageSection::Second, StorageSection::Third] {
        assert_eq!(buffer.view_part(section, 0), &[0, 0, 0, 0]);
        assert_eq!(buffer.view_part(section, 1), &[0; 6]);
        assert!(buffer.view_part(section, 2).is_empty());
    }
    assert_eq!(buffer.blit_part(StorageSection::Second, 1, &[7, 8, 9], 2), Ok(()));
    assert_eq!(buffer.view_part(StorageSection::Second, 1), &[0, 0, 7, 8, 9, 0]);
    assert_eq!(buffer.view_part(StorageSection::First, 1), &[0; 6]);
    assert_eq!(buffer.view_part(StorageSection::Second, 0), &[0; 4]);

    // what does not fit is left out and counted
    assert_eq!(buffer.blit_part(StorageSection::Second, 1, &[1, 2, 3], 4), Err(1));
    assert_eq!(buffer.view_part(StorageSection::Second, 1), &[0, 0, 7, 8, 1, 2]);
    assert_eq!(buffer.blit_part(StorageSection::Second, 1, &[5, 5], 6), Err(2));
    assert_eq!(buffer.blit_part(StorageSection::Second, 1, &[5, 5], 60), Err(2));
    assert_eq!(buffer.blit_part(StorageSection::Second, 2, &[5], 0), Err(1));
    assert_eq!(buffer.blit_part(StorageSection::Second, 3, &[5, 6, 7], 0), Err(3));
    assert_eq!(buffer.blit_part(StorageSection::Second, 1, &[], 6), Ok(()));
    assert_eq!(buffer.view_part(StorageSection::Second, 1), &[0, 0, 7, 8, 1, 2]);
}

#[test]
fn padded_blit_leaves_the_fourth_lane_alone() {
    let mut buffer: PartitionedTriBuffer<2> = PartitionedTriBuffer::new(&[0, 14]);
    let section = StorageSection::Third;
    assert_eq!(buffer.blit_part(section, 1, &[9; 14], 0), Ok(()));
    let points = [[1, 2, 3], [4, 5, 6]];
    assert_eq!(buffer.blit_part_padded(section, 1, &points, 1, 4), Ok(()));
    assert_eq!(buffer.view_part(section, 1), &[9, 9, 9, 9, 1, 2, 3, 9, 4, 5, 6, 9, 9, 9]);

    // the third element would need the words 12, 13 and 14
    let points = [[1, 1, 1], [2, 2, 2], [3, 3, 3], [4, 4, 4]];
    assert_eq!(buffer.blit_part_padded(section, 1, &points, 1, 4), Err(2));
    assert_eq!(buffer.view_part(section, 1), &[9, 9, 9, 9, 1, 1, 1, 9, 2, 2, 2, 9, 9, 9]);

    // with a stride of three the elements are packed
    assert_eq!(buffer.blit_part_padded(section, 1, &points, 0, 3), Ok(()));
    assert_eq!(buffer.view_part(section, 1), &[1, 1, 1, 2, 2, 2, 3, 3, 3, 4, 4, 4, 9, 9]);
    assert_eq!(buffer.blit_part_padded(section, 1, &points, 0, 7), Err(2));
    assert_eq!(buffer.blit_part_padded(section, 0, &points, 0, 4), Err(4));
    assert_eq!(buffer.blit_part_padded(section, 5, &points, 0, 4), Err(4));
    assert_eq!(buffer.view_part(StorageSection::First, 1), &[0; 14]);
}

#[test]
fn partitions_sit_at_their_storage_slots() {
    let entity = [E::EntityIndexMap, E::MeshData, E::ImapEntityData, E::PodPositions, E::PodRotations, E::PodScales];
    assert_eq!(entity.map(|p| p.bind()), [0, 1, 2, 3, 4, 5]);
    assert_eq!(entity.map(|p| p.lanes()), [2, 1, 1, 4, 4, 4]);
    let lattice = [X::Constraints, X::ImapNodes, X::PodNodes, X::ISelected];
    assert_eq!(lattice.map(|p| p.bind()), [0, 1, 2, 3]);
    assert_eq!(lattice.map(|p| p.lanes()), [2, 1, 4, 1]);
    let fragment = [
        F::PodParents,
        F::PodWeights,
        F::PodOffsets,
        F::PodStates,
        F::ImapNodes,
        F::PodNodesPositions,
        F::PodNodesRotors,
    ];
    assert_eq!(fragment.map(|p| p.bind()), [0, 1, 2, 3, 4, 5, 6]);
    assert_eq!(fragment.map(|p| p.lanes()), [4, 4, 4, 1, 1, 4, 4]);

    let buffers = FrameDataBuffers::new();
    let section = StorageSection::First;
    assert_eq!(buffers.command.capacity, 2048);
    assert_eq!(buffers.xpbd_debug_link_count, 0);
    assert_eq!(buffers.scene.view_part(section, E::EntityIndexMap.bind()).len(), 2 * 8192);
    assert_eq!(buffers.scene.view_part(section, E::PodScales.bind()).len(), 4 * 8192);
    assert_eq!(buffers.scene.view_part(section, 7).len(), 0);
    assert_eq!(buffers.xpbd_debug.view_part(section, X::Constraints.bind()).len(), 2 * 4096);
    assert_eq!(buffers.xpbd_debug.view_part(section, X::ImapNodes.bind()).len(), 512);
    assert_eq!(buffers.xpbd_debug.view_part(section, X::PodNodes.bind()).len(), 4 * 4096);
    assert_eq!(buffers.xpbd_debug.view_part(section, X::ISelected.bind()).len(), 1);
    assert_eq!(buffers.fragments.view_part(section, F::PodParents.bind()).len(), 4 * 16384);
    assert_eq!(buffers.fragments.view_part(section, F::PodStates.bind()).len(), 16384);
    assert_eq!(buffers.fragments.view_part(section, F::PodNodesRotors.bind()).len(), 4 * 512);

    let renderable = Renderable::default();
    assert_eq!((renderable.mesh_id, renderable.data_handle), (0, 0));
}
