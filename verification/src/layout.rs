//! What the renderer finds where.
//!
//! Every family of buffers is cut into partitions, and the renderer binds
//! partition `p` of a family to storage slot `p`. The layouts here name the
//! partitions of each family, and say how many elements each one holds and
//! how many words an element takes.

use vstd::prelude::*;
use crate::frame::{DrawArraysIndirectCommand, PartitionedTriBuffer, TriBuffer};

verus! {

/// The partitions of the scene buffer.
pub const RENDER_STORAGE_PARTS: usize = 8;

/// The entities that the scene buffer has room for.
pub const ENTITY_ALLOCATION: usize = 8192;

/// The draw commands that a section has room for.
pub const COMMAND_QUEUE_ALLOC: usize = 2048;

/// The links that the lattice view has room for.
pub const XPBD_CONSTRAINTS_ALLOC: usize = 4096;

/// The nodes that the lattice view and the fragment buffer have room for.
pub const XPBD_NODES_ALLOC: usize = 512;

/// The partitions of the lattice view.
pub const XPBD_DEBUG_PARTS: usize = 4;

/// The fragments that the fragment buffer has room for.
pub const FRAGMENTS_ALLOC: usize = 16384;

/// The partitions of the fragment buffer.
pub const FRAGMENTS_DATA_PARTS: usize = 7;

/// The partitions of the scene buffer.
#[derive(Clone, Copy, Debug, PartialEq, Eq, Hash, Structural)]
pub enum LayoutEntityData {
    /// Mesh and data handle of every renderable: two words each.
    EntityIndexMap,
    /// The mesh numbers.
    MeshData,
    /// The handle that owns each row of entity data.
    ImapEntityData,
    /// Positions, four lanes each.
    PodPositions,
    /// Rotations, as quaternions of four lanes.
    PodRotations,
    /// Scales, four lanes each.
    PodScales,
}

impl LayoutEntityData {
    /// The storage slot, which is also the number of the partition.
    pub open spec fn slot(self) -> int {
        match self {
            LayoutEntityData::EntityIndexMap => 0,
            LayoutEntityData::MeshData => 1,
            LayoutEntityData::ImapEntityData => 2,
            LayoutEntityData::PodPositions => 3,
            LayoutEntityData::PodRotations => 4,
            LayoutEntityData::PodScales => 5,
        }
    }

    /// The words that one element takes.
    pub open spec fn width(self) -> int {
        match self {
            LayoutEntityData::EntityIndexMap => 2,
            LayoutEntityData::MeshData => 1,
            LayoutEntityData::ImapEntityData => 1,
            LayoutEntityData::PodPositions => 4,
            LayoutEntityData::PodRotations => 4,
            LayoutEntityData::PodScales => 4,
        }
    }

    pub fn bind(self) -> (slot: usize)
        ensures
            slot == self.slot(),
            slot < RENDER_STORAGE_PARTS,
    {
        match self {
            LayoutEntityData::EntityIndexMap => 0,
            LayoutEntityData::MeshData => 1,
            LayoutEntityData::ImapEntityData => 2,
            LayoutEntityData::PodPositions => 3,
            LayoutEntityData::PodRotations => 4,
            LayoutEntityData::PodScales => 5,
        }
    }

    pub fn lanes(self) -> (width: usize)
        ensures
            width == self.width(),
    {
        match self {
            LayoutEntityData::EntityIndexMap => 2,
            LayoutEntityData::MeshData => 1,
            LayoutEntityData::ImapEntityData => 1,
            LayoutEntityData::PodPositions => 4,
            LayoutEntityData::PodRotations => 4,
            LayoutEntityData::PodScales => 4,
        }
    }

    /// A scene buffer with room for `ENTITY_ALLOCATION` elements in every
    /// named partition.
    pub fn create() -> (buffer: PartitionedTriBuffer<RENDER_STORAGE_PARTS>)
        ensures
            buffer.wf(),
            buffer.part_len(0) == 2 * ENTITY_ALLOCATION,
            buffer.part_len(1) == ENTITY_ALLOCATION,
            buffer.part_len(2) == ENTITY_ALLOCATION,
            buffer.part_len(3) == 4 * ENTITY_ALLOCATION,
            buffer.part_len(4) == 4 * ENTITY_ALLOCATION,
            buffer.part_len(5) == 4 * ENTITY_ALLOCATION,
            buffer.part_len(6) == 0,
            buffer.part_len(7) == 0,
    {
        let lengths: [usize; 6] = [
            2 * ENTITY_ALLOCATION,
            ENTITY_ALLOCATION,
            ENTITY_ALLOCATION,
            4 * ENTITY_ALLOCATION,
            4 * ENTITY_ALLOCATION,
            4 * ENTITY_ALLOCATION,
        ];
        PartitionedTriBuffer::new(lengths.as_slice())
    }
}

/// The partitions of the lattice view.
#[derive(Clone, Copy, Debug, PartialEq, Eq, Hash, Structural)]
pub enum LayoutXpbdDebugData {
    /// The two node handles of every link.
    Constraints,
    /// The handle that owns each node row.
    ImapNodes,
    /// Node positions, padded to four lanes.
    PodNodes,
    /// The dense position of the selected link.
    ISelected,
}

impl LayoutXpbdDebugData {
    /// The storage slot, which is also the number of the partition.
    pub open spec fn slot(self) -> int {
        match self {
            LayoutXpbdDebugData::Constraints => 0,
            LayoutXpbdDebugData::ImapNodes => 1,
            LayoutXpbdDebugData::PodNodes => 2,
            LayoutXpbdDebugData::ISelected => 3,
        }
    }

    /// The words that one element takes.
    pub open spec fn width(self) -> int {
        match self {
            LayoutXpbdDebugData::Constraints => 2,
            LayoutXpbdDebugData::ImapNodes => 1,
            LayoutXpbdDebugData::PodNodes => 4,
            LayoutXpbdDebugData::ISelected => 1,
        }
    }

    pub fn bind(self) -> (slot: usize)
        ensures
            slot == self.slot(),
            slot < XPBD_DEBUG_PARTS,
    {
        match self {
            LayoutXpbdDebugData::Constraints => 0,
            LayoutXpbdDebugData::ImapNodes => 1,
            LayoutXpbdDebugData::PodNodes => 2,
            LayoutXpbdDebugData::ISelected => 3,
        }
    }

    pub fn lanes(self) -> (width: usize)
        ensures
            width == self.width(),
    {
        match self {
            LayoutXpbdDebugData::Constraints => 2,
            LayoutXpbdDebugData::ImapNodes => 1,
            LayoutXpbdDebugData::PodNodes => 4,
            LayoutXpbdDebugData::ISelected => 1,
        }
    }

    /// A lattice view with room for `XPBD_CONSTRAINTS_ALLOC` links and
    /// positions, `XPBD_NODES_ALLOC` node handles and one selection.
    pub fn create() -> (buffer: PartitionedTriBuffer<XPBD_DEBUG_PARTS>)
        ensures
            buffer.wf(),
            buffer.part_len(0) == 2 * XPBD_CONSTRAINTS_ALLOC,
            buffer.part_len(1) == XPBD_NODES_ALLOC,
            buffer.part_len(2) == 4 * XPBD_CONSTRAINTS_ALLOC,
            buffer.part_len(3) == 1,
    {
        let lengths: [usize; 4] = [
            2 * XPBD_CONSTRAINTS_ALLOC,
            XPBD_NODES_ALLOC,
            4 * XPBD_CONSTRAINTS_ALLOC,
            1,
        ];
        PartitionedTriBuffer::new(lengths.as_slice())
    }
}

/// The partitions of the fragment buffer.
#[derive(Clone, Copy, Debug, PartialEq, Eq, Hash, Structural)]
pub enum LayoutFragmentData {
    /// The four parent handles of every fragment.
    PodParents,
    /// The four weights of every fragment.
    PodWeights,
    /// Rest offsets, padded to four lanes.
    PodOffsets,
    /// The state of every fragment.
    PodStates,
    /// The handle that owns each node row.
    ImapNodes,
    /// Node positions, padded to four lanes.
    PodNodesPositions,
    /// Node rotations, as quaternions of four lanes.
    PodNodesRotors,
}

impl LayoutFragmentData {
    /// The storage slot, which is also the number of the partition.
    pub open spec fn slot(self) -> int {
        match self {
            LayoutFragmentData::PodParents => 0,
            LayoutFragmentData::PodWeights => 1,
            LayoutFragmentData::PodOffsets => 2,
            LayoutFragmentData::PodStates => 3,
            LayoutFragmentData::ImapNodes => 4,
            LayoutFragmentData::PodNodesPositions => 5,
            LayoutFragmentData::PodNodesRotors => 6,
        }
    }

    /// The words that one element takes.
    pub open spec fn width(self) -> int {
        match self {
            LayoutFragmentData::PodParents => 4,
            LayoutFragmentData::PodWeights => 4,
            LayoutFragmentData::PodOffsets => 4,
            LayoutFragmentData::PodStates => 1,
            LayoutFragmentData::ImapNodes => 1,
            LayoutFragmentData::PodNodesPositions => 4,
            LayoutFragmentData::PodNodesRotors => 4,
        }
    }

    pub fn bind(self) -> (slot: usize)
        ensures
            slot == self.slot(),
            slot < FRAGMENTS_DATA_PARTS,
    {
        match self {
            LayoutFragmentData::PodParents => 0,
            LayoutFragmentData::PodWeights => 1,
            LayoutFragmentData::PodOffsets => 2,
            LayoutFragmentData::PodStates => 3,
            LayoutFragmentData::ImapNodes => 4,
            LayoutFragmentData::PodNodesPositions => 5,
            LayoutFragmentData::PodNodesRotors => 6,
        }
    }

    pub fn lanes(self) -> (width: usize)
        ensures
            width == self.width(),
    {
        match self {
            LayoutFragmentData::PodParents => 4,
            LayoutFragmentData::PodWeights => 4,
            LayoutFragmentData::PodOffsets => 4,
            LayoutFragmentData::PodStates => 1,
            LayoutFragmentData::ImapNodes => 1,
            LayoutFragmentData::PodNodesPositions => 4,
            LayoutFragmentData::PodNodesRotors => 4,
        }
    }

    /// A fragment buffer with room for `FRAGMENTS_ALLOC` fragments and
    /// `XPBD_NODES_ALLOC` nodes.
    pub fn create() -> (buffer: PartitionedTriBuffer<FRAGMENTS_DATA_PARTS>)
        ensures
            buffer.wf(),
            buffer.part_len(0) == 4 * FRAGMENTS_ALLOC,
            buffer.part_len(1) == 4 * FRAGMENTS_ALLOC,
            buffer.part_len(2) == 4 * FRAGMENTS_ALLOC,
            buffer.part_len(3) == FRAGMENTS_ALLOC,
            buffer.part_len(4) == XPBD_NODES_ALLOC,
            buffer.part_len(5) == 4 * XPBD_NODES_ALLOC,
            buffer.part_len(6) == 4 * XPBD_NODES_ALLOC,
    {
        let lengths: [usize; 7] = [
            4 * FRAGMENTS_ALLOC,
            4 * FRAGMENTS_ALLOC,
            4 * FRAGMENTS_ALLOC,
            FRAGMENTS_ALLOC,
            XPBD_NODES_ALLOC,
            4 * XPBD_NODES_ALLOC,
            4 * XPBD_NODES_ALLOC,
        ];
        PartitionedTriBuffer::new(lengths.as_slice())
    }
}

/// Within each family, no two partitions share a storage slot.
pub proof fn lemma_slots_distinct(
    a: LayoutEntityData,
    b: LayoutEntityData,
    c: LayoutXpbdDebugData,
    d: LayoutXpbdDebugData,
    e: LayoutFragmentData,
    f: LayoutFragmentData,
)
    ensures
        a.slot() == b.slot() ==> a == b,
        c.slot() == d.slot() ==> c == d,
        e.slot() == f.slot() ==> e == f,
{
}

/// Everything that crosses from the simulation to the renderer.
pub struct FrameDataBuffers {
    pub command: TriBuffer<DrawArraysIndirectCommand>,
    pub scene: PartitionedTriBuffer<RENDER_STORAGE_PARTS>,
    pub fragments: PartitionedTriBuffer<FRAGMENTS_DATA_PARTS>,
    pub xpbd_debug: PartitionedTriBuffer<XPBD_DEBUG_PARTS>,
    /// The number of link rows, for the renderer's instance count.
    pub xpbd_debug_link_count: u32,
}

impl FrameDataBuffers {
    /// Every buffer is well formed.
    pub open spec fn wf(&self) -> bool {
        &&& self.command.wf()
        &&& self.scene.wf()
        &&& self.fragments.wf()
        &&& self.xpbd_debug.wf()
    }

    /// Empty buffers of the sizes that the layouts give.
    pub fn new() -> (buffers: Self)
        ensures
            buffers.wf(),
            buffers.command.capacity == COMMAND_QUEUE_ALLOC,
            buffers.xpbd_debug_link_count == 0,
    {
        FrameDataBuffers {
            command: TriBuffer::new(COMMAND_QUEUE_ALLOC),
            scene: LayoutEntityData::create(),
            xpbd_debug: LayoutXpbdDebugData::create(),
            fragments: LayoutFragmentData::create(),
            xpbd_debug_link_count: 0,
        }
    }
}

} // verus!
