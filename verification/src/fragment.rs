//! The voxel skin of a lattice.
//!
//! A fragment is a voxel bound to up to four lattice nodes. It follows them
//! while it is attached and turns into free debris when a link at one of its
//! nodes breaks. Once debris, a fragment never attaches again.

use vstd::prelude::*;
use std::collections::HashSet;
use rustc_hash::FxBuildHasher;
use crate::hashing::set_insert;
use crate::numeric::{Scalar, Vector, is_origin, is_zero, origin, ratio_of, zero};
use crate::skin::{FragmentRow, skin, skinned};
use crate::slots::{SlotIndex, SlotModel, swap_removed};
use crate::spatial::{Cell, SpatialHash, SpatialResolution, dumped, in_cell, nearest_found};
use crate::voxel::{VoxelCell, VoxelGrid};
use crate::xpbd::{LinkNodes, LinksRowTable};

verus! {

/// The side of the cells that lattice nodes are hashed into when fragments
/// look for their parents.
pub const LATTICE_SPATIAL_RESOLUTION: u32 = 2;

/// How many cells away from its own, on each axis, a voxel looks for
/// parents.
pub const QUERY_MAX_RANGE: u32 = 3 * LATTICE_SPATIAL_RESOLUTION;

/// The health that a fragment starts with.
pub const FRAGMENT_HEALTH: i32 = 100;

/// What the weighting of a new system adds to the squared distance before
/// it inverts it: one part in `WEIGHT_EPSILON_DEN`.
pub const WEIGHT_EPSILON_DEN: i32 = 1_000_000;

/// Where a fragment is in its life.
#[derive(Clone, Copy, Debug, PartialEq, Eq, PartialOrd, Ord, Hash, Structural)]
pub enum FragmentState {
    /// Bound to the lattice and driven by its nodes.
    Attached,
    /// A free body on its way to the ground.
    Debris,
    /// Debris that has come to rest.
    InactiveDebris,
}

impl Default for FragmentState {
    fn default() -> (state: Self)
        ensures
            state == FragmentState::Attached,
    {
        FragmentState::Attached
    }
}

/// The mathematical state of a [`FragmentsRowTable`].
pub struct FragmentsModel<S, V> {
    pub index: SlotModel,
    pub parents: Seq<[u32; 4]>,
    pub influence: Seq<[S; 4]>,
    pub rest_offset: Seq<V>,
    pub state: Seq<FragmentState>,
    pub health: Seq<S>,
    pub position: Seq<V>,
    pub velocity: Seq<V>,
    pub forces: Seq<V>,
}

impl<S, V> FragmentsModel<S, V> {
    /// The table after `row` is appended.
    pub open spec fn put_row(self, row: FragmentRow<S, V>) -> FragmentsModel<S, V> {
        FragmentsModel {
            index: self.index.put(),
            parents: self.parents.push(row.parents),
            influence: self.influence.push(row.influence),
            rest_offset: self.rest_offset.push(row.rest_offset),
            state: self.state.push(row.state),
            health: self.health.push(row.health),
            position: self.position.push(row.position),
            velocity: self.velocity.push(row.velocity),
            forces: self.forces.push(row.forces),
        }
    }
}

/// The fragments: one row per fragment, one column per property.
pub struct FragmentsRowTable<S, V> {
    pub index: SlotIndex,
    pub parents: Vec<[u32; 4]>,
    pub influence: Vec<[S; 4]>,
    pub rest_offset: Vec<V>,
    pub state: Vec<FragmentState>,
    pub health: Vec<S>,
    pub position: Vec<V>,
    pub velocity: Vec<V>,
    pub forces: Vec<V>,
}

impl<S, V> View for FragmentsRowTable<S, V> {
    type V = FragmentsModel<S, V>;

    open spec fn view(&self) -> FragmentsModel<S, V> {
        FragmentsModel {
            index: self.index@,
            parents: self.parents@,
            influence: self.influence@,
            rest_offset: self.rest_offset@,
            state: self.state@,
            health: self.health@,
            position: self.position@,
            velocity: self.velocity@,
            forces: self.forces@,
        }
    }
}

impl<S: Scalar, V: Vector<S>> FragmentsRowTable<S, V> {
    /// Every column is as long as the index.
    pub open spec fn wf(&self) -> bool {
        &&& self.index.wf()
        &&& self.parents@.len() == self.index@.handles.len()
        &&& self.influence@.len() == self.index@.handles.len()
        &&& self.rest_offset@.len() == self.index@.handles.len()
        &&& self.state@.len() == self.index@.handles.len()
        &&& self.health@.len() == self.index@.handles.len()
        &&& self.position@.len() == self.index@.handles.len()
        &&& self.velocity@.len() == self.index@.handles.len()
        &&& self.forces@.len() == self.index@.handles.len()
    }

    /// Every column of `self` is the matching column of `before` with the
    /// row at `at` swap-removed.
    pub open spec fn compacted_from(&self, before: &Self, at: int) -> bool {
        &&& self.parents@ == swap_removed(before.parents@, at)
        &&& self.influence@ == swap_removed(before.influence@, at)
        &&& self.rest_offset@ == swap_removed(before.rest_offset@, at)
        &&& self.state@ == swap_removed(before.state@, at)
        &&& self.health@ == swap_removed(before.health@, at)
        &&& self.position@ == swap_removed(before.position@, at)
        &&& self.velocity@ == swap_removed(before.velocity@, at)
        &&& self.forces@ == swap_removed(before.forces@, at)
    }

    /// Every column of `self` equals the matching column of `before`.
    pub open spec fn same_columns(&self, before: &Self) -> bool {
        &&& self.parents@ == before.parents@
        &&& self.influence@ == before.influence@
        &&& self.rest_offset@ == before.rest_offset@
        &&& self.state@ == before.state@
        &&& self.health@ == before.health@
        &&& self.position@ == before.position@
        &&& self.velocity@ == before.velocity@
        &&& self.forces@ == before.forces@
    }

    /// Every column of `self` but the states equals the matching column of
    /// `before`, and the index is the same.
    pub open spec fn same_but_states(&self, before: &Self) -> bool {
        &&& self.index@ == before.index@
        &&& self.parents@ == before.parents@
        &&& self.influence@ == before.influence@
        &&& self.rest_offset@ == before.rest_offset@
        &&& self.health@ == before.health@
        &&& self.position@ == before.position@
        &&& self.velocity@ == before.velocity@
        &&& self.forces@ == before.forces@
    }

    /// The table holds the degenerate row alone: an attached fragment
    /// without parents, weights or health, at rest at an origin.
    pub open spec fn fresh(&self) -> bool {
        &&& self.wf()
        &&& self.index@ == SlotModel::empty()
        &&& forall|k: int| 0 <= k < 4 ==> (#[trigger] self.parents@[0][k]) == 0
        &&& forall|k: int| 0 <= k < 4 ==> is_zero(#[trigger] self.influence@[0][k])
        &&& is_origin::<S, V>(self.rest_offset@[0])
        &&& self.state@[0] == FragmentState::Attached
        &&& is_zero(self.health@[0])
        &&& is_origin::<S, V>(self.position@[0])
        &&& is_origin::<S, V>(self.velocity@[0])
        &&& is_origin::<S, V>(self.forces@[0])
    }

    /// A table that holds the degenerate row alone.
    pub fn new() -> (table: Self)
        ensures
            table.fresh(),
    {
        Self::with_capacity(0)
    }

    /// As [`FragmentsRowTable::new`], with room for `capacity` rows.
    pub fn with_capacity(capacity: usize) -> (table: Self)
        ensures
            table.fresh(),
    {
        let mut table = FragmentsRowTable {
            index: SlotIndex::with_capacity(capacity),
            parents: Vec::with_capacity(capacity),
            influence: Vec::with_capacity(capacity),
            rest_offset: Vec::with_capacity(capacity),
            state: Vec::with_capacity(capacity),
            health: Vec::with_capacity(capacity),
            position: Vec::with_capacity(capacity),
            velocity: Vec::with_capacity(capacity),
            forces: Vec::with_capacity(capacity),
        };
        let none: S = zero::<S>();
        table.parents.push([0u32, 0u32, 0u32, 0u32]);
        table.influence.push([none, none, none, none]);
        table.rest_offset.push(origin::<S, V>());
        table.state.push(FragmentState::Attached);
        table.health.push(none);
        table.position.push(origin::<S, V>());
        table.velocity.push(origin::<S, V>());
        table.forces.push(origin::<S, V>());
        table
    }

    /// The number of rows, the degenerate one included.
    pub fn len(&self) -> (n: usize)
        ensures
            n == self.index@.handles.len(),
    {
        self.index.len()
    }

    /// The owning handle of every row, in dense order.
    pub fn handles(&self) -> (out: &[u32])
        ensures
            out@ == self.index@.handles,
    {
        self.index.handles()
    }

    /// The dense position of every handle; `0` where the handle is not live.
    pub fn slots_map(&self) -> (out: &[u32])
        ensures
            out@ == self.index@.slots,
    {
        self.index.slots_map()
    }

    /// The dense position of `h`, or `None` when `h` is not live.
    pub fn get_indirect(&self, h: u32) -> (at: Option<u32>)
        requires
            self.wf(),
        ensures
            self.index@.live(h) ==> at == Some(self.index@.index_of(h)),
            !self.index@.live(h) ==> at.is_none(),
            at.is_some() ==> at.unwrap() < self.index@.handles.len(),
    {
        self.index.get_indirect(h)
    }

    /// The dense position of `h`; the degenerate row when `h` is not live.
    pub fn get_indirect_unchecked(&self, h: u32) -> (at: u32)
        requires
            self.wf(),
        ensures
            at == self.index@.index_of(h),
            at < self.index@.handles.len(),
    {
        self.index.get_indirect_unchecked(h)
    }

    /// Appends the row `(parents, influence, rest offset, state, health,
    /// position, velocity, force)` and returns its handle, which is never
    /// `0`.
    pub fn put(&mut self, row: ([u32; 4], [S; 4], V, FragmentState, S, V, V, V)) -> (h: u32)
        requires
            old(self).wf(),
            old(self).index@.handles.len() < u32::MAX,
        ensures
            final(self).wf(),
            final(self).index@ == old(self).index@.put(),
            h == old(self).index@.next_handle(),
            h != 0,
            final(self).index@.index_of(h) == old(self).index@.handles.len(),
            final(self).parents@ == old(self).parents@.push(row.0),
            final(self).influence@ == old(self).influence@.push(row.1),
            final(self).rest_offset@ == old(self).rest_offset@.push(row.2),
            final(self).state@ == old(self).state@.push(row.3),
            final(self).health@ == old(self).health@.push(row.4),
            final(self).position@ == old(self).position@.push(row.5),
            final(self).velocity@ == old(self).velocity@.push(row.6),
            final(self).forces@ == old(self).forces@.push(row.7),
            final(self)@ == old(self)@.put_row(
                (FragmentRow {
                    parents: row.0,
                    influence: row.1,
                    rest_offset: row.2,
                    state: row.3,
                    health: row.4,
                    position: row.5,
                    velocity: row.6,
                    forces: row.7,
                }),
            ),
    {
        let h: u32 = self.index.put();
        self.parents.push(row.0);
        self.influence.push(row.1);
        self.rest_offset.push(row.2);
        self.state.push(row.3);
        self.health.push(row.4);
        self.position.push(row.5);
        self.velocity.push(row.6);
        self.forces.push(row.7);
        h
    }

    /// Frees the row of `h`: the last row takes its place in every column.
    /// The degenerate handle and handles that are not live are ignored.
    pub fn free(&mut self, h: u32)
        requires
            old(self).wf(),
        ensures
            final(self).wf(),
            final(self).index@ == old(self).index@.freed(h),
            h != 0 && old(self).index@.live(h) ==> final(self).compacted_from(
                old(self),
                old(self).index@.index_of(h) as int,
            ),
            h == 0 || !old(self).index@.live(h) ==> final(self).same_columns(old(self)),
    {
        match self.index.free(h) {
            Some(at) => {
                self.parents.swap_remove(at as usize);
                self.influence.swap_remove(at as usize);
                self.rest_offset.swap_remove(at as usize);
                self.state.swap_remove(at as usize);
                self.health.swap_remove(at as usize);
                self.position.swap_remove(at as usize);
                self.velocity.swap_remove(at as usize);
                self.forces.swap_remove(at as usize);
            },
            None => {},
        }
    }

    /// Every column at once, each to be changed in place. The rows stay
    /// where they are: a slice cannot grow or shrink.
    pub fn split_mut(&mut self) -> (columns: (
        &mut [[u32; 4]],
        &mut [[S; 4]],
        &mut [V],
        &mut [FragmentState],
        &mut [S],
        &mut [V],
        &mut [V],
        &mut [V],
    ))
        ensures
            columns.0@ == old(self).parents@,
            columns.1@ == old(self).influence@,
            columns.2@ == old(self).rest_offset@,
            columns.3@ == old(self).state@,
            columns.4@ == old(self).health@,
            columns.5@ == old(self).position@,
            columns.6@ == old(self).velocity@,
            columns.7@ == old(self).forces@,
            final(self).index == old(self).index,
            final(self).parents@ == final(columns.0)@,
            final(self).influence@ == final(columns.1)@,
            final(self).rest_offset@ == final(columns.2)@,
            final(self).state@ == final(columns.3)@,
            final(self).health@ == final(columns.4)@,
            final(self).position@ == final(columns.5)@,
            final(self).velocity@ == final(columns.6)@,
            final(self).forces@ == final(columns.7)@,
    {
        (
            self.parents.as_mut_slice(),
            self.influence.as_mut_slice(),
            self.rest_offset.as_mut_slice(),
            self.state.as_mut_slice(),
            self.health.as_mut_slice(),
            self.position.as_mut_slice(),
            self.velocity.as_mut_slice(),
            self.forces.as_mut_slice(),
        )
    }

    /// The four parent node handles of every row; `0` where a fragment has
    /// fewer than four.
    pub fn parents_slice(&self) -> (out: &[[u32; 4]])
        ensures
            out@ == self.parents@,
    {
        self.parents.as_slice()
    }

    /// The weight of each parent, for every row.
    pub fn influence_slice(&self) -> (out: &[[S; 4]])
        ensures
            out@ == self.influence@,
    {
        self.influence.as_slice()
    }

    /// For every row, the offset from the weighted centre of the parents to
    /// the place of the fragment at rest.
    pub fn rest_offset_slice(&self) -> (out: &[V])
        ensures
            out@ == self.rest_offset@,
    {
        self.rest_offset.as_slice()
    }

    /// The state of every row.
    pub fn state_slice(&self) -> (out: &[FragmentState])
        ensures
            out@ == self.state@,
    {
        self.state.as_slice()
    }

    /// The health of every row; the mass of a fragment that is debris.
    pub fn health_slice(&self) -> (out: &[S])
        ensures
            out@ == self.health@,
    {
        self.health.as_slice()
    }

    /// The position of every row.
    pub fn position_slice(&self) -> (out: &[V])
        ensures
            out@ == self.position@,
    {
        self.position.as_slice()
    }

    /// The velocity of every row.
    pub fn velocity_slice(&self) -> (out: &[V])
        ensures
            out@ == self.velocity@,
    {
        self.velocity.as_slice()
    }

    /// The force accumulated on every row.
    pub fn forces_slice(&self) -> (out: &[V])
        ensures
            out@ == self.forces@,
    {
        self.forces.as_slice()
    }
}

/// What break propagation has disabled: the nodes seen so far, the
/// fragments disabled so far, and the dense positions of the fragments
/// disabled by the current call, in the order they were found.
pub struct Disabled {
    pub nodes: Set<u32>,
    pub fragments: Set<u32>,
    pub frame: Seq<u32>,
}

impl Disabled {
    /// Disables the fragments of `list`, first to last. A handle that is
    /// `0`, not live in `index`, or disabled before is passed over.
    pub open spec fn with_fragments(self, list: Seq<u32>, index: SlotModel) -> Disabled
        decreases list.len(),
    {
        if list.len() == 0 {
            self
        } else {
            let before = self.with_fragments(list.drop_last(), index);
            let f = list.last();
            if f == 0 || !index.live(f) || before.fragments.contains(f) {
                before
            } else {
                Disabled {
                    nodes: before.nodes,
                    fragments: before.fragments.insert(f),
                    frame: before.frame.push(index.index_of(f)),
                }
            }
        }
    }

    /// Disables `node` and, the first time it is seen, its fragments. A node
    /// without an entry in `node_map` has no fragments.
    pub open spec fn with_node(self, node: u32, node_map: Seq<Seq<u32>>, index: SlotModel) -> Disabled {
        if self.nodes.contains(node) {
            self
        } else {
            let seen = Disabled {
                nodes: self.nodes.insert(node),
                fragments: self.fragments,
                frame: self.frame,
            };
            if node < node_map.len() {
                seen.with_fragments(node_map[node as int], index)
            } else {
                seen
            }
        }
    }

    /// Disables both endpoints of every link of `relations`, first to last.
    pub open spec fn with_links(
        self,
        relations: Seq<LinkNodes>,
        node_map: Seq<Seq<u32>>,
        index: SlotModel,
    ) -> Disabled
        decreases relations.len(),
    {
        if relations.len() == 0 {
            self
        } else {
            let link = relations.last();
            self.with_links(relations.drop_last(), node_map, index).with_node(
                link.0,
                node_map,
                index,
            ).with_node(link.1, node_map, index)
        }
    }

    /// The same record at the start of a call: nothing disabled by it yet.
    pub open spec fn next_frame(self) -> Disabled {
        Disabled { nodes: self.nodes, fragments: self.fragments, frame: Seq::empty() }
    }
}

/// Disabling fragments leaves the nodes as they were and only adds
/// fragments.
pub proof fn lemma_with_fragments_grows(d: Disabled, list: Seq<u32>, index: SlotModel)
    requires
        index.wf(),
    ensures
        d.with_fragments(list, index).nodes == d.nodes,
        d.fragments.subset_of(d.with_fragments(list, index).fragments),
        d.frame.len() <= d.with_fragments(list, index).frame.len(),
        d.with_fragments(list, index).frame.subrange(0, d.frame.len() as int) == d.frame,
        forall|k: int|
            d.frame.len() <= k < d.with_fragments(list, index).frame.len() ==> 0 < (
            #[trigger] d.with_fragments(list, index).frame[k]) < index.handles.len(),
    decreases list.len(),
{
    if list.len() > 0 {
        lemma_with_fragments_grows(d, list.drop_last(), index);
        let before = d.with_fragments(list.drop_last(), index);
        let after = d.with_fragments(list, index);
        assert(after.frame.subrange(0, d.frame.len() as int) =~= before.frame.subrange(
            0,
            d.frame.len() as int,
        ));
    } else {
        assert(d.frame.subrange(0, d.frame.len() as int) =~= d.frame);
    }
}

/// Disabling a node keeps every node and fragment disabled before, and
/// leaves the node disabled.
pub proof fn lemma_with_node_grows(d: Disabled, node: u32, node_map: Seq<Seq<u32>>, index: SlotModel)
    requires
        index.wf(),
    ensures
        d.with_node(node, node_map, index).nodes == d.nodes.insert(node),
        d.fragments.subset_of(d.with_node(node, node_map, index).fragments),
        d.nodes.contains(node) ==> d.with_node(node, node_map, index) == d,
        d.frame.len() <= d.with_node(node, node_map, index).frame.len(),
        d.with_node(node, node_map, index).frame.subrange(0, d.frame.len() as int) == d.frame,
        forall|k: int|
            d.frame.len() <= k < d.with_node(node, node_map, index).frame.len() ==> 0 < (
            #[trigger] d.with_node(node, node_map, index).frame[k]) < index.handles.len(),
{
    if d.nodes.contains(node) {
        assert(d.nodes.insert(node) =~= d.nodes);
        assert(d.frame.subrange(0, d.frame.len() as int) =~= d.frame);
    } else {
        let seen = Disabled { nodes: d.nodes.insert(node), fragments: d.fragments, frame: d.frame };
        if node < node_map.len() {
            lemma_with_fragments_grows(seen, node_map[node as int], index);
        } else {
            assert(d.frame.subrange(0, d.frame.len() as int) =~= d.frame);
        }
    }
}

/// After a list of links is propagated, every endpoint of every one of them
/// is disabled, and nothing disabled before is lost.
pub proof fn lemma_with_links_grows(
    d: Disabled,
    relations: Seq<LinkNodes>,
    node_map: Seq<Seq<u32>>,
    index: SlotModel,
)
    requires
        index.wf(),
    ensures
        d.nodes.subset_of(d.with_links(relations, node_map, index).nodes),
        d.fragments.subset_of(d.with_links(relations, node_map, index).fragments),
        forall|k: int|
            0 <= k < relations.len() ==> d.with_links(relations, node_map, index).nodes.contains(
                (#[trigger] relations[k]).0,
            ) && d.with_links(relations, node_map, index).nodes.contains(relations[k].1),
        d.frame.len() <= d.with_links(relations, node_map, index).frame.len(),
        d.with_links(relations, node_map, index).frame.subrange(0, d.frame.len() as int)
            == d.frame,
        forall|k: int|
            d.frame.len() <= k < d.with_links(relations, node_map, index).frame.len() ==> 0 < (
            #[trigger] d.with_links(relations, node_map, index).frame[k]) < index.handles.len(),
    decreases relations.len(),
{
    if relations.len() > 0 {
        let link = relations.last();
        let before = d.with_links(relations.drop_last(), node_map, index);
        lemma_with_links_grows(d, relations.drop_last(), node_map, index);
        lemma_with_node_grows(before, link.0, node_map, index);
        let mid = before.with_node(link.0, node_map, index);
        lemma_with_node_grows(mid, link.1, node_map, index);
        let after = mid.with_node(link.1, node_map, index);
        assert forall|k: int| 0 <= k < relations.len() implies after.nodes.contains(
            (#[trigger] relations[k]).0,
        ) && after.nodes.contains(relations[k].1) by {
            if k < relations.len() - 1 {
                assert(relations.drop_last()[k] == relations[k]);
            }
        }
        assert(after.frame.subrange(0, d.frame.len() as int) =~= d.frame) by {
            assert(mid.frame.subrange(0, d.frame.len() as int) =~= before.frame.subrange(
                0,
                d.frame.len() as int,
            ));
            assert(after.frame.subrange(0, d.frame.len() as int) =~= mid.frame.subrange(
                0,
                d.frame.len() as int,
            ));
        }
        assert forall|k: int| d.frame.len() <= k < after.frame.len() implies 0 < (
        #[trigger] after.frame[k]) < index.handles.len() by {
            if k < mid.frame.len() {
                assert(after.frame[k] == after.frame.subrange(0, mid.frame.len() as int)[k]);
                if k < before.frame.len() {
                    assert(mid.frame[k] == mid.frame.subrange(0, before.frame.len() as int)[k]);
                }
            }
        }
    } else {
        assert(d.frame.subrange(0, d.frame.len() as int) =~= d.frame);
    }
}

/// Links whose endpoints are all disabled already disable nothing more.
pub proof fn lemma_with_links_seen(
    d: Disabled,
    relations: Seq<LinkNodes>,
    node_map: Seq<Seq<u32>>,
    index: SlotModel,
)
    requires
        forall|k: int|
            0 <= k < relations.len() ==> d.nodes.contains((#[trigger] relations[k]).0)
                && d.nodes.contains(relations[k].1),
    ensures
        d.with_links(relations, node_map, index) == d,
    decreases relations.len(),
{
    if relations.len() > 0 {
        assert forall|k: int| 0 <= k < relations.drop_last().len() implies d.nodes.contains(
            (#[trigger] relations.drop_last()[k]).0,
        ) && d.nodes.contains(relations.drop_last()[k].1) by {
            assert(relations.drop_last()[k] == relations[k]);
        }
        lemma_with_links_seen(d, relations.drop_last(), node_map, index);
        assert(d.nodes.contains(relations[relations.len() - 1].0));
    }
}

/// Break propagation is idempotent: propagating the same broken links a
/// second time, over the same node map and fragments, disables no further
/// node or fragment and reports none for the frame.
pub proof fn lemma_break_twice(
    d: Disabled,
    relations: Seq<LinkNodes>,
    node_map: Seq<Seq<u32>>,
    index: SlotModel,
)
    requires
        index.wf(),
    ensures
        ({
            let once = d.next_frame().with_links(relations, node_map, index);
            let twice = once.next_frame().with_links(relations, node_map, index);
            &&& twice.fragments == once.fragments
            &&& twice.nodes == once.nodes
            &&& twice.frame.len() == 0
        }),
{
    let once = d.next_frame().with_links(relations, node_map, index);
    lemma_with_links_grows(d.next_frame(), relations, node_map, index);
    lemma_with_links_seen(once.next_frame(), relations, node_map, index);
}

/// How the weight of a parent follows from its squared distance to the
/// voxel, before the weights of a fragment are scaled to sum to one.
#[derive(Clone, Copy, Debug)]
pub enum Weighting<S> {
    /// The squared distance itself: the farthest parent weighs most.
    DistanceSquared,
    /// One over the squared distance plus `epsilon`: the nearest parent
    /// weighs most.
    InverseDistanceSquared { epsilon: S },
}

/// The endpoints that `links` holds for each handle of `broken`; those of
/// the degenerate row for a handle that is not live.
pub open spec fn relations_of<S: Scalar>(broken: Seq<u32>, links: &LinksRowTable<S>) -> Seq<
    LinkNodes,
> {
    Seq::new(broken.len(), |k: int| links.relation_of(broken[k]))
}

/// The fragments of a scene, the nodes they hang on, and what has been
/// disabled so far.
pub struct FragmentSystem<S, V> {
    pub fragments: FragmentsRowTable<S, V>,
    /// For every node handle, the handles of the fragments bound to it.
    pub node_map: Vec<Vec<u32>>,
    /// Every node that had a link break.
    pub disabled_nodes: HashSet<u32, FxBuildHasher>,
    /// Every fragment that was disabled, by handle.
    pub disabled_frags_alltime: HashSet<u32, FxBuildHasher>,
    /// The fragments disabled by the last propagation, by dense position.
    pub disabled_frags_frame: Vec<u32>,
    pub weighting: Weighting<S>,
}

impl<S: Scalar, V: Vector<S>> Default for FragmentSystem<S, V> {
    /// A system without fragments, with the default weighting.
    fn default() -> (system: Self)
        ensures
            system.wf(),
            system.fragments.fresh(),
            system.default_weighting(),
            system.node_lists() == seq![Seq::<u32>::empty()],
            system.disabled().nodes == Set::<u32>::empty(),
            system.disabled().fragments == Set::<u32>::empty(),
            system.disabled().frame == Seq::<u32>::empty(),
    {
        FragmentSystem::new()
    }
}

impl<S: Scalar, V: Vector<S>> FragmentSystem<S, V> {
    /// The fragment table is well formed.
    pub open spec fn wf(&self) -> bool {
        self.fragments.wf()
    }

    /// What has been disabled.
    pub open spec fn disabled(&self) -> Disabled {
        Disabled {
            nodes: self.disabled_nodes@,
            fragments: self.disabled_frags_alltime@,
            frame: self.disabled_frags_frame@,
        }
    }

    /// The fragment handles of every node.
    pub open spec fn node_lists(&self) -> Seq<Seq<u32>> {
        Seq::new(self.node_map@.len(), |n: int| self.node_map@[n]@)
    }

    /// The weighting is the inverse of the squared distance plus one part
    /// in `WEIGHT_EPSILON_DEN`.
    pub open spec fn default_weighting(&self) -> bool {
        match self.weighting {
            Weighting::InverseDistanceSquared { epsilon } => ratio_of(1, WEIGHT_EPSILON_DEN, epsilon),
            Weighting::DistanceSquared => false,
        }
    }

    /// A system without fragments, with the default weighting.
    pub fn new() -> (system: Self)
        ensures
            system.wf(),
            system.fragments.fresh(),
            system.default_weighting(),
            system.node_lists() == seq![Seq::<u32>::empty()],
            system.disabled().nodes == Set::<u32>::empty(),
            system.disabled().fragments == Set::<u32>::empty(),
            system.disabled().frame == Seq::<u32>::empty(),
    {
        Self::with_capacity(0)
    }

    /// As [`FragmentSystem::new`], with room for `capacity` fragments.
    pub fn with_capacity(capacity: usize) -> (system: Self)
        ensures
            system.wf(),
            system.fragments.fresh(),
            system.default_weighting(),
            system.node_lists() == seq![Seq::<u32>::empty()],
            system.disabled().nodes == Set::<u32>::empty(),
            system.disabled().fragments == Set::<u32>::empty(),
            system.disabled().frame == Seq::<u32>::empty(),
    {
        let mut node_map: Vec<Vec<u32>> = Vec::new();
        node_map.push(Vec::new());
        let system = FragmentSystem {
            fragments: FragmentsRowTable::with_capacity(capacity),
            node_map,
            disabled_nodes: HashSet::default(),
            disabled_frags_alltime: HashSet::default(),
            disabled_frags_frame: Vec::new(),
            weighting: Weighting::InverseDistanceSquared { epsilon: S::ratio(1, WEIGHT_EPSILON_DEN) },
        };
        assert(system.node_lists() =~= seq![Seq::<u32>::empty()]);
        system
    }

    /// The same system with another weighting for the fragments generated
    /// from now on.
    pub fn with_weighting(self, weighting: Weighting<S>) -> (system: Self)
        ensures
            system.weighting == weighting,
            system.fragments == self.fragments,
            system.node_map == self.node_map,
            system.disabled_nodes == self.disabled_nodes,
            system.disabled_frags_alltime == self.disabled_frags_alltime,
            system.disabled_frags_frame == self.disabled_frags_frame,
    {
        FragmentSystem {
            fragments: self.fragments,
            node_map: self.node_map,
            disabled_nodes: self.disabled_nodes,
            disabled_frags_alltime: self.disabled_frags_alltime,
            disabled_frags_frame: self.disabled_frags_frame,
            weighting,
        }
    }

    /// The handles of the fragments bound to `node`.
    pub fn fragments_of(&self, node: u32) -> (out: &[u32])
        requires
            node < self.node_map@.len(),
        ensures
            out@ == self.node_lists()[node as int],
    {
        self.node_map[node as usize].as_slice()
    }

    /// The handles of the fragments bound to `node`, to be changed in
    /// place.
    pub fn fragments_of_mut(&mut self, node: u32) -> (out: &mut [u32])
        requires
            node < old(self).node_map@.len(),
        ensures
            out@ == old(self).node_map@[node as int]@,
            final(self).node_map@.len() == old(self).node_map@.len(),
            final(self).node_map@[node as int]@ == final(out)@,
            forall|n: int|
                0 <= n < old(self).node_map@.len() && n != node ==> #[trigger] final(self).node_map@[n]
                    == old(self).node_map@[n],
            final(self).fragments == old(self).fragments,
            final(self).disabled_nodes == old(self).disabled_nodes,
            final(self).disabled_frags_alltime == old(self).disabled_frags_alltime,
            final(self).disabled_frags_frame == old(self).disabled_frags_frame,
            final(self).weighting == old(self).weighting,
    {
        self.node_map[node as usize].as_mut_slice()
    }

    /// The fragment table.
    pub fn table(&self) -> (out: &FragmentsRowTable<S, V>)
        ensures
            *out == self.fragments,
    {
        &self.fragments
    }

    /// The fragment table, to be changed in place.
    pub fn table_mut(&mut self) -> (out: &mut FragmentsRowTable<S, V>)
        ensures
            *out == old(self).fragments,
            final(self).fragments == *final(out),
            final(self).node_map == old(self).node_map,
            final(self).disabled_nodes == old(self).disabled_nodes,
            final(self).disabled_frags_alltime == old(self).disabled_frags_alltime,
            final(self).disabled_frags_frame == old(self).disabled_frags_frame,
            final(self).weighting == old(self).weighting,
    {
        &mut self.fragments
    }

    /// Forgets the disabled nodes and every node's fragment list. The
    /// fragments themselves, and the record of those disabled, stay.
    pub fn reset(&mut self)
        ensures
            final(self).disabled().nodes == Set::<u32>::empty(),
            final(self).node_lists() == Seq::<Seq<u32>>::empty(),
            final(self).fragments == old(self).fragments,
            final(self).disabled().fragments == old(self).disabled().fragments,
            final(self).disabled().frame == old(self).disabled().frame,
            final(self).weighting == old(self).weighting,
    {
        self.disabled_nodes.clear();
        self.node_map.clear();
        assert(self.node_lists() =~= Seq::<Seq<u32>>::empty());
    }

    /// The dense positions of the fragments that the last propagation
    /// disabled. They hold until the fragment table next changes.
    pub fn frame_disabled_frags_direct(&self) -> (out: &[u32])
        ensures
            out@ == self.disabled().frame,
    {
        self.disabled_frags_frame.as_slice()
    }

    /// Turns into debris the attached fragments of the nodes that lost a
    /// link.
    ///
    /// The frame list starts empty. For every handle of `broken_ids`, first
    /// to last, the endpoints of that link are looked up in `constraints`
    /// and disabled, first the one then the other. A node seen for the first
    /// time disables each of its fragments that was not disabled before: the
    /// fragment's handle joins the all-time set, its dense position joins
    /// the frame list, and its state becomes `Debris`.
    pub fn handle_constraint_break(&mut self, broken_ids: &[u32], constraints: &LinksRowTable<S>)
        requires
            old(self).wf(),
            constraints.wf(),
        ensures
            final(self).wf(),
            final(self).disabled() == old(self).disabled().next_frame().with_links(
                relations_of(broken_ids@, constraints),
                old(self).node_lists(),
                old(self).fragments.index@,
            ),
            final(self).node_map == old(self).node_map,
            final(self).weighting == old(self).weighting,
            final(self).fragments.same_but_states(&old(self).fragments),
            forall|i: int|
                0 <= i < final(self).fragments.state@.len() ==> #[trigger] final(self).fragments.state@[i]
                    == if final(self).disabled().frame.contains(i as u32) {
                    FragmentState::Debris
                } else {
                    old(self).fragments.state@[i]
                },
    {
        self.disabled_frags_frame.clear();
        let ghost start = old(self).disabled().next_frame();
        let ghost lists = old(self).node_lists();
        let ghost index = old(self).fragments.index@;
        let ghost relations = relations_of(broken_ids@, constraints);
        assert(self.disabled() == start);
        let mut b: usize = 0;
        while b < broken_ids.len()
            invariant
                b <= broken_ids@.len(),
                constraints.wf(),
                self.wf(),
                self.fragments == old(self).fragments,
                self.node_map == old(self).node_map,
                self.weighting == old(self).weighting,
                lists == self.node_lists(),
                index == self.fragments.index@,
                relations == relations_of(broken_ids@, constraints),
                self.disabled() == start.with_links(relations.take(b as int), lists, index),
            decreases broken_ids@.len() - b,
        {
            let at: u32 = constraints.get_indirect_unchecked(broken_ids[b]);
            let link: LinkNodes = constraints.relation[at as usize];
            proof {
                assert(relations.take(b + 1).drop_last() =~= relations.take(b as int));
                assert(relations.take(b + 1).last() == link);
            }
            self.disable_node(link.0);
            self.disable_node(link.1);
            b += 1;
        }
        proof {
            assert(relations.take(b as int) =~= relations);
            lemma_with_links_grows(start, relations, lists, index);
        }
        let count: usize = self.disabled_frags_frame.len();
        let mut k: usize = 0;
        while k < count
            invariant
                k <= count,
                count == self.disabled_frags_frame@.len(),
                self.wf(),
                old(self).wf(),
                self.disabled() == start.with_links(relations, lists, index),
                self.node_map == old(self).node_map,
                self.weighting == old(self).weighting,
                self.fragments.same_but_states(&old(self).fragments),
                self.fragments.state@.len() == old(self).fragments.state@.len(),
                forall|j: int|
                    0 <= j < count ==> 0 < (#[trigger] self.disabled_frags_frame@[j])
                        < self.fragments.state@.len(),
                forall|i: int|
                    0 <= i < self.fragments.state@.len() ==> #[trigger] self.fragments.state@[i]
                        == if self.disabled_frags_frame@.take(k as int).contains(i as u32) {
                        FragmentState::Debris
                    } else {
                        old(self).fragments.state@[i]
                    },
            decreases count - k,
        {
            let at: usize = self.disabled_frags_frame[k] as usize;
            self.fragments.state[at] = FragmentState::Debris;
            proof {
                let frame = self.disabled_frags_frame@;
                let done = frame.take(k as int);
                let next = frame.take(k + 1);
                assert(next.drop_last() =~= done);
                assert forall|i: int|
                    0 <= i < self.fragments.state@.len() implies #[trigger] self.fragments.state@[i]
                    == if next.contains(i as u32) {
                    FragmentState::Debris
                } else {
                    old(self).fragments.state@[i]
                } by {
                    if i == at {
                        assert(next[k as int] == i as u32);
                    } else if next.contains(i as u32) {
                        let j = choose|j: int| 0 <= j < next.len() && next[j] == i as u32;
                        assert(j < k);
                        assert(done[j] == i as u32);
                    } else {
                        if done.contains(i as u32) {
                            let j = choose|j: int| 0 <= j < done.len() && done[j] == i as u32;
                            assert(next[j] == i as u32);
                        }
                    }
                }
            }
            k += 1;
        }
        proof {
            assert(self.disabled_frags_frame@.take(count as int) =~= self.disabled_frags_frame@);
        }
    }

    /// Disables `node` and, if it is seen for the first time, its fragments.
    fn disable_node(&mut self, node: u32)
        requires
            old(self).wf(),
        ensures
            final(self).wf(),
            final(self).fragments == old(self).fragments,
            final(self).node_map == old(self).node_map,
            final(self).weighting == old(self).weighting,
            final(self).disabled() == old(self).disabled().with_node(
                node,
                old(self).node_lists(),
                old(self).fragments.index@,
            ),
    {
        if !set_insert(&mut self.disabled_nodes, node) {
            assert(self.disabled_nodes@ =~= old(self).disabled_nodes@);
            return ;
        }
        if (node as usize) >= self.node_map.len() {
            return ;
        }
        let ghost seen = self.disabled();
        let ghost list = self.node_map@[node as int]@;
        let ghost index = self.fragments.index@;
        assert(self.node_lists()[node as int] == list);
        let count: usize = self.node_map[node as usize].len();
        let mut i: usize = 0;
        while i < count
            invariant
                i <= count,
                count == list.len(),
                node < self.node_map@.len(),
                list == self.node_map@[node as int]@,
                index == self.fragments.index@,
                self.wf(),
                self.fragments == old(self).fragments,
                self.node_map == old(self).node_map,
                self.weighting == old(self).weighting,
                self.disabled() == seen.with_fragments(list.take(i as int), index),
            decreases count - i,
        {
            let f: u32 = self.node_map[node as usize][i];
            proof {
                assert(list.take(i + 1).drop_last() =~= list.take(i as int));
                assert(list.take(i + 1).last() == f);
            }
            if f != 0 {
                match self.fragments.get_indirect(f) {
                    Some(at) => {
                        if set_insert(&mut self.disabled_frags_alltime, f) {
                            self.disabled_frags_frame.push(at);
                        } else {
                            assert(self.disabled_frags_alltime@ =~= seen.with_fragments(
                                list.take(i as int),
                                index,
                            ).fragments);
                        }
                    },
                    None => {},
                }
            }
            i += 1;
        }
        proof {
            assert(list.take(count as int) =~= list);
        }
    }
}

/// Whether every entry of `shorter` stands at the same place in `longer`.
pub open spec fn extends(longer: Seq<u32>, shorter: Seq<u32>) -> bool {
    shorter.len() <= longer.len() && forall|j: int|
        0 <= j < shorter.len() ==> #[trigger] longer[j] == shorter[j]
}

/// Whether each of the four parents is `0`, for none, or one of `handles`.
pub open spec fn parents_among(parents: [u32; 4], handles: Seq<u32>) -> bool {
    forall|k: int| 0 <= k < 4 ==> (#[trigger] parents[k]) == 0 || handles.contains(parents[k])
}

/// Whether `place` is the place of one of `voxels`.
pub open spec fn placed_at<V>(voxels: Seq<(VoxelCell, V)>, place: V) -> bool {
    exists|j: int| 0 <= j < voxels.len() && (#[trigger] voxels[j]).1 == place
}

/// Whether the lattice handed to fragment generation can be looked up: each
/// node handle has an owner entry that names a position, and a fragment
/// list once `nodes` lists have been extended by one per handle.
pub open spec fn lattice_fits(owners: Seq<u32>, handles: Seq<u32>, positions: int, nodes: int) -> bool {
    forall|k: int|
        0 <= k < handles.len() ==> (#[trigger] handles[k]) < owners.len()
            && owners[handles[k] as int] < positions && handles[k] < nodes + handles.len()
}

/// One more voxel skinned extends the trace of a generation by one state.
pub proof fn lemma_skin_trace_step<S: Scalar, V: Vector<S>>(
    weighting: Weighting<S>,
    cells: Map<u128, u32>,
    owners: Seq<u32>,
    positions: Seq<V>,
    voxels: Seq<(VoxelCell, V)>,
    trace: Seq<Skinning<S, V>>,
    v: int,
    now: Skinning<S, V>,
)
    requires
        0 <= v < voxels.len(),
        trace.len() == v + 1,
        forall|u: int|
            0 <= u < v ==> voxel_skinned(
                weighting,
                cells,
                owners,
                positions,
                voxels[u].1,
                #[trigger] trace[u],
                trace[u + 1],
            ),
        voxel_skinned(weighting, cells, owners, positions, voxels[v].1, trace[v], now),
    ensures
        forall|u: int|
            0 <= u < v + 1 ==> voxel_skinned(
                weighting,
                cells,
                owners,
                positions,
                voxels[u].1,
                #[trigger] trace.push(now)[u],
                trace.push(now)[u + 1],
            ),
{
    let longer = trace.push(now);
    assert forall|u: int| 0 <= u < v + 1 implies voxel_skinned(
        weighting,
        cells,
        owners,
        positions,
        voxels[u].1,
        #[trigger] longer[u],
        longer[u + 1],
    ) by {
        if u < v {
            assert(longer[u] == trace[u]);
            assert(longer[u + 1] == trace[u + 1]);
        } else {
            assert(longer[u] == trace[v]);
            assert(longer[u + 1] == now);
        }
    }
}

/// A system that grew from `first`, and then by one fragment, grew from
/// `first`.
pub proof fn lemma_grown_step<S: Scalar, V: Vector<S>>(
    first: FragmentSystem<S, V>,
    before: FragmentSystem<S, V>,
    after: FragmentSystem<S, V>,
    handles: Seq<u32>,
    voxels: Seq<(VoxelCell, V)>,
    voxel: V,
)
    requires
        before.wf(),
        before.grown_from(&first, handles, voxels),
        after.grown_by_one(&before, handles, voxel),
        placed_at(voxels, voxel),
        before.fragments.index@.handles.len() < first.fragments.index@.handles.len() + voxels.len(),
    ensures
        after.grown_from(&first, handles, voxels),
{
    let was = first.fragments.index@.handles.len() as int;
    let at = before.fragments.index@.handles.len() as int;
    assert(after.fragments.parents@.subrange(0, was) =~= before.fragments.parents@.subrange(0, was));
    assert(after.fragments.influence@.subrange(0, was) =~= before.fragments.influence@.subrange(
        0,
        was,
    ));
    assert(after.fragments.rest_offset@.subrange(0, was)
        =~= before.fragments.rest_offset@.subrange(0, was));
    assert(after.fragments.state@.subrange(0, was) =~= before.fragments.state@.subrange(0, was));
    assert(after.fragments.health@.subrange(0, was) =~= before.fragments.health@.subrange(0, was));
    assert(after.fragments.position@.subrange(0, was) =~= before.fragments.position@.subrange(
        0,
        was,
    ));
    assert(after.fragments.velocity@.subrange(0, was) =~= before.fragments.velocity@.subrange(
        0,
        was,
    ));
    assert(after.fragments.forces@.subrange(0, was) =~= before.fragments.forces@.subrange(0, was));
    let lists = after.node_lists();
    assert forall|n: int| 0 <= n < first.node_lists().len() implies extends(
        #[trigger] lists[n],
        first.node_lists()[n],
    ) by {
        assert(extends(before.node_lists()[n], first.node_lists()[n]));
        assert(extends(lists[n], before.node_lists()[n]));
    }
    assert forall|i: int, k: int| was <= i < at + 1 && 0 <= k < 4 implies (
    #[trigger] after.fragments.parents@[i][k]) < lists.len() && lists[after.fragments.parents@[i][k] as int].contains(
        after.fragments.index@.handles[i],
    ) by {
        let p = after.fragments.parents@[i][k];
        if i < at {
            assert(after.fragments.parents@[i] == before.fragments.parents@[i]);
            assert(before.fragments.parents@[i][k] < before.node_lists().len());
            let f = before.fragments.index@.handles[i];
            assert(after.fragments.index@.handles[i] == f);
            assert(before.node_lists()[p as int].contains(f));
            let j = choose|j: int|
                0 <= j < before.node_lists()[p as int].len() && before.node_lists()[p as int][j]
                    == f;
            assert(extends(lists[p as int], before.node_lists()[p as int]));
            assert(lists[p as int][j] == f);
        }
    }
    assert forall|i: int| was <= i < at + 1 implies (#[trigger] after.fragments.state@[i])
        == FragmentState::Attached && parents_among(after.fragments.parents@[i], handles)
        && placed_at(voxels, after.fragments.position@[i]) by {
        if i < at {
            assert(after.fragments.state@[i] == before.fragments.state@[i]);
            assert(after.fragments.parents@[i] == before.fragments.parents@[i]);
            assert(after.fragments.position@[i] == before.fragments.position@[i]);
        }
    }
}

/// `lists` with the fragment `f` appended to the list of `node`.
pub open spec fn listed(lists: Seq<Seq<u32>>, node: u32, f: u32) -> Seq<Seq<u32>> {
    lists.update(node as int, lists[node as int].push(f))
}

/// `lists` with the fragment `f` appended to the list of each of its four
/// parents, in their order: a node that is parent more than once lists the
/// fragment as often.
pub open spec fn bound(lists: Seq<Seq<u32>>, parents: [u32; 4], f: u32) -> Seq<Seq<u32>> {
    listed(listed(listed(listed(lists, parents[0], f), parents[1], f), parents[2], f), parents[3], f)
}

/// What fragment generation works on: the fragment table and the fragment
/// list of every node.
pub struct Skinning<S, V> {
    pub fragments: FragmentsModel<S, V>,
    pub node_lists: Seq<Seq<u32>>,
}

/// `after` is `before` with the fragment of the voxel at `voxel`, which
/// found the cells `near` around it: the row is appended, and its handle
/// joins the list of each parent.
pub open spec fn fragment_added<S: Scalar, V: Vector<S>>(
    weighting: Weighting<S>,
    cells: Map<u128, u32>,
    near: Seq<Cell>,
    voxel: V,
    owners: Seq<u32>,
    positions: Seq<V>,
    before: Skinning<S, V>,
    after: Skinning<S, V>,
) -> bool {
    exists|row: FragmentRow<S, V>|
        #![trigger skinned(weighting, cells, near, voxel, owners, positions, row)]
        skinned(weighting, cells, near, voxel, owners, positions, row) && after.fragments
            == before.fragments.put_row(row) && after.node_lists == bound(
            before.node_lists,
            row.parents,
            before.fragments.index.next_handle(),
        )
}

/// `after` is `before` after the voxel at `voxel` looked for parents among
/// the nodes filed in `cells`: it asks for the four occupied cells nearest
/// to its own, within the query range; if there is none, nothing changes;
/// else its fragment is added.
pub open spec fn voxel_skinned<S: Scalar, V: Vector<S>>(
    weighting: Weighting<S>,
    cells: Map<u128, u32>,
    owners: Seq<u32>,
    positions: Seq<V>,
    voxel: V,
    before: Skinning<S, V>,
    after: Skinning<S, V>,
) -> bool {
    exists|cell: Cell, near: Seq<Cell>|
        #![trigger nearest_found(cells, cell, 4, QUERY_MAX_RANGE, QUERY_MAX_RANGE, QUERY_MAX_RANGE, near)]
        in_cell::<S, V>(SpatialResolution(LATTICE_SPATIAL_RESOLUTION), voxel, cell)
            && nearest_found(
            cells,
            cell,
            4,
            QUERY_MAX_RANGE,
            QUERY_MAX_RANGE,
            QUERY_MAX_RANGE,
            near,
        ) && if near.len() == 0 {
            after == before
        } else {
            fragment_added(weighting, cells, near, voxel, owners, positions, before, after)
        }
}

/// `trace` holds the states of fragment generation: one before the first
/// voxel, and one after every voxel, in the order of the grid.
pub open spec fn skin_trace<S: Scalar, V: Vector<S>>(
    weighting: Weighting<S>,
    cells: Map<u128, u32>,
    owners: Seq<u32>,
    positions: Seq<V>,
    voxels: Seq<(VoxelCell, V)>,
    trace: Seq<Skinning<S, V>>,
) -> bool {
    &&& trace.len() == voxels.len() + 1
    &&& forall|v: int|
        0 <= v < voxels.len() ==> voxel_skinned(
            weighting,
            cells,
            owners,
            positions,
            voxels[v].1,
            #[trigger] trace[v],
            trace[v + 1],
        )
}

/// `after` is `before` after fragments were generated for the lattice
/// `(owners, handles, positions)` from `voxels`: the nodes are filed under
/// their cells; every node gets an empty fragment list, behind the lists
/// there are; and every voxel is skinned, in the order of the grid.
pub open spec fn generated<S: Scalar, V: Vector<S>>(
    weighting: Weighting<S>,
    owners: Seq<u32>,
    handles: Seq<u32>,
    positions: Seq<V>,
    voxels: Seq<(VoxelCell, V)>,
    before: Skinning<S, V>,
    after: Skinning<S, V>,
) -> bool {
    exists|cells: Map<u128, u32>, trace: Seq<Skinning<S, V>>|
        #![trigger skin_trace(weighting, cells, owners, positions, voxels, trace)]
        dumped::<S, V>(
            SpatialResolution(LATTICE_SPATIAL_RESOLUTION),
            positions,
            handles,
            Map::empty(),
            cells,
        ) && skin_trace(weighting, cells, owners, positions, voxels, trace) && trace[0] == (Skinning {
            fragments: before.fragments,
            node_lists: before.node_lists + Seq::new(handles.len(), |n: int| Seq::<u32>::empty()),
        }) && trace.last() == after
}

impl<S: Scalar, V: Vector<S>> FragmentSystem<S, V> {
    /// The fragments and the fragment lists.
    pub open spec fn skinning(&self) -> Skinning<S, V> {
        Skinning { fragments: self.fragments@, node_lists: self.node_lists() }
    }

    /// `self` is `before` after fragments were generated for `handles` from
    /// `voxels`: rows were only appended, at most one per voxel, every new
    /// fragment is attached at the place of a voxel to parents among
    /// `handles`, and stands in the list of each of its parents; the lists
    /// only grew, by one empty list per handle and by the new fragments.
    pub open spec fn grown_from(
        &self,
        before: &Self,
        handles: Seq<u32>,
        voxels: Seq<(VoxelCell, V)>,
    ) -> bool {
        let was = before.fragments.index@.handles.len() as int;
        let now = self.fragments.index@.handles.len() as int;
        &&& was <= now <= was + voxels.len()
        &&& self.fragments.index@ == before.fragments.index@.put_n((now - was) as nat)
        &&& self.fragments.parents@.subrange(0, was) == before.fragments.parents@
        &&& self.fragments.influence@.subrange(0, was) == before.fragments.influence@
        &&& self.fragments.rest_offset@.subrange(0, was) == before.fragments.rest_offset@
        &&& self.fragments.state@.subrange(0, was) == before.fragments.state@
        &&& self.fragments.health@.subrange(0, was) == before.fragments.health@
        &&& self.fragments.position@.subrange(0, was) == before.fragments.position@
        &&& self.fragments.velocity@.subrange(0, was) == before.fragments.velocity@
        &&& self.fragments.forces@.subrange(0, was) == before.fragments.forces@
        &&& forall|i: int|
            was <= i < now ==> (#[trigger] self.fragments.state@[i]) == FragmentState::Attached
                && parents_among(self.fragments.parents@[i], handles) && placed_at(
                voxels,
                self.fragments.position@[i],
            )
        &&& self.node_lists().len() == before.node_lists().len() + handles.len()
        &&& forall|n: int|
            0 <= n < before.node_lists().len() ==> extends(
                #[trigger] self.node_lists()[n],
                before.node_lists()[n],
            )
        &&& forall|i: int, k: int|
            was <= i < now && 0 <= k < 4 ==> (#[trigger] self.fragments.parents@[i][k])
                < self.node_lists().len() && self.node_lists()[self.fragments.parents@[i][k] as int].contains(
                self.fragments.index@.handles[i],
            )
    }

    /// `self` is `before` with one fragment more, for the voxel at `voxel`:
    /// one row was appended, attached at the voxel to parents among
    /// `handles`, and stands in the list of each of its parents; the lists
    /// only grew.
    pub open spec fn grown_by_one(&self, before: &Self, handles: Seq<u32>, voxel: V) -> bool {
        let at = before.fragments.index@.handles.len() as int;
        &&& self.fragments.index@ == before.fragments.index@.put()
        &&& self.fragments.parents@ == before.fragments.parents@.push(self.fragments.parents@[at])
        &&& self.fragments.influence@ == before.fragments.influence@.push(
            self.fragments.influence@[at],
        )
        &&& self.fragments.rest_offset@ == before.fragments.rest_offset@.push(
            self.fragments.rest_offset@[at],
        )
        &&& self.fragments.state@ == before.fragments.state@.push(FragmentState::Attached)
        &&& self.fragments.health@ == before.fragments.health@.push(self.fragments.health@[at])
        &&& self.fragments.position@ == before.fragments.position@.push(voxel)
        &&& self.fragments.velocity@ == before.fragments.velocity@.push(
            self.fragments.velocity@[at],
        )
        &&& self.fragments.forces@ == before.fragments.forces@.push(self.fragments.forces@[at])
        &&& parents_among(self.fragments.parents@[at], handles)
        &&& self.node_lists().len() == before.node_lists().len()
        &&& forall|n: int|
            0 <= n < before.node_lists().len() ==> extends(
                #[trigger] self.node_lists()[n],
                before.node_lists()[n],
            )
        &&& forall|k: int|
            0 <= k < 4 ==> (#[trigger] self.fragments.parents@[at][k]) < self.node_lists().len()
                && self.node_lists()[self.fragments.parents@[at][k] as int].contains(
                self.fragments.index@.handles[at],
            )
    }

    /// Generates one fragment for every voxel of `grid` that has a lattice
    /// node nearby, and binds it to up to four of them, as [`generated`]
    /// says.
    ///
    /// `lattice` is `(owners, handles, positions)`: the node `handles[i]` is
    /// at `positions[i]`, and `owners[h]` is the place of the node `h` in
    /// `positions`.
    pub fn generate_fragments<G: Fn(VoxelCell) -> bool, O: Fn(VoxelCell) -> V>(
        &mut self,
        grid: &VoxelGrid<S, V, G, O>,
        lattice: (&[u32], &[u32], &[V]),
    )
        requires
            old(self).wf(),
            lattice_fits(
                lattice.0@,
                lattice.1@,
                lattice.2@.len() as int,
                old(self).node_map@.len() as int,
            ),
            old(self).fragments.index@.handles.len() + grid.voxels@.len() <= u32::MAX,
        ensures
            final(self).wf(),
            generated(
                old(self).weighting,
                lattice.0@,
                lattice.1@,
                lattice.2@,
                grid.voxels@,
                old(self).skinning(),
                final(self).skinning(),
            ),
            final(self).grown_from(old(self), lattice.1@, grid.voxels@),
            final(self).disabled() == old(self).disabled(),
            final(self).weighting == old(self).weighting,
    {
        let owners: &[u32] = lattice.0;
        let handles: &[u32] = lattice.1;
        let positions: &[V] = lattice.2;
        let mut hash = SpatialHash::with_capacity(
            SpatialResolution::new(LATTICE_SPATIAL_RESOLUTION),
            handles.len(),
        );
        hash.dump_soa(positions, handles);
        let ghost nodes_before = old(self).node_map@.len();
        let ghost was = old(self).fragments.index@.handles.len() as int;
        let mut added: usize = 0;
        while added < handles.len()
            invariant
                added <= handles@.len(),
                self.node_map@.len() == nodes_before + added,
                self.fragments == old(self).fragments,
                self.disabled() == old(self).disabled(),
                self.weighting == old(self).weighting,
                forall|n: int|
                    0 <= n < nodes_before ==> #[trigger] self.node_map@[n] == old(
                        self,
                    ).node_map@[n],
                forall|n: int|
                    nodes_before <= n < nodes_before + added ==> (#[trigger] self.node_map@[n])@
                        == Seq::<u32>::empty(),
            decreases handles@.len() - added,
        {
            self.node_map.push(Vec::new());
            added += 1;
        }
        let ghost cells = hash.cells@;
        let ghost start = self.skinning();
        let ghost mut trace: Seq<Skinning<S, V>> = seq![start];
        proof {
            assert(start.node_lists =~= old(self).node_lists() + Seq::new(
                handles@.len(),
                |n: int| Seq::<u32>::empty(),
            ));
            assert(self.fragments.parents@.subrange(0, was) =~= old(self).fragments.parents@);
            assert(self.fragments.influence@.subrange(0, was) =~= old(self).fragments.influence@);
            assert(self.fragments.rest_offset@.subrange(0, was) =~= old(
                self,
            ).fragments.rest_offset@);
            assert(self.fragments.state@.subrange(0, was) =~= old(self).fragments.state@);
            assert(self.fragments.health@.subrange(0, was) =~= old(self).fragments.health@);
            assert(self.fragments.position@.subrange(0, was) =~= old(self).fragments.position@);
            assert(self.fragments.velocity@.subrange(0, was) =~= old(self).fragments.velocity@);
            assert(self.fragments.forces@.subrange(0, was) =~= old(self).fragments.forces@);
            assert(self.grown_from(old(self), handles@, grid.voxels@));
        }
        let none: S = zero::<S>();
        let rest: V = origin::<S, V>();
        let mut near: Vec<Cell> = Vec::with_capacity(4);
        let count: usize = grid.voxels.len();
        let mut v: usize = 0;
        while v < count
            invariant
                v <= count,
                count == grid.voxels@.len(),
                was == old(self).fragments.index@.handles.len(),
                was + count <= u32::MAX,
                nodes_before == old(self).node_map@.len(),
                self.wf(),
                self.disabled() == old(self).disabled(),
                self.weighting == old(self).weighting,
                self.fragments.index@.handles.len() <= was + v,
                self.node_map@.len() == nodes_before + handles@.len(),
                self.grown_from(old(self), handles@, grid.voxels@),
                lattice_fits(owners@, handles@, positions@.len() as int, nodes_before as int),
                forall|c: Cell| #[trigger]
                    hash.occupied(c) ==> handles@.contains(hash.representative(c).unwrap()),
                is_zero(none),
                is_origin::<S, V>(rest),
                cells == hash.cells@,
                hash.resolution == SpatialResolution(LATTICE_SPATIAL_RESOLUTION),
                trace.len() == v + 1,
                trace[0] == start,
                trace[v as int] == self.skinning(),
                forall|u: int|
                    0 <= u < v ==> voxel_skinned(
                        self.weighting,
                        cells,
                        owners@,
                        positions@,
                        grid.voxels@[u].1,
                        #[trigger] trace[u],
                        trace[u + 1],
                    ),
            decreases count - v,
        {
            let voxel: V = grid.voxels[v].1;
            let ghost before = *self;
            let added: bool = self.skin_voxel(
                &hash,
                &mut near,
                voxel,
                owners,
                handles,
                positions,
                none,
                rest,
            );
            proof {
                assert(placed_at(grid.voxels@, voxel)) by {
                    assert(grid.voxels@[v as int].1 == voxel);
                }
                if added {
                    lemma_grown_step(*old(self), before, *self, handles@, grid.voxels@, voxel);
                }
                lemma_skin_trace_step(
                    self.weighting,
                    cells,
                    owners@,
                    positions@,
                    grid.voxels@,
                    trace,
                    v as int,
                    self.skinning(),
                );
                trace = trace.push(self.skinning());
            }
            v += 1;
        }
        proof {
            assert(skin_trace(self.weighting, cells, owners@, positions@, grid.voxels@, trace));
        }
    }

    /// Skins one voxel: looks for its parents and, if there are any, adds
    /// its fragment. Returns whether a fragment was added.
    fn skin_voxel(
        &mut self,
        hash: &SpatialHash,
        near: &mut Vec<Cell>,
        voxel: V,
        owners: &[u32],
        handles: &[u32],
        positions: &[V],
        none: S,
        rest: V,
    ) -> (added: bool)
        requires
            old(self).wf(),
            old(self).fragments.index@.handles.len() < u32::MAX,
            is_zero(none),
            is_origin::<S, V>(rest),
            hash.resolution == SpatialResolution(LATTICE_SPATIAL_RESOLUTION),
            forall|c: Cell| #[trigger]
                hash.occupied(c) ==> handles@.contains(hash.representative(c).unwrap()),
            forall|j: int|
                0 <= j < handles@.len() ==> (#[trigger] handles@[j]) < owners@.len()
                    && owners@[handles@[j] as int] < positions@.len() && handles@[j] < old(
                    self,
                ).node_map@.len(),
            handles@.len() > 0 ==> old(self).node_map@.len() > 0,
        ensures
            final(self).wf(),
            final(self).disabled() == old(self).disabled(),
            final(self).weighting == old(self).weighting,
            final(self).node_map@.len() == old(self).node_map@.len(),
            voxel_skinned(
                old(self).weighting,
                hash.cells@,
                owners@,
                positions@,
                voxel,
                old(self).skinning(),
                final(self).skinning(),
            ),
            !added ==> final(self).fragments == old(self).fragments && final(self).node_map == old(
                self,
            ).node_map,
            added ==> final(self).grown_by_one(old(self), handles@, voxel),
    {
        let cell: Cell = hash.cell_at(voxel);
        near.clear();
        let _ = hash.nearest_cells(
            cell,
            4,
            QUERY_MAX_RANGE,
            QUERY_MAX_RANGE,
            QUERY_MAX_RANGE,
            near,
        );
        proof {
            assert(near@.subrange(0, near@.len() as int) =~= near@);
        }
        if near.len() == 0 {
            return false;
        }
        proof {
            assert(hash.occupied(near@[0]));
            assert(handles@.len() > 0);
        }
        let row: FragmentRow<S, V> = skin(
            self.weighting,
            hash,
            near,
            voxel,
            owners,
            handles,
            positions,
            none,
            rest,
        );
        let ghost ghost_row = row;
        let parents: [u32; 4] = row.parents;
        let handle: u32 = self.fragments.put(
            (
                row.parents,
                row.influence,
                row.rest_offset,
                row.state,
                row.health,
                row.position,
                row.velocity,
                row.forces,
            ),
        );
        let ghost put = *self;
        proof {
            assert(parents_among(parents, handles@));
            assert(self.node_lists() =~= old(self).node_lists());
        }
        self.bind(parents[0], handle);
        self.bind(parents[1], handle);
        self.bind(parents[2], handle);
        self.bind(parents[3], handle);
        proof {
            let at = old(self).fragments.index@.handles.len() as int;
            assert(self.fragments@ == old(self).skinning().fragments.put_row(ghost_row));
            assert(self.node_lists() == bound(old(self).node_lists(), parents, handle));
            assert(fragment_added(
                self.weighting,
                hash.cells@,
                near@,
                voxel,
                owners@,
                positions@,
                old(self).skinning(),
                self.skinning(),
            ));
            assert(self.fragments.index@.handles[at] == handle);
            assert(self.fragments.parents@[at] == parents);
        }
        true
    }

    /// Appends `fragment` to the list of `node`.
    fn bind(&mut self, node: u32, fragment: u32)
        requires
            node < old(self).node_map@.len(),
        ensures
            final(self).fragments == old(self).fragments,
            final(self).weighting == old(self).weighting,
            final(self).disabled() == old(self).disabled(),
            final(self).node_lists() == listed(old(self).node_lists(), node, fragment),
            final(self).node_lists().len() == old(self).node_lists().len(),
            final(self).node_lists()[node as int] == old(self).node_lists()[node as int].push(
                fragment,
            ),
            forall|n: int|
                0 <= n < old(self).node_lists().len() && n != node ==> #[trigger] final(self).node_lists()[n]
                    == old(self).node_lists()[n],
            forall|n: int|
                0 <= n < old(self).node_lists().len() ==> extends(
                    #[trigger] final(self).node_lists()[n],
                    old(self).node_lists()[n],
                ),
            forall|n: int, f: u32|
                0 <= n < old(self).node_lists().len() && old(self).node_lists()[n].contains(f)
                    ==> #[trigger] final(self).node_lists()[n].contains(f),
            final(self).node_lists()[node as int].contains(fragment),
    {
        self.node_map[node as usize].push(fragment);
        proof {
            let after = self.node_lists();
            let before = old(self).node_lists();
            assert(after[node as int] =~= before[node as int].push(fragment));
            assert(after =~= listed(before, node, fragment));
            assert(after[node as int][before[node as int].len() as int] == fragment);
            assert forall|n: int, f: u32|
                0 <= n < before.len() && before[n].contains(f) implies #[trigger] after[n].contains(
                f,
            ) by {
                let j = choose|j: int| 0 <= j < before[n].len() && before[n][j] == f;
                assert(after[n][j] == f);
            }
        }
    }
}

} // verus!
