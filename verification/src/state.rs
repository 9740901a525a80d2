//! The state of the simulation thread.
//!
//! A [`State`] owns the lattice, its fragments, and the entities that the
//! renderer draws for them. Once per tick it advances the lattice, lets
//! breaks propagate to the fragments, and copies what the renderer needs
//! into the section of the frame buffers that it is given.

use vstd::prelude::*;
use crate::fragment::{FragmentState, FragmentSystem, generated, relations_of};
use crate::frame::{
    DrawArraysIndirectCommand,
    GpuCommandQueue,
    Renderable,
    StorageSection,
    blitted,
    blitted_padded,
    flat3,
};
use crate::lattice::{LatticeIds, XpbdLatticeBuilder, exported};
use crate::layout::{FrameDataBuffers, LayoutEntityData, LayoutFragmentData, LayoutXpbdDebugData};
use crate::geometry::{Ray, Segment, intersect_ray_segment, intersected};
use crate::numeric::{
    Rotation,
    Scalar,
    Vector,
    bits_of,
    is_one,
    is_less,
    is_zero,
    lanes_of_rotation,
    ratio_of,
    real_of_i32,
    vector_of,
    x_of,
    y_of,
    z_of,
    zero,
};
use crate::rotor::RotorSystem;
use crate::slots::{SlotIndex, SlotModel, lemma_put_n, swap_removed};
use crate::motion::timed;
use crate::solver::{World, XpbdOptions, XpbdSolver, broke, stepped};
use crate::system::{XpbdSystem, forces_pushed};
use crate::voxel::{VoxelCell, VoxelGrid};
use crate::xpbd::{LinkNodes, LinksModel, NodesModel};

verus! {

/// The height of the ground.
pub const GROUND_LEVEL: i32 = -15;

/// The vertices of the mesh that a fragment is drawn with.
pub const FRAGMENT_MESH_VERTICES: u32 = 36;

/// Position, rotation and scale of the entities, four lanes each.
pub struct EntityDataRowTable<S> {
    pub index: SlotIndex,
    pub position: Vec<[S; 4]>,
    pub rotation: Vec<[S; 4]>,
    pub scale: Vec<[S; 4]>,
}

impl<S: Scalar> EntityDataRowTable<S> {
    /// Every column is as long as the index.
    pub open spec fn wf(&self) -> bool {
        &&& self.index.wf()
        &&& self.position@.len() == self.index@.handles.len()
        &&& self.rotation@.len() == self.index@.handles.len()
        &&& self.scale@.len() == self.index@.handles.len()
    }

    /// The table holds the degenerate row alone, all zeros.
    pub open spec fn fresh(&self) -> bool {
        &&& self.wf()
        &&& self.index@ == SlotModel::empty()
        &&& forall|k: int| 0 <= k < 4 ==> is_zero(#[trigger] self.position@[0][k])
        &&& forall|k: int| 0 <= k < 4 ==> is_zero(#[trigger] self.rotation@[0][k])
        &&& forall|k: int| 0 <= k < 4 ==> is_zero(#[trigger] self.scale@[0][k])
    }

    /// A table that holds the degenerate row alone.
    pub fn new() -> (table: Self)
        ensures
            table.fresh(),
    {
        let none: S = zero::<S>();
        let mut table = EntityDataRowTable {
            index: SlotIndex::new(),
            position: Vec::new(),
            rotation: Vec::new(),
            scale: Vec::new(),
        };
        table.position.push([none, none, none, none]);
        table.rotation.push([none, none, none, none]);
        table.scale.push([none, none, none, none]);
        table
    }

    /// The number of rows, the degenerate one included.
    pub fn len(&self) -> (n: usize)
        ensures
            n == self.index@.handles.len(),
    {
        self.index.len()
    }

    /// The owning handle of every row, in dense order.
    pub fn handles(&self) -> (out: &[u32])
        ensures
            out@ == self.index@.handles,
    {
        self.index.handles()
    }

    /// The dense position of `h`, or `None` when `h` is not live.
    pub fn get_indirect(&self, h: u32) -> (at: Option<u32>)
        requires
            self.wf(),
        ensures
            self.index@.live(h) ==> at == Some(self.index@.index_of(h)),
            !self.index@.live(h) ==> at.is_none(),
            at.is_some() ==> at.unwrap() < self.index@.handles.len(),
    {
        self.index.get_indirect(h)
    }

    /// The dense position of `h`; the degenerate row when `h` is not live.
    pub fn get_indirect_unchecked(&self, h: u32) -> (at: u32)
        requires
            self.wf(),
        ensures
            at == self.index@.index_of(h),
            at < self.index@.handles.len(),
    {
        self.index.get_indirect_unchecked(h)
    }

    /// Appends the row `(position, rotation, scale)` and returns its
    /// handle, which is never `0`.
    pub fn put(&mut self, row: ([S; 4], [S; 4], [S; 4])) -> (h: u32)
        requires
            old(self).wf(),
            old(self).index@.handles.len() < u32::MAX,
        ensures
            final(self).wf(),
            final(self).index@ == old(self).index@.put(),
            h == old(self).index@.next_handle(),
            h != 0,
            final(self).position@ == old(self).position@.push(row.0),
            final(self).rotation@ == old(self).rotation@.push(row.1),
            final(self).scale@ == old(self).scale@.push(row.2),
    {
        let h: u32 = self.index.put();
        self.position.push(row.0);
        self.rotation.push(row.1);
        self.scale.push(row.2);
        h
    }

    /// Frees the row of `h`: the last row takes its place in every column.
    /// The degenerate handle and handles that are not live are ignored.
    pub fn free(&mut self, h: u32)
        requires
            old(self).wf(),
        ensures
            final(self).wf(),
            final(self).index@ == old(self).index@.freed(h),
            h != 0 && old(self).index@.live(h) ==> {
                let at = old(self).index@.index_of(h) as int;
                &&& final(self).position@ == swap_removed(old(self).position@, at)
                &&& final(self).rotation@ == swap_removed(old(self).rotation@, at)
                &&& final(self).scale@ == swap_removed(old(self).scale@, at)
            },
            h == 0 || !old(self).index@.live(h) ==> final(self).position@ == old(self).position@
                && final(self).rotation@ == old(self).rotation@ && final(self).scale@ == old(
                self,
            ).scale@,
    {
        match self.index.free(h) {
            Some(at) => {
                self.position.swap_remove(at as usize);
                self.rotation.swap_remove(at as usize);
                self.scale.swap_remove(at as usize);
            },
            None => {},
        }
    }

    pub fn position_slice(&self) -> (out: &[[S; 4]])
        ensures
            out@ == self.position@,
    {
        self.position.as_slice()
    }

    pub fn rotation_slice(&self) -> (out: &[[S; 4]])
        ensures
            out@ == self.rotation@,
    {
        self.rotation.as_slice()
    }

    pub fn scale_slice(&self) -> (out: &[[S; 4]])
        ensures
            out@ == self.scale@,
    {
        self.scale.as_slice()
    }
}

/// The two handles of every link, one link after the other.
pub open spec fn relation_words(relations: Seq<LinkNodes>) -> Seq<u32> {
    Seq::new(
        2 * relations.len(),
        |w: int|
            if w % 2 == 0 {
                relations[w / 2].0
            } else {
                relations[w / 2].1
            },
    )
}

/// Mesh and data handle of every renderable, one renderable after the
/// other.
pub open spec fn renderable_words(renderables: Seq<Renderable>) -> Seq<u32> {
    Seq::new(
        2 * renderables.len(),
        |w: int|
            if w % 2 == 0 {
                renderables[w / 2].mesh_id
            } else {
                renderables[w / 2].data_handle
            },
    )
}

/// The four words of every element, one element after the other.
pub open spec fn flat4(elements: Seq<[u32; 4]>) -> Seq<u32> {
    Seq::new(4 * elements.len(), |w: int| elements[w / 4][w % 4])
}

/// The words of `relations`.
pub fn words_of_relations(relations: &[LinkNodes]) -> (out: Vec<u32>)
    ensures
        out@ == relation_words(relations@),
{
    let mut out: Vec<u32> = Vec::new();
    let mut i: usize = 0;
    while i < relations.len()
        invariant
            i <= relations@.len(),
            out@ == relation_words(relations@.take(i as int)),
        decreases relations@.len() - i,
    {
        let link: LinkNodes = relations[i];
        out.push(link.0);
        out.push(link.1);
        assert(out@ =~= relation_words(relations@.take(i + 1)));
        i += 1;
    }
    assert(relations@.take(i as int) =~= relations@);
    out
}

/// The words of `renderables`.
pub fn words_of_renderables(renderables: &[Renderable]) -> (out: Vec<u32>)
    ensures
        out@ == renderable_words(renderables@),
{
    let mut out: Vec<u32> = Vec::new();
    let mut i: usize = 0;
    while i < renderables.len()
        invariant
            i <= renderables@.len(),
            out@ == renderable_words(renderables@.take(i as int)),
        decreases renderables@.len() - i,
    {
        let entity: Renderable = renderables[i];
        out.push(entity.mesh_id);
        out.push(entity.data_handle);
        assert(out@ =~= renderable_words(renderables@.take(i + 1)));
        i += 1;
    }
    assert(renderables@.take(i as int) =~= renderables@);
    out
}

/// The words of `elements`.
pub fn words_of_handles4(elements: &[[u32; 4]]) -> (out: Vec<u32>)
    ensures
        out@ == flat4(elements@),
{
    let mut out: Vec<u32> = Vec::new();
    let mut i: usize = 0;
    while i < elements.len()
        invariant
            i <= elements@.len(),
            out@ == flat4(elements@.take(i as int)),
        decreases elements@.len() - i,
    {
        let element: [u32; 4] = elements[i];
        out.push(element[0]);
        out.push(element[1]);
        out.push(element[2]);
        out.push(element[3]);
        assert(out@ =~= flat4(elements@.take(i + 1)));
        i += 1;
    }
    assert(elements@.take(i as int) =~= elements@);
    out
}

/// The four words from `at` on hold the bits of the four lanes.
pub open spec fn quad_bits<S: Scalar>(lanes: [S; 4], words: Seq<u32>, at: int) -> bool {
    bits_of(lanes[0], words[at]) && bits_of(lanes[1], words[at + 1]) && bits_of(
        lanes[2],
        words[at + 2],
    ) && bits_of(lanes[3], words[at + 3])
}

/// `words` holds the bits of every lane of `rows`, one row after the other.
pub open spec fn quad_words<S: Scalar>(rows: Seq<[S; 4]>, words: Seq<u32>) -> bool {
    &&& words.len() == 4 * rows.len()
    &&& forall|i: int| 0 <= i < rows.len() ==> quad_bits(#[trigger] rows[i], words, 4 * i)
}

/// `words` holds the bits of the three coordinates of `p`.
pub open spec fn point_bits<S: Scalar, V: Vector<S>>(p: V, words: [u32; 3]) -> bool {
    exists|x: S, y: S, z: S|
        #![trigger bits_of(x, words[0]), bits_of(y, words[1]), bits_of(z, words[2])]
        x_of::<S, V>(p, x) && bits_of(x, words[0]) && y_of::<S, V>(p, y) && bits_of(y, words[1])
            && z_of::<S, V>(p, z) && bits_of(z, words[2])
}

/// `words` holds the bits of the coordinates of every point.
pub open spec fn point_words<S: Scalar, V: Vector<S>>(points: Seq<V>, words: Seq<[u32; 3]>) -> bool {
    &&& words.len() == points.len()
    &&& forall|i: int| 0 <= i < points.len() ==> point_bits::<S, V>(points[i], #[trigger] words[i])
}

/// The four words from `at` on hold the bits of the lanes of `q`.
pub open spec fn rotation_bits<S: Scalar, V: Vector<S>, Q: Rotation<S, V>>(
    q: Q,
    words: Seq<u32>,
    at: int,
) -> bool {
    exists|lanes: [S; 4]|
        #![trigger lanes_of_rotation::<S, V, Q>(q, lanes)]
        lanes_of_rotation::<S, V, Q>(q, lanes) && quad_bits(lanes, words, at)
}

/// `words` holds the bits of the lanes of every rotation.
pub open spec fn rotation_words<S: Scalar, V: Vector<S>, Q: Rotation<S, V>>(
    rotations: Seq<Q>,
    words: Seq<u32>,
) -> bool {
    &&& words.len() == 4 * rotations.len()
    &&& forall|i: int|
        0 <= i < rotations.len() ==> rotation_bits::<S, V, Q>(#[trigger] rotations[i], words, 4 * i)
}

/// The bits of every lane of `elements`, one element after the other.
pub fn words_of_quads<S: Scalar>(elements: &[[S; 4]]) -> (out: Vec<u32>)
    ensures
        quad_words(elements@, out@),
{
    let mut out: Vec<u32> = Vec::new();
    let mut i: usize = 0;
    while i < elements.len()
        invariant
            i <= elements@.len(),
            out@.len() == 4 * i,
            forall|k: int| 0 <= k < i ==> quad_bits(#[trigger] elements@[k], out@, 4 * k),
        decreases elements@.len() - i,
    {
        let element: [S; 4] = elements[i];
        let ghost before = out@;
        out.push(element[0].to_bits());
        out.push(element[1].to_bits());
        out.push(element[2].to_bits());
        out.push(element[3].to_bits());
        proof {
            assert forall|k: int| 0 <= k < i + 1 implies quad_bits(
                #[trigger] elements@[k],
                out@,
                4 * k,
            ) by {
                if k < i {
                    assert(quad_bits(elements@[k], before, 4 * k));
                    assert(out@[4 * k] == before[4 * k]);
                    assert(out@[4 * k + 1] == before[4 * k + 1]);
                    assert(out@[4 * k + 2] == before[4 * k + 2]);
                    assert(out@[4 * k + 3] == before[4 * k + 3]);
                }
            }
        }
        i += 1;
    }
    out
}

/// The bits of the three coordinates of every point.
pub fn words_of_points<S: Scalar, V: Vector<S>>(points: &[V]) -> (out: Vec<[u32; 3]>)
    ensures
        point_words::<S, V>(points@, out@),
{
    let mut out: Vec<[u32; 3]> = Vec::new();
    let mut i: usize = 0;
    while i < points.len()
        invariant
            i <= points@.len(),
            out@.len() == i,
            forall|k: int| 0 <= k < i ==> point_bits::<S, V>(points@[k], #[trigger] out@[k]),
        decreases points@.len() - i,
    {
        let p: V = points[i];
        let x: S = p.x();
        let y: S = p.y();
        let z: S = p.z();
        let words: [u32; 3] = [x.to_bits(), y.to_bits(), z.to_bits()];
        proof {
            assert(bits_of(x, words[0]) && bits_of(y, words[1]) && bits_of(z, words[2]));
            assert(point_bits::<S, V>(p, words));
        }
        out.push(words);
        i += 1;
    }
    out
}

/// The bits of the four lanes of every rotation.
pub fn words_of_rotations<S: Scalar, V: Vector<S>, Q: Rotation<S, V>>(rotations: &[Q]) -> (out: Vec<
    u32,
>)
    ensures
        rotation_words::<S, V, Q>(rotations@, out@),
{
    let mut out: Vec<u32> = Vec::new();
    let mut i: usize = 0;
    while i < rotations.len()
        invariant
            i <= rotations@.len(),
            out@.len() == 4 * i,
            forall|k: int|
                0 <= k < i ==> rotation_bits::<S, V, Q>(#[trigger] rotations@[k], out@, 4 * k),
        decreases rotations@.len() - i,
    {
        let lanes: [S; 4] = rotations[i].lanes();
        let ghost before = out@;
        out.push(lanes[0].to_bits());
        out.push(lanes[1].to_bits());
        out.push(lanes[2].to_bits());
        out.push(lanes[3].to_bits());
        proof {
            assert(quad_bits(lanes, out@, 4 * i));
            assert(rotation_bits::<S, V, Q>(rotations@[i as int], out@, 4 * i));
            assert forall|k: int| 0 <= k < i + 1 implies rotation_bits::<S, V, Q>(
                #[trigger] rotations@[k],
                out@,
                4 * k,
            ) by {
                if k < i {
                    assert(rotation_bits::<S, V, Q>(rotations@[k], before, 4 * k));
                    let held = choose|held: [S; 4]|
                        #![trigger lanes_of_rotation::<S, V, Q>(rotations@[k], held)]
                        lanes_of_rotation::<S, V, Q>(rotations@[k], held) && quad_bits(
                            held,
                            before,
                            4 * k,
                        );
                    assert(out@[4 * k] == before[4 * k]);
                    assert(out@[4 * k + 1] == before[4 * k + 1]);
                    assert(out@[4 * k + 2] == before[4 * k + 2]);
                    assert(out@[4 * k + 3] == before[4 * k + 3]);
                    assert(quad_bits(held, out@, 4 * k));
                }
            }
        }
        i += 1;
    }
    out
}


/// `lanes` holds the three coordinates of `p` and, in the fourth lane,
/// `last`.
pub open spec fn lanes_of<S: Scalar, V: Vector<S>>(p: V, last: S, lanes: [S; 4]) -> bool {
    x_of::<S, V>(p, lanes[0]) && y_of::<S, V>(p, lanes[1]) && z_of::<S, V>(p, lanes[2])
        && lanes[3] == last
}

/// The three coordinates of `p` and, in the fourth lane, `last`.
pub fn lanes<S: Scalar, V: Vector<S>>(p: V, last: S) -> (r: [S; 4])
    ensures
        lanes_of(p, last, r),
{
    [p.x(), p.y(), p.z(), last]
}

/// `at` and `sized` are the position and the scale rows of an entity at
/// `position` with the scale `scale`: each with a fourth lane of one.
pub open spec fn entity_made<S: Scalar, V: Vector<S>>(
    position: V,
    scale: V,
    at: [S; 4],
    sized: [S; 4],
) -> bool {
    exists|one: S|
        #![trigger lanes_of(position, one, at)]
        is_one(one) && lanes_of(position, one, at) && lanes_of(scale, one, sized)
}

/// `at`, `turned` and `sized` are the rows of the entity of a fragment at
/// `place`: not turned, and of the scale one on every axis.
pub open spec fn fragment_entity<S: Scalar, V: Vector<S>>(
    place: V,
    at: [S; 4],
    turned: [S; 4],
    sized: [S; 4],
) -> bool {
    exists|none: S, one: S, unit: V|
        #![trigger is_zero(none), vector_of::<S, V>(one, one, one, unit)]
        is_zero(none) && is_one(one) && turned[0] == none && turned[1] == none && turned[2] == none
            && turned[3] == one && vector_of::<S, V>(one, one, one, unit) && entity_made(
            place,
            unit,
            at,
            sized,
        )
}

/// `after` is the position row `before` of an entity, hidden or not: a
/// hidden entity has `none` in its fourth lane, and nothing else changes.
pub open spec fn hidden_row<S>(before: [S; 4], none: S, hidden: bool, after: [S; 4]) -> bool {
    after[0] == before[0] && after[1] == before[1] && after[2] == before[2] && after[3] == if hidden {
        none
    } else {
        before[3]
    }
}

/// For every node handle, where the node stands among the rows from `from`
/// on: its dense position less `from`, or `0` for a node before them.
pub open spec fn owners_of(slots: Seq<u32>, from: int) -> Seq<u32> {
    Seq::new(
        slots.len(),
        |h: int|
            if slots[h] >= from {
                (slots[h] - from) as u32
            } else {
                0u32
            },
    )
}

/// How near, in hundredths of a unit, a ray must pass a link to pick it.
pub const RAY_SIZE_HUNDREDTHS: i32 = 5;

/// What the search for the link under a ray has come to: how far along
/// the ray the nearest link so far is met, and what is selected.
pub struct Picking<S> {
    pub closest: Option<S>,
    pub selection: Option<u32>,
}

/// `after` is `before` after a link with the handle `handle` was met at
/// `t` along the ray: it is selected unless a link met so far is nearer.
pub open spec fn nearer_hit<S: Scalar>(before: Picking<S>, t: S, handle: u32, after: Picking<S>) -> bool {
    match before.closest {
        None => after == (Picking { closest: Some(t), selection: Some(handle) }),
        Some(nearest) => exists|farther: bool|
            #![trigger is_less(nearest, t, farther)]
            is_less(nearest, t, farther) && after == if farther {
                before
            } else {
                Picking { closest: Some(t), selection: Some(handle) }
            },
    }
}

/// The segment between the current positions of the ends of the link in
/// row `i`; an end that is not live stands for the degenerate node.
pub open spec fn link_segment<S: Scalar, V: Vector<S>>(
    nodes: NodesModel<S, V>,
    links: LinksModel<S>,
    i: int,
) -> Segment<V> {
    Segment {
        start: nodes.current_pos[nodes.index.index_of(links.relation[i].0) as int],
        end: nodes.current_pos[nodes.index.index_of(links.relation[i].1) as int],
    }
}

/// `after` is `before` after the link in row `i` was tried: the ray is
/// held against its segment.
pub open spec fn picked_step<S: Scalar, V: Vector<S>>(
    ray: Ray<V>,
    reach: S,
    nodes: NodesModel<S, V>,
    links: LinksModel<S>,
    i: int,
    before: Picking<S>,
    after: Picking<S>,
) -> bool {
    exists|hit: Option<S>|
        #![trigger intersected(ray, link_segment(nodes, links, i), reach, hit)]
        intersected(ray, link_segment(nodes, links, i), reach, hit) && match hit {
            None => after == before,
            Some(t) => nearer_hit(before, t, links.index.handles[i], after),
        }
}

/// `trace` holds the states of a search: one before the first link, and
/// one after every link, in dense order.
pub open spec fn pick_trace<S: Scalar, V: Vector<S>>(
    ray: Ray<V>,
    reach: S,
    nodes: NodesModel<S, V>,
    links: LinksModel<S>,
    trace: Seq<Picking<S>>,
) -> bool {
    &&& trace.len() == links.relation.len() + 1
    &&& forall|i: int|
        0 <= i < links.relation.len() ==> picked_step(
            ray,
            reach,
            nodes,
            links,
            i,
            #[trigger] trace[i],
            trace[i + 1],
        )
}

/// `after` is what is selected after the links were searched for the one
/// that `ray` meets first within the picking distance, where `before` was
/// selected.
pub open spec fn link_picked<S: Scalar, V: Vector<S>>(
    ray: Ray<V>,
    nodes: NodesModel<S, V>,
    links: LinksModel<S>,
    before: Option<u32>,
    after: Option<u32>,
) -> bool {
    exists|reach: S, trace: Seq<Picking<S>>|
        #![trigger pick_trace(ray, reach, nodes, links, trace)]
        ratio_of(RAY_SIZE_HUNDREDTHS, 100, reach) && pick_trace(ray, reach, nodes, links, trace)
            && trace[0] == (Picking { closest: None::<S>, selection: before })
            && trace.last().selection == after
}

/// The lattice, its fragments, and the entities drawn for them.
pub struct State<S, V, Q> {
    pub renderables: Vec<Renderable>,
    pub mesh_ids: Vec<u32>,
    pub entity_data: EntityDataRowTable<S>,
    pub xpbd: XpbdSystem<S, V>,
    pub fragments: FragmentSystem<S, V>,
    pub rotors: RotorSystem<V, Q>,
    /// For every fragment row, the number of its renderable.
    pub frag_map: Vec<u32>,
    /// The link that is selected, if any.
    pub selection: Option<u32>,
}

impl<S: Scalar, V: Vector<S>, Q: Rotation<S, V>> Default for State<S, V, Q> {
    /// An empty scene over a default solver with the ground at
    /// `GROUND_LEVEL`.
    fn default() -> (state: Self)
        ensures
            state.wf(),
            state.renderables@.len() == 0,
            state.selection.is_none(),
            state.xpbd.solver.allow_breaking,
            state.xpbd.solver.iterations == crate::xpbd::DEFAULT_SOLVE_ITERATIONS,
            state.xpbd.solver.substeps == crate::xpbd::DEFAULT_SUB_STEPS,
            state.xpbd.solver.ground_level.is_some(),
            real_of_i32(GROUND_LEVEL, state.xpbd.solver.ground_level.unwrap()),
            state.xpbd.nodes.fresh(),
            state.xpbd.links.fresh(),
            state.fragments.fragments.fresh(),
            state.fragments.default_weighting(),
            state.entity_data.fresh(),
            state.frag_map@ == seq![0u32],
            state.mesh_ids@.len() == 0,
            state.rotors.node_map@.len() == 0,
    {
        State::new()
    }
}

impl<S: Scalar, V: Vector<S>, Q: Rotation<S, V>> State<S, V, Q> {
    /// The tables are well formed; every fragment row has a renderable and
    /// every node handle a fragment list; and the counts fit in 32 bits.
    pub open spec fn wf(&self) -> bool {
        &&& self.xpbd.wf()
        &&& self.fragments.wf()
        &&& self.entity_data.wf()
        &&& self.rotors.wf()
        &&& self.renderables@.len() <= u32::MAX
        &&& self.frag_map@.len() == self.fragments.fragments.index@.handles.len()
        &&& forall|i: int|
            1 <= i < self.frag_map@.len() ==> (#[trigger] self.frag_map@[i])
                < self.renderables@.len()
        &&& self.fragments.node_map@.len() >= self.xpbd.nodes.index@.slots.len()
    }

    /// The fragment in row `i`, which was added to `before`, has its
    /// renderable and its entity: the renderable draws the mesh `0`, and
    /// the entity stands at the place of the fragment.
    pub open spec fn drawn(&self, before: &Self, i: int) -> bool {
        let k = i - before.fragments.fragments.index@.handles.len();
        let r = before.renderables@.len() + k;
        let e = before.entity_data.index@.handles.len() + k;
        &&& self.frag_map@[i] == r
        &&& self.renderables@[r].mesh_id == 0
        &&& self.renderables@[r].data_handle == self.entity_data.index@.handles[e]
        &&& fragment_entity(
            self.fragments.fragments.position@[i],
            self.entity_data.position@[e],
            self.entity_data.rotation@[e],
            self.entity_data.scale@[e],
        )
    }

    /// The dense position of the entity of the fragment in row `fragment`.
    pub open spec fn entity_of(&self, fragment: u32) -> int {
        self.entity_data.index@.index_of(
            self.renderables@[self.frag_map@[fragment as int] as int].data_handle,
        ) as int
    }

    /// Whether the entity in row `e` belongs to one of the fragments in the
    /// rows `frame`.
    pub open spec fn hides(&self, frame: Seq<u32>, e: int) -> bool {
        exists|k: int| 0 <= k < frame.len() && e == self.entity_of(#[trigger] frame[k])
    }

    /// The partitions of `section` that hold reals are those of `before`
    /// with the columns copied over them from their start, by their bits:
    /// points padded to four lanes, rows of four lanes as they are.
    pub open spec fn reals_uploaded(
        &self,
        before: &FrameDataBuffers,
        after: &FrameDataBuffers,
        section: StorageSection,
    ) -> bool {
        exists|
            nodes: Seq<[u32; 3]>,
            offsets: Seq<[u32; 3]>,
            weights: Seq<u32>,
            rotors: Seq<u32>,
            positions: Seq<u32>,
            rotations: Seq<u32>,
            scales: Seq<u32>,
        |
            #![trigger point_words::<S, V>(self.xpbd.nodes.current_pos@, nodes), point_words::<S, V>(self.fragments.fragments.rest_offset@, offsets), quad_words(self.fragments.fragments.influence@, weights), rotation_words::<S, V, Q>(self.rotors.rotations@, rotors), quad_words(self.entity_data.position@, positions), quad_words(self.entity_data.rotation@, rotations), quad_words(self.entity_data.scale@, scales)]
            point_words::<S, V>(self.xpbd.nodes.current_pos@, nodes) && point_words::<S, V>(
                self.fragments.fragments.rest_offset@,
                offsets,
            ) && quad_words(self.fragments.fragments.influence@, weights) && rotation_words::<
                S,
                V,
                Q,
            >(self.rotors.rotations@, rotors) && quad_words(self.entity_data.position@, positions)
                && quad_words(self.entity_data.rotation@, rotations) && quad_words(
                self.entity_data.scale@,
                scales,
            ) && after.fragments.part(section, LayoutFragmentData::PodNodesPositions.slot())
                == blitted_padded(
                before.fragments.part(section, LayoutFragmentData::PodNodesPositions.slot()),
                flat3(nodes),
                0,
                3,
                4,
            ) && after.fragments.part(section, LayoutFragmentData::PodNodesRotors.slot())
                == blitted(
                before.fragments.part(section, LayoutFragmentData::PodNodesRotors.slot()),
                rotors,
                0,
            ) && after.fragments.part(section, LayoutFragmentData::PodWeights.slot()) == blitted(
                before.fragments.part(section, LayoutFragmentData::PodWeights.slot()),
                weights,
                0,
            ) && after.fragments.part(section, LayoutFragmentData::PodOffsets.slot())
                == blitted_padded(
                before.fragments.part(section, LayoutFragmentData::PodOffsets.slot()),
                flat3(offsets),
                0,
                3,
                4,
            ) && after.scene.part(section, LayoutEntityData::PodPositions.slot()) == blitted(
                before.scene.part(section, LayoutEntityData::PodPositions.slot()),
                positions,
                0,
            ) && after.scene.part(section, LayoutEntityData::PodRotations.slot()) == blitted(
                before.scene.part(section, LayoutEntityData::PodRotations.slot()),
                rotations,
                0,
            ) && after.scene.part(section, LayoutEntityData::PodScales.slot()) == blitted(
                before.scene.part(section, LayoutEntityData::PodScales.slot()),
                scales,
                0,
            ) && after.xpbd_debug.part(section, LayoutXpbdDebugData::PodNodes.slot())
                == blitted_padded(
                before.xpbd_debug.part(section, LayoutXpbdDebugData::PodNodes.slot()),
                flat3(nodes),
                0,
                3,
                4,
            )
    }

    /// An empty scene over a default solver with the ground at
    /// `GROUND_LEVEL`.
    pub fn new() -> (state: Self)
        ensures
            state.wf(),
            state.renderables@.len() == 0,
            state.selection.is_none(),
            state.xpbd.solver.allow_breaking,
            state.xpbd.solver.iterations == crate::xpbd::DEFAULT_SOLVE_ITERATIONS,
            state.xpbd.solver.substeps == crate::xpbd::DEFAULT_SUB_STEPS,
            state.xpbd.solver.ground_level.is_some(),
            real_of_i32(GROUND_LEVEL, state.xpbd.solver.ground_level.unwrap()),
            state.xpbd.nodes.fresh(),
            state.xpbd.links.fresh(),
            state.fragments.fragments.fresh(),
            state.fragments.default_weighting(),
            state.entity_data.fresh(),
            state.frag_map@ == seq![0u32],
            state.mesh_ids@.len() == 0,
            state.rotors.node_map@.len() == 0,
    {
        let options: XpbdOptions<S> = XpbdOptions::default().with_ground_level(
            Some(S::from_i32(GROUND_LEVEL)),
        );
        let mut frag_map: Vec<u32> = Vec::new();
        frag_map.push(0);
        let state = State {
            renderables: Vec::new(),
            mesh_ids: Vec::new(),
            entity_data: EntityDataRowTable::new(),
            xpbd: XpbdSystem::new(XpbdSolver::new(options)),
            fragments: FragmentSystem::new(),
            rotors: RotorSystem::new(),
            frag_map,
            selection: None,
        };
        assert(state.fragments.node_lists().len() == 1);
        state
    }

    /// Adds an entity drawn with the mesh `mesh_id` and returns the number
    /// of its renderable. Position and scale get a fourth lane of one.
    pub fn create_renderable(&mut self, mesh_id: u32, position: V, rotation: [S; 4], scale: V) -> (id:
        u32)
        requires
            old(self).wf(),
            old(self).renderables@.len() < u32::MAX,
            old(self).entity_data.index@.handles.len() < u32::MAX,
        ensures
            final(self).wf(),
            id == old(self).renderables@.len(),
            final(self).renderables@ == old(self).renderables@.push(
                (Renderable {
                    mesh_id,
                    data_handle: old(self).entity_data.index@.next_handle(),
                }),
            ),
            final(self).entity_data.index@ == old(self).entity_data.index@.put(),
            final(self).entity_data.rotation@ == old(self).entity_data.rotation@.push(rotation),
            final(self).entity_data.position@ == old(self).entity_data.position@.push(
                final(self).entity_data.position@.last(),
            ),
            final(self).entity_data.scale@ == old(self).entity_data.scale@.push(
                final(self).entity_data.scale@.last(),
            ),
            entity_made(
                position,
                scale,
                final(self).entity_data.position@.last(),
                final(self).entity_data.scale@.last(),
            ),
            final(self).mesh_ids == old(self).mesh_ids,
            final(self).xpbd == old(self).xpbd,
            final(self).fragments == old(self).fragments,
            final(self).frag_map == old(self).frag_map,
            final(self).rotors == old(self).rotors,
            final(self).selection == old(self).selection,
    {
        self.create_entity(mesh_id, position, rotation, scale)
    }

    /// Adds the lattice that `lattice` describes and skins it with the
    /// voxels of `voxel_grid`: every voxel with a node nearby becomes a
    /// fragment, and every new fragment gets a renderable at its place. An
    /// empty lattice adds nothing.
    pub fn register_structure<G: Fn(VoxelCell) -> bool, O: Fn(VoxelCell) -> V>(
        &mut self,
        voxel_grid: &VoxelGrid<S, V, G, O>,
        lattice: XpbdLatticeBuilder<S, V>,
    ) -> (ids: LatticeIds)
        requires
            old(self).wf(),
            lattice.wf(),
            old(self).xpbd.nodes.index@.handles.len() + lattice.nodes@.len() <= u32::MAX,
            old(self).xpbd.links.index@.handles.len() + lattice.links@.len() <= u32::MAX,
            old(self).fragments.fragments.index@.handles.len() + voxel_grid.voxels@.len()
                <= u32::MAX,
            old(self).renderables@.len() + voxel_grid.voxels@.len() <= u32::MAX,
            old(self).entity_data.index@.handles.len() + voxel_grid.voxels@.len() <= u32::MAX,
        ensures
            final(self).wf(),
            final(self).xpbd.solver == old(self).xpbd.solver,
            exported(
                lattice,
                old(self).xpbd.nodes@,
                old(self).xpbd.links@,
                final(self).xpbd.nodes@,
                final(self).xpbd.links@,
                ids.nodes@,
                ids.links@,
            ),
            lattice.nodes@.len() == 0 ==> final(self).fragments == old(self).fragments
                && final(self).renderables == old(self).renderables && final(self).entity_data
                == old(self).entity_data && final(self).frag_map == old(self).frag_map,
            lattice.nodes@.len() > 0 ==> generated(
                old(self).fragments.weighting,
                owners_of(
                    final(self).xpbd.nodes.index@.slots,
                    old(self).xpbd.nodes.index@.handles.len() as int,
                ),
                ids.nodes@,
                Seq::new(lattice.nodes@.len(), |k: int| lattice.nodes@[k].pos),
                voxel_grid.voxels@,
                old(self).fragments.skinning(),
                final(self).fragments.skinning(),
            ),
            forall|i: int|
                old(self).fragments.fragments.index@.handles.len() <= i < final(self).fragments.fragments.index@.handles.len()
                    ==> #[trigger] final(self).drawn(old(self), i),
            final(self).renderables@.subrange(0, old(self).renderables@.len() as int) == old(
                self,
            ).renderables@,
            final(self).frag_map@.subrange(0, old(self).frag_map@.len() as int) == old(
                self,
            ).frag_map@,
            lattice.nodes@.len() > 0 ==> final(self).fragments.grown_from(
                &old(self).fragments,
                ids.nodes@,
                voxel_grid.voxels@,
            ),
            forall|i: int, k: int|
                old(self).fragments.fragments.index@.handles.len() <= i < final(self).fragments.fragments.index@.handles.len()
                    && 0 <= k < 4 ==> final(self).xpbd.nodes.index@.live(
                    #[trigger] final(self).fragments.fragments.parents@[i][k],
                ),
            final(self).renderables@.len() - old(self).renderables@.len() == final(self).fragments.fragments.index@.handles.len() - old(
                self,
            ).fragments.fragments.index@.handles.len(),
            final(self).mesh_ids == old(self).mesh_ids,
            final(self).rotors == old(self).rotors,
            final(self).selection == old(self).selection,
    {
        let l0: usize = self.xpbd.nodes.len();
        let ghost nodes_before = self.xpbd.nodes.index@;
        proof {
            lemma_put_n(nodes_before, lattice.nodes@.len());
        }
        let ids: LatticeIds = self.xpbd.import_lattice(lattice);
        let l1: usize = self.xpbd.nodes.len();
        if l0 == l1 {
            return ids;
        }
        let mut owners: Vec<u32> = Vec::new();
        let slots: &[u32] = self.xpbd.nodes.slots_map();
        let mut h: usize = 0;
        while h < slots.len()
            invariant
                h <= slots@.len(),
                l0 <= u32::MAX,
                owners@.len() == h,
                forall|g: int|
                    0 <= g < h ==> #[trigger] owners@[g] == if slots@[g] >= l0 {
                        (slots@[g] - l0) as u32
                    } else {
                        0u32
                    },
            decreases slots@.len() - h,
        {
            let at: u32 = slots[h];
            owners.push(
                if at as usize >= l0 {
                    at - l0 as u32
                } else {
                    0
                },
            );
            h += 1;
        }
        let new_handles: Vec<u32> = copy_range(self.xpbd.nodes.handles(), l0, l1);
        let new_positions: Vec<V> = copy_range(self.xpbd.nodes.current_pos_slice(), l0, l1);
        proof {
            assert(owners@ =~= owners_of(self.xpbd.nodes.index@.slots, l0 as int));
            assert(new_positions@ =~= Seq::new(lattice.nodes@.len(), |k: int| lattice.nodes@[k].pos));
            let now = self.xpbd.nodes.index@;
            assert(now.handles =~= nodes_before.handles + ids.nodes@);
            assert(new_handles@ =~= ids.nodes@);
            assert forall|k: int| 0 <= k < new_handles@.len() implies (#[trigger] new_handles@[k])
                < owners@.len() && owners@[new_handles@[k] as int] < new_positions@.len()
                && new_handles@[k] < self.fragments.node_map@.len() + new_handles@.len() by {
                let g = new_handles@[k];
                assert(now.handles[l0 + k] == g);
                assert(now.slots[g as int] == l0 + k);
                assert(now.slots.len() <= nodes_before.slots.len() + ids.nodes@.len());
            }
        }
        let f0: usize = self.fragments.fragments.len();
        let ghost fragments_before = self.fragments;
        self.fragments.generate_fragments(
            voxel_grid,
            (owners.as_slice(), new_handles.as_slice(), new_positions.as_slice()),
        );
        let f1: usize = self.fragments.fragments.len();
        let none: S = zero::<S>();
        let one: S = S::ratio(1, 1);
        let unit: V = V::new(one, one, one);
        let ghost skinned = *self;
        proof {
            assert(self.renderables@.subrange(0, old(self).renderables@.len() as int) =~= old(
                self,
            ).renderables@);
            assert(self.frag_map@.subrange(0, old(self).frag_map@.len() as int) =~= old(
                self,
            ).frag_map@);
        }
        let mut frag_idx: usize = f0;
        while frag_idx < f1
            invariant
                f0 <= frag_idx <= f1,
                f1 == self.fragments.fragments.index@.handles.len(),
                f0 == old(self).fragments.fragments.index@.handles.len(),
                f0 == old(self).frag_map@.len(),
                f1 <= f0 + voxel_grid.voxels@.len(),
                is_zero(none),
                is_one(one),
                vector_of::<S, V>(one, one, one, unit),
                self.fragments == skinned.fragments,
                self.xpbd == skinned.xpbd,
                self.fragments.wf(),
                self.xpbd.wf(),
                self.entity_data.wf(),
                old(self).entity_data.wf(),
                self.frag_map@.len() == frag_idx,
                self.renderables@.len() == old(self).renderables@.len() + (frag_idx - f0),
                self.entity_data.index@.handles.len() == old(self).entity_data.index@.handles.len()
                    + (frag_idx - f0),
                self.entity_data.position@.len() == self.entity_data.index@.handles.len(),
                old(self).renderables@.len() + voxel_grid.voxels@.len() <= u32::MAX,
                old(self).entity_data.index@.handles.len() + voxel_grid.voxels@.len() <= u32::MAX,
                forall|i: int|
                    1 <= i < self.frag_map@.len() ==> (#[trigger] self.frag_map@[i])
                        < self.renderables@.len(),
                self.fragments.node_map@.len() >= self.xpbd.nodes.index@.slots.len(),
                self.mesh_ids == old(self).mesh_ids,
                self.rotors == old(self).rotors,
                self.selection == old(self).selection,
                self.renderables@.subrange(0, old(self).renderables@.len() as int) == old(
                    self,
                ).renderables@,
                self.frag_map@.subrange(0, old(self).frag_map@.len() as int) == old(
                    self,
                ).frag_map@,
                forall|i: int| f0 <= i < frag_idx ==> #[trigger] self.drawn(old(self), i),
            decreases f1 - frag_idx,
        {
            let position: V = self.fragments.fragments.position[frag_idx];
            let ghost before = *self;
            let turned: [S; 4] = [none, none, none, one];
            let e_id: u32 = self.create_entity(0, position, turned, unit);
            self.frag_map.push(e_id);
            proof {
                assert forall|i: int| 1 <= i < self.frag_map@.len() implies (
                #[trigger] self.frag_map@[i]) < self.renderables@.len() by {
                    if i < before.frag_map@.len() {
                        assert(self.frag_map@[i] == before.frag_map@[i]);
                    }
                }
                assert(self.renderables@.subrange(0, old(self).renderables@.len() as int)
                    =~= before.renderables@.subrange(0, old(self).renderables@.len() as int));
                assert(self.frag_map@.subrange(0, old(self).frag_map@.len() as int)
                    =~= before.frag_map@.subrange(0, old(self).frag_map@.len() as int));
                crate::slots::lemma_put(before.entity_data.index@);
                let e = before.entity_data.index@.handles.len() as int;
                assert(self.entity_data.position@[e] == self.entity_data.position@.last());
                assert(self.entity_data.scale@[e] == self.entity_data.scale@.last());
                assert(self.entity_data.rotation@[e] == turned);
                assert(fragment_entity(
                    position,
                    self.entity_data.position@[e],
                    self.entity_data.rotation@[e],
                    self.entity_data.scale@[e],
                ));
                assert forall|i: int| f0 <= i < frag_idx + 1 implies #[trigger] self.drawn(
                    old(self),
                    i,
                ) by {
                    if i < frag_idx {
                        assert(before.drawn(old(self), i));
                        let k = i - f0;
                        let r = old(self).renderables@.len() + k;
                        let e0 = old(self).entity_data.index@.handles.len() + k;
                        assert(self.frag_map@[i] == before.frag_map@[i]);
                        assert(self.renderables@[r] == before.renderables@[r]);
                        assert(self.entity_data.index@.handles[e0]
                            == before.entity_data.index@.handles[e0]);
                        assert(self.entity_data.position@[e0] == before.entity_data.position@[e0]);
                        assert(self.entity_data.rotation@[e0] == before.entity_data.rotation@[e0]);
                        assert(self.entity_data.scale@[e0] == before.entity_data.scale@[e0]);
                    }
                }
            }
            frag_idx += 1;
        }
        proof {
            let now = self.xpbd.nodes.index@;
            assert forall|i: int, k: int|
                f0 <= i < f1 && 0 <= k < 4 implies now.live(
                #[trigger] self.fragments.fragments.parents@[i][k],
            ) by {
                let p = self.fragments.fragments.parents@[i][k];
                assert(self.fragments.fragments.state@[i] == FragmentState::Attached);
                assert(crate::fragment::parents_among(self.fragments.fragments.parents@[i], ids.nodes@));
                if p != 0 {
                    let j = choose|j: int| 0 <= j < ids.nodes@.len() && ids.nodes@[j] == p;
                    assert(now.index_of(ids.nodes@[j]) == nodes_before.handles.len() + j);
                }
            }
        }
        ids
    }

    /// Adds an entity as [`State::create_renderable`] does, and asks only
    /// that the entity table be well formed: fragments and renderables may
    /// be out of step while a structure is being registered.
    pub fn create_entity(&mut self, mesh_id: u32, position: V, rotation: [S; 4], scale: V) -> (id: u32)
        requires
            old(self).entity_data.wf(),
            old(self).renderables@.len() < u32::MAX,
            old(self).entity_data.index@.handles.len() < u32::MAX,
        ensures
            final(self).entity_data.wf(),
            id == old(self).renderables@.len(),
            final(self).renderables@ == old(self).renderables@.push(
                (Renderable {
                    mesh_id,
                    data_handle: old(self).entity_data.index@.next_handle(),
                }),
            ),
            final(self).entity_data.index@ == old(self).entity_data.index@.put(),
            final(self).entity_data.rotation@ == old(self).entity_data.rotation@.push(rotation),
            final(self).entity_data.position@ == old(self).entity_data.position@.push(
                final(self).entity_data.position@.last(),
            ),
            final(self).entity_data.scale@ == old(self).entity_data.scale@.push(
                final(self).entity_data.scale@.last(),
            ),
            entity_made(
                position,
                scale,
                final(self).entity_data.position@.last(),
                final(self).entity_data.scale@.last(),
            ),
            final(self).mesh_ids == old(self).mesh_ids,
            final(self).xpbd == old(self).xpbd,
            final(self).fragments == old(self).fragments,
            final(self).frag_map == old(self).frag_map,
            final(self).rotors == old(self).rotors,
            final(self).selection == old(self).selection,
    {
        let one: S = S::ratio(1, 1);
        let at: [S; 4] = lanes(position, one);
        let sized: [S; 4] = lanes(scale, one);
        let data_handle: u32 = self.entity_data.put((at, rotation, sized));
        let id: u32 = self.renderables.len() as u32;
        self.renderables.push(Renderable { mesh_id, data_handle });
        proof {
            assert(self.entity_data.position@.last() == at);
            assert(self.entity_data.scale@.last() == sized);
            assert(self.entity_data.position@ =~= old(self).entity_data.position@.push(at));
            assert(self.entity_data.scale@ =~= old(self).entity_data.scale@.push(sized));
        }
        id
    }

    /// Selects the link that `ray` passes first within the picking
    /// distance, as [`link_picked`] says. When it passes none, the
    /// selection stays as it was.
    pub fn pick_link(&mut self, ray: Ray<V>)
        requires
            old(self).wf(),
        ensures
            final(self).wf(),
            link_picked(
                ray,
                old(self).xpbd.nodes@,
                old(self).xpbd.links@,
                old(self).selection,
                final(self).selection,
            ),
            final(self).selection == old(self).selection || exists|i: int|
                0 <= i < old(self).xpbd.links.index@.handles.len() && final(self).selection
                    == Some(#[trigger] old(self).xpbd.links.index@.handles[i]),
            final(self).xpbd == old(self).xpbd,
            final(self).fragments == old(self).fragments,
            final(self).renderables == old(self).renderables,
            final(self).mesh_ids == old(self).mesh_ids,
            final(self).entity_data == old(self).entity_data,
            final(self).frag_map == old(self).frag_map,
            final(self).rotors == old(self).rotors,
    {
        let reach: S = S::ratio(RAY_SIZE_HUNDREDTHS, 100);
        let mut closest: Option<S> = None;
        let ghost nodes = self.xpbd.nodes@;
        let ghost links = self.xpbd.links@;
        let ghost mut trace: Seq<Picking<S>> = seq![
            (Picking { closest: None::<S>, selection: self.selection }),
        ];
        let count: usize = self.xpbd.links.len();
        let mut i: usize = 0;
        while i < count
            invariant
                i <= count,
                count == self.xpbd.links.index@.handles.len(),
                self.wf(),
                self.selection == old(self).selection || exists|k: int|
                    0 <= k < old(self).xpbd.links.index@.handles.len() && self.selection == Some(
                        #[trigger] old(self).xpbd.links.index@.handles[k],
                    ),
                self.xpbd == old(self).xpbd,
                self.fragments == old(self).fragments,
                self.renderables == old(self).renderables,
                self.mesh_ids == old(self).mesh_ids,
                self.entity_data == old(self).entity_data,
                self.frag_map == old(self).frag_map,
                self.rotors == old(self).rotors,
                nodes == old(self).xpbd.nodes@,
                links == old(self).xpbd.links@,
                ratio_of(RAY_SIZE_HUNDREDTHS, 100, reach),
                trace.len() == i + 1,
                trace[0] == (Picking { closest: None::<S>, selection: old(self).selection }),
                trace[i as int] == (Picking { closest, selection: self.selection }),
                forall|k: int|
                    0 <= k < i ==> picked_step(
                        ray,
                        reach,
                        nodes,
                        links,
                        k,
                        #[trigger] trace[k],
                        trace[k + 1],
                    ),
            decreases count - i,
        {
            let ghost before = Picking { closest, selection: self.selection };
            let link: LinkNodes = self.xpbd.links.relation[i];
            let a_i: usize = self.xpbd.nodes.get_indirect_unchecked(link.0) as usize;
            let b_i: usize = self.xpbd.nodes.get_indirect_unchecked(link.1) as usize;
            let a_p: V = self.xpbd.nodes.current_pos[a_i];
            let b_p: V = self.xpbd.nodes.current_pos[b_i];
            let segment: Segment<V> = Segment::new(a_p, b_p);
            let hit: Option<S> = intersect_ray_segment(ray, segment, reach);
            match hit {
                Some(t) => {
                    let nearer: bool = match closest {
                        Some(nearest) => !nearest.less(t),
                        None => true,
                    };
                    let id: u32 = self.xpbd.links.index.handles()[i];
                    if nearer {
                        closest = hit;
                        self.selection = Some(id);
                        assert(old(self).xpbd.links.index@.handles[i as int] == id);
                    }
                    proof {
                        assert(nearer_hit(
                            before,
                            t,
                            id,
                            (Picking { closest, selection: self.selection }),
                        ));
                    }
                },
                None => {},
            }
            proof {
                let now = Picking { closest, selection: self.selection };
                let earlier = trace;
                trace = trace.push(now);
                assert(segment == link_segment(nodes, links, i as int));
                assert(intersected(ray, link_segment(nodes, links, i as int), reach, hit));
                assert(picked_step(ray, reach, nodes, links, i as int, before, now));
                assert forall|k: int| 0 <= k < i + 1 implies picked_step(
                    ray,
                    reach,
                    nodes,
                    links,
                    k,
                    #[trigger] trace[k],
                    trace[k + 1],
                ) by {
                    if k < i {
                        assert(trace[k] == earlier[k]);
                        assert(trace[k + 1] == earlier[k + 1]);
                    } else {
                        assert(trace[k] == before);
                        assert(trace[k + 1] == now);
                    }
                }
            }
            i += 1;
        }
        proof {
            assert(pick_trace(ray, reach, nodes, links, trace));
        }
    }

    /// Frees the selected link, if one is selected, and clears the
    /// selection.
    pub fn break_selected(&mut self)
        requires
            old(self).wf(),
        ensures
            final(self).wf(),
            final(self).selection.is_none(),
            final(self).xpbd.links.index@ == match old(self).selection {
                Some(link) => old(self).xpbd.links.index@.freed(link),
                None => old(self).xpbd.links.index@,
            },
            final(self).xpbd.nodes == old(self).xpbd.nodes,
            final(self).fragments == old(self).fragments,
            final(self).renderables == old(self).renderables,
            final(self).entity_data == old(self).entity_data,
            final(self).frag_map == old(self).frag_map,
            final(self).rotors == old(self).rotors,
    {
        match self.selection {
            Some(link) => {
                self.xpbd.break_constraint(link);
            },
            None => {},
        }
        self.selection = None;
    }

    /// One tick of the simulation.
    ///
    /// Every node is pushed by `force` times its mass. The links that broke
    /// in the tick before propagate to the fragments, and the entity of
    /// every fragment that became debris is hidden: the fourth lane of its
    /// position becomes zero. Then the lattice advances by `delta`.
    pub fn simulate(&mut self, delta: S, force: V)
        requires
            old(self).wf(),
        ensures
            final(self).wf(),
            final(self).renderables == old(self).renderables,
            final(self).mesh_ids == old(self).mesh_ids,
            final(self).frag_map == old(self).frag_map,
            final(self).rotors == old(self).rotors,
            final(self).selection == old(self).selection,
            final(self).entity_data.index@ == old(self).entity_data.index@,
            final(self).entity_data.rotation@ == old(self).entity_data.rotation@,
            final(self).entity_data.scale@ == old(self).entity_data.scale@,
            final(self).xpbd.nodes.index@ == old(self).xpbd.nodes.index@,
            final(self).xpbd.nodes.mass@ == old(self).xpbd.nodes.mass@,
            final(self).xpbd.nodes.inv_mass@ == old(self).xpbd.nodes.inv_mass@,
            broke(
                old(self).xpbd.links.index@,
                final(self).xpbd.links.index@,
                final(self).xpbd.solver.broken_links@,
            ),
            final(self).xpbd.links.keeps_links_of(&old(self).xpbd.links),
            final(self).fragments.node_map == old(self).fragments.node_map,
            final(self).fragments.fragments.same_but_states(&old(self).fragments.fragments),
            old(self).xpbd.solver.allow_breaking ==> final(self).fragments.disabled() == old(
                self,
            ).fragments.disabled().next_frame().with_links(
                relations_of(old(self).xpbd.solver.broken_links@, &old(self).xpbd.links),
                old(self).fragments.node_lists(),
                old(self).fragments.fragments.index@,
            ),
            !old(self).xpbd.solver.allow_breaking ==> final(self).fragments == old(self).fragments,
            forall|i: int|
                0 <= i < final(self).fragments.fragments.state@.len() ==> #[trigger] final(self).fragments.fragments.state@[i]
                    == if old(self).xpbd.solver.allow_breaking && final(self).fragments.disabled().frame.contains(i as u32) {
                    FragmentState::Debris
                } else {
                    old(self).fragments.fragments.state@[i]
                },
            exists|pushed: Seq<V>|
                #![trigger forces_pushed(force, old(self).xpbd.nodes.mass@, old(self).xpbd.nodes.forces@, pushed)]
                forces_pushed(
                    force,
                    old(self).xpbd.nodes.mass@,
                    old(self).xpbd.nodes.forces@,
                    pushed,
                ) && stepped(
                    final(self).xpbd.solver.settings(),
                    (World {
                        nodes: (NodesModel { forces: pushed, ..old(self).xpbd.nodes@ }),
                        links: old(self).xpbd.links@,
                        broken: old(self).xpbd.solver.broken_links@,
                    }),
                    (World {
                        nodes: final(self).xpbd.nodes@,
                        links: final(self).xpbd.links@,
                        broken: final(self).xpbd.solver.broken_links@,
                    }),
                ),
            timed(
                old(self).xpbd.solver.substeps,
                delta,
                final(self).xpbd.solver.h,
                final(self).xpbd.solver.h2,
            ),
            final(self).entity_data.position@.len() == old(self).entity_data.position@.len(),
            exists|none: S|
                #![trigger is_zero(none)]
                is_zero(none) && forall|e: int|
                    0 <= e < final(self).entity_data.position@.len() ==> hidden_row(
                        old(self).entity_data.position@[e],
                        none,
                        old(self).xpbd.solver.allow_breaking && old(self).hides(
                            final(self).fragments.disabled().frame,
                            e,
                        ),
                        #[trigger] final(self).entity_data.position@[e],
                    ),
    {
        self.xpbd.apply_forces_batched(force);
        let ghost pushed = self.xpbd.nodes.forces@;
        let none: S = zero::<S>();
        if self.xpbd.solver.allow_breaking {
            self.fragments.handle_constraint_break(
                self.xpbd.solver.broken_links.as_slice(),
                &self.xpbd.links,
            );
            proof {
                crate::fragment::lemma_with_links_grows(
                    old(self).fragments.disabled().next_frame(),
                    relations_of(old(self).xpbd.solver.broken_links@, &old(self).xpbd.links),
                    old(self).fragments.node_lists(),
                    old(self).fragments.fragments.index@,
                );
            }
            let count: usize = self.fragments.disabled_frags_frame.len();
            let ghost moved = self.xpbd;
            let ghost spread = self.fragments;
            let ghost frame = self.fragments.disabled_frags_frame@;
            let mut k: usize = 0;
            while k < count
                invariant
                    k <= count,
                    count == self.fragments.disabled_frags_frame@.len(),
                    frame == self.fragments.disabled_frags_frame@,
                    is_zero(none),
                    old(self).entity_data.wf(),
                    self.entity_data.position@.len() == old(self).entity_data.position@.len(),
                    forall|e: int|
                        0 <= e < self.entity_data.position@.len() ==> hidden_row(
                            old(self).entity_data.position@[e],
                            none,
                            old(self).hides(frame.take(k as int), e),
                            #[trigger] self.entity_data.position@[e],
                        ),
                    self.xpbd == moved,
                    self.fragments == spread,
                    self.renderables == old(self).renderables,
                    self.mesh_ids == old(self).mesh_ids,
                    self.frag_map == old(self).frag_map,
                    self.rotors == old(self).rotors,
                    self.selection == old(self).selection,
                    self.entity_data.wf(),
                    self.entity_data.index@ == old(self).entity_data.index@,
                    self.entity_data.rotation@ == old(self).entity_data.rotation@,
                    self.entity_data.scale@ == old(self).entity_data.scale@,
                    self.frag_map@.len() == self.fragments.fragments.index@.handles.len(),
                    forall|i: int|
                        1 <= i < self.frag_map@.len() ==> (#[trigger] self.frag_map@[i])
                            < self.renderables@.len(),
                    forall|j: int|
                        0 <= j < count ==> 0 < (#[trigger] self.fragments.disabled_frags_frame@[j])
                            < self.fragments.fragments.index@.handles.len(),
                decreases count - k,
            {
                let broken: u32 = self.fragments.disabled_frags_frame[k];
                let renderable_id: u32 = self.frag_map[broken as usize];
                let entity_id: u32 = self.renderables[renderable_id as usize].data_handle;
                let at: usize = self.entity_data.get_indirect_unchecked(entity_id) as usize;
                let shown: [S; 4] = self.entity_data.position[at];
                let ghost rows = self.entity_data.position@;
                self.entity_data.position[at] = [shown[0], shown[1], shown[2], none];
                proof {
                    let done = frame.take(k as int);
                    let next = frame.take(k + 1);
                    assert(next[k as int] == broken);
                    assert(at == old(self).entity_of(broken));
                    assert forall|e: int|
                        0 <= e < self.entity_data.position@.len() implies hidden_row(
                        old(self).entity_data.position@[e],
                        none,
                        old(self).hides(next, e),
                        #[trigger] self.entity_data.position@[e],
                    ) by {
                        assert(hidden_row(
                            old(self).entity_data.position@[e],
                            none,
                            old(self).hides(done, e),
                            rows[e],
                        ));
                        if e == at {
                            assert(e == old(self).entity_of(next[k as int]));
                        } else {
                            if old(self).hides(done, e) {
                                let j = choose|j: int|
                                    0 <= j < done.len() && e == old(self).entity_of(
                                        #[trigger] done[j],
                                    );
                                assert(e == old(self).entity_of(next[j]));
                            }
                            if old(self).hides(next, e) {
                                let j = choose|j: int|
                                    0 <= j < next.len() && e == old(self).entity_of(
                                        #[trigger] next[j],
                                    );
                                assert(j != k);
                                assert(e == old(self).entity_of(done[j]));
                            }
                        }
                    }
                }
                k += 1;
            }
            proof {
                assert(frame.take(count as int) =~= frame);
            }
        } else {
            proof {
                assert forall|e: int|
                    0 <= e < self.entity_data.position@.len() implies hidden_row(
                    old(self).entity_data.position@[e],
                    none,
                    false,
                    #[trigger] self.entity_data.position@[e],
                ) by {}
            }
        }
        proof {
            assert(forces_pushed(
                force,
                old(self).xpbd.nodes.mass@,
                old(self).xpbd.nodes.forces@,
                pushed,
            ));
            assert(self.xpbd.nodes@ == (NodesModel { forces: pushed, ..old(self).xpbd.nodes@ }));
        }
        self.xpbd.update(delta);
    }

    /// Copies the frame into `section` of `buffers`.
    ///
    /// One draw command for all fragments but the degenerate one joins the
    /// queue. The columns of the tables are copied to their partitions,
    /// each from its start: numbers as they are, reals by their bits,
    /// points padded to four lanes. The queue is copied to the command
    /// section and emptied. Returns `Err` with the number of commands that
    /// the section had no room for. Rows beyond the room of a partition are
    /// left out.
    pub fn upload_gpu(
        &self,
        buffers: &mut FrameDataBuffers,
        section: StorageSection,
        command_queue: &mut GpuCommandQueue<DrawArraysIndirectCommand>,
    ) -> (result: Result<(), usize>)
        requires
            self.wf(),
            old(buffers).wf(),
        ensures
            final(buffers).wf(),
            final(command_queue).commands@.len() == 0,
            ({
                let queued = old(command_queue).commands@.push(
                    (DrawArraysIndirectCommand {
                        count: FRAGMENT_MESH_VERTICES,
                        instance_count: (self.fragments.fragments.index@.handles.len() - 1) as u32,
                        first_vertex: 0,
                        base_instance: 0,
                    }),
                );
                let room = old(buffers).command.capacity;
                &&& final(buffers).command.section(section) == queued.take(
                    if queued.len() <= room {
                        queued.len() as int
                    } else {
                        room as int
                    },
                )
                &&& result == if queued.len() <= room {
                    Ok::<(), usize>(())
                } else {
                    Err::<(), usize>((queued.len() - room) as usize)
                }
            }),
            forall|s: StorageSection|
                s != section ==> #[trigger] final(buffers).command.section(s) == old(
                    buffers,
                ).command.section(s),
            final(buffers).xpbd_debug_link_count == self.xpbd.links.index@.handles.len(),
            final(buffers).fragments.part(section, LayoutFragmentData::ImapNodes.slot()) == blitted(
                old(buffers).fragments.part(section, LayoutFragmentData::ImapNodes.slot()),
                self.xpbd.nodes.index@.handles,
                0,
            ),
            final(buffers).fragments.part(section, LayoutFragmentData::PodParents.slot())
                == blitted(
                old(buffers).fragments.part(section, LayoutFragmentData::PodParents.slot()),
                flat4(self.fragments.fragments.parents@),
                0,
            ),
            final(buffers).fragments.part(section, LayoutFragmentData::PodStates.slot()) == old(
                buffers,
            ).fragments.part(section, LayoutFragmentData::PodStates.slot()),
            final(buffers).scene.part(section, LayoutEntityData::EntityIndexMap.slot()) == blitted(
                old(buffers).scene.part(section, LayoutEntityData::EntityIndexMap.slot()),
                renderable_words(self.renderables@),
                0,
            ),
            final(buffers).scene.part(section, LayoutEntityData::MeshData.slot()) == blitted(
                old(buffers).scene.part(section, LayoutEntityData::MeshData.slot()),
                self.mesh_ids@,
                0,
            ),
            final(buffers).scene.part(section, LayoutEntityData::ImapEntityData.slot()) == blitted(
                old(buffers).scene.part(section, LayoutEntityData::ImapEntityData.slot()),
                self.entity_data.index@.handles,
                0,
            ),
            final(buffers).xpbd_debug.part(section, LayoutXpbdDebugData::Constraints.slot())
                == blitted(
                old(buffers).xpbd_debug.part(section, LayoutXpbdDebugData::Constraints.slot()),
                relation_words(self.xpbd.links.relation@),
                0,
            ),
            final(buffers).xpbd_debug.part(section, LayoutXpbdDebugData::ImapNodes.slot())
                == blitted(
                old(buffers).xpbd_debug.part(section, LayoutXpbdDebugData::ImapNodes.slot()),
                self.xpbd.nodes.index@.handles,
                0,
            ),
            final(buffers).xpbd_debug.part(section, LayoutXpbdDebugData::ISelected.slot())
                == blitted(
                old(buffers).xpbd_debug.part(section, LayoutXpbdDebugData::ISelected.slot()),
                seq![
                    match self.selection {
                        Some(link) => self.xpbd.links.index@.index_of(link),
                        None => 0u32,
                    },
                ],
                0,
            ),
            self.reals_uploaded(old(buffers), final(buffers), section),
            forall|s: StorageSection, p: int|
                s != section && 0 <= p < 7 ==> #[trigger] final(buffers).fragments.part(s, p)
                    == old(buffers).fragments.part(s, p),
            forall|s: StorageSection, p: int|
                s != section && 0 <= p < 8 ==> #[trigger] final(buffers).scene.part(s, p) == old(
                    buffers,
                ).scene.part(s, p),
            forall|s: StorageSection, p: int|
                s != section && 0 <= p < 4 ==> #[trigger] final(buffers).xpbd_debug.part(s, p)
                    == old(buffers).xpbd_debug.part(s, p),
    {
        let fragment_count: u32 = self.fragments.fragments.len() as u32;
        command_queue.push(
            DrawArraysIndirectCommand {
                count: FRAGMENT_MESH_VERTICES,
                instance_count: fragment_count - 1,
                first_vertex: 0,
                base_instance: 0,
            },
        );

        let node_handles: &[u32] = self.xpbd.nodes.handles();
        let node_positions: Vec<[u32; 3]> = words_of_points(self.xpbd.nodes.current_pos_slice());
        let parents: Vec<u32> = words_of_handles4(self.fragments.fragments.parents_slice());
        let weights: Vec<u32> = words_of_quads(self.fragments.fragments.influence_slice());
        let offsets: Vec<[u32; 3]> = words_of_points(self.fragments.fragments.rest_offset_slice());
        let rotors: Vec<u32> = words_of_rotations(self.rotors.rotations());
        {
            let fragments = &mut buffers.fragments;
            let _ = fragments.blit_part(
                section,
                LayoutFragmentData::ImapNodes.bind(),
                node_handles,
                0,
            );
            let _ = fragments.blit_part_padded(
                section,
                LayoutFragmentData::PodNodesPositions.bind(),
                node_positions.as_slice(),
                0,
                4,
            );
            let _ = fragments.blit_part(
                section,
                LayoutFragmentData::PodNodesRotors.bind(),
                rotors.as_slice(),
                0,
            );
            let _ = fragments.blit_part(
                section,
                LayoutFragmentData::PodParents.bind(),
                parents.as_slice(),
                0,
            );
            let _ = fragments.blit_part(
                section,
                LayoutFragmentData::PodWeights.bind(),
                weights.as_slice(),
                0,
            );
            let _ = fragments.blit_part_padded(
                section,
                LayoutFragmentData::PodOffsets.bind(),
                offsets.as_slice(),
                0,
                4,
            );
        }

        let entity_map: Vec<u32> = words_of_renderables(self.renderables.as_slice());
        let positions: Vec<u32> = words_of_quads(self.entity_data.position_slice());
        let rotations: Vec<u32> = words_of_quads(self.entity_data.rotation_slice());
        let scales: Vec<u32> = words_of_quads(self.entity_data.scale_slice());
        {
            let scene = &mut buffers.scene;
            let _ = scene.blit_part(
                section,
                LayoutEntityData::EntityIndexMap.bind(),
                entity_map.as_slice(),
                0,
            );
            let _ = scene.blit_part(
                section,
                LayoutEntityData::MeshData.bind(),
                self.mesh_ids.as_slice(),
                0,
            );
            let _ = scene.blit_part(
                section,
                LayoutEntityData::ImapEntityData.bind(),
                self.entity_data.handles(),
                0,
            );
            let _ = scene.blit_part(
                section,
                LayoutEntityData::PodPositions.bind(),
                positions.as_slice(),
                0,
            );
            let _ = scene.blit_part(
                section,
                LayoutEntityData::PodRotations.bind(),
                rotations.as_slice(),
                0,
            );
            let _ = scene.blit_part(section, LayoutEntityData::PodScales.bind(), scales.as_slice(), 0);
        }

        let constraints: Vec<u32> = words_of_relations(self.xpbd.links.relation_slice());
        let selected_link: u32 = match self.selection {
            Some(link) => self.xpbd.links.get_indirect_unchecked(link),
            None => 0,
        };
        let selected: [u32; 1] = [selected_link];
        {
            let xpbd_dbg = &mut buffers.xpbd_debug;
            let _ = xpbd_dbg.blit_part(
                section,
                LayoutXpbdDebugData::Constraints.bind(),
                constraints.as_slice(),
                0,
            );
            let _ = xpbd_dbg.blit_part(
                section,
                LayoutXpbdDebugData::ImapNodes.bind(),
                node_handles,
                0,
            );
            let _ = xpbd_dbg.blit_part_padded(
                section,
                LayoutXpbdDebugData::PodNodes.bind(),
                node_positions.as_slice(),
                0,
                4,
            );
            let _ = xpbd_dbg.blit_part(
                section,
                LayoutXpbdDebugData::ISelected.bind(),
                selected.as_slice(),
                0,
            );
        }
        assert(selected@ =~= seq![selected_link]);
        buffers.xpbd_debug_link_count = self.xpbd.links.len() as u32;
        proof {
            assert(point_words::<S, V>(self.xpbd.nodes.current_pos@, node_positions@));
            assert(point_words::<S, V>(self.fragments.fragments.rest_offset@, offsets@));
            assert(quad_words(self.fragments.fragments.influence@, weights@));
            assert(rotation_words::<S, V, Q>(self.rotors.rotations@, rotors@));
            assert(quad_words(self.entity_data.position@, positions@));
            assert(quad_words(self.entity_data.rotation@, rotations@));
            assert(quad_words(self.entity_data.scale@, scales@));
            assert(self.reals_uploaded(old(buffers), buffers, section));
        }

        let result = command_queue.upload(&mut buffers.command, section);
        proof {
            assert(command_queue.commands@.take(command_queue.commands@.len() as int)
                =~= command_queue.commands@);
        }
        command_queue.clear();
        result
    }
}

/// The elements of `items` from `from` up to `to`.
fn copy_range<T: Copy>(items: &[T], from: usize, to: usize) -> (out: Vec<T>)
    requires
        from <= to <= items@.len(),
    ensures
        out@ == items@.subrange(from as int, to as int),
{
    let mut out: Vec<T> = Vec::new();
    let mut i: usize = from;
    while i < to
        invariant
            from <= i <= to <= items@.len(),
            out@ == items@.subrange(from as int, i as int),
        decreases to - i,
    {
        out.push(items[i]);
        assert(items@.subrange(from as int, i + 1) =~= items@.subrange(from as int, i as int).push(
            items@[i as int],
        ));
        i += 1;
    }
    out
}

} // verus!
