//! The rotation of every lattice node.
//!
//! A node has no orientation of its own. It is read off its links: the
//! directions to its neighbours when the lattice was at rest, the "basis",
//! are compared with the directions to them now, the "relatives", and the
//! arcs between the two are blended into one rotation.

use vstd::prelude::*;
use crate::column::ParallelIndexArrayColumn;
use crate::numeric::{
    Rotation,
    Scalar,
    Vector,
    arc_of,
    identity_rotation,
    is_less,
    is_zero,
    normalized_of,
    rdot_of,
    rnegation,
    rsum,
    vdifference,
    vnegation,
    zero,
};
use crate::slots::{SlotModel, lemma_put};
use crate::xpbd::{LinkNodes, LinksModel, LinksRowTable, NodesModel, NodesRowTable};

verus! {

/// Where a node keeps its directions: a handle into the basis lists and
/// one into the relative lists. `0` means none yet.
#[derive(Clone, Copy, Debug, Default, PartialEq, Eq, PartialOrd, Ord, Hash, Structural)]
pub struct RotorHandle {
    pub basis: u32,
    pub relative: u32,
}

/// `r` is the direction from `from` to `to`, at length one.
pub open spec fn pointing<S: Scalar, V: Vector<S>>(from: V, to: V, r: V) -> bool {
    exists|d: V| #![auto] vdifference::<S, V>(to, from, d) && normalized_of::<S, V>(d, r)
}

/// The direction from one point to another, at length one.
pub fn point_to<S: Scalar, V: Vector<S>>(from: V, to: V) -> (r: V)
    ensures
        pointing::<S, V>(from, to, r),
{
    to.minus(from).normalized()
}

/// `lists` with the direction `d` appended to the list of the node `n`.
pub open spec fn with_direction<V>(lists: Map<int, Seq<V>>, n: int, d: V) -> Map<int, Seq<V>> {
    lists.insert(n, lists[n].push(d))
}

/// `after` holds the lists `before` after the link in row `j` was read:
/// the direction from its first node to its second joins the list of the
/// first, and the opposite direction the list of the second. A node that
/// is not live stands where the degenerate node stands.
pub open spec fn link_read<S: Scalar, V: Vector<S>>(
    nodes: NodesModel<S, V>,
    links: LinksModel<S>,
    j: int,
    before: Map<int, Seq<V>>,
    after: Map<int, Seq<V>>,
) -> bool {
    let a = links.relation[j].0;
    let b = links.relation[j].1;
    exists|there: V, back: V|
        #![trigger vnegation::<S, V>(there, back)]
        pointing::<S, V>(
            nodes.current_pos[nodes.index.index_of(a) as int],
            nodes.current_pos[nodes.index.index_of(b) as int],
            there,
        ) && vnegation::<S, V>(there, back) && after == with_direction(
            with_direction(before, a as int, there),
            b as int,
            back,
        )
}

/// `trace` holds the lists before the first link was read, and after every
/// link, in dense order.
pub open spec fn read_trace<S: Scalar, V: Vector<S>>(
    nodes: NodesModel<S, V>,
    links: LinksModel<S>,
    trace: Seq<Map<int, Seq<V>>>,
) -> bool {
    &&& trace.len() == links.relation.len() + 1
    &&& forall|j: int|
        0 <= j < links.relation.len() ==> link_read(nodes, links, j, #[trigger] trace[j], trace[j + 1])
}

/// `after` holds the lists `before` after every link was read, in dense
/// order.
pub open spec fn links_read<S: Scalar, V: Vector<S>>(
    nodes: NodesModel<S, V>,
    links: LinksModel<S>,
    before: Map<int, Seq<V>>,
    after: Map<int, Seq<V>>,
) -> bool {
    exists|trace: Seq<Map<int, Seq<V>>>|
        #![trigger read_trace(nodes, links, trace)]
        read_trace(nodes, links, trace) && trace[0] == before && trace.last() == after
}

/// The lists of no node: every one empty.
pub open spec fn no_directions<V>() -> Map<int, Seq<V>> {
    Map::total(|n: int| Seq::<V>::empty())
}

/// `next` is the rotation `q` with the arc from `from` to `to` added, on
/// the side of `q`: where the inner product of the two is less than
/// `none`, the arc is negated first.
pub open spec fn turned_by<S: Scalar, V: Vector<S>, Q: Rotation<S, V>>(
    none: S,
    from: V,
    to: V,
    q: Q,
    next: Q,
) -> bool {
    exists|arc: Q, side: S, opposed: bool|
        #![trigger rdot_of::<S, V, Q>(q, arc, side), is_less(side, none, opposed)]
        arc_of::<S, V, Q>(from, to, arc) && rdot_of::<S, V, Q>(q, arc, side) && is_less(
            side,
            none,
            opposed,
        ) && if opposed {
            exists|turned: Q|
                #![trigger rnegation::<S, V, Q>(arc, turned)]
                rnegation::<S, V, Q>(arc, turned) && rsum::<S, V, Q>(q, turned, next)
        } else {
            rsum::<S, V, Q>(q, arc, next)
        }
}

/// The rotation `q` with one more arc added.
pub fn turn_by<S: Scalar, V: Vector<S>, Q: Rotation<S, V>>(none: S, from: V, to: V, q: Q) -> (next:
    Q)
    ensures
        turned_by::<S, V, Q>(none, from, to, q, next),
{
    let arc: Q = Q::from_rotation_arc(from, to);
    if q.dot(arc).less(none) {
        q.plus(arc.negated())
    } else {
        q.plus(arc)
    }
}

/// `trace` holds the rotation before the first pair of directions, and
/// after every pair: as many pairs as both lists have.
pub open spec fn turn_trace<S: Scalar, V: Vector<S>, Q: Rotation<S, V>>(
    none: S,
    basis: Seq<V>,
    relatives: Seq<V>,
    trace: Seq<Q>,
) -> bool {
    let pairs = if basis.len() < relatives.len() {
        basis.len()
    } else {
        relatives.len()
    };
    &&& trace.len() == pairs + 1
    &&& forall|p: int|
        0 <= p < pairs ==> turned_by::<S, V, Q>(
            none,
            basis[p],
            relatives[p],
            #[trigger] trace[p],
            trace[p + 1],
        )
}

/// `q` is the rotation of a node with the given basis and relatives: the
/// identity with the arc of every pair added, in the order of the lists.
pub open spec fn turned<S: Scalar, V: Vector<S>, Q: Rotation<S, V>>(
    none: S,
    basis: Seq<V>,
    relatives: Seq<V>,
    q: Q,
) -> bool {
    exists|trace: Seq<Q>|
        #![trigger turn_trace::<S, V, Q>(none, basis, relatives, trace)]
        turn_trace::<S, V, Q>(none, basis, relatives, trace) && identity_rotation::<S, V, Q>(
            trace[0],
        ) && trace.last() == q
}

/// The rotations of the nodes and the directions they are computed from.
pub struct RotorSystem<V, Q> {
    /// The rotation of every node row, as of the last computation.
    pub rotations: Vec<Q>,
    /// For every node handle, where its directions are kept.
    pub node_map: Vec<RotorHandle>,
    pub relatives: ParallelIndexArrayColumn<Vec<V>>,
    pub basis: ParallelIndexArrayColumn<Vec<V>>,
}

impl<V: Copy, Q: Copy> RotorSystem<V, Q> {
    /// Both columns are well formed; every handle that a node holds is live
    /// in its column; and no two nodes share a list.
    pub open spec fn wf(&self) -> bool {
        &&& self.relatives.wf()
        &&& self.basis.wf()
        &&& forall|n: int|
            0 <= n < self.node_map@.len() ==> self.basis@.index.live(
                (#[trigger] self.node_map@[n]).basis,
            ) && self.relatives@.index.live(self.node_map@[n].relative)
        &&& forall|m: int, n: int|
            0 <= m < n < self.node_map@.len() && (#[trigger] self.node_map@[m]).basis != 0
                ==> self.node_map@[m].basis != (#[trigger] self.node_map@[n]).basis
        &&& forall|m: int, n: int|
            0 <= m < n < self.node_map@.len() && (#[trigger] self.node_map@[m]).relative != 0
                ==> self.node_map@[m].relative != (#[trigger] self.node_map@[n]).relative
    }

    /// Whether the node `n` has both of its lists.
    pub open spec fn assigned(&self, n: int) -> bool {
        0 <= n < self.node_map@.len() && self.node_map@[n].basis != 0 && self.node_map@[n].relative
            != 0
    }

    /// The basis of the node `n`: the directions to its neighbours at rest.
    /// A node without a list has none.
    pub open spec fn basis_of(&self, n: int) -> Seq<V> {
        if 0 <= n < self.node_map@.len() && self.node_map@[n].basis != 0 {
            self.basis@.value_of(self.node_map@[n].basis)@
        } else {
            Seq::empty()
        }
    }

    /// The relatives of the node `n`: the directions to its neighbours now.
    /// A node without a list has none.
    pub open spec fn relatives_of(&self, n: int) -> Seq<V> {
        if 0 <= n < self.node_map@.len() && self.node_map@[n].relative != 0 {
            self.relatives@.value_of(self.node_map@[n].relative)@
        } else {
            Seq::empty()
        }
    }

    /// The basis of every node.
    pub open spec fn basis_lists(&self) -> Map<int, Seq<V>> {
        Map::total(|n: int| self.basis_of(n))
    }

    /// The relatives of every node.
    pub open spec fn relative_lists(&self) -> Map<int, Seq<V>> {
        Map::total(|n: int| self.relatives_of(n))
    }

    /// Whether the system holds nothing: no rotation, no node, and in each
    /// of its two columns the degenerate row alone, an empty list.
    pub open spec fn fresh(&self) -> bool {
        &&& self.wf()
        &&& self.rotations@.len() == 0
        &&& self.node_map@.len() == 0
        &&& self.basis@.index == SlotModel::empty()
        &&& self.basis@.rows.len() == 1
        &&& self.basis@.rows[0]@ == Seq::<V>::empty()
        &&& self.relatives@.index == SlotModel::empty()
        &&& self.relatives@.rows.len() == 1
        &&& self.relatives@.rows[0]@ == Seq::<V>::empty()
    }

    /// A system that knows no node.
    pub fn new() -> (system: Self)
        ensures
            system.fresh(),
    {
        Self::with_capacity(0)
    }

    /// As [`RotorSystem::new`], with room for `capacity` nodes. The room
    /// is reserved and nothing else: the system is as empty as a new one.
    pub fn with_capacity(capacity: usize) -> (system: Self)
        ensures
            system.fresh(),
    {
        RotorSystem {
            rotations: Vec::with_capacity(capacity),
            node_map: Vec::with_capacity(capacity),
            relatives: ParallelIndexArrayColumn::with_capacity(Vec::new(), capacity),
            basis: ParallelIndexArrayColumn::with_capacity(Vec::new(), capacity),
        }
    }

    /// The rotation of every node row, in the order of the node table at
    /// the last call of [`RotorSystem::recompute_rotations`].
    pub fn rotations(&self) -> (out: &[Q])
        ensures
            out@ == self.rotations@,
    {
        self.rotations.as_slice()
    }

    /// Empties the relative list of every node.
    pub fn clear_relatives(&mut self)
        requires
            old(self).wf(),
        ensures
            final(self).wf(),
            final(self).rotations == old(self).rotations,
            final(self).node_map == old(self).node_map,
            final(self).basis == old(self).basis,
            final(self).relatives@.index == old(self).relatives@.index,
            final(self).relative_lists() == no_directions::<V>(),
    {
        let count: usize = self.relatives.len();
        let mut i: usize = 0;
        while i < count
            invariant
                i <= count,
                count == self.relatives@.rows.len(),
                self.wf(),
                self.rotations == old(self).rotations,
                self.node_map == old(self).node_map,
                self.basis == old(self).basis,
                self.relatives@.index == old(self).relatives@.index,
                forall|j: int| 0 <= j < i ==> (#[trigger] self.relatives@.rows[j])@.len() == 0,
            decreases count - i,
        {
            self.relatives.contiguous[i].clear();
            i += 1;
        }
        proof {
            assert forall|n: int| self.relatives_of(n) =~= Seq::<V>::empty() by {}
            assert(self.relative_lists() =~= no_directions::<V>());
        }
    }

    /// Empties the basis of every node.
    pub fn clear_basis(&mut self)
        requires
            old(self).wf(),
        ensures
            final(self).wf(),
            final(self).rotations == old(self).rotations,
            final(self).node_map == old(self).node_map,
            final(self).relatives == old(self).relatives,
            final(self).basis@.index == old(self).basis@.index,
            final(self).basis_lists() == no_directions::<V>(),
    {
        let count: usize = self.basis.len();
        let mut i: usize = 0;
        while i < count
            invariant
                i <= count,
                count == self.basis@.rows.len(),
                self.wf(),
                self.rotations == old(self).rotations,
                self.node_map == old(self).node_map,
                self.relatives == old(self).relatives,
                self.basis@.index == old(self).basis@.index,
                forall|j: int| 0 <= j < i ==> (#[trigger] self.basis@.rows[j])@.len() == 0,
            decreases count - i,
        {
            self.basis.contiguous[i].clear();
            i += 1;
        }
        proof {
            assert forall|n: int| self.basis_of(n) =~= Seq::<V>::empty() by {}
            assert(self.basis_lists() =~= no_directions::<V>());
        }
    }

    /// The lists of the node `node_id`, made on first use: a node without a
    /// basis gets the next handle of the basis lists, with an empty list,
    /// and likewise for its relatives. No list of any node changes.
    pub fn node_rotors_handle(&mut self, node_id: u32) -> (handle: RotorHandle)
        requires
            old(self).wf(),
            old(self).basis@.index.handles.len() < u32::MAX,
            old(self).relatives@.index.handles.len() < u32::MAX,
        ensures
            final(self).wf(),
            final(self).assigned(node_id as int),
            handle == final(self).node_map@[node_id as int],
            handle.basis == if node_id < old(self).node_map@.len() && old(
                self,
            ).node_map@[node_id as int].basis != 0 {
                old(self).node_map@[node_id as int].basis
            } else {
                old(self).basis@.index.next_handle()
            },
            handle.relative == if node_id < old(self).node_map@.len() && old(
                self,
            ).node_map@[node_id as int].relative != 0 {
                old(self).node_map@[node_id as int].relative
            } else {
                old(self).relatives@.index.next_handle()
            },
            final(self).rotations == old(self).rotations,
            old(self).assigned(node_id as int) ==> final(self).node_map@ == old(self).node_map@
                && final(self).basis == old(self).basis && final(self).relatives == old(
                self,
            ).relatives,
            final(self).node_map@.len() == if node_id < old(self).node_map@.len() {
                old(self).node_map@.len()
            } else {
                (node_id + 1) as nat
            },
            forall|n: int|
                0 <= n < old(self).node_map@.len() && n != node_id ==> #[trigger] final(self).node_map@[n]
                    == old(self).node_map@[n],
            forall|n: int|
                old(self).node_map@.len() <= n < final(self).node_map@.len() && n != node_id
                    ==> #[trigger] final(self).node_map@[n] == (RotorHandle { basis: 0, relative: 0 }),
            final(self).basis_lists() == old(self).basis_lists(),
            final(self).relative_lists() == old(self).relative_lists(),
            old(self).basis@.index.handles.len() <= final(self).basis@.index.handles.len() <= old(
                self,
            ).basis@.index.handles.len() + 1,
            old(self).relatives@.index.handles.len() <= final(self).relatives@.index.handles.len()
                <= old(self).relatives@.index.handles.len() + 1,
    {
        let index: usize = node_id as usize;
        while self.node_map.len() <= index
            invariant
                index == node_id,
                self.wf(),
                self.rotations == old(self).rotations,
                self.basis == old(self).basis,
                self.relatives == old(self).relatives,
                old(self).node_map@.len() <= self.node_map@.len() <= index + 1
                    || self.node_map@.len() == old(self).node_map@.len(),
                forall|n: int|
                    0 <= n < old(self).node_map@.len() ==> #[trigger] self.node_map@[n] == old(
                        self,
                    ).node_map@[n],
                forall|n: int|
                    old(self).node_map@.len() <= n < self.node_map@.len()
                        ==> #[trigger] self.node_map@[n] == (RotorHandle { basis: 0, relative: 0 }),
            decreases index + 1 - self.node_map@.len(),
        {
            self.node_map.push(RotorHandle { basis: 0, relative: 0 });
        }
        let ghost grown = *self;
        proof {
            assert forall|n: int| grown.basis_of(n) == old(self).basis_of(n) by {}
            assert forall|n: int| grown.relatives_of(n) == old(self).relatives_of(n) by {}
            lemma_put(self.basis@.index);
            lemma_put(self.relatives@.index);
        }
        let mut entry: RotorHandle = self.node_map[index];
        if entry.basis == 0 {
            entry.basis = self.basis.put(Vec::new());
        }
        if entry.relative == 0 {
            entry.relative = self.relatives.put(Vec::new());
        }
        let ghost before = self.node_map@;
        self.node_map[index] = entry;
        proof {
            if old(self).assigned(node_id as int) {
                assert(self.node_map@ =~= old(self).node_map@);
            }
            assert forall|n: int| 0 <= n < self.node_map@.len() implies self.basis@.index.live(
                (#[trigger] self.node_map@[n]).basis,
            ) && self.relatives@.index.live(self.node_map@[n].relative) by {
                if n != index {
                    assert(self.node_map@[n] == before[n]);
                    assert(grown.basis@.index.live(before[n].basis));
                    assert(grown.relatives@.index.live(before[n].relative));
                }
            }
            assert forall|m: int, n: int|
                0 <= m < n < self.node_map@.len() && (#[trigger] self.node_map@[m]).basis
                    != 0 implies self.node_map@[m].basis != (#[trigger] self.node_map@[n]).basis by {
                if m != index {
                    assert(self.node_map@[m] == before[m]);
                    assert(grown.basis@.index.live(before[m].basis));
                }
                if n != index {
                    assert(self.node_map@[n] == before[n]);
                    assert(grown.basis@.index.live(before[n].basis));
                }
            }
            assert forall|m: int, n: int|
                0 <= m < n < self.node_map@.len() && (#[trigger] self.node_map@[m]).relative
                    != 0 implies self.node_map@[m].relative != (
                #[trigger] self.node_map@[n]).relative by {
                if m != index {
                    assert(self.node_map@[m] == before[m]);
                    assert(grown.relatives@.index.live(before[m].relative));
                }
                if n != index {
                    assert(self.node_map@[n] == before[n]);
                    assert(grown.relatives@.index.live(before[n].relative));
                }
            }
            assert forall|n: int| self.basis_of(n) =~= grown.basis_of(n) by {
                if 0 <= n < self.node_map@.len() {
                    if n != index {
                        assert(self.node_map@[n] == before[n]);
                        assert(grown.basis@.index.live(before[n].basis));
                    }
                }
            }
            assert forall|n: int| self.relatives_of(n) =~= grown.relatives_of(n) by {
                if 0 <= n < self.node_map@.len() {
                    if n != index {
                        assert(self.node_map@[n] == before[n]);
                        assert(grown.relatives@.index.live(before[n].relative));
                    }
                }
            }
            assert(self.basis_lists() =~= old(self).basis_lists());
            assert(self.relative_lists() =~= old(self).relative_lists());
        }
        entry
    }

    /// Appends `direction` to the basis of the node `node_id`.
    fn push_basis(&mut self, node_id: u32, direction: V)
        requires
            old(self).wf(),
            old(self).basis@.index.handles.len() < u32::MAX,
            old(self).relatives@.index.handles.len() < u32::MAX,
        ensures
            final(self).wf(),
            final(self).assigned(node_id as int),
            final(self).rotations == old(self).rotations,
            final(self).basis_lists() == with_direction(
                old(self).basis_lists(),
                node_id as int,
                direction,
            ),
            final(self).relative_lists() == old(self).relative_lists(),
            forall|n: int| old(self).assigned(n) ==> final(self).assigned(n),
            old(self).basis@.index.handles.len() <= final(self).basis@.index.handles.len() <= old(
                self,
            ).basis@.index.handles.len() + 1,
            old(self).relatives@.index.handles.len() <= final(self).relatives@.index.handles.len()
                <= old(self).relatives@.index.handles.len() + 1,
    {
        let handle: RotorHandle = self.node_rotors_handle(node_id);
        let ghost made = *self;
        let at: usize = self.basis.get_indirect_unchecked(handle.basis) as usize;
        self.basis.contiguous[at].push(direction);
        proof {
            assert(made.basis@.index.live(handle.basis));
            assert forall|n: int| self.basis_of(n) =~= with_direction(
                made.basis_lists(),
                node_id as int,
                direction,
            )[n] by {
                if 0 <= n < self.node_map@.len() && self.node_map@[n].basis != 0 && n != node_id {
                    let h = self.node_map@[n].basis;
                    assert(made.basis@.index.live(h));
                    assert(h != handle.basis);
                    assert(made.basis@.index.handles[made.basis@.index.index_of(h) as int] == h);
                    assert(made.basis@.index.handles[at as int] == handle.basis);
                }
            }
            assert(self.basis_lists() =~= with_direction(
                old(self).basis_lists(),
                node_id as int,
                direction,
            ));
            assert forall|n: int| self.relatives_of(n) == made.relatives_of(n) by {}
            assert(self.relative_lists() =~= old(self).relative_lists());
            assert forall|n: int| old(self).assigned(n) implies self.assigned(n) by {
                if n != node_id {
                    assert(made.node_map@[n] == old(self).node_map@[n]);
                }
            }
        }
    }

    /// Appends `direction` to the relatives of the node `node_id`.
    fn push_relative(&mut self, node_id: u32, direction: V)
        requires
            old(self).wf(),
            old(self).basis@.index.handles.len() < u32::MAX,
            old(self).relatives@.index.handles.len() < u32::MAX,
        ensures
            final(self).wf(),
            final(self).assigned(node_id as int),
            final(self).rotations == old(self).rotations,
            final(self).relative_lists() == with_direction(
                old(self).relative_lists(),
                node_id as int,
                direction,
            ),
            final(self).basis_lists() == old(self).basis_lists(),
            forall|n: int| old(self).assigned(n) ==> final(self).assigned(n),
            old(self).basis@.index.handles.len() <= final(self).basis@.index.handles.len() <= old(
                self,
            ).basis@.index.handles.len() + 1,
            old(self).relatives@.index.handles.len() <= final(self).relatives@.index.handles.len()
                <= old(self).relatives@.index.handles.len() + 1,
    {
        let handle: RotorHandle = self.node_rotors_handle(node_id);
        let ghost made = *self;
        let at: usize = self.relatives.get_indirect_unchecked(handle.relative) as usize;
        self.relatives.contiguous[at].push(direction);
        proof {
            assert(made.relatives@.index.live(handle.relative));
            assert forall|n: int| self.relatives_of(n) =~= with_direction(
                made.relative_lists(),
                node_id as int,
                direction,
            )[n] by {
                if 0 <= n < self.node_map@.len() && self.node_map@[n].relative != 0 && n
                    != node_id {
                    let h = self.node_map@[n].relative;
                    assert(made.relatives@.index.live(h));
                    assert(h != handle.relative);
                    assert(made.relatives@.index.handles[made.relatives@.index.index_of(h) as int]
                        == h);
                    assert(made.relatives@.index.handles[at as int] == handle.relative);
                }
            }
            assert(self.relative_lists() =~= with_direction(
                old(self).relative_lists(),
                node_id as int,
                direction,
            ));
            assert forall|n: int| self.basis_of(n) == made.basis_of(n) by {}
            assert(self.basis_lists() =~= old(self).basis_lists());
            assert forall|n: int| old(self).assigned(n) implies self.assigned(n) by {
                if n != node_id {
                    assert(made.node_map@[n] == old(self).node_map@[n]);
                }
            }
        }
    }
}

impl<V: Copy, Q: Copy> RotorSystem<V, Q> {
    /// Adds to the basis of the nodes what the links say now: for every
    /// link, the direction from each of its nodes to the other, at length
    /// one. With `overwrite`, the basis of every node is emptied first.
    pub fn recompute_basis_cache<S: Scalar>(
        &mut self,
        nodes: &NodesRowTable<S, V>,
        constraints: &LinksRowTable<S>,
        overwrite: bool,
    ) where V: Vector<S>
        requires
            old(self).wf(),
            nodes.wf(),
            constraints.wf(),
            old(self).basis@.index.handles.len() + 2 * constraints.index@.handles.len()
                < u32::MAX,
            old(self).relatives@.index.handles.len() + 2 * constraints.index@.handles.len()
                < u32::MAX,
        ensures
            final(self).wf(),
            final(self).rotations == old(self).rotations,
            final(self).relative_lists() == old(self).relative_lists(),
            links_read(
                nodes@,
                constraints@,
                if overwrite {
                    no_directions::<V>()
                } else {
                    old(self).basis_lists()
                },
                final(self).basis_lists(),
            ),
            forall|j: int|
                0 <= j < constraints.relation@.len() ==> final(self).assigned(
                    (#[trigger] constraints.relation@[j]).0 as int,
                ) && final(self).assigned(constraints.relation@[j].1 as int),
    {
        if overwrite {
            self.clear_basis();
        }
        let links: usize = constraints.len();
        let ghost basis_before = self.basis@.index.handles.len();
        let ghost relatives_before = self.relatives@.index.handles.len();
        let ghost start = self.basis_lists();
        let ghost mut trace: Seq<Map<int, Seq<V>>> = seq![start];
        let mut j: usize = 0;
        while j < links
            invariant
                j <= links,
                links == constraints.index@.handles.len(),
                nodes.wf(),
                constraints.wf(),
                self.wf(),
                self.rotations == old(self).rotations,
                self.relative_lists() == old(self).relative_lists(),
                basis_before + 2 * links < u32::MAX,
                relatives_before + 2 * links < u32::MAX,
                self.basis@.index.handles.len() <= basis_before + 2 * j,
                self.relatives@.index.handles.len() <= relatives_before + 2 * j,
                forall|i: int|
                    0 <= i < j ==> self.assigned((#[trigger] constraints.relation@[i]).0 as int)
                        && self.assigned(constraints.relation@[i].1 as int),
                trace.len() == j + 1,
                trace[0] == start,
                trace[j as int] == self.basis_lists(),
                forall|i: int|
                    0 <= i < j ==> link_read(
                        nodes@,
                        constraints@,
                        i,
                        #[trigger] trace[i],
                        trace[i + 1],
                    ),
            decreases links - j,
        {
            let link: LinkNodes = constraints.relation[j];
            let ghost before = self.basis_lists();
            let i_a: usize = nodes.get_indirect_unchecked(link.0) as usize;
            let i_b: usize = nodes.get_indirect_unchecked(link.1) as usize;
            let there: V = point_to(nodes.current_pos[i_a], nodes.current_pos[i_b]);
            let back: V = there.negated();
            self.push_basis(link.0, there);
            self.push_basis(link.1, back);
            proof {
                let earlier = trace;
                trace = trace.push(self.basis_lists());
                assert(link_read(nodes@, constraints@, j as int, before, self.basis_lists()));
                assert forall|i: int| 0 <= i < j + 1 implies link_read(
                    nodes@,
                    constraints@,
                    i,
                    #[trigger] trace[i],
                    trace[i + 1],
                ) by {
                    if i < j {
                        assert(trace[i] == earlier[i]);
                        assert(trace[i + 1] == earlier[i + 1]);
                    } else {
                        assert(trace[i] == before);
                        assert(trace[i + 1] == self.basis_lists());
                    }
                }
            }
            j += 1;
        }
        proof {
            assert(read_trace(nodes@, constraints@, trace));
        }
    }

    /// Rebuilds the relatives of the nodes from what the links say now: for
    /// every link, the direction from each of its nodes to the other, at
    /// length one.
    pub fn recompute_relatives<S: Scalar>(
        &mut self,
        nodes: &NodesRowTable<S, V>,
        constraints: &LinksRowTable<S>,
    ) where V: Vector<S>
        requires
            old(self).wf(),
            nodes.wf(),
            constraints.wf(),
            old(self).basis@.index.handles.len() + 2 * constraints.index@.handles.len()
                < u32::MAX,
            old(self).relatives@.index.handles.len() + 2 * constraints.index@.handles.len()
                < u32::MAX,
        ensures
            final(self).wf(),
            final(self).rotations == old(self).rotations,
            final(self).basis_lists() == old(self).basis_lists(),
            links_read(nodes@, constraints@, no_directions::<V>(), final(self).relative_lists()),
            forall|j: int|
                0 <= j < constraints.relation@.len() ==> final(self).assigned(
                    (#[trigger] constraints.relation@[j]).0 as int,
                ) && final(self).assigned(constraints.relation@[j].1 as int),
    {
        self.clear_relatives();
        let links: usize = constraints.len();
        let ghost basis_before = self.basis@.index.handles.len();
        let ghost relatives_before = self.relatives@.index.handles.len();
        let ghost start = self.relative_lists();
        let ghost mut trace: Seq<Map<int, Seq<V>>> = seq![start];
        let mut j: usize = 0;
        while j < links
            invariant
                j <= links,
                links == constraints.index@.handles.len(),
                nodes.wf(),
                constraints.wf(),
                self.wf(),
                self.rotations == old(self).rotations,
                self.basis_lists() == old(self).basis_lists(),
                basis_before + 2 * links < u32::MAX,
                relatives_before + 2 * links < u32::MAX,
                self.basis@.index.handles.len() <= basis_before + 2 * j,
                self.relatives@.index.handles.len() <= relatives_before + 2 * j,
                forall|i: int|
                    0 <= i < j ==> self.assigned((#[trigger] constraints.relation@[i]).0 as int)
                        && self.assigned(constraints.relation@[i].1 as int),
                start == no_directions::<V>(),
                trace.len() == j + 1,
                trace[0] == start,
                trace[j as int] == self.relative_lists(),
                forall|i: int|
                    0 <= i < j ==> link_read(
                        nodes@,
                        constraints@,
                        i,
                        #[trigger] trace[i],
                        trace[i + 1],
                    ),
            decreases links - j,
        {
            let link: LinkNodes = constraints.relation[j];
            let ghost before = self.relative_lists();
            let i_a: usize = nodes.get_indirect_unchecked(link.0) as usize;
            let i_b: usize = nodes.get_indirect_unchecked(link.1) as usize;
            let there: V = point_to(nodes.current_pos[i_a], nodes.current_pos[i_b]);
            let back: V = there.negated();
            self.push_relative(link.0, there);
            self.push_relative(link.1, back);
            proof {
                let earlier = trace;
                trace = trace.push(self.relative_lists());
                assert(link_read(nodes@, constraints@, j as int, before, self.relative_lists()));
                assert forall|i: int| 0 <= i < j + 1 implies link_read(
                    nodes@,
                    constraints@,
                    i,
                    #[trigger] trace[i],
                    trace[i + 1],
                ) by {
                    if i < j {
                        assert(trace[i] == earlier[i]);
                        assert(trace[i + 1] == earlier[i + 1]);
                    } else {
                        assert(trace[i] == before);
                        assert(trace[i + 1] == self.relative_lists());
                    }
                }
            }
            j += 1;
        }
        proof {
            assert(read_trace(nodes@, constraints@, trace));
        }
    }

    /// Computes the rotation of every node row of `nodes`, in dense order,
    /// from its basis and its relatives, as [`turned`] says. The result is
    /// not scaled to length one. A node without lists gets them, empty, and
    /// the identity.
    pub fn recompute_rotations<S: Scalar>(&mut self, nodes: &NodesRowTable<S, V>) where
        V: Vector<S>,
        Q: Rotation<S, V>,

        requires
            old(self).wf(),
            nodes.wf(),
            old(self).basis@.index.handles.len() + nodes.index@.handles.len() < u32::MAX,
            old(self).relatives@.index.handles.len() + nodes.index@.handles.len() < u32::MAX,
        ensures
            final(self).wf(),
            final(self).rotations@.len() == nodes.index@.handles.len(),
            final(self).basis_lists() == old(self).basis_lists(),
            final(self).relative_lists() == old(self).relative_lists(),
            exists|none: S|
                #![trigger is_zero(none)]
                is_zero(none) && forall|i: int|
                    0 <= i < nodes.index@.handles.len() ==> turned::<S, V, Q>(
                        none,
                        old(self).basis_of(nodes.index@.handles[i] as int),
                        old(self).relatives_of(nodes.index@.handles[i] as int),
                        #[trigger] final(self).rotations@[i],
                    ),
            forall|i: int|
                0 <= i < nodes.index@.handles.len() ==> final(self).assigned(
                    #[trigger] nodes.index@.handles[i] as int,
                ),
    {
        self.rotations.clear();
        let none: S = zero::<S>();
        let count: usize = nodes.len();
        let ghost basis_before = self.basis@.index.handles.len();
        let ghost relatives_before = self.relatives@.index.handles.len();
        let mut i: usize = 0;
        while i < count
            invariant
                i <= count,
                count == nodes.index@.handles.len(),
                nodes.wf(),
                self.wf(),
                is_zero(none),
                self.rotations@.len() == i,
                self.basis_lists() == old(self).basis_lists(),
                self.relative_lists() == old(self).relative_lists(),
                basis_before + count < u32::MAX,
                relatives_before + count < u32::MAX,
                self.basis@.index.handles.len() <= basis_before + i,
                self.relatives@.index.handles.len() <= relatives_before + i,
                forall|k: int|
                    0 <= k < i ==> self.assigned(#[trigger] nodes.index@.handles[k] as int),
                forall|k: int|
                    0 <= k < i ==> turned::<S, V, Q>(
                        none,
                        old(self).basis_of(nodes.index@.handles[k] as int),
                        old(self).relatives_of(nodes.index@.handles[k] as int),
                        #[trigger] self.rotations@[k],
                    ),
            decreases count - i,
        {
            let handle: u32 = nodes.index.handles()[i];
            let ghost start = *self;
            let rotor: RotorHandle = self.node_rotors_handle(handle);
            proof {
                assert forall|k: int| 0 <= k < i implies self.assigned(
                    #[trigger] nodes.index@.handles[k] as int,
                ) by {
                    let n = nodes.index@.handles[k] as int;
                    assert(start.assigned(n));
                    if n != handle {
                        assert(self.node_map@[n] == start.node_map@[n]);
                    }
                }
                assert(self.basis_lists()[handle as int] == old(self).basis_lists()[handle as int]);
                assert(self.relative_lists()[handle as int] == old(self).relative_lists()[handle as int]);
            }
            let basis_id: usize = self.basis.get_indirect_unchecked(rotor.basis) as usize;
            let relatives_id: usize = self.relatives.get_indirect_unchecked(rotor.relative) as usize;
            let pairs: usize = if self.basis.contiguous[basis_id].len()
                < self.relatives.contiguous[relatives_id].len() {
                self.basis.contiguous[basis_id].len()
            } else {
                self.relatives.contiguous[relatives_id].len()
            };
            let ghost from = self.basis_of(handle as int);
            let ghost to = self.relatives_of(handle as int);
            let mut q: Q = Q::identity();
            let ghost mut trace: Seq<Q> = seq![q];
            let mut p: usize = 0;
            while p < pairs
                invariant
                    p <= pairs,
                    basis_id < self.basis@.rows.len(),
                    relatives_id < self.relatives@.rows.len(),
                    from == self.basis@.rows[basis_id as int]@,
                    to == self.relatives@.rows[relatives_id as int]@,
                    pairs == if from.len() < to.len() {
                        from.len()
                    } else {
                        to.len()
                    },
                    trace.len() == p + 1,
                    identity_rotation::<S, V, Q>(trace[0]),
                    trace[p as int] == q,
                    forall|k: int|
                        0 <= k < p ==> turned_by::<S, V, Q>(
                            none,
                            from[k],
                            to[k],
                            #[trigger] trace[k],
                            trace[k + 1],
                        ),
                decreases pairs - p,
            {
                let next: Q = turn_by(
                    none,
                    self.basis.contiguous[basis_id][p],
                    self.relatives.contiguous[relatives_id][p],
                    q,
                );
                proof {
                    let earlier = trace;
                    trace = trace.push(next);
                    assert forall|k: int| 0 <= k < p + 1 implies turned_by::<S, V, Q>(
                        none,
                        from[k],
                        to[k],
                        #[trigger] trace[k],
                        trace[k + 1],
                    ) by {
                        if k < p {
                            assert(trace[k] == earlier[k]);
                            assert(trace[k + 1] == earlier[k + 1]);
                        } else {
                            assert(trace[k] == q);
                            assert(trace[k + 1] == next);
                        }
                    }
                }
                q = next;
                p += 1;
            }
            let ghost listed = self.rotations@;
            self.rotations.push(q);
            proof {
                assert(turn_trace::<S, V, Q>(none, from, to, trace));
                assert(turned::<S, V, Q>(none, from, to, q));
                assert forall|k: int| 0 <= k < i + 1 implies turned::<S, V, Q>(
                    none,
                    old(self).basis_of(nodes.index@.handles[k] as int),
                    old(self).relatives_of(nodes.index@.handles[k] as int),
                    #[trigger] self.rotations@[k],
                ) by {
                    if k < i {
                        assert(self.rotations@[k] == listed[k]);
                    }
                }
            }
            i += 1;
        }
    }
}

} // verus!
