//! Nodes, links and the lattice builder.
//!
//! A lattice is a set of point masses joined by distance constraints. Both
//! live in column stores addressed by stable handles; a
//! [`XpbdLatticeBuilder`] collects the description of one structure and
//! [`XpbdLatticeBuilder::export`] allocates its rows.

use vstd::prelude::*;
use crate::numeric::{Scalar, Vector, is_origin, is_zero, origin, zero};
use crate::slots::{SlotIndex, SlotModel, lemma_freed, lemma_freed_column, swap_removed};

verus! {

/// Constraint iterations per substep unless configured otherwise.
pub const DEFAULT_SOLVE_ITERATIONS: u32 = 8;

/// Substeps per step unless configured otherwise.
pub const DEFAULT_SUB_STEPS: u32 = 4;

/// The two node handles that a link joins.
#[derive(Clone, Copy, Debug, Default, PartialEq, PartialOrd, Eq, Ord, Hash, Structural)]
pub struct LinkNodes(pub u32, pub u32);

/// The mathematical state of a [`NodesRowTable`].
pub struct NodesModel<S, V> {
    pub index: SlotModel,
    pub predicted_pos: Seq<V>,
    pub current_pos: Seq<V>,
    pub mass: Seq<S>,
    pub inv_mass: Seq<S>,
    pub forces: Seq<V>,
    pub velocity: Seq<V>,
}

/// The mathematical state of a [`LinksRowTable`].
pub struct LinksModel<S> {
    pub index: SlotModel,
    pub relation: Seq<LinkNodes>,
    pub compliance: Seq<S>,
    pub rest_length: Seq<S>,
    pub lambda: Seq<S>,
}

impl<S, V> NodesModel<S, V> {
    /// The index is well formed and every column is as long as it.
    pub open spec fn wf(self) -> bool {
        &&& self.index.wf()
        &&& self.predicted_pos.len() == self.index.handles.len()
        &&& self.current_pos.len() == self.index.handles.len()
        &&& self.mass.len() == self.index.handles.len()
        &&& self.inv_mass.len() == self.index.handles.len()
        &&& self.forces.len() == self.index.handles.len()
        &&& self.velocity.len() == self.index.handles.len()
    }
}

impl<S> LinksModel<S> {
    /// The index is well formed and every column is as long as it.
    pub open spec fn wf(self) -> bool {
        &&& self.index.wf()
        &&& self.relation.len() == self.index.handles.len()
        &&& self.compliance.len() == self.index.handles.len()
        &&& self.rest_length.len() == self.index.handles.len()
        &&& self.lambda.len() == self.index.handles.len()
    }

    /// The table after the link `h` is freed: the last row takes its place
    /// in every column. Freeing the degenerate handle, or one that is not
    /// live, changes nothing.
    pub open spec fn freed(self, h: u32) -> LinksModel<S> {
        if h == 0 || !self.index.live(h) {
            self
        } else {
            let at = self.index.index_of(h) as int;
            LinksModel {
                index: self.index.freed(h),
                relation: swap_removed(self.relation, at),
                compliance: swap_removed(self.compliance, at),
                rest_length: swap_removed(self.rest_length, at),
                lambda: swap_removed(self.lambda, at),
            }
        }
    }

    /// The table after every link of `hs` is freed, first to last.
    pub open spec fn freed_all(self, hs: Seq<u32>) -> LinksModel<S>
        decreases hs.len(),
    {
        if hs.len() == 0 {
            self
        } else {
            self.freed_all(hs.drop_last()).freed(hs.last())
        }
    }

    /// The same table with other multipliers.
    pub open spec fn with_lambda(self, lambda: Seq<S>) -> LinksModel<S> {
        LinksModel {
            index: self.index,
            relation: self.relation,
            compliance: self.compliance,
            rest_length: self.rest_length,
            lambda,
        }
    }
}

/// The point masses: one row per node, one column per property.
pub struct NodesRowTable<S, V> {
    pub index: SlotIndex,
    pub predicted_pos: Vec<V>,
    pub current_pos: Vec<V>,
    pub mass: Vec<S>,
    pub inv_mass: Vec<S>,
    pub forces: Vec<V>,
    pub velocity: Vec<V>,
}

impl<S, V> View for NodesRowTable<S, V> {
    type V = NodesModel<S, V>;

    open spec fn view(&self) -> NodesModel<S, V> {
        NodesModel {
            index: self.index@,
            predicted_pos: self.predicted_pos@,
            current_pos: self.current_pos@,
            mass: self.mass@,
            inv_mass: self.inv_mass@,
            forces: self.forces@,
            velocity: self.velocity@,
        }
    }
}

impl<S> View for LinksRowTable<S> {
    type V = LinksModel<S>;

    open spec fn view(&self) -> LinksModel<S> {
        LinksModel {
            index: self.index@,
            relation: self.relation@,
            compliance: self.compliance@,
            rest_length: self.rest_length@,
            lambda: self.lambda@,
        }
    }
}

impl<S: Scalar, V: Vector<S>> NodesRowTable<S, V> {
    /// Every column is as long as the index.
    pub open spec fn wf(&self) -> bool {
        &&& self.index.wf()
        &&& self.predicted_pos@.len() == self.index@.handles.len()
        &&& self.current_pos@.len() == self.index@.handles.len()
        &&& self.mass@.len() == self.index@.handles.len()
        &&& self.inv_mass@.len() == self.index@.handles.len()
        &&& self.forces@.len() == self.index@.handles.len()
        &&& self.velocity@.len() == self.index@.handles.len()
    }

    /// Every column of `self` is the matching column of `before` with the
    /// row at `at` swap-removed.
    pub open spec fn compacted_from(&self, before: &Self, at: int) -> bool {
        &&& self.predicted_pos@ == swap_removed(before.predicted_pos@, at)
        &&& self.current_pos@ == swap_removed(before.current_pos@, at)
        &&& self.mass@ == swap_removed(before.mass@, at)
        &&& self.inv_mass@ == swap_removed(before.inv_mass@, at)
        &&& self.forces@ == swap_removed(before.forces@, at)
        &&& self.velocity@ == swap_removed(before.velocity@, at)
    }

    /// Every column of `self` equals the matching column of `before`.
    pub open spec fn same_columns(&self, before: &Self) -> bool {
        &&& self.predicted_pos@ == before.predicted_pos@
        &&& self.current_pos@ == before.current_pos@
        &&& self.mass@ == before.mass@
        &&& self.inv_mass@ == before.inv_mass@
        &&& self.forces@ == before.forces@
        &&& self.velocity@ == before.velocity@
    }

    /// The table holds the degenerate row alone: a node of no mass at rest
    /// at an origin.
    pub open spec fn fresh(&self) -> bool {
        &&& self.wf()
        &&& self.index@ == SlotModel::empty()
        &&& is_origin::<S, V>(self.predicted_pos@[0])
        &&& is_origin::<S, V>(self.current_pos@[0])
        &&& is_zero(self.mass@[0])
        &&& is_zero(self.inv_mass@[0])
        &&& is_origin::<S, V>(self.forces@[0])
        &&& is_origin::<S, V>(self.velocity@[0])
    }

    /// A table that holds the degenerate row alone.
    pub fn new() -> (table: Self)
        ensures
            table.fresh(),
    {
        Self::with_capacity(0)
    }

    /// As [`NodesRowTable::new`], with room for `capacity` rows.
    pub fn with_capacity(capacity: usize) -> (table: Self)
        ensures
            table.fresh(),
    {
        let mut table = NodesRowTable {
            index: SlotIndex::with_capacity(capacity),
            predicted_pos: Vec::with_capacity(capacity),
            current_pos: Vec::with_capacity(capacity),
            mass: Vec::with_capacity(capacity),
            inv_mass: Vec::with_capacity(capacity),
            forces: Vec::with_capacity(capacity),
            velocity: Vec::with_capacity(capacity),
        };
        table.predicted_pos.push(origin::<S, V>());
        table.current_pos.push(origin::<S, V>());
        table.mass.push(zero::<S>());
        table.inv_mass.push(zero::<S>());
        table.forces.push(origin::<S, V>());
        table.velocity.push(origin::<S, V>());
        table
    }

    /// The number of rows, the degenerate one included.
    pub fn len(&self) -> (n: usize)
        ensures
            n == self.index@.handles.len(),
    {
        self.index.len()
    }

    /// The owning handle of every row, in dense order.
    pub fn handles(&self) -> (out: &[u32])
        ensures
            out@ == self.index@.handles,
    {
        self.index.handles()
    }

    /// The dense position of every handle; `0` where the handle is not live.
    pub fn slots_map(&self) -> (out: &[u32])
        ensures
            out@ == self.index@.slots,
    {
        self.index.slots_map()
    }

    /// The dense position of `h`, or `None` when `h` is not live.
    pub fn get_indirect(&self, h: u32) -> (at: Option<u32>)
        requires
            self.wf(),
        ensures
            self.index@.live(h) ==> at == Some(self.index@.index_of(h)),
            !self.index@.live(h) ==> at.is_none(),
            at.is_some() ==> at.unwrap() < self.index@.handles.len(),
    {
        self.index.get_indirect(h)
    }

    /// The dense position of `h`; the degenerate row when `h` is not live.
    pub fn get_indirect_unchecked(&self, h: u32) -> (at: u32)
        requires
            self.wf(),
        ensures
            at == self.index@.index_of(h),
            at < self.index@.handles.len(),
    {
        self.index.get_indirect_unchecked(h)
    }

    /// Appends the row `(predicted position, current position, mass, inverse
    /// mass, force, velocity)` and returns its handle, which is never `0`.
    pub fn put(&mut self, row: (V, V, S, S, V, V)) -> (h: u32)
        requires
            old(self).wf(),
            old(self).index@.handles.len() < u32::MAX,
        ensures
            final(self).wf(),
            final(self).index@ == old(self).index@.put(),
            h == old(self).index@.next_handle(),
            h != 0,
            final(self).index@.index_of(h) == old(self).index@.handles.len(),
            final(self).predicted_pos@ == old(self).predicted_pos@.push(row.0),
            final(self).current_pos@ == old(self).current_pos@.push(row.1),
            final(self).mass@ == old(self).mass@.push(row.2),
            final(self).inv_mass@ == old(self).inv_mass@.push(row.3),
            final(self).forces@ == old(self).forces@.push(row.4),
            final(self).velocity@ == old(self).velocity@.push(row.5),
    {
        let h: u32 = self.index.put();
        self.predicted_pos.push(row.0);
        self.current_pos.push(row.1);
        self.mass.push(row.2);
        self.inv_mass.push(row.3);
        self.forces.push(row.4);
        self.velocity.push(row.5);
        h
    }

    /// Frees the row of `h`: the last row takes its place in every column.
    /// The degenerate handle and handles that are not live are ignored.
    pub fn free(&mut self, h: u32)
        requires
            old(self).wf(),
        ensures
            final(self).wf(),
            final(self).index@ == old(self).index@.freed(h),
            h != 0 && old(self).index@.live(h) ==> final(self).compacted_from(
                old(self),
                old(self).index@.index_of(h) as int,
            ),
            h == 0 || !old(self).index@.live(h) ==> final(self).same_columns(old(self)),
    {
        match self.index.free(h) {
            Some(at) => {
                self.predicted_pos.swap_remove(at as usize);
                self.current_pos.swap_remove(at as usize);
                self.mass.swap_remove(at as usize);
                self.inv_mass.swap_remove(at as usize);
                self.forces.swap_remove(at as usize);
                self.velocity.swap_remove(at as usize);
            },
            None => {},
        }
    }

    /// Every column at once, each to be changed in place. The rows stay
    /// where they are: a slice cannot grow or shrink.
    pub fn split_mut(&mut self) -> (columns: (
        &mut [V],
        &mut [V],
        &mut [S],
        &mut [S],
        &mut [V],
        &mut [V],
    ))
        ensures
            columns.0@ == old(self).predicted_pos@,
            columns.1@ == old(self).current_pos@,
            columns.2@ == old(self).mass@,
            columns.3@ == old(self).inv_mass@,
            columns.4@ == old(self).forces@,
            columns.5@ == old(self).velocity@,
            final(self).index == old(self).index,
            final(self).predicted_pos@ == final(columns.0)@,
            final(self).current_pos@ == final(columns.1)@,
            final(self).mass@ == final(columns.2)@,
            final(self).inv_mass@ == final(columns.3)@,
            final(self).forces@ == final(columns.4)@,
            final(self).velocity@ == final(columns.5)@,
    {
        (
            self.predicted_pos.as_mut_slice(),
            self.current_pos.as_mut_slice(),
            self.mass.as_mut_slice(),
            self.inv_mass.as_mut_slice(),
            self.forces.as_mut_slice(),
            self.velocity.as_mut_slice(),
        )
    }

    /// The predicted position of every row.
    pub fn predicted_pos_slice(&self) -> (out: &[V])
        ensures
            out@ == self.predicted_pos@,
    {
        self.predicted_pos.as_slice()
    }

    /// The current position of every row.
    pub fn current_pos_slice(&self) -> (out: &[V])
        ensures
            out@ == self.current_pos@,
    {
        self.current_pos.as_slice()
    }

    /// The mass of every row.
    pub fn mass_slice(&self) -> (out: &[S])
        ensures
            out@ == self.mass@,
    {
        self.mass.as_slice()
    }

    /// The inverse mass of every row; zero marks a fixed node.
    pub fn inv_mass_slice(&self) -> (out: &[S])
        ensures
            out@ == self.inv_mass@,
    {
        self.inv_mass.as_slice()
    }

    /// The force accumulated on every row since the last prediction.
    pub fn forces_slice(&self) -> (out: &[V])
        ensures
            out@ == self.forces@,
    {
        self.forces.as_slice()
    }

    /// The velocity of every row.
    pub fn velocity_slice(&self) -> (out: &[V])
        ensures
            out@ == self.velocity@,
    {
        self.velocity.as_slice()
    }
}

/// The distance constraints: one row per link, one column per property.
pub struct LinksRowTable<S> {
    pub index: SlotIndex,
    pub relation: Vec<LinkNodes>,
    pub compliance: Vec<S>,
    pub rest_length: Vec<S>,
    pub lambda: Vec<S>,
}

impl<S: Scalar> LinksRowTable<S> {
    /// Every column is as long as the index.
    pub open spec fn wf(&self) -> bool {
        &&& self.index.wf()
        &&& self.relation@.len() == self.index@.handles.len()
        &&& self.compliance@.len() == self.index@.handles.len()
        &&& self.rest_length@.len() == self.index@.handles.len()
        &&& self.lambda@.len() == self.index@.handles.len()
    }

    /// Every column of `self` is the matching column of `before` with the
    /// row at `at` swap-removed.
    pub open spec fn compacted_from(&self, before: &Self, at: int) -> bool {
        &&& self.relation@ == swap_removed(before.relation@, at)
        &&& self.compliance@ == swap_removed(before.compliance@, at)
        &&& self.rest_length@ == swap_removed(before.rest_length@, at)
        &&& self.lambda@ == swap_removed(before.lambda@, at)
    }

    /// Every column of `self` equals the matching column of `before`.
    pub open spec fn same_columns(&self, before: &Self) -> bool {
        &&& self.relation@ == before.relation@
        &&& self.compliance@ == before.compliance@
        &&& self.rest_length@ == before.rest_length@
        &&& self.lambda@ == before.lambda@
    }

    /// The endpoints of the link `h`; those of the degenerate row, `(0, 0)`
    /// in a table built by this crate, when `h` is not live.
    pub open spec fn relation_of(&self, h: u32) -> LinkNodes {
        self.relation@[self.index@.index_of(h) as int]
    }

    /// The compliance of the link `h`.
    pub open spec fn compliance_of(&self, h: u32) -> S {
        self.compliance@[self.index@.index_of(h) as int]
    }

    /// The rest length of the link `h`.
    pub open spec fn rest_length_of(&self, h: u32) -> S {
        self.rest_length@[self.index@.index_of(h) as int]
    }

    /// Every live link of `self` was live in `before` with the same
    /// endpoints, compliance and rest length.
    pub open spec fn keeps_links_of(&self, before: &Self) -> bool {
        forall|g: u32| #[trigger]
            self.index@.live(g) ==> before.index@.live(g) && self.relation_of(g)
                == before.relation_of(g) && self.compliance_of(g) == before.compliance_of(g)
                && self.rest_length_of(g) == before.rest_length_of(g)
    }

    /// The table holds the degenerate row alone: a link from the
    /// degenerate node to itself, with zeros for the rest.
    pub open spec fn fresh(&self) -> bool {
        &&& self.wf()
        &&& self.index@ == SlotModel::empty()
        &&& self.relation@ == seq![LinkNodes(0, 0)]
        &&& is_zero(self.compliance@[0])
        &&& is_zero(self.rest_length@[0])
        &&& is_zero(self.lambda@[0])
    }

    /// A table that holds the degenerate row alone.
    pub fn new() -> (table: Self)
        ensures
            table.fresh(),
    {
        Self::with_capacity(0)
    }

    /// As [`LinksRowTable::new`], with room for `capacity` rows.
    pub fn with_capacity(capacity: usize) -> (table: Self)
        ensures
            table.fresh(),
    {
        let mut table = LinksRowTable {
            index: SlotIndex::with_capacity(capacity),
            relation: Vec::with_capacity(capacity),
            compliance: Vec::with_capacity(capacity),
            rest_length: Vec::with_capacity(capacity),
            lambda: Vec::with_capacity(capacity),
        };
        table.relation.push(LinkNodes(0, 0));
        table.compliance.push(zero::<S>());
        table.rest_length.push(zero::<S>());
        table.lambda.push(zero::<S>());
        assert(table.relation@ =~= seq![LinkNodes(0, 0)]);
        table
    }

    /// The number of rows, the degenerate one included.
    pub fn len(&self) -> (n: usize)
        ensures
            n == self.index@.handles.len(),
    {
        self.index.len()
    }

    /// The owning handle of every row, in dense order.
    pub fn handles(&self) -> (out: &[u32])
        ensures
            out@ == self.index@.handles,
    {
        self.index.handles()
    }

    /// The dense position of every handle; `0` where the handle is not live.
    pub fn slots_map(&self) -> (out: &[u32])
        ensures
            out@ == self.index@.slots,
    {
        self.index.slots_map()
    }

    /// The dense position of `h`, or `None` when `h` is not live.
    pub fn get_indirect(&self, h: u32) -> (at: Option<u32>)
        requires
            self.wf(),
        ensures
            self.index@.live(h) ==> at == Some(self.index@.index_of(h)),
            !self.index@.live(h) ==> at.is_none(),
            at.is_some() ==> at.unwrap() < self.index@.handles.len(),
    {
        self.index.get_indirect(h)
    }

    /// The dense position of `h`; the degenerate row when `h` is not live.
    pub fn get_indirect_unchecked(&self, h: u32) -> (at: u32)
        requires
            self.wf(),
        ensures
            at == self.index@.index_of(h),
            at < self.index@.handles.len(),
    {
        self.index.get_indirect_unchecked(h)
    }

    /// Appends the row `(endpoints, compliance, rest length, multiplier)` and
    /// returns its handle, which is never `0`.
    pub fn put(&mut self, row: (LinkNodes, S, S, S)) -> (h: u32)
        requires
            old(self).wf(),
            old(self).index@.handles.len() < u32::MAX,
        ensures
            final(self).wf(),
            final(self).index@ == old(self).index@.put(),
            h == old(self).index@.next_handle(),
            h != 0,
            final(self).index@.index_of(h) == old(self).index@.handles.len(),
            final(self).relation@ == old(self).relation@.push(row.0),
            final(self).compliance@ == old(self).compliance@.push(row.1),
            final(self).rest_length@ == old(self).rest_length@.push(row.2),
            final(self).lambda@ == old(self).lambda@.push(row.3),
    {
        let h: u32 = self.index.put();
        self.relation.push(row.0);
        self.compliance.push(row.1);
        self.rest_length.push(row.2);
        self.lambda.push(row.3);
        h
    }

    /// Frees the row of `h`: the last row takes its place in every column.
    /// The degenerate handle and handles that are not live are ignored.
    pub fn free(&mut self, h: u32)
        requires
            old(self).wf(),
        ensures
            final(self).wf(),
            final(self).index@ == old(self).index@.freed(h),
            h != 0 && old(self).index@.live(h) ==> final(self).compacted_from(
                old(self),
                old(self).index@.index_of(h) as int,
            ),
            h == 0 || !old(self).index@.live(h) ==> final(self).same_columns(old(self)),
            final(self)@ == old(self)@.freed(h),
            final(self).keeps_links_of(old(self)),
            forall|g: u32| g != h && old(self).index@.live(g) ==> final(self).index@.live(g),
            h != 0 ==> !final(self).index@.live(h),
    {
        proof {
            lemma_freed(self.index@, h);
            if h != 0 && self.index@.live(h) {
                lemma_freed_column(self.index@, h, self.relation@);
                lemma_freed_column(self.index@, h, self.compliance@);
                lemma_freed_column(self.index@, h, self.rest_length@);
            }
        }
        match self.index.free(h) {
            Some(at) => {
                self.relation.swap_remove(at as usize);
                self.compliance.swap_remove(at as usize);
                self.rest_length.swap_remove(at as usize);
                self.lambda.swap_remove(at as usize);
            },
            None => {},
        }
    }

    /// Every column at once, each to be changed in place. The rows stay
    /// where they are: a slice cannot grow or shrink.
    pub fn split_mut(&mut self) -> (columns: (&mut [LinkNodes], &mut [S], &mut [S], &mut [S]))
        ensures
            columns.0@ == old(self).relation@,
            columns.1@ == old(self).compliance@,
            columns.2@ == old(self).rest_length@,
            columns.3@ == old(self).lambda@,
            final(self).index == old(self).index,
            final(self).relation@ == final(columns.0)@,
            final(self).compliance@ == final(columns.1)@,
            final(self).rest_length@ == final(columns.2)@,
            final(self).lambda@ == final(columns.3)@,
    {
        (
            self.relation.as_mut_slice(),
            self.compliance.as_mut_slice(),
            self.rest_length.as_mut_slice(),
            self.lambda.as_mut_slice(),
        )
    }

    /// The endpoints of every row.
    pub fn relation_slice(&self) -> (out: &[LinkNodes])
        ensures
            out@ == self.relation@,
    {
        self.relation.as_slice()
    }

    /// The compliance, or inverse stiffness, of every row.
    pub fn compliance_slice(&self) -> (out: &[S])
        ensures
            out@ == self.compliance@,
    {
        self.compliance.as_slice()
    }

    /// The rest length of every row.
    pub fn rest_length_slice(&self) -> (out: &[S])
        ensures
            out@ == self.rest_length@,
    {
        self.rest_length.as_slice()
    }

    /// The multiplier accumulated on every row during the last substep.
    pub fn lambda_slice(&self) -> (out: &[S])
        ensures
            out@ == self.lambda@,
    {
        self.lambda.as_slice()
    }
}

} // verus!
