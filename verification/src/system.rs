//! A solver together with the tables it works on.

use vstd::prelude::*;
use crate::lattice::{LatticeIds, XpbdLatticeBuilder, exported};
use crate::motion::{accumulate, pushed_by, timed};
use crate::numeric::{Scalar, Vector};
use crate::solver::{World, XpbdSolver, broke, stepped};
use crate::xpbd::{LinksRowTable, NodesRowTable};

verus! {

/// `after` holds the forces `before` after every node was pushed by
/// `force` times its mass.
pub open spec fn forces_pushed<S: Scalar, V: Vector<S>>(
    force: V,
    mass: Seq<S>,
    before: Seq<V>,
    after: Seq<V>,
) -> bool {
    &&& after.len() == before.len()
    &&& forall|i: int|
        0 <= i < after.len() ==> pushed_by(force, mass[i], before[i], #[trigger] after[i])
}

/// The lattice of a scene: nodes, links, and the solver that moves them.
pub struct XpbdSystem<S, V> {
    pub solver: XpbdSolver<S>,
    pub nodes: NodesRowTable<S, V>,
    pub links: LinksRowTable<S>,
}

impl<S: Scalar, V: Vector<S>> XpbdSystem<S, V> {
    /// Both tables are well formed.
    pub open spec fn wf(&self) -> bool {
        self.nodes.wf() && self.links.wf()
    }

    /// Every node column of `self` but the forces is as in `before`, and
    /// the index is the same.
    pub open spec fn same_nodes_but_forces(&self, before: &Self) -> bool {
        &&& self.nodes.index@ == before.nodes.index@
        &&& self.nodes.predicted_pos@ == before.nodes.predicted_pos@
        &&& self.nodes.current_pos@ == before.nodes.current_pos@
        &&& self.nodes.mass@ == before.nodes.mass@
        &&& self.nodes.inv_mass@ == before.nodes.inv_mass@
        &&& self.nodes.velocity@ == before.nodes.velocity@
        &&& self.nodes.forces@.len() == before.nodes.forces@.len()
    }

    /// `after` is `before` after the force on the node `h` was pushed by
    /// `force`. A handle that is not live pushes nothing.
    pub open spec fn pushed_one(&self, force: V, h: u32, before: Seq<V>, after: Seq<V>) -> bool {
        if self.nodes.index@.live(h) {
            let at = self.nodes.index@.index_of(h) as int;
            pushed_by(force, self.nodes.mass@[at], before[at], after[at]) && after == before.update(
                at,
                after[at],
            )
        } else {
            after == before
        }
    }

    /// `trace` holds the forces before the first of `indices` was pushed by
    /// `force`, and after every one of them.
    pub open spec fn push_trace(&self, force: V, indices: Seq<u32>, trace: Seq<Seq<V>>) -> bool {
        &&& trace.len() == indices.len() + 1
        &&& forall|k: int|
            0 <= k < indices.len() ==> self.pushed_one(
                force,
                indices[k],
                #[trigger] trace[k],
                trace[k + 1],
            )
    }

    /// A system without nodes or links.
    pub fn new(solver: XpbdSolver<S>) -> (system: Self)
        ensures
            system.wf(),
            system.solver == solver,
            system.nodes.fresh(),
            system.links.fresh(),
    {
        XpbdSystem { solver, nodes: NodesRowTable::new(), links: LinksRowTable::new() }
    }

    /// As [`XpbdSystem::new`], with room for `capacity` nodes and links.
    pub fn with_capacity(solver: XpbdSolver<S>, capacity: usize) -> (system: Self)
        ensures
            system.wf(),
            system.solver == solver,
            system.nodes.fresh(),
            system.links.fresh(),
    {
        XpbdSystem {
            solver,
            nodes: NodesRowTable::with_capacity(capacity),
            links: LinksRowTable::with_capacity(capacity),
        }
    }

    /// A system over tables that exist already.
    pub fn with_data(solver: XpbdSolver<S>, nodes: NodesRowTable<S, V>, links: LinksRowTable<S>) -> (system:
        Self)
        ensures
            system.solver == solver,
            system.nodes == nodes,
            system.links == links,
    {
        XpbdSystem { solver, nodes, links }
    }

    /// Advances the lattice by `delta`: one solver step whose substeps
    /// share `delta` evenly.
    pub fn update(&mut self, delta: S)
        requires
            old(self).wf(),
        ensures
            final(self).wf(),
            timed(old(self).solver.substeps, delta, final(self).solver.h, final(self).solver.h2),
            stepped(
                final(self).solver.settings(),
                (World {
                    nodes: old(self).nodes@,
                    links: old(self).links@,
                    broken: old(self).solver.broken_links@,
                }),
                (World {
                    nodes: final(self).nodes@,
                    links: final(self).links@,
                    broken: final(self).solver.broken_links@,
                }),
            ),
            final(self).solver.iterations == old(self).solver.iterations,
            final(self).solver.substeps == old(self).solver.substeps,
            final(self).solver.allow_breaking == old(self).solver.allow_breaking,
            final(self).solver.ground_level == old(self).solver.ground_level,
            final(self).nodes.index@ == old(self).nodes.index@,
            final(self).nodes.mass@ == old(self).nodes.mass@,
            final(self).nodes.inv_mass@ == old(self).nodes.inv_mass@,
            broke(old(self).links.index@, final(self).links.index@, final(self).solver.broken_links@),
            final(self).links.keeps_links_of(&old(self).links),
            !old(self).solver.allow_breaking ==> final(self).solver.broken_links@.len() == 0,
    {
        self.solver.set_step_time(delta);
        self.solver.step(&mut self.nodes, &mut self.links);
    }

    /// Adds `force` times its mass to the force on the node `index`. A
    /// handle that is not live is ignored.
    pub fn apply_forces(&mut self, index: u32, force: V)
        requires
            old(self).wf(),
        ensures
            final(self).wf(),
            final(self).solver == old(self).solver,
            final(self).links == old(self).links,
            final(self).same_nodes_but_forces(old(self)),
            old(self).pushed_one(force, index, old(self).nodes.forces@, final(self).nodes.forces@),
            !old(self).nodes.index@.live(index) ==> final(self).nodes.forces@ == old(
                self,
            ).nodes.forces@,
            forall|i: int|
                0 <= i < final(self).nodes.forces@.len() && i != old(self).nodes.index@.index_of(
                    index,
                ) ==> #[trigger] final(self).nodes.forces@[i] == old(self).nodes.forces@[i],
    {
        match self.nodes.get_indirect(index) {
            Some(node) => {
                let mass: S = self.nodes.mass[node as usize];
                let f: V = self.nodes.forces[node as usize];
                self.nodes.forces[node as usize] = accumulate(force, mass, f);
            },
            None => {},
        }
    }

    /// Adds `force` times its mass to the force on each node of `indices`,
    /// first to last: a node named twice gets it twice.
    pub fn apply_forces_multi(&mut self, indices: &[u32], force: V)
        requires
            old(self).wf(),
        ensures
            final(self).wf(),
            final(self).solver == old(self).solver,
            final(self).links == old(self).links,
            final(self).same_nodes_but_forces(old(self)),
            exists|trace: Seq<Seq<V>>|
                #![trigger old(self).push_trace(force, indices@, trace)]
                old(self).push_trace(force, indices@, trace) && trace[0] == old(self).nodes.forces@
                    && trace.last() == final(self).nodes.forces@,
            forall|i: int|
                0 <= i < final(self).nodes.forces@.len() && (forall|k: int|
                    0 <= k < indices@.len() ==> i != old(self).nodes.index@.index_of(
                        #[trigger] indices@[k],
                    )) ==> #[trigger] final(self).nodes.forces@[i] == old(self).nodes.forces@[i],
    {
        let ghost mut trace: Seq<Seq<V>> = seq![self.nodes.forces@];
        let mut k: usize = 0;
        while k < indices.len()
            invariant
                k <= indices@.len(),
                self.wf(),
                self.solver == old(self).solver,
                self.links == old(self).links,
                self.same_nodes_but_forces(old(self)),
                trace.len() == k + 1,
                trace[0] == old(self).nodes.forces@,
                trace[k as int] == self.nodes.forces@,
                forall|j: int|
                    0 <= j < k ==> old(self).pushed_one(
                        force,
                        indices@[j],
                        #[trigger] trace[j],
                        trace[j + 1],
                    ),
                forall|i: int|
                    0 <= i < self.nodes.forces@.len() && (forall|j: int|
                        0 <= j < k ==> i != old(self).nodes.index@.index_of(
                            #[trigger] indices@[j],
                        )) ==> #[trigger] self.nodes.forces@[i] == old(self).nodes.forces@[i],
            decreases indices@.len() - k,
        {
            let ghost before = *self;
            self.apply_forces(indices[k], force);
            proof {
                let earlier = trace;
                trace = trace.push(self.nodes.forces@);
                assert(before.pushed_one(
                    force,
                    indices@[k as int],
                    before.nodes.forces@,
                    self.nodes.forces@,
                ));
                assert forall|j: int| 0 <= j < k + 1 implies old(self).pushed_one(
                    force,
                    indices@[j],
                    #[trigger] trace[j],
                    trace[j + 1],
                ) by {
                    if j < k {
                        assert(trace[j] == earlier[j]);
                        assert(trace[j + 1] == earlier[j + 1]);
                    } else {
                        assert(trace[j] == before.nodes.forces@);
                        assert(trace[j + 1] == self.nodes.forces@);
                    }
                }
                assert forall|i: int|
                    0 <= i < self.nodes.forces@.len() && (forall|j: int|
                        0 <= j < k + 1 ==> i != old(self).nodes.index@.index_of(
                            #[trigger] indices@[j],
                        )) implies #[trigger] self.nodes.forces@[i] == old(self).nodes.forces@[i] by {
                    assert(i != old(self).nodes.index@.index_of(indices@[k as int]));
                    assert(self.nodes.forces@[i] == before.nodes.forces@[i]);
                }
            }
            k += 1;
        }
        proof {
            assert(old(self).push_trace(force, indices@, trace));
        }
    }

    /// Adds `force` times its mass to the force on every node.
    pub fn apply_forces_batched(&mut self, force: V)
        requires
            old(self).wf(),
        ensures
            final(self).wf(),
            final(self).solver == old(self).solver,
            final(self).links == old(self).links,
            final(self).same_nodes_but_forces(old(self)),
            forces_pushed(
                force,
                old(self).nodes.mass@,
                old(self).nodes.forces@,
                final(self).nodes.forces@,
            ),
    {
        let count: usize = self.nodes.len();
        let mut i: usize = 0;
        while i < count
            invariant
                i <= count,
                count == self.nodes.index@.handles.len(),
                old(self).wf(),
                self.wf(),
                self.solver == old(self).solver,
                self.links == old(self).links,
                self.same_nodes_but_forces(old(self)),
                forall|k: int|
                    0 <= k < i ==> pushed_by(
                        force,
                        old(self).nodes.mass@[k],
                        old(self).nodes.forces@[k],
                        #[trigger] self.nodes.forces@[k],
                    ),
                forall|k: int|
                    i <= k < count ==> #[trigger] self.nodes.forces@[k] == old(
                        self,
                    ).nodes.forces@[k],
            decreases count - i,
        {
            let mass: S = self.nodes.mass[i];
            let f: V = self.nodes.forces[i];
            self.nodes.forces[i] = accumulate(force, mass, f);
            i += 1;
        }
    }

    /// Frees the link `link`, as if it had broken, without reporting it. A
    /// handle that is not live is ignored.
    pub fn break_constraint(&mut self, link: u32)
        requires
            old(self).wf(),
        ensures
            final(self).wf(),
            final(self).solver == old(self).solver,
            final(self).nodes == old(self).nodes,
            final(self).links.index@ == old(self).links.index@.freed(link),
            final(self).links.keeps_links_of(&old(self).links),
    {
        self.links.free(link);
    }

    pub fn nodes(&self) -> (nodes: &NodesRowTable<S, V>)
        ensures
            *nodes == self.nodes,
    {
        &self.nodes
    }

    pub fn links(&self) -> (links: &LinksRowTable<S>)
        ensures
            *links == self.links,
    {
        &self.links
    }

    pub fn nodes_mut(&mut self) -> (nodes: &mut NodesRowTable<S, V>)
        ensures
            *nodes == old(self).nodes,
            final(self).nodes == *final(nodes),
            final(self).links == old(self).links,
            final(self).solver == old(self).solver,
    {
        &mut self.nodes
    }

    pub fn links_mut(&mut self) -> (links: &mut LinksRowTable<S>)
        ensures
            *links == old(self).links,
            final(self).links == *final(links),
            final(self).nodes == old(self).nodes,
            final(self).solver == old(self).solver,
    {
        &mut self.links
    }

    pub fn nodes_links_mut(&mut self) -> (tables: (&mut NodesRowTable<S, V>, &mut LinksRowTable<S>))
        ensures
            *tables.0 == old(self).nodes,
            *tables.1 == old(self).links,
            final(self).nodes == *final(tables.0),
            final(self).links == *final(tables.1),
            final(self).solver == old(self).solver,
    {
        (&mut self.nodes, &mut self.links)
    }

    /// The links that broke during the last update.
    pub fn frame_broken_links(&self) -> (out: &[u32])
        requires
            self.solver.allow_breaking,
        ensures
            out@ == self.solver.broken_links@,
    {
        self.solver.broken_links()
    }

    /// Adds the lattice that `lattice_builder` describes to the tables and
    /// returns the handles of its nodes and links.
    pub fn import_lattice(&mut self, lattice_builder: XpbdLatticeBuilder<S, V>) -> (ids: LatticeIds)
        requires
            old(self).wf(),
            lattice_builder.wf(),
            old(self).nodes.index@.handles.len() + lattice_builder.nodes@.len() <= u32::MAX,
            old(self).links.index@.handles.len() + lattice_builder.links@.len() <= u32::MAX,
        ensures
            final(self).wf(),
            final(self).solver == old(self).solver,
            exported(
                lattice_builder,
                old(self).nodes@,
                old(self).links@,
                final(self).nodes@,
                final(self).links@,
                ids.nodes@,
                ids.links@,
            ),
    {
        lattice_builder.export(&mut self.nodes, &mut self.links)
    }
}

} // verus!
