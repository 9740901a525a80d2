//! Authoring a lattice before it enters the tables.
//!
//! The builder numbers nodes in the order they are declared and keeps a
//! cursor stack of the nodes declared last, so that a tree can be written
//! depth first: [`XpbdLatticeBuilder::link`] joins the two topmost nodes and
//! steps back to the parent.

use vstd::prelude::*;
use crate::motion::{inverse_mass, inverse_of, span, spanned};
use crate::numeric::{Scalar, Vector, is_one, is_origin, is_zero, origin, zero};
use crate::slots::lemma_put_n;
use crate::xpbd::{LinkNodes, LinksModel, LinksRowTable, NodesModel, NodesRowTable};

verus! {

/// One node to be: where it is, how heavy it is, whether it can move.
#[derive(Clone, Copy, Debug)]
pub struct XpbdNodeOptions<S, V> {
    pub pos: V,
    pub mass: S,
    pub fixed: bool,
}

impl<S: Scalar, V: Vector<S>> XpbdNodeOptions<S, V> {
    /// A free node of mass `mass` at `pos`.
    pub fn new(pos: V, mass: S) -> (node: Self)
        ensures
            node.pos == pos,
            node.mass == mass,
            !node.fixed,
    {
        XpbdNodeOptions { pos, mass, fixed: false }
    }

    /// The same node, held in place if `fixed`.
    pub fn with_fixed(self, fixed: bool) -> (node: Self)
        ensures
            node.pos == self.pos,
            node.mass == self.mass,
            node.fixed == fixed,
    {
        XpbdNodeOptions { pos: self.pos, mass: self.mass, fixed }
    }
}

/// One link to be: its compliance and, if given, its rest length. Without
/// one the link rests at the distance between its nodes at export.
#[derive(Clone, Copy, Debug)]
pub struct XpbdLinkOptions<S> {
    pub compliance: S,
    pub rest_length: Option<S>,
}

impl<S: Scalar> XpbdLinkOptions<S> {
    /// A link of the given compliance that rests at its initial length.
    pub fn new(compliance: S) -> (link: Self)
        ensures
            link.compliance == compliance,
            link.rest_length.is_none(),
    {
        XpbdLinkOptions { compliance, rest_length: None }
    }

    /// A link of the given compliance and rest length.
    pub fn with_rest_length(compliance: S, rest_length: S) -> (link: Self)
        ensures
            link.compliance == compliance,
            link.rest_length == Some(rest_length),
    {
        XpbdLinkOptions { compliance, rest_length: Some(rest_length) }
    }

    /// The same link with the rest length set.
    pub fn and_rest_length(self, rest_length: S) -> (link: Self)
        ensures
            link.compliance == self.compliance,
            link.rest_length == Some(rest_length),
    {
        XpbdLinkOptions { compliance: self.compliance, rest_length: Some(rest_length) }
    }
}

/// A pending link between two nodes of the builder, by node number.
#[derive(Clone, Copy, Debug)]
pub struct XpbdLink<S> {
    pub node_a: u32,
    pub node_b: u32,
    pub options: XpbdLinkOptions<S>,
}

/// The handles that an export allocated, parallel to the builder's node and
/// link numbers.
#[derive(Clone, Debug, Default)]
pub struct LatticeIds {
    pub nodes: Vec<u32>,
    pub links: Vec<u32>,
}

/// The description of one lattice: nodes, links, and the cursor stack.
#[derive(Clone, Debug)]
pub struct XpbdLatticeBuilder<S, V> {
    pub nodes: Vec<XpbdNodeOptions<S, V>>,
    pub links: Vec<XpbdLink<S>>,
    pub stack: Vec<u32>,
}

/// `nodes_after` and `links_after` are `nodes_before` and `links_before`
/// after `lattice` was exported into them, and `node_ids` and `link_ids`
/// are the handles of its nodes and links.
///
/// A row was allocated for every node, then for every link, in the order
/// of their numbers. A node entered with both positions at `pos`, its mass,
/// no force and no velocity; its inverse mass is `1 / mass`, or zero when
/// the node is fixed or the quotient is not a normal number. A link entered
/// with the handles of its two nodes, its compliance, a zero multiplier,
/// and its rest length, or the distance between its nodes when none was
/// given. The rows that were there stayed as they were.
pub open spec fn exported<S: Scalar, V: Vector<S>>(
    lattice: XpbdLatticeBuilder<S, V>,
    nodes_before: NodesModel<S, V>,
    links_before: LinksModel<S>,
    nodes_after: NodesModel<S, V>,
    links_after: LinksModel<S>,
    node_ids: Seq<u32>,
    link_ids: Seq<u32>,
) -> bool {
    &&& nodes_after.index == nodes_before.index.put_n(lattice.nodes@.len())
    &&& links_after.index == links_before.index.put_n(lattice.links@.len())
    &&& node_ids == nodes_before.index.allocated(lattice.nodes@.len())
    &&& link_ids == links_before.index.allocated(lattice.links@.len())
    &&& forall|k: int| 0 <= k < node_ids.len() ==> (#[trigger] node_ids[k]) != 0
    &&& forall|k: int| 0 <= k < link_ids.len() ==> (#[trigger] link_ids[k]) != 0
    &&& forall|j: int, k: int|
        0 <= j < k < node_ids.len() ==> node_ids[j] != node_ids[k]
    &&& forall|j: int, k: int|
        0 <= j < k < link_ids.len() ==> link_ids[j] != link_ids[k]
    &&& nodes_after.predicted_pos == nodes_before.predicted_pos + Seq::new(
        lattice.nodes@.len(),
        |k: int| lattice.nodes@[k].pos,
    )
    &&& nodes_after.current_pos == nodes_before.current_pos + Seq::new(
        lattice.nodes@.len(),
        |k: int| lattice.nodes@[k].pos,
    )
    &&& nodes_after.mass == nodes_before.mass + Seq::new(
        lattice.nodes@.len(),
        |k: int| lattice.nodes@[k].mass,
    )
    &&& nodes_after.inv_mass.subrange(0, nodes_before.inv_mass.len() as int) == nodes_before.inv_mass
    &&& nodes_after.forces.subrange(0, nodes_before.forces.len() as int) == nodes_before.forces
    &&& nodes_after.velocity.subrange(0, nodes_before.velocity.len() as int) == nodes_before.velocity
    &&& links_after.relation == links_before.relation + Seq::new(
        lattice.links@.len(),
        |j: int|
            LinkNodes(
                node_ids[lattice.links@[j].node_a as int],
                node_ids[lattice.links@[j].node_b as int],
            ),
    )
    &&& links_after.compliance == links_before.compliance + Seq::new(
        lattice.links@.len(),
        |j: int| lattice.links@[j].options.compliance,
    )
    &&& links_after.rest_length.subrange(0, links_before.rest_length.len() as int) == links_before.rest_length
    &&& forall|j: int|
        0 <= j < lattice.links@.len() && lattice.links@[j].options.rest_length.is_some()
            ==> #[trigger] links_after.rest_length[links_before.rest_length.len() + j]
            == lattice.links@[j].options.rest_length.unwrap()
    &&& links_after.lambda.subrange(0, links_before.lambda.len() as int) == links_before.lambda
    &&& exists|one: S|
        #![trigger is_one(one)]
        is_one(one) && forall|k: int|
            0 <= k < lattice.nodes@.len() ==> inverse_of(
                one,
                lattice.nodes@[k].mass,
                lattice.nodes@[k].fixed,
                #[trigger] nodes_after.inv_mass[nodes_before.inv_mass.len() + k],
            )
    &&& forall|k: int|
        0 <= k < lattice.nodes@.len() ==> is_origin::<S, V>(
            #[trigger] nodes_after.forces[nodes_before.forces.len() + k],
        )
    &&& forall|k: int|
        0 <= k < lattice.nodes@.len() ==> is_origin::<S, V>(
            #[trigger] nodes_after.velocity[nodes_before.velocity.len() + k],
        )
    &&& forall|j: int|
        0 <= j < lattice.links@.len() && lattice.links@[j].options.rest_length.is_none()
            ==> spanned(
            lattice.nodes@[lattice.links@[j].node_a as int].pos,
            lattice.nodes@[lattice.links@[j].node_b as int].pos,
            #[trigger] links_after.rest_length[links_before.rest_length.len() + j],
        )
    &&& forall|j: int|
        0 <= j < lattice.links@.len() ==> is_zero(
            #[trigger] links_after.lambda[links_before.lambda.len() + j],
        )
}

impl<S: Scalar, V: Vector<S>> XpbdLatticeBuilder<S, V> {
    /// Node and link numbers fit in 32 bits, and every number on the stack
    /// or in a link names a declared node.
    pub open spec fn wf(&self) -> bool {
        &&& self.nodes@.len() <= u32::MAX
        &&& self.links@.len() <= u32::MAX
        &&& forall|i: int| 0 <= i < self.stack@.len() ==> (#[trigger] self.stack@[i]) < self.nodes@.len()
        &&& forall|j: int|
            0 <= j < self.links@.len() ==> (#[trigger] self.links@[j]).node_a < self.nodes@.len()
                && self.links@[j].node_b < self.nodes@.len()
    }

    /// The endpoints of every pending link, by node number.
    pub open spec fn link_pairs(&self) -> Seq<(u32, u32)> {
        Seq::new(self.links@.len(), |j: int| (self.links@[j].node_a, self.links@[j].node_b))
    }

    /// An empty builder.
    pub fn new() -> (builder: Self)
        ensures
            builder.wf(),
            builder.nodes@.len() == 0,
            builder.links@.len() == 0,
            builder.stack@.len() == 0,
    {
        XpbdLatticeBuilder { nodes: Vec::new(), links: Vec::new(), stack: Vec::new() }
    }

    /// An empty builder with room for `capacity` nodes.
    pub fn with_capacity(capacity: usize) -> (builder: Self)
        ensures
            builder.wf(),
            builder.nodes@.len() == 0,
            builder.links@.len() == 0,
            builder.stack@.len() == 0,
    {
        let link_room: usize = if capacity <= usize::MAX / 3 {
            capacity * 3
        } else {
            capacity
        };
        XpbdLatticeBuilder {
            nodes: Vec::with_capacity(capacity),
            links: Vec::with_capacity(link_room),
            stack: Vec::with_capacity(capacity / 3),
        }
    }

    /// Declares a node and makes it the current one. Returns its number:
    /// nodes are numbered from `0` in the order they are declared.
    pub fn node(&mut self, options: XpbdNodeOptions<S, V>) -> (id: u32)
        requires
            old(self).wf(),
            old(self).nodes@.len() < u32::MAX,
        ensures
            final(self).wf(),
            id == old(self).nodes@.len(),
            final(self).nodes@ == old(self).nodes@.push(options),
            final(self).stack@ == old(self).stack@.push(id),
            final(self).links@ == old(self).links@,
    {
        let id: u32 = self.nodes.len() as u32;
        self.stack.push(id);
        self.nodes.push(options);
        id
    }

    /// Links the current node to its parent, the node below it on the stack,
    /// and makes the parent current again. Returns the link's number: links
    /// are numbered from `0` in the order they are declared.
    pub fn link(&mut self, options: XpbdLinkOptions<S>) -> (id: u32)
        requires
            old(self).wf(),
            old(self).stack@.len() >= 2,
            old(self).links@.len() < u32::MAX,
        ensures
            final(self).wf(),
            id == old(self).links@.len(),
            final(self).links@ == old(self).links@.push(
                (XpbdLink {
                    node_a: old(self).stack@[old(self).stack@.len() - 2],
                    node_b: old(self).stack@[old(self).stack@.len() - 1],
                    options,
                }),
            ),
            final(self).stack@ == old(self).stack@.drop_last(),
            final(self).nodes@ == old(self).nodes@,
    {
        let child: u32 = self.stack[self.stack.len() - 1];
        self.stack.pop();
        let parent: u32 = self.stack[self.stack.len() - 1];
        let id: u32 = self.links.len() as u32;
        self.links.push(XpbdLink { node_a: parent, node_b: child, options });
        assert(self.stack@ =~= old(self).stack@.drop_last());
        id
    }

    /// Links the current node to the node numbered `node_id`. The stack is
    /// left as it is. Returns the link's number.
    pub fn link_to(&mut self, node_id: u32, options: XpbdLinkOptions<S>) -> (id: u32)
        requires
            old(self).wf(),
            old(self).stack@.len() >= 1,
            node_id < old(self).nodes@.len(),
            node_id != old(self).stack@.last(),
            old(self).links@.len() < u32::MAX,
        ensures
            final(self).wf(),
            id == old(self).links@.len(),
            final(self).links@ == old(self).links@.push(
                (XpbdLink { node_a: old(self).stack@.last(), node_b: node_id, options }),
            ),
            final(self).stack@ == old(self).stack@,
            final(self).nodes@ == old(self).nodes@,
    {
        let current: u32 = self.stack[self.stack.len() - 1];
        let id: u32 = self.links.len() as u32;
        self.links.push(XpbdLink { node_a: current, node_b: node_id, options });
        id
    }

    /// Links the nodes numbered `node_a` and `node_b`. The stack is left as
    /// it is. Returns the link's number.
    pub fn link_nodes(&mut self, node_a: u32, node_b: u32, options: XpbdLinkOptions<S>) -> (id:
        u32)
        requires
            old(self).wf(),
            node_a < old(self).nodes@.len(),
            node_b < old(self).nodes@.len(),
            old(self).links@.len() < u32::MAX,
        ensures
            final(self).wf(),
            id == old(self).links@.len(),
            final(self).links@ == old(self).links@.push((XpbdLink { node_a, node_b, options })),
            final(self).stack@ == old(self).stack@,
            final(self).nodes@ == old(self).nodes@,
    {
        let id: u32 = self.links.len() as u32;
        self.links.push(XpbdLink { node_a, node_b, options });
        id
    }

    /// Allocates a row for every node, then for every link, in the order of
    /// their numbers, and returns the handles, as [`exported`] says.
    pub fn export(self, nodes: &mut NodesRowTable<S, V>, links: &mut LinksRowTable<S>) -> (ids:
        LatticeIds)
        requires
            self.wf(),
            old(nodes).wf(),
            old(links).wf(),
            old(nodes).index@.handles.len() + self.nodes@.len() <= u32::MAX,
            old(links).index@.handles.len() + self.links@.len() <= u32::MAX,
        ensures
            final(nodes).wf(),
            final(links).wf(),
            exported(self, old(nodes)@, old(links)@, final(nodes)@, final(links)@, ids.nodes@, ids.links@),
    {
        let node_count: usize = self.nodes.len();
        let link_count: usize = self.links.len();
        let ghost nodes_before = old(nodes).index@;
        let ghost links_before = old(links).index@;
        proof {
            lemma_put_n(nodes_before, node_count as nat);
            lemma_put_n(links_before, link_count as nat);
        }
        let one: S = S::ratio(1, 1);
        let mut node_ids: Vec<u32> = Vec::with_capacity(node_count);
        let mut k: usize = 0;
        while k < node_count
            invariant
                k <= node_count,
                node_count == self.nodes@.len(),
                nodes.wf(),
                nodes_before.wf(),
                nodes_before == old(nodes).index@,
                nodes_before.handles.len() + node_count <= u32::MAX,
                nodes.index@ == nodes_before.put_n(k as nat),
                node_ids@ == nodes_before.allocated(k as nat),
                nodes.predicted_pos@ == old(nodes).predicted_pos@ + Seq::new(
                    k as nat,
                    |i: int| self.nodes@[i].pos,
                ),
                nodes.current_pos@ == old(nodes).current_pos@ + Seq::new(
                    k as nat,
                    |i: int| self.nodes@[i].pos,
                ),
                nodes.mass@ == old(nodes).mass@ + Seq::new(k as nat, |i: int| self.nodes@[i].mass),
                nodes.inv_mass@.subrange(0, old(nodes).inv_mass@.len() as int) == old(
                    nodes,
                ).inv_mass@,
                nodes.forces@.subrange(0, old(nodes).forces@.len() as int) == old(nodes).forces@,
                nodes.velocity@.subrange(0, old(nodes).velocity@.len() as int) == old(
                    nodes,
                ).velocity@,
                old(nodes).wf(),
                is_one(one),
                forall|i: int|
                    0 <= i < k ==> inverse_of(
                        one,
                        self.nodes@[i].mass,
                        self.nodes@[i].fixed,
                        #[trigger] nodes.inv_mass@[old(nodes).inv_mass@.len() + i],
                    ),
                forall|i: int|
                    0 <= i < k ==> is_origin::<S, V>(
                        #[trigger] nodes.forces@[old(nodes).forces@.len() + i],
                    ),
                forall|i: int|
                    0 <= i < k ==> is_origin::<S, V>(
                        #[trigger] nodes.velocity@[old(nodes).velocity@.len() + i],
                    ),
            decreases node_count - k,
        {
            let node = self.nodes[k];
            let inv_mass: S = inverse_mass(one, node.mass, node.fixed);
            proof {
                lemma_put_n(nodes_before, k as nat);
            }
            let ghost before = *nodes;
            let h: u32 = nodes.put(
                (node.pos, node.pos, node.mass, inv_mass, origin::<S, V>(), origin::<S, V>()),
            );
            node_ids.push(h);
            proof {
                assert forall|i: int| 0 <= i < k + 1 implies inverse_of(
                    one,
                    self.nodes@[i].mass,
                    self.nodes@[i].fixed,
                    #[trigger] nodes.inv_mass@[old(nodes).inv_mass@.len() + i],
                ) by {
                    if i < k {
                        assert(nodes.inv_mass@[old(nodes).inv_mass@.len() + i]
                            == before.inv_mass@[old(nodes).inv_mass@.len() + i]);
                    }
                }
                assert forall|i: int| 0 <= i < k + 1 implies is_origin::<S, V>(
                    #[trigger] nodes.forces@[old(nodes).forces@.len() + i],
                ) by {
                    if i < k {
                        assert(nodes.forces@[old(nodes).forces@.len() + i]
                            == before.forces@[old(nodes).forces@.len() + i]);
                    }
                }
                assert forall|i: int| 0 <= i < k + 1 implies is_origin::<S, V>(
                    #[trigger] nodes.velocity@[old(nodes).velocity@.len() + i],
                ) by {
                    if i < k {
                        assert(nodes.velocity@[old(nodes).velocity@.len() + i]
                            == before.velocity@[old(nodes).velocity@.len() + i]);
                    }
                }
                assert(nodes.predicted_pos@ =~= old(nodes).predicted_pos@ + Seq::new(
                    (k + 1) as nat,
                    |i: int| self.nodes@[i].pos,
                ));
                assert(nodes.current_pos@ =~= old(nodes).current_pos@ + Seq::new(
                    (k + 1) as nat,
                    |i: int| self.nodes@[i].pos,
                ));
                assert(nodes.mass@ =~= old(nodes).mass@ + Seq::new(
                    (k + 1) as nat,
                    |i: int| self.nodes@[i].mass,
                ));
                assert(nodes.inv_mass@.subrange(0, old(nodes).inv_mass@.len() as int)
                    =~= before.inv_mass@.subrange(0, old(nodes).inv_mass@.len() as int));
                assert(nodes.forces@.subrange(0, old(nodes).forces@.len() as int)
                    =~= before.forces@.subrange(0, old(nodes).forces@.len() as int));
                assert(nodes.velocity@.subrange(0, old(nodes).velocity@.len() as int)
                    =~= before.velocity@.subrange(0, old(nodes).velocity@.len() as int));
            }
            k += 1;
        }
        let mut link_ids: Vec<u32> = Vec::with_capacity(link_count);
        let mut j: usize = 0;
        while j < link_count
            invariant
                j <= link_count,
                link_count == self.links@.len(),
                node_count == self.nodes@.len(),
                self.wf(),
                nodes.wf(),
                links.wf(),
                old(links).wf(),
                links_before.wf(),
                links_before == old(links).index@,
                links_before.handles.len() + link_count <= u32::MAX,
                node_ids@.len() == node_count,
                links.index@ == links_before.put_n(j as nat),
                link_ids@ == links_before.allocated(j as nat),
                links.relation@ == old(links).relation@ + Seq::new(
                    j as nat,
                    |i: int|
                        LinkNodes(
                            node_ids@[self.links@[i].node_a as int],
                            node_ids@[self.links@[i].node_b as int],
                        ),
                ),
                links.compliance@ == old(links).compliance@ + Seq::new(
                    j as nat,
                    |i: int| self.links@[i].options.compliance,
                ),
                links.rest_length@.subrange(0, old(links).rest_length@.len() as int) == old(
                    links,
                ).rest_length@,
                forall|i: int|
                    0 <= i < j && self.links@[i].options.rest_length.is_some()
                        ==> #[trigger] links.rest_length@[old(links).rest_length@.len() + i]
                        == self.links@[i].options.rest_length.unwrap(),
                links.lambda@.subrange(0, old(links).lambda@.len() as int) == old(links).lambda@,
                nodes_before.wf(),
                nodes_before == old(nodes).index@,
                nodes_before.handles.len() + node_count <= u32::MAX,
                nodes_before.handles.len() == old(nodes).current_pos@.len(),
                nodes.index@ == nodes_before.put_n(node_count as nat),
                node_ids@ == nodes_before.allocated(node_count as nat),
                nodes.current_pos@ == old(nodes).current_pos@ + Seq::new(
                    node_count as nat,
                    |k: int| self.nodes@[k].pos,
                ),
                forall|i: int|
                    0 <= i < j && self.links@[i].options.rest_length.is_none() ==> spanned(
                        self.nodes@[self.links@[i].node_a as int].pos,
                        self.nodes@[self.links@[i].node_b as int].pos,
                        #[trigger] links.rest_length@[old(links).rest_length@.len() + i],
                    ),
                forall|i: int|
                    0 <= i < j ==> is_zero(#[trigger] links.lambda@[old(links).lambda@.len() + i]),
            decreases link_count - j,
        {
            let link = self.links[j];
            let relation = LinkNodes(node_ids[link.node_a as usize], node_ids[link.node_b as usize]);
            proof {
                lemma_put_n(nodes_before, node_count as nat);
            }
            let rest_length: S = match link.options.rest_length {
                Some(length) => length,
                None => {
                    let at_a: u32 = nodes.get_indirect_unchecked(relation.0);
                    let at_b: u32 = nodes.get_indirect_unchecked(relation.1);
                    let p_a: V = nodes.current_pos[at_a as usize];
                    let p_b: V = nodes.current_pos[at_b as usize];
                    assert(p_a == self.nodes@[link.node_a as int].pos);
                    assert(p_b == self.nodes@[link.node_b as int].pos);
                    span(p_a, p_b)
                },
            };
            proof {
                lemma_put_n(links_before, j as nat);
            }
            let ghost before = *links;
            let h: u32 = links.put((relation, link.options.compliance, rest_length, zero::<S>()));
            link_ids.push(h);
            proof {
                assert(links.relation@ =~= old(links).relation@ + Seq::new(
                    (j + 1) as nat,
                    |i: int|
                        LinkNodes(
                            node_ids@[self.links@[i].node_a as int],
                            node_ids@[self.links@[i].node_b as int],
                        ),
                ));
                assert(links.compliance@ =~= old(links).compliance@ + Seq::new(
                    (j + 1) as nat,
                    |i: int| self.links@[i].options.compliance,
                ));
                assert(links.rest_length@.subrange(0, old(links).rest_length@.len() as int)
                    =~= before.rest_length@.subrange(0, old(links).rest_length@.len() as int));
                assert(links.lambda@.subrange(0, old(links).lambda@.len() as int)
                    =~= before.lambda@.subrange(0, old(links).lambda@.len() as int));
                assert forall|i: int|
                    0 <= i < j + 1 && self.links@[i].options.rest_length.is_some()
                    implies #[trigger] links.rest_length@[old(links).rest_length@.len() + i]
                    == self.links@[i].options.rest_length.unwrap() by {
                    if i < j {
                        assert(links.rest_length@[old(links).rest_length@.len() + i]
                            == before.rest_length@[old(links).rest_length@.len() + i]);
                    }
                }
                assert forall|i: int|
                    0 <= i < j + 1 && self.links@[i].options.rest_length.is_none() implies spanned(
                    self.nodes@[self.links@[i].node_a as int].pos,
                    self.nodes@[self.links@[i].node_b as int].pos,
                    #[trigger] links.rest_length@[old(links).rest_length@.len() + i],
                ) by {
                    if i < j {
                        assert(links.rest_length@[old(links).rest_length@.len() + i]
                            == before.rest_length@[old(links).rest_length@.len() + i]);
                    }
                }
                assert forall|i: int| 0 <= i < j + 1 implies is_zero(
                    #[trigger] links.lambda@[old(links).lambda@.len() + i],
                ) by {
                    if i < j {
                        assert(links.lambda@[old(links).lambda@.len() + i]
                            == before.lambda@[old(links).lambda@.len() + i]);
                    }
                }
            }
            j += 1;
        }
        LatticeIds { nodes: node_ids, links: link_ids }
    }
}

} // verus!
