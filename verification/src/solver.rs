//! The position-based constraint solver.
//!
//! One step runs a fixed number of substeps. A substep predicts positions
//! from velocities and forces, clamps to the ground, projects every link a
//! fixed number of times in dense order, retires the links whose strain went
//! past a threshold, and derives the new velocities.
//!
//! A step is specified as a relation between the state before and the
//! state after, phase by phase. It follows that the solver never adds or
//! removes a node, never changes a mass, and removes exactly the links it
//! reports as broken.

use vstd::prelude::*;
use crate::motion::{
    Correction,
    Landing,
    breaks,
    derive_velocity,
    derived,
    ground,
    grounded,
    predict,
    predicted,
    project,
    projected,
    strained,
    timed,
};
use crate::numeric::{
    Scalar,
    Vector,
    is_origin,
    is_zero,
    origin,
    ratio_of,
    real_of_i32,
    vdifference,
    vscaled,
    vsum,
    zero,
};
use crate::slots::{SlotModel, lemma_freed};
use crate::xpbd::{
    DEFAULT_SOLVE_ITERATIONS,
    DEFAULT_SUB_STEPS,
    LinkNodes,
    LinksModel,
    LinksRowTable,
    NodesModel,
    NodesRowTable,
};

verus! {

/// Velocities are multiplied by `DAMPING_NUM / DAMPING_DEN` after every step.
pub const DAMPING_NUM: i32 = 996;

pub const DAMPING_DEN: i32 = 1000;

/// A link breaks when its multiplier over the squared substep time reaches
/// this value under tension.
pub const LAMBDA_STRAIN_THRESHOLD: i32 = 45_000;

/// A link breaks when its multiplier over the squared substep time falls to
/// this value under compression.
pub const LAMBDA_COMPRESSION_THRESHOLD: i32 = -15_000;

/// What the vertical velocity of a node is multiplied by when it hits the
/// ground, in tenths: it is reversed and keeps four tenths.
pub const BOUNCE_TENTHS: i32 = -4;

/// The part of the horizontal velocity that a node keeps when it hits the
/// ground, in tenths.
pub const FRICTION_TENTHS: i32 = 2;

/// Lengths and inverse-mass sums below one part in `TOLERANCE_DEN` count as
/// zero: such a link is skipped.
pub const TOLERANCE_DEN: i32 = 10_000_000;

/// What a solver is made with.
#[derive(Clone, Copy, Debug)]
pub struct XpbdOptions<S> {
    pub iterations: u32,
    pub substeps: u32,
    pub allow_breaking: bool,
    pub ground_level: Option<S>,
}

impl<S: Scalar> XpbdOptions<S> {
    pub fn new(iterations: u32, substeps: u32, allow_breaking: bool, ground_level: Option<S>) -> (options:
        Self)
        ensures
            options.iterations == iterations,
            options.substeps == substeps,
            options.allow_breaking == allow_breaking,
            options.ground_level == ground_level,
    {
        XpbdOptions { iterations, substeps, allow_breaking, ground_level }
    }

    pub fn with_iterations(self, iterations: u32) -> (options: Self)
        ensures
            options.iterations == iterations,
            options.substeps == self.substeps,
            options.allow_breaking == self.allow_breaking,
            options.ground_level == self.ground_level,
    {
        XpbdOptions {
            iterations,
            substeps: self.substeps,
            allow_breaking: self.allow_breaking,
            ground_level: self.ground_level,
        }
    }

    pub fn with_substeps(self, substeps: u32) -> (options: Self)
        ensures
            options.iterations == self.iterations,
            options.substeps == substeps,
            options.allow_breaking == self.allow_breaking,
            options.ground_level == self.ground_level,
    {
        XpbdOptions {
            substeps,
            iterations: self.iterations,
            allow_breaking: self.allow_breaking,
            ground_level: self.ground_level,
        }
    }

    pub fn with_breaking(self, breaking: bool) -> (options: Self)
        ensures
            options.iterations == self.iterations,
            options.substeps == self.substeps,
            options.allow_breaking == breaking,
            options.ground_level == self.ground_level,
    {
        XpbdOptions {
            allow_breaking: breaking,
            iterations: self.iterations,
            substeps: self.substeps,
            ground_level: self.ground_level,
        }
    }

    pub fn with_ground_level(self, ground_level: Option<S>) -> (options: Self)
        ensures
            options.iterations == self.iterations,
            options.substeps == self.substeps,
            options.allow_breaking == self.allow_breaking,
            options.ground_level == ground_level,
    {
        XpbdOptions {
            ground_level,
            iterations: self.iterations,
            substeps: self.substeps,
            allow_breaking: self.allow_breaking,
        }
    }
}

impl<S: Scalar> Default for XpbdOptions<S> {
    /// Eight iterations, four substeps, breaking allowed, no ground.
    fn default() -> (options: Self)
        ensures
            options.iterations == DEFAULT_SOLVE_ITERATIONS,
            options.substeps == DEFAULT_SUB_STEPS,
            options.allow_breaking,
            options.ground_level.is_none(),
    {
        XpbdOptions {
            iterations: DEFAULT_SOLVE_ITERATIONS,
            substeps: DEFAULT_SUB_STEPS,
            allow_breaking: true,
            ground_level: None,
        }
    }
}

/// `after` is `before` with the links of `broken` freed, first to last:
/// each of them was a live link, none is named twice, and no other link
/// came or went.
pub open spec fn broke(before: SlotModel, after: SlotModel, broken: Seq<u32>) -> bool {
    &&& after == before.freed_all(broken)
    &&& forall|k: int|
        0 <= k < broken.len() ==> (#[trigger] broken[k]) != 0 && before.live(broken[k])
            && !after.live(broken[k])
    &&& forall|j: int, k: int| 0 <= j < k < broken.len() ==> broken[j] != broken[k]
    &&& forall|g: u32| before.live(g) && !broken.contains(g) ==> #[trigger] after.live(g)
    &&& forall|g: u32| #[trigger] after.live(g) ==> before.live(g)
}

/// Whether `h` owns one of the rows `1..upto`.
pub open spec fn owns_row_below(handles: Seq<u32>, upto: int, h: u32) -> bool {
    exists|r: int| 1 <= r < upto && #[trigger] handles[r] == h
}

/// Freeing `first` and then `second` is freeing their concatenation.
pub proof fn lemma_freed_all_concat(m: SlotModel, first: Seq<u32>, second: Seq<u32>)
    ensures
        m.freed_all(first + second) == m.freed_all(first).freed_all(second),
    decreases second.len(),
{
    if second.len() == 0 {
        assert(first + second =~= first);
    } else {
        lemma_freed_all_concat(m, first, second.drop_last());
        assert((first + second).drop_last() =~= first + second.drop_last());
        assert((first + second).last() == second.last());
    }
}

/// Breaking nothing changes nothing.
pub proof fn lemma_broke_nothing(m: SlotModel)
    ensures
        broke(m, m, Seq::<u32>::empty()),
{
}

/// Breaking one more live link extends a break.
pub proof fn lemma_broke_push(before: SlotModel, now: SlotModel, broken: Seq<u32>, h: u32)
    requires
        before.wf(),
        now.wf(),
        broke(before, now, broken),
        h != 0,
        now.live(h),
    ensures
        broke(before, now.freed(h), broken.push(h)),
{
    lemma_freed(now, h);
    let after = now.freed(h);
    let all = broken.push(h);
    assert(all.drop_last() =~= broken);
    assert(all.last() == h);
    assert(after == before.freed_all(all));
    assert forall|g: u32| #[trigger] after.live(g) implies before.live(g) by {
        if g != h {
            assert(now.live(g));
        }
    }
    assert forall|k: int| 0 <= k < all.len() implies (#[trigger] all[k]) != 0 && before.live(
        all[k],
    ) && !after.live(all[k]) by {
        if k < broken.len() {
            assert(all[k] == broken[k]);
            assert(!now.live(broken[k]));
        }
    }
    assert forall|j: int, k: int| 0 <= j < k < all.len() implies all[j] != all[k] by {
        if k == broken.len() {
            assert(all[j] == broken[j]);
            assert(!now.live(broken[j]));
        } else {
            assert(all[j] == broken[j]);
            assert(all[k] == broken[k]);
        }
    }
    assert forall|g: u32| before.live(g) && !all.contains(g) implies #[trigger] after.live(g) by {
        assert(g != h) by {
            if g == h {
                assert(all[broken.len() as int] == g);
            }
        }
        assert(!broken.contains(g)) by {
            if broken.contains(g) {
                let k = choose|k: int| 0 <= k < broken.len() && broken[k] == g;
                assert(all[k] == g);
            }
        }
        assert(now.live(g));
    }
}

/// Two breaks in a row are one break of both lists.
pub proof fn lemma_broke_then(a: SlotModel, b: SlotModel, c: SlotModel, first: Seq<u32>, second: Seq<u32>)
    requires
        broke(a, b, first),
        broke(b, c, second),
    ensures
        broke(a, c, first + second),
{
    lemma_freed_all_concat(a, first, second);
    let all = first + second;
    assert forall|k: int| 0 <= k < all.len() implies (#[trigger] all[k]) != 0 && a.live(all[k])
        && !c.live(all[k]) by {
        if k < first.len() {
            assert(all[k] == first[k]);
            assert(!b.live(first[k]));
        } else {
            assert(all[k] == second[k - first.len()]);
            assert(b.live(second[k - first.len()]));
        }
    }
    assert forall|j: int, k: int| 0 <= j < k < all.len() implies all[j] != all[k] by {
        if k < first.len() {
            assert(all[j] == first[j] && all[k] == first[k]);
        } else if j >= first.len() {
            assert(all[j] == second[j - first.len()] && all[k] == second[k - first.len()]);
        } else {
            assert(all[j] == first[j] && all[k] == second[k - first.len()]);
            assert(!b.live(first[j]));
            assert(b.live(second[k - first.len()]));
        }
    }
    assert forall|g: u32| a.live(g) && !all.contains(g) implies #[trigger] c.live(g) by {
        assert(!first.contains(g)) by {
            if first.contains(g) {
                let k = choose|k: int| 0 <= k < first.len() && first[k] == g;
                assert(all[k] == g);
            }
        }
        assert(!second.contains(g)) by {
            if second.contains(g) {
                let k = choose|k: int| 0 <= k < second.len() && second[k] == g;
                assert(all[k + first.len()] == g);
            }
        }
        assert(b.live(g));
    }
}

/// Every node of `after` is predicted from its row in `before`, and its
/// force is used up: the force of every row is one and the same origin.
/// Nothing else changed.
pub open spec fn predicted_all<S: Scalar, V: Vector<S>>(
    h: S,
    h2: S,
    before: NodesModel<S, V>,
    after: NodesModel<S, V>,
) -> bool {
    &&& after.index == before.index
    &&& after.current_pos == before.current_pos
    &&& after.mass == before.mass
    &&& after.inv_mass == before.inv_mass
    &&& after.velocity == before.velocity
    &&& after.predicted_pos.len() == before.predicted_pos.len()
    &&& after.forces.len() == before.forces.len()
    &&& forall|i: int|
        0 <= i < after.predicted_pos.len() ==> predicted(
            h,
            h2,
            before.current_pos[i],
            before.velocity[i],
            before.forces[i],
            before.inv_mass[i],
            #[trigger] after.predicted_pos[i],
        )
    &&& exists|rest: V|
        #![trigger is_origin::<S, V>(rest)]
        is_origin::<S, V>(rest) && forall|i: int|
            0 <= i < after.forces.len() ==> #[trigger] after.forces[i] == rest
}

/// Every node of `after` is its row in `before` after the ground at `level`
/// had its say, with restitution and friction as the constants give them.
/// Masses and forces did not change.
pub open spec fn grounded_all<S: Scalar, V: Vector<S>>(
    level: S,
    before: NodesModel<S, V>,
    after: NodesModel<S, V>,
) -> bool {
    &&& after.index == before.index
    &&& after.mass == before.mass
    &&& after.inv_mass == before.inv_mass
    &&& after.forces == before.forces
    &&& after.predicted_pos.len() == before.predicted_pos.len()
    &&& after.current_pos.len() == before.current_pos.len()
    &&& after.velocity.len() == before.velocity.len()
    &&& exists|bounce: S, friction: S|
        #![trigger ratio_of(BOUNCE_TENTHS, 10, bounce), ratio_of(FRICTION_TENTHS, 10, friction)]
        ratio_of(BOUNCE_TENTHS, 10, bounce) && ratio_of(FRICTION_TENTHS, 10, friction)
            && forall|i: int|
            0 <= i < after.predicted_pos.len() ==> grounded(
                level,
                bounce,
                friction,
                before.predicted_pos[i],
                before.current_pos[i],
                before.velocity[i],
                (Landing {
                    predicted: #[trigger] after.predicted_pos[i],
                    current: after.current_pos[i],
                    velocity: after.velocity[i],
                }),
            )
}

/// Every multiplier is one and the same zero.
pub open spec fn zeroed<S: Scalar>(lambda: Seq<S>) -> bool {
    exists|none: S|
        #![trigger is_zero(none)]
        is_zero(none) && forall|j: int| 0 <= j < lambda.len() ==> #[trigger] lambda[j] == none
}

/// Every node of `after` has the velocity derived from the way it moved in
/// `before`, and stands where it was predicted. Nothing else changed.
pub open spec fn finalised<S: Scalar, V: Vector<S>>(
    h: S,
    before: NodesModel<S, V>,
    after: NodesModel<S, V>,
) -> bool {
    &&& after.index == before.index
    &&& after.mass == before.mass
    &&& after.inv_mass == before.inv_mass
    &&& after.forces == before.forces
    &&& after.predicted_pos == before.predicted_pos
    &&& after.current_pos == before.predicted_pos
    &&& after.velocity.len() == before.velocity.len()
    &&& forall|i: int|
        0 <= i < after.velocity.len() ==> derived(
            h,
            before.predicted_pos[i],
            before.current_pos[i],
            #[trigger] after.velocity[i],
        )
}

/// Every velocity of `after` is that of `before` times the damping.
/// Nothing else changed.
pub open spec fn damped<S: Scalar, V: Vector<S>>(
    before: NodesModel<S, V>,
    after: NodesModel<S, V>,
) -> bool {
    &&& after.index == before.index
    &&& after.mass == before.mass
    &&& after.inv_mass == before.inv_mass
    &&& after.forces == before.forces
    &&& after.predicted_pos == before.predicted_pos
    &&& after.current_pos == before.current_pos
    &&& after.velocity.len() == before.velocity.len()
    &&& exists|damping: S|
        #![trigger ratio_of(DAMPING_NUM, DAMPING_DEN, damping)]
        ratio_of(DAMPING_NUM, DAMPING_DEN, damping) && forall|i: int|
            0 <= i < after.velocity.len() ==> vscaled::<S, V>(
                before.velocity[i],
                damping,
                #[trigger] after.velocity[i],
            )
}

/// What the projection of the links works on: the predicted positions of
/// the nodes and the multipliers of the links.
pub struct Relaxing<S, V> {
    pub predicted_pos: Seq<V>,
    pub lambda: Seq<S>,
}

/// `after` is `pred` with the end at `a` pushed forward by `push_a` and
/// then the end at `b` pushed back by `push_b`. Where both ends are one
/// node, the second push starts from where the first one left it.
pub open spec fn pushed<S: Scalar, V: Vector<S>>(
    pred: Seq<V>,
    a: int,
    b: int,
    push_a: V,
    push_b: V,
    after: Seq<V>,
) -> bool {
    exists|moved_a: V, moved_b: V|
        #![trigger vsum::<S, V>(pred[a], push_a, moved_a), vdifference::<S, V>(pred.update(a, moved_a)[b], push_b, moved_b)]
        vsum::<S, V>(pred[a], push_a, moved_a) && vdifference::<S, V>(
            pred.update(a, moved_a)[b],
            push_b,
            moved_b,
        ) && after == pred.update(a, moved_a).update(b, moved_b)
}

/// `after` is `before` after the link in row `j` was projected: its ends
/// are looked up in `index`, a handle that is not live standing for the
/// degenerate node; a link that yields no correction leaves everything as
/// it is; any other link gets its new multiplier and pushes its ends.
pub open spec fn pass_step<S: Scalar, V: Vector<S>>(
    h2: S,
    tolerance: S,
    index: SlotModel,
    inv_mass: Seq<S>,
    links: LinksModel<S>,
    j: int,
    before: Relaxing<S, V>,
    after: Relaxing<S, V>,
) -> bool {
    let a = index.index_of(links.relation[j].0) as int;
    let b = index.index_of(links.relation[j].1) as int;
    exists|out: Option<Correction<S, V>>|
        #![trigger projected(h2, tolerance, inv_mass[a], inv_mass[b], before.predicted_pos[a], before.predicted_pos[b], links.compliance[j], links.rest_length[j], before.lambda[j], out)]
        projected(
            h2,
            tolerance,
            inv_mass[a],
            inv_mass[b],
            before.predicted_pos[a],
            before.predicted_pos[b],
            links.compliance[j],
            links.rest_length[j],
            before.lambda[j],
            out,
        ) && match out {
            None => after == before,
            Some(correction) => after.lambda == before.lambda.update(j, correction.lambda)
                && pushed(
                before.predicted_pos,
                a,
                b,
                correction.push_a,
                correction.push_b,
                after.predicted_pos,
            ),
        }
}

/// `trace` holds the states of one pass over the links: one before the
/// first link, and one after every link, in dense order.
pub open spec fn pass_trace<S: Scalar, V: Vector<S>>(
    h2: S,
    tolerance: S,
    index: SlotModel,
    inv_mass: Seq<S>,
    links: LinksModel<S>,
    trace: Seq<Relaxing<S, V>>,
) -> bool {
    &&& trace.len() == links.relation.len() + 1
    &&& forall|j: int|
        0 <= j < links.relation.len() ==> pass_step(
            h2,
            tolerance,
            index,
            inv_mass,
            links,
            j,
            #[trigger] trace[j],
            trace[j + 1],
        )
}

/// `after` is `before` after one pass over the links: every link was
/// projected once, in dense order, each on what the links before it left.
/// The links give their ends, compliance and rest length; their multipliers
/// are those of the state.
pub open spec fn passed<S: Scalar, V: Vector<S>>(
    h2: S,
    tolerance: S,
    index: SlotModel,
    inv_mass: Seq<S>,
    links: LinksModel<S>,
    before: Relaxing<S, V>,
    after: Relaxing<S, V>,
) -> bool {
    exists|trace: Seq<Relaxing<S, V>>|
        #![trigger pass_trace(h2, tolerance, index, inv_mass, links, trace)]
        pass_trace(h2, tolerance, index, inv_mass, links, trace) && trace[0] == before
            && trace.last() == after
}

/// `trace` holds the states of `passes` passes in a row: one before the
/// first, and one after every pass.
pub open spec fn relax_trace<S: Scalar, V: Vector<S>>(
    h2: S,
    tolerance: S,
    index: SlotModel,
    inv_mass: Seq<S>,
    links: LinksModel<S>,
    passes: int,
    trace: Seq<Relaxing<S, V>>,
) -> bool {
    &&& trace.len() == passes + 1
    &&& forall|k: int|
        0 <= k < passes ==> passed(h2, tolerance, index, inv_mass, links, #[trigger] trace[k], trace[k + 1])
}

/// `after` is `before` after `passes` passes over the links, with the
/// tolerance that the constant gives.
pub open spec fn relaxed<S: Scalar, V: Vector<S>>(
    h2: S,
    index: SlotModel,
    inv_mass: Seq<S>,
    links: LinksModel<S>,
    passes: int,
    before: Relaxing<S, V>,
    after: Relaxing<S, V>,
) -> bool {
    exists|tolerance: S, trace: Seq<Relaxing<S, V>>|
        #![trigger relax_trace(h2, tolerance, index, inv_mass, links, passes, trace)]
        ratio_of(1, TOLERANCE_DEN, tolerance) && relax_trace(
            h2,
            tolerance,
            index,
            inv_mass,
            links,
            passes,
            trace,
        ) && trace[0] == before && trace.last() == after
}

/// A pass reads the ends, compliance and rest length of the links, not
/// their multipliers: over two tables that agree on those, it is the same
/// pass.
pub proof fn lemma_passed_static<S: Scalar, V: Vector<S>>(
    h2: S,
    tolerance: S,
    index: SlotModel,
    inv_mass: Seq<S>,
    links: LinksModel<S>,
    other: LinksModel<S>,
    before: Relaxing<S, V>,
    after: Relaxing<S, V>,
)
    requires
        passed(h2, tolerance, index, inv_mass, links, before, after),
        links.relation == other.relation,
        links.compliance == other.compliance,
        links.rest_length == other.rest_length,
    ensures
        passed(h2, tolerance, index, inv_mass, other, before, after),
{
    let trace = choose|trace: Seq<Relaxing<S, V>>|
        #![trigger pass_trace(h2, tolerance, index, inv_mass, links, trace)]
        pass_trace(h2, tolerance, index, inv_mass, links, trace) && trace[0] == before
            && trace.last() == after;
    assert forall|j: int| 0 <= j < other.relation.len() implies pass_step(
        h2,
        tolerance,
        index,
        inv_mass,
        other,
        j,
        #[trigger] trace[j],
        trace[j + 1],
    ) by {
        assert(pass_step(h2, tolerance, index, inv_mass, links, j, trace[j], trace[j + 1]));
    }
    assert(pass_trace(h2, tolerance, index, inv_mass, other, trace));
}

/// The handles of the rows `1..upto` whose flag is set, in dense order.
pub open spec fn picked(handles: Seq<u32>, flags: Seq<bool>, upto: int) -> Seq<u32>
    decreases upto,
{
    if upto <= 1 {
        Seq::empty()
    } else {
        let before = picked(handles, flags, upto - 1);
        if flags[upto - 1] {
            before.push(handles[upto - 1])
        } else {
            before
        }
    }
}

/// What is picked from the rows below `upto` does not depend on the flags
/// from `upto` on.
pub proof fn lemma_picked_prefix(handles: Seq<u32>, flags: Seq<bool>, other: Seq<bool>, upto: int)
    requires
        forall|k: int| 1 <= k < upto ==> flags[k] == other[k],
    ensures
        picked(handles, flags, upto) == picked(handles, other, upto),
    decreases upto,
{
    if upto > 1 {
        lemma_picked_prefix(handles, flags, other, upto - 1);
    }
}

/// `flags` tells of every link but the degenerate one whether it breaks
/// under the multipliers `lambda`, against the thresholds that the
/// constants give.
pub open spec fn strained_all<S: Scalar>(h2: S, lambda: Seq<S>, flags: Seq<bool>) -> bool {
    &&& flags.len() == lambda.len()
    &&& exists|tensile: S, compressive: S|
        #![trigger real_of_i32(LAMBDA_STRAIN_THRESHOLD, tensile), real_of_i32(LAMBDA_COMPRESSION_THRESHOLD, compressive)]
        real_of_i32(LAMBDA_STRAIN_THRESHOLD, tensile) && real_of_i32(
            LAMBDA_COMPRESSION_THRESHOLD,
            compressive,
        ) && forall|i: int|
            1 <= i < lambda.len() ==> strained(h2, tensile, compressive, lambda[i], #[trigger] flags[i])
}

/// `gone` lists the links of `before` that break, in dense order, and
/// `after` is `before` with those freed, first to last.
pub open spec fn broken_off<S: Scalar>(
    h2: S,
    before: LinksModel<S>,
    gone: Seq<u32>,
    after: LinksModel<S>,
) -> bool {
    exists|flags: Seq<bool>|
        #![trigger strained_all(h2, before.lambda, flags)]
        strained_all(h2, before.lambda, flags) && gone == picked(
            before.index.handles,
            flags,
            before.index.handles.len() as int,
        ) && after == before.freed_all(gone)
}

/// What a solver is set to: all of it but the list of broken links.
pub struct Settings<S> {
    pub iterations: u32,
    pub substeps: u32,
    pub h: S,
    pub h2: S,
    pub allow_breaking: bool,
    pub ground_level: Option<S>,
}

/// What a step works on: the nodes, the links, and the links reported
/// broken.
pub struct World<S, V> {
    pub nodes: NodesModel<S, V>,
    pub links: LinksModel<S>,
    pub broken: Seq<u32>,
}

/// `after` is `before` after the ground had its say, if there is one.
pub open spec fn landed_all<S: Scalar, V: Vector<S>>(
    level: Option<S>,
    before: NodesModel<S, V>,
    after: NodesModel<S, V>,
) -> bool {
    match level {
        Some(level) => grounded_all(level, before, after),
        None => after == before,
    }
}

/// `end` is what `passes` passes over `links` make of the predicted
/// positions of `nodes` and the multipliers `start`.
pub open spec fn relaxed_from<S: Scalar, V: Vector<S>>(
    h2: S,
    nodes: NodesModel<S, V>,
    links: LinksModel<S>,
    passes: int,
    start: Seq<S>,
    end: Relaxing<S, V>,
) -> bool {
    relaxed(
        h2,
        nodes.index,
        nodes.inv_mass,
        links.with_lambda(start),
        passes,
        (Relaxing { predicted_pos: nodes.predicted_pos, lambda: start }),
        end,
    )
}

/// With breaking allowed, the links of `before` that break are appended to
/// `listed` and freed; without, links and list stay as they are.
pub open spec fn broken_in<S: Scalar>(
    allow: bool,
    h2: S,
    before: LinksModel<S>,
    listed: Seq<u32>,
    after: LinksModel<S>,
    listed_after: Seq<u32>,
) -> bool {
    if allow {
        listed.len() <= listed_after.len() && listed_after.subrange(0, listed.len() as int)
            == listed && broken_off(
            h2,
            before,
            listed_after.subrange(listed.len() as int, listed_after.len() as int),
            after,
        )
    } else {
        after == before && listed_after == listed
    }
}

/// `after` holds the nodes `landed`, moved to where the projection `end`
/// left them, with their velocities derived and their positions made
/// current.
pub open spec fn settled<S: Scalar, V: Vector<S>>(
    h: S,
    landed: NodesModel<S, V>,
    end: Relaxing<S, V>,
    after: NodesModel<S, V>,
) -> bool {
    finalised(h, (NodesModel { predicted_pos: end.predicted_pos, ..landed }), after)
}

/// `after` is `before` after one substep: the positions are predicted and
/// the forces used up; the ground has its say; the multipliers start from
/// zero and the links are projected `iterations` times; the links that
/// break are reported and freed; and the velocities are derived from where
/// the nodes ended up.
pub open spec fn substepped<S: Scalar, V: Vector<S>>(
    cfg: Settings<S>,
    before: World<S, V>,
    after: World<S, V>,
) -> bool {
    exists|moved: NodesModel<S, V>, landed: NodesModel<S, V>, start: Seq<S>, end: Relaxing<S, V>|
        #![trigger landed_all(cfg.ground_level, moved, landed), relaxed_from(cfg.h2, landed, before.links, cfg.iterations as int, start, end)]
        predicted_all(cfg.h, cfg.h2, before.nodes, moved) && landed_all(
            cfg.ground_level,
            moved,
            landed,
        ) && zeroed(start) && start.len() == before.links.lambda.len() && relaxed_from(
            cfg.h2,
            landed,
            before.links,
            cfg.iterations as int,
            start,
            end,
        ) && broken_in(
            cfg.allow_breaking,
            cfg.h2,
            before.links.with_lambda(end.lambda),
            before.broken,
            after.links,
            after.broken,
        ) && settled(cfg.h, landed, end, after.nodes)
}

/// `trace` holds the states of the substeps of one step: one before the
/// first, and one after every substep.
pub open spec fn step_trace<S: Scalar, V: Vector<S>>(
    cfg: Settings<S>,
    trace: Seq<World<S, V>>,
) -> bool {
    &&& trace.len() == cfg.substeps + 1
    &&& forall|k: int|
        0 <= k < cfg.substeps ==> substepped(cfg, #[trigger] trace[k], trace[k + 1])
}

/// `after` is `before` after one step: the list of broken links starts
/// empty, `substeps` substeps follow one another, and at the end every
/// velocity is damped.
pub open spec fn stepped<S: Scalar, V: Vector<S>>(
    cfg: Settings<S>,
    before: World<S, V>,
    after: World<S, V>,
) -> bool {
    exists|trace: Seq<World<S, V>>|
        #![trigger step_trace(cfg, trace)]
        step_trace(cfg, trace) && trace[0] == (World { broken: Seq::empty(), ..before }) && damped(
            trace.last().nodes,
            after.nodes,
        ) && after.links == trace.last().links && after.broken == trace.last().broken
}

/// The solver: its configuration, the substep time, and the links that
/// broke during the last step.
#[derive(Clone, Debug)]
pub struct XpbdSolver<S> {
    pub iterations: u32,
    pub substeps: u32,
    pub h: S,
    pub h2: S,
    pub allow_breaking: bool,
    pub ground_level: Option<S>,
    pub broken_links: Vec<u32>,
}

impl<S: Scalar> Default for XpbdSolver<S> {
    /// A solver made with the default options.
    fn default() -> (solver: Self)
        ensures
            solver.iterations == DEFAULT_SOLVE_ITERATIONS,
            solver.substeps == DEFAULT_SUB_STEPS,
            solver.allow_breaking,
            solver.ground_level.is_none(),
            solver.broken_links@.len() == 0,
            is_zero(solver.h),
            is_zero(solver.h2),
    {
        XpbdSolver {
            iterations: DEFAULT_SOLVE_ITERATIONS,
            substeps: DEFAULT_SUB_STEPS,
            h: zero::<S>(),
            h2: zero::<S>(),
            ground_level: None,
            allow_breaking: true,
            broken_links: Vec::with_capacity(32),
        }
    }
}

impl<S: Scalar> XpbdSolver<S> {
    /// What the solver is set to.
    pub open spec fn settings(&self) -> Settings<S> {
        Settings {
            iterations: self.iterations,
            substeps: self.substeps,
            h: self.h,
            h2: self.h2,
            allow_breaking: self.allow_breaking,
            ground_level: self.ground_level,
        }
    }

    /// The configuration of `self` is that of `before`: all but the list of
    /// broken links.
    pub open spec fn configured_as(&self, before: &Self) -> bool {
        &&& self.iterations == before.iterations
        &&& self.substeps == before.substeps
        &&& self.h == before.h
        &&& self.h2 == before.h2
        &&& self.allow_breaking == before.allow_breaking
        &&& self.ground_level == before.ground_level
    }

    /// A solver with the given options, no step time and no broken links.
    pub fn new(options: XpbdOptions<S>) -> (solver: Self)
        ensures
            solver.iterations == options.iterations,
            solver.substeps == options.substeps,
            solver.allow_breaking == options.allow_breaking,
            solver.ground_level == options.ground_level,
            solver.broken_links@.len() == 0,
            is_zero(solver.h),
            is_zero(solver.h2),
    {
        let room: usize = if options.allow_breaking {
            32
        } else {
            0
        };
        XpbdSolver {
            h: zero::<S>(),
            h2: zero::<S>(),
            iterations: options.iterations,
            substeps: options.substeps,
            allow_breaking: options.allow_breaking,
            ground_level: options.ground_level,
            broken_links: Vec::with_capacity(room),
        }
    }

    pub fn iterations(&self) -> (n: u32)
        ensures
            n == self.iterations,
    {
        self.iterations
    }

    pub fn substeps(&self) -> (n: u32)
        ensures
            n == self.substeps,
    {
        self.substeps
    }

    pub fn set_iterations(&mut self, iterations: u32)
        ensures
            final(self).iterations == iterations,
            final(self).substeps == old(self).substeps,
            final(self).h == old(self).h,
            final(self).h2 == old(self).h2,
            final(self).allow_breaking == old(self).allow_breaking,
            final(self).ground_level == old(self).ground_level,
            final(self).broken_links@ == old(self).broken_links@,
    {
        self.iterations = iterations;
    }

    pub fn set_substeps(&mut self, substeps: u32)
        ensures
            final(self).substeps == substeps,
            final(self).iterations == old(self).iterations,
            final(self).h == old(self).h,
            final(self).h2 == old(self).h2,
            final(self).allow_breaking == old(self).allow_breaking,
            final(self).ground_level == old(self).ground_level,
            final(self).broken_links@ == old(self).broken_links@,
    {
        self.substeps = substeps;
    }

    /// Sets the substep time to `delta` over the number of substeps, and
    /// its square.
    pub fn set_step_time(&mut self, delta: S)
        ensures
            timed(old(self).substeps, delta, final(self).h, final(self).h2),
            final(self).iterations == old(self).iterations,
            final(self).substeps == old(self).substeps,
            final(self).allow_breaking == old(self).allow_breaking,
            final(self).ground_level == old(self).ground_level,
            final(self).broken_links@ == old(self).broken_links@,
    {
        self.h = delta.over(S::from_u32(self.substeps));
        self.h2 = self.h.times(self.h);
    }

    /// The handles of the links that broke during the last step, in the
    /// order they broke. A solver that does not allow breaking has none to
    /// report and may not be asked.
    pub fn broken_links(&self) -> (out: &[u32])
        requires
            self.allow_breaking,
        ensures
            out@ == self.broken_links@,
    {
        self.broken_links.as_slice()
    }

    /// Advances the lattice by one step, as [`stepped`] says.
    ///
    /// It follows that no node is added or removed and no mass changes;
    /// that the links that broke are listed in `broken_links`, which starts
    /// empty at every step, and are freed in that order, while every other
    /// link keeps its handle, its endpoints, its compliance and its rest
    /// length; and that a solver that does not allow breaking frees nothing.
    pub fn step<V: Vector<S>>(
        &mut self,
        nodes: &mut NodesRowTable<S, V>,
        links: &mut LinksRowTable<S>,
    )
        requires
            old(nodes).wf(),
            old(links).wf(),
        ensures
            final(self).configured_as(old(self)),
            final(nodes).wf(),
            final(links).wf(),
            stepped(
                old(self).settings(),
                (World {
                    nodes: old(nodes)@,
                    links: old(links)@,
                    broken: old(self).broken_links@,
                }),
                (World {
                    nodes: final(nodes)@,
                    links: final(links)@,
                    broken: final(self).broken_links@,
                }),
            ),
            final(nodes).index@ == old(nodes).index@,
            final(nodes).mass@ == old(nodes).mass@,
            final(nodes).inv_mass@ == old(nodes).inv_mass@,
            broke(old(links).index@, final(links).index@, final(self).broken_links@),
            final(links).keeps_links_of(old(links)),
            !old(self).allow_breaking ==> final(self).broken_links@.len() == 0,
            old(self).substeps == 0 ==> final(self).broken_links@.len() == 0,
            old(self).substeps > 0 ==> final(nodes).current_pos@ == final(nodes).predicted_pos@,
            old(self).substeps == 0 ==> final(nodes).current_pos@ == old(nodes).current_pos@
                && final(nodes).predicted_pos@ == old(nodes).predicted_pos@ && final(nodes).forces@
                == old(nodes).forces@ && final(links).same_columns(old(links)),
    {
        self.broken_links.clear();
        proof {
            lemma_broke_nothing(links.index@);
        }
        let ghost cfg = self.settings();
        let ghost start = World { nodes: nodes@, links: links@, broken: Seq::<u32>::empty() };
        let ghost mut trace: Seq<World<S, V>> = seq![start];
        let mut round: u32 = 0;
        while round < self.substeps
            invariant
                round <= self.substeps,
                self.configured_as(old(self)),
                cfg == self.settings(),
                cfg == old(self).settings(),
                nodes.wf(),
                nodes.index@ == old(nodes).index@,
                nodes.mass@ == old(nodes).mass@,
                nodes.inv_mass@ == old(nodes).inv_mass@,
                links.wf(),
                old(links).wf(),
                broke(old(links).index@, links.index@, self.broken_links@),
                links.keeps_links_of(old(links)),
                !self.allow_breaking ==> self.broken_links@.len() == 0,
                round == 0 ==> self.broken_links@.len() == 0,
                round > 0 ==> nodes.current_pos@ == nodes.predicted_pos@,
                round == 0 ==> nodes.current_pos@ == old(nodes).current_pos@
                    && nodes.predicted_pos@ == old(nodes).predicted_pos@ && nodes.forces@ == old(
                    nodes,
                ).forces@ && links.same_columns(old(links)),
                trace.len() == round + 1,
                trace[0] == start,
                start == (World {
                    nodes: old(nodes)@,
                    links: old(links)@,
                    broken: Seq::<u32>::empty(),
                }),
                trace[round as int] == (World {
                    nodes: nodes@,
                    links: links@,
                    broken: self.broken_links@,
                }),
                forall|k: int| 0 <= k < round ==> substepped(cfg, #[trigger] trace[k], trace[k + 1]),
            decreases self.substeps - round,
        {
            let ghost before_links = *links;
            let ghost before_broken = self.broken_links@;
            let ghost before = World { nodes: nodes@, links: links@, broken: self.broken_links@ };
            self.substep(nodes, links);
            proof {
                let fresh = self.broken_links@.subrange(
                    before_broken.len() as int,
                    self.broken_links@.len() as int,
                );
                assert(self.broken_links@ =~= before_broken + fresh);
                lemma_broke_then(
                    old(links).index@,
                    before_links.index@,
                    links.index@,
                    before_broken,
                    fresh,
                );
                let now = World { nodes: nodes@, links: links@, broken: self.broken_links@ };
                let earlier = trace;
                trace = trace.push(now);
                assert forall|k: int| 0 <= k < round + 1 implies substepped(
                    cfg,
                    #[trigger] trace[k],
                    trace[k + 1],
                ) by {
                    if k < round {
                        assert(trace[k] == earlier[k]);
                        assert(trace[k + 1] == earlier[k + 1]);
                    } else {
                        assert(trace[k] == before);
                        assert(trace[k + 1] == now);
                    }
                }
            }
            round += 1;
        }
        proof {
            assert(step_trace(cfg, trace));
        }
        let damping: S = S::ratio(DAMPING_NUM, DAMPING_DEN);
        let count: usize = nodes.len();
        let ghost moved = *nodes;
        let mut i: usize = 0;
        while i < count
            invariant
                i <= count,
                count == nodes.index@.handles.len(),
                moved.wf(),
                nodes.wf(),
                ratio_of(DAMPING_NUM, DAMPING_DEN, damping),
                nodes.index@ == moved.index@,
                nodes.mass@ == moved.mass@,
                nodes.inv_mass@ == moved.inv_mass@,
                nodes.current_pos@ == moved.current_pos@,
                nodes.predicted_pos@ == moved.predicted_pos@,
                nodes.forces@ == moved.forces@,
                forall|k: int|
                    0 <= k < i ==> vscaled::<S, V>(
                        moved.velocity@[k],
                        damping,
                        #[trigger] nodes.velocity@[k],
                    ),
                forall|k: int|
                    i <= k < count ==> #[trigger] nodes.velocity@[k] == moved.velocity@[k],
            decreases count - i,
        {
            let v: V = nodes.velocity[i];
            nodes.velocity[i] = v.scaled(damping);
            i += 1;
        }
        proof {
            assert(damped(moved@, nodes@));
        }
    }

    /// One substep, as [`substepped`] says.
    fn substep<V: Vector<S>>(
        &mut self,
        nodes: &mut NodesRowTable<S, V>,
        links: &mut LinksRowTable<S>,
    )
        requires
            old(nodes).wf(),
            old(links).wf(),
        ensures
            final(self).configured_as(old(self)),
            final(nodes).wf(),
            final(links).wf(),
            substepped(
                old(self).settings(),
                (World {
                    nodes: old(nodes)@,
                    links: old(links)@,
                    broken: old(self).broken_links@,
                }),
                (World {
                    nodes: final(nodes)@,
                    links: final(links)@,
                    broken: final(self).broken_links@,
                }),
            ),
            final(nodes).index@ == old(nodes).index@,
            final(nodes).mass@ == old(nodes).mass@,
            final(nodes).inv_mass@ == old(nodes).inv_mass@,
            old(self).broken_links@.len() <= final(self).broken_links@.len(),
            final(self).broken_links@.subrange(0, old(self).broken_links@.len() as int) == old(
                self,
            ).broken_links@,
            broke(
                old(links).index@,
                final(links).index@,
                final(self).broken_links@.subrange(
                    old(self).broken_links@.len() as int,
                    final(self).broken_links@.len() as int,
                ),
            ),
            final(links).keeps_links_of(old(links)),
            !old(self).allow_breaking ==> final(self).broken_links@ == old(self).broken_links@,
            final(nodes).current_pos@ == final(nodes).predicted_pos@,
    {
        let ghost cfg = self.settings();
        self.predict_positions(nodes);
        let ghost moved = nodes@;
        match self.ground_level {
            Some(level) => {
                self.apply_ground_constraint(level, nodes);
            },
            None => {},
        }
        let ghost landed = nodes@;
        proof {
            assert(landed_all(cfg.ground_level, moved, landed));
        }
        reset_lambda(links);
        let ghost start = links.lambda@;
        proof {
            assert(links@ == old(links)@.with_lambda(start));
        }
        self.relax(nodes, links);
        let ghost end = Relaxing { predicted_pos: nodes.predicted_pos@, lambda: links.lambda@ };
        let ghost strung = links@;
        proof {
            assert(relaxed_from(cfg.h2, landed, old(links)@, cfg.iterations as int, start, end));
            assert(strung == old(links)@.with_lambda(end.lambda));
        }
        if self.allow_breaking {
            self.break_strained(links);
        } else {
            proof {
                lemma_broke_nothing(links.index@);
                assert(self.broken_links@.subrange(
                    old(self).broken_links@.len() as int,
                    self.broken_links@.len() as int,
                ) =~= Seq::<u32>::empty());
                assert(self.broken_links@.subrange(0, old(self).broken_links@.len() as int)
                    =~= old(self).broken_links@);
            }
        }
        proof {
            assert(broken_in(
                cfg.allow_breaking,
                cfg.h2,
                strung,
                old(self).broken_links@,
                links@,
                self.broken_links@,
            ));
        }
        self.finalise_nodes(nodes);
        proof {
            let before = World {
                nodes: old(nodes)@,
                links: old(links)@,
                broken: old(self).broken_links@,
            };
            let after = World { nodes: nodes@, links: links@, broken: self.broken_links@ };
            assert(settled(cfg.h, landed, end, after.nodes));
            assert(predicted_all(cfg.h, cfg.h2, before.nodes, moved));
            assert(landed_all(cfg.ground_level, moved, landed));
            assert(zeroed(start));
            assert(start.len() == before.links.lambda.len());
            assert(relaxed_from(cfg.h2, landed, before.links, cfg.iterations as int, start, end));
            assert(broken_in(
                cfg.allow_breaking,
                cfg.h2,
                before.links.with_lambda(end.lambda),
                before.broken,
                after.links,
                after.broken,
            ));
            assert(substepped(cfg, before, after));
        }
    }

    /// Appends to `broken_links` the handle of every link whose multiplier
    /// over the squared substep time is at or past a threshold, in dense
    /// order, and frees those links in that order. The degenerate row is not
    /// a link and is never reported.
    fn break_strained(&mut self, links: &mut LinksRowTable<S>)
        requires
            old(links).wf(),
        ensures
            final(self).configured_as(old(self)),
            final(links).wf(),
            old(self).broken_links@.len() <= final(self).broken_links@.len(),
            final(self).broken_links@.subrange(0, old(self).broken_links@.len() as int) == old(
                self,
            ).broken_links@,
            broke(
                old(links).index@,
                final(links).index@,
                final(self).broken_links@.subrange(
                    old(self).broken_links@.len() as int,
                    final(self).broken_links@.len() as int,
                ),
            ),
            final(links).keeps_links_of(old(links)),
            broken_off(
                old(self).h2,
                old(links)@,
                final(self).broken_links@.subrange(
                    old(self).broken_links@.len() as int,
                    final(self).broken_links@.len() as int,
                ),
                final(links)@,
            ),
    {
        let tensile: S = S::from_i32(LAMBDA_STRAIN_THRESHOLD);
        let compressive: S = S::from_i32(LAMBDA_COMPRESSION_THRESHOLD);
        let start: usize = self.broken_links.len();
        let count: usize = links.len();
        let ghost base = links.index@;
        let ghost mut flags: Seq<bool> = seq![false];
        let mut i: usize = 1;
        while i < count
            invariant
                1 <= i <= count || count < 1,
                count == links.index@.handles.len(),
                start == old(self).broken_links@.len(),
                self.configured_as(old(self)),
                links.wf(),
                *links == *old(links),
                base == links.index@,
                start <= self.broken_links@.len(),
                self.broken_links@.subrange(0, start as int) == old(self).broken_links@,
                forall|k: int|
                    start <= k < self.broken_links@.len() ==> owns_row_below(
                        base.handles,
                        i as int,
                        #[trigger] self.broken_links@[k],
                    ),
                forall|j: int, k: int|
                    start <= j < k < self.broken_links@.len() ==> self.broken_links@[j]
                        != self.broken_links@[k],
                forall|k: int, r: int|
                    start <= k < self.broken_links@.len() && i <= r < count ==> (
                    #[trigger] self.broken_links@[k]) != #[trigger] base.handles[r],
                real_of_i32(LAMBDA_STRAIN_THRESHOLD, tensile),
                real_of_i32(LAMBDA_COMPRESSION_THRESHOLD, compressive),
                flags.len() == i,
                forall|k: int|
                    1 <= k < i ==> strained(
                        self.h2,
                        tensile,
                        compressive,
                        links.lambda@[k],
                        #[trigger] flags[k],
                    ),
                self.broken_links@ == old(self).broken_links@ + picked(
                    base.handles,
                    flags,
                    i as int,
                ),
            decreases count - i,
        {
            let torn: bool = breaks(self.h2, tensile, compressive, links.lambda[i]);
            proof {
                let earlier = flags;
                flags = flags.push(torn);
                lemma_picked_prefix(base.handles, earlier, flags, i as int);
            }
            if torn {
                let h: u32 = links.index.handles()[i];
                let ghost listed = self.broken_links@;
                self.broken_links.push(h);
                proof {
                    assert(self.broken_links@.subrange(0, start as int) =~= listed.subrange(
                        0,
                        start as int,
                    ));
                    assert forall|k: int| start <= k < self.broken_links@.len() implies owns_row_below(
                        base.handles,
                        i + 1,
                        #[trigger] self.broken_links@[k],
                    ) by {
                        if k < listed.len() {
                            assert(owns_row_below(base.handles, i as int, listed[k]));
                            let r = choose|r: int|
                                1 <= r < i && #[trigger] base.handles[r] == listed[k];
                            assert(base.handles[r] == self.broken_links@[k]);
                        } else {
                            assert(base.handles[i as int] == self.broken_links@[k]);
                        }
                    }
                    assert forall|k: int, r: int|
                        start <= k < self.broken_links@.len() && i + 1 <= r < count implies (
                    #[trigger] self.broken_links@[k]) != #[trigger] base.handles[r] by {
                        if k == listed.len() {
                            assert(base.slots[base.handles[r] as int] == r);
                            assert(base.slots[base.handles[i as int] as int] == i);
                        }
                    }
                }
            }
            i += 1;
        }
        let end: usize = self.broken_links.len();
        let ghost gone = picked(base.handles, flags, count as int);
        proof {
            assert(count >= 1);
            assert(self.broken_links@.subrange(start as int, end as int) =~= gone);
            assert(strained_all(self.h2, links.lambda@, flags));
            lemma_broke_nothing(base);
            assert(self.broken_links@.subrange(start as int, start as int) =~= Seq::<u32>::empty());
            assert forall|k: int| start <= k < end implies self.broken_links@[k] != 0
                && base.live(#[trigger] self.broken_links@[k]) by {
                assert(owns_row_below(base.handles, count as int, self.broken_links@[k]));
                let r = choose|r: int|
                    1 <= r < count && #[trigger] base.handles[r] == self.broken_links@[k];
                assert(base.slots[base.handles[r] as int] == r);
            }
        }
        let mut k: usize = start;
        while k < end
            invariant
                start <= k <= end,
                end == self.broken_links@.len(),
                start == old(self).broken_links@.len(),
                self.configured_as(old(self)),
                self.broken_links@.subrange(0, start as int) == old(self).broken_links@,
                links.wf(),
                old(links).wf(),
                base == old(links).index@,
                broke(base, links.index@, self.broken_links@.subrange(start as int, k as int)),
                links.keeps_links_of(old(links)),
                links@ == old(links)@.freed_all(
                    self.broken_links@.subrange(start as int, k as int),
                ),
                self.broken_links@.subrange(start as int, end as int) == gone,
                gone == picked(base.handles, flags, base.handles.len() as int),
                strained_all(self.h2, old(links)@.lambda, flags),
                forall|j: int|
                    k <= j < end ==> self.broken_links@[j] != 0 && links.index@.live(
                        #[trigger] self.broken_links@[j],
                    ),
                forall|i: int, j: int|
                    start <= i < j < end ==> self.broken_links@[i] != self.broken_links@[j],
            decreases end - k,
        {
            let h: u32 = self.broken_links[k];
            let ghost now = *links;
            proof {
                lemma_broke_push(
                    base,
                    links.index@,
                    self.broken_links@.subrange(start as int, k as int),
                    h,
                );
                assert(self.broken_links@.subrange(start as int, k as int).push(h)
                    =~= self.broken_links@.subrange(start as int, k + 1));
                assert(self.broken_links@.subrange(start as int, k + 1).drop_last()
                    =~= self.broken_links@.subrange(start as int, k as int));
                lemma_freed(links.index@, h);
            }
            links.free(h);
            proof {
                assert forall|j: int| k + 1 <= j < end implies self.broken_links@[j] != 0
                    && links.index@.live(#[trigger] self.broken_links@[j]) by {
                    assert(self.broken_links@[j] != h);
                    assert(now.index@.live(self.broken_links@[j]));
                }
                assert(links.keeps_links_of(&now));
                assert(now.keeps_links_of(old(links)));
            }
            k += 1;
        }
    }

    /// Moves every predicted position to where the node would be after one
    /// substep without constraints, and clears the forces.
    fn predict_positions<V: Vector<S>>(&self, nodes: &mut NodesRowTable<S, V>)
        requires
            old(nodes).wf(),
        ensures
            final(nodes).wf(),
            predicted_all(self.h, self.h2, old(nodes)@, final(nodes)@),
    {
        let rest: V = origin::<S, V>();
        let count: usize = nodes.len();
        let mut i: usize = 0;
        while i < count
            invariant
                i <= count,
                count == nodes.index@.handles.len(),
                old(nodes).wf(),
                nodes.wf(),
                is_origin::<S, V>(rest),
                nodes.index@ == old(nodes).index@,
                nodes.current_pos@ == old(nodes).current_pos@,
                nodes.mass@ == old(nodes).mass@,
                nodes.inv_mass@ == old(nodes).inv_mass@,
                nodes.velocity@ == old(nodes).velocity@,
                forall|k: int|
                    0 <= k < i ==> predicted(
                        self.h,
                        self.h2,
                        old(nodes).current_pos@[k],
                        old(nodes).velocity@[k],
                        old(nodes).forces@[k],
                        old(nodes).inv_mass@[k],
                        #[trigger] nodes.predicted_pos@[k],
                    ),
                forall|k: int| 0 <= k < i ==> #[trigger] nodes.forces@[k] == rest,
                forall|k: int|
                    i <= k < count ==> #[trigger] nodes.forces@[k] == old(nodes).forces@[k],
            decreases count - i,
        {
            let x: V = nodes.current_pos[i];
            let f: V = nodes.forces[i];
            nodes.forces[i] = rest;
            let v: V = nodes.velocity[i];
            let w: S = nodes.inv_mass[i];
            nodes.predicted_pos[i] = predict(self.h, self.h2, x, v, f, w);
            i += 1;
        }
    }

    /// Projects every link `iterations` times.
    fn relax<V: Vector<S>>(&self, nodes: &mut NodesRowTable<S, V>, links: &mut LinksRowTable<S>)
        requires
            old(nodes).wf(),
            old(links).wf(),
        ensures
            final(nodes).wf(),
            final(links).wf(),
            final(nodes)@ == (NodesModel {
                predicted_pos: final(nodes).predicted_pos@,
                ..old(nodes)@
            }),
            final(links)@ == old(links)@.with_lambda(final(links).lambda@),
            relaxed(
                self.h2,
                old(nodes).index@,
                old(nodes).inv_mass@,
                old(links)@,
                self.iterations as int,
                (Relaxing { predicted_pos: old(nodes).predicted_pos@, lambda: old(links).lambda@ }),
                (Relaxing {
                    predicted_pos: final(nodes).predicted_pos@,
                    lambda: final(links).lambda@,
                }),
            ),
    {
        let tolerance: S = S::ratio(1, TOLERANCE_DEN);
        let ghost start = Relaxing { predicted_pos: nodes.predicted_pos@, lambda: links.lambda@ };
        let ghost mut trace: Seq<Relaxing<S, V>> = seq![start];
        let mut pass: u32 = 0;
        while pass < self.iterations
            invariant
                pass <= self.iterations,
                ratio_of(1, TOLERANCE_DEN, tolerance),
                nodes.wf(),
                links.wf(),
                nodes@ == (NodesModel { predicted_pos: nodes.predicted_pos@, ..old(nodes)@ }),
                links@ == old(links)@.with_lambda(links.lambda@),
                trace.len() == pass + 1,
                trace[0] == start,
                start == (Relaxing {
                    predicted_pos: old(nodes).predicted_pos@,
                    lambda: old(links).lambda@,
                }),
                trace[pass as int] == (Relaxing {
                    predicted_pos: nodes.predicted_pos@,
                    lambda: links.lambda@,
                }),
                forall|k: int|
                    0 <= k < pass ==> passed(
                        self.h2,
                        tolerance,
                        old(nodes).index@,
                        old(nodes).inv_mass@,
                        old(links)@,
                        #[trigger] trace[k],
                        trace[k + 1],
                    ),
            decreases self.iterations - pass,
        {
            let ghost nodes_before = nodes@;
            let ghost links_before = links@;
            self.solve_constraints(tolerance, nodes, links);
            proof {
                let now = Relaxing { predicted_pos: nodes.predicted_pos@, lambda: links.lambda@ };
                let earlier = trace;
                trace = trace.push(now);
                assert(links_before.with_lambda(links.lambda@) == old(links)@.with_lambda(
                    links.lambda@,
                ));
                assert forall|k: int| 0 <= k < pass + 1 implies passed(
                    self.h2,
                    tolerance,
                    old(nodes).index@,
                    old(nodes).inv_mass@,
                    old(links)@,
                    #[trigger] trace[k],
                    trace[k + 1],
                ) by {
                    if k < pass {
                        assert(trace[k] == earlier[k]);
                        assert(trace[k + 1] == earlier[k + 1]);
                    } else {
                        assert(trace[k] == earlier[pass as int]);
                        assert(trace[k + 1] == now);
                        lemma_passed_static(
                            self.h2,
                            tolerance,
                            old(nodes).index@,
                            old(nodes).inv_mass@,
                            links_before,
                            old(links)@,
                            earlier[pass as int],
                            now,
                        );
                    }
                }
            }
            pass += 1;
        }
        proof {
            assert(relax_trace(
                self.h2,
                tolerance,
                old(nodes).index@,
                old(nodes).inv_mass@,
                old(links)@,
                self.iterations as int,
                trace,
            ));
        }
    }

    /// Projects every link once, in dense order: both ends move along the
    /// link, each by its share of the inverse mass, towards the rest
    /// length. A link shorter than the tolerance, or between two fixed
    /// nodes, is skipped.
    fn solve_constraints<V: Vector<S>>(
        &self,
        tolerance: S,
        nodes: &mut NodesRowTable<S, V>,
        links: &mut LinksRowTable<S>,
    )
        requires
            old(nodes).wf(),
            old(links).wf(),
        ensures
            final(nodes).wf(),
            final(links).wf(),
            final(nodes)@ == (NodesModel {
                predicted_pos: final(nodes).predicted_pos@,
                ..old(nodes)@
            }),
            final(links)@ == old(links)@.with_lambda(final(links).lambda@),
            passed(
                self.h2,
                tolerance,
                old(nodes).index@,
                old(nodes).inv_mass@,
                old(links)@,
                (Relaxing { predicted_pos: old(nodes).predicted_pos@, lambda: old(links).lambda@ }),
                (Relaxing {
                    predicted_pos: final(nodes).predicted_pos@,
                    lambda: final(links).lambda@,
                }),
            ),
    {
        let count: usize = links.len();
        let ghost start = Relaxing { predicted_pos: nodes.predicted_pos@, lambda: links.lambda@ };
        let ghost mut trace: Seq<Relaxing<S, V>> = seq![start];
        let mut j: usize = 0;
        while j < count
            invariant
                j <= count,
                count == links.index@.handles.len(),
                old(nodes).wf(),
                old(links).wf(),
                nodes.wf(),
                links.wf(),
                nodes@ == (NodesModel { predicted_pos: nodes.predicted_pos@, ..old(nodes)@ }),
                links@ == old(links)@.with_lambda(links.lambda@),
                trace.len() == j + 1,
                trace[0] == start,
                start == (Relaxing {
                    predicted_pos: old(nodes).predicted_pos@,
                    lambda: old(links).lambda@,
                }),
                trace[j as int] == (Relaxing {
                    predicted_pos: nodes.predicted_pos@,
                    lambda: links.lambda@,
                }),
                forall|k: int|
                    0 <= k < j ==> pass_step(
                        self.h2,
                        tolerance,
                        old(nodes).index@,
                        old(nodes).inv_mass@,
                        old(links)@,
                        k,
                        #[trigger] trace[k],
                        trace[k + 1],
                    ),
            decreases count - j,
        {
            let ab: LinkNodes = links.relation[j];
            let i_a: usize = nodes.get_indirect_unchecked(ab.0) as usize;
            let i_b: usize = nodes.get_indirect_unchecked(ab.1) as usize;
            let ghost before = Relaxing { predicted_pos: nodes.predicted_pos@, lambda: links.lambda@ };
            let out: Option<Correction<S, V>> = project(
                self.h2,
                tolerance,
                nodes.inv_mass[i_a],
                nodes.inv_mass[i_b],
                nodes.predicted_pos[i_a],
                nodes.predicted_pos[i_b],
                links.compliance[j],
                links.rest_length[j],
                links.lambda[j],
            );
            let ghost outcome = out;
            match out {
                Some(correction) => {
                    links.lambda[j] = correction.lambda;
                    let moved_a: V = nodes.predicted_pos[i_a].plus(correction.push_a);
                    nodes.predicted_pos[i_a] = moved_a;
                    let moved_b: V = nodes.predicted_pos[i_b].minus(correction.push_b);
                    nodes.predicted_pos[i_b] = moved_b;
                    proof {
                        assert(pushed(
                            before.predicted_pos,
                            i_a as int,
                            i_b as int,
                            correction.push_a,
                            correction.push_b,
                            nodes.predicted_pos@,
                        ));
                    }
                },
                None => {},
            }
            proof {
                let now = Relaxing { predicted_pos: nodes.predicted_pos@, lambda: links.lambda@ };
                let earlier = trace;
                trace = trace.push(now);
                let a = old(nodes).index@.index_of(old(links)@.relation[j as int].0) as int;
                let b = old(nodes).index@.index_of(old(links)@.relation[j as int].1) as int;
                assert(a == i_a && b == i_b);
                assert(projected(
                    self.h2,
                    tolerance,
                    old(nodes).inv_mass@[a],
                    old(nodes).inv_mass@[b],
                    before.predicted_pos[a],
                    before.predicted_pos[b],
                    old(links)@.compliance[j as int],
                    old(links)@.rest_length[j as int],
                    before.lambda[j as int],
                    outcome,
                ));
                match outcome {
                    None => {
                        assert(now == before);
                    },
                    Some(correction) => {
                        assert(now.lambda == before.lambda.update(j as int, correction.lambda));
                        assert(pushed(
                            before.predicted_pos,
                            a,
                            b,
                            correction.push_a,
                            correction.push_b,
                            now.predicted_pos,
                        ));
                    },
                }
                assert(pass_step(
                    self.h2,
                    tolerance,
                    old(nodes).index@,
                    old(nodes).inv_mass@,
                    old(links)@,
                    j as int,
                    before,
                    now,
                ));
                assert forall|k: int| 0 <= k < j + 1 implies pass_step(
                    self.h2,
                    tolerance,
                    old(nodes).index@,
                    old(nodes).inv_mass@,
                    old(links)@,
                    k,
                    #[trigger] trace[k],
                    trace[k + 1],
                ) by {
                    if k < j {
                        assert(trace[k] == earlier[k]);
                        assert(trace[k + 1] == earlier[k + 1]);
                    } else {
                        assert(trace[k] == before);
                        assert(trace[k + 1] == now);
                    }
                }
            }
            j += 1;
        }
        proof {
            assert(pass_trace(
                self.h2,
                tolerance,
                old(nodes).index@,
                old(nodes).inv_mass@,
                old(links)@,
                trace,
            ));
        }
    }

    /// Lifts every node predicted below the ground at `level` onto it,
    /// reverses and shrinks its vertical velocity and shrinks its horizontal
    /// velocity.
    fn apply_ground_constraint<V: Vector<S>>(&self, level: S, nodes: &mut NodesRowTable<S, V>)
        requires
            old(nodes).wf(),
        ensures
            final(nodes).wf(),
            grounded_all(level, old(nodes)@, final(nodes)@),
    {
        let bounce: S = S::ratio(BOUNCE_TENTHS, 10);
        let friction: S = S::ratio(FRICTION_TENTHS, 10);
        let count: usize = nodes.len();
        let mut i: usize = 0;
        while i < count
            invariant
                i <= count,
                count == nodes.index@.handles.len(),
                old(nodes).wf(),
                nodes.wf(),
                ratio_of(BOUNCE_TENTHS, 10, bounce),
                ratio_of(FRICTION_TENTHS, 10, friction),
                nodes.index@ == old(nodes).index@,
                nodes.mass@ == old(nodes).mass@,
                nodes.inv_mass@ == old(nodes).inv_mass@,
                nodes.forces@ == old(nodes).forces@,
                forall|k: int|
                    0 <= k < i ==> grounded(
                        level,
                        bounce,
                        friction,
                        old(nodes).predicted_pos@[k],
                        old(nodes).current_pos@[k],
                        old(nodes).velocity@[k],
                        (Landing {
                            predicted: #[trigger] nodes.predicted_pos@[k],
                            current: nodes.current_pos@[k],
                            velocity: nodes.velocity@[k],
                        }),
                    ),
                forall|k: int|
                    i <= k < count ==> #[trigger] nodes.predicted_pos@[k] == old(
                        nodes,
                    ).predicted_pos@[k],
                forall|k: int|
                    i <= k < count ==> #[trigger] nodes.current_pos@[k] == old(
                        nodes,
                    ).current_pos@[k],
                forall|k: int|
                    i <= k < count ==> #[trigger] nodes.velocity@[k] == old(nodes).velocity@[k],
            decreases count - i,
        {
            let landing: Landing<V> = ground(
                level,
                bounce,
                friction,
                nodes.predicted_pos[i],
                nodes.current_pos[i],
                nodes.velocity[i],
            );
            nodes.predicted_pos[i] = landing.predicted;
            nodes.current_pos[i] = landing.current;
            nodes.velocity[i] = landing.velocity;
            i += 1;
        }
    }

    /// Derives every velocity from the distance moved in this substep and
    /// makes the predicted positions current.
    fn finalise_nodes<V: Vector<S>>(&self, nodes: &mut NodesRowTable<S, V>)
        requires
            old(nodes).wf(),
        ensures
            final(nodes).wf(),
            finalised(self.h, old(nodes)@, final(nodes)@),
    {
        let count: usize = nodes.len();
        let mut i: usize = 0;
        while i < count
            invariant
                i <= count,
                count == nodes.index@.handles.len(),
                old(nodes).wf(),
                nodes.wf(),
                nodes.index@ == old(nodes).index@,
                nodes.mass@ == old(nodes).mass@,
                nodes.inv_mass@ == old(nodes).inv_mass@,
                nodes.forces@ == old(nodes).forces@,
                nodes.predicted_pos@ == old(nodes).predicted_pos@,
                forall|k: int|
                    0 <= k < i ==> #[trigger] nodes.current_pos@[k] == nodes.predicted_pos@[k],
                forall|k: int|
                    i <= k < count ==> #[trigger] nodes.current_pos@[k] == old(
                        nodes,
                    ).current_pos@[k],
                forall|k: int|
                    0 <= k < i ==> derived(
                        self.h,
                        old(nodes).predicted_pos@[k],
                        old(nodes).current_pos@[k],
                        #[trigger] nodes.velocity@[k],
                    ),
            decreases count - i,
        {
            let p: V = nodes.predicted_pos[i];
            let x: V = nodes.current_pos[i];
            nodes.velocity[i] = derive_velocity(self.h, p, x);
            nodes.current_pos[i] = p;
            i += 1;
        }
        assert(nodes.current_pos@ =~= nodes.predicted_pos@);
    }
}

/// Sets the multiplier of every link to zero.
fn reset_lambda<S: Scalar>(links: &mut LinksRowTable<S>)
    requires
        old(links).wf(),
    ensures
        final(links).wf(),
        final(links).index@ == old(links).index@,
        final(links).relation@ == old(links).relation@,
        final(links).compliance@ == old(links).compliance@,
        final(links).rest_length@ == old(links).rest_length@,
        zeroed(final(links).lambda@),
{
    let none: S = zero::<S>();
    let count: usize = links.len();
    let mut j: usize = 0;
    while j < count
        invariant
            j <= count,
            count == links.index@.handles.len(),
            links.wf(),
            links.index@ == old(links).index@,
            links.relation@ == old(links).relation@,
            links.compliance@ == old(links).compliance@,
            links.rest_length@ == old(links).rest_length@,
            forall|k: int| 0 <= k < j ==> #[trigger] links.lambda@[k] == none,
        decreases count - j,
    {
        links.lambda[j] = none;
        j += 1;
    }
}

} // verus!
