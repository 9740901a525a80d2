//! Determinism of a step.
//!
//! Nothing in this crate fixes what an operation on reals yields. But where
//! every operation is a function, so that the same arguments always yield
//! the same result, a step is a function too: the same lattice under the
//! same settings ends up in the same state, to the last bit.

use vstd::prelude::*;
use crate::motion::{
    Correction,
    Landing,
    derived,
    grounded,
    predicted,
    projected,
    strained,
};
use crate::slots::{SlotModel, lemma_freed};
use crate::solver::{
    Relaxing,
    Settings,
    World,
    broken_in,
    broken_off,
    damped,
    finalised,
    landed_all,
    lemma_picked_prefix,
    pass_step,
    pass_trace,
    passed,
    picked,
    predicted_all,
    pushed,
    relax_trace,
    relaxed,
    relaxed_from,
    settled,
    step_trace,
    stepped,
    strained_all,
    substepped,
    zeroed,
};
use crate::xpbd::{LinksModel, NodesModel};
use crate::numeric::{
    Scalar,
    Vector,
    absolute_of,
    bits_of,
    difference,
    distance_squared_of,
    dot_of,
    floor_of,
    integer_of,
    is_at_most,
    is_equal,
    is_less,
    is_normal_of,
    is_origin,
    is_zero,
    length_of,
    maximum_of,
    negation,
    normalized_of,
    product,
    quotient,
    ratio_of,
    real_of_i32,
    real_of_u32,
    sum,
    vdifference,
    vdivided,
    vector_of,
    vnegation,
    vscaled,
    vsum,
    x_of,
    y_of,
    z_of,
};

verus! {

/// Every operation on scalars is a function of its arguments.
pub open spec fn scalars_are_functions<S: Scalar>() -> bool {
    &&& forall|n: i32, d: i32, r: S, s: S|
        #![trigger ratio_of(n, d, r), ratio_of(n, d, s)]
        ratio_of(n, d, r) && ratio_of(n, d, s) ==> r == s
    &&& forall|n: u32, r: S, s: S|
        #![trigger real_of_u32(n, r), real_of_u32(n, s)]
        real_of_u32(n, r) && real_of_u32(n, s) ==> r == s
    &&& forall|n: i32, r: S, s: S|
        #![trigger real_of_i32(n, r), real_of_i32(n, s)]
        real_of_i32(n, r) && real_of_i32(n, s) ==> r == s
    &&& forall|a: S, r: i32, s: i32|
        #![trigger integer_of(a, r), integer_of(a, s)]
        integer_of(a, r) && integer_of(a, s) ==> r == s
    &&& forall|a: S, r: S, s: S|
        #![trigger floor_of(a, r), floor_of(a, s)]
        floor_of(a, r) && floor_of(a, s) ==> r == s
    &&& forall|a: S, b: S, r: S, s: S|
        #![trigger sum(a, b, r), sum(a, b, s)]
        sum(a, b, r) && sum(a, b, s) ==> r == s
    &&& forall|a: S, b: S, r: S, s: S|
        #![trigger difference(a, b, r), difference(a, b, s)]
        difference(a, b, r) && difference(a, b, s) ==> r == s
    &&& forall|a: S, b: S, r: S, s: S|
        #![trigger product(a, b, r), product(a, b, s)]
        product(a, b, r) && product(a, b, s) ==> r == s
    &&& forall|a: S, b: S, r: S, s: S|
        #![trigger quotient(a, b, r), quotient(a, b, s)]
        quotient(a, b, r) && quotient(a, b, s) ==> r == s
    &&& forall|a: S, r: S, s: S|
        #![trigger negation(a, r), negation(a, s)]
        negation(a, r) && negation(a, s) ==> r == s
    &&& forall|a: S, b: S, r: bool, s: bool|
        #![trigger is_less(a, b, r), is_less(a, b, s)]
        is_less(a, b, r) && is_less(a, b, s) ==> r == s
    &&& forall|a: S, b: S, r: bool, s: bool|
        #![trigger is_at_most(a, b, r), is_at_most(a, b, s)]
        is_at_most(a, b, r) && is_at_most(a, b, s) ==> r == s
    &&& forall|a: S, b: S, r: bool, s: bool|
        #![trigger is_equal(a, b, r), is_equal(a, b, s)]
        is_equal(a, b, r) && is_equal(a, b, s) ==> r == s
    &&& forall|a: S, r: S, s: S|
        #![trigger absolute_of(a, r), absolute_of(a, s)]
        absolute_of(a, r) && absolute_of(a, s) ==> r == s
    &&& forall|a: S, b: S, r: S, s: S|
        #![trigger maximum_of(a, b, r), maximum_of(a, b, s)]
        maximum_of(a, b, r) && maximum_of(a, b, s) ==> r == s
    &&& forall|a: S, r: bool, s: bool|
        #![trigger is_normal_of(a, r), is_normal_of(a, s)]
        is_normal_of(a, r) && is_normal_of(a, s) ==> r == s
    &&& forall|a: S, r: u32, s: u32|
        #![trigger bits_of(a, r), bits_of(a, s)]
        bits_of(a, r) && bits_of(a, s) ==> r == s
}

/// Every operation on vectors is a function of its arguments.
pub open spec fn vectors_are_functions<S: Scalar, V: Vector<S>>() -> bool {
    &&& forall|x: S, y: S, z: S, r: V, s: V|
        #![trigger vector_of::<S, V>(x, y, z, r), vector_of::<S, V>(x, y, z, s)]
        vector_of::<S, V>(x, y, z, r) && vector_of::<S, V>(x, y, z, s) ==> r == s
    &&& forall|a: V, r: S, s: S|
        #![trigger x_of::<S, V>(a, r), x_of::<S, V>(a, s)]
        x_of::<S, V>(a, r) && x_of::<S, V>(a, s) ==> r == s
    &&& forall|a: V, r: S, s: S|
        #![trigger y_of::<S, V>(a, r), y_of::<S, V>(a, s)]
        y_of::<S, V>(a, r) && y_of::<S, V>(a, s) ==> r == s
    &&& forall|a: V, r: S, s: S|
        #![trigger z_of::<S, V>(a, r), z_of::<S, V>(a, s)]
        z_of::<S, V>(a, r) && z_of::<S, V>(a, s) ==> r == s
    &&& forall|a: V, b: V, r: V, s: V|
        #![trigger vsum::<S, V>(a, b, r), vsum::<S, V>(a, b, s)]
        vsum::<S, V>(a, b, r) && vsum::<S, V>(a, b, s) ==> r == s
    &&& forall|a: V, b: V, r: V, s: V|
        #![trigger vdifference::<S, V>(a, b, r), vdifference::<S, V>(a, b, s)]
        vdifference::<S, V>(a, b, r) && vdifference::<S, V>(a, b, s) ==> r == s
    &&& forall|a: V, k: S, r: V, s: V|
        #![trigger vscaled::<S, V>(a, k, r), vscaled::<S, V>(a, k, s)]
        vscaled::<S, V>(a, k, r) && vscaled::<S, V>(a, k, s) ==> r == s
    &&& forall|a: V, k: S, r: V, s: V|
        #![trigger vdivided::<S, V>(a, k, r), vdivided::<S, V>(a, k, s)]
        vdivided::<S, V>(a, k, r) && vdivided::<S, V>(a, k, s) ==> r == s
    &&& forall|a: V, r: S, s: S|
        #![trigger length_of::<S, V>(a, r), length_of::<S, V>(a, s)]
        length_of::<S, V>(a, r) && length_of::<S, V>(a, s) ==> r == s
    &&& forall|a: V, b: V, r: S, s: S|
        #![trigger distance_squared_of::<S, V>(a, b, r), distance_squared_of::<S, V>(a, b, s)]
        distance_squared_of::<S, V>(a, b, r) && distance_squared_of::<S, V>(a, b, s) ==> r == s
    &&& forall|a: V, b: V, r: S, s: S|
        #![trigger dot_of::<S, V>(a, b, r), dot_of::<S, V>(a, b, s)]
        dot_of::<S, V>(a, b, r) && dot_of::<S, V>(a, b, s) ==> r == s
    &&& forall|a: V, r: V, s: V|
        #![trigger normalized_of::<S, V>(a, r), normalized_of::<S, V>(a, s)]
        normalized_of::<S, V>(a, r) && normalized_of::<S, V>(a, s) ==> r == s
    &&& forall|a: V, r: V, s: V|
        #![trigger vnegation::<S, V>(a, r), vnegation::<S, V>(a, s)]
        vnegation::<S, V>(a, r) && vnegation::<S, V>(a, s) ==> r == s
}

/// Every operation on scalars and vectors is a function of its arguments.
pub open spec fn arithmetic_is_a_function<S: Scalar, V: Vector<S>>() -> bool {
    scalars_are_functions::<S>() && vectors_are_functions::<S, V>()
}

/// There is one zero.
pub proof fn lemma_one_zero<S: Scalar>(a: S, b: S)
    requires
        scalars_are_functions::<S>(),
        is_zero(a),
        is_zero(b),
    ensures
        a == b,
{
}

/// There is one origin.
pub proof fn lemma_one_origin<S: Scalar, V: Vector<S>>(a: V, b: V)
    requires
        arithmetic_is_a_function::<S, V>(),
        is_origin::<S, V>(a),
        is_origin::<S, V>(b),
    ensures
        a == b,
{
}

/// A node is predicted at one place.
pub proof fn lemma_predicted<S: Scalar, V: Vector<S>>(h: S, h2: S, x: V, v: V, f: V, w: S, p: V, q: V)
    requires
        arithmetic_is_a_function::<S, V>(),
        predicted(h, h2, x, v, f, w, p),
        predicted(h, h2, x, v, f, w, q),
    ensures
        p == q,
{
}

/// The ground leaves a node in one state.
pub proof fn lemma_grounded<S: Scalar, V: Vector<S>>(
    level: S,
    bounce: S,
    friction: S,
    p: V,
    x: V,
    v: V,
    a: Landing<V>,
    b: Landing<V>,
)
    requires
        arithmetic_is_a_function::<S, V>(),
        grounded(level, bounce, friction, p, x, v, a),
        grounded(level, bounce, friction, p, x, v, b),
    ensures
        a == b,
{
}

/// A link is projected in one way.
pub proof fn lemma_projected<S: Scalar, V: Vector<S>>(
    h2: S,
    tolerance: S,
    w_a: S,
    w_b: S,
    p_a: V,
    p_b: V,
    inv_stiffness: S,
    rest: S,
    y: S,
    a: Option<Correction<S, V>>,
    b: Option<Correction<S, V>>,
)
    requires
        arithmetic_is_a_function::<S, V>(),
        projected(h2, tolerance, w_a, w_b, p_a, p_b, inv_stiffness, rest, y, a),
        projected(h2, tolerance, w_a, w_b, p_a, p_b, inv_stiffness, rest, y, b),
    ensures
        a == b,
{
}

/// A link breaks or it does not.
pub proof fn lemma_strained<S: Scalar>(h2: S, tensile: S, compressive: S, lambda: S, a: bool, b: bool)
    requires
        scalars_are_functions::<S>(),
        strained(h2, tensile, compressive, lambda, a),
        strained(h2, tensile, compressive, lambda, b),
    ensures
        a == b,
{
}

/// A node leaves a substep with one velocity.
pub proof fn lemma_derived<S: Scalar, V: Vector<S>>(h: S, p: V, x: V, a: V, b: V)
    requires
        arithmetic_is_a_function::<S, V>(),
        derived(h, p, x, a),
        derived(h, p, x, b),
    ensures
        a == b,
{
}

/// The nodes are predicted in one way.
pub proof fn lemma_predicted_all<S: Scalar, V: Vector<S>>(
    h: S,
    h2: S,
    before: NodesModel<S, V>,
    a: NodesModel<S, V>,
    b: NodesModel<S, V>,
)
    requires
        arithmetic_is_a_function::<S, V>(),
        predicted_all(h, h2, before, a),
        predicted_all(h, h2, before, b),
    ensures
        a == b,
{
    assert forall|i: int| 0 <= i < a.predicted_pos.len() implies a.predicted_pos[i]
        == b.predicted_pos[i] by {
        lemma_predicted(
            h,
            h2,
            before.current_pos[i],
            before.velocity[i],
            before.forces[i],
            before.inv_mass[i],
            a.predicted_pos[i],
            b.predicted_pos[i],
        );
    }
    assert(a.predicted_pos =~= b.predicted_pos);
    let rest_a = choose|rest: V|
        #![trigger is_origin::<S, V>(rest)]
        is_origin::<S, V>(rest) && forall|i: int|
            0 <= i < a.forces.len() ==> #[trigger] a.forces[i] == rest;
    let rest_b = choose|rest: V|
        #![trigger is_origin::<S, V>(rest)]
        is_origin::<S, V>(rest) && forall|i: int|
            0 <= i < b.forces.len() ==> #[trigger] b.forces[i] == rest;
    lemma_one_origin::<S, V>(rest_a, rest_b);
    assert(a.forces =~= b.forces);
}

/// The ground leaves the nodes in one state.
pub proof fn lemma_landed_all<S: Scalar, V: Vector<S>>(
    level: Option<S>,
    before: NodesModel<S, V>,
    a: NodesModel<S, V>,
    b: NodesModel<S, V>,
)
    requires
        arithmetic_is_a_function::<S, V>(),
        before.current_pos.len() == before.predicted_pos.len(),
        before.velocity.len() == before.predicted_pos.len(),
        landed_all(level, before, a),
        landed_all(level, before, b),
    ensures
        a == b,
{
    match level {
        Some(level) => {
            let (bounce_a, friction_a) = choose|bounce: S, friction: S|
                #![trigger ratio_of(crate::solver::BOUNCE_TENTHS, 10, bounce), ratio_of(crate::solver::FRICTION_TENTHS, 10, friction)]
                ratio_of(crate::solver::BOUNCE_TENTHS, 10, bounce) && ratio_of(
                    crate::solver::FRICTION_TENTHS,
                    10,
                    friction,
                ) && forall|i: int|
                    0 <= i < a.predicted_pos.len() ==> grounded(
                        level,
                        bounce,
                        friction,
                        before.predicted_pos[i],
                        before.current_pos[i],
                        before.velocity[i],
                        (Landing {
                            predicted: #[trigger] a.predicted_pos[i],
                            current: a.current_pos[i],
                            velocity: a.velocity[i],
                        }),
                    );
            let (bounce_b, friction_b) = choose|bounce: S, friction: S|
                #![trigger ratio_of(crate::solver::BOUNCE_TENTHS, 10, bounce), ratio_of(crate::solver::FRICTION_TENTHS, 10, friction)]
                ratio_of(crate::solver::BOUNCE_TENTHS, 10, bounce) && ratio_of(
                    crate::solver::FRICTION_TENTHS,
                    10,
                    friction,
                ) && forall|i: int|
                    0 <= i < b.predicted_pos.len() ==> grounded(
                        level,
                        bounce,
                        friction,
                        before.predicted_pos[i],
                        before.current_pos[i],
                        before.velocity[i],
                        (Landing {
                            predicted: #[trigger] b.predicted_pos[i],
                            current: b.current_pos[i],
                            velocity: b.velocity[i],
                        }),
                    );
            assert(bounce_a == bounce_b && friction_a == friction_b);
            assert forall|i: int| 0 <= i < a.predicted_pos.len() implies a.predicted_pos[i]
                == b.predicted_pos[i] && a.current_pos[i] == b.current_pos[i] && a.velocity[i]
                == b.velocity[i] by {
                let la = Landing {
                    predicted: a.predicted_pos[i],
                    current: a.current_pos[i],
                    velocity: a.velocity[i],
                };
                let lb = Landing {
                    predicted: b.predicted_pos[i],
                    current: b.current_pos[i],
                    velocity: b.velocity[i],
                };
                lemma_grounded(
                    level,
                    bounce_a,
                    friction_a,
                    before.predicted_pos[i],
                    before.current_pos[i],
                    before.velocity[i],
                    la,
                    lb,
                );
            }
            assert(a.predicted_pos =~= b.predicted_pos);
            assert(a.current_pos =~= b.current_pos);
            assert(a.velocity =~= b.velocity);
        },
        None => {},
    }
}

/// Multipliers are zeroed in one way.
pub proof fn lemma_zeroed<S: Scalar>(a: Seq<S>, b: Seq<S>)
    requires
        scalars_are_functions::<S>(),
        zeroed(a),
        zeroed(b),
        a.len() == b.len(),
    ensures
        a == b,
{
    let none_a = choose|none: S|
        #![trigger is_zero(none)]
        is_zero(none) && forall|j: int| 0 <= j < a.len() ==> #[trigger] a[j] == none;
    let none_b = choose|none: S|
        #![trigger is_zero(none)]
        is_zero(none) && forall|j: int| 0 <= j < b.len() ==> #[trigger] b[j] == none;
    lemma_one_zero(none_a, none_b);
    assert(a =~= b);
}

/// The projection of one link leaves one state.
pub proof fn lemma_pass_step<S: Scalar, V: Vector<S>>(
    h2: S,
    tolerance: S,
    index: SlotModel,
    inv_mass: Seq<S>,
    links: LinksModel<S>,
    j: int,
    before: Relaxing<S, V>,
    a: Relaxing<S, V>,
    b: Relaxing<S, V>,
)
    requires
        arithmetic_is_a_function::<S, V>(),
        pass_step(h2, tolerance, index, inv_mass, links, j, before, a),
        pass_step(h2, tolerance, index, inv_mass, links, j, before, b),
    ensures
        a == b,
{
    let at_a = index.index_of(links.relation[j].0) as int;
    let at_b = index.index_of(links.relation[j].1) as int;
    let out_a = choose|out: Option<Correction<S, V>>|
        #![trigger projected(h2, tolerance, inv_mass[at_a], inv_mass[at_b], before.predicted_pos[at_a], before.predicted_pos[at_b], links.compliance[j], links.rest_length[j], before.lambda[j], out)]
        projected(
            h2,
            tolerance,
            inv_mass[at_a],
            inv_mass[at_b],
            before.predicted_pos[at_a],
            before.predicted_pos[at_b],
            links.compliance[j],
            links.rest_length[j],
            before.lambda[j],
            out,
        ) && match out {
            None => a == before,
            Some(correction) => a.lambda == before.lambda.update(j, correction.lambda) && pushed(
                before.predicted_pos,
                at_a,
                at_b,
                correction.push_a,
                correction.push_b,
                a.predicted_pos,
            ),
        };
    let out_b = choose|out: Option<Correction<S, V>>|
        #![trigger projected(h2, tolerance, inv_mass[at_a], inv_mass[at_b], before.predicted_pos[at_a], before.predicted_pos[at_b], links.compliance[j], links.rest_length[j], before.lambda[j], out)]
        projected(
            h2,
            tolerance,
            inv_mass[at_a],
            inv_mass[at_b],
            before.predicted_pos[at_a],
            before.predicted_pos[at_b],
            links.compliance[j],
            links.rest_length[j],
            before.lambda[j],
            out,
        ) && match out {
            None => b == before,
            Some(correction) => b.lambda == before.lambda.update(j, correction.lambda) && pushed(
                before.predicted_pos,
                at_a,
                at_b,
                correction.push_a,
                correction.push_b,
                b.predicted_pos,
            ),
        };
    lemma_projected(
        h2,
        tolerance,
        inv_mass[at_a],
        inv_mass[at_b],
        before.predicted_pos[at_a],
        before.predicted_pos[at_b],
        links.compliance[j],
        links.rest_length[j],
        before.lambda[j],
        out_a,
        out_b,
    );
}

/// Two traces of one pass that start alike are alike up to any link.
pub proof fn lemma_pass_trace_upto<S: Scalar, V: Vector<S>>(
    h2: S,
    tolerance: S,
    index: SlotModel,
    inv_mass: Seq<S>,
    links: LinksModel<S>,
    a: Seq<Relaxing<S, V>>,
    b: Seq<Relaxing<S, V>>,
    j: int,
)
    requires
        arithmetic_is_a_function::<S, V>(),
        pass_trace(h2, tolerance, index, inv_mass, links, a),
        pass_trace(h2, tolerance, index, inv_mass, links, b),
        a[0] == b[0],
        0 <= j <= links.relation.len(),
    ensures
        a[j] == b[j],
    decreases j,
{
    if j > 0 {
        lemma_pass_trace_upto(h2, tolerance, index, inv_mass, links, a, b, j - 1);
        assert(pass_step(h2, tolerance, index, inv_mass, links, j - 1, a[j - 1], a[j - 1 + 1]));
        assert(pass_step(h2, tolerance, index, inv_mass, links, j - 1, b[j - 1], b[j - 1 + 1]));
        lemma_pass_step(h2, tolerance, index, inv_mass, links, j - 1, a[j - 1], a[j], b[j]);
    }
}

/// One pass over the links leaves one state.
pub proof fn lemma_passed<S: Scalar, V: Vector<S>>(
    h2: S,
    tolerance: S,
    index: SlotModel,
    inv_mass: Seq<S>,
    links: LinksModel<S>,
    before: Relaxing<S, V>,
    a: Relaxing<S, V>,
    b: Relaxing<S, V>,
)
    requires
        arithmetic_is_a_function::<S, V>(),
        passed(h2, tolerance, index, inv_mass, links, before, a),
        passed(h2, tolerance, index, inv_mass, links, before, b),
    ensures
        a == b,
{
    let trace_a = choose|trace: Seq<Relaxing<S, V>>|
        #![trigger pass_trace(h2, tolerance, index, inv_mass, links, trace)]
        pass_trace(h2, tolerance, index, inv_mass, links, trace) && trace[0] == before
            && trace.last() == a;
    let trace_b = choose|trace: Seq<Relaxing<S, V>>|
        #![trigger pass_trace(h2, tolerance, index, inv_mass, links, trace)]
        pass_trace(h2, tolerance, index, inv_mass, links, trace) && trace[0] == before
            && trace.last() == b;
    lemma_pass_trace_upto(
        h2,
        tolerance,
        index,
        inv_mass,
        links,
        trace_a,
        trace_b,
        links.relation.len() as int,
    );
}

/// Two traces of passes that start alike are alike up to any pass.
pub proof fn lemma_relax_trace_upto<S: Scalar, V: Vector<S>>(
    h2: S,
    tolerance: S,
    index: SlotModel,
    inv_mass: Seq<S>,
    links: LinksModel<S>,
    passes: int,
    a: Seq<Relaxing<S, V>>,
    b: Seq<Relaxing<S, V>>,
    k: int,
)
    requires
        arithmetic_is_a_function::<S, V>(),
        relax_trace(h2, tolerance, index, inv_mass, links, passes, a),
        relax_trace(h2, tolerance, index, inv_mass, links, passes, b),
        a[0] == b[0],
        0 <= k <= passes,
    ensures
        a[k] == b[k],
    decreases k,
{
    if k > 0 {
        lemma_relax_trace_upto(h2, tolerance, index, inv_mass, links, passes, a, b, k - 1);
        assert(passed(h2, tolerance, index, inv_mass, links, a[k - 1], a[k - 1 + 1]));
        assert(passed(h2, tolerance, index, inv_mass, links, b[k - 1], b[k - 1 + 1]));
        lemma_passed(h2, tolerance, index, inv_mass, links, a[k - 1], a[k], b[k]);
    }
}

/// The passes of a substep leave one state.
pub proof fn lemma_relaxed<S: Scalar, V: Vector<S>>(
    h2: S,
    index: SlotModel,
    inv_mass: Seq<S>,
    links: LinksModel<S>,
    passes: int,
    before: Relaxing<S, V>,
    a: Relaxing<S, V>,
    b: Relaxing<S, V>,
)
    requires
        arithmetic_is_a_function::<S, V>(),
        passes >= 0,
        relaxed(h2, index, inv_mass, links, passes, before, a),
        relaxed(h2, index, inv_mass, links, passes, before, b),
    ensures
        a == b,
{
    let (tolerance_a, trace_a) = choose|tolerance: S, trace: Seq<Relaxing<S, V>>|
        #![trigger relax_trace(h2, tolerance, index, inv_mass, links, passes, trace)]
        ratio_of(1, crate::solver::TOLERANCE_DEN, tolerance) && relax_trace(
            h2,
            tolerance,
            index,
            inv_mass,
            links,
            passes,
            trace,
        ) && trace[0] == before && trace.last() == a;
    let (tolerance_b, trace_b) = choose|tolerance: S, trace: Seq<Relaxing<S, V>>|
        #![trigger relax_trace(h2, tolerance, index, inv_mass, links, passes, trace)]
        ratio_of(1, crate::solver::TOLERANCE_DEN, tolerance) && relax_trace(
            h2,
            tolerance,
            index,
            inv_mass,
            links,
            passes,
            trace,
        ) && trace[0] == before && trace.last() == b;
    assert(tolerance_a == tolerance_b);
    lemma_relax_trace_upto(h2, tolerance_a, index, inv_mass, links, passes, trace_a, trace_b, passes);
}

/// The links that break are told in one way, and freed in one way.
pub proof fn lemma_broken_off<S: Scalar>(
    h2: S,
    before: LinksModel<S>,
    gone_a: Seq<u32>,
    a: LinksModel<S>,
    gone_b: Seq<u32>,
    b: LinksModel<S>,
)
    requires
        scalars_are_functions::<S>(),
        before.index.handles.len() <= before.lambda.len(),
        broken_off(h2, before, gone_a, a),
        broken_off(h2, before, gone_b, b),
    ensures
        gone_a == gone_b,
        a == b,
{
    let flags_a = choose|flags: Seq<bool>|
        #![trigger strained_all(h2, before.lambda, flags)]
        strained_all(h2, before.lambda, flags) && gone_a == picked(
            before.index.handles,
            flags,
            before.index.handles.len() as int,
        ) && a == before.freed_all(gone_a);
    let flags_b = choose|flags: Seq<bool>|
        #![trigger strained_all(h2, before.lambda, flags)]
        strained_all(h2, before.lambda, flags) && gone_b == picked(
            before.index.handles,
            flags,
            before.index.handles.len() as int,
        ) && b == before.freed_all(gone_b);
    let (tensile_a, compressive_a) = choose|tensile: S, compressive: S|
        #![trigger real_of_i32(crate::solver::LAMBDA_STRAIN_THRESHOLD, tensile), real_of_i32(crate::solver::LAMBDA_COMPRESSION_THRESHOLD, compressive)]
        real_of_i32(crate::solver::LAMBDA_STRAIN_THRESHOLD, tensile) && real_of_i32(
            crate::solver::LAMBDA_COMPRESSION_THRESHOLD,
            compressive,
        ) && forall|i: int|
            1 <= i < before.lambda.len() ==> strained(
                h2,
                tensile,
                compressive,
                before.lambda[i],
                #[trigger] flags_a[i],
            );
    let (tensile_b, compressive_b) = choose|tensile: S, compressive: S|
        #![trigger real_of_i32(crate::solver::LAMBDA_STRAIN_THRESHOLD, tensile), real_of_i32(crate::solver::LAMBDA_COMPRESSION_THRESHOLD, compressive)]
        real_of_i32(crate::solver::LAMBDA_STRAIN_THRESHOLD, tensile) && real_of_i32(
            crate::solver::LAMBDA_COMPRESSION_THRESHOLD,
            compressive,
        ) && forall|i: int|
            1 <= i < before.lambda.len() ==> strained(
                h2,
                tensile,
                compressive,
                before.lambda[i],
                #[trigger] flags_b[i],
            );
    assert(tensile_a == tensile_b && compressive_a == compressive_b);
    assert forall|k: int| 1 <= k < before.lambda.len() implies flags_a[k] == flags_b[k] by {
        lemma_strained(h2, tensile_a, compressive_a, before.lambda[k], flags_a[k], flags_b[k]);
    }
    lemma_picked_prefix(before.index.handles, flags_a, flags_b, before.index.handles.len() as int);
}

/// The nodes leave a substep in one state.
pub proof fn lemma_finalised<S: Scalar, V: Vector<S>>(
    h: S,
    before: NodesModel<S, V>,
    a: NodesModel<S, V>,
    b: NodesModel<S, V>,
)
    requires
        arithmetic_is_a_function::<S, V>(),
        finalised(h, before, a),
        finalised(h, before, b),
    ensures
        a == b,
{
    assert forall|i: int| 0 <= i < a.velocity.len() implies a.velocity[i] == b.velocity[i] by {
        lemma_derived(h, before.predicted_pos[i], before.current_pos[i], a.velocity[i], b.velocity[i]);
    }
    assert(a.velocity =~= b.velocity);
}

/// Velocities are damped in one way.
pub proof fn lemma_damped<S: Scalar, V: Vector<S>>(
    before: NodesModel<S, V>,
    a: NodesModel<S, V>,
    b: NodesModel<S, V>,
)
    requires
        arithmetic_is_a_function::<S, V>(),
        damped(before, a),
        damped(before, b),
    ensures
        a == b,
{
    let damping_a = choose|damping: S|
        #![trigger ratio_of(crate::solver::DAMPING_NUM, crate::solver::DAMPING_DEN, damping)]
        ratio_of(crate::solver::DAMPING_NUM, crate::solver::DAMPING_DEN, damping) && forall|i: int|
            0 <= i < a.velocity.len() ==> vscaled::<S, V>(
                before.velocity[i],
                damping,
                #[trigger] a.velocity[i],
            );
    let damping_b = choose|damping: S|
        #![trigger ratio_of(crate::solver::DAMPING_NUM, crate::solver::DAMPING_DEN, damping)]
        ratio_of(crate::solver::DAMPING_NUM, crate::solver::DAMPING_DEN, damping) && forall|i: int|
            0 <= i < b.velocity.len() ==> vscaled::<S, V>(
                before.velocity[i],
                damping,
                #[trigger] b.velocity[i],
            );
    assert(damping_a == damping_b);
    assert forall|i: int| 0 <= i < a.velocity.len() implies a.velocity[i] == b.velocity[i] by {
        assert(vscaled::<S, V>(before.velocity[i], damping_a, a.velocity[i]));
        assert(vscaled::<S, V>(before.velocity[i], damping_b, b.velocity[i]));
    }
    assert(a.velocity =~= b.velocity);
}

/// A substep leaves one state.
pub proof fn lemma_substepped<S: Scalar, V: Vector<S>>(
    cfg: Settings<S>,
    before: World<S, V>,
    a: World<S, V>,
    b: World<S, V>,
)
    requires
        arithmetic_is_a_function::<S, V>(),
        before.nodes.wf(),
        before.links.wf(),
        substepped(cfg, before, a),
        substepped(cfg, before, b),
    ensures
        a == b,
{
    let (moved_a, landed_a, start_a, end_a) = choose|
        moved: NodesModel<S, V>,
        landed: NodesModel<S, V>,
        start: Seq<S>,
        end: Relaxing<S, V>,
    |
        #![trigger landed_all(cfg.ground_level, moved, landed), relaxed_from(cfg.h2, landed, before.links, cfg.iterations as int, start, end)]
        predicted_all(cfg.h, cfg.h2, before.nodes, moved) && landed_all(
            cfg.ground_level,
            moved,
            landed,
        ) && zeroed(start) && start.len() == before.links.lambda.len() && relaxed_from(
            cfg.h2,
            landed,
            before.links,
            cfg.iterations as int,
            start,
            end,
        ) && broken_in(
            cfg.allow_breaking,
            cfg.h2,
            before.links.with_lambda(end.lambda),
            before.broken,
            a.links,
            a.broken,
        ) && settled(cfg.h, landed, end, a.nodes);
    let (moved_b, landed_b, start_b, end_b) = choose|
        moved: NodesModel<S, V>,
        landed: NodesModel<S, V>,
        start: Seq<S>,
        end: Relaxing<S, V>,
    |
        #![trigger landed_all(cfg.ground_level, moved, landed), relaxed_from(cfg.h2, landed, before.links, cfg.iterations as int, start, end)]
        predicted_all(cfg.h, cfg.h2, before.nodes, moved) && landed_all(
            cfg.ground_level,
            moved,
            landed,
        ) && zeroed(start) && start.len() == before.links.lambda.len() && relaxed_from(
            cfg.h2,
            landed,
            before.links,
            cfg.iterations as int,
            start,
            end,
        ) && broken_in(
            cfg.allow_breaking,
            cfg.h2,
            before.links.with_lambda(end.lambda),
            before.broken,
            b.links,
            b.broken,
        ) && settled(cfg.h, landed, end, b.nodes);
    lemma_predicted_all(cfg.h, cfg.h2, before.nodes, moved_a, moved_b);
    lemma_landed_all(cfg.ground_level, moved_a, landed_a, landed_b);
    lemma_zeroed(start_a, start_b);
    lemma_relaxed(
        cfg.h2,
        landed_a.index,
        landed_a.inv_mass,
        before.links.with_lambda(start_a),
        cfg.iterations as int,
        (Relaxing { predicted_pos: landed_a.predicted_pos, lambda: start_a }),
        end_a,
        end_b,
    );
    lemma_relaxed_shape(
        cfg.h2,
        landed_a.index,
        landed_a.inv_mass,
        before.links.with_lambda(start_a),
        cfg.iterations as int,
        (Relaxing { predicted_pos: landed_a.predicted_pos, lambda: start_a }),
        end_a,
    );
    let strung = before.links.with_lambda(end_a.lambda);
    if cfg.allow_breaking {
        let gone_a = a.broken.subrange(before.broken.len() as int, a.broken.len() as int);
        let gone_b = b.broken.subrange(before.broken.len() as int, b.broken.len() as int);
        lemma_broken_off(cfg.h2, strung, gone_a, a.links, gone_b, b.links);
        assert(a.broken =~= a.broken.subrange(0, before.broken.len() as int) + gone_a);
        assert(b.broken =~= b.broken.subrange(0, before.broken.len() as int) + gone_b);
    }
    lemma_finalised(
        cfg.h,
        (NodesModel { predicted_pos: end_a.predicted_pos, ..landed_a }),
        a.nodes,
        b.nodes,
    );
}

/// Freeing links keeps a table of links well formed.
pub proof fn lemma_freed_all_wf<S>(links: LinksModel<S>, gone: Seq<u32>)
    requires
        links.wf(),
    ensures
        links.freed_all(gone).wf(),
    decreases gone.len(),
{
    if gone.len() > 0 {
        lemma_freed_all_wf(links, gone.drop_last());
        lemma_freed(links.freed_all(gone.drop_last()).index, gone.last());
    }
}

/// A pass keeps the number of predicted positions and of multipliers.
pub proof fn lemma_pass_trace_shape<S: Scalar, V: Vector<S>>(
    h2: S,
    tolerance: S,
    index: SlotModel,
    inv_mass: Seq<S>,
    links: LinksModel<S>,
    trace: Seq<Relaxing<S, V>>,
    j: int,
)
    requires
        index.wf(),
        pass_trace(h2, tolerance, index, inv_mass, links, trace),
        trace[0].lambda.len() == links.relation.len(),
        trace[0].predicted_pos.len() == index.handles.len(),
        0 <= j <= links.relation.len(),
    ensures
        trace[j].lambda.len() == trace[0].lambda.len(),
        trace[j].predicted_pos.len() == trace[0].predicted_pos.len(),
    decreases j,
{
    if j > 0 {
        lemma_pass_trace_shape(h2, tolerance, index, inv_mass, links, trace, j - 1);
        assert(pass_step(h2, tolerance, index, inv_mass, links, j - 1, trace[j - 1], trace[j - 1 + 1]));
    }
}

/// Passes keep the number of predicted positions and of multipliers.
pub proof fn lemma_relax_trace_shape<S: Scalar, V: Vector<S>>(
    h2: S,
    tolerance: S,
    index: SlotModel,
    inv_mass: Seq<S>,
    links: LinksModel<S>,
    passes: int,
    trace: Seq<Relaxing<S, V>>,
    k: int,
)
    requires
        index.wf(),
        relax_trace(h2, tolerance, index, inv_mass, links, passes, trace),
        trace[0].lambda.len() == links.relation.len(),
        trace[0].predicted_pos.len() == index.handles.len(),
        0 <= k <= passes,
    ensures
        trace[k].lambda.len() == trace[0].lambda.len(),
        trace[k].predicted_pos.len() == trace[0].predicted_pos.len(),
    decreases k,
{
    if k > 0 {
        lemma_relax_trace_shape(h2, tolerance, index, inv_mass, links, passes, trace, k - 1);
        assert(passed(h2, tolerance, index, inv_mass, links, trace[k - 1], trace[k - 1 + 1]));
        let inner = choose|inner: Seq<Relaxing<S, V>>|
            #![trigger pass_trace(h2, tolerance, index, inv_mass, links, inner)]
            pass_trace(h2, tolerance, index, inv_mass, links, inner) && inner[0] == trace[k - 1]
                && inner.last() == trace[k];
        lemma_pass_trace_shape(
            h2,
            tolerance,
            index,
            inv_mass,
            links,
            inner,
            links.relation.len() as int,
        );
    }
}

/// The passes of a substep keep the number of predicted positions and of
/// multipliers.
pub proof fn lemma_relaxed_shape<S: Scalar, V: Vector<S>>(
    h2: S,
    index: SlotModel,
    inv_mass: Seq<S>,
    links: LinksModel<S>,
    passes: int,
    before: Relaxing<S, V>,
    after: Relaxing<S, V>,
)
    requires
        index.wf(),
        passes >= 0,
        before.lambda.len() == links.relation.len(),
        before.predicted_pos.len() == index.handles.len(),
        relaxed(h2, index, inv_mass, links, passes, before, after),
    ensures
        after.lambda.len() == before.lambda.len(),
        after.predicted_pos.len() == before.predicted_pos.len(),
{
    let (tolerance, trace) = choose|tolerance: S, trace: Seq<Relaxing<S, V>>|
        #![trigger relax_trace(h2, tolerance, index, inv_mass, links, passes, trace)]
        ratio_of(1, crate::solver::TOLERANCE_DEN, tolerance) && relax_trace(
            h2,
            tolerance,
            index,
            inv_mass,
            links,
            passes,
            trace,
        ) && trace[0] == before && trace.last() == after;
    lemma_relax_trace_shape(h2, tolerance, index, inv_mass, links, passes, trace, passes);
}

/// A substep keeps the tables well formed.
pub proof fn lemma_substepped_wf<S: Scalar, V: Vector<S>>(
    cfg: Settings<S>,
    before: World<S, V>,
    after: World<S, V>,
)
    requires
        before.nodes.wf(),
        before.links.wf(),
        substepped(cfg, before, after),
    ensures
        after.nodes.wf(),
        after.links.wf(),
{
    let (moved, landed, start, end) = choose|
        moved: NodesModel<S, V>,
        landed: NodesModel<S, V>,
        start: Seq<S>,
        end: Relaxing<S, V>,
    |
        #![trigger landed_all(cfg.ground_level, moved, landed), relaxed_from(cfg.h2, landed, before.links, cfg.iterations as int, start, end)]
        predicted_all(cfg.h, cfg.h2, before.nodes, moved) && landed_all(
            cfg.ground_level,
            moved,
            landed,
        ) && zeroed(start) && start.len() == before.links.lambda.len() && relaxed_from(
            cfg.h2,
            landed,
            before.links,
            cfg.iterations as int,
            start,
            end,
        ) && broken_in(
            cfg.allow_breaking,
            cfg.h2,
            before.links.with_lambda(end.lambda),
            before.broken,
            after.links,
            after.broken,
        ) && settled(cfg.h, landed, end, after.nodes);
    assert(moved.wf());
    assert(landed.wf());
    lemma_relaxed_shape(
        cfg.h2,
        landed.index,
        landed.inv_mass,
        before.links.with_lambda(start),
        cfg.iterations as int,
        (Relaxing { predicted_pos: landed.predicted_pos, lambda: start }),
        end,
    );
    let strung = before.links.with_lambda(end.lambda);
    assert(strung.wf());
    if cfg.allow_breaking {
        let gone = after.broken.subrange(before.broken.len() as int, after.broken.len() as int);
        let flags = choose|flags: Seq<bool>|
            #![trigger strained_all(cfg.h2, strung.lambda, flags)]
            strained_all(cfg.h2, strung.lambda, flags) && gone == picked(
                strung.index.handles,
                flags,
                strung.index.handles.len() as int,
            ) && after.links == strung.freed_all(gone);
        lemma_freed_all_wf(strung, gone);
    }
}

/// Two traces of one step that start alike, in a well-formed state, are
/// alike up to any substep.
pub proof fn lemma_step_trace_upto<S: Scalar, V: Vector<S>>(
    cfg: Settings<S>,
    a: Seq<World<S, V>>,
    b: Seq<World<S, V>>,
    k: int,
)
    requires
        arithmetic_is_a_function::<S, V>(),
        step_trace(cfg, a),
        step_trace(cfg, b),
        a[0] == b[0],
        a[0].nodes.wf(),
        a[0].links.wf(),
        0 <= k <= cfg.substeps,
    ensures
        a[k] == b[k],
        a[k].nodes.wf(),
        a[k].links.wf(),
    decreases k,
{
    if k > 0 {
        lemma_step_trace_upto(cfg, a, b, k - 1);
        assert(substepped(cfg, a[k - 1], a[k - 1 + 1]));
        assert(substepped(cfg, b[k - 1], b[k - 1 + 1]));
        lemma_substepped(cfg, a[k - 1], a[k], b[k]);
        lemma_substepped_wf(cfg, a[k - 1], a[k]);
    }
}

/// A step is deterministic: where every operation on reals is a function
/// of its arguments, one state of the lattice under one setting of the
/// solver leads to one state after the step, equal in every position,
/// velocity, multiplier, handle and broken link.
pub proof fn lemma_step_is_deterministic<S: Scalar, V: Vector<S>>(
    cfg: Settings<S>,
    before: World<S, V>,
    a: World<S, V>,
    b: World<S, V>,
)
    requires
        arithmetic_is_a_function::<S, V>(),
        before.nodes.wf(),
        before.links.wf(),
        stepped(cfg, before, a),
        stepped(cfg, before, b),
    ensures
        a == b,
{
    let trace_a = choose|trace: Seq<World<S, V>>|
        #![trigger step_trace(cfg, trace)]
        step_trace(cfg, trace) && trace[0] == (World { broken: Seq::empty(), ..before }) && damped(
            trace.last().nodes,
            a.nodes,
        ) && a.links == trace.last().links && a.broken == trace.last().broken;
    let trace_b = choose|trace: Seq<World<S, V>>|
        #![trigger step_trace(cfg, trace)]
        step_trace(cfg, trace) && trace[0] == (World { broken: Seq::empty(), ..before }) && damped(
            trace.last().nodes,
            b.nodes,
        ) && b.links == trace.last().links && b.broken == trace.last().broken;
    lemma_step_trace_upto(cfg, trace_a, trace_b, cfg.substeps as int);
    lemma_damped(trace_a.last().nodes, a.nodes, b.nodes);
}

} // verus!


