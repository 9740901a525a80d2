//! Binding one voxel to the lattice.
//!
//! A voxel hangs on up to four nodes: those that represent the occupied
//! cells nearest to its own. Each gets a weight from its distance to the
//! voxel, the weights are scaled to sum to one, and the voxel remembers
//! where it lies relative to the weighted centre of its parents.

use vstd::prelude::*;
use crate::fragment::{FRAGMENT_HEALTH, FragmentState, Weighting};
use crate::numeric::{
    Scalar,
    Vector,
    distance_squared_of,
    is_one,
    is_origin,
    is_zero,
    origin,
    quotient,
    real_of_i32,
    sum,
    vdifference,
    vscaled,
    vsum,
    zero,
};
use crate::spatial::{Cell, SpatialHash, cell_key, occupied_in};

verus! {

/// `w` is the weight, before scaling, of a parent at `point` for a voxel at
/// `voxel`: the squared distance between them, or one over that plus
/// `epsilon`, as `weighting` has it.
pub open spec fn weighed<S: Scalar, V: Vector<S>>(
    weighting: Weighting<S>,
    voxel: V,
    point: V,
    w: S,
) -> bool {
    exists|squared: S|
        #![trigger distance_squared_of::<S, V>(voxel, point, squared)]
        distance_squared_of::<S, V>(voxel, point, squared) && match weighting {
            Weighting::DistanceSquared => w == squared,
            Weighting::InverseDistanceSquared { epsilon } => inverse_weight(squared, epsilon, w),
        }
}

/// `w` is `1 / (squared + epsilon)`.
pub open spec fn inverse_weight<S: Scalar>(squared: S, epsilon: S, w: S) -> bool {
    exists|one: S, shifted: S| #![auto] is_one(one) && sum(squared, epsilon, shifted) && quotient(one, shifted, w)
}

/// The weight of one parent before scaling.
pub fn weigh<S: Scalar, V: Vector<S>>(weighting: Weighting<S>, voxel: V, point: V) -> (w: S)
    ensures
        weighed(weighting, voxel, point, w),
{
    let squared: S = voxel.distance_squared(point);
    match weighting {
        Weighting::DistanceSquared => squared,
        Weighting::InverseDistanceSquared { epsilon } => {
            let w: S = S::ratio(1, 1).over(squared.plus(epsilon));
            assert(inverse_weight(squared, epsilon, w));
            w
        },
    }
}

/// One parent of a voxel: its handle, its weight before scaling, and where
/// it stands. The handle `0` stands for no parent.
pub struct Pick<S, V> {
    pub id: u32,
    pub weight: S,
    pub point: V,
}

/// `pick` is the `k`-th parent of the voxel at `voxel`: the node filed
/// under the `k`-th cell of `near`, which stands at `positions[owners[id]]`,
/// with its weight. Beyond the cells of `near`, there is no parent: the
/// handle is `0`, the weight a zero and the place an origin.
pub open spec fn picked_parent<S: Scalar, V: Vector<S>>(
    weighting: Weighting<S>,
    cells: Map<u128, u32>,
    near: Seq<Cell>,
    k: int,
    voxel: V,
    owners: Seq<u32>,
    positions: Seq<V>,
    pick: Pick<S, V>,
) -> bool {
    if 0 <= k < near.len() && occupied_in(cells, near[k]) {
        &&& pick.id == cells[cell_key(near[k])]
        &&& pick.point == positions[owners[pick.id as int] as int]
        &&& weighed(weighting, voxel, pick.point, pick.weight)
    } else {
        pick.id == 0 && is_zero(pick.weight) && is_origin::<S, V>(pick.point)
    }
}

/// The `k`-th parent of a voxel.
pub fn pick<S: Scalar, V: Vector<S>>(
    weighting: Weighting<S>,
    hash: &SpatialHash,
    near: &Vec<Cell>,
    k: usize,
    voxel: V,
    owners: &[u32],
    handles: &[u32],
    positions: &[V],
) -> (picked: Pick<S, V>)
    requires
        forall|c: Cell| #[trigger]
            hash.occupied(c) ==> handles@.contains(hash.representative(c).unwrap()),
        forall|j: int|
            0 <= j < handles@.len() ==> (#[trigger] handles@[j]) < owners@.len()
                && owners@[handles@[j] as int] < positions@.len(),
    ensures
        picked_parent(weighting, hash.cells@, near@, k as int, voxel, owners@, positions@, picked),
        picked.id == 0 || handles@.contains(picked.id),
{
    if k < near.len() {
        match hash.get(&near[k]) {
            Some(id) => {
                assert(hash.occupied(near@[k as int]));
                let point: V = positions[owners[id as usize] as usize];
                Pick { id, weight: weigh(weighting, voxel, point), point }
            },
            None => Pick { id: 0, weight: zero::<S>(), point: origin::<S, V>() },
        }
    } else {
        Pick { id: 0, weight: zero::<S>(), point: origin::<S, V>() }
    }
}

/// `total` is the sum of the four weights, added up from `none` in their
/// order.
pub open spec fn totalled<S: Scalar>(none: S, w0: S, w1: S, w2: S, w3: S, total: S) -> bool {
    exists|a: S, b: S, c: S|
        #![auto]
        sum(none, w0, a) && sum(a, w1, b) && sum(b, w2, c) && sum(c, w3, total)
}

/// `next` is `centre` moved by the parent at `point` with the weight
/// `weight`: `centre + point weight`.
pub open spec fn drawn<S: Scalar, V: Vector<S>>(centre: V, point: V, weight: S, next: V) -> bool {
    exists|share: V| #![auto] vscaled::<S, V>(point, weight, share) && vsum::<S, V>(centre, share, next)
}

/// `centre` is the weighted centre of the first `found` of four parents,
/// added up from `rest` in their order. There is at least one parent.
pub open spec fn blended<S: Scalar, V: Vector<S>>(
    rest: V,
    one: V,
    two: V,
    three: V,
    four: V,
    weights: [S; 4],
    found: int,
    centre: V,
) -> bool {
    exists|a: V, b: V, c: V|
        #![trigger drawn(rest, one, weights[0], a), along_to(found, 1, a, two, weights[1], b), along_to(found, 2, b, three, weights[2], c)]
        drawn(rest, one, weights[0], a) && along_to(found, 1, a, two, weights[1], b) && along_to(
            found,
            2,
            b,
            three,
            weights[2],
            c,
        ) && along_to(found, 3, c, four, weights[3], centre)
}

/// `next` is `centre` moved by the parent numbered `k`, if there are more
/// than `k` parents.
pub open spec fn along_to<S: Scalar, V: Vector<S>>(
    found: int,
    k: int,
    centre: V,
    point: V,
    weight: S,
    next: V,
) -> bool {
    if found > k {
        drawn(centre, point, weight, next)
    } else {
        next == centre
    }
}

/// One row of the fragment table.
pub struct FragmentRow<S, V> {
    pub parents: [u32; 4],
    pub influence: [S; 4],
    pub rest_offset: V,
    pub state: FragmentState,
    pub health: S,
    pub position: V,
    pub velocity: V,
    pub forces: V,
}

/// `row` is the fragment of the voxel at `voxel` whose nearest cells are
/// `near`, at least one: its parents are the nodes picked for the first
/// four cells; each weight is the parent's weight over the total of the
/// four; the rest offset is the voxel minus the weighted centre of the
/// parents; and it is attached, at full health, at the voxel, at rest.
pub open spec fn skinned<S: Scalar, V: Vector<S>>(
    weighting: Weighting<S>,
    cells: Map<u128, u32>,
    near: Seq<Cell>,
    voxel: V,
    owners: Seq<u32>,
    positions: Seq<V>,
    row: FragmentRow<S, V>,
) -> bool {
    exists|none: S, rest: V, one: Pick<S, V>, two: Pick<S, V>, three: Pick<S, V>, four: Pick<S, V>, total: S, centre: V|
        #![trigger totalled(none, one.weight, two.weight, three.weight, four.weight, total), blended(rest, one.point, two.point, three.point, four.point, row.influence, near.len() as int, centre)]
        is_zero(none) && is_origin::<S, V>(rest) && picked_parent(
            weighting,
            cells,
            near,
            0,
            voxel,
            owners,
            positions,
            one,
        ) && picked_parent(weighting, cells, near, 1, voxel, owners, positions, two)
            && picked_parent(weighting, cells, near, 2, voxel, owners, positions, three)
            && picked_parent(weighting, cells, near, 3, voxel, owners, positions, four)
            && row.parents[0] == one.id && row.parents[1] == two.id && row.parents[2] == three.id
            && row.parents[3] == four.id && totalled(
            none,
            one.weight,
            two.weight,
            three.weight,
            four.weight,
            total,
        ) && quotient(one.weight, total, row.influence[0]) && quotient(
            two.weight,
            total,
            row.influence[1],
        ) && quotient(three.weight, total, row.influence[2]) && quotient(
            four.weight,
            total,
            row.influence[3],
        ) && blended(
            rest,
            one.point,
            two.point,
            three.point,
            four.point,
            row.influence,
            near.len() as int,
            centre,
        ) && vdifference::<S, V>(voxel, centre, row.rest_offset) && row.state
            == FragmentState::Attached && real_of_i32(FRAGMENT_HEALTH, row.health) && row.position
            == voxel && row.velocity == rest && row.forces == rest
}

/// The fragment of one voxel that found the cells `near`, at least one,
/// around it.
pub fn skin<S: Scalar, V: Vector<S>>(
    weighting: Weighting<S>,
    hash: &SpatialHash,
    near: &Vec<Cell>,
    voxel: V,
    owners: &[u32],
    handles: &[u32],
    positions: &[V],
    none: S,
    rest: V,
) -> (row: FragmentRow<S, V>)
    requires
        near@.len() > 0,
        is_zero(none),
        is_origin::<S, V>(rest),
        forall|c: Cell| #[trigger]
            hash.occupied(c) ==> handles@.contains(hash.representative(c).unwrap()),
        forall|j: int|
            0 <= j < handles@.len() ==> (#[trigger] handles@[j]) < owners@.len()
                && owners@[handles@[j] as int] < positions@.len(),
    ensures
        skinned(weighting, hash.cells@, near@, voxel, owners@, positions@, row),
        forall|k: int| 0 <= k < 4 ==> (#[trigger] row.parents[k]) == 0 || handles@.contains(row.parents[k]),
        row.state == FragmentState::Attached,
        row.position == voxel,
{
    let found: usize = near.len();
    let one: Pick<S, V> = pick(weighting, hash, near, 0, voxel, owners, handles, positions);
    let two: Pick<S, V> = pick(weighting, hash, near, 1, voxel, owners, handles, positions);
    let three: Pick<S, V> = pick(weighting, hash, near, 2, voxel, owners, handles, positions);
    let four: Pick<S, V> = pick(weighting, hash, near, 3, voxel, owners, handles, positions);
    let total: S = none.plus(one.weight).plus(two.weight).plus(three.weight).plus(four.weight);
    let influence: [S; 4] = [
        one.weight.over(total),
        two.weight.over(total),
        three.weight.over(total),
        four.weight.over(total),
    ];
    let a: V = rest.plus(one.point.scaled(influence[0]));
    let b: V = if found > 1 {
        a.plus(two.point.scaled(influence[1]))
    } else {
        a
    };
    let c: V = if found > 2 {
        b.plus(three.point.scaled(influence[2]))
    } else {
        b
    };
    let centre: V = if found > 3 {
        c.plus(four.point.scaled(influence[3]))
    } else {
        c
    };
    let row = FragmentRow {
        parents: [one.id, two.id, three.id, four.id],
        influence,
        rest_offset: voxel.minus(centre),
        state: FragmentState::Attached,
        health: S::from_i32(FRAGMENT_HEALTH),
        position: voxel,
        velocity: rest,
        forces: rest,
    };
    proof {
        assert(totalled(none, one.weight, two.weight, three.weight, four.weight, total));
        assert(drawn(rest, one.point, influence[0], a));
        assert(along_to(found as int, 1, a, two.point, influence[1], b));
        assert(along_to(found as int, 2, b, three.point, influence[2], c));
        assert(along_to(found as int, 3, c, four.point, influence[3], centre));
        assert(blended(
            rest,
            one.point,
            two.point,
            three.point,
            four.point,
            row.influence,
            found as int,
            centre,
        ));
        assert(skinned(weighting, hash.cells@, near@, voxel, owners@, positions@, row));
    }
    row
}

} // verus!
