//! A cell hash over points in space.
//!
//! Space is cut into cubic cells whose side is the resolution. The hash
//! remembers, for every cell that holds a point, the handle of the first
//! point that fell into it, and answers which occupied cells lie nearest to
//! a given one.

use vstd::prelude::*;
use std::collections::HashMap;
use rustc_hash::FxBuildHasher;
use crate::hashing::{map_get, map_insert};
use crate::numeric::{
    Scalar,
    Vector,
    floor_of,
    integer_of,
    product,
    quotient,
    ratio_of,
    real_of_i32,
    real_of_u32,
    sum,
    vector_of,
    x_of,
    y_of,
    z_of,
};

verus! {

/// A cell, by its integer coordinates.
#[derive(Clone, Copy, Debug, PartialEq, Eq, PartialOrd, Ord, Hash, Structural)]
pub struct Cell {
    pub x: i32,
    pub y: i32,
    pub z: i32,
}

/// The side of a cell, in world units.
#[derive(Clone, Copy, Debug, PartialEq, Eq, Structural)]
pub struct SpatialResolution(pub u32);

impl SpatialResolution {
    pub fn new(side: u32) -> (resolution: Self)
        ensures
            resolution.0 == side,
    {
        SpatialResolution(side)
    }
}

/// The number under which a cell is stored. No two cells share one.
pub open spec fn cell_key(c: Cell) -> u128 {
    ((c.x + 0x8000_0000) * 0x1_0000_0000_0000_0000 + (c.y + 0x8000_0000) * 0x1_0000_0000 + (c.z
        + 0x8000_0000)) as u128
}

/// Distinct cells have distinct keys.
pub proof fn lemma_cell_key_injective(a: Cell, b: Cell)
    requires
        cell_key(a) == cell_key(b),
    ensures
        a == b,
{
    let ax = a.x + 0x8000_0000;
    let ay = a.y + 0x8000_0000;
    let az = a.z + 0x8000_0000;
    let bx = b.x + 0x8000_0000;
    let by = b.y + 0x8000_0000;
    let bz = b.z + 0x8000_0000;
    assert(0 <= ax < 0x1_0000_0000 && 0 <= ay < 0x1_0000_0000 && 0 <= az < 0x1_0000_0000);
    assert(0 <= bx < 0x1_0000_0000 && 0 <= by < 0x1_0000_0000 && 0 <= bz < 0x1_0000_0000);
    assert(ax * 0x1_0000_0000_0000_0000 + ay * 0x1_0000_0000 + az == bx * 0x1_0000_0000_0000_0000
        + by * 0x1_0000_0000 + bz);
}

/// The distance from `a` to `b` along the axis on which they are farthest
/// apart.
pub open spec fn chebyshev(a: Cell, b: Cell) -> int {
    let dx = if a.x <= b.x {
        b.x - a.x
    } else {
        a.x - b.x
    };
    let dy = if a.y <= b.y {
        b.y - a.y
    } else {
        a.y - b.y
    };
    let dz = if a.z <= b.z {
        b.z - a.z
    } else {
        a.z - b.z
    };
    if dx >= dy && dx >= dz {
        dx
    } else if dy >= dz {
        dy
    } else {
        dz
    }
}

/// Whether `c` is no farther from `origin` than the given range on each
/// axis.
pub open spec fn within(origin: Cell, c: Cell, range_x: u32, range_y: u32, range_z: u32) -> bool {
    &&& -range_x <= c.x - origin.x <= range_x
    &&& -range_y <= c.y - origin.y <= range_y
    &&& -range_z <= c.z - origin.z <= range_z
}

/// Whether a search that has reached the offset `(dx, dy, dz)` on the ring
/// `r` around `origin` has passed `c`: rings are visited from the nearest
/// out, and the cells of a ring in the order of their offsets.
pub open spec fn passed(origin: Cell, c: Cell, r: int, dx: int, dy: int, dz: int) -> bool {
    let cx = c.x - origin.x;
    let cy = c.y - origin.y;
    let cz = c.z - origin.z;
    let d = chebyshev(origin, c);
    d < r || (d == r && (cx < dx || (cx == dx && (cy < dy || (cy == dy && cz < dz)))))
}

/// `c` is the number, along one axis, of the cell that the coordinate `p`
/// falls into: `p / side`, rounded down.
pub open spec fn cell_coordinate<S: Scalar>(side: S, p: S, c: i32) -> bool {
    exists|q: S, f: S| #![auto] quotient(p, side, q) && floor_of(q, f) && integer_of(f, c)
}

/// `cell` is the cell of side `resolution` that `point` falls into.
pub open spec fn in_cell<S: Scalar, V: Vector<S>>(
    resolution: SpatialResolution,
    point: V,
    cell: Cell,
) -> bool {
    exists|side: S, px: S, py: S, pz: S|
        #![trigger cell_coordinate(side, px, cell.x), cell_coordinate(side, py, cell.y), cell_coordinate(side, pz, cell.z)]
        real_of_u32(resolution.0, side) && x_of::<S, V>(point, px) && cell_coordinate(
            side,
            px,
            cell.x,
        ) && y_of::<S, V>(point, py) && cell_coordinate(side, py, cell.y) && z_of::<S, V>(
            point,
            pz,
        ) && cell_coordinate(side, pz, cell.z)
}

/// `r` is the middle, along one axis, of the cell numbered `c`:
/// `(c + half) side`.
pub open spec fn centre_coordinate<S: Scalar>(side: S, half: S, c: i32, r: S) -> bool {
    exists|n: S, m: S| #![auto] real_of_i32(c, n) && sum(n, half, m) && product(m, side, r)
}

/// `r` is the centre of the cell `cell` of side `resolution`.
pub open spec fn centred<S: Scalar, V: Vector<S>>(
    resolution: SpatialResolution,
    cell: Cell,
    r: V,
) -> bool {
    exists|side: S, half: S, x: S, y: S, z: S|
        #![trigger centre_coordinate(side, half, cell.x, x), centre_coordinate(side, half, cell.y, y), centre_coordinate(side, half, cell.z, z)]
        real_of_u32(resolution.0, side) && ratio_of(1, 2, half) && centre_coordinate(
            side,
            half,
            cell.x,
            x,
        ) && centre_coordinate(side, half, cell.y, y) && centre_coordinate(side, half, cell.z, z)
            && vector_of::<S, V>(x, y, z, r)
}

/// Whether `cells` holds a point in `c`.
pub open spec fn occupied_in(cells: Map<u128, u32>, c: Cell) -> bool {
    cells.contains_key(cell_key(c))
}

/// `cells` after `handle` is filed under `cell`: an occupied cell keeps the
/// handle it has.
pub open spec fn filed(cells: Map<u128, u32>, cell: Cell, handle: u32) -> Map<u128, u32> {
    if cells.contains_key(cell_key(cell)) {
        cells
    } else {
        cells.insert(cell_key(cell), handle)
    }
}

/// `after` is `before` with `handle` filed under the cell of `point`.
pub open spec fn dumped_one<S: Scalar, V: Vector<S>>(
    resolution: SpatialResolution,
    point: V,
    handle: u32,
    before: Map<u128, u32>,
    after: Map<u128, u32>,
) -> bool {
    exists|cell: Cell|
        #![trigger in_cell::<S, V>(resolution, point, cell)]
        in_cell::<S, V>(resolution, point, cell) && after == filed(before, cell, handle)
}

/// `after` is `before` with every point filed under its cell, first to
/// last, as far as both `positions` and `handles` go.
pub open spec fn dumped<S: Scalar, V: Vector<S>>(
    resolution: SpatialResolution,
    positions: Seq<V>,
    handles: Seq<u32>,
    before: Map<u128, u32>,
    after: Map<u128, u32>,
) -> bool {
    exists|trace: Seq<Map<u128, u32>>|
        #![trigger dump_trace(resolution, positions, handles, trace)]
        dump_trace(resolution, positions, handles, trace) && trace[0] == before && trace.last()
            == after
}

/// `trace` holds the cells before the first point was filed, and after
/// every point.
pub open spec fn dump_trace<S: Scalar, V: Vector<S>>(
    resolution: SpatialResolution,
    positions: Seq<V>,
    handles: Seq<u32>,
    trace: Seq<Map<u128, u32>>,
) -> bool {
    let count = if positions.len() < handles.len() {
        positions.len()
    } else {
        handles.len()
    };
    &&& trace.len() == count + 1
    &&& forall|i: int|
        0 <= i < count ==> dumped_one(
            resolution,
            positions[i],
            handles[i],
            #[trigger] trace[i],
            trace[i + 1],
        )
}

/// `found` lists up to `k` of the cells of `cells` nearest to `origin`,
/// nearest first, among those no farther than the given range on each
/// axis: every cell listed is occupied and in range, none is listed twice,
/// and a cell in range that is not listed is left out only because `k`
/// cells no farther than it are listed.
pub open spec fn nearest_found(
    cells: Map<u128, u32>,
    origin: Cell,
    k: int,
    range_x: u32,
    range_y: u32,
    range_z: u32,
    found: Seq<Cell>,
) -> bool {
    &&& found.len() <= k
    &&& forall|i: int|
        0 <= i < found.len() ==> occupied_in(cells, #[trigger] found[i]) && within(
            origin,
            found[i],
            range_x,
            range_y,
            range_z,
        )
    &&& forall|i: int, j: int|
        0 <= i < j < found.len() ==> found[i] != found[j] && chebyshev(origin, found[i])
            <= chebyshev(origin, found[j])
    &&& forall|c: Cell|
        #[trigger] occupied_in(cells, c) && within(origin, c, range_x, range_y, range_z)
            && !found.contains(c) ==> found.len() == k && forall|i: int|
            0 <= i < found.len() ==> chebyshev(origin, #[trigger] found[i]) <= chebyshev(
                origin,
                c,
            )
}

/// The cells that hold a point, each with the handle of its first point.
pub struct SpatialHash {
    pub resolution: SpatialResolution,
    pub cells: HashMap<u128, u32, FxBuildHasher>,
}

impl SpatialHash {
    /// Whether a point fell into `c`.
    pub open spec fn occupied(&self, c: Cell) -> bool {
        occupied_in(self.cells@, c)
    }

    /// The handle of the first point that fell into `c`.
    pub open spec fn representative(&self, c: Cell) -> Option<u32> {
        if self.occupied(c) {
            Some(self.cells@[cell_key(c)])
        } else {
            None
        }
    }

    /// What a search from `origin` has found when it has reached the offset
    /// `(dx, dy, dz)` on the ring `r`: exactly the occupied cells in range
    /// that it has passed, each once, nearest first.
    pub open spec fn found_so_far(
        &self,
        origin: Cell,
        range_x: u32,
        range_y: u32,
        range_z: u32,
        found: Seq<Cell>,
        r: int,
        dx: int,
        dy: int,
        dz: int,
    ) -> bool {
        &&& forall|i: int|
            0 <= i < found.len() ==> self.occupied(#[trigger] found[i]) && within(
                origin,
                found[i],
                range_x,
                range_y,
                range_z,
            ) && passed(origin, found[i], r, dx, dy, dz)
        &&& forall|c: Cell|
            #[trigger] self.occupied(c) && within(origin, c, range_x, range_y, range_z) && passed(
                origin,
                c,
                r,
                dx,
                dy,
                dz,
            ) ==> found.contains(c)
        &&& forall|i: int, j: int|
            0 <= i < j < found.len() ==> found[i] != found[j] && chebyshev(origin, found[i])
                <= chebyshev(origin, found[j])
    }

    /// An empty hash with cells of the given side.
    pub fn new(resolution: SpatialResolution) -> (hash: Self)
        ensures
            hash.resolution == resolution,
            hash.cells@ == Map::<u128, u32>::empty(),
            forall|c: Cell| !hash.occupied(c),
    {
        SpatialHash { resolution, cells: HashMap::default() }
    }

    /// As [`SpatialHash::new`]; `capacity` is the number of points expected.
    pub fn with_capacity(resolution: SpatialResolution, capacity: usize) -> (hash: Self)
        ensures
            hash.resolution == resolution,
            hash.cells@ == Map::<u128, u32>::empty(),
            forall|c: Cell| !hash.occupied(c),
    {
        Self::new(resolution)
    }

    /// The cell that `point` falls into: each coordinate divided by the
    /// side of a cell and rounded down.
    pub fn cell_at<S: Scalar, V: Vector<S>>(&self, point: V) -> (cell: Cell)
        ensures
            in_cell::<S, V>(self.resolution, point, cell),
    {
        let side: S = S::from_u32(self.resolution.0);
        let px: S = point.x();
        let x: i32 = px.over(side).floor().to_i32();
        let py: S = point.y();
        let y: i32 = py.over(side).floor().to_i32();
        let pz: S = point.z();
        let z: i32 = pz.over(side).floor().to_i32();
        let cell = Cell { x, y, z };
        proof {
            assert(cell_coordinate(side, px, cell.x));
            assert(cell_coordinate(side, py, cell.y));
            assert(cell_coordinate(side, pz, cell.z));
        }
        cell
    }

    /// The centre of `cell`.
    pub fn approx_point_at<S: Scalar, V: Vector<S>>(&self, cell: Cell) -> (centre: V)
        ensures
            centred::<S, V>(self.resolution, cell, centre),
    {
        let side: S = S::from_u32(self.resolution.0);
        let half: S = S::ratio(1, 2);
        let x: S = S::from_i32(cell.x).plus(half).times(side);
        let y: S = S::from_i32(cell.y).plus(half).times(side);
        let z: S = S::from_i32(cell.z).plus(half).times(side);
        proof {
            assert(centre_coordinate(side, half, cell.x, x));
            assert(centre_coordinate(side, half, cell.y, y));
            assert(centre_coordinate(side, half, cell.z, z));
        }
        V::new(x, y, z)
    }

    /// Files the handle `handle` under `cell` unless the cell is occupied.
    pub fn insert(&mut self, cell: Cell, handle: u32)
        ensures
            final(self).resolution == old(self).resolution,
            final(self).cells@ == filed(old(self).cells@, cell, handle),
            final(self).representative(cell) == if old(self).occupied(cell) {
                old(self).representative(cell)
            } else {
                Some(handle)
            },
            forall|c: Cell|
                c != cell ==> #[trigger] final(self).representative(c) == old(self).representative(
                    c,
                ),
    {
        let key: u128 = key_of(cell);
        if map_get(&self.cells, &key).is_none() {
            map_insert(&mut self.cells, key, handle);
        }
        assert forall|c: Cell| c != cell implies #[trigger] self.representative(c) == old(
            self,
        ).representative(c) by {
            if cell_key(c) == cell_key(cell) {
                lemma_cell_key_injective(c, cell);
            }
        }
    }

    /// Files every point under its cell, first to last; `handles[i]` is the
    /// handle of `positions[i]`. Where one of the two is longer, the rest of
    /// it is ignored.
    ///
    /// Cells that were occupied keep their handle, and a cell that becomes
    /// occupied gets one of `handles`.
    pub fn dump_soa<S: Scalar, V: Vector<S>>(&mut self, positions: &[V], handles: &[u32])
        ensures
            final(self).resolution == old(self).resolution,
            dumped(
                old(self).resolution,
                positions@,
                handles@,
                old(self).cells@,
                final(self).cells@,
            ),
            forall|c: Cell|
                old(self).occupied(c) ==> #[trigger] final(self).representative(c) == old(
                    self,
                ).representative(c),
            forall|c: Cell|
                #[trigger] final(self).occupied(c) && !old(self).occupied(c) ==> handles@.contains(
                    final(self).representative(c).unwrap(),
                ),
    {
        let count: usize = if positions.len() < handles.len() {
            positions.len()
        } else {
            handles.len()
        };
        let ghost mut trace: Seq<Map<u128, u32>> = seq![self.cells@];
        let mut i: usize = 0;
        while i < count
            invariant
                i <= count,
                count <= positions@.len(),
                count <= handles@.len(),
                self.resolution == old(self).resolution,
                trace.len() == i + 1,
                trace[0] == old(self).cells@,
                trace[i as int] == self.cells@,
                forall|k: int|
                    0 <= k < i ==> dumped_one(
                        self.resolution,
                        positions@[k],
                        handles@[k],
                        #[trigger] trace[k],
                        trace[k + 1],
                    ),
                forall|c: Cell|
                    old(self).occupied(c) ==> #[trigger] self.representative(c) == old(
                        self,
                    ).representative(c),
                forall|c: Cell|
                    #[trigger] self.occupied(c) && !old(self).occupied(c) ==> handles@.contains(
                        self.representative(c).unwrap(),
                    ),
            decreases count - i,
        {
            let cell: Cell = self.cell_at(positions[i]);
            let ghost before = *self;
            self.insert(cell, handles[i]);
            proof {
                let earlier = trace;
                trace = trace.push(self.cells@);
                assert(dumped_one(
                    self.resolution,
                    positions@[i as int],
                    handles@[i as int],
                    before.cells@,
                    self.cells@,
                ));
                assert forall|k: int| 0 <= k < i + 1 implies dumped_one(
                    self.resolution,
                    positions@[k],
                    handles@[k],
                    #[trigger] trace[k],
                    trace[k + 1],
                ) by {
                    if k < i {
                        assert(trace[k] == earlier[k]);
                        assert(trace[k + 1] == earlier[k + 1]);
                    } else {
                        assert(trace[k] == before.cells@);
                        assert(trace[k + 1] == self.cells@);
                    }
                }
                assert forall|c: Cell| old(self).occupied(c) implies #[trigger] self.representative(
                    c,
                ) == old(self).representative(c) by {
                    assert(before.representative(c) == old(self).representative(c));
                    if c != cell {
                        assert(self.representative(c) == before.representative(c));
                    }
                }
                assert forall|c: Cell| #[trigger]
                    self.occupied(c) && !old(self).occupied(c) implies handles@.contains(
                    self.representative(c).unwrap(),
                ) by {
                    if c != cell {
                        assert(self.representative(c) == before.representative(c));
                        assert(before.occupied(c));
                    } else if before.occupied(c) {
                    } else {
                        assert(handles@[i as int] == self.representative(c).unwrap());
                    }
                }
            }
            i += 1;
        }
        proof {
            assert(dump_trace(self.resolution, positions@, handles@, trace));
        }
    }

    /// The handle of the first point that fell into `cell`, if any did.
    pub fn get(&self, cell: &Cell) -> (handle: Option<u32>)
        ensures
            handle == self.representative(*cell),
    {
        let key: u128 = key_of(*cell);
        match map_get(&self.cells, &key) {
            Some(handle) => Some(*handle),
            None => None,
        }
    }

    /// Appends to `out` the `k` occupied cells nearest to `origin`, nearest
    /// first, among those no farther than the given range on each axis.
    /// Distance is the largest of the three axis distances.
    ///
    /// Returns `Ok` when `k` cells were found. Otherwise every occupied cell
    /// in range was appended, and the result is `Err` with the number of
    /// cells still missing.
    pub fn nearest_cells(
        &self,
        origin: Cell,
        k: usize,
        max_range_x: u32,
        max_range_y: u32,
        max_range_z: u32,
        out: &mut Vec<Cell>,
    ) -> (result: Result<(), usize>)
        ensures
            old(out)@.len() <= final(out)@.len() <= old(out)@.len() + k,
            final(out)@.subrange(0, old(out)@.len() as int) == old(out)@,
            ({
                let found = final(out)@.subrange(old(out)@.len() as int, final(out)@.len() as int);
                &&& nearest_found(
                    self.cells@,
                    origin,
                    k as int,
                    max_range_x,
                    max_range_y,
                    max_range_z,
                    found,
                )
                &&& result == if found.len() == k {
                    Ok::<(), usize>(())
                } else {
                    Err::<(), usize>((k - found.len()) as usize)
                }
            }),
    {
        let mut found: Vec<Cell> = Vec::new();
        let complete: bool = self.search(
            origin,
            k,
            max_range_x,
            max_range_y,
            max_range_z,
            &mut found,
        );
        let missing: usize = k - found.len();
        let ghost listed = found@;
        out.append(&mut found);
        proof {
            assert(out@.subrange(0, old(out)@.len() as int) =~= old(out)@);
            assert(out@.subrange(old(out)@.len() as int, out@.len() as int) =~= listed);
            assert forall|i: int| 0 <= i < listed.len() implies occupied_in(
                self.cells@,
                #[trigger] listed[i],
            ) && within(origin, listed[i], max_range_x, max_range_y, max_range_z) by {
                assert(self.occupied(listed[i]));
            }
            assert forall|c: Cell|
                #[trigger] occupied_in(self.cells@, c) && within(
                    origin,
                    c,
                    max_range_x,
                    max_range_y,
                    max_range_z,
                ) && !listed.contains(c) implies listed.len() == k && forall|i: int|
                0 <= i < listed.len() ==> chebyshev(origin, #[trigger] listed[i]) <= chebyshev(
                    origin,
                    c,
                ) by {
                assert(self.occupied(c));
            }
            assert(nearest_found(
                self.cells@,
                origin,
                k as int,
                max_range_x,
                max_range_y,
                max_range_z,
                listed,
            ));
        }
        if missing == 0 {
            Ok(())
        } else {
            Err(missing)
        }
    }

    /// The search behind [`SpatialHash::nearest_cells`], into an empty list.
    /// Returns whether `k` cells were found.
    fn search(
        &self,
        origin: Cell,
        k: usize,
        range_x: u32,
        range_y: u32,
        range_z: u32,
        found: &mut Vec<Cell>,
    ) -> (complete: bool)
        requires
            old(found)@.len() == 0,
        ensures
            final(found)@.len() <= k,
            complete == (final(found)@.len() == k),
            forall|i: int|
                0 <= i < final(found)@.len() ==> self.occupied(#[trigger] final(found)@[i])
                    && within(origin, final(found)@[i], range_x, range_y, range_z),
            forall|i: int, j: int|
                0 <= i < j < final(found)@.len() ==> final(found)@[i] != final(found)@[j]
                    && chebyshev(origin, final(found)@[i]) <= chebyshev(origin, final(found)@[j]),
            forall|c: Cell|
                #[trigger] self.occupied(c) && within(origin, c, range_x, range_y, range_z)
                    && !final(found)@.contains(c) ==> final(found)@.len() == k && forall|i: int|
                    0 <= i < final(found)@.len() ==> chebyshev(origin, #[trigger] final(found)@[i])
                        <= chebyshev(origin, c),
    {
        if k == 0 {
            return true;
        }
        let rx: i64 = range_x as i64;
        let ry: i64 = range_y as i64;
        let rz: i64 = range_z as i64;
        let reach: i64 = if rx >= ry && rx >= rz {
            rx
        } else if ry >= rz {
            ry
        } else {
            rz
        };
        let mut r: i64 = 0;
        while r <= reach
            invariant
                0 <= r <= reach + 1,
                k > 0,
                rx == range_x,
                ry == range_y,
                rz == range_z,
                reach >= rx && reach >= ry && reach >= rz,
                reach <= u32::MAX,
                found@.len() < k,
                self.found_so_far(origin, range_x, range_y, range_z, found@, r as int, -r, -r, -r),
            decreases reach + 1 - r,
        {
            let hx: i64 = if r < rx {
                r
            } else {
                rx
            };
            let hy: i64 = if r < ry {
                r
            } else {
                ry
            };
            let hz: i64 = if r < rz {
                r
            } else {
                rz
            };
            let mut dx: i64 = -hx;
            while dx <= hx
                invariant
                    0 <= r <= reach,
                    reach <= u32::MAX,
                    k > 0,
                    rx == range_x,
                    ry == range_y,
                    rz == range_z,
                    hx == if r < rx { r } else { rx },
                    hy == if r < ry { r } else { ry },
                    hz == if r < rz { r } else { rz },
                    -hx <= dx <= hx + 1,
                    found@.len() < k,
                    self.found_so_far(
                        origin,
                        range_x,
                        range_y,
                        range_z,
                        found@,
                        r as int,
                        dx as int,
                        -r,
                        -r,
                    ),
                decreases hx + 1 - dx,
            {
                let mut dy: i64 = -hy;
                while dy <= hy
                    invariant
                        0 <= r <= reach,
                        reach <= u32::MAX,
                        k > 0,
                        rx == range_x,
                        ry == range_y,
                        rz == range_z,
                        hx == if r < rx { r } else { rx },
                        hy == if r < ry { r } else { ry },
                        hz == if r < rz { r } else { rz },
                        -hx <= dx <= hx,
                        -hy <= dy <= hy + 1,
                        found@.len() < k,
                        self.found_so_far(
                            origin,
                            range_x,
                            range_y,
                            range_z,
                            found@,
                            r as int,
                            dx as int,
                            dy as int,
                            -r,
                        ),
                    decreases hy + 1 - dy,
                {
                    let mut dz: i64 = -hz;
                    while dz <= hz
                        invariant
                            0 <= r <= reach,
                            reach <= u32::MAX,
                            k > 0,
                            rx == range_x,
                            ry == range_y,
                            rz == range_z,
                            hx == if r < rx { r } else { rx },
                            hy == if r < ry { r } else { ry },
                            hz == if r < rz { r } else { rz },
                            -hx <= dx <= hx,
                            -hy <= dy <= hy,
                            -hz <= dz <= hz + 1,
                            found@.len() < k,
                            self.found_so_far(
                                origin,
                                range_x,
                                range_y,
                                range_z,
                                found@,
                                r as int,
                                dx as int,
                                dy as int,
                                dz as int,
                            ),
                        decreases hz + 1 - dz,
                    {
                        let on_ring: bool = dx == r || dx == -r || dy == r || dy == -r || dz == r
                            || dz == -r;
                        let x: i64 = origin.x as i64 + dx;
                        let y: i64 = origin.y as i64 + dy;
                        let z: i64 = origin.z as i64 + dz;
                        let ghost before = found@;
                        if on_ring && -0x8000_0000 <= x && x <= 0x7fff_ffff && -0x8000_0000 <= y
                            && y <= 0x7fff_ffff && -0x8000_0000 <= z && z <= 0x7fff_ffff {
                            let cell = Cell { x: x as i32, y: y as i32, z: z as i32 };
                            assert(chebyshev(origin, cell) == r);
                            if self.get(&cell).is_some() {
                                found.push(cell);
                                proof {
                                    assert forall|c: Cell|
                                        #[trigger] self.occupied(c) && within(
                                            origin,
                                            c,
                                            range_x,
                                            range_y,
                                            range_z,
                                        ) && passed(origin, c, r as int, dx as int, dy as int, dz + 1)
                                        implies found@.contains(c) by {
                                        if c == cell {
                                            assert(found@[before.len() as int] == c);
                                        } else {
                                            assert(passed(
                                                origin,
                                                c,
                                                r as int,
                                                dx as int,
                                                dy as int,
                                                dz as int,
                                            ));
                                            assert(before.contains(c));
                                            let i = choose|i: int|
                                                0 <= i < before.len() && before[i] == c;
                                            assert(found@[i] == c);
                                        }
                                    }
                                    assert forall|i: int, j: int|
                                        0 <= i < j < found@.len() implies found@[i] != found@[j]
                                        && chebyshev(origin, found@[i]) <= chebyshev(
                                        origin,
                                        found@[j],
                                    ) by {
                                        assert(found@[i] == before[i]);
                                        if j < before.len() {
                                            assert(found@[j] == before[j]);
                                        }
                                    }
                                    assert forall|i: int| 0 <= i < found@.len() implies self.occupied(
                                        #[trigger] found@[i],
                                    ) && within(origin, found@[i], range_x, range_y, range_z)
                                        && passed(
                                        origin,
                                        found@[i],
                                        r as int,
                                        dx as int,
                                        dy as int,
                                        dz + 1,
                                    ) by {
                                        if i < before.len() {
                                            assert(found@[i] == before[i]);
                                        }
                                    }
                                }
                                if found.len() == k {
                                    proof {
                                        assert forall|c: Cell|
                                            #[trigger] self.occupied(c) && within(
                                                origin,
                                                c,
                                                range_x,
                                                range_y,
                                                range_z,
                                            ) && !found@.contains(c) implies forall|i: int|
                                            0 <= i < found@.len() ==> chebyshev(
                                                origin,
                                                #[trigger] found@[i],
                                            ) <= chebyshev(origin, c) by {
                                            assert(!passed(
                                                origin,
                                                c,
                                                r as int,
                                                dx as int,
                                                dy as int,
                                                dz + 1,
                                            ));
                                        }
                                    }
                                    return true;
                                }
                            } else {
                                proof {
                                    assert forall|c: Cell|
                                        #[trigger] self.occupied(c) && within(
                                            origin,
                                            c,
                                            range_x,
                                            range_y,
                                            range_z,
                                        ) && passed(origin, c, r as int, dx as int, dy as int, dz + 1)
                                        implies found@.contains(c) by {
                                        assert(c != cell);
                                        assert(passed(
                                            origin,
                                            c,
                                            r as int,
                                            dx as int,
                                            dy as int,
                                            dz as int,
                                        ));
                                    }
                                }
                            }
                        } else {
                            proof {
                                assert forall|c: Cell|
                                    #[trigger] self.occupied(c) && within(
                                        origin,
                                        c,
                                        range_x,
                                        range_y,
                                        range_z,
                                    ) && passed(origin, c, r as int, dx as int, dy as int, dz + 1)
                                    implies found@.contains(c) by {
                                    assert(passed(
                                        origin,
                                        c,
                                        r as int,
                                        dx as int,
                                        dy as int,
                                        dz as int,
                                    ));
                                }
                            }
                        }
                        dz += 1;
                    }
                    proof {
                        assert forall|c: Cell|
                            #[trigger] self.occupied(c) && within(
                                origin,
                                c,
                                range_x,
                                range_y,
                                range_z,
                            ) && passed(origin, c, r as int, dx as int, dy + 1, -r)
                            implies found@.contains(c) by {
                            assert(passed(origin, c, r as int, dx as int, dy as int, hz + 1));
                        }
                    }
                    dy += 1;
                }
                proof {
                    assert forall|c: Cell|
                        #[trigger] self.occupied(c) && within(origin, c, range_x, range_y, range_z)
                            && passed(origin, c, r as int, dx + 1, -r, -r)
                        implies found@.contains(c) by {
                        assert(passed(origin, c, r as int, dx as int, hy + 1, -r));
                    }
                }
                dx += 1;
            }
            proof {
                assert forall|c: Cell|
                    #[trigger] self.occupied(c) && within(origin, c, range_x, range_y, range_z)
                        && passed(origin, c, r + 1, -(r + 1), -(r + 1), -(r + 1))
                    implies found@.contains(c) by {
                    assert(passed(origin, c, r as int, hx + 1, -r, -r));
                }
            }
            r += 1;
        }
        proof {
            assert forall|c: Cell|
                #[trigger] self.occupied(c) && within(origin, c, range_x, range_y, range_z)
                implies found@.contains(c) by {
                assert(passed(origin, c, r as int, -r, -r, -r));
            }
        }
        false
    }
}

/// The key of `cell`.
fn key_of(cell: Cell) -> (key: u128)
    ensures
        key == cell_key(cell),
{
    let x: u128 = (cell.x as i64 + 0x8000_0000) as u128;
    let y: u128 = (cell.y as i64 + 0x8000_0000) as u128;
    let z: u128 = (cell.z as i64 + 0x8000_0000) as u128;
    x * 0x1_0000_0000_0000_0000 + y * 0x1_0000_0000 + z
}

} // verus!
