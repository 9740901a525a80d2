//! The voxel grid that a structure is skinned with.
//!
//! A grid is a box of integer cells centred on the origin cell. A generator
//! decides which cells hold a voxel, and every voxel has a place in the
//! world, computed from its cell, the size of the grid and its centre.

use vstd::prelude::*;
use vstd::std_specs::convert::FromSpecImpl;
use crate::numeric::{
    Scalar,
    Vector,
    integer_of,
    is_one,
    is_origin,
    origin,
    product,
    quotient,
    real_of_i32,
    vector_of,
    vsum,
};
use crate::spatial::Cell;

verus! {

/// A cell of a voxel grid.
#[derive(Clone, Copy, Debug, Default, PartialEq, Eq, PartialOrd, Ord, Hash, Structural)]
pub struct VoxelCell {
    pub x: i32,
    pub y: i32,
    pub z: i32,
}

impl From<Cell> for VoxelCell {
    fn from(value: Cell) -> (cell: Self) {
        VoxelCell { x: value.x, y: value.y, z: value.z }
    }
}

impl FromSpecImpl<Cell> for VoxelCell {
    open spec fn obeys_from_spec() -> bool {
        true
    }

    open spec fn from_spec(value: Cell) -> Self {
        VoxelCell { x: value.x, y: value.y, z: value.z }
    }
}

impl From<VoxelCell> for Cell {
    fn from(value: VoxelCell) -> (cell: Self) {
        Cell { x: value.x, y: value.y, z: value.z }
    }
}

impl FromSpecImpl<VoxelCell> for Cell {
    open spec fn obeys_from_spec() -> bool {
        true
    }

    open spec fn from_spec(value: VoxelCell) -> Self {
        Cell { x: value.x, y: value.y, z: value.z }
    }
}

/// The size of a grid in world units, and the number of cells per unit.
#[derive(Clone, Copy, Debug)]
pub struct VoxelGridOptions<S> {
    pub width: S,
    pub height: S,
    pub depth: S,
    pub density: i32,
}

impl<S: Scalar> VoxelGridOptions<S> {
    pub fn new(width: S, height: S, depth: S, density: i32) -> (options: Self)
        ensures
            options.width == width,
            options.height == height,
            options.depth == depth,
            options.density == density,
    {
        VoxelGridOptions { width, height, depth, density }
    }

    pub fn with_width(self, width: S) -> (options: Self)
        ensures
            options.width == width,
            options.height == self.height,
            options.depth == self.depth,
            options.density == self.density,
    {
        VoxelGridOptions { width, height: self.height, depth: self.depth, density: self.density }
    }

    pub fn with_height(self, height: S) -> (options: Self)
        ensures
            options.width == self.width,
            options.height == height,
            options.depth == self.depth,
            options.density == self.density,
    {
        VoxelGridOptions { height, width: self.width, depth: self.depth, density: self.density }
    }

    pub fn with_depth(self, depth: S) -> (options: Self)
        ensures
            options.width == self.width,
            options.height == self.height,
            options.depth == depth,
            options.density == self.density,
    {
        VoxelGridOptions { depth, width: self.width, height: self.height, density: self.density }
    }

    pub fn with_density(self, density: i32) -> (options: Self)
        ensures
            options.width == self.width,
            options.height == self.height,
            options.depth == self.depth,
            options.density == density,
    {
        VoxelGridOptions { density, width: self.width, height: self.height, depth: self.depth }
    }
}

impl<S: Scalar> Default for VoxelGridOptions<S> {
    /// A grid of one unit on each side, one cell per unit.
    fn default() -> (options: Self)
        ensures
            options.density == 1,
            is_one(options.width),
            is_one(options.height),
            is_one(options.depth),
    {
        VoxelGridOptions {
            width: S::ratio(1, 1),
            height: S::ratio(1, 1),
            depth: S::ratio(1, 1),
            density: 1,
        }
    }
}

/// `cells` is the number of cells along an axis of the length `size`:
/// `density size`, cut to a whole number.
pub open spec fn axis_cells<S: Scalar>(density: S, size: S, cells: i32) -> bool {
    exists|long: S| #![auto] product(density, size, long) && integer_of(long, cells)
}

/// `extent` is the number of cells along each axis of a grid with the
/// options `options`.
pub open spec fn extent_of<S: Scalar>(options: VoxelGridOptions<S>, extent: (i32, i32, i32)) -> bool {
    exists|density: S|
        #![trigger real_of_i32(options.density, density)]
        real_of_i32(options.density, density) && axis_cells(density, options.width, extent.0)
            && axis_cells(density, options.height, extent.1) && axis_cells(
            density,
            options.depth,
            extent.2,
        )
}

/// `r` is how far, along one axis of `cells` cells and the length `size`,
/// the cell numbered `c` lies from the centre: `(c / cells) size`.
pub open spec fn axis_place<S: Scalar>(cells: S, size: S, c: i32, r: S) -> bool {
    exists|n: S, part: S| #![auto] real_of_i32(c, n) && quotient(n, cells, part) && product(part, size, r)
}

/// `place` is where the voxel of `cell` lies in a grid around `center`
/// whose axes have `across`, `up` and `along` cells: `center`, plus the
/// place of the cell along each axis, plus `offset`.
pub open spec fn placed<S: Scalar, V: Vector<S>>(
    center: V,
    across: S,
    up: S,
    along: S,
    options: VoxelGridOptions<S>,
    cell: VoxelCell,
    offset: V,
    place: V,
) -> bool {
    exists|x: S, y: S, z: S, local: V, there: V|
        #![trigger axis_place(across, options.width, cell.x, x), axis_place(up, options.height, cell.y, y), axis_place(along, options.depth, cell.z, z), vsum::<S, V>(center, local, there)]
        axis_place(across, options.width, cell.x, x) && axis_place(up, options.height, cell.y, y)
            && axis_place(along, options.depth, cell.z, z) && vector_of::<S, V>(x, y, z, local)
            && vsum::<S, V>(center, local, there) && vsum::<S, V>(there, offset, place)
}

/// Where one voxel lies.
pub fn place_voxel<S: Scalar, V: Vector<S>>(
    center: V,
    across: S,
    up: S,
    along: S,
    options: &VoxelGridOptions<S>,
    cell: VoxelCell,
    offset: V,
) -> (place: V)
    ensures
        placed(center, across, up, along, *options, cell, offset, place),
{
    let x: S = S::from_i32(cell.x).over(across).times(options.width);
    let y: S = S::from_i32(cell.y).over(up).times(options.height);
    let z: S = S::from_i32(cell.z).over(along).times(options.depth);
    proof {
        assert(axis_place(across, options.width, cell.x, x));
        assert(axis_place(up, options.height, cell.y, y));
        assert(axis_place(along, options.depth, cell.z, z));
    }
    center.plus(V::new(x, y, z)).plus(offset)
}

/// Whether `c` lies on an axis of `cells` cells: between `-cells / 2` and
/// `cells / 2`, both included. An axis of no cells holds none.
pub open spec fn on_axis(c: i32, cells: i32) -> bool {
    cells >= 1 && -(cells / 2) <= c <= cells / 2
}

/// Whether `cell` lies in the box of `extent.0` by `extent.1` by `extent.2`
/// cells around the origin cell.
pub open spec fn in_box(cell: VoxelCell, extent: (i32, i32, i32)) -> bool {
    on_axis(cell.x, extent.0) && on_axis(cell.y, extent.1) && on_axis(cell.z, extent.2)
}

/// Whether `a` comes before `b` when cells are ordered by `x`, then `y`,
/// then `z`.
pub open spec fn cell_before(a: VoxelCell, b: VoxelCell) -> bool {
    a.x < b.x || (a.x == b.x && (a.y < b.y || (a.y == b.y && a.z < b.z)))
}

/// Whether a walk through the box that has reached `(x, y, z)` has passed
/// `cell`.
pub open spec fn walked(cell: VoxelCell, x: int, y: int, z: int) -> bool {
    cell.x < x || (cell.x == x && (cell.y < y || (cell.y == y && cell.z < z)))
}

/// A grid of voxels: the generator that chooses the cells, an optional
/// displacement for each, the options, and the voxels built last.
pub struct VoxelGrid<S, V, G, O> {
    pub generator: G,
    pub offset_fn: Option<O>,
    pub options: VoxelGridOptions<S>,
    /// Every voxel with its place in the world, ordered by cell.
    pub voxels: Vec<(VoxelCell, V)>,
}

impl<S: Scalar, V: Vector<S>, G: Fn(VoxelCell) -> bool, O: Fn(VoxelCell) -> V> VoxelGrid<
    S,
    V,
    G,
    O,
> {
    /// The generator and the displacement accept every cell, and the
    /// voxels are in order, so that no cell has two.
    pub open spec fn wf(&self) -> bool {
        &&& forall|c: VoxelCell| self.generator.requires((c,))
        &&& self.offset_fn.is_some() ==> forall|c: VoxelCell|
            self.offset_fn.unwrap().requires((c,))
        &&& forall|i: int, j: int|
            0 <= i < j < self.voxels@.len() ==> cell_before(self.voxels@[i].0, self.voxels@[j].0)
    }

    /// The voxels are those that a walk through the box of `extent` has
    /// passed when it has reached `(x, y, z)`: every cell of the box that it
    /// passed is listed if the generator took it and absent if not.
    pub open spec fn filled_to(&self, extent: (i32, i32, i32), x: int, y: int, z: int) -> bool {
        &&& forall|k: int|
            0 <= k < self.voxels@.len() ==> in_box((#[trigger] self.voxels@[k]).0, extent)
                && walked(self.voxels@[k].0, x, y, z) && self.generator.ensures(
                (self.voxels@[k].0,),
                true,
            )
        &&& forall|c: VoxelCell|
            #[trigger] in_box(c, extent) && walked(c, x, y, z) ==> self.holds(c)
                || self.generator.ensures((c,), false)
        &&& forall|i: int, j: int|
            0 <= i < j < self.voxels@.len() ==> cell_before(self.voxels@[i].0, self.voxels@[j].0)
    }

    /// `offset` is how far the voxel of `cell` is displaced: what the
    /// displacement says of it, or an origin where the grid has none.
    pub open spec fn displaced(&self, cell: VoxelCell, offset: V) -> bool {
        match self.offset_fn {
            Some(offset_fn) => offset_fn.ensures((cell,), offset),
            None => is_origin::<S, V>(offset),
        }
    }

    /// The voxels are those of a grid built around `center` over the box of
    /// `extent`: the cells of the box that the generator took, ordered by
    /// `x`, then `y`, then `z`, each with its place.
    pub open spec fn built_in(&self, center: V, extent: (i32, i32, i32)) -> bool {
        &&& forall|k: int|
            0 <= k < self.voxels@.len() ==> in_box((#[trigger] self.voxels@[k]).0, extent)
                && self.generator.ensures((self.voxels@[k].0,), true)
        &&& forall|c: VoxelCell| #[trigger]
            in_box(c, extent) ==> self.holds(c) || self.generator.ensures((c,), false)
        &&& forall|i: int, j: int|
            0 <= i < j < self.voxels@.len() ==> cell_before(self.voxels@[i].0, self.voxels@[j].0)
        &&& exists|across: S, up: S, along: S|
            #![trigger real_of_i32(extent.0, across), real_of_i32(extent.1, up), real_of_i32(extent.2, along)]
            real_of_i32(extent.0, across) && real_of_i32(extent.1, up) && real_of_i32(
                extent.2,
                along,
            ) && forall|k: int|
                0 <= k < self.voxels@.len() ==> self.placed_voxel(
                    center,
                    across,
                    up,
                    along,
                    (#[trigger] self.voxels@[k]).0,
                    self.voxels@[k].1,
                )
    }

    /// The voxel of `cell` lies at `place`: where the cell, displaced, is
    /// placed.
    pub open spec fn placed_voxel(
        &self,
        center: V,
        across: S,
        up: S,
        along: S,
        cell: VoxelCell,
        place: V,
    ) -> bool {
        exists|offset: V|
            #![trigger placed(center, across, up, along, self.options, cell, offset, place)]
            self.displaced(cell, offset) && placed(
                center,
                across,
                up,
                along,
                self.options,
                cell,
                offset,
                place,
            )
    }

    /// Whether the grid has a voxel at `cell`.
    pub open spec fn holds(&self, cell: VoxelCell) -> bool {
        exists|k: int| 0 <= k < self.voxels@.len() && (#[trigger] self.voxels@[k]).0 == cell
    }

    /// A grid without voxels whose cells are chosen by `generator` and not
    /// displaced.
    pub fn new(generator: G, options: VoxelGridOptions<S>) -> (grid: Self)
        requires
            forall|c: VoxelCell| generator.requires((c,)),
        ensures
            grid.wf(),
            grid.generator == generator,
            grid.offset_fn.is_none(),
            grid.options == options,
            grid.voxels@.len() == 0,
    {
        VoxelGrid { generator, offset_fn: None, options, voxels: Vec::new() }
    }

    /// A grid without voxels whose cells are chosen by `generator` and
    /// displaced by `offset_fn`.
    pub fn with_offsets(generator: G, options: VoxelGridOptions<S>, offset_fn: O) -> (grid: Self)
        requires
            forall|c: VoxelCell| generator.requires((c,)),
            forall|c: VoxelCell| offset_fn.requires((c,)),
        ensures
            grid.wf(),
            grid.generator == generator,
            grid.offset_fn == Some(offset_fn),
            grid.options == options,
            grid.voxels@.len() == 0,
    {
        VoxelGrid { generator, offset_fn: Some(offset_fn), options, voxels: Vec::new() }
    }

    /// The number of cells along each axis: the density times the width,
    /// the height and the depth, each cut to a whole number.
    pub fn extent(&self) -> (extent: (i32, i32, i32))
        ensures
            extent_of(self.options, extent),
    {
        let density: S = S::from_i32(self.options.density);
        let across: i32 = density.times(self.options.width).to_i32();
        let up: i32 = density.times(self.options.height).to_i32();
        let along: i32 = density.times(self.options.depth).to_i32();
        proof {
            assert(axis_cells(density, self.options.width, across));
            assert(axis_cells(density, self.options.height, up));
            assert(axis_cells(density, self.options.depth, along));
        }
        (across, up, along)
    }

    /// Rebuilds the voxels around `center`, over the box that
    /// [`VoxelGrid::extent`] gives.
    pub fn build(&mut self, center: V)
        requires
            old(self).wf(),
        ensures
            final(self).wf(),
            final(self).generator == old(self).generator,
            final(self).offset_fn == old(self).offset_fn,
            final(self).options == old(self).options,
            exists|extent: (i32, i32, i32)|
                #![trigger extent_of(old(self).options, extent)]
                extent_of(old(self).options, extent) && final(self).built_in(center, extent),
    {
        let extent = self.extent();
        self.build_in(center, extent);
    }

    /// Rebuilds the voxels around `center`, over the box of `extent` cells:
    /// the cells of the box that the generator takes, ordered by `x`, then
    /// `y`, then `z`.
    ///
    /// A voxel lies at `center`, plus its cell over the extent times the
    /// size of the grid on each axis, plus its displacement.
    pub fn build_in(&mut self, center: V, extent: (i32, i32, i32))
        requires
            old(self).wf(),
        ensures
            final(self).wf(),
            final(self).generator == old(self).generator,
            final(self).offset_fn == old(self).offset_fn,
            final(self).options == old(self).options,
            final(self).built_in(center, extent),
    {
        self.voxels.clear();
        let hx: i32 = half_extent(extent.0);
        let hy: i32 = half_extent(extent.1);
        let hz: i32 = half_extent(extent.2);
        let across: S = S::from_i32(extent.0);
        let up: S = S::from_i32(extent.1);
        let along: S = S::from_i32(extent.2);
        if hx < 0 || hy < 0 || hz < 0 {
            return ;
        }
        let mut x: i32 = -hx;
        while x <= hx
            invariant
                hx == extent.0 / 2 && extent.0 >= 1,
                hy == extent.1 / 2 && extent.1 >= 1,
                hz == extent.2 / 2 && extent.2 >= 1,
                -hx <= x <= hx + 1,
                self.wf(),
                self.generator == old(self).generator,
                self.offset_fn == old(self).offset_fn,
                self.options == old(self).options,
                self.filled_to(extent, x as int, -hy as int, -hz as int),
                real_of_i32(extent.0, across),
                real_of_i32(extent.1, up),
                real_of_i32(extent.2, along),
                forall|k: int|
                    0 <= k < self.voxels@.len() ==> self.placed_voxel(
                        center,
                        across,
                        up,
                        along,
                        (#[trigger] self.voxels@[k]).0,
                        self.voxels@[k].1,
                    ),
            decreases hx + 1 - x,
        {
            let mut y: i32 = -hy;
            while y <= hy
                invariant
                    hx == extent.0 / 2 && extent.0 >= 1,
                    hy == extent.1 / 2 && extent.1 >= 1,
                    hz == extent.2 / 2 && extent.2 >= 1,
                    -hx <= x <= hx,
                    -hy <= y <= hy + 1,
                    self.wf(),
                    self.generator == old(self).generator,
                    self.offset_fn == old(self).offset_fn,
                    self.options == old(self).options,
                    self.filled_to(extent, x as int, y as int, -hz as int),
                    real_of_i32(extent.0, across),
                    real_of_i32(extent.1, up),
                    real_of_i32(extent.2, along),
                    forall|k: int|
                        0 <= k < self.voxels@.len() ==> self.placed_voxel(
                            center,
                            across,
                            up,
                            along,
                            (#[trigger] self.voxels@[k]).0,
                            self.voxels@[k].1,
                        ),
                decreases hy + 1 - y,
            {
                let mut z: i32 = -hz;
                while z <= hz
                    invariant
                        hx == extent.0 / 2 && extent.0 >= 1,
                        hy == extent.1 / 2 && extent.1 >= 1,
                        hz == extent.2 / 2 && extent.2 >= 1,
                        -hx <= x <= hx,
                        -hy <= y <= hy,
                        -hz <= z <= hz + 1,
                        self.wf(),
                        self.generator == old(self).generator,
                        self.offset_fn == old(self).offset_fn,
                        self.options == old(self).options,
                        self.filled_to(extent, x as int, y as int, z as int),
                        real_of_i32(extent.0, across),
                        real_of_i32(extent.1, up),
                        real_of_i32(extent.2, along),
                        forall|k: int|
                            0 <= k < self.voxels@.len() ==> self.placed_voxel(
                                center,
                                across,
                                up,
                                along,
                                (#[trigger] self.voxels@[k]).0,
                                self.voxels@[k].1,
                            ),
                    decreases hz + 1 - z,
                {
                    let cell = VoxelCell { x, y, z };
                    let ghost before = self.voxels@;
                    let ghost grid_before = *self;
                    if (self.generator)(cell) {
                        let offset: V = match &self.offset_fn {
                            Some(offset_fn) => offset_fn(cell),
                            None => origin::<S, V>(),
                        };
                        let place: V = place_voxel(
                            center,
                            across,
                            up,
                            along,
                            &self.options,
                            cell,
                            offset,
                        );
                        self.voxels.push((cell, place));
                        proof {
                            assert(self.displaced(cell, offset));
                            assert(placed(
                                center,
                                across,
                                up,
                                along,
                                self.options,
                                cell,
                                offset,
                                place,
                            ));
                            assert(self.placed_voxel(center, across, up, along, cell, place));
                            assert forall|k: int| 0 <= k < self.voxels@.len() implies self.placed_voxel(
                                center,
                                across,
                                up,
                                along,
                                (#[trigger] self.voxels@[k]).0,
                                self.voxels@[k].1,
                            ) by {
                                if k < before.len() {
                                    assert(self.voxels@[k] == before[k]);
                                    assert(grid_before.placed_voxel(
                                        center,
                                        across,
                                        up,
                                        along,
                                        before[k].0,
                                        before[k].1,
                                    ));
                                }
                            }
                            assert forall|i: int, j: int|
                                0 <= i < j < self.voxels@.len() implies cell_before(
                                self.voxels@[i].0,
                                self.voxels@[j].0,
                            ) by {
                                assert(self.voxels@[i] == before[i]);
                                if j < before.len() {
                                    assert(self.voxels@[j] == before[j]);
                                }
                            }
                            assert forall|k: int| 0 <= k < self.voxels@.len() implies in_box(
                                (#[trigger] self.voxels@[k]).0,
                                extent,
                            ) && walked(self.voxels@[k].0, x as int, y as int, z + 1)
                                && self.generator.ensures((self.voxels@[k].0,), true) by {
                                if k < before.len() {
                                    assert(self.voxels@[k] == before[k]);
                                }
                            }
                            assert forall|c: VoxelCell|
                                #[trigger] in_box(c, extent) && walked(
                                    c,
                                    x as int,
                                    y as int,
                                    z + 1,
                                ) implies self.holds(c) || self.generator.ensures((c,), false) by {
                                if c == cell {
                                    assert(self.voxels@[before.len() as int].0 == c);
                                } else {
                                    assert(walked(c, x as int, y as int, z as int));
                                    if grid_before.holds(c) {
                                        let k = choose|k: int|
                                            0 <= k < before.len() && (#[trigger] before[k]).0 == c;
                                        assert(self.voxels@[k].0 == c);
                                    }
                                }
                            }
                        }
                    } else {
                        proof {
                            assert forall|c: VoxelCell|
                                #[trigger] in_box(c, extent) && walked(
                                    c,
                                    x as int,
                                    y as int,
                                    z + 1,
                                ) implies self.holds(c) || self.generator.ensures((c,), false) by {
                                if c != cell {
                                    assert(walked(c, x as int, y as int, z as int));
                                }
                            }
                        }
                    }
                    z += 1;
                }
                proof {
                    assert forall|c: VoxelCell|
                        #[trigger] in_box(c, extent) && walked(
                            c,
                            x as int,
                            y + 1,
                            -hz as int,
                        ) implies self.holds(c) || self.generator.ensures((c,), false) by {
                        assert(walked(c, x as int, y as int, hz + 1));
                    }
                }
                y += 1;
            }
            proof {
                assert forall|c: VoxelCell|
                    #[trigger] in_box(c, extent) && walked(
                        c,
                        x + 1,
                        -hy as int,
                        -hz as int,
                    ) implies self.holds(c) || self.generator.ensures((c,), false) by {
                    assert(walked(c, x as int, hy + 1, -hz as int));
                }
            }
            x += 1;
        }
        proof {
            assert forall|c: VoxelCell| #[trigger] in_box(c, extent) implies self.holds(c)
                || self.generator.ensures((c,), false) by {
                assert(walked(c, hx + 1, -hy as int, -hz as int));
            }
        }
    }

    /// The place of the voxel at `cell`, if the grid has one there.
    pub fn get_voxel(&self, cell: VoxelCell) -> (place: Option<V>)
        requires
            self.wf(),
        ensures
            place.is_some() == self.holds(cell),
            place.is_some() ==> exists|k: int|
                0 <= k < self.voxels@.len() && #[trigger] self.voxels@[k] == (cell, place.unwrap()),
    {
        let mut k: usize = 0;
        while k < self.voxels.len()
            invariant
                k <= self.voxels@.len(),
                forall|j: int| 0 <= j < k ==> (#[trigger] self.voxels@[j]).0 != cell,
            decreases self.voxels@.len() - k,
        {
            let entry = self.voxels[k];
            if entry.0.x == cell.x && entry.0.y == cell.y && entry.0.z == cell.z {
                return Some(entry.1);
            }
            k += 1;
        }
        None
    }

    pub fn options(&self) -> (options: &VoxelGridOptions<S>)
        ensures
            *options == self.options,
    {
        &self.options
    }

    /// The options, to be changed in place. The voxels stay as they were
    /// built.
    pub fn options_mut(&mut self) -> (options: &mut VoxelGridOptions<S>)
        ensures
            *options == old(self).options,
            final(self).options == *final(options),
            final(self).generator == old(self).generator,
            final(self).offset_fn == old(self).offset_fn,
            final(self).voxels == old(self).voxels,
    {
        &mut self.options
    }

    /// Every voxel with its place in the world, ordered by cell.
    pub fn voxels(&self) -> (out: &[(VoxelCell, V)])
        ensures
            out@ == self.voxels@,
    {
        self.voxels.as_slice()
    }

    /// The number of voxels.
    pub fn count(&self) -> (n: usize)
        ensures
            n == self.voxels@.len(),
    {
        self.voxels.len()
    }
}

/// Half of `cells`, or `-1` for an axis of no cells.
fn half_extent(cells: i32) -> (half: i32)
    ensures
        cells >= 1 ==> half == cells / 2,
        cells < 1 ==> half == -1,
{
    if cells >= 1 {
        cells / 2
    } else {
        -1
    }
}

} // verus!
