//! The lattice of a building.
//!
//! A building stands on four anchors and rises floor by floor. Every floor
//! adds a ring of four corners above the ring below, a brace in the middle
//! of each wall, and two diagonals across the ceiling.

use vstd::prelude::*;
use crate::lattice::{XpbdLatticeBuilder, XpbdLinkOptions, XpbdNodeOptions};
use crate::numeric::{
    Scalar,
    Vector,
    difference,
    is_zero,
    negation,
    product,
    quotient,
    ratio_of,
    real_of_i32,
    real_of_u32,
    vector_of,
    vsum,
    zero,
};

verus! {

/// The nodes that one floor adds.
pub const FLOOR_NODE_COUNT: u32 = 8;

/// The links that one floor adds.
pub const FLOOR_LINK_COUNT: u32 = 26;

/// The most floors a building can have: beyond it the links could not be
/// numbered in 32 bits.
pub const MAX_FLOORS: u32 = 165_000_000;

/// The mass of every node.
pub const NODE_MASS: i32 = 250;

/// The number of the first corner of the ring at the top of `floor` floors:
/// the anchors for none.
pub open spec fn ring(floors: int) -> int {
    if floors <= 0 {
        0
    } else {
        4 + 8 * (floors - 1)
    }
}

/// The four links between the anchors.
pub open spec fn anchor_links() -> Seq<(u32, u32)> {
    seq![(0u32, 1u32), (1u32, 2u32), (2u32, 3u32), (3u32, 0u32)]
}

/// The links that the floor numbered `floor`, from `0`, adds: the ring of
/// its ceiling, the pillars down to the ring below, four braces from the
/// middle of each wall, and the two diagonals of the ceiling.
pub open spec fn floor_links(floor: int) -> Seq<(u32, u32)> {
    let top = (4 + 8 * floor) as u32;
    let low = ring(floor) as u32;
    let bl = top;
    let br = (top + 1) as u32;
    let fr = (top + 2) as u32;
    let fl = (top + 3) as u32;
    let cl = (top + 4) as u32;
    let cr = (top + 5) as u32;
    let cf = (top + 6) as u32;
    let cb = (top + 7) as u32;
    let l0 = low;
    let l1 = (low + 1) as u32;
    let l2 = (low + 2) as u32;
    let l3 = (low + 3) as u32;
    seq![
        (bl, br),
        (br, fr),
        (fr, fl),
        (fl, bl),
        (bl, l0),
        (br, l1),
        (fr, l2),
        (fl, l3),
        (cl, bl),
        (cl, fl),
        (cl, l0),
        (cl, l3),
        (cr, br),
        (cr, fr),
        (cr, l1),
        (cr, l2),
        (cf, fl),
        (cf, fr),
        (cf, l2),
        (cf, l3),
        (cb, br),
        (cb, bl),
        (cb, l0),
        (cb, l1),
        (bl, fr),
        (br, fl),
    ]
}

/// The links of a building of `floors` floors, in the order they are
/// declared.
pub open spec fn structure_links(floors: int) -> Seq<(u32, u32)>
    decreases floors,
{
    if floors <= 0 {
        anchor_links()
    } else {
        structure_links(floors - 1) + floor_links(floors - 1)
    }
}

/// A building has four links between its anchors and twenty-six per floor.
pub proof fn lemma_structure_link_count(floors: int)
    requires
        floors >= 0,
    ensures
        structure_links(floors).len() == 4 + 26 * floors,
    decreases floors,
{
    if floors > 0 {
        lemma_structure_link_count(floors - 1);
    }
}

/// The measures that every node of a building is placed by: half the
/// width and half the depth, the two negated, a zero and a half.
pub struct Footprint<S> {
    pub w: S,
    pub d: S,
    pub left: S,
    pub back: S,
    pub none: S,
    pub half: S,
}

/// `f` holds the measures of a building `width` wide and `depth` deep.
pub open spec fn footprint<S: Scalar>(width: S, depth: S, f: Footprint<S>) -> bool {
    exists|two: S|
        #![trigger ratio_of(2, 1, two)]
        ratio_of(2, 1, two) && quotient(width, two, f.w) && quotient(depth, two, f.d) && negation(
            f.w,
            f.left,
        ) && negation(f.d, f.back) && is_zero(f.none) && ratio_of(1, 2, f.half)
}

/// `pos` is the place `(x, y, z)` away from `origin`.
pub open spec fn corner<S: Scalar, V: Vector<S>>(origin: V, x: S, y: S, z: S, pos: V) -> bool {
    exists|local: V| #![auto] vector_of::<S, V>(x, y, z, local) && vsum::<S, V>(origin, local, pos)
}

/// The place `(x, y, z)` away from `origin`.
pub fn corner_at<S: Scalar, V: Vector<S>>(origin: V, x: S, y: S, z: S) -> (pos: V)
    ensures
        corner(origin, x, y, z, pos),
{
    origin.plus(V::new(x, y, z))
}

/// `ceiling` and `mid` are the heights of the ceiling and of the braces of
/// the floor numbered `floor`, from `0`, where a floor is `height` high:
/// `height (floor + 1)`, and half a floor below.
pub open spec fn levels<S: Scalar>(height: S, half: S, floor: u32, ceiling: S, mid: S) -> bool {
    exists|n: S, drop: S|
        #![auto]
        real_of_u32((floor + 1) as u32, n) && product(height, n, ceiling) && product(
            height,
            half,
            drop,
        ) && difference(ceiling, drop, mid)
}

/// The eight nodes from `base` on stand where a floor has them: the four
/// corners of the ceiling, back left, back right, front right, front left;
/// then the braces in the middle of the left, right, front and back wall.
pub open spec fn floor_placed<S: Scalar, V: Vector<S>>(
    origin: V,
    f: Footprint<S>,
    ceiling: S,
    mid: S,
    nodes: Seq<XpbdNodeOptions<S, V>>,
    base: int,
) -> bool {
    &&& corner(origin, f.left, ceiling, f.back, nodes[base].pos)
    &&& corner(origin, f.w, ceiling, f.back, nodes[base + 1].pos)
    &&& corner(origin, f.w, ceiling, f.d, nodes[base + 2].pos)
    &&& corner(origin, f.left, ceiling, f.d, nodes[base + 3].pos)
    &&& corner(origin, f.left, mid, f.none, nodes[base + 4].pos)
    &&& corner(origin, f.w, mid, f.none, nodes[base + 5].pos)
    &&& corner(origin, f.none, mid, f.d, nodes[base + 6].pos)
    &&& corner(origin, f.none, mid, f.back, nodes[base + 7].pos)
}

/// The floor numbered `floor` stands at its levels.
pub open spec fn floor_stands<S: Scalar, V: Vector<S>>(
    origin: V,
    f: Footprint<S>,
    height: S,
    nodes: Seq<XpbdNodeOptions<S, V>>,
    floor: u32,
) -> bool {
    exists|ceiling: S, mid: S|
        #![trigger levels(height, f.half, floor, ceiling, mid)]
        levels(height, f.half, floor, ceiling, mid) && floor_placed(
            origin,
            f,
            ceiling,
            mid,
            nodes,
            4 + 8 * floor,
        )
}

/// The four anchors stand on the ground: back left, back right, front
/// right, front left.
pub open spec fn anchors_placed<S: Scalar, V: Vector<S>>(
    origin: V,
    f: Footprint<S>,
    nodes: Seq<XpbdNodeOptions<S, V>>,
) -> bool {
    &&& corner(origin, f.left, f.none, f.back, nodes[0].pos)
    &&& corner(origin, f.w, f.none, f.back, nodes[1].pos)
    &&& corner(origin, f.w, f.none, f.d, nodes[2].pos)
    &&& corner(origin, f.left, f.none, f.d, nodes[3].pos)
}

/// The compliance of the link numbered `c` within its floor: the ring and
/// the pillars are very stiff, the braces stiff, and the diagonals of the
/// ceiling soft.
pub open spec fn graded<S>(c: int, strong: S, mid: S, weak: S) -> S {
    if c < 8 {
        strong
    } else if c < 24 {
        mid
    } else {
        weak
    }
}

/// The three compliances of a building.
pub struct Grades<S> {
    pub strong: S,
    pub mid: S,
    pub weak: S,
}

/// `g` holds the compliances that the constants give.
pub open spec fn grades<S: Scalar>(g: Grades<S>) -> bool {
    ratio_of(175, 1_000_000_000, g.strong) && ratio_of(75, 10_000_000, g.mid) && ratio_of(
        1,
        1000,
        g.weak,
    )
}

/// `lattice` is the building of `floors` floors that was asked for: what
/// stands where, what weighs what, and how stiff every link is.
pub open spec fn structured<S: Scalar, V: Vector<S>>(
    origin: V,
    width: S,
    height: S,
    depth: S,
    floors: u32,
    lattice: XpbdLatticeBuilder<S, V>,
) -> bool {
    exists|f: Footprint<S>, g: Grades<S>, mass: S|
        #![trigger footprint(width, depth, f), grades(g), real_of_i32(NODE_MASS, mass)]
        footprint(width, depth, f) && grades(g) && real_of_i32(NODE_MASS, mass) && built(
            origin,
            height,
            floors,
            f,
            g,
            mass,
            lattice,
        )
}

/// `lattice` holds the first `floors` floors of a building with the
/// measures `f`, the compliances `g` and nodes of the mass `mass`.
pub open spec fn built<S: Scalar, V: Vector<S>>(
    origin: V,
    height: S,
    floors: u32,
    f: Footprint<S>,
    g: Grades<S>,
    mass: S,
    lattice: XpbdLatticeBuilder<S, V>,
) -> bool {
    &&& lattice.nodes@.len() == 4 + 8 * floors
    &&& lattice.links@.len() == 4 + 26 * floors
    &&& forall|k: int| 0 <= k < lattice.nodes@.len() ==> (#[trigger] lattice.nodes@[k]).mass == mass
    &&& anchors_placed(origin, f, lattice.nodes@)
    &&& forall|i: u32| 0 <= i < floors ==> #[trigger] floor_stands(origin, f, height, lattice.nodes@, i)
    &&& forall|j: int| 0 <= j < 4 ==> (#[trigger] lattice.links@[j]).options.compliance == g.strong
    &&& forall|i: int, c: int|
        0 <= i < floors && 0 <= c < 26 ==> (#[trigger] lattice.links@[4 + 26 * i + c]).options.compliance
            == graded(c, g.strong, g.mid, g.weak)
}

/// The lattice of a building of `floors` floors, `width` by `depth` around
/// `origin`, each floor `height` high.
///
/// The four anchors are fixed; the eight nodes of every floor are free.
/// Every node weighs the same, and every link rests at its initial length.
pub fn create_structure_lattice<S: Scalar, V: Vector<S>>(
    origin: V,
    width: S,
    height: S,
    depth: S,
    floors: u32,
) -> (lattice: XpbdLatticeBuilder<S, V>)
    requires
        0 < floors <= MAX_FLOORS,
    ensures
        lattice.wf(),
        lattice.nodes@.len() == 4 + 8 * floors,
        lattice.links@.len() == 4 + 26 * floors,
        lattice.link_pairs() == structure_links(floors as int),
        forall|k: int| 0 <= k < lattice.nodes@.len() ==> (#[trigger] lattice.nodes@[k]).fixed == (k < 4),
        forall|j: int|
            0 <= j < lattice.links@.len() ==> (#[trigger] lattice.links@[j]).options.rest_length.is_none(),
        structured(origin, width, height, depth, floors, lattice),
{
    let total: u32 = FLOOR_NODE_COUNT * floors + 4;
    let mass: S = S::from_i32(NODE_MASS);
    let g: Grades<S> = Grades {
        strong: S::ratio(175, 1_000_000_000),
        mid: S::ratio(75, 10_000_000),
        weak: S::ratio(1, 1000),
    };
    let strong: XpbdLinkOptions<S> = XpbdLinkOptions::new(g.strong);
    let none: S = zero::<S>();
    let two: S = S::ratio(2, 1);
    let half: S = S::ratio(1, 2);
    let w: S = width.over(two);
    let d: S = depth.over(two);
    let f: Footprint<S> = Footprint { w, d, left: w.negated(), back: d.negated(), none, half };
    assert(footprint(width, depth, f));
    let mut lattice: XpbdLatticeBuilder<S, V> = XpbdLatticeBuilder::with_capacity(total as usize);

    let bottom_l_b: u32 = lattice.node(
        XpbdNodeOptions::new(corner_at(origin, f.left, f.none, f.back), mass).with_fixed(true),
    );
    let bottom_r_b: u32 = lattice.node(
        XpbdNodeOptions::new(corner_at(origin, f.w, f.none, f.back), mass).with_fixed(true),
    );
    let bottom_r_f: u32 = lattice.node(
        XpbdNodeOptions::new(corner_at(origin, f.w, f.none, f.d), mass).with_fixed(true),
    );
    let bottom_l_f: u32 = lattice.node(
        XpbdNodeOptions::new(corner_at(origin, f.left, f.none, f.d), mass).with_fixed(true),
    );
    lattice.link_nodes(bottom_l_b, bottom_r_b, strong);
    lattice.link_nodes(bottom_r_b, bottom_r_f, strong);
    lattice.link_nodes(bottom_r_f, bottom_l_f, strong);
    lattice.link_nodes(bottom_l_f, bottom_l_b, strong);
    assert(lattice.link_pairs() =~= anchor_links());

    assert(grades(g));
    let mut i: u32 = 0;
    while i < floors
        invariant
            i <= floors <= MAX_FLOORS,
            lattice.wf(),
            footprint(width, depth, f),
            grades(g),
            real_of_i32(NODE_MASS, mass),
            lattice.link_pairs() == structure_links(i as int),
            built(origin, height, i, f, g, mass, lattice),
            forall|k: int|
                0 <= k < lattice.nodes@.len() ==> (#[trigger] lattice.nodes@[k]).fixed == (k < 4),
            forall|j: int|
                0 <= j < lattice.links@.len() ==> (
                #[trigger] lattice.links@[j]).options.rest_length.is_none(),
        decreases floors - i,
    {
        add_floor(&mut lattice, origin, height, &f, &g, mass, i);
        i += 1;
    }
    proof {
        assert(footprint(width, depth, f));
        assert(grades(g));
        assert(built(origin, height, floors, f, g, mass, lattice));
    }
    lattice
}

/// Adds the floor numbered `floor` to a building that has the floors below
/// it.
fn add_floor<S: Scalar, V: Vector<S>>(
    lattice: &mut XpbdLatticeBuilder<S, V>,
    origin: V,
    height: S,
    f: &Footprint<S>,
    g: &Grades<S>,
    mass: S,
    floor: u32,
)
    requires
        floor < MAX_FLOORS,
        old(lattice).wf(),
        old(lattice).link_pairs() == structure_links(floor as int),
        built(origin, height, floor, *f, *g, mass, *old(lattice)),
        forall|k: int|
            0 <= k < old(lattice).nodes@.len() ==> (#[trigger] old(lattice).nodes@[k]).fixed == (k
                < 4),
        forall|j: int|
            0 <= j < old(lattice).links@.len() ==> (
            #[trigger] old(lattice).links@[j]).options.rest_length.is_none(),
    ensures
        final(lattice).wf(),
        final(lattice).link_pairs() == structure_links(floor + 1),
        built(origin, height, (floor + 1) as u32, *f, *g, mass, *final(lattice)),
        forall|k: int|
            0 <= k < final(lattice).nodes@.len() ==> (#[trigger] final(lattice).nodes@[k]).fixed
                == (k < 4),
        forall|j: int|
            0 <= j < final(lattice).links@.len() ==> (
            #[trigger] final(lattice).links@[j]).options.rest_length.is_none(),
{
    let strong: XpbdLinkOptions<S> = XpbdLinkOptions::new(g.strong);
    let mid: XpbdLinkOptions<S> = XpbdLinkOptions::new(g.mid);
    let weak: XpbdLinkOptions<S> = XpbdLinkOptions::new(g.weak);
    let l0: u32 = if floor == 0 {
        0
    } else {
        4 + 8 * (floor - 1)
    };
    let l1: u32 = l0 + 1;
    let l2: u32 = l0 + 2;
    let l3: u32 = l0 + 3;
    let ceiling_y: S = height.times(S::from_u32(floor + 1));
    let mid_y: S = ceiling_y.minus(height.times(f.half));
    proof {
        assert(levels(height, f.half, floor, ceiling_y, mid_y));
    }
    let ghost pairs_before = lattice.link_pairs();
    let ghost nodes_before = lattice.nodes@;
    let ghost links_before = lattice.links@;

    let back_left: u32 = lattice.node(
        XpbdNodeOptions::new(corner_at(origin, f.left, ceiling_y, f.back), mass),
    );
    let back_right: u32 = lattice.node(
        XpbdNodeOptions::new(corner_at(origin, f.w, ceiling_y, f.back), mass),
    );
    let front_right: u32 = lattice.node(
        XpbdNodeOptions::new(corner_at(origin, f.w, ceiling_y, f.d), mass),
    );
    let front_left: u32 = lattice.node(
        XpbdNodeOptions::new(corner_at(origin, f.left, ceiling_y, f.d), mass),
    );

    lattice.link_nodes(back_left, back_right, strong);
    lattice.link_nodes(back_right, front_right, strong);
    lattice.link_nodes(front_right, front_left, strong);
    lattice.link_nodes(front_left, back_left, strong);

    lattice.link_nodes(back_left, l0, strong);
    lattice.link_nodes(back_right, l1, strong);
    lattice.link_nodes(front_right, l2, strong);
    lattice.link_nodes(front_left, l3, strong);

    let c_left: u32 = lattice.node(
        XpbdNodeOptions::new(corner_at(origin, f.left, mid_y, f.none), mass),
    );
    let c_right: u32 = lattice.node(XpbdNodeOptions::new(corner_at(origin, f.w, mid_y, f.none), mass));
    let c_front: u32 = lattice.node(XpbdNodeOptions::new(corner_at(origin, f.none, mid_y, f.d), mass));
    let c_back: u32 = lattice.node(
        XpbdNodeOptions::new(corner_at(origin, f.none, mid_y, f.back), mass),
    );

    lattice.link_nodes(c_left, back_left, mid);
    lattice.link_nodes(c_left, front_left, mid);
    lattice.link_nodes(c_left, l0, mid);
    lattice.link_nodes(c_left, l3, mid);

    lattice.link_nodes(c_right, back_right, mid);
    lattice.link_nodes(c_right, front_right, mid);
    lattice.link_nodes(c_right, l1, mid);
    lattice.link_nodes(c_right, l2, mid);

    lattice.link_nodes(c_front, front_left, mid);
    lattice.link_nodes(c_front, front_right, mid);
    lattice.link_nodes(c_front, l2, mid);
    lattice.link_nodes(c_front, l3, mid);

    lattice.link_nodes(c_back, back_right, mid);
    lattice.link_nodes(c_back, back_left, mid);
    lattice.link_nodes(c_back, l0, mid);
    lattice.link_nodes(c_back, l1, mid);

    lattice.link_nodes(back_left, front_right, weak);
    lattice.link_nodes(back_right, front_left, weak);

    proof {
        let nodes = lattice.nodes@;
        let links = lattice.links@;
        let base = 4 + 8 * floor;
        assert(lattice.link_pairs() =~= pairs_before + floor_links(floor as int));
        assert forall|k: int| 0 <= k < nodes_before.len() implies #[trigger] nodes[k]
            == nodes_before[k] by {}
        assert forall|j: int| 0 <= j < links_before.len() implies #[trigger] links[j]
            == links_before[j] by {}
        assert(floor_placed(origin, *f, ceiling_y, mid_y, nodes, base));
        assert(floor_stands(origin, *f, height, nodes, floor));
        assert forall|i: u32| 0 <= i < floor + 1 implies #[trigger] floor_stands(
            origin,
            *f,
            height,
            nodes,
            i,
        ) by {
            if i < floor {
                assert(floor_stands(origin, *f, height, nodes_before, i));
                let (ceiling, mid) = choose|ceiling: S, mid: S|
                    #![trigger levels(height, f.half, i, ceiling, mid)]
                    levels(height, f.half, i, ceiling, mid) && floor_placed(
                        origin,
                        *f,
                        ceiling,
                        mid,
                        nodes_before,
                        4 + 8 * i,
                    );
                assert(floor_placed(origin, *f, ceiling, mid, nodes, 4 + 8 * i));
            }
        }
        assert forall|i: int, c: int| 0 <= i < floor + 1 && 0 <= c < 26 implies (
        #[trigger] links[4 + 26 * i + c]).options.compliance == graded(
            c,
            g.strong,
            g.mid,
            g.weak,
        ) by {
            if i < floor {
                assert(links[4 + 26 * i + c] == links_before[4 + 26 * i + c]);
            }
        }
        assert(anchors_placed(origin, *f, nodes));
    }
}

} // verus!
