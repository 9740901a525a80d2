use razed::numeric::{Scalar, Vector};

#[derive(Clone, Copy, Debug, PartialEq, PartialOrd)]
struct Real(f32);

impl Scalar for Real {
    fn ratio(num: i32, den: i32) -> Self {
        Real(num as f32 / den as f32)
    }
    fn from_u32(value: u32) -> Self {
        Real(value as f32)
    }
    fn from_i32(value: i32) -> Self {
        Real(value as f32)
    }
    fn to_i32(self) -> i32 {
        self.0 as i32
    }
    fn floor(self) -> Self {
        Real(self.0.floor())
    }
    fn plus(self, rhs: Self) -> Self {
        Real(self.0 + rhs.0)
    }
    fn minus(self, rhs: Self) -> Self {
        Real(self.0 - rhs.0)
    }
    fn times(self, rhs: Self) -> Self {
        Real(self.0 * rhs.0)
    }
    fn over(self, rhs: Self) -> Self {
        Real(self.0 / rhs.0)
    }
    fn negated(self) -> Self {
        Real(-self.0)
    }
    fn less(self, rhs: Self) -> bool {
        self.0 < rhs.0
    }
    fn at_most(self, rhs: Self) -> bool {
        self.0 <= rhs.0
    }
    fn equals(self, rhs: Self) -> bool {
        self.0 == rhs.0
    }
    fn absolute(self) -> Self {
        Real(self.0.abs())
    }
    fn maximum(self, rhs: Self) -> Self {
        Real(self.0.max(rhs.0))
    }
    fn is_normal(self) -> bool {
        self.0.is_normal()
    }
    fn to_bits(self) -> u32 {
        self.0.to_bits()
    }
}

#[derive(Clone, Copy, Debug, PartialEq)]
struct Point(glam::Vec3);

impl Vector<Real> for Point {
    fn new(x: Real, y: Real, z: Real) -> Self {
        Point(glam::Vec3::new(x.0, y.0, z.0))
    }
    fn x(self) -> Real {
        Real(self.0.x)
    }
    fn y(self) -> Real {
        Real(self.0.y)
    }
    fn z(self) -> Real {
        Real(self.0.z)
    }
    fn plus(self, rhs: Self) -> Self {
        Point(self.0 + rhs.0)
    }
    fn minus(self, rhs: Self) -> Self {
        Point(self.0 - rhs.0)
    }
    fn scaled(self, factor: Real) -> Self {
        Point(self.0 * factor.0)
    }
    fn divided(self, divisor: Real) -> Self {
        Point(self.0 / divisor.0)
    }
    fn length(self) -> Real {
        Real(self.0.length())
    }
    fn distance_squared(self, other: Self) -> Real {
        Real(self.0.distance_squared(other.0))
    }
    fn dot(self, other: Self) -> Real {
        Real(self.0.dot(other.0))
    }
    fn normalized(self) -> Self {
        Point(self.0.normalize())
    }
    fn negated(self) -> Self {
        Point(-self.0)
    }
}

fn point(x: f32, y: f32, z: f32) -> Point {
    Point(glam::Vec3::new(x, y, z))
}

use razed::spatial::{Cell, SpatialHash, SpatialResolution};

fn cell(x: i32, y: i32, z: i32) -> Cell {
    Cell { x, y, z }
}

fn chebyshev(a: Cell, b: Cell) -> i64 {
    let dx = (a.x as i64 - b.x as i64).abs();
    let dy = (a.y as i64 - b.y as i64).abs();
    let dz = (a.z as i64 - b.z as i64).abs();
    dx.max(dy).max(dz)
}

#[test]
fn points_fall_into_cells_of_the_given_side() {
    let hash = SpatialHash::new(SpatialResolution::new(2));
    assert_eq!(hash.cell_at::<Real, Point>(point(0.0, 0.0, 0.0)), cell(0, 0, 0));
    assert_eq!(hash.cell_at::<Real, Point>(point(1.9, 2.0, 3.9)), cell(0, 1, 1));
    assert_eq!(hash.cell_at::<Real, Point>(point(-0.1, -2.0, -2.1)), cell(-1, -1, -2));
    assert_eq!(hash.cell_at::<Real, Point>(point(7.5, -7.5, 100.0)), cell(3, -4, 50));
    let centre: Point = hash.approx_point_at::<Real, Point>(cell(0, -1, 3));
    assert_eq!(centre, point(1.0, -1.0, 7.0));
    let centre: Point = hash.approx_point_at::<Real, Point>(cell(-4, 10, 0));
    assert_eq!(hash.cell_at::<Real, Point>(centre), cell(-4, 10, 0));
}

#[test]
fn a_cell_is_represented_by_its_first_point() {
    let mut hash = SpatialHash::with_capacity(SpatialResolution::new(2), 4);
    assert_eq!(hash.get(&cell(0, 0, 0)), None);
    let positions = [
        point(0.5, 0.5, 0.5),
        point(1.5, 0.1, 0.2),
        point(2.5, 0.5, 0.5),
        point(-0.5, 0.5, 0.5),
    ];
    hash.dump_soa(&positions, &[11, 12, 13, 14]);
    assert_eq!(hash.get(&cell(0, 0, 0)), Some(11));
    assert_eq!(hash.get(&cell(1, 0, 0)), Some(13));
    assert_eq!(hash.get(&cell(-1, 0, 0)), Some(14));
    assert_eq!(hash.get(&cell(0, 1, 0)), None);
    hash.insert(cell(0, 1, 0), 15);
    hash.insert(cell(0, 1, 0), 16);
    assert_eq!(hash.get(&cell(0, 1, 0)), Some(15));
    // the shorter of the two slices decides
    hash.dump_soa(&[point(9.0, 9.0, 9.0), point(20.0, 20.0, 20.0)], &[21]);
    assert_eq!(hash.get(&cell(4, 4, 4)), Some(21));
    assert_eq!(hash.get(&cell(10, 10, 10)), None);
}

#[test]
fn extreme_cells_keep_apart() {
    let mut hash = SpatialHash::new(SpatialResolution::new(1));
    let corners = [
        cell(i32::MIN, i32::MIN, i32::MIN),
        cell(i32::MAX, i32::MAX, i32::MAX),
        cell(i32::MIN, 0, i32::MAX),
        cell(0, 0, 0),
        cell(0, 0, 1),
        cell(0, 1, 0),
        cell(1, 0, 0),
        cell(-1, -1, -1),
    ];
    for (i, c) in corners.iter().enumerate() {
        hash.insert(*c, i as u32 + 1);
    }
    for (i, c) in corners.iter().enumerate() {
        assert_eq!(hash.get(c), Some(i as u32 + 1));
    }
    assert_eq!(hash.get(&cell(i32::MAX, 0, i32::MIN)), None);

    let mut out = Vec::new();
    let result = hash.nearest_cells(cell(i32::MAX, i32::MAX, i32::MAX), 3, 2, 2, 2, &mut out);
    assert_eq!(result, Err(2));
    assert_eq!(out, vec![cell(i32::MAX, i32::MAX, i32::MAX)]);
}

#[test]
fn nearest_cells_come_nearest_first() {
    let mut hash = SpatialHash::new(SpatialResolution::new(1));
    let occupied = [
        cell(0, 0, 0),
        cell(1, 0, 0),
        cell(0, -1, 1),
        cell(2, 2, 2),
        cell(-2, 0, 1),
        cell(3, 0, 0),
        cell(0, 0, 5),
        cell(9, 9, 9),
    ];
    for (i, c) in occupied.iter().enumerate() {
        hash.insert(*c, i as u32 + 1);
    }
    let origin = cell(0, 0, 0);

    let mut out = vec![cell(7, 7, 7)];
    assert_eq!(hash.nearest_cells(origin, 4, 6, 6, 6, &mut out), Ok(()));
    assert_eq!(out.len(), 5);
    assert_eq!(out[0], cell(7, 7, 7));
    assert_eq!(out[1], origin);
    let ring: Vec<Cell> = out[2..4].to_vec();
    assert!(ring.contains(&cell(1, 0, 0)) && ring.contains(&cell(0, -1, 1)));
    assert_eq!(chebyshev(origin, out[4]), 2);

    let mut out = Vec::new();
    assert_eq!(hash.nearest_cells(origin, 7, 6, 6, 6, &mut out), Ok(()));
    let distances: Vec<i64> = out.iter().map(|c| chebyshev(origin, *c)).collect();
    assert_eq!(distances, vec![0, 1, 1, 2, 2, 3, 5]);

    // the eighth cell is out of range: seven are found, one is missing
    let mut out = Vec::new();
    assert_eq!(hash.nearest_cells(origin, 8, 6, 6, 6, &mut out), Err(1));
    assert_eq!(out.len(), 7);
    let mut out = Vec::new();
    assert_eq!(hash.nearest_cells(origin, 12, 9, 9, 9, &mut out), Err(4));
    assert_eq!(out.len(), 8);

    // ranges are per axis
    let mut out = Vec::new();
    assert_eq!(hash.nearest_cells(origin, 8, 3, 0, 0, &mut out), Err(5));
    assert_eq!(out, vec![cell(0, 0, 0), cell(1, 0, 0), cell(3, 0, 0)]);
    let mut out = Vec::new();
    assert_eq!(hash.nearest_cells(origin, 8, 0, 0, 5, &mut out), Err(6));
    assert_eq!(out, vec![cell(0, 0, 0), cell(0, 0, 5)]);

    // asking for none finds none
    let mut out = Vec::new();
    assert_eq!(hash.nearest_cells(origin, 0, 6, 6, 6, &mut out), Ok(()));
    assert!(out.is_empty());

    // an empty neighbourhood
    let mut out = Vec::new();
    assert_eq!(hash.nearest_cells(cell(100, 100, 100), 4, 6, 6, 6, &mut out), Err(4));
    assert!(out.is_empty());
}

#[test]
fn nearest_cells_agree_with_a_search_by_hand() {
    let mut hash = SpatialHash::new(SpatialResolution::new(1));
    let mut occupied = Vec::new();
    let mut seed: u32 = 99;
    for i in 0..60 {
        let mut next = || {
            seed = seed.wrapping_mul(1664525).wrapping_add(1013904223);
            ((seed >> 16) % 15) as i32 - 7
        };
        let c = cell(next(), next(), next());
        if !occupied.contains(&c) {
            occupied.push(c);
            hash.insert(c, i + 1);
        }
    }
    for origin in [cell(0, 0, 0), cell(-7, 3, 2), cell(5, 5, -5)] {
        for k in [1usize, 4, 9, 100] {
            let (rx, ry, rz) = (4u32, 6u32, 3u32);
            let mut out = Vec::new();
            let result = hash.nearest_cells(origin, k, rx, ry, rz, &mut out);
            let mut in_range: Vec<Cell> = occupied
                .iter()
                .copied()
                .filter(|c| {
                    (c.x - origin.x).unsigned_abs() <= rx
                        && (c.y - origin.y).unsigned_abs() <= ry
                        && (c.z - origin.z).unsigned_abs() <= rz
                })
                .collect();
            in_range.sort_by_key(|c| chebyshev(origin, *c));
            let expected = in_range.len().min(k);
            assert_eq!(out.len(), expected);
            assert_eq!(result, if expected == k { Ok(()) } else { Err(k - expected) });
            let found: Vec<i64> = out.iter().map(|c| chebyshev(origin, *c)).collect();
            let wanted: Vec<i64> =
                in_range[..expected].iter().map(|c| chebyshev(origin, *c)).collect();
            assert_eq!(found, wanted);
            for (i, c) in out.iter().enumerate() {
                assert!(in_range.contains(c));
                assert!(!out[..i].contains(c));
            }
        }
    }
}
