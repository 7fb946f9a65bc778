//! The augmented-distance matrix: entry `(i, j)` is the Euclidean distance
//! from point `i` to point `j` plus the visiting cost of `j`, in fixed point.

use crate::points::DataPoint;
use vstd::prelude::*;

verus! {

/// A square table of augmented distances, held in an `ndarray::Array2`.
/// Verus refuses a declaration of ndarray's array type (its bound on the
/// storage trait), so the array stays private to this opaque struct and is
/// reached only through the trusted functions below.
#[verifier::external_body]
pub struct DistanceMatrix {
    table: ndarray::Array2<i64>,
}

/// The error that ndarray reports for a shape that does not fit the data.
#[verifier::external_type_specification]
#[verifier::external_body]
pub struct ExShapeError(ndarray::ShapeError);

/// The rows of a two-dimensional array, each as a sequence of its entries.
pub uninterp spec fn cells(m: DistanceMatrix) -> Seq<Seq<i64>>;

/// Relies on indexing `ndarray::Array2` by `[i, j]` (`Index<[usize; 2]>`): it reads the entry in
/// row `i` and column `j`, and panics only outside the array.
#[verifier::external_body]
pub(crate) fn entry_at(m: &DistanceMatrix, i: usize, j: usize) -> (r: i64)
    requires
        i < cells(*m).len(),
        j < cells(*m)[i as int].len(),
    ensures
        r == cells(*m)[i as int][j as int],
{
    m.table[[i, j]]
}

/// Relies on `ndarray::Array2::from_shape_vec` with the shape `(n, n)`: it
/// succeeds exactly when `n * n` fits in `isize` and equals the vector's
/// length, and then lays the vector out row after row.
#[verifier::external_body]
fn table_from_rows(n: usize, flat: Vec<i64>) -> (r: Result<DistanceMatrix, ndarray::ShapeError>)
    ensures
        r is Ok <==> (n * n <= isize::MAX && flat@.len() == n * n),
        r matches Ok(m) ==> {
            &&& cells(m).len() == n
            &&& forall|i: int| 0 <= i < n ==> (#[trigger] cells(m)[i]).len() == n
            &&& forall|i: int, j: int|
                0 <= i < n && 0 <= j < n ==> #[trigger] cells(m)[i][j] == flat@[i * n + j]
        },
{
    ndarray::Array2::from_shape_vec((n, n), flat).map(|table| DistanceMatrix { table })
}

impl DistanceMatrix {
    /// The entry in row `i` and column `j`.
    pub fn get(&self, i: usize, j: usize) -> (r: i64)
        requires
            i < cells(*self).len(),
            j < cells(*self)[i as int].len(),
        ensures
            r == cells(*self)[i as int][j as int],
    {
        entry_at(self, i, j)
    }
}

/// Matrix units per unit of length or of cost: entries are fixed-point
/// numbers with six decimal places.
pub const SCALE: i64 = 1_000_000;

/// Bound on the absolute value of an entry of a well-formed matrix, so that
/// an insertion cost (two entries less a third) fits in `i64`.
pub const MAX_WEIGHT: i64 = 0x1000_0000_0000_0000;

/// The entry in row `i` and column `j`: the cost of travelling from `i` to `j`.
pub open spec fn weight(m: DistanceMatrix, i: int, j: int) -> int {
    cells(m)[i][j] as int
}

/// `m` is an `n`-by-`n` table whose entries are bounded by `MAX_WEIGHT`.
pub open spec fn well_formed(m: DistanceMatrix, n: nat) -> bool {
    &&& cells(m).len() == n
    &&& forall|i: int| 0 <= i < n ==> (#[trigger] cells(m)[i]).len() == n
    &&& forall|i: int, j: int|
        0 <= i < n && 0 <= j < n ==> -MAX_WEIGHT <= #[trigger] cells(m)[i][j] <= MAX_WEIGHT
}

/// `r` is the integer square root of `v`, rounded down.
pub open spec fn is_floor_sqrt(v: int, r: int) -> bool {
    0 <= r && r * r <= v && v < (r + 1) * (r + 1)
}

/// The square root of `v`, rounded down.
pub open spec fn floor_sqrt(v: int) -> int {
    choose|r: int| is_floor_sqrt(v, r)
}

/// The squared Euclidean distance between two points.
pub open spec fn squared_gap(a: DataPoint, b: DataPoint) -> int {
    (a.x - b.x) * (a.x - b.x) + (a.y - b.y) * (a.y - b.y)
}

/// The Euclidean distance between two points in matrix units, rounded down.
pub open spec fn scaled_distance(a: DataPoint, b: DataPoint) -> int {
    floor_sqrt(squared_gap(a, b) * SCALE * SCALE)
}

/// The visiting cost of a point in matrix units.
pub open spec fn scaled_cost(p: DataPoint) -> int {
    p.cost * SCALE
}

/// The augmented distance from `a` to `b`: their distance plus the cost of
/// the destination `b`.
pub open spec fn augmented_distance(a: DataPoint, b: DataPoint) -> int {
    scaled_distance(a, b) + scaled_cost(b)
}

/// `m` is the augmented-distance matrix of `data`.
pub open spec fn is_distance_matrix(m: DistanceMatrix, data: Seq<DataPoint>) -> bool {
    &&& cells(m).len() == data.len()
    &&& forall|i: int| 0 <= i < data.len() ==> (#[trigger] cells(m)[i]).len() == data.len()
    &&& forall|i: int, j: int|
        0 <= i < data.len() && 0 <= j < data.len() ==> #[trigger] weight(m, i, j)
            == augmented_distance(data[i], data[j])
}

/// The distance part of an entry is symmetric, although the matrix is not:
/// `M[i][j]` less the cost of `j` equals `M[j][i]` less the cost of `i`.
pub proof fn lemma_distance_part_symmetric(
    m: DistanceMatrix,
    data: Seq<DataPoint>,
    i: int,
    j: int,
)
    requires
        is_distance_matrix(m, data),
        0 <= i < data.len(),
        0 <= j < data.len(),
    ensures
        weight(m, i, j) - scaled_cost(data[j]) == weight(m, j, i) - scaled_cost(data[i]),
{
    let (a, b) = (data[i], data[j]);
    assert(squared_gap(a, b) == squared_gap(b, a)) by (nonlinear_arith);
    assert(weight(m, i, j) == augmented_distance(a, b));
    assert(weight(m, j, i) == augmented_distance(b, a));
}

/// A value has one integer square root rounded down.
pub proof fn lemma_floor_sqrt_unique(v: int, r: int)
    requires
        is_floor_sqrt(v, r),
    ensures
        floor_sqrt(v) == r,
{
    let s = floor_sqrt(v);
    assert(is_floor_sqrt(v, s));
    if s < r {
        assert((s + 1) * (s + 1) <= r * r) by (nonlinear_arith)
            requires
                0 <= s,
                s + 1 <= r,
        ;
    } else if r < s {
        assert((r + 1) * (r + 1) <= s * s) by (nonlinear_arith)
            requires
                0 <= r,
                r + 1 <= s,
        ;
    }
}

/// The square root of `v` rounded down, found by bisection.
fn sqrt_floor(v: u128) -> (r: u128)
    requires
        v < 0x400_0000_0000_0000_0000_0000_0000,
    ensures
        is_floor_sqrt(v as int, r as int),
        r < 0x20_0000_0000_0000,
{
    let mut lo: u128 = 0;
    let mut hi: u128 = 0x20_0000_0000_0000;
    assert(hi * hi == 0x400_0000_0000_0000_0000_0000_0000);
    while hi - lo > 1
        invariant
            lo < hi <= 0x20_0000_0000_0000,
            lo * lo <= v,
            v < hi * hi,
        decreases hi - lo,
    {
        let mid: u128 = lo + (hi - lo) / 2;
        assert(mid * mid <= 0x400_0000_0000_0000_0000_0000_0000) by (nonlinear_arith)
            requires
                mid <= 0x20_0000_0000_0000,
        ;
        if mid * mid <= v {
            lo = mid;
        } else {
            hi = mid;
        }
    }
    assert(hi == lo + 1);
    lo
}

/// The augmented distance from `a` to `b`, computed in fixed point.
fn augmented_entry(a: DataPoint, b: DataPoint) -> (w: i64)
    ensures
        w == augmented_distance(a, b),
        -MAX_WEIGHT <= w <= MAX_WEIGHT,
{
    let dx: i128 = a.x as i128 - b.x as i128;
    let dy: i128 = a.y as i128 - b.y as i128;
    assert(0 <= dx * dx <= 0x1_0000_0000_0000_0000) by (nonlinear_arith)
        requires
            -0x1_0000_0000 <= dx <= 0x1_0000_0000,
    ;
    assert(0 <= dy * dy <= 0x1_0000_0000_0000_0000) by (nonlinear_arith)
        requires
            -0x1_0000_0000 <= dy <= 0x1_0000_0000,
    ;
    let gap: i128 = dx * dx + dy * dy;
    let unit: u128 = (SCALE as u128) * (SCALE as u128);
    assert(unit == SCALE * SCALE);
    assert(gap as u128 * unit < 0x400_0000_0000_0000_0000_0000_0000) by (nonlinear_arith)
        requires
            0 <= gap <= 0x2_0000_0000_0000_0000,
            unit == 1_000_000_000_000,
    ;
    let scaled: u128 = gap as u128 * unit;
    let d: u128 = sqrt_floor(scaled);
    proof {
        assert(scaled == squared_gap(a, b) * SCALE * SCALE) by (nonlinear_arith)
            requires
                scaled == gap * unit,
                unit == SCALE * SCALE,
                gap == squared_gap(a, b),
        ;
        lemma_floor_sqrt_unique(scaled as int, d as int);
    }
    d as i64 + b.cost as i64 * SCALE
}

/// Index `a * n + b` of a row-major `n`-by-`n` table lies in row `a`, before
/// every entry of a later row.
proof fn lemma_row_major(n: int, a: int, b: int, i: int)
    requires
        0 <= a < i,
        0 <= b < n,
    ensures
        0 <= a * n + b < i * n,
        a * n + b < (a + 1) * n,
{
    assert(0 <= a * n + b < (a + 1) * n <= i * n) by (nonlinear_arith)
        requires
            0 <= a < i,
            0 <= b < n,
    ;
}

/// Builds the augmented-distance matrix of a list of points: entry `(i, j)`
/// is the distance from point `i` to point `j` plus the cost of point `j`.
pub fn calculate_distance_matrix(records: &Vec<DataPoint>) -> (m: DistanceMatrix)
    requires
        records.len() >= 1,
        records.len() * records.len() <= isize::MAX,
    ensures
        is_distance_matrix(m, records@),
        well_formed(m, records.len() as nat),
{
    let n = records.len();
    let mut flat: Vec<i64> = Vec::new();
    let mut i: usize = 0;
    while i < n
        invariant
            n == records.len(),
            n * n <= isize::MAX,
            i <= n,
            flat@.len() == i * n,
            forall|a: int, b: int|
                0 <= a < i && 0 <= b < n ==> {
                    &&& #[trigger] flat@[a * n + b] == augmented_distance(records@[a], records@[b])
                    &&& -MAX_WEIGHT <= flat@[a * n + b] <= MAX_WEIGHT
                },
        decreases n - i,
    {
        let mut j: usize = 0;
        while j < n
            invariant
                n == records.len(),
                n * n <= isize::MAX,
                i < n,
                j <= n,
                flat@.len() == i * n + j,
                forall|a: int, b: int|
                    (0 <= a < i && 0 <= b < n) || (a == i && 0 <= b < j) ==> {
                        &&& #[trigger] flat@[a * n + b] == augmented_distance(
                            records@[a],
                            records@[b],
                        )
                        &&& -MAX_WEIGHT <= flat@[a * n + b] <= MAX_WEIGHT
                    },
            decreases n - j,
        {
            let w = augmented_entry(records[i], records[j]);
            let ghost before = flat@;
            flat.push(w);
            assert forall|a: int, b: int|
                (0 <= a < i && 0 <= b < n) || (a == i && 0 <= b < j + 1) implies {
                    &&& #[trigger] flat@[a * n + b] == augmented_distance(records@[a], records@[b])
                    &&& -MAX_WEIGHT <= flat@[a * n + b] <= MAX_WEIGHT
                } by {
                if a < i {
                    lemma_row_major(n as int, a, b, i as int);
                    assert(flat@[a * n + b] == before[a * n + b]);
                } else if b < j {
                    assert(flat@[a * n + b] == before[a * n + b]);
                }
            }
            j += 1;
        }
        assert((i + 1) * n == i * n + n) by (nonlinear_arith);
        i += 1;
    }
    let m = table_from_rows(n, flat).unwrap();
    assert forall|a: int, b: int| 0 <= a < n && 0 <= b < n implies #[trigger] weight(m, a, b)
        == augmented_distance(records@[a], records@[b]) by {
        assert(cells(m)[a][b] == flat@[a * n + b]);
    }
    m
}

} // verus!
