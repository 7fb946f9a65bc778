//! Tours: ordered selections of distinct points read as a closed cycle, and
//! their cost under a distance matrix.

use crate::matrix::{entry_at, weight, well_formed, DistanceMatrix, MAX_WEIGHT};
use crate::points::{ids_are_positions, DataPoint};
use rand::seq::SliceRandom;
use vstd::prelude::*;

verus! {

/// The cost of walking `t` from its first point to its last, without
/// closing the cycle.
pub open spec fn path_cost(m: DistanceMatrix, t: Seq<usize>) -> int
    decreases t.len(),
{
    if t.len() <= 1 {
        0
    } else {
        path_cost(m, t.drop_last()) + weight(m, t[t.len() - 2] as int, t.last() as int)
    }
}

/// The cost of the cycle `t`: its path plus the edge from its last point
/// back to its first.
pub open spec fn tour_cost(m: DistanceMatrix, t: Seq<usize>) -> int {
    if t.len() == 0 {
        0
    } else {
        path_cost(m, t) + weight(m, t.last() as int, t[0] as int)
    }
}

/// `t` holds no id twice and only ids below `n`.
pub open spec fn distinct_ids_below(t: Seq<usize>, n: nat) -> bool {
    &&& t.no_duplicates()
    &&& forall|k: int| 0 <= k < t.len() ==> #[trigger] t[k] < n
}

/// The cycle `t` read from its `k`-th point on.
pub open spec fn rotate(t: Seq<usize>, k: int) -> Seq<usize> {
    t.subrange(k, t.len() as int) + t.subrange(0, k)
}

/// Walking `a` and then `b` costs the two walks and the step between them.
proof fn lemma_path_cost_concat(m: DistanceMatrix, a: Seq<usize>, b: Seq<usize>)
    requires
        a.len() > 0,
        b.len() > 0,
    ensures
        path_cost(m, a + b) == path_cost(m, a) + weight(m, a.last() as int, b[0] as int)
            + path_cost(m, b),
    decreases b.len(),
{
    if b.len() == 1 {
        assert((a + b).drop_last() =~= a);
    } else {
        assert((a + b).drop_last() =~= a + b.drop_last());
        lemma_path_cost_concat(m, a, b.drop_last());
    }
}

/// The cost of a cycle does not depend on the point it is read from.
pub proof fn lemma_rotation_keeps_cost(m: DistanceMatrix, t: Seq<usize>, k: int)
    requires
        0 <= k <= t.len(),
    ensures
        tour_cost(m, rotate(t, k)) == tour_cost(m, t),
{
    let a = t.subrange(0, k);
    let b = t.subrange(k, t.len() as int);
    if k == 0 {
        assert(rotate(t, k) =~= t);
    } else if k == t.len() {
        assert(rotate(t, k) =~= t);
    } else {
        assert(t =~= a + b);
        lemma_path_cost_concat(m, a, b);
        lemma_path_cost_concat(m, b, a);
        assert((b + a)[0] == b[0]);
        assert((b + a).last() == a.last());
        assert((a + b)[0] == a[0]);
        assert((a + b).last() == b.last());
    }
}

/// Scores a tour: the sum of the matrix entries along the cycle, the edge
/// from the last point back to the first included.
pub fn check_solution(solution: &Vec<usize>, data: &Vec<DataPoint>, distance_matrix: &DistanceMatrix) -> (r: i128)
    requires
        solution.len() >= 1,
        forall|k: int| 0 <= k < solution.len() ==> #[trigger] solution[k] < data.len(),
        ids_are_positions(data@),
        well_formed(*distance_matrix, data.len() as nat),
    ensures
        r == tour_cost(*distance_matrix, solution@),
{
    let t = Ghost(solution@);
    let first_point = data[solution[0]];
    let mut last_point = first_point;
    let mut total_value: i128 = 0;
    let mut index: usize = 1;
    assert(t@.subrange(0, 1).len() == 1);
    while index < solution.len()
        invariant
            1 <= index <= solution.len(),
            t@ == solution@,
            forall|k: int| 0 <= k < solution.len() ==> #[trigger] solution[k] < data.len(),
            ids_are_positions(data@),
            well_formed(*distance_matrix, data.len() as nat),
            first_point.id == solution[0],
            last_point.id == solution[index - 1],
            total_value == path_cost(*distance_matrix, t@.subrange(0, index as int)),
            -(index * MAX_WEIGHT) <= total_value <= index * MAX_WEIGHT,
        decreases solution.len() - index,
    {
        let current_point = data[solution[index]];
        let step = entry_at(distance_matrix, last_point.id, current_point.id);
        assert(t@.subrange(0, index + 1).drop_last() =~= t@.subrange(0, index as int));
        total_value = total_value + step as i128;
        last_point = current_point;
        index += 1;
    }
    assert(t@.subrange(0, solution.len() as int) =~= t@);
    let closing = entry_at(distance_matrix, last_point.id, first_point.id);
    total_value + closing as i128
}

/// Relies on rand's `SliceRandom::shuffle` with the thread-local generator of
/// `rand::rng()`: the shuffle only swaps entries, so the vector keeps its
/// elements in some order.
#[verifier::external_body]
fn shuffle_ids(v: &mut Vec<usize>)
    ensures
        final(v)@.to_multiset() == old(v)@.to_multiset(),
{
    v.shuffle(&mut rand::rng());
}

/// A random baseline: the first half of a uniformly shuffled list of all
/// point ids. The starting index and the matrix are not used; they are taken
/// so that the baseline has the shape of the constructions.
pub fn generate_random_solution(
    data: &Vec<DataPoint>,
    _starting_point_index: usize,
    _distance_matrix: &DistanceMatrix,
) -> (r: Vec<usize>)
    ensures
        r@.len() == data.len() / 2,
        distinct_ids_below(r@, data.len() as nat),
{
    broadcast use vstd::seq_lib::group_to_multiset_ensures;

    let size = data.len();
    let mut nums: Vec<usize> = Vec::new();
    let mut i: usize = 0;
    while i < size
        invariant
            i <= size,
            nums@.len() == i,
            forall|k: int| 0 <= k < i ==> #[trigger] nums@[k] == k,
        decreases size - i,
    {
        nums.push(i);
        i += 1;
    }
    assert(nums@.no_duplicates());
    let ghost ordered = nums@;
    proof {
        ordered.lemma_multiset_has_no_duplicates();
    }
    shuffle_ids(&mut nums);
    proof {
        nums@.lemma_multiset_has_no_duplicates_conv();
        vstd::seq_lib::to_multiset_len(ordered);
        vstd::seq_lib::to_multiset_len(nums@);
    }
    assert forall|k: int| 0 <= k < nums@.len() implies #[trigger] nums@[k] < size by {
        assert(nums@.contains(nums@[k]));
        assert(ordered.to_multiset().count(nums@[k]) > 0);
        assert(ordered.contains(nums@[k]));
    }
    nums.truncate(size / 2);
    nums
}

} // verus!
