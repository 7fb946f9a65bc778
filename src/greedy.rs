//! Greedy tour constructions. Each one starts from a given point and adds
//! one unplaced point per step, at the place where it costs least, until the
//! tour holds half of the points.
//!
//! The steps are described by `is_greedy_choice`: among the admissible pairs
//! of insertion position and point, the one of least insertion cost, ties
//! going to the smaller position and then to the smaller point id. The tour
//! that a construction returns is `greedy_tour`.

use crate::matrix::{entry_at, weight, well_formed, DistanceMatrix};
use crate::points::{ids_are_positions, DataPoint};
use crate::tour::distinct_ids_below;
use vstd::prelude::*;

verus! {

/// The three construction rules.
#[derive(Clone, Copy, Debug)]
pub enum Heuristic {
    /// Append the point nearest to the last placed point.
    NearestToLast,
    /// Grow an open path at either end or inside it, by cheapest insertion.
    NearestToAny,
    /// Grow a closed cycle by cheapest insertion into any of its edges.
    GreedyCycle,
}

/// `c` is a point id below `n` that `t` does not hold.
pub open spec fn unplaced(t: Seq<usize>, n: nat, c: int) -> bool {
    0 <= c < n && !t.contains(c as usize)
}

/// The net cost of putting `c` between `a` and `b`: the two new edges less
/// the edge they replace.
pub open spec fn gap_cost(m: DistanceMatrix, a: int, c: int, b: int) -> int {
    weight(m, a, c) + weight(m, c, b) - weight(m, a, b)
}

/// The positions of `t` at which rule `h` may insert: only after the last
/// point for the nearest-to-last rule, anywhere for the others.
pub open spec fn position_allowed(h: Heuristic, t: Seq<usize>, p: int) -> bool {
    match h {
        Heuristic::NearestToLast => p == t.len(),
        _ => 0 <= p <= t.len(),
    }
}

/// The cost that rule `h` gives to inserting point `c` at position `p` of
/// the non-empty partial tour `t`.
pub open spec fn insertion_cost(h: Heuristic, m: DistanceMatrix, t: Seq<usize>, p: int, c: int) -> int {
    match h {
        Heuristic::NearestToLast => weight(m, t.last() as int, c),
        Heuristic::NearestToAny => {
            if p == 0 {
                weight(m, t[0] as int, c)
            } else if p == t.len() {
                weight(m, t.last() as int, c)
            } else {
                gap_cost(m, t[p - 1] as int, c, t[p] as int)
            }
        },
        Heuristic::GreedyCycle => {
            if p == 0 || p == t.len() {
                gap_cost(m, t.last() as int, c, t[0] as int)
            } else {
                gap_cost(m, t[p - 1] as int, c, t[p] as int)
            }
        },
    }
}

/// Rule `h` may insert point `c` at position `p` of `t`.
pub open spec fn admissible(h: Heuristic, n: nat, t: Seq<usize>, p: int, c: int) -> bool {
    position_allowed(h, t, p) && unplaced(t, n, c)
}

/// `(p, c)` is the step that rule `h` takes on `t`: an admissible pair of
/// least cost, before every other such pair by position and then by id.
pub open spec fn is_greedy_choice(
    h: Heuristic,
    m: DistanceMatrix,
    n: nat,
    t: Seq<usize>,
    p: int,
    c: int,
) -> bool {
    &&& admissible(h, n, t, p, c)
    &&& forall|p2: int, c2: int|
        admissible(h, n, t, p2, c2) ==> insertion_cost(h, m, t, p, c) <= #[trigger] insertion_cost(
            h,
            m,
            t,
            p2,
            c2,
        )
    &&& forall|p2: int, c2: int|
        admissible(h, n, t, p2, c2) && (p2 < p || (p2 == p && c2 < c)) ==> insertion_cost(
            h,
            m,
            t,
            p,
            c,
        ) < #[trigger] insertion_cost(h, m, t, p2, c2)
}

/// The partial tour after one step of rule `h` on `t`.
pub open spec fn greedy_step(h: Heuristic, m: DistanceMatrix, n: nat, t: Seq<usize>) -> Seq<usize> {
    let (p, c) = choose|p: int, c: int| is_greedy_choice(h, m, n, t, p, c);
    t.insert(p, c as usize)
}

/// The tour of `k` points that rule `h` builds from `start`.
pub open spec fn greedy_tour(h: Heuristic, m: DistanceMatrix, n: nat, start: usize, k: nat) -> Seq<
    usize,
>
    decreases k,
{
    if k <= 1 {
        seq![start]
    } else {
        greedy_step(h, m, n, greedy_tour(h, m, n, start, (k - 1) as nat))
    }
}

/// The tie-break leaves one step at each point of a construction, so that a
/// construction run twice on the same input builds the same tour.
pub proof fn lemma_greedy_choice_unique(
    h: Heuristic,
    m: DistanceMatrix,
    n: nat,
    t: Seq<usize>,
    p1: int,
    c1: int,
    p2: int,
    c2: int,
)
    requires
        is_greedy_choice(h, m, n, t, p1, c1),
        is_greedy_choice(h, m, n, t, p2, c2),
    ensures
        p1 == p2,
        c1 == c2,
{
    let cost1 = insertion_cost(h, m, t, p1, c1);
    let cost2 = insertion_cost(h, m, t, p2, c2);
    assert(cost1 <= cost2);
    assert(cost2 <= cost1);
}

/// A step found by a construction is the step of the model.
proof fn lemma_step_is_choice(h: Heuristic, m: DistanceMatrix, n: nat, t: Seq<usize>, p: int, c: int)
    requires
        is_greedy_choice(h, m, n, t, p, c),
    ensures
        greedy_step(h, m, n, t) == t.insert(p, c as usize),
{
    let (p1, c1) = choose|p1: int, c1: int| is_greedy_choice(h, m, n, t, p1, c1);
    lemma_greedy_choice_unique(h, m, n, t, p, c, p1, c1);
}

/// A partial tour of distinct ids below `n` that is shorter than `n` leaves
/// some point unplaced.
proof fn lemma_room_left(t: Seq<usize>, n: nat)
    requires
        distinct_ids_below(t, n),
        t.len() < n <= usize::MAX,
    ensures
        exists|c: int| unplaced(t, n, c),
{
    broadcast use vstd::seq_lib::seq_to_set_is_finite;

    let s = t.map_values(|x: usize| x as int);
    assert(s.no_duplicates());
    s.unique_seq_to_set();
    if forall|c: int| !unplaced(t, n, c) {
        assert forall|c: int| #[trigger] vstd::set_lib::set_int_range(0, n as int).contains(c) implies s.to_set().contains(c) by {
            assert(!unplaced(t, n, c));
            let k = choose|k: int| 0 <= k < t.len() && t[k] == c as usize;
            assert(s[k] == c);
        }
        vstd::set_lib::lemma_int_range(0, n as int);
        vstd::set_lib::lemma_len_subset(vstd::set_lib::set_int_range(0, n as int), s.to_set());
    }
}

/// Adding an unplaced point keeps the ids distinct, and adds just that id.
proof fn lemma_insert_fresh(t: Seq<usize>, n: nat, p: int, c: int)
    requires
        distinct_ids_below(t, n),
        unplaced(t, n, c),
        0 <= p <= t.len(),
        n <= usize::MAX,
    ensures
        distinct_ids_below(t.insert(p, c as usize), n),
        forall|x: usize| #[trigger] t.insert(p, c as usize).contains(x) <==> (t.contains(x) || x == c),
{
    let u = t.insert(p, c as usize);
    assert forall|x: usize| #[trigger] u.contains(x) <==> (t.contains(x) || x == c) by {
        if u.contains(x) {
            let k = choose|k: int| 0 <= k < u.len() && u[k] == x;
            if k < p {
                assert(t[k] == x);
            } else if k > p {
                assert(t[k - 1] == x);
            }
        }
        if t.contains(x) {
            let k = choose|k: int| 0 <= k < t.len() && t[k] == x;
            if k < p {
                assert(u[k] == x);
            } else {
                assert(u[k + 1] == x);
            }
        }
        if x == c {
            assert(u[p] == x);
        }
    }
    assert forall|i: int, j: int| 0 <= i < u.len() && 0 <= j < u.len() && i != j implies u[i]
        != u[j] by {
        if i == p {
            assert(t.contains(u[j]) || j == p);
        } else if j == p {
            assert(t.contains(u[i]));
        }
    }
}

/// The unplaced point nearest to `point_id`, with its distance; ties go to
/// the smaller id. `visited` marks the placed points.
fn find_closest(point_id: usize, visited: &Vec<bool>, distance_matrix: &DistanceMatrix) -> (r: (
    usize,
    i64,
))
    requires
        well_formed(*distance_matrix, visited.len() as nat),
        point_id < visited.len(),
        exists|c: int| 0 <= c < visited.len() && !visited@[c],
    ensures
        r.0 < visited.len(),
        !visited@[r.0 as int],
        r.1 == weight(*distance_matrix, point_id as int, r.0 as int),
        forall|c: int|
            0 <= c < visited.len() && !visited@[c] ==> r.1 <= #[trigger] weight(
                *distance_matrix,
                point_id as int,
                c,
            ),
        forall|c: int|
            0 <= c < r.0 && !visited@[c] ==> r.1 < #[trigger] weight(
                *distance_matrix,
                point_id as int,
                c,
            ),
{
    let n = visited.len();
    let ghost m = *distance_matrix;
    let mut found = false;
    let mut closest_point_id: usize = point_id;
    let mut closest_distance: i64 = 0;
    let mut candidate: usize = 0;
    while candidate < n
        invariant
            n == visited.len(),
            m == *distance_matrix,
            well_formed(m, n as nat),
            point_id < n,
            candidate <= n,
            found ==> closest_point_id < candidate && !visited@[closest_point_id as int]
                && closest_distance == weight(m, point_id as int, closest_point_id as int),
            !found ==> forall|c: int| 0 <= c < candidate ==> visited@[c],
            forall|c: int|
                0 <= c < candidate && !visited@[c] ==> closest_distance <= #[trigger] weight(
                    m,
                    point_id as int,
                    c,
                ),
            found ==> forall|c: int|
                0 <= c < closest_point_id && !visited@[c] ==> closest_distance < #[trigger] weight(
                    m,
                    point_id as int,
                    c,
                ),
        decreases n - candidate,
    {
        if !visited[candidate] {
            let current_distance = entry_at(distance_matrix, point_id, candidate);
            if !found || current_distance < closest_distance {
                found = true;
                closest_point_id = candidate;
                closest_distance = current_distance;
            }
        }
        candidate += 1;
    }
    (closest_point_id, closest_distance)
}

/// The unplaced point that is cheapest to put between `point_a_id` and
/// `point_b_id`, with that cost; ties go to the smaller id.
fn find_cheapest_extension(
    point_a_id: usize,
    point_b_id: usize,
    visited: &Vec<bool>,
    distance_matrix: &DistanceMatrix,
) -> (r: (usize, i64))
    requires
        well_formed(*distance_matrix, visited.len() as nat),
        point_a_id < visited.len(),
        point_b_id < visited.len(),
        exists|c: int| 0 <= c < visited.len() && !visited@[c],
    ensures
        r.0 < visited.len(),
        !visited@[r.0 as int],
        r.1 == gap_cost(*distance_matrix, point_a_id as int, r.0 as int, point_b_id as int),
        forall|c: int|
            0 <= c < visited.len() && !visited@[c] ==> r.1 <= #[trigger] gap_cost(
                *distance_matrix,
                point_a_id as int,
                c,
                point_b_id as int,
            ),
        forall|c: int|
            0 <= c < r.0 && !visited@[c] ==> r.1 < #[trigger] gap_cost(
                *distance_matrix,
                point_a_id as int,
                c,
                point_b_id as int,
            ),
{
    let n = visited.len();
    let ghost m = *distance_matrix;
    let mut found = false;
    let mut closest_point: usize = point_a_id;
    let mut closest_distance: i64 = 0;
    let mut candidate: usize = 0;
    while candidate < n
        invariant
            n == visited.len(),
            m == *distance_matrix,
            well_formed(m, n as nat),
            point_a_id < n,
            point_b_id < n,
            candidate <= n,
            found ==> closest_point < candidate && !visited@[closest_point as int]
                && closest_distance == gap_cost(
                m,
                point_a_id as int,
                closest_point as int,
                point_b_id as int,
            ),
            !found ==> forall|c: int| 0 <= c < candidate ==> visited@[c],
            forall|c: int|
                0 <= c < candidate && !visited@[c] ==> closest_distance <= #[trigger] gap_cost(
                    m,
                    point_a_id as int,
                    c,
                    point_b_id as int,
                ),
            found ==> forall|c: int|
                0 <= c < closest_point && !visited@[c] ==> closest_distance < #[trigger] gap_cost(
                    m,
                    point_a_id as int,
                    c,
                    point_b_id as int,
                ),
        decreases n - candidate,
    {
        if !visited[candidate] {
            let current_distance = entry_at(distance_matrix, point_a_id, candidate)
                + entry_at(distance_matrix, candidate, point_b_id) - entry_at(
                distance_matrix,
                point_a_id,
                point_b_id,
            );
            if !found || current_distance < closest_distance {
                found = true;
                closest_point = candidate;
                closest_distance = current_distance;
            }
        }
        candidate += 1;
    }
    (closest_point, closest_distance)
}

/// `visited` marks exactly the ids below `n` that the partial tour `t` holds.
spec fn marks_placed(visited: Seq<bool>, t: Seq<usize>, n: nat) -> bool {
    &&& visited.len() == n
    &&& forall|c: int| 0 <= c < n ==> (#[trigger] visited[c] <==> t.contains(c as usize))
}

/// What the choice functions below need of the partial tour.
spec fn step_ready(
    m: DistanceMatrix,
    t: Seq<usize>,
    visited: Seq<bool>,
    n: nat,
) -> bool {
    &&& well_formed(m, n)
    &&& n <= usize::MAX
    &&& 1 <= t.len() < n
    &&& distinct_ids_below(t, n)
    &&& marks_placed(visited, t, n)
}

/// A partial tour shorter than the instance leaves a point unmarked.
proof fn lemma_some_unvisited(m: DistanceMatrix, t: Seq<usize>, visited: Seq<bool>, n: nat)
    requires
        step_ready(m, t, visited, n),
    ensures
        exists|c: int| 0 <= c < visited.len() && !visited[c],
        forall|k: int| 0 <= k < t.len() ==> #[trigger] t[k] < visited.len(),
{
    lemma_room_left(t, n);
    let c = choose|c: int| unplaced(t, n, c);
    assert(!visited[c]);
}

/// The step of the nearest-to-last rule: the point nearest to the last
/// placed one, appended.
fn nearest_to_last_choice(
    tsp_path: &Vec<usize>,
    visited: &Vec<bool>,
    distance_matrix: &DistanceMatrix,
) -> (r: (usize, usize))
    requires
        step_ready(*distance_matrix, tsp_path@, visited@, visited.len() as nat),
    ensures
        is_greedy_choice(
            Heuristic::NearestToLast,
            *distance_matrix,
            visited.len() as nat,
            tsp_path@,
            r.0 as int,
            r.1 as int,
        ),
{
    let ghost (h, m, n, t) = (Heuristic::NearestToLast, *distance_matrix, visited.len() as nat, tsp_path@);
    proof {
        lemma_some_unvisited(m, t, visited@, n);
    }
    let len = tsp_path.len();
    let (closest_point_id, _) = find_closest(tsp_path[len - 1], visited, distance_matrix);
    assert forall|p2: int, c2: int| admissible(h, n, t, p2, c2) implies insertion_cost(
        h,
        m,
        t,
        len as int,
        closest_point_id as int,
    ) <= #[trigger] insertion_cost(h, m, t, p2, c2) && ((p2 < len || (p2 == len && c2
        < closest_point_id)) ==> insertion_cost(h, m, t, len as int, closest_point_id as int)
        < insertion_cost(h, m, t, p2, c2)) by {
        assert(!visited@[c2]);
    }
    (len, closest_point_id)
}

/// The step of the nearest-to-any rule: the cheapest insertion into the open
/// path, where an end costs the distance from that end point.
fn nearest_to_any_choice(
    tsp_path: &Vec<usize>,
    visited: &Vec<bool>,
    distance_matrix: &DistanceMatrix,
) -> (r: (usize, usize))
    requires
        step_ready(*distance_matrix, tsp_path@, visited@, visited.len() as nat),
    ensures
        is_greedy_choice(
            Heuristic::NearestToAny,
            *distance_matrix,
            visited.len() as nat,
            tsp_path@,
            r.0 as int,
            r.1 as int,
        ),
{
    let ghost (h, m, n, t) = (Heuristic::NearestToAny, *distance_matrix, visited.len() as nat, tsp_path@);
    proof {
        lemma_some_unvisited(m, t, visited@, n);
    }
    let len = tsp_path.len();
    let (first_id, first_distance) = find_closest(tsp_path[0], visited, distance_matrix);
    let mut insert_spot: usize = 0;
    let mut closest_point_id: usize = first_id;
    let mut closest_distance: i64 = first_distance;
    assert forall|p2: int, c2: int| 0 <= p2 < 1 && unplaced(t, n, c2) implies closest_distance
        <= #[trigger] insertion_cost(h, m, t, p2, c2) && ((p2 < insert_spot || (p2
        == insert_spot && c2 < closest_point_id)) ==> closest_distance < insertion_cost(
        h,
        m,
        t,
        p2,
        c2,
    )) by {
        assert(!visited@[c2]);
    }
    let mut pos: usize = 1;
    while pos <= len
        invariant
            step_ready(m, t, visited@, n),
            h == Heuristic::NearestToAny,
            m == *distance_matrix,
            t == tsp_path@,
            n == visited.len(),
            len == t.len(),
            1 <= pos <= len + 1,
            insert_spot < pos,
            unplaced(t, n, closest_point_id as int),
            closest_distance == insertion_cost(h, m, t, insert_spot as int, closest_point_id as int),
            forall|p2: int, c2: int|
                0 <= p2 < pos && unplaced(t, n, c2) ==> closest_distance <= #[trigger] insertion_cost(
                    h,
                    m,
                    t,
                    p2,
                    c2,
                ) && ((p2 < insert_spot || (p2 == insert_spot && c2 < closest_point_id))
                    ==> closest_distance < insertion_cost(h, m, t, p2, c2)),
        decreases len + 1 - pos,
    {
        proof {
            lemma_some_unvisited(m, t, visited@, n);
        }
        let (point_id, distance) = if pos == len {
            find_closest(tsp_path[len - 1], visited, distance_matrix)
        } else {
            find_cheapest_extension(tsp_path[pos - 1], tsp_path[pos], visited, distance_matrix)
        };
        assert(distance == insertion_cost(h, m, t, pos as int, point_id as int));
        assert forall|c2: int| unplaced(t, n, c2) implies distance <= #[trigger] insertion_cost(
            h,
            m,
            t,
            pos as int,
            c2,
        ) && (c2 < point_id ==> distance < insertion_cost(h, m, t, pos as int, c2)) by {
            assert(!visited@[c2]);
        }
        if distance < closest_distance {
            closest_distance = distance;
            insert_spot = pos;
            closest_point_id = point_id;
        }
        pos += 1;
    }
    (insert_spot, closest_point_id)
}

/// The step of the greedy-cycle rule: the cheapest insertion into any edge
/// of the closed cycle, the edge from the last point to the first included.
fn cycle_choice(
    tsp_path: &Vec<usize>,
    visited: &Vec<bool>,
    distance_matrix: &DistanceMatrix,
) -> (r: (usize, usize))
    requires
        step_ready(*distance_matrix, tsp_path@, visited@, visited.len() as nat),
    ensures
        is_greedy_choice(
            Heuristic::GreedyCycle,
            *distance_matrix,
            visited.len() as nat,
            tsp_path@,
            r.0 as int,
            r.1 as int,
        ),
{
    let ghost (h, m, n, t) = (Heuristic::GreedyCycle, *distance_matrix, visited.len() as nat, tsp_path@);
    proof {
        lemma_some_unvisited(m, t, visited@, n);
    }
    let len = tsp_path.len();
    let (first_id, first_distance) = find_cheapest_extension(
        tsp_path[len - 1],
        tsp_path[0],
        visited,
        distance_matrix,
    );
    let mut insert_spot: usize = 0;
    let mut closest_point_id: usize = first_id;
    let mut closest_distance: i64 = first_distance;
    assert forall|p2: int, c2: int| 0 <= p2 < 1 && unplaced(t, n, c2) implies closest_distance
        <= #[trigger] insertion_cost(h, m, t, p2, c2) && ((p2 < insert_spot || (p2
        == insert_spot && c2 < closest_point_id)) ==> closest_distance < insertion_cost(
        h,
        m,
        t,
        p2,
        c2,
    )) by {
        assert(!visited@[c2]);
    }
    let mut pos: usize = 1;
    while pos <= len
        invariant
            step_ready(m, t, visited@, n),
            h == Heuristic::GreedyCycle,
            m == *distance_matrix,
            t == tsp_path@,
            n == visited.len(),
            len == t.len(),
            1 <= pos <= len + 1,
            insert_spot < pos,
            unplaced(t, n, closest_point_id as int),
            closest_distance == insertion_cost(h, m, t, insert_spot as int, closest_point_id as int),
            forall|p2: int, c2: int|
                0 <= p2 < pos && unplaced(t, n, c2) ==> closest_distance <= #[trigger] insertion_cost(
                    h,
                    m,
                    t,
                    p2,
                    c2,
                ) && ((p2 < insert_spot || (p2 == insert_spot && c2 < closest_point_id))
                    ==> closest_distance < insertion_cost(h, m, t, p2, c2)),
        decreases len + 1 - pos,
    {
        proof {
            lemma_some_unvisited(m, t, visited@, n);
        }
        let (a, b) = if pos == len {
            (tsp_path[len - 1], tsp_path[0])
        } else {
            (tsp_path[pos - 1], tsp_path[pos])
        };
        let (point_id, distance) = find_cheapest_extension(a, b, visited, distance_matrix);
        assert(distance == insertion_cost(h, m, t, pos as int, point_id as int));
        assert forall|c2: int| unplaced(t, n, c2) implies distance <= #[trigger] insertion_cost(
            h,
            m,
            t,
            pos as int,
            c2,
        ) && (c2 < point_id ==> distance < insertion_cost(h, m, t, pos as int, c2)) by {
            assert(!visited@[c2]);
        }
        if distance < closest_distance {
            closest_distance = distance;
            insert_spot = pos;
            closest_point_id = point_id;
        }
        pos += 1;
    }
    (insert_spot, closest_point_id)
}

/// Builds the tour of rule `h` from the given starting point: one greedy
/// step at a time, until it holds half of the points.
fn construct(
    h: Heuristic,
    data: &Vec<DataPoint>,
    starting_point_index: usize,
    distance_matrix: &DistanceMatrix,
) -> (r: Vec<usize>)
    requires
        data.len() >= 2,
        starting_point_index < data.len(),
        ids_are_positions(data@),
        well_formed(*distance_matrix, data.len() as nat),
    ensures
        r@ == greedy_tour(
            h,
            *distance_matrix,
            data.len() as nat,
            starting_point_index,
            (data.len() / 2) as nat,
        ),
        r@.len() == data.len() / 2,
        r@.contains(starting_point_index),
        h is NearestToLast ==> r@[0] == starting_point_index,
        distinct_ids_below(r@, data.len() as nat),
{
    let n = data.len();
    let ghost m = *distance_matrix;
    let starting_point_id = data[starting_point_index].id;
    let mut visited: Vec<bool> = Vec::new();
    let mut i: usize = 0;
    while i < n
        invariant
            i <= n,
            visited@.len() == i,
            forall|k: int| 0 <= k < i ==> !(#[trigger] visited@[k]),
        decreases n - i,
    {
        visited.push(false);
        i += 1;
    }
    visited[starting_point_id] = true;
    let mut tsp_path: Vec<usize> = Vec::new();
    tsp_path.push(starting_point_id);
    assert(tsp_path@ =~= seq![starting_point_index]);
    assert(tsp_path@[0] == starting_point_index);
    assert forall|c: int| 0 <= c < n implies (#[trigger] visited@[c] <==> tsp_path@.contains(
        c as usize,
    )) by {
        if tsp_path@.contains(c as usize) {
            let k = choose|k: int| 0 <= k < tsp_path@.len() && tsp_path@[k] == c as usize;
            assert(k == 0);
        }
    }
    while tsp_path.len() < n / 2
        invariant
            n == data.len(),
            n >= 2,
            m == *distance_matrix,
            well_formed(m, n as nat),
            1 <= tsp_path.len() <= n / 2,
            tsp_path@ == greedy_tour(h, m, n as nat, starting_point_index, tsp_path.len() as nat),
            tsp_path@.contains(starting_point_index),
            h is NearestToLast ==> tsp_path@[0] == starting_point_index,
            distinct_ids_below(tsp_path@, n as nat),
            marks_placed(visited@, tsp_path@, n as nat),
        decreases n / 2 - tsp_path.len(),
    {
        let (insert_spot, point_id) = match h {
            Heuristic::NearestToLast => nearest_to_last_choice(&tsp_path, &visited, distance_matrix),
            Heuristic::NearestToAny => nearest_to_any_choice(&tsp_path, &visited, distance_matrix),
            Heuristic::GreedyCycle => cycle_choice(&tsp_path, &visited, distance_matrix),
        };
        let ghost t = tsp_path@;
        proof {
            lemma_step_is_choice(h, m, n as nat, t, insert_spot as int, point_id as int);
            lemma_insert_fresh(t, n as nat, insert_spot as int, point_id as int);
        }
        tsp_path.insert(insert_spot, point_id);
        let ghost before = visited@;
        visited[point_id] = true;
        proof {
            assert(tsp_path@.contains(starting_point_index));
            if h is NearestToLast {
                assert(tsp_path@[0] == t[0]);
            }
            assert forall|c: int| 0 <= c < n implies (#[trigger] visited@[c]
                <==> tsp_path@.contains(c as usize)) by {
                if c != point_id {
                    assert(visited@[c] == before[c]);
                    assert(tsp_path@.contains(c as usize) == t.contains(c as usize));
                }
            }
        }
    }
    tsp_path
}

/// Nearest neighbour to the last point: starting from the given point, keep
/// appending the unplaced point nearest to the last placed one, until the
/// tour holds half of the points.
pub fn greedy_nn_to_last_point(
    data: &Vec<DataPoint>,
    starting_point_index: usize,
    distance_matrix: &DistanceMatrix,
) -> (r: Vec<usize>)
    requires
        data.len() >= 2,
        starting_point_index < data.len(),
        ids_are_positions(data@),
        well_formed(*distance_matrix, data.len() as nat),
    ensures
        r@ == greedy_tour(
            Heuristic::NearestToLast,
            *distance_matrix,
            data.len() as nat,
            starting_point_index,
            (data.len() / 2) as nat,
        ),
        r@.len() == data.len() / 2,
        r@[0] == starting_point_index,
        distinct_ids_below(r@, data.len() as nat),
{
    construct(Heuristic::NearestToLast, data, starting_point_index, distance_matrix)
}

/// Nearest neighbour to any point: grow an open path from the given point by
/// the cheapest insertion before its first point, after its last point (at
/// the distance from that end) or between two neighbours, until it holds
/// half of the points.
pub fn greedy_nn_to_any_point(
    data: &Vec<DataPoint>,
    starting_point_index: usize,
    distance_matrix: &DistanceMatrix,
) -> (r: Vec<usize>)
    requires
        data.len() >= 2,
        starting_point_index < data.len(),
        ids_are_positions(data@),
        well_formed(*distance_matrix, data.len() as nat),
    ensures
        r@ == greedy_tour(
            Heuristic::NearestToAny,
            *distance_matrix,
            data.len() as nat,
            starting_point_index,
            (data.len() / 2) as nat,
        ),
        r@.len() == data.len() / 2,
        r@.contains(starting_point_index),
        distinct_ids_below(r@, data.len() as nat),
{
    construct(Heuristic::NearestToAny, data, starting_point_index, distance_matrix)
}

/// Greedy cycle: grow a closed cycle from the given point by the cheapest
/// insertion into any of its edges, until it holds half of the points.
pub fn greedy_cycle(
    data: &Vec<DataPoint>,
    starting_point_index: usize,
    distance_matrix: &DistanceMatrix,
) -> (r: Vec<usize>)
    requires
        data.len() >= 2,
        starting_point_index < data.len(),
        ids_are_positions(data@),
        well_formed(*distance_matrix, data.len() as nat),
    ensures
        r@ == greedy_tour(
            Heuristic::GreedyCycle,
            *distance_matrix,
            data.len() as nat,
            starting_point_index,
            (data.len() / 2) as nat,
        ),
        r@.len() == data.len() / 2,
        r@.contains(starting_point_index),
        distinct_ids_below(r@, data.len() as nat),
{
    construct(Heuristic::GreedyCycle, data, starting_point_index, distance_matrix)
}

} // verus!
