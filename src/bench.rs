//! The benchmark harness: run a construction from every starting point,
//! score each tour, and keep the scores, the time spent and the best tour.

use crate::matrix::{well_formed, DistanceMatrix};
use crate::points::{ids_are_positions, DataPoint};
use crate::tour::{check_solution, tour_cost};
use std::time::{Duration, Instant};
use vstd::prelude::*;

verus! {

/// A point in time of the monotonic clock.
#[verifier::external_type_specification]
#[verifier::external_body]
pub struct ExInstant(Instant);

/// Relies on `std::time::Instant::now`: it reads the clock. Nothing is
/// promised of the value.
pub assume_specification[ Instant::now ]() -> Instant;

/// Relies on `std::time::Instant::elapsed`: the time since `t`. Nothing is
/// promised of the value.
pub assume_specification[ Instant::elapsed ](t: &Instant) -> Duration;

/// Relies on `std::time::Duration::as_nanos`: the whole nanoseconds of a
/// duration. Nothing is promised of the value, which comes from the clock.
pub assume_specification[ Duration::as_nanos ](d: &Duration) -> u128;

/// What one run of the harness reports for one construction.
pub struct Metrics {
    /// The name the construction was run under.
    pub name: String,
    /// The score of the tour built from each starting point, in order.
    pub scores: Vec<i128>,
    /// Nanoseconds spent in the construction over all starting points
    /// (saturating).
    pub total_time: u128,
    /// The first tour of least score.
    pub best_solution: Vec<usize>,
}

/// `scores[k]` is least among `scores`, and less than every score before it.
pub open spec fn is_first_minimum(scores: Seq<i128>, k: int) -> bool {
    &&& 0 <= k < scores.len()
    &&& forall|i: int| 0 <= i < scores.len() ==> scores[k] <= #[trigger] scores[i]
    &&& forall|i: int| 0 <= i < k ==> scores[k] < #[trigger] scores[i]
}

/// `f` may be run from every starting point of `data`, and each tour it
/// returns is non-empty and holds only point ids.
pub open spec fn runs_on<F: Fn(&Vec<DataPoint>, usize, &DistanceMatrix) -> Vec<usize>>(
    f: F,
    data: &Vec<DataPoint>,
    distance_matrix: &DistanceMatrix,
) -> bool {
    &&& forall|i: usize| i < data.len() ==> #[trigger] f.requires((data, i, distance_matrix))
    &&& forall|i: usize, s: Vec<usize>|
        i < data.len() && #[trigger] f.ensures((data, i, distance_matrix), s) ==> {
            &&& s@.len() >= 1
            &&& forall|k: int| 0 <= k < s@.len() ==> #[trigger] s@[k] < data.len()
        }
}

/// `score` is the cost of a tour that `f` may return from starting point `i`.
pub open spec fn scores_a_run<F: Fn(&Vec<DataPoint>, usize, &DistanceMatrix) -> Vec<usize>>(
    f: F,
    data: &Vec<DataPoint>,
    distance_matrix: &DistanceMatrix,
    i: int,
    score: i128,
) -> bool {
    exists|s: Vec<usize>|
        #[trigger] f.ensures((data, i as usize, distance_matrix), s) && score == tour_cost(
            *distance_matrix,
            s@,
        )
}

/// `r` reports a run of `f` from every starting point of `data`: one score
/// per starting point, each the cost of a tour that `f` may return from that
/// point, and as best tour the one returned from the first starting point of
/// least score.
pub open spec fn reports_run<F: Fn(&Vec<DataPoint>, usize, &DistanceMatrix) -> Vec<usize>>(
    r: Metrics,
    f: F,
    data: &Vec<DataPoint>,
    distance_matrix: &DistanceMatrix,
    name: Seq<char>,
) -> bool {
    &&& r.name@ == name
    &&& r.scores@.len() == data.len()
    &&& forall|i: int|
        0 <= i < data.len() ==> #[trigger] scores_a_run(f, data, distance_matrix, i, r.scores@[i])
    &&& data.len() == 0 ==> r.best_solution@.len() == 0
    &&& data.len() > 0 ==> exists|k: int| #[trigger]
        is_first_minimum(r.scores@, k) && f.ensures(
            (data, k as usize, distance_matrix),
            r.best_solution,
        ) && r.scores@[k] == tour_cost(*distance_matrix, r.best_solution@)
}

/// Runs `f` from every starting point of `data`, timing each run and
/// scoring each tour.
pub fn benchmark_function<F: Fn(&Vec<DataPoint>, usize, &DistanceMatrix) -> Vec<usize>>(
    f: F,
    data: &Vec<DataPoint>,
    distance_matrix: &DistanceMatrix,
    name: &str,
) -> (r: Metrics)
    requires
        ids_are_positions(data@),
        well_formed(*distance_matrix, data.len() as nat),
        runs_on(f, data, distance_matrix),
    ensures
        reports_run(r, f, data, distance_matrix, name@),
{
    let n = data.len();
    let ghost m = *distance_matrix;
    let mut scores: Vec<i128> = Vec::new();
    let mut best_solution_score: i128 = 0;
    let mut best_solution: Vec<usize> = Vec::new();
    let ghost mut best_index: int = 0;
    let mut total_time: u128 = 0;
    let mut i: usize = 0;
    while i < n
        invariant
            n == data.len(),
            m == *distance_matrix,
            ids_are_positions(data@),
            well_formed(m, n as nat),
            runs_on(f, data, distance_matrix),
            i <= n,
            scores@.len() == i,
            forall|j: int|
                0 <= j < i ==> #[trigger] scores_a_run(f, data, distance_matrix, j, scores@[j]),
            i == 0 ==> best_solution@.len() == 0,
            i > 0 ==> {
                &&& is_first_minimum(scores@, best_index)
                &&& f.ensures((data, best_index as usize, distance_matrix), best_solution)
                &&& scores@[best_index] == best_solution_score
                &&& best_solution_score == tour_cost(m, best_solution@)
            },
        decreases n - i,
    {
        let start_time = Instant::now();
        let solution = f(data, i, distance_matrix);
        let elapsed = start_time.elapsed().as_nanos();
        total_time = total_time.saturating_add(elapsed);
        let solution_score = check_solution(&solution, data, distance_matrix);
        let ghost ran = solution;
        scores.push(solution_score);
        assert(f.ensures((data, i as usize, distance_matrix), ran));
        if i == 0 || solution_score < best_solution_score {
            best_solution_score = solution_score;
            best_solution = solution;
            proof {
                best_index = i as int;
            }
        }
        assert forall|j: int| 0 <= j < i + 1 implies #[trigger] scores_a_run(
            f,
            data,
            distance_matrix,
            j,
            scores@[j],
        ) by {
            if j == i {
                assert(f.ensures((data, j as usize, distance_matrix), ran));
            }
        }
        i += 1;
    }
    let r = Metrics { name: name.to_string(), scores, total_time, best_solution };
    if n > 0 {
        assert(is_first_minimum(r.scores@, best_index));
    }
    r
}

/// Runs the harness once for each construction, under the name at the same
/// place; a construction or a name without a partner is left out.
pub fn run_benchmark_suite<F: Fn(&Vec<DataPoint>, usize, &DistanceMatrix) -> Vec<usize> + Copy>(
    functions: Vec<F>,
    names: Vec<&str>,
    data: &Vec<DataPoint>,
    distance_matrix: &DistanceMatrix,
) -> (r: Vec<Metrics>)
    requires
        ids_are_positions(data@),
        well_formed(*distance_matrix, data.len() as nat),
        forall|k: int| 0 <= k < functions.len() ==> runs_on(#[trigger] functions[k], data, distance_matrix),
    ensures
        r.len() == if functions.len() <= names.len() { functions.len() } else { names.len() },
        forall|k: int|
            0 <= k < r.len() ==> reports_run(
                #[trigger] r[k],
                functions[k],
                data,
                distance_matrix,
                names[k]@,
            ),
{
    let count = if functions.len() <= names.len() {
        functions.len()
    } else {
        names.len()
    };
    let mut results: Vec<Metrics> = Vec::new();
    let mut k: usize = 0;
    while k < count
        invariant
            count <= functions.len(),
            count <= names.len(),
            k <= count,
            results.len() == k,
            ids_are_positions(data@),
            well_formed(*distance_matrix, data.len() as nat),
            forall|j: int| 0 <= j < functions.len() ==> runs_on(#[trigger] functions[j], data, distance_matrix),
            forall|j: int|
                0 <= j < k ==> reports_run(
                    #[trigger] results[j],
                    functions[j],
                    data,
                    distance_matrix,
                    names[j]@,
                ),
        decreases count - k,
    {
        let function = functions[k];
        results.push(benchmark_function(function, data, distance_matrix, names[k]));
        k += 1;
    }
    results
}

/// The sum of a sequence of scores.
pub open spec fn score_total(scores: Seq<i128>) -> int
    decreases scores.len(),
{
    if scores.len() == 0 {
        0
    } else {
        score_total(scores.drop_last()) + scores.last()
    }
}

impl Metrics {
    /// The least score, or `None` when there is none.
    pub fn min(&self) -> (r: Option<i128>)
        ensures
            self.scores@.len() == 0 <==> r is None,
            r matches Some(v) ==> self.scores@.contains(v) && forall|i: int|
                0 <= i < self.scores@.len() ==> v <= #[trigger] self.scores@[i],
    {
        if self.scores.len() == 0 {
            return None;
        }
        let mut least: i128 = self.scores[0];
        let mut i: usize = 1;
        while i < self.scores.len()
            invariant
                1 <= i <= self.scores@.len(),
                self.scores@.contains(least),
                forall|j: int| 0 <= j < i ==> least <= #[trigger] self.scores@[j],
            decreases self.scores@.len() - i,
        {
            if self.scores[i] < least {
                least = self.scores[i];
            }
            i += 1;
        }
        Some(least)
    }

    /// The greatest score, or `None` when there is none.
    pub fn max(&self) -> (r: Option<i128>)
        ensures
            self.scores@.len() == 0 <==> r is None,
            r matches Some(v) ==> self.scores@.contains(v) && forall|i: int|
                0 <= i < self.scores@.len() ==> #[trigger] self.scores@[i] <= v,
    {
        if self.scores.len() == 0 {
            return None;
        }
        let mut greatest: i128 = self.scores[0];
        let mut i: usize = 1;
        while i < self.scores.len()
            invariant
                1 <= i <= self.scores@.len(),
                self.scores@.contains(greatest),
                forall|j: int| 0 <= j < i ==> #[trigger] self.scores@[j] <= greatest,
            decreases self.scores@.len() - i,
        {
            if self.scores[i] > greatest {
                greatest = self.scores[i];
            }
            i += 1;
        }
        Some(greatest)
    }

    /// The sum of the scores, from which the mean follows; `None` when a
    /// partial sum does not fit in `i128`.
    pub fn total(&self) -> (r: Option<i128>)
        ensures
            r matches Some(v) ==> v == score_total(self.scores@),
            (forall|i: int|
                0 <= i <= self.scores@.len() ==> i128::MIN <= #[trigger] score_total(
                    self.scores@.subrange(0, i),
                ) <= i128::MAX) ==> r is Some,
    {
        let mut sum: i128 = 0;
        let mut i: usize = 0;
        assert(self.scores@.subrange(0, 0) =~= Seq::<i128>::empty());
        while i < self.scores.len()
            invariant
                i <= self.scores@.len(),
                sum == score_total(self.scores@.subrange(0, i as int)),
            decreases self.scores@.len() - i,
        {
            assert(self.scores@.subrange(0, i + 1).drop_last() =~= self.scores@.subrange(
                0,
                i as int,
            ));
            match sum.checked_add(self.scores[i]) {
                Some(next) => sum = next,
                None => {
                    assert(!(i128::MIN <= score_total(self.scores@.subrange(0, i + 1))
                        <= i128::MAX));
                    return None;
                },
            }
            i += 1;
        }
        assert(self.scores@.subrange(0, self.scores@.len() as int) =~= self.scores@);
        Some(sum)
    }
}

} // verus!
