//! Greedy construction and evaluation of tours for a travelling-salesman
//! variant in which every point carries a visiting cost and only half of the
//! points are visited.

pub mod bench;
pub mod greedy;
pub mod matrix;
pub mod points;
pub mod tour;

use vstd::prelude::*;

verus! {

/// The number of the report that the benchmark named `benchmark_name`
/// belongs to: 3 for `"lab1"`, 2 for any other name.
pub fn benchmark(benchmark_name: String) -> (r: i32)
    ensures
        r == (if benchmark_name@ == "lab1"@ {
            3i32
        } else {
            2i32
        }),
{
    if benchmark_name == String::from_str("lab1") {
        3
    } else {
        2
    }
}

} // verus!
