use evolutionary::bench::{benchmark_function, run_benchmark_suite, Metrics};
use evolutionary::benchmark;
use evolutionary::greedy::{greedy_cycle, greedy_nn_to_any_point, greedy_nn_to_last_point};
use evolutionary::matrix::{calculate_distance_matrix, DistanceMatrix, SCALE};
use evolutionary::points::{points_from_rows, DataPoint};
use evolutionary::tour::check_solution;

type Construction = fn(&Vec<DataPoint>, usize, &DistanceMatrix) -> Vec<usize>;

fn square() -> Vec<DataPoint> {
    points_from_rows(&vec![(0, 0, 0), (10, 0, 0), (10, 10, 0), (0, 10, 0)])
}

#[test]
fn matrix_entry_is_distance_plus_destination_cost() {
    let data = points_from_rows(&vec![(0, 0, 2), (3, 4, 7), (1, 1, 0)]);
    let m = calculate_distance_matrix(&data);
    assert_eq!(m.get(0, 1), 12_000_000);
    assert_eq!(m.get(1, 0), 7_000_000);
    assert_eq!(m.get(0, 2), 1_414_213);
    assert_eq!(m.get(2, 0), 3_414_213);
    assert_eq!(m.get(1, 1), 7 * SCALE);
}

#[test]
fn matrix_distance_part_is_symmetric() {
    let data = points_from_rows(&vec![
        (-5, 3, 10),
        (7, -2, 0),
        (100, 40, 33),
        (7, -2, 9),
        (2147483647, -2147483648, 2147483647),
    ]);
    let m = calculate_distance_matrix(&data);
    for i in 0..data.len() {
        for j in 0..data.len() {
            let cost_i = data[i].cost as i64 * SCALE;
            let cost_j = data[j].cost as i64 * SCALE;
            assert_eq!(m.get(i, j) - cost_j, m.get(j, i) - cost_i);
        }
    }
}

#[test]
fn coincident_points_are_zero_apart() {
    let data = points_from_rows(&vec![(4, 4, 3), (4, 4, 5)]);
    let m = calculate_distance_matrix(&data);
    assert_eq!(m.get(0, 1), 5 * SCALE);
    assert_eq!(m.get(1, 0), 3 * SCALE);
}

#[test]
fn score_of_rotations_is_the_same() {
    let data = points_from_rows(&vec![
        (0, 0, 1),
        (9, 3, 4),
        (5, 12, 0),
        (-7, 8, 6),
        (3, -3, 2),
    ]);
    let m = calculate_distance_matrix(&data);
    let tour = vec![4, 0, 2, 3, 1];
    let score = check_solution(&tour, &data, &m);
    for k in 0..tour.len() {
        let mut rotated = tour[k..].to_vec();
        rotated.extend_from_slice(&tour[..k]);
        assert_eq!(check_solution(&rotated, &data, &m), score);
    }
}

#[test]
fn score_depends_on_order() {
    let data = points_from_rows(&vec![(0, 0, 0), (10, 0, 0), (10, 10, 0), (0, 10, 0)]);
    let m = calculate_distance_matrix(&data);
    assert_eq!(check_solution(&vec![0, 1, 2, 3], &data, &m), 40_000_000);
    assert_eq!(check_solution(&vec![0, 2, 1, 3], &data, &m), 48_284_270);
}

#[test]
fn score_of_single_point_is_its_cost() {
    let data = points_from_rows(&vec![(0, 0, 9), (1, 0, 1)]);
    let m = calculate_distance_matrix(&data);
    assert_eq!(check_solution(&vec![0], &data, &m), 9_000_000);
}

#[test]
fn harness_scores_every_starting_point() {
    let data = square();
    let m = calculate_distance_matrix(&data);
    let metrics = benchmark_function(greedy_nn_to_last_point, &data, &m, "nn_to_last");
    assert_eq!(metrics.name, "nn_to_last");
    assert_eq!(metrics.scores.len(), 4);
    let least = *metrics.scores.iter().min().unwrap();
    assert_eq!(check_solution(&metrics.best_solution, &data, &m), least);
    assert_eq!(metrics.min(), Some(least));
}

#[test]
fn harness_keeps_first_best_tour() {
    let data = points_from_rows(&vec![(0, 0, 0), (10, 0, 0), (10, 10, 50), (0, 10, 50)]);
    let m = calculate_distance_matrix(&data);
    let metrics = benchmark_function(greedy_nn_to_last_point, &data, &m, "first");
    assert_eq!(metrics.scores, vec![20_000_000, 20_000_000, 70_000_000, 70_000_000]);
    assert_eq!(metrics.best_solution, vec![0, 1]);
}

#[test]
fn metrics_without_scores() {
    let metrics = Metrics {
        name: "none".to_string(),
        scores: Vec::new(),
        total_time: 0,
        best_solution: Vec::new(),
    };
    assert_eq!(metrics.min(), None);
    assert_eq!(metrics.max(), None);
    assert_eq!(metrics.total(), Some(0));
}

#[test]
fn suite_runs_each_named_construction() {
    let data = square();
    let m = calculate_distance_matrix(&data);
    let functions: Vec<Construction> =
        vec![greedy_cycle, greedy_nn_to_any_point, greedy_nn_to_last_point];
    let results = run_benchmark_suite(functions, vec!["cycle", "nn_cycle"], &data, &m);
    assert_eq!(results.len(), 2);
    assert_eq!(results[0].name, "cycle");
    assert_eq!(results[1].name, "nn_cycle");
    assert_eq!(results[0].scores.len(), 4);
}

#[test]
fn metrics_summaries() {
    let metrics = Metrics {
        name: "m".to_string(),
        scores: vec![5, -2, 9, 4],
        total_time: 0,
        best_solution: vec![1],
    };
    assert_eq!(metrics.min(), Some(-2));
    assert_eq!(metrics.max(), Some(9));
    assert_eq!(metrics.total(), Some(16));
}

#[test]
fn metrics_total_overflow_is_none() {
    let metrics = Metrics {
        name: "big".to_string(),
        scores: vec![i128::MAX, 1],
        total_time: 0,
        best_solution: Vec::new(),
    };
    assert_eq!(metrics.total(), None);
}

#[test]
fn points_take_row_numbers_as_ids() {
    let data = points_from_rows(&vec![(1, 2, 3), (4, 5, 6)]);
    assert_eq!(data.len(), 2);
    assert_eq!((data[1].id, data[1].x, data[1].y, data[1].cost), (1, 4, 5, 6));
    assert_eq!(data[0].id, 0);
}

#[test]
fn benchmark_names_select_report() {
    assert_eq!(benchmark("lab1".to_string()), 3);
    assert_eq!(benchmark("lab2".to_string()), 2);
}
