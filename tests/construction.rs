use evolutionary::greedy::{greedy_cycle, greedy_nn_to_any_point, greedy_nn_to_last_point};
use evolutionary::matrix::{calculate_distance_matrix, DistanceMatrix};
use evolutionary::points::{points_from_rows, DataPoint};
use evolutionary::tour::{check_solution, generate_random_solution};

type Construction = fn(&Vec<DataPoint>, usize, &DistanceMatrix) -> Vec<usize>;

fn square() -> Vec<DataPoint> {
    points_from_rows(&vec![(0, 0, 0), (10, 0, 0), (10, 10, 0), (0, 10, 0)])
}

fn line_and_far() -> Vec<DataPoint> {
    points_from_rows(&vec![
        (0, 0, 0),
        (10, 0, 0),
        (20, 0, 0),
        (0, 10, 0),
        (100, 100, 0),
        (200, 200, 0),
    ])
}

/// Points spread by a fixed linear congruential sequence over a square of
/// side 4000, with costs below 1000.
fn scattered(n: usize) -> Vec<DataPoint> {
    let mut state: u64 = 12345;
    let mut next = |bound: u64| {
        state = state.wrapping_mul(6364136223846793005).wrapping_add(1442695040888963407);
        ((state >> 33) % bound) as i32
    };
    let mut rows = Vec::new();
    for _ in 0..n {
        let x = next(4000);
        let y = next(4000);
        let cost = next(1000);
        rows.push((x, y, cost));
    }
    points_from_rows(&rows)
}

fn assert_valid_tour(tour: &[usize], n: usize) {
    assert_eq!(tour.len(), n / 2);
    for (k, id) in tour.iter().enumerate() {
        assert!(*id < n);
        assert!(!tour[..k].contains(id));
    }
}

#[test]
fn square_nn_to_last_picks_lower_id_on_tie() {
    let data = square();
    let m = calculate_distance_matrix(&data);
    let tour = greedy_nn_to_last_point(&data, 0, &m);
    assert_eq!(tour, vec![0, 1]);
    assert_eq!(check_solution(&tour, &data, &m), 20_000_000);
}

#[test]
fn nn_to_last_counts_destination_cost() {
    let data = points_from_rows(&vec![(0, 0, 5), (3, 4, 1), (6, 8, 100), (0, 1, 50)]);
    let m = calculate_distance_matrix(&data);
    let tour = greedy_nn_to_last_point(&data, 0, &m);
    assert_eq!(tour, vec![0, 1]);
    assert_eq!(check_solution(&tour, &data, &m), 16_000_000);
}

#[test]
fn nn_to_last_on_line() {
    let data = line_and_far();
    let m = calculate_distance_matrix(&data);
    let tour = greedy_nn_to_last_point(&data, 0, &m);
    assert_eq!(tour, vec![0, 1, 2]);
    assert_eq!(check_solution(&tour, &data, &m), 40_000_000);
}

#[test]
fn nn_to_any_grows_at_the_front() {
    let data = line_and_far();
    let m = calculate_distance_matrix(&data);
    assert_eq!(greedy_nn_to_any_point(&data, 0, &m), vec![2, 1, 0]);
}

#[test]
fn greedy_cycle_inserts_cheapest() {
    let data = line_and_far();
    let m = calculate_distance_matrix(&data);
    let tour = greedy_cycle(&data, 0, &m);
    assert_eq!(tour, vec![3, 1, 0]);
    assert_eq!(check_solution(&tour, &data, &m), 34_142_135);
}

#[test]
fn every_construction_returns_half_of_distinct_ids() {
    let constructions: Vec<Construction> = vec![
        greedy_nn_to_last_point,
        greedy_nn_to_any_point,
        greedy_cycle,
        generate_random_solution,
    ];
    for n in [2usize, 3, 7, 20] {
        let data = scattered(n);
        let m = calculate_distance_matrix(&data);
        for f in &constructions {
            for start in 0..n {
                assert_valid_tour(&f(&data, start, &m), n);
            }
        }
    }
}

#[test]
fn nn_to_last_starts_at_the_starting_point() {
    let data = scattered(15);
    let m = calculate_distance_matrix(&data);
    for start in 0..15 {
        assert_eq!(greedy_nn_to_last_point(&data, start, &m)[0], start);
    }
}

#[test]
fn insertion_constructions_hold_the_starting_point() {
    let data = scattered(15);
    let m = calculate_distance_matrix(&data);
    for start in 0..15 {
        assert!(greedy_nn_to_any_point(&data, start, &m).contains(&start));
        assert!(greedy_cycle(&data, start, &m).contains(&start));
    }
}

#[test]
fn constructions_are_repeatable() {
    let data = scattered(25);
    let m = calculate_distance_matrix(&data);
    let constructions: Vec<Construction> =
        vec![greedy_nn_to_last_point, greedy_nn_to_any_point, greedy_cycle];
    for f in &constructions {
        for start in 0..25 {
            assert_eq!(f(&data, start, &m), f(&data, start, &m));
        }
    }
}

#[test]
fn stronger_constructions_score_better_on_average() {
    let n = 60;
    let data = scattered(n);
    let m = calculate_distance_matrix(&data);
    let mean = |f: Construction| -> f64 {
        let total: i128 = (0..n).map(|s| check_solution(&f(&data, s, &m), &data, &m)).sum();
        total as f64 / n as f64
    };
    let cycle = mean(greedy_cycle);
    let any = mean(greedy_nn_to_any_point);
    let random = mean(generate_random_solution);
    assert!(cycle <= any, "greedy cycle {cycle}, nearest to any {any}");
    assert!(any <= random, "nearest to any {any}, random {random}");
}

#[test]
fn random_solution_is_shuffled() {
    let data = scattered(20);
    let m = calculate_distance_matrix(&data);
    let first_half: Vec<usize> = (0..10).collect();
    let mut differs = false;
    for _ in 0..20 {
        let tour = generate_random_solution(&data, 0, &m);
        assert_valid_tour(&tour, 20);
        if tour != first_half {
            differs = true;
        }
    }
    assert!(differs);
}

#[test]
fn random_solution_of_one_point_is_empty() {
    let data = points_from_rows(&vec![(1, 1, 1)]);
    let m = calculate_distance_matrix(&data);
    assert!(generate_random_solution(&data, 0, &m).is_empty());
}
