use tsl::construction::{generate_greedy_solution, generate_rand_solution};
use tsl::frequency::FreqMatrix;
use tsl::tour::{
    anchored_neighbours, apply_move, calculate_cost, generate_neighbours, neighbour_cost,
    reverse_segment, swap_solution, MoveKind,
};
use tsl::triangular::TriangularMatrix;

fn four_nodes() -> TriangularMatrix<usize> {
    TriangularMatrix::from_values(vec![1, 2, 3, 4, 5, 6], 4).unwrap()
}

fn is_permutation(t: &[usize], n: usize) -> bool {
    let mut seen = vec![false; n + 1];
    if t.len() != n {
        return false;
    }
    for &x in t {
        if x == 0 || x > n || seen[x] {
            return false;
        }
        seen[x] = true;
    }
    true
}

#[test]
fn cost_of_four_node_tour() {
    let m = four_nodes();
    assert_eq!(calculate_cost(&m, &vec![1, 2, 3]), 14);
    assert_eq!(calculate_cost(&m, &vec![3, 2, 1]), 14);
    // depot-2-1-3-depot: 2 + 3 + 5 + 4
    assert_eq!(calculate_cost(&m, &vec![2, 1, 3]), 14);
    // depot-1-3-2-depot: 1 + 5 + 6 + 2
    assert_eq!(calculate_cost(&m, &vec![1, 3, 2]), 14);
}

#[test]
fn cost_of_single_node_tour() {
    let m = TriangularMatrix::from_values(vec![7usize], 2).unwrap();
    assert_eq!(calculate_cost(&m, &vec![1]), 14);
}

#[test]
fn cost_of_asymmetric_weights() {
    // d(1,0)=10, d(2,0)=1, d(2,1)=100, d(3,0)=1000, d(3,1)=2, d(3,2)=3
    let m = TriangularMatrix::from_values(vec![10usize, 1, 100, 1000, 2, 3], 4).unwrap();
    assert_eq!(calculate_cost(&m, &vec![1, 3, 2]), 10 + 2 + 3 + 1);
    assert_eq!(calculate_cost(&m, &vec![3, 1, 2]), 1000 + 2 + 100 + 1);
}

#[test]
fn exchange_move_example() {
    assert_eq!(swap_solution(&vec![1, 2, 3], 2, 0), vec![3, 2, 1]);
    assert_eq!(apply_move(MoveKind::Exchange, &vec![1, 2, 3], 2, 0), vec![3, 2, 1]);
}

#[test]
fn reversal_equals_exchange_on_narrow_ranges() {
    assert_eq!(reverse_segment(&vec![1, 2, 3], 2, 0), vec![3, 2, 1]);
    assert_eq!(reverse_segment(&vec![1, 2, 3, 4], 2, 1), swap_solution(&vec![1, 2, 3, 4], 2, 1));
}

#[test]
fn reversal_differs_from_exchange_on_wide_ranges() {
    let t = vec![10, 20, 30, 40];
    assert_eq!(reverse_segment(&t, 0, 3), vec![40, 30, 20, 10]);
    assert_eq!(swap_solution(&t, 0, 3), vec![40, 20, 30, 10]);
    assert_eq!(apply_move(MoveKind::Reversal, &t, 3, 0), vec![40, 30, 20, 10]);
    assert_eq!(reverse_segment(&vec![1, 2, 3, 4, 5], 3, 1), vec![1, 4, 3, 2, 5]);
}

#[test]
fn neighbour_cost_matches_full_cost() {
    let m = TriangularMatrix::from_values(vec![10usize, 1, 100, 1000, 2, 3], 4).unwrap();
    let t = vec![1, 2, 3];
    for i in 0..3 {
        for j in 0..i {
            for kind in [MoveKind::Exchange, MoveKind::Reversal] {
                let moved = apply_move(kind, &t, i, j);
                assert_eq!(neighbour_cost(&m, &t, kind, i, j), calculate_cost(&m, &moved));
            }
        }
    }
}

#[test]
fn neighbours_in_ascending_order() {
    assert_eq!(
        generate_neighbours(4),
        vec![(1, 0), (2, 0), (2, 1), (3, 0), (3, 1), (3, 2)]
    );
    assert!(generate_neighbours(1).is_empty());
    assert!(generate_neighbours(0).is_empty());
}

#[test]
fn anchored_neighbours_skip_the_anchor() {
    assert_eq!(anchored_neighbours(1, 4), vec![(1, 0), (1, 2), (1, 3)]);
    assert_eq!(anchored_neighbours(0, 3), vec![(0, 1), (0, 2)]);
    assert_eq!(anchored_neighbours(2, 3), vec![(2, 0), (2, 1)]);
}

#[test]
fn random_permutation_resolves_collisions() {
    // draws of 0.0 each scale to position 0, that is node 1
    assert_eq!(generate_rand_solution(&vec![0, 0, 0], 3), vec![1, 2, 3]);
}

#[test]
fn random_permutation_wraps_around() {
    assert_eq!(generate_rand_solution(&vec![2, 2, 2], 3), vec![3, 1, 2]);
    assert_eq!(generate_rand_solution(&vec![3, 3, 0, 3], 4), vec![4, 1, 2, 3]);
    assert_eq!(generate_rand_solution(&vec![1, 0, 2], 3), vec![2, 1, 3]);
}

#[test]
fn random_permutations_are_tours() {
    let n = 6;
    for seed in 0..50usize {
        let draws: Vec<usize> = (0..n).map(|k| (seed * 7 + k * 13) % n).collect();
        let t = generate_rand_solution(&draws, n);
        assert!(is_permutation(&t, n));
    }
}

#[test]
fn greedy_tour_on_four_nodes() {
    assert_eq!(generate_greedy_solution(&four_nodes()), vec![1, 2, 3]);
}

#[test]
fn greedy_prefers_cheapest_then_smallest() {
    // d(1,0)=5, d(2,0)=1, d(2,1)=1, d(3,0)=1, d(3,1)=9, d(3,2)=1
    let m = TriangularMatrix::from_values(vec![5usize, 1, 1, 1, 9, 1], 4).unwrap();
    let t = generate_greedy_solution(&m);
    assert_eq!(t, vec![2, 1, 3]);
    assert!(is_permutation(&t, 3));
}

#[test]
fn frequency_counts_every_edge_with_depot() {
    let mut f = FreqMatrix::new(4);
    f.insert_solution(&vec![1, 2, 3]);
    assert_eq!(f.get_edge_freq_cost(1, 0), 1);
    assert_eq!(f.get_edge_freq_cost(2, 1), 1);
    assert_eq!(f.get_edge_freq_cost(3, 2), 1);
    assert_eq!(f.get_edge_freq_cost(3, 0), 1);
    assert_eq!(f.get_edge_freq_cost(2, 0), 0);
    assert_eq!(f.get_edge_freq_cost(3, 1), 0);
    assert_eq!(f.max_frec, 1);
    f.insert_solution(&vec![1, 3, 2]);
    assert_eq!(f.get_edge_freq_cost(1, 0), 2);
    assert_eq!(f.get_edge_freq_cost(3, 2), 2);
    assert_eq!(f.get_edge_freq_cost(3, 1), 1);
    assert_eq!(f.max_frec, 2);
    assert_eq!(f.get_solution_freq_cost(&vec![1, 2, 3]), 2 + 1 + 2 + 1);
}
