use tsl::hill_climbing::{HillClimbing, NeighbourOutcome};
use tsl::annealing::{SimulatedAnnealing, ACCEPTED_PER_COOLDOWN, TESTED_PER_COOLDOWN};
use tsl::replay::{RandReader, ReplayError};
use tsl::tabu::{RebootKind, TabuConfig, TabuSearch};
use tsl::tour::{calculate_cost, MoveKind};
use tsl::triangular::TriangularMatrix;

fn five_nodes() -> TriangularMatrix<usize> {
    // lines 1..=5 of a symmetric table over nodes 0..=5
    let values: Vec<usize> = vec![
        3, //
        8, 4, //
        2, 9, 5, //
        7, 1, 6, 3, //
        5, 8, 2, 7, 4,
    ];
    TriangularMatrix::from_values(values, 6).unwrap()
}

fn plain_config(capacity: usize) -> TabuConfig {
    TabuConfig {
        move_kind: MoveKind::Exchange,
        taboo_list_size: capacity,
        reboot_parameter: 3,
        intensification_period: 1,
        clear_on_intensification: true,
    }
}

#[test]
fn tabu_list_never_exceeds_capacity() {
    let mut s = TabuSearch::new(five_nodes(), vec![1, 2, 3, 4, 5], plain_config(4));
    for _ in 0..60 {
        let _ = s.reboot_if_necessary(&Vec::new());
        let before = s.taboo_moves();
        let m = s.next_solution().unwrap();
        assert!(!before.contains(&m));
        let after = s.taboo_moves();
        assert!(after.len() <= 4);
        assert_eq!(*after.last().unwrap(), m);
    }
}

#[test]
fn tabu_step_picks_cheapest_allowed_move() {
    let m = five_nodes();
    let start = vec![1, 2, 3, 4, 5];
    let mut s = TabuSearch::new(five_nodes(), start.clone(), plain_config(10));
    let (mv, cost) = s.select_move().unwrap();
    let mut best = u128::MAX;
    let mut first = (0, 0);
    for i in 0..5 {
        for j in 0..i {
            let mut t = start.clone();
            t.swap(i, j);
            let c = calculate_cost(&m, &t);
            if c < best {
                best = c;
                first = (i, j);
            }
        }
    }
    assert_eq!(cost, best);
    assert_eq!(mv, first);
    assert_eq!(s.next_solution(), Some(first));
    assert_eq!(s.total_iterations, 1);
}

#[test]
fn tabu_all_moves_forbidden_leaves_state() {
    // two nodes: the only move is (1, 0)
    let m = TriangularMatrix::from_values(vec![1usize, 2, 3], 3).unwrap();
    let mut s = TabuSearch::new(m, vec![1, 2], plain_config(5));
    assert_eq!(s.next_solution(), Some((1, 0)));
    assert_eq!(s.current_solution, vec![2, 1]);
    assert_eq!(s.next_solution(), None);
    assert_eq!(s.current_solution, vec![2, 1]);
    assert_eq!(s.total_iterations, 1);
}

#[test]
fn best_cost_never_increases() {
    let config = TabuConfig {
        move_kind: MoveKind::Reversal,
        taboo_list_size: 3,
        reboot_parameter: 2,
        intensification_period: 3,
        clear_on_intensification: false,
    };
    let mut s = TabuSearch::new(five_nodes(), vec![5, 4, 3, 2, 1], config);
    let perturbations: Vec<Vec<(usize, usize)>> = vec![vec![(1, 2)], vec![(1, 1), (2, 1)], vec![]];
    let mut last = s.best_cost;
    for _ in 0..80 {
        assert!(s.diversification_fits());
        let _ = s.reboot_if_necessary(&perturbations);
        let _ = s.next_solution();
        assert!(s.best_cost <= last);
        assert_eq!(calculate_cost(&five_nodes(), &s.best_solution), s.best_cost);
        last = s.best_cost;
    }
}

#[test]
fn reboot_kind_follows_period() {
    let config = TabuConfig {
        move_kind: MoveKind::Reversal,
        taboo_list_size: 3,
        reboot_parameter: 0,
        intensification_period: 2,
        clear_on_intensification: false,
    };
    let mut s = TabuSearch::new(five_nodes(), vec![1, 2, 3, 4, 5], config);
    assert_eq!(s.pending_reboot(), None);
    s.non_improvement_iterations = 1;
    assert_eq!(s.pending_reboot(), Some(RebootKind::Diversification));
    s.number_of_reboots = 2;
    assert_eq!(s.pending_reboot(), Some(RebootKind::Intensification));
}

#[test]
fn intensification_returns_to_best() {
    let mut s = TabuSearch::new(five_nodes(), vec![1, 2, 3, 4, 5], plain_config(3));
    let _ = s.next_solution();
    let best = s.best_solution.clone();
    s.non_improvement_iterations = 10;
    assert_eq!(s.reboot_if_necessary(&Vec::new()), Some(RebootKind::Intensification));
    assert_eq!(s.current_solution, best);
    assert_eq!(s.non_improvement_iterations, 0);
    assert_eq!(s.number_of_reboots, 2);
    assert!(s.taboo_moves().is_empty());
}

#[test]
fn diversification_keeps_lowest_score() {
    let config = TabuConfig {
        move_kind: MoveKind::Reversal,
        taboo_list_size: 3,
        reboot_parameter: 0,
        intensification_period: 10,
        clear_on_intensification: false,
    };
    let mut s = TabuSearch::new(five_nodes(), vec![1, 2, 3, 4, 5], config);
    let _ = s.next_solution();
    let best = s.best_solution.clone();
    let perturbations: Vec<Vec<(usize, usize)>> = vec![vec![(0, 4)], vec![], vec![(1, 3), (2, 4)]];
    let scores: Vec<u128> = perturbations
        .iter()
        .map(|p| {
            let t = TabuSearch::perturb(&best, p);
            calculate_cost(&s.cost_map, &t) * s.freq_mat.max_frec as u128
                + s.freq_mat.get_solution_freq_cost(&t)
                    * (*s.cost_map.get_max() - *s.cost_map.get_min()) as u128
        })
        .collect();
    let mut expected = 0;
    for k in 1..scores.len() {
        if scores[k] < scores[expected] {
            expected = k;
        }
    }
    let chosen = s.reboot_diversification(&perturbations);
    assert_eq!(chosen, expected);
    assert_eq!(s.current_solution, TabuSearch::perturb(&best, &perturbations[expected]));
    assert!(s.taboo_moves().is_empty());
}

#[test]
fn perturb_applies_exchanges_in_order() {
    assert_eq!(TabuSearch::perturb(&vec![1, 2, 3, 4], &vec![(0, 1), (1, 3)]), vec![2, 4, 3, 1]);
    assert_eq!(TabuSearch::perturb(&vec![1, 2, 3], &vec![]), vec![1, 2, 3]);
}

fn run_annealing(anchors: &[usize], passes: &[bool]) -> Vec<(usize, Vec<usize>, u128, bool, usize, usize)> {
    let mut s = SimulatedAnnealing::new(five_nodes(), vec![1, 2, 3, 4, 5]);
    let mut trace = Vec::new();
    for (k, &anchor) in anchors.iter().enumerate() {
        s.next_solution(anchor);
        s.save_tested_if_proceed(passes[k]);
        trace.push((
            s.total_iterations,
            s.tested_solution.clone(),
            s.tested_solution_cost,
            s.last_was_accepted,
            s.cooldowns_counter,
            s.best_solution_iteration,
        ));
    }
    trace
}

#[test]
fn annealing_runs_are_deterministic() {
    let anchors: Vec<usize> = (0..300).map(|k| (k * 7) % 5).collect();
    let passes: Vec<bool> = (0..300).map(|k| k % 3 == 0).collect();
    assert_eq!(run_annealing(&anchors, &passes), run_annealing(&anchors, &passes));
}

#[test]
fn annealing_cools_after_enough_tests() {
    let mut s = SimulatedAnnealing::new(five_nodes(), vec![1, 2, 3, 4, 5]);
    for k in 0..TESTED_PER_COOLDOWN {
        s.next_solution(k % 5);
        s.save_tested_if_proceed(false);
        assert!(s.accepted_candidates < ACCEPTED_PER_COOLDOWN || s.tested_candidates > 0);
    }
    assert_eq!(s.cooldowns_counter, 0);
    assert!(s.cooldown_if_proceed() || s.cooldowns_counter > 0);
    assert_eq!(s.tested_candidates, 0);
}

#[test]
fn annealing_accepts_improvements_and_passed_draws() {
    let mut s = SimulatedAnnealing::new(five_nodes(), vec![1, 2, 3, 4, 5]);
    let start_cost = s.current_solution_cost;
    s.next_solution(0);
    let tested = s.tested_solution_cost;
    s.save_tested_if_proceed(false);
    if tested < start_cost {
        assert!(s.last_was_accepted);
        assert_eq!(s.current_solution_cost, tested);
        assert_eq!(s.best_cost, tested);
        assert_eq!(s.best_solution_iteration, 1);
    } else {
        assert!(!s.last_was_accepted);
        assert_eq!(s.current_solution_cost, start_cost);
    }
    s.next_solution(2);
    let tested = s.tested_solution.clone();
    s.save_tested_if_proceed(true);
    assert!(s.last_was_accepted);
    assert_eq!(s.current_solution, tested);
    assert!(s.best_cost <= s.current_solution_cost);
}

#[test]
fn annealing_proposal_is_cheapest_anchored_reversal() {
    let m = five_nodes();
    let mut s = SimulatedAnnealing::new(five_nodes(), vec![1, 2, 3, 4, 5]);
    s.next_solution(2);
    let mut best = u128::MAX;
    let mut other = 0;
    for i in 0..5 {
        if i == 2 {
            continue;
        }
        let t = tsl::tour::reverse_segment(&vec![1, 2, 3, 4, 5], 2, i);
        let c = calculate_cost(&m, &t);
        if c < best {
            best = c;
            other = i;
        }
    }
    assert_eq!(s.tested_solution_insertion, (2, other));
    assert_eq!(s.tested_solution_cost, best);
    assert_eq!(s.total_iterations, 1);
}

#[test]
fn replay_cycles_through_values() {
    let mut g = RandReader::from_values(vec![0.25f64, 0.5, 0.75]).unwrap();
    let drawn: Vec<f64> = (0..7).map(|_| g.next_random()).collect();
    assert_eq!(drawn, vec![0.25, 0.5, 0.75, 0.25, 0.5, 0.75, 0.25]);
}

#[test]
fn replay_without_values_is_an_error() {
    let r = RandReader::<f64>::from_values(Vec::new());
    assert_eq!(r.err(), Some(ReplayError::EmptyRandomSource));
}

#[test]
fn hill_climbing_takes_first_untried_exchange() {
    let mut h = HillClimbing::new(five_nodes(), vec![1, 2, 3, 4, 5]);
    // equal draws start from (max((2 + 1) % 5, 1), 0) = (3, 0)
    assert_eq!(h.next_neighbour(2, 2), Some((3, 0)));
    assert_eq!(h.next_neighbour(0, 3), Some((3, 1)));
    assert_eq!(h.next_neighbour(3, 0), Some((3, 2)));
    // equal draws at the last position wrap to (1, 0)
    assert_eq!(h.next_neighbour(4, 4), Some((1, 0)));
    for _ in 0..6 {
        assert!(h.next_neighbour(4, 3).is_some());
    }
    assert_eq!(h.next_neighbour(1, 2), None);
    let outcome = h.try_neighbour(1, 2);
    assert_eq!(outcome, NeighbourOutcome::Exhausted);
}

#[test]
fn hill_climbing_descends_to_local_optimum() {
    let m = five_nodes();
    let mut h = HillClimbing::new(five_nodes(), vec![5, 4, 3, 2, 1]);
    let mut last = h.current_cost;
    let mut k = 0usize;
    loop {
        let outcome = h.try_neighbour(k % 5, (k * 3 + 1) % 5);
        k += 1;
        match outcome {
            NeighbourOutcome::Improved(_, _, c) => {
                assert!(c < last);
                last = c;
                assert_eq!(calculate_cost(&m, &h.current_solution), c);
            },
            NeighbourOutcome::Rejected(_, _, c) => assert!(c >= last),
            NeighbourOutcome::Exhausted => break,
        }
    }
    for i in 0..5 {
        for j in 0..i {
            let mut t = h.current_solution.clone();
            t.swap(i, j);
            assert!(calculate_cost(&m, &t) >= h.current_cost);
        }
    }
}
