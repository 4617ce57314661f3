use vstd::prelude::*;
use linked_hash_set::LinkedHashSet;
use rayon::iter::{IndexedParallelIterator, IntoParallelRefIterator, ParallelIterator};
use crate::triangular::{TriangularMatrix, triangle, cell_index, lemma_triangle_grows, lemma_cell_index_injective};
use crate::tour::{
    MoveKind,
    is_tour,
    applied,
    swapped,
    tour_cost,
    edges_cost,
    lemma_edge_valid,
    lemma_applied_is_tour,
    calculate_cost,
    apply_move,
    neighbour_cost,
    generate_neighbours,
    is_pair_at,
};
use crate::frequency::{FreqMatrix, edge_hits};
use crate::taboo_list::{
    taboo_contents,
    taboo_new,
    taboo_len,
    taboo_contains,
    taboo_insert,
    taboo_pop_front,
    taboo_clear,
    taboo_items,
};

verus! {

/// Relies on rayon's `par_iter`, `map` and `collect_into_vec`: the moves are
/// costed in parallel and the costs are collected in the order of `moves`.
#[verifier::external_body]
fn parallel_costs(
    cost_map: &TriangularMatrix<usize>,
    solution: &Vec<usize>,
    kind: MoveKind,
    moves: &Vec<(usize, usize)>,
) -> (r: Vec<u128>)
    requires
        cost_map.wf(),
        cost_map.lines() == solution@.len() + 1,
        solution@.len() >= 1,
        is_tour(solution@, solution@.len() as int),
        forall|k: int|
            0 <= k < moves@.len() ==> #[trigger] moves@[k].0 < solution@.len() && moves@[k].1
                < solution@.len(),
    ensures
        r@.len() == moves@.len(),
        forall|k: int|
            0 <= k < moves@.len() ==> #[trigger] r@[k] == tour_cost(
                cost_map@,
                applied(kind, solution@, moves@[k].0 as int, moves@[k].1 as int),
            ),
{
    let mut costs: Vec<u128> = Vec::new();
    moves.par_iter().map(|&(i, j)| neighbour_cost(cost_map, solution, kind, i, j)).collect_into_vec(
        &mut costs,
    );
    costs
}

/// A position pair `(i, j)`, `j < i < size`.
pub open spec fn is_move(m: (usize, usize), size: int) -> bool {
    m.1 < m.0 < size
}

/// The two ways to restart a stalled search.
#[derive(Debug, Clone, Copy, PartialEq, Eq, Structural)]
pub enum RebootKind {
    /// Go back to the best tour found.
    Intensification,
    /// Jump to a perturbed copy of the best tour, steering away from edges
    /// that recorded tours used often.
    Diversification,
}

/// The knobs of a tabu search.
#[derive(Debug, Clone, Copy, PartialEq, Eq, Structural)]
pub struct TabuConfig {
    /// The neighbourhood explored at each step.
    pub move_kind: MoveKind,
    /// How many recent moves stay forbidden.
    pub taboo_list_size: usize,
    /// Steps without improvement tolerated before a restart.
    pub reboot_parameter: usize,
    /// Every restart whose number is a multiple of this intensifies; the
    /// others diversify.
    pub intensification_period: usize,
    /// Whether an intensification also forgets the forbidden moves (a
    /// diversification always does).
    pub clear_on_intensification: bool,
}

/// The tour after the given exchanges, applied in order.
pub open spec fn swaps_applied(t: Seq<usize>, pairs: Seq<(usize, usize)>, k: nat) -> Seq<usize>
    decreases k,
{
    if k == 0 || k > pairs.len() {
        t
    } else {
        let prev = swaps_applied(t, pairs, (k - 1) as nat);
        swapped(prev, pairs[k - 1].0 as int, pairs[k - 1].1 as int)
    }
}

/// The state of a tabu search over one instance.
pub struct TabuSearch {
    pub cost_map: TriangularMatrix<usize>,
    pub config: TabuConfig,
    pub solution_size: usize,
    pub current_solution: Vec<usize>,
    pub best_cost: u128,
    pub best_solution: Vec<usize>,
    pub best_solution_iteration: usize,
    pub taboo_list: LinkedHashSet<(usize, usize)>,
    pub non_improvement_iterations: usize,
    pub total_iterations: usize,
    pub number_of_reboots: usize,
    pub freq_mat: FreqMatrix,
}

impl TabuSearch {
    /// The forbidden moves, oldest first.
    pub open spec fn taboo(&self) -> Seq<(usize, usize)> {
        taboo_contents(self.taboo_list)
    }

    pub open spec fn wf(&self) -> bool {
        &&& self.cost_map.wf()
        &&& self.solution_size >= 1
        &&& self.cost_map.lines() == self.solution_size + 1
        &&& is_tour(self.current_solution@, self.solution_size as int)
        &&& is_tour(self.best_solution@, self.solution_size as int)
        &&& self.best_cost == tour_cost(self.cost_map@, self.best_solution@)
        &&& self.config.taboo_list_size >= 1
        &&& self.config.intensification_period >= 1
        &&& self.taboo().len() <= self.config.taboo_list_size
        &&& self.taboo().no_duplicates()
        &&& self.freq_mat.wf()
        &&& self.freq_mat.frec_data.lines() == self.solution_size + 1
        &&& self.best_solution_iteration <= self.total_iterations
    }

    /// Cost of the tour that move `m` leads to from the current one.
    pub open spec fn move_cost(&self, m: (usize, usize)) -> int {
        tour_cost(
            self.cost_map@,
            applied(self.config.move_kind, self.current_solution@, m.0 as int, m.1 as int),
        )
    }

    /// `m` is allowed and no allowed move leads to a cheaper tour; every
    /// allowed move listed before it leads to a dearer one.
    pub open spec fn is_best_allowed(&self, m: (usize, usize)) -> bool {
        &&& is_move(m, self.solution_size as int)
        &&& !self.taboo().contains(m)
        &&& forall|o: (usize, usize)|
            is_move(o, self.solution_size as int) && !self.taboo().contains(o) ==> {
                &&& self.move_cost(m) <= #[trigger] self.move_cost(o)
                &&& cell_index(o.0 as int, o.1 as int) < cell_index(m.0 as int, m.1 as int)
                    ==> self.move_cost(m) < self.move_cost(o)
            }
    }

    /// Every move is forbidden.
    pub open spec fn all_taboo(&self) -> bool {
        forall|o: (usize, usize)| #[trigger]
            is_move(o, self.solution_size as int) ==> self.taboo().contains(o)
    }

    /// Score of a restart candidate: `max_frec` times its cost plus its
    /// frequency sum times the spread of the costs, which is `max_frec` times
    /// the cost plus the normalised frequency weighted by that spread.
    pub open spec fn diversification_score(&self, t: Seq<usize>) -> int {
        tour_cost(self.cost_map@, t) * self.freq_mat.max_frec + tour_cost(
            self.freq_mat.frec_data@,
            t,
        ) * (self.cost_map.cell_max() - self.cost_map.cell_min())
    }

    /// Restart scores of every tour fit in `u128`.
    pub open spec fn scores_fit(&self) -> bool {
        2 * (self.solution_size + 1) * self.cost_map.cell_max() * self.freq_mat.max_frec
            <= u128::MAX
    }

    /// Starts a search from `initial_solution`.
    pub fn new(
        cost_map: TriangularMatrix<usize>,
        initial_solution: Vec<usize>,
        config: TabuConfig,
    ) -> (r: TabuSearch)
        requires
            cost_map.wf(),
            cost_map.lines() == initial_solution@.len() + 1,
            initial_solution@.len() >= 1,
            is_tour(initial_solution@, initial_solution@.len() as int),
            config.taboo_list_size >= 1,
            config.intensification_period >= 1,
        ensures
            r.wf(),
            r.cost_map@ == cost_map@,
            r.config == config,
            r.solution_size == initial_solution@.len(),
            r.current_solution@ == initial_solution@,
            r.best_solution@ == initial_solution@,
            r.best_cost == tour_cost(cost_map@, initial_solution@),
            r.best_solution_iteration == 0,
            r.taboo() == Seq::<(usize, usize)>::empty(),
            r.non_improvement_iterations == 0,
            r.total_iterations == 0,
            r.number_of_reboots == 1,
            r.freq_mat.max_frec == 1,
            forall|p: int| 0 <= p < r.freq_mat.frec_data@.len() ==> r.freq_mat.frec_data@[p] == 0,
    {
        let solution_size: usize = initial_solution.len();
        let best_cost: u128 = calculate_cost(&cost_map, &initial_solution);
        let best_solution: Vec<usize> = initial_solution.clone();
        let freq_mat: FreqMatrix = FreqMatrix::new(cost_map.number_of_lines());
        TabuSearch {
            cost_map,
            config,
            solution_size,
            current_solution: initial_solution,
            best_cost,
            best_solution,
            best_solution_iteration: 0,
            taboo_list: taboo_new(),
            non_improvement_iterations: 0,
            total_iterations: 0,
            number_of_reboots: 1,
            freq_mat,
        }
    }

    /// The best allowed move and the cost of the tour it leads to; `None`
    /// when every move is forbidden.
    pub fn select_move(&self) -> (r: Option<((usize, usize), u128)>)
        requires
            self.wf(),
        ensures
            r is None <==> self.all_taboo(),
            r matches Some((m, c)) ==> self.is_best_allowed(m) && c == self.move_cost(m),
    {
        let size: usize = self.solution_size;
        proof {
            lemma_triangle_grows(size as nat, (size + 1) as nat);
        }
        let moves: Vec<(usize, usize)> = generate_neighbours(size);
        let costs: Vec<u128> = parallel_costs(
            &self.cost_map,
            &self.current_solution,
            self.config.move_kind,
            &moves,
        );
        let mut found: bool = false;
        let mut best: usize = 0;
        let mut best_cost: u128 = 0;
        let mut k: usize = 0;
        while k < moves.len()
            invariant
                self.wf(),
                size == self.solution_size,
                moves@.len() == triangle(size as nat),
                forall|q: int| 0 <= q < moves@.len() ==> is_pair_at(#[trigger] moves@[q], q, size as int),
                costs@.len() == moves@.len(),
                forall|q: int|
                    0 <= q < moves@.len() ==> #[trigger] costs@[q] == self.move_cost(moves@[q]),
                k <= moves@.len(),
                found ==> best < k && !self.taboo().contains(moves@[best as int]) && best_cost
                    == costs@[best as int],
                forall|q: int|
                    0 <= q < k && !self.taboo().contains(#[trigger] moves@[q]) ==> found && (
                    best_cost < costs@[q] || (best_cost == costs@[q] && best <= q)),
            decreases moves@.len() - k,
        {
            let m: (usize, usize) = moves[k];
            if !taboo_contains(&self.taboo_list, m) {
                if !found || costs[k] < best_cost {
                    found = true;
                    best = k;
                    best_cost = costs[k];
                }
            }
            k = k + 1;
        }
        if !found {
            proof {
                assert forall|o: (usize, usize)| #[trigger]
                    is_move(o, self.solution_size as int) implies self.taboo().contains(o) by {
                    let q = cell_index(o.0 as int, o.1 as int);
                    crate::triangular::lemma_cell_in_storage((size + 1) as nat, o.0 as int, o.1 as int);
                    lemma_triangle_grows(o.0 as nat, size as nat);
                    assert(is_pair_at(moves@[q], q, size as int));
                    lemma_cell_index_injective(moves@[q], o);
                }
            }
            return None;
        }
        let chosen: (usize, usize) = moves[best];
        proof {
            assert(is_pair_at(moves@[best as int], best as int, size as int));
            assert forall|o: (usize, usize)|
                is_move(o, self.solution_size as int) && !self.taboo().contains(o) implies {
                &&& self.move_cost(chosen) <= #[trigger] self.move_cost(o)
                &&& cell_index(o.0 as int, o.1 as int) < cell_index(chosen.0 as int, chosen.1 as int)
                    ==> self.move_cost(chosen) < self.move_cost(o)
            } by {
                let q = cell_index(o.0 as int, o.1 as int);
                lemma_triangle_grows(o.0 as nat, size as nat);
                assert(is_pair_at(moves@[q], q, size as int));
                lemma_cell_index_injective(moves@[q], o);
                assert(costs@[q] == self.move_cost(moves@[q]));
            }
            assert(!self.all_taboo()) by {
                assert(is_move(chosen, self.solution_size as int));
            }
        }
        Some((chosen, best_cost))
    }

    /// Forbids `swap`, forgetting the oldest forbidden move when the list is
    /// full.
    pub fn update_taboo_list(&mut self, swap: (usize, usize))
        requires
            old(self).wf(),
            !old(self).taboo().contains(swap),
        ensures
            final(self).wf(),
            final(self).taboo() == if old(self).taboo().len() == old(self).config.taboo_list_size {
                old(self).taboo().drop_first()
            } else {
                old(self).taboo()
            }.push(swap),
            final(self).taboo().len() <= final(self).config.taboo_list_size,
            final(self).cost_map == old(self).cost_map,
            final(self).config == old(self).config,
            final(self).solution_size == old(self).solution_size,
            final(self).current_solution == old(self).current_solution,
            final(self).best_cost == old(self).best_cost,
            final(self).best_solution == old(self).best_solution,
            final(self).best_solution_iteration == old(self).best_solution_iteration,
            final(self).non_improvement_iterations == old(self).non_improvement_iterations,
            final(self).total_iterations == old(self).total_iterations,
            final(self).number_of_reboots == old(self).number_of_reboots,
            final(self).freq_mat == old(self).freq_mat,
    {
        let ghost start = self.taboo();
        if taboo_len(&self.taboo_list) == self.config.taboo_list_size {
            let _ = taboo_pop_front(&mut self.taboo_list);
        }
        let ghost kept = self.taboo();
        proof {
            assert forall|k: int| 0 <= k < kept.len() implies kept[k] != swap by {
                if start.len() == self.config.taboo_list_size {
                    assert(kept[k] == start[k + 1]);
                } else {
                    assert(kept[k] == start[k]);
                }
            }
            assert(!kept.contains(swap));
        }
        let _ = taboo_insert(&mut self.taboo_list, swap);
        proof {
            let now = self.taboo();
            assert(now == kept.push(swap));
            assert forall|a: int, b: int|
                0 <= a < now.len() && 0 <= b < now.len() && a != b implies now[a] != now[b] by {
                if start.len() == self.config.taboo_list_size {
                    if a < kept.len() {
                        assert(now[a] == start[a + 1]);
                    }
                    if b < kept.len() {
                        assert(now[b] == start[b + 1]);
                    }
                } else {
                    if a < kept.len() {
                        assert(now[a] == start[a]);
                    }
                    if b < kept.len() {
                        assert(now[b] == start[b]);
                    }
                }
            }
        }
    }

    /// Records the current tour, of cost `current_solution_cost`, as the best
    /// one when it is strictly cheaper; counts a step without improvement
    /// otherwise.
    pub fn save_current_if_it_is_the_best(&mut self, current_solution_cost: u128)
        requires
            old(self).wf(),
            current_solution_cost == tour_cost(old(self).cost_map@, old(self).current_solution@),
            old(self).non_improvement_iterations < usize::MAX,
        ensures
            final(self).wf(),
            current_solution_cost < old(self).best_cost ==> {
                &&& final(self).best_cost == current_solution_cost
                &&& final(self).best_solution@ == old(self).current_solution@
                &&& final(self).non_improvement_iterations == 0
                &&& final(self).best_solution_iteration == old(self).total_iterations
            },
            current_solution_cost >= old(self).best_cost ==> {
                &&& final(self).best_cost == old(self).best_cost
                &&& final(self).best_solution == old(self).best_solution
                &&& final(self).non_improvement_iterations == old(self).non_improvement_iterations + 1
                &&& final(self).best_solution_iteration == old(self).best_solution_iteration
            },
            final(self).best_cost <= old(self).best_cost,
            final(self).cost_map == old(self).cost_map,
            final(self).config == old(self).config,
            final(self).solution_size == old(self).solution_size,
            final(self).current_solution == old(self).current_solution,
            final(self).taboo_list == old(self).taboo_list,
            final(self).total_iterations == old(self).total_iterations,
            final(self).number_of_reboots == old(self).number_of_reboots,
            final(self).freq_mat == old(self).freq_mat,
    {
        if current_solution_cost < self.best_cost {
            self.best_cost = current_solution_cost;
            self.best_solution = self.current_solution.clone();
            self.non_improvement_iterations = 0;
            self.best_solution_iteration = self.total_iterations;
        } else {
            self.non_improvement_iterations = self.non_improvement_iterations + 1;
        }
    }

    /// Takes one step: applies the best allowed move, even when it makes the
    /// tour dearer, records the new tour's edges, forbids the move and updates
    /// the best tour. Returns the move, or `None`, leaving the state as it
    /// was, when every move is forbidden.
    pub fn next_solution(&mut self) -> (r: Option<(usize, usize)>)
        requires
            old(self).wf(),
            old(self).total_iterations < usize::MAX,
            old(self).non_improvement_iterations < usize::MAX,
            old(self).freq_mat.max_frec + old(self).solution_size + 1 <= usize::MAX,
        ensures
            final(self).wf(),
            r is None <==> old(self).all_taboo(),
            r is None ==> *final(self) == *old(self),
            r matches Some(m) ==> {
                let moved = applied(
                    old(self).config.move_kind,
                    old(self).current_solution@,
                    m.0 as int,
                    m.1 as int,
                );
                let cost = tour_cost(old(self).cost_map@, moved);
                &&& old(self).is_best_allowed(m)
                &&& final(self).current_solution@ == moved
                &&& final(self).total_iterations == old(self).total_iterations + 1
                &&& final(self).taboo() == if old(self).taboo().len()
                    == old(self).config.taboo_list_size {
                    old(self).taboo().drop_first()
                } else {
                    old(self).taboo()
                }.push(m)
                &&& forall|p: int|
                    0 <= p < final(self).freq_mat.frec_data@.len() ==> #[trigger] final(self).freq_mat.frec_data@[p] == old(self).freq_mat.frec_data@[p] + edge_hits(
                        moved,
                        (moved.len() + 1) as nat,
                        p,
                    )
                &&& final(self).freq_mat.max_frec >= old(self).freq_mat.max_frec
                &&& cost < old(self).best_cost ==> {
                    &&& final(self).best_cost == cost
                    &&& final(self).best_solution@ == moved
                    &&& final(self).non_improvement_iterations == 0
                    &&& final(self).best_solution_iteration == final(self).total_iterations
                }
                &&& cost >= old(self).best_cost ==> {
                    &&& final(self).best_cost == old(self).best_cost
                    &&& final(self).best_solution == old(self).best_solution
                    &&& final(self).non_improvement_iterations
                        == old(self).non_improvement_iterations + 1
                    &&& final(self).best_solution_iteration == old(self).best_solution_iteration
                }
            },
            final(self).best_cost <= old(self).best_cost,
            final(self).taboo().len() <= final(self).config.taboo_list_size,
            final(self).cost_map == old(self).cost_map,
            final(self).config == old(self).config,
            final(self).solution_size == old(self).solution_size,
            final(self).number_of_reboots == old(self).number_of_reboots,
    {
        let selected = self.select_move();
        match selected {
            None => None,
            Some((best_swap, best_neighbour_cost)) => {
                let moved: Vec<usize> = apply_move(
                    self.config.move_kind,
                    &self.current_solution,
                    best_swap.0,
                    best_swap.1,
                );
                proof {
                    lemma_applied_is_tour(
                        self.config.move_kind,
                        self.current_solution@,
                        self.solution_size as int,
                        best_swap.0 as int,
                        best_swap.1 as int,
                    );
                }
                let ghost before = *self;
                self.current_solution = moved;
                self.freq_mat.insert_solution(&self.current_solution);
                self.total_iterations = self.total_iterations + 1;
                self.update_taboo_list(best_swap);
                self.save_current_if_it_is_the_best(best_neighbour_cost);
                Some(best_swap)
            },
        }
    }

    /// Which restart is due, if any: one is due once more than
    /// `reboot_parameter` steps went without improvement; it intensifies when
    /// the restart count is a multiple of `intensification_period`.
    pub fn pending_reboot(&self) -> (r: Option<RebootKind>)
        requires
            self.wf(),
        ensures
            r is None <==> self.non_improvement_iterations <= self.config.reboot_parameter,
            r == Some(RebootKind::Intensification) <==> self.non_improvement_iterations
                > self.config.reboot_parameter && self.number_of_reboots
                % self.config.intensification_period == 0,
    {
        if self.non_improvement_iterations <= self.config.reboot_parameter {
            None
        } else if self.number_of_reboots % self.config.intensification_period == 0 {
            Some(RebootKind::Intensification)
        } else {
            Some(RebootKind::Diversification)
        }
    }

    /// Goes back to the best tour found.
    pub fn reboot_intensification(&mut self)
        requires
            old(self).wf(),
            old(self).number_of_reboots < usize::MAX,
        ensures
            final(self).wf(),
            final(self).current_solution@ == old(self).best_solution@,
            final(self).non_improvement_iterations == 0,
            final(self).number_of_reboots == old(self).number_of_reboots + 1,
            final(self).taboo() == if old(self).config.clear_on_intensification {
                Seq::<(usize, usize)>::empty()
            } else {
                old(self).taboo()
            },
            final(self).best_cost == old(self).best_cost,
            final(self).best_solution == old(self).best_solution,
            final(self).best_solution_iteration == old(self).best_solution_iteration,
            final(self).total_iterations == old(self).total_iterations,
            final(self).cost_map == old(self).cost_map,
            final(self).config == old(self).config,
            final(self).solution_size == old(self).solution_size,
            final(self).freq_mat == old(self).freq_mat,
    {
        self.current_solution = self.best_solution.clone();
        self.non_improvement_iterations = 0;
        if self.config.clear_on_intensification {
            taboo_clear(&mut self.taboo_list);
        }
        self.number_of_reboots = self.number_of_reboots + 1;
    }

    /// The restart candidate that `pairs` makes of the best tour.
    pub open spec fn candidate(&self, pairs: Seq<(usize, usize)>) -> Seq<usize> {
        swaps_applied(self.best_solution@, pairs, pairs.len())
    }

    /// Every exchange of every perturbation stays inside the tour.
    pub open spec fn perturbations_valid(&self, perturbations: Seq<Vec<(usize, usize)>>) -> bool {
        &&& perturbations.len() >= 1
        &&& forall|t: int, k: int|
            0 <= t < perturbations.len() && 0 <= k < perturbations[t]@.len() ==> {
                &&& (#[trigger] perturbations[t]@[k]).0 < self.solution_size
                &&& perturbations[t]@[k].1 < self.solution_size
            }
    }

    /// Whether `scores_fit` holds, so that a diversification can be scored.
    pub fn diversification_fits(&self) -> (r: bool)
        requires
            self.wf(),
        ensures
            r == self.scores_fit(),
    {
        proof {
            lemma_triangle_grows(1, self.cost_map.lines());
            assert(triangle(1) == 0) by {
                reveal_with_fuel(triangle, 2);
            }
        }
        let top: u128 = *self.cost_map.get_max() as u128;
        let lines: u128 = self.cost_map.number_of_lines() as u128;
        let freq: u128 = self.freq_mat.max_frec as u128;
        if top == 0 {
            assert(2 * lines * top * freq == 0) by (nonlinear_arith)
                requires
                    top == 0,
            ;
            return true;
        }
        match (2u128).checked_mul(lines) {
            None => {
                assert(2 * lines * top * freq > u128::MAX) by (nonlinear_arith)
                    requires
                        2 * lines > u128::MAX,
                        top >= 1,
                        freq >= 1,
                ;
                false
            },
            Some(a) => {
                match a.checked_mul(top) {
                    None => {
                        assert(a * top * freq > u128::MAX) by (nonlinear_arith)
                            requires
                                a * top > u128::MAX,
                                freq >= 1,
                        ;
                        false
                    },
                    Some(b) => b.checked_mul(freq).is_some(),
                }
            },
        }
    }

    /// Applies the exchanges of `pairs`, in order, to a copy of `solution`.
    pub fn perturb(solution: &Vec<usize>, pairs: &Vec<(usize, usize)>) -> (r: Vec<usize>)
        requires
            forall|k: int|
                0 <= k < pairs@.len() ==> (#[trigger] pairs@[k]).0 < solution@.len() && pairs@[k].1
                    < solution@.len(),
        ensures
            r@ == swaps_applied(solution@, pairs@, pairs@.len()),
    {
        let mut r: Vec<usize> = solution.clone();
        assert(r@ == solution@);
        let mut k: usize = 0;
        while k < pairs.len()
            invariant
                forall|q: int|
                    0 <= q < pairs@.len() ==> (#[trigger] pairs@[q]).0 < solution@.len()
                        && pairs@[q].1 < solution@.len(),
                k <= pairs@.len(),
                r@ == swaps_applied(solution@, pairs@, k as nat),
                r@.len() == solution@.len(),
            decreases pairs@.len() - k,
        {
            let (a, b) = pairs[k];
            let first: usize = r[a];
            let second: usize = r[b];
            r.set(a, second);
            r.set(b, first);
            k = k + 1;
        }
        r
    }

    /// Restarts from the candidate with the lowest score among the
    /// perturbations of the best tour (the first one among equal scores), and
    /// forgets the forbidden moves. Returns the index of the chosen candidate.
    pub fn reboot_diversification(&mut self, perturbations: &Vec<Vec<(usize, usize)>>) -> (r:
        usize)
        requires
            old(self).wf(),
            old(self).scores_fit(),
            old(self).perturbations_valid(perturbations@),
            old(self).number_of_reboots < usize::MAX,
        ensures
            final(self).wf(),
            r < perturbations@.len(),
            final(self).current_solution@ == old(self).candidate(perturbations@[r as int]@),
            forall|t: int|
                0 <= t < perturbations@.len() ==> old(self).diversification_score(
                    old(self).candidate(perturbations@[r as int]@),
                ) <= #[trigger] old(self).diversification_score(
                    old(self).candidate(perturbations@[t]@),
                ),
            forall|t: int|
                0 <= t < r ==> old(self).diversification_score(
                    old(self).candidate(perturbations@[r as int]@),
                ) < #[trigger] old(self).diversification_score(
                    old(self).candidate(perturbations@[t]@),
                ),
            final(self).non_improvement_iterations == 0,
            final(self).number_of_reboots == old(self).number_of_reboots + 1,
            final(self).taboo() == Seq::<(usize, usize)>::empty(),
            final(self).best_cost == old(self).best_cost,
            final(self).best_solution == old(self).best_solution,
            final(self).best_solution_iteration == old(self).best_solution_iteration,
            final(self).total_iterations == old(self).total_iterations,
            final(self).cost_map == old(self).cost_map,
            final(self).config == old(self).config,
            final(self).solution_size == old(self).solution_size,
            final(self).freq_mat == old(self).freq_mat,
    {
        let size: usize = self.solution_size;
        proof {
            lemma_triangle_grows(1, self.cost_map.lines());
            assert(triangle(1) == 0) by {
                reveal_with_fuel(triangle, 2);
            }
        }
        let top: usize = *self.cost_map.get_max();
        let bottom: usize = *self.cost_map.get_min();
        let delta_cost: u128 = (top - bottom) as u128;
        let freq: u128 = self.freq_mat.max_frec as u128;
        let mut best_vec: Vec<usize> = self.best_solution.clone();
        let mut best_score: u128 = 0;
        let mut chosen: usize = 0;
        let mut t: usize = 0;
        while t < perturbations.len()
            invariant
                self.wf(),
                self.scores_fit(),
                self.perturbations_valid(perturbations@),
                size == self.solution_size,
                top == self.cost_map.cell_max(),
                bottom == self.cost_map.cell_min(),
                delta_cost == top - bottom,
                freq == self.freq_mat.max_frec,
                forall|p: int| 0 <= p < self.cost_map@.len() ==> self.cost_map@[p] <= top,
                t <= perturbations@.len(),
                t > 0 ==> chosen < t,
                t > 0 ==> best_vec@ == self.candidate(perturbations@[chosen as int]@),
                t > 0 ==> best_score == self.diversification_score(
                    self.candidate(perturbations@[chosen as int]@),
                ),
                forall|q: int|
                    0 <= q < t ==> best_score <= #[trigger] self.diversification_score(
                        self.candidate(perturbations@[q]@),
                    ),
                forall|q: int|
                    0 <= q < chosen ==> best_score < #[trigger] self.diversification_score(
                        self.candidate(perturbations@[q]@),
                    ),
                is_tour(best_vec@, size as int),
            decreases perturbations@.len() - t,
        {
            let pairs: &Vec<(usize, usize)> = &perturbations[t];
            assert forall|k: int| 0 <= k < pairs@.len() implies (#[trigger] pairs@[k]).0 < self.best_solution@.len()
                && pairs@[k].1 < self.best_solution@.len() by {
                assert(perturbations@[t as int]@[k] == pairs@[k]);
            }
            let new_vec: Vec<usize> = Self::perturb(&self.best_solution, pairs);
            proof {
                lemma_swaps_applied_is_tour(self.best_solution@, pairs@, pairs@.len(), size as int);
            }
            let new_cost: u128 = calculate_cost(&self.cost_map, &new_vec);
            let freq_cost: u128 = self.freq_mat.get_solution_freq_cost(&new_vec);
            proof {
                lemma_cost_bound(self.cost_map@, new_vec@, (size + 1) as nat, top as int, size as int);
                lemma_cost_bound(
                    self.freq_mat.frec_data@,
                    new_vec@,
                    (size + 1) as nat,
                    freq as int,
                    size as int,
                );
                let n1 = size + 1;
                assert(new_cost * freq + freq_cost * delta_cost <= 2 * n1 * top * freq)
                    by (nonlinear_arith)
                    requires
                        new_cost <= n1 * top,
                        freq_cost <= n1 * freq,
                        0 <= delta_cost <= top,
                        0 <= freq,
                        0 <= new_cost,
                        0 <= freq_cost,
                ;
                assert(new_cost * freq <= new_cost * freq + freq_cost * delta_cost) by (nonlinear_arith)
                    requires
                        0 <= freq_cost,
                        0 <= delta_cost,
                ;
            }
            let score: u128 = new_cost * freq + freq_cost * delta_cost;
            if t == 0 || score < best_score {
                best_score = score;
                best_vec = new_vec;
                chosen = t;
            }
            t = t + 1;
        }
        self.current_solution = best_vec;
        self.non_improvement_iterations = 0;
        taboo_clear(&mut self.taboo_list);
        self.number_of_reboots = self.number_of_reboots + 1;
        chosen
    }

    /// Performs the restart that `pending_reboot` calls for, if any.
    pub fn reboot_if_necessary(&mut self, perturbations: &Vec<Vec<(usize, usize)>>) -> (r: Option<
        RebootKind,
    >)
        requires
            old(self).wf(),
            old(self).number_of_reboots < usize::MAX,
            old(self).non_improvement_iterations > old(self).config.reboot_parameter
                && old(self).number_of_reboots % old(self).config.intensification_period != 0
                ==> old(self).scores_fit() && old(self).perturbations_valid(perturbations@),
        ensures
            final(self).wf(),
            r is None <==> old(self).non_improvement_iterations <= old(self).config.reboot_parameter,
            r is None ==> *final(self) == *old(self),
            r == Some(RebootKind::Intensification) <==> old(self).non_improvement_iterations
                > old(self).config.reboot_parameter && old(self).number_of_reboots
                % old(self).config.intensification_period == 0,
            r is Some ==> final(self).non_improvement_iterations == 0 && final(self).number_of_reboots
                == old(self).number_of_reboots + 1,
            final(self).best_cost == old(self).best_cost,
            final(self).best_solution == old(self).best_solution,
            final(self).total_iterations == old(self).total_iterations,
            final(self).cost_map == old(self).cost_map,
            final(self).config == old(self).config,
            final(self).solution_size == old(self).solution_size,
            final(self).freq_mat == old(self).freq_mat,
    {
        let pending: Option<RebootKind> = self.pending_reboot();
        match pending {
            None => {},
            Some(RebootKind::Intensification) => self.reboot_intensification(),
            Some(RebootKind::Diversification) => {
                let _ = self.reboot_diversification(perturbations);
            },
        }
        pending
    }

    /// The forbidden moves, oldest first.
    pub fn taboo_moves(&self) -> (r: Vec<(usize, usize)>)
        ensures
            r@ == self.taboo(),
    {
        taboo_items(&self.taboo_list)
    }
}

/// Exchanges keep a tour a tour.
pub proof fn lemma_swaps_applied_is_tour(t: Seq<usize>, pairs: Seq<(usize, usize)>, k: nat, size: int)
    requires
        is_tour(t, size),
        forall|q: int| 0 <= q < pairs.len() ==> (#[trigger] pairs[q]).0 < size && pairs[q].1 < size,
    ensures
        is_tour(swaps_applied(t, pairs, k), size),
    decreases k,
{
    if k > 0 && k <= pairs.len() {
        lemma_swaps_applied_is_tour(t, pairs, (k - 1) as nat, size);
        let prev = swaps_applied(t, pairs, (k - 1) as nat);
        lemma_applied_is_tour(
            MoveKind::Exchange,
            prev,
            size,
            pairs[k - 1].0 as int,
            pairs[k - 1].1 as int,
        );
    }
}

/// With every cell at most `b`, a tour costs at most `b` per edge.
pub proof fn lemma_cost_bound(cells: Seq<usize>, t: Seq<usize>, k: nat, b: int, size: int)
    requires
        is_tour(t, size),
        size >= 1,
        cells.len() == triangle((size + 1) as nat),
        forall|p: int| 0 <= p < cells.len() ==> cells[p] <= b,
        b >= 0,
    ensures
        tour_cost(cells, t) <= (size + 1) * b,
{
    lemma_edges_cost_bound(cells, t, (size + 1) as nat, b, size);
}

/// With every cell at most `b`, the first `k` edges of a tour cost at most
/// `k * b`.
pub proof fn lemma_edges_cost_bound(cells: Seq<usize>, t: Seq<usize>, k: nat, b: int, size: int)
    requires
        is_tour(t, size),
        size >= 1,
        k <= size + 1,
        cells.len() == triangle((size + 1) as nat),
        forall|p: int| 0 <= p < cells.len() ==> cells[p] <= b,
        b >= 0,
    ensures
        edges_cost(cells, t, k) <= k * b,
    decreases k,
{
    if k > 0 {
        lemma_edges_cost_bound(cells, t, (k - 1) as nat, b, size);
        lemma_edge_valid(t, size, k - 1);
        crate::triangular::lemma_cell_in_storage(
            (size + 1) as nat,
            crate::tour::edge_line(t, k - 1),
            crate::tour::edge_column(t, k - 1),
        );
        assert((k - 1) * b + b == k * b) by (nonlinear_arith);
    }
}

} // verus!
