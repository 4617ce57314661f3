use vstd::prelude::*;
use crate::triangular::TriangularMatrix;
use crate::tour::{is_tour, reversed, tour_cost, calculate_cost, reverse_segment, anchored_neighbours, lemma_applied_is_tour, MoveKind};

verus! {

/// Candidates tested between two cooldowns, at most.
pub const TESTED_PER_COOLDOWN: usize = 120;

/// Candidates accepted between two cooldowns, at most.
pub const ACCEPTED_PER_COOLDOWN: usize = 40;

/// The integer part of a simulated annealing search. The temperature, which
/// is `initial_temperature / (1 + cooldowns_counter)`, and the acceptance
/// draw are left to the caller: the search is told whether a worsening
/// candidate passed the draw.
pub struct SimulatedAnnealing {
    pub cost_map: TriangularMatrix<usize>,
    pub solution_size: usize,
    pub current_solution: Vec<usize>,
    pub current_solution_cost: u128,
    pub tested_solution: Vec<usize>,
    pub tested_solution_insertion: (usize, usize),
    pub tested_solution_cost: u128,
    pub best_cost: u128,
    pub best_solution: Vec<usize>,
    pub best_solution_iteration: usize,
    pub last_was_accepted: bool,
    pub total_iterations: usize,
    pub accepted_candidates: usize,
    pub tested_candidates: usize,
    pub cooldowns_counter: usize,
}

/// Everything a step reads or writes, as plain values.
pub struct AnnealingTrace {
    pub cells: Seq<usize>,
    pub current: Seq<usize>,
    pub current_cost: int,
    pub tested: Seq<usize>,
    pub insertion: (usize, usize),
    pub tested_cost: int,
    pub best: Seq<usize>,
    pub best_cost: int,
    pub best_iteration: int,
    pub last_was_accepted: bool,
    pub iterations: int,
    pub accepted: int,
    pub tested_count: int,
    pub cooldowns: int,
}

impl SimulatedAnnealing {
    pub open spec fn trace(&self) -> AnnealingTrace {
        AnnealingTrace {
            cells: self.cost_map@,
            current: self.current_solution@,
            current_cost: self.current_solution_cost as int,
            tested: self.tested_solution@,
            insertion: self.tested_solution_insertion,
            tested_cost: self.tested_solution_cost as int,
            best: self.best_solution@,
            best_cost: self.best_cost as int,
            best_iteration: self.best_solution_iteration as int,
            last_was_accepted: self.last_was_accepted,
            iterations: self.total_iterations as int,
            accepted: self.accepted_candidates as int,
            tested_count: self.tested_candidates as int,
            cooldowns: self.cooldowns_counter as int,
        }
    }

    pub open spec fn wf(&self) -> bool {
        &&& self.cost_map.wf()
        &&& self.solution_size >= 1
        &&& self.cost_map.lines() == self.solution_size + 1
        &&& is_tour(self.current_solution@, self.solution_size as int)
        &&& is_tour(self.tested_solution@, self.solution_size as int)
        &&& is_tour(self.best_solution@, self.solution_size as int)
        &&& self.current_solution_cost == tour_cost(self.cost_map@, self.current_solution@)
        &&& self.tested_solution_cost == tour_cost(self.cost_map@, self.tested_solution@)
        &&& self.best_cost == tour_cost(self.cost_map@, self.best_solution@)
        &&& self.best_cost <= self.current_solution_cost
        &&& self.tested_candidates <= TESTED_PER_COOLDOWN
        &&& self.accepted_candidates <= ACCEPTED_PER_COOLDOWN
    }

    /// Cost of reversing the segment between `anchor` and `i` in the current
    /// tour.
    pub open spec fn reversal_cost(&self, anchor: int, i: int) -> int {
        tour_cost(self.cost_map@, reversed(self.current_solution@, anchor, i))
    }

    /// What a cooldown check does: once `TESTED_PER_COOLDOWN` candidates were
    /// tested or `ACCEPTED_PER_COOLDOWN` accepted, both counts restart and
    /// one more cooldown is counted.
    pub open spec fn cooldown_step(before: AnnealingTrace, after: AnnealingTrace) -> bool {
        if before.tested_count >= TESTED_PER_COOLDOWN || before.accepted >= ACCEPTED_PER_COOLDOWN {
            after == AnnealingTrace {
                accepted: 0,
                tested_count: 0,
                cooldowns: before.cooldowns + 1,
                ..before
            }
        } else {
            after == before
        }
    }

    /// What a proposal does: among the reversals of the segment between
    /// `anchor` and another position, it tests the one that gives the
    /// cheapest tour (the first by position among equally cheap ones).
    pub open spec fn proposal_step(
        before: AnnealingTrace,
        anchor: int,
        other: int,
        after: AnnealingTrace,
    ) -> bool {
        let size = before.current.len() as int;
        let cost_of = |i: int| tour_cost(before.cells, reversed(before.current, anchor, i));
        &&& 0 <= other < size
        &&& other != anchor
        &&& forall|i: int|
            0 <= i < size && i != anchor ==> {
                &&& cost_of(other) <= #[trigger] cost_of(i)
                &&& i < other ==> cost_of(other) < cost_of(i)
            }
        &&& after == AnnealingTrace {
            tested: reversed(before.current, anchor, other),
            insertion: (anchor as usize, other as usize),
            tested_cost: cost_of(other),
            iterations: before.iterations + 1,
            ..before
        }
    }

    /// What an acceptance does: a cheaper candidate is always taken, another
    /// one when it passed the draw; the best tour follows the current one.
    pub open spec fn acceptance_step(
        before: AnnealingTrace,
        passed_draw: bool,
        after: AnnealingTrace,
    ) -> bool {
        let accepted = before.tested_cost < before.current_cost || passed_draw;
        let current = if accepted {
            before.tested
        } else {
            before.current
        };
        let current_cost = if accepted {
            before.tested_cost
        } else {
            before.current_cost
        };
        let improved = current_cost < before.best_cost;
        after == AnnealingTrace {
            current,
            current_cost,
            last_was_accepted: accepted,
            accepted: if accepted {
                before.accepted + 1
            } else {
                before.accepted
            },
            tested_count: before.tested_count + 1,
            best: if improved {
                current
            } else {
                before.best
            },
            best_cost: if improved {
                current_cost
            } else {
                before.best_cost
            },
            best_iteration: if improved {
                before.iterations
            } else {
                before.best_iteration
            },
            ..before
        }
    }

    /// Starts a search from `initial_solution`.
    pub fn new(cost_map: TriangularMatrix<usize>, initial_solution: Vec<usize>) -> (r:
        SimulatedAnnealing)
        requires
            cost_map.wf(),
            cost_map.lines() == initial_solution@.len() + 1,
            initial_solution@.len() >= 1,
            is_tour(initial_solution@, initial_solution@.len() as int),
        ensures
            r.wf(),
            r.cost_map@ == cost_map@,
            r.solution_size == initial_solution@.len(),
            r.current_solution@ == initial_solution@,
            r.best_solution@ == initial_solution@,
            r.current_solution_cost == tour_cost(cost_map@, initial_solution@),
            r.best_solution_iteration == 0,
            r.last_was_accepted,
            r.total_iterations == 0,
            r.accepted_candidates == 0,
            r.tested_candidates == 0,
            r.cooldowns_counter == 0,
    {
        let solution_size: usize = initial_solution.len();
        let cost: u128 = calculate_cost(&cost_map, &initial_solution);
        SimulatedAnnealing {
            cost_map,
            solution_size,
            current_solution: initial_solution.clone(),
            current_solution_cost: cost,
            tested_solution: initial_solution.clone(),
            tested_solution_insertion: (0, 0),
            tested_solution_cost: cost,
            best_cost: cost,
            best_solution: initial_solution,
            best_solution_iteration: 0,
            last_was_accepted: true,
            total_iterations: 0,
            accepted_candidates: 0,
            tested_candidates: 0,
            cooldowns_counter: 0,
        }
    }

    /// Counts a cooldown, and restarts the counts, once enough candidates
    /// were tested or accepted. Returns whether it did.
    pub fn cooldown_if_proceed(&mut self) -> (r: bool)
        requires
            old(self).wf(),
            old(self).cooldowns_counter < usize::MAX,
        ensures
            final(self).wf(),
            Self::cooldown_step(old(self).trace(), final(self).trace()),
            r == (old(self).tested_candidates >= TESTED_PER_COOLDOWN || old(self).accepted_candidates
                >= ACCEPTED_PER_COOLDOWN),
            final(self).tested_candidates < TESTED_PER_COOLDOWN,
            final(self).accepted_candidates < ACCEPTED_PER_COOLDOWN,
            final(self).solution_size == old(self).solution_size,
    {
        if self.tested_candidates >= TESTED_PER_COOLDOWN || self.accepted_candidates
            >= ACCEPTED_PER_COOLDOWN {
            self.accepted_candidates = 0;
            self.tested_candidates = 0;
            self.cooldowns_counter = self.cooldowns_counter + 1;
            true
        } else {
            false
        }
    }

    /// Tests the cheapest reversal anchored at position `anchor`.
    pub fn propose(&mut self, anchor: usize)
        requires
            old(self).wf(),
            old(self).solution_size >= 2,
            anchor < old(self).solution_size,
            old(self).total_iterations < usize::MAX,
        ensures
            final(self).wf(),
            Self::proposal_step(
                old(self).trace(),
                anchor as int,
                final(self).tested_solution_insertion.1 as int,
                final(self).trace(),
            ),
            final(self).solution_size == old(self).solution_size,
    {
        let size: usize = self.solution_size;
        let neighbours: Vec<(usize, usize)> = anchored_neighbours(anchor, size);
        let ghost cost_of = |i: int|
            tour_cost(self.cost_map@, reversed(self.current_solution@, anchor as int, i));
        let mut best_other: usize = 0;
        let mut best_cost: u128 = 0;
        let mut k: usize = 0;
        while k < neighbours.len()
            invariant
                self.wf(),
                size == self.solution_size,
                size >= 2,
                anchor < size,
                neighbours@.len() == size - 1,
                forall|q: int|
                    0 <= q < neighbours@.len() ==> #[trigger] neighbours@[q] == (
                        anchor,
                        if q < anchor {
                            q as usize
                        } else {
                            (q + 1) as usize
                        },
                    ),
                cost_of == (|i: int|
                    tour_cost(self.cost_map@, reversed(self.current_solution@, anchor as int, i))),
                k <= neighbours@.len(),
                k > 0 ==> best_other < size && best_other != anchor && best_cost == cost_of(
                    best_other as int,
                ) && (if best_other < anchor {
                    best_other as int
                } else {
                    best_other - 1
                }) < k,
                forall|i: int|
                    0 <= i < size && i != anchor && (if i < anchor {
                        i
                    } else {
                        i - 1
                    }) < k ==> {
                        &&& best_cost <= #[trigger] cost_of(i)
                        &&& i < best_other ==> best_cost < cost_of(i)
                    },
            decreases neighbours@.len() - k,
        {
            let (_, other) = neighbours[k];
            let moved: Vec<usize> = reverse_segment(&self.current_solution, anchor, other);
            proof {
                lemma_applied_is_tour(
                    MoveKind::Reversal,
                    self.current_solution@,
                    size as int,
                    anchor as int,
                    other as int,
                );
            }
            let cost: u128 = calculate_cost(&self.cost_map, &moved);
            if k == 0 || cost < best_cost {
                best_other = other;
                best_cost = cost;
            }
            k = k + 1;
        }
        let tested: Vec<usize> = reverse_segment(&self.current_solution, anchor, best_other);
        proof {
            lemma_applied_is_tour(
                MoveKind::Reversal,
                self.current_solution@,
                size as int,
                anchor as int,
                best_other as int,
            );
        }
        self.tested_solution = tested;
        self.tested_solution_insertion = (anchor, best_other);
        self.tested_solution_cost = best_cost;
        self.total_iterations = self.total_iterations + 1;
    }

    /// Steps are functions of the state and of their inputs: from equal
    /// states, a cooldown check, a proposal anchored at the same position and
    /// an acceptance with the same draw outcome lead to equal states, so two
    /// runs fed the same draws record the same trace.
    pub proof fn lemma_steps_deterministic(
        a: AnnealingTrace,
        b: AnnealingTrace,
        anchor: int,
        other_a: int,
        other_b: int,
        passed_draw: bool,
        a1: AnnealingTrace,
        b1: AnnealingTrace,
        a2: AnnealingTrace,
        b2: AnnealingTrace,
        a3: AnnealingTrace,
        b3: AnnealingTrace,
    )
        requires
            a == b,
            Self::cooldown_step(a, a1),
            Self::cooldown_step(b, b1),
            Self::proposal_step(a1, anchor, other_a, a2),
            Self::proposal_step(b1, anchor, other_b, b2),
            Self::acceptance_step(a2, passed_draw, a3),
            Self::acceptance_step(b2, passed_draw, b3),
        ensures
            a1 == b1,
            other_a == other_b,
            a2 == b2,
            a3 == b3,
    {
        let cost_of = |i: int| tour_cost(a1.cells, reversed(a1.current, anchor, i));
        if other_a < other_b {
            assert(cost_of(other_b) < cost_of(other_a));
        } else if other_b < other_a {
            assert(cost_of(other_a) < cost_of(other_b));
        }
    }

    /// One step up to the acceptance draw: a cooldown check, then the test of
    /// the cheapest reversal anchored at `anchor`.
    pub fn next_solution(&mut self, anchor: usize)
        requires
            old(self).wf(),
            old(self).solution_size >= 2,
            anchor < old(self).solution_size,
            old(self).total_iterations < usize::MAX,
            old(self).cooldowns_counter < usize::MAX,
        ensures
            final(self).wf(),
            exists|cooled: AnnealingTrace|
                Self::cooldown_step(old(self).trace(), cooled) && Self::proposal_step(
                    cooled,
                    anchor as int,
                    final(self).tested_solution_insertion.1 as int,
                    final(self).trace(),
                ),
            final(self).tested_candidates < TESTED_PER_COOLDOWN,
            final(self).accepted_candidates < ACCEPTED_PER_COOLDOWN,
            final(self).solution_size == old(self).solution_size,
    {
        self.cooldown_if_proceed();
        let ghost cooled = self.trace();
        self.propose(anchor);
    }

    /// Takes the tested candidate when it is cheaper than the current tour or
    /// when `passed_draw` (the uniform draw fell below the acceptance
    /// probability), then updates the best tour.
    pub fn save_tested_if_proceed(&mut self, passed_draw: bool)
        requires
            old(self).wf(),
            old(self).tested_candidates < TESTED_PER_COOLDOWN,
            old(self).accepted_candidates < ACCEPTED_PER_COOLDOWN,
        ensures
            final(self).wf(),
            Self::acceptance_step(old(self).trace(), passed_draw, final(self).trace()),
            final(self).best_cost <= old(self).best_cost,
            final(self).solution_size == old(self).solution_size,
    {
        self.last_was_accepted = self.tested_solution_cost < self.current_solution_cost
            || passed_draw;
        if self.last_was_accepted {
            self.current_solution = self.tested_solution.clone();
            self.current_solution_cost = self.tested_solution_cost;
            self.accepted_candidates = self.accepted_candidates + 1;
        }
        self.tested_candidates = self.tested_candidates + 1;
        if self.current_solution_cost < self.best_cost {
            self.best_cost = self.current_solution_cost;
            self.best_solution = self.current_solution.clone();
            self.best_solution_iteration = self.total_iterations;
        }
    }
}

} // verus!
