use vstd::prelude::*;
use crate::triangular::{TriangularMatrix, TriangularMultiIndexEnumerate, triangle, cell_index, lemma_cell_in_storage, lemma_triangle_grows};
use crate::tour::{is_tour, swapped, tour_cost, calculate_cost, swap_solution, lemma_applied_is_tour, MoveKind};

verus! {

/// The pair of positions a neighbour search starts from, for the draws
/// `swap_i` and `swap_j`: the larger one first; for equal draws, the pair
/// `(max((swap_i + 1) % size, 1), 0)`.
pub open spec fn start_pair(swap_i: int, swap_j: int, size: int) -> (int, int) {
    let i = if swap_i >= swap_j {
        swap_i
    } else {
        swap_j
    };
    let j = if swap_i >= swap_j {
        swap_j
    } else {
        swap_i
    };
    if i == j {
        let wrapped = (i + 1) % size;
        (if wrapped >= 1 {
            wrapped
        } else {
            1
        }, 0)
    } else {
        (i, j)
    }
}

/// Steps from storage position `from` to `to`, walking forward and wrapping
/// past the last of `count` positions.
pub open spec fn cyclic_distance(from: int, to: int, count: int) -> int {
    if from <= to {
        to - from
    } else {
        to + count - from
    }
}

/// What one neighbour try came to.
#[derive(Debug, Clone, Copy, PartialEq, Eq, Structural)]
pub enum NeighbourOutcome {
    /// The exchange gave a cheaper tour, which is now the current one.
    Improved(usize, usize, u128),
    /// The exchange gave a tour no cheaper; it stays marked as tried.
    Rejected(usize, usize, u128),
    /// Every exchange of the current tour was tried: a local optimum.
    Exhausted,
}

/// First-improvement descent over exchange moves, tried in an order set by
/// random draws, each move at most once per tour.
pub struct HillClimbing {
    pub cost_map: TriangularMatrix<usize>,
    pub solution_size: usize,
    pub current_solution: Vec<usize>,
    pub current_cost: u128,
    pub visited_nodes: TriangularMatrix<bool>,
}

impl HillClimbing {
    pub open spec fn wf(&self) -> bool {
        &&& self.cost_map.wf()
        &&& self.solution_size >= 1
        &&& self.cost_map.lines() == self.solution_size + 1
        &&& is_tour(self.current_solution@, self.solution_size as int)
        &&& self.current_cost == tour_cost(self.cost_map@, self.current_solution@)
        &&& self.visited_nodes.wf()
        &&& self.visited_nodes.lines() == self.solution_size
    }

    /// Every exchange was tried.
    pub open spec fn all_visited(&self) -> bool {
        forall|p: int| 0 <= p < self.visited_nodes@.len() ==> #[trigger] self.visited_nodes@[p]
    }

    /// Starts from `initial_solution` with no exchange tried.
    pub fn new(cost_map: TriangularMatrix<usize>, initial_solution: Vec<usize>) -> (r: HillClimbing)
        requires
            cost_map.wf(),
            cost_map.lines() == initial_solution@.len() + 1,
            initial_solution@.len() >= 1,
            is_tour(initial_solution@, initial_solution@.len() as int),
        ensures
            r.wf(),
            r.cost_map@ == cost_map@,
            r.current_solution@ == initial_solution@,
            r.solution_size == initial_solution@.len(),
            forall|p: int| 0 <= p < r.visited_nodes@.len() ==> !r.visited_nodes@[p],
    {
        let solution_size: usize = initial_solution.len();
        let current_cost: u128 = calculate_cost(&cost_map, &initial_solution);
        proof {
            lemma_triangle_grows(solution_size as nat, (solution_size + 1) as nat);
        }
        let visited_nodes = TriangularMatrix::<bool>::filled_false(solution_size);
        HillClimbing {
            cost_map,
            solution_size,
            current_solution: initial_solution,
            current_cost,
            visited_nodes,
        }
    }

    /// Marks as tried, and returns, the first untried exchange at or after
    /// `start_pair(swap_i, swap_j)` in row-major order, wrapping to `(1, 0)`;
    /// `None` once every exchange was tried.
    pub fn next_neighbour(&mut self, swap_i: usize, swap_j: usize) -> (r: Option<(usize, usize)>)
        requires
            old(self).wf(),
            swap_i < old(self).solution_size,
            swap_j < old(self).solution_size,
        ensures
            final(self).wf(),
            final(self).cost_map == old(self).cost_map,
            final(self).solution_size == old(self).solution_size,
            final(self).current_solution == old(self).current_solution,
            final(self).current_cost == old(self).current_cost,
            r is None <==> old(self).all_visited(),
            r is None ==> final(self).visited_nodes@ == old(self).visited_nodes@,
            r matches Some(m) ==> {
                let start = start_pair(swap_i as int, swap_j as int, old(self).solution_size as int);
                let origin = cell_index(start.0, start.1);
                let found = cell_index(m.0 as int, m.1 as int);
                let count = old(self).visited_nodes@.len() as int;
                &&& m.1 < m.0 < old(self).solution_size
                &&& !old(self).visited_nodes@[found]
                &&& forall|q: int|
                    0 <= q < count && cyclic_distance(origin, q, count) < cyclic_distance(
                        origin,
                        found,
                        count,
                    ) ==> #[trigger] old(self).visited_nodes@[q]
                &&& final(self).visited_nodes@ == old(self).visited_nodes@.update(found, true)
            },
    {
        let size: usize = self.solution_size;
        let mut i: usize = if swap_i >= swap_j {
            swap_i
        } else {
            swap_j
        };
        let mut j: usize = if swap_i >= swap_j {
            swap_j
        } else {
            swap_i
        };
        if i == j {
            let wrapped: usize = (i + 1) % size;
            i = if wrapped >= 1 {
                wrapped
            } else {
                1
            };
            j = 0;
        }
        let ghost count = self.visited_nodes@.len() as int;
        let ghost origin = cell_index(i as int, j as int);
        proof {
            if size >= 2 {
                lemma_cell_in_storage(size as nat, i as int, j as int);
            } else {
                assert(triangle(1) == 0) by {
                    reveal_with_fuel(triangle, 2);
                }
                lemma_triangle_grows(0, 1);
            }
        }
        let mut found: Option<(usize, usize)> = None;
        let mut it: TriangularMultiIndexEnumerate<'_, bool> = self.visited_nodes.enumerate_from(
            i,
            j,
        );
        loop
            invariant_except_break
                found is None,
            invariant
                it.wf(),
                it.cells() == self.visited_nodes@,
                it.lines() == self.visited_nodes.lines(),
                self.visited_nodes.wf(),
                self.visited_nodes.lines() == size,
                count == self.visited_nodes@.len(),
                size >= 2 ==> 0 <= origin < count,
                size < 2 ==> count == 0,
                origin <= it.position(),
                found is None ==> forall|q: int| origin <= q < it.position() && q < count ==> #[trigger] self.visited_nodes@[q],
                found matches Some(m) ==> m.1 < m.0 < size && !self.visited_nodes@[cell_index(m.0 as int, m.1 as int)]
                    && origin <= cell_index(m.0 as int, m.1 as int) < count
                    && forall|q: int| origin <= q < cell_index(m.0 as int, m.1 as int) ==> #[trigger] self.visited_nodes@[q],
            ensures
                found is None ==> forall|q: int| origin <= q < count ==> #[trigger] self.visited_nodes@[q],
                found matches Some(m) ==> m.1 < m.0 < size && !self.visited_nodes@[cell_index(m.0 as int, m.1 as int)]
                    && origin <= cell_index(m.0 as int, m.1 as int) < count
                    && forall|q: int| origin <= q < cell_index(m.0 as int, m.1 as int) ==> #[trigger] self.visited_nodes@[q],
            decreases count - it.position(),
        {
            match it.next() {
                None => {
                    break;
                },
                Some((line, column, visited)) => {
                    if !*visited {
                        found = Some((line, column));
                        break;
                    }
                },
            }
        }
        if found.is_none() {
            let mut wrap: TriangularMultiIndexEnumerate<'_, bool> = self.visited_nodes.enumerate_indexes();
            loop
                invariant_except_break
                    found is None,
                invariant
                    wrap.wf(),
                    wrap.cells() == self.visited_nodes@,
                    wrap.lines() == self.visited_nodes.lines(),
                    self.visited_nodes.wf(),
                    self.visited_nodes.lines() == size,
                    count == self.visited_nodes@.len(),
                    size >= 2 ==> 0 <= origin < count,
                    size < 2 ==> count == 0,
                    0 <= wrap.position(),
                    forall|q: int| origin <= q < count ==> #[trigger] self.visited_nodes@[q],
                    found is None ==> forall|q: int| 0 <= q < wrap.position() && q < count ==> #[trigger] self.visited_nodes@[q],
                    found matches Some(m) ==> m.1 < m.0 < size && !self.visited_nodes@[cell_index(m.0 as int, m.1 as int)]
                        && 0 <= cell_index(m.0 as int, m.1 as int) < origin
                        && forall|q: int| 0 <= q < cell_index(m.0 as int, m.1 as int) ==> #[trigger] self.visited_nodes@[q],
                ensures
                    found is None ==> forall|q: int| 0 <= q < count ==> #[trigger] self.visited_nodes@[q],
                    found matches Some(m) ==> m.1 < m.0 < size && !self.visited_nodes@[cell_index(m.0 as int, m.1 as int)]
                        && 0 <= cell_index(m.0 as int, m.1 as int) < origin
                        && forall|q: int| 0 <= q < cell_index(m.0 as int, m.1 as int) ==> #[trigger] self.visited_nodes@[q],
                decreases count - wrap.position(),
            {
                match wrap.next() {
                    None => {
                        break;
                    },
                    Some((line, column, visited)) => {
                        if !*visited {
                            found = Some((line, column));
                            break;
                        }
                    },
                }
            }
        }
        match found {
            None => None,
            Some((line, column)) => {
                self.visited_nodes.set(line, column, true);
                Some((line, column))
            },
        }
    }

    /// Tries the exchange that `next_neighbour` picks for the draws `swap_i`
    /// and `swap_j`: a cheaper tour replaces the current one and clears the
    /// tried marks.
    pub fn try_neighbour(&mut self, swap_i: usize, swap_j: usize) -> (r: NeighbourOutcome)
        requires
            old(self).wf(),
            swap_i < old(self).solution_size,
            swap_j < old(self).solution_size,
        ensures
            final(self).wf(),
            final(self).cost_map == old(self).cost_map,
            final(self).solution_size == old(self).solution_size,
            r is Exhausted <==> old(self).all_visited(),
            r is Exhausted ==> final(self).current_solution == old(self).current_solution,
            r matches NeighbourOutcome::Improved(a, b, c) ==> {
                let m = (a, b);
                &&& m.1 < m.0 < old(self).solution_size
                &&& !old(self).visited_nodes@[cell_index(m.0 as int, m.1 as int)]
                &&& c == tour_cost(old(self).cost_map@, swapped(old(self).current_solution@, m.0 as int, m.1 as int))
                &&& c < old(self).current_cost
                &&& final(self).current_solution@ == swapped(old(self).current_solution@, m.0 as int, m.1 as int)
                &&& final(self).current_cost == c
                &&& forall|p: int| 0 <= p < final(self).visited_nodes@.len() ==> !final(self).visited_nodes@[p]
            },
            r matches NeighbourOutcome::Rejected(a, b, c) ==> {
                let m = (a, b);
                &&& m.1 < m.0 < old(self).solution_size
                &&& !old(self).visited_nodes@[cell_index(m.0 as int, m.1 as int)]
                &&& c == tour_cost(old(self).cost_map@, swapped(old(self).current_solution@, m.0 as int, m.1 as int))
                &&& c >= old(self).current_cost
                &&& final(self).current_solution == old(self).current_solution
                &&& final(self).visited_nodes@ == old(self).visited_nodes@.update(
                    cell_index(m.0 as int, m.1 as int),
                    true,
                )
            },
    {
        match self.next_neighbour(swap_i, swap_j) {
            None => NeighbourOutcome::Exhausted,
            Some((i, j)) => {
                let next: Vec<usize> = swap_solution(&self.current_solution, i, j);
                proof {
                    lemma_applied_is_tour(
                        MoveKind::Exchange,
                        self.current_solution@,
                        self.solution_size as int,
                        i as int,
                        j as int,
                    );
                }
                let next_cost: u128 = calculate_cost(&self.cost_map, &next);
                if next_cost < self.current_cost {
                    self.current_cost = next_cost;
                    self.current_solution = next;
                    proof {
                        lemma_triangle_grows(self.solution_size as nat, (self.solution_size + 1) as nat);
                    }
                    self.visited_nodes = TriangularMatrix::<bool>::filled_false(self.solution_size);
                    NeighbourOutcome::Improved(i, j, next_cost)
                } else {
                    NeighbourOutcome::Rejected(i, j, next_cost)
                }
            },
        }
    }
}

} // verus!
