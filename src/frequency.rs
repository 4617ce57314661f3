use vstd::prelude::*;
use crate::triangular::{TriangularMatrix, triangle, cell_index, lemma_cell_in_storage};
use crate::tour::{is_tour, edge_cell, lemma_edge_valid, tour_cost, calculate_cost};

verus! {

/// How many of the first `k` edges of the walk over `t` are stored at `p`.
pub open spec fn edge_hits(t: Seq<usize>, k: nat, p: int) -> int
    decreases k,
{
    if k == 0 {
        0
    } else {
        edge_hits(t, (k - 1) as nat, p) + if edge_cell(t, k - 1) == p {
            1int
        } else {
            0int
        }
    }
}

/// How often each pair of nodes has been an edge of a recorded tour, with the
/// largest such count (at least `1`), by which counts are normalised.
pub struct FreqMatrix {
    pub frec_data: TriangularMatrix<usize>,
    pub max_frec: usize,
}

impl FreqMatrix {
    /// Counts are stored one per pair and none passes `max_frec`.
    pub open spec fn wf(&self) -> bool {
        &&& self.frec_data.wf()
        &&& self.max_frec >= 1
        &&& forall|p: int| 0 <= p < self.frec_data@.len() ==> #[trigger] self.frec_data@[p] <= self.max_frec
    }

    /// No pair of the `size` nodes seen yet.
    pub fn new(size: usize) -> (r: FreqMatrix)
        requires
            triangle(size as nat) <= usize::MAX,
        ensures
            r.wf(),
            r.frec_data.lines() == size,
            r.max_frec == 1,
            forall|p: int| 0 <= p < r.frec_data@.len() ==> r.frec_data@[p] == 0,
    {
        FreqMatrix { frec_data: TriangularMatrix::<usize>::filled_zeros(size), max_frec: 1 }
    }

    /// Counts once each edge of the round trip over `solution`, the two depot
    /// edges included.
    pub fn insert_solution(&mut self, solution: &Vec<usize>)
        requires
            old(self).wf(),
            old(self).frec_data.lines() == solution@.len() + 1,
            solution@.len() >= 1,
            is_tour(solution@, solution@.len() as int),
            old(self).max_frec + solution@.len() + 1 <= usize::MAX,
        ensures
            final(self).wf(),
            final(self).frec_data.lines() == old(self).frec_data.lines(),
            forall|p: int|
                0 <= p < final(self).frec_data@.len() ==> #[trigger] final(self).frec_data@[p]
                    == old(self).frec_data@[p] + edge_hits(solution@, (solution@.len() + 1) as nat, p),
            final(self).max_frec >= old(self).max_frec,
            final(self).max_frec == old(self).max_frec || exists|p: int|
                0 <= p < final(self).frec_data@.len() && #[trigger] final(self).frec_data@[p]
                    == final(self).max_frec,
    {
        let size: usize = solution.len();
        let ghost start = self.frec_data@;
        let ghost start_max = self.max_frec;
        let mut k: usize = 0;
        while k <= size
            invariant
                size == solution@.len(),
                size >= 1,
                is_tour(solution@, size as int),
                self.wf(),
                self.frec_data.lines() == size + 1,
                self.frec_data.lines() == old(self).frec_data.lines(),
                start == old(self).frec_data@,
                start_max == old(self).max_frec,
                start.len() == self.frec_data@.len(),
                k <= size + 1,
                start_max <= self.max_frec <= start_max + k,
                start_max + size + 1 <= usize::MAX,
                forall|p: int|
                    0 <= p < start.len() ==> #[trigger] self.frec_data@[p] == start[p] + edge_hits(
                        solution@,
                        k as nat,
                        p,
                    ),
                self.max_frec == start_max || exists|p: int|
                    0 <= p < self.frec_data@.len() && #[trigger] self.frec_data@[p] == self.max_frec,
            decreases size + 1 - k,
        {
            proof {
                lemma_edge_valid(solution@, size as int, k as int);
            }
            let a: usize = if k == 0 {
                0
            } else {
                solution[k - 1]
            };
            let b: usize = if k == size {
                0
            } else {
                solution[k]
            };
            let (line, column) = if a >= b {
                (a, b)
            } else {
                (b, a)
            };
            let ghost cell = cell_index(line as int, column as int);
            proof {
                lemma_cell_in_storage(self.frec_data.lines(), line as int, column as int);
            }
            let previous_value: usize = *self.frec_data.get(line, column);
            let new_value: usize = previous_value + 1;
            let ghost before = self.frec_data@;
            let ghost before_max = self.max_frec;
            if new_value > self.max_frec {
                self.max_frec = new_value;
            }
            self.frec_data.set(line, column, new_value);
            proof {
                assert(edge_cell(solution@, k as int) == cell);
                assert forall|p: int| 0 <= p < start.len() implies #[trigger] self.frec_data@[p]
                    == start[p] + edge_hits(solution@, (k + 1) as nat, p) by {
                    assert(before[p] == start[p] + edge_hits(solution@, k as nat, p));
                }
                assert forall|p: int| 0 <= p < self.frec_data@.len() implies #[trigger] self.frec_data@[p]
                    <= self.max_frec by {
                    if p != cell {
                        assert(before[p] <= before_max);
                    }
                }
                if self.max_frec != start_max && self.max_frec != new_value {
                    let q = choose|q: int| 0 <= q < before.len() && #[trigger] before[q] == before_max;
                    if q == cell {
                        assert(false);
                    }
                    assert(self.frec_data@[q] == self.max_frec);
                }
                if self.max_frec == new_value {
                    assert(self.frec_data@[cell] == self.max_frec);
                }
            }
            if k == size {
                return;
            }
            k = k + 1;
        }
    }

    /// The sum, over the edges of the round trip over `solution`, of how often
    /// each was seen: `max_frec` times the tour's normalised frequency.
    pub fn get_solution_freq_cost(&self, solution: &Vec<usize>) -> (r: u128)
        requires
            self.wf(),
            self.frec_data.lines() == solution@.len() + 1,
            solution@.len() >= 1,
            is_tour(solution@, solution@.len() as int),
        ensures
            r == tour_cost(self.frec_data@, solution@),
    {
        calculate_cost(&self.frec_data, solution)
    }

    /// How often the pair `(line, column)` was seen: `max_frec` times its
    /// normalised frequency.
    pub fn get_edge_freq_cost(&self, line: usize, column: usize) -> (r: usize)
        requires
            self.wf(),
            self.frec_data.valid_index(line as int, column as int),
        ensures
            r == self.frec_data.entry(line as int, column as int),
            r <= self.max_frec,
    {
        proof {
            lemma_cell_in_storage(self.frec_data.lines(), line as int, column as int);
        }
        *self.frec_data.get(line, column)
    }
}

} // verus!
