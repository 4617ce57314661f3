use vstd::prelude::*;
use crate::triangular::{TriangularMatrix, triangle, cell_index};

verus! {

/// `t` visits each of the nodes `1..=size` exactly once; the depot `0` is
/// implicit at both ends and never stored.
pub open spec fn is_tour(t: Seq<usize>, size: int) -> bool {
    &&& t.len() == size
    &&& forall|k: int| 0 <= k < t.len() ==> 1 <= #[trigger] t[k] <= size
    &&& forall|a: int, b: int| 0 <= a < t.len() && 0 <= b < t.len() && a != b ==> t[a] != t[b]
}

/// The node at step `k` of the closed walk: the depot before the first step
/// and after the last one.
pub open spec fn tour_node(t: Seq<usize>, k: int) -> int {
    if 0 <= k < t.len() {
        t[k] as int
    } else {
        0
    }
}

/// Larger end of edge `k`, which joins `tour_node(t, k - 1)` to `tour_node(t, k)`;
/// a tour of `n` nodes has the edges `0..=n`.
pub open spec fn edge_line(t: Seq<usize>, k: int) -> int {
    let a = tour_node(t, k - 1);
    let b = tour_node(t, k);
    if a >= b {
        a
    } else {
        b
    }
}

/// Smaller end of edge `k`.
pub open spec fn edge_column(t: Seq<usize>, k: int) -> int {
    let a = tour_node(t, k - 1);
    let b = tour_node(t, k);
    if a >= b {
        b
    } else {
        a
    }
}

/// Storage position, in a triangular table, of the cost of edge `k`.
pub open spec fn edge_cell(t: Seq<usize>, k: int) -> int {
    cell_index(edge_line(t, k), edge_column(t, k))
}

/// Cost of the first `k` edges of the walk.
pub open spec fn edges_cost(cells: Seq<usize>, t: Seq<usize>, k: nat) -> int
    decreases k,
{
    if k == 0 {
        0
    } else {
        edges_cost(cells, t, (k - 1) as nat) + cells[edge_cell(t, k - 1)]
    }
}

/// Cost of the round trip depot, `t[0]`, ..., `t[n - 1]`, depot.
pub open spec fn tour_cost(cells: Seq<usize>, t: Seq<usize>) -> int {
    edges_cost(cells, t, (t.len() + 1) as nat)
}

/// Each edge of a tour joins two distinct nodes of the table.
pub proof fn lemma_edge_valid(t: Seq<usize>, size: int, k: int)
    requires
        is_tour(t, size),
        size >= 1,
        0 <= k <= size,
    ensures
        0 <= edge_column(t, k) < edge_line(t, k) <= size,
{
    if 0 < k < size {
        assert(t[k - 1] != t[k]);
        assert(1 <= t[k - 1] <= size);
        assert(1 <= t[k] <= size);
    } else if k == 0 {
        assert(1 <= t[0] <= size);
    } else {
        assert(1 <= t[k - 1] <= size);
    }
}

/// Two positions exchanged.
pub open spec fn swapped(t: Seq<usize>, i: int, j: int) -> Seq<usize> {
    t.update(i, t[j]).update(j, t[i])
}

/// The positions between `i` and `j`, both included, in reverse order.
pub open spec fn reversed(t: Seq<usize>, i: int, j: int) -> Seq<usize> {
    let lo = if i <= j {
        i
    } else {
        j
    };
    let hi = if i <= j {
        j
    } else {
        i
    };
    Seq::new(t.len(), |k: int| if lo <= k <= hi { t[lo + hi - k] } else { t[k] })
}

/// The two kinds of move from one tour to a neighbouring one.
#[derive(Debug, Clone, Copy, PartialEq, Eq, Structural)]
pub enum MoveKind {
    /// Exchange the nodes at two positions.
    Exchange,
    /// Reverse the segment between two positions (a 2-opt move).
    Reversal,
}

/// The tour that a move of `kind` over positions `i` and `j` leads to.
pub open spec fn applied(kind: MoveKind, t: Seq<usize>, i: int, j: int) -> Seq<usize> {
    match kind {
        MoveKind::Exchange => swapped(t, i, j),
        MoveKind::Reversal => reversed(t, i, j),
    }
}

/// A move keeps a tour a tour.
pub proof fn lemma_applied_is_tour(kind: MoveKind, t: Seq<usize>, size: int, i: int, j: int)
    requires
        is_tour(t, size),
        0 <= i < size,
        0 <= j < size,
    ensures
        is_tour(applied(kind, t, i, j), size),
{
    let r = applied(kind, t, i, j);
    match kind {
        MoveKind::Exchange => {
            assert forall|a: int, b: int|
                0 <= a < r.len() && 0 <= b < r.len() && a != b implies r[a] != r[b] by {
                let sa = if a == j {
                    i
                } else if a == i {
                    j
                } else {
                    a
                };
                let sb = if b == j {
                    i
                } else if b == i {
                    j
                } else {
                    b
                };
                assert(r[a] == t[sa]);
                assert(r[b] == t[sb]);
            }
            assert forall|k: int| 0 <= k < r.len() implies 1 <= #[trigger] r[k] <= size by {
                let sk = if k == j {
                    i
                } else if k == i {
                    j
                } else {
                    k
                };
                assert(r[k] == t[sk]);
            }
        },
        MoveKind::Reversal => {
            let lo = if i <= j {
                i
            } else {
                j
            };
            let hi = if i <= j {
                j
            } else {
                i
            };
            assert forall|a: int, b: int|
                0 <= a < r.len() && 0 <= b < r.len() && a != b implies r[a] != r[b] by {
                let sa = if lo <= a <= hi {
                    lo + hi - a
                } else {
                    a
                };
                let sb = if lo <= b <= hi {
                    lo + hi - b
                } else {
                    b
                };
                assert(r[a] == t[sa]);
                assert(r[b] == t[sb]);
            }
            assert forall|k: int| 0 <= k < r.len() implies 1 <= #[trigger] r[k] <= size by {
                let sk = if lo <= k <= hi {
                    lo + hi - k
                } else {
                    k
                };
                assert(r[k] == t[sk]);
            }
        },
    }
}

/// The cost of a tour: the sum of the costs of its edges, the two depot edges
/// included.
pub fn calculate_cost(cost_map: &TriangularMatrix<usize>, solution: &Vec<usize>) -> (r: u128)
    requires
        cost_map.wf(),
        cost_map.lines() == solution@.len() + 1,
        solution@.len() >= 1,
        is_tour(solution@, solution@.len() as int),
    ensures
        r == tour_cost(cost_map@, solution@),
{
    let size: usize = solution.len();
    let mut total: u128 = 0;
    let mut k: usize = 0;
    while k <= size
        invariant
            size == solution@.len(),
            size >= 1,
            cost_map.wf(),
            cost_map.lines() == size + 1,
            is_tour(solution@, size as int),
            k <= size + 1,
            total == edges_cost(cost_map@, solution@, k as nat),
            total <= k * 18446744073709551615,
        decreases size + 1 - k,
    {
        proof {
            lemma_edge_valid(solution@, size as int, k as int);
        }
        let a: usize = if k == 0 {
            0
        } else {
            solution[k - 1]
        };
        let b: usize = if k == size {
            0
        } else {
            solution[k]
        };
        let (line, column) = if a >= b {
            (a, b)
        } else {
            (b, a)
        };
        let v: usize = *cost_map.get(line, column);
        total = total + v as u128;
        if k == size {
            return total;
        }
        k = k + 1;
    }
    total
}

/// The tour with the nodes at positions `i` and `j` exchanged.
pub fn swap_solution(solution: &Vec<usize>, i: usize, j: usize) -> (r: Vec<usize>)
    requires
        i < solution@.len(),
        j < solution@.len(),
    ensures
        r@ == swapped(solution@, i as int, j as int),
{
    let mut r: Vec<usize> = solution.clone();
    assert(r@ == solution@);
    let a: usize = solution[i];
    let b: usize = solution[j];
    r.set(i, b);
    r.set(j, a);
    r
}

/// The tour with the segment between positions `i` and `j` reversed.
pub fn reverse_segment(solution: &Vec<usize>, i: usize, j: usize) -> (r: Vec<usize>)
    requires
        i < solution@.len(),
        j < solution@.len(),
    ensures
        r@ == reversed(solution@, i as int, j as int),
{
    let hi: usize = if i >= j {
        i
    } else {
        j
    };
    let lo: usize = if i >= j {
        j
    } else {
        i
    };
    let n: usize = solution.len();
    let mut r: Vec<usize> = solution.clone();
    assert(r@ == solution@);
    let mut swap: usize = lo;
    while swap <= hi
        invariant
            n == solution@.len(),
            lo <= hi < solution@.len(),
            lo <= swap <= hi + 1,
            r@.len() == solution@.len(),
            forall|k: int| 0 <= k < lo || swap <= k < r@.len() ==> r@[k] == solution@[k],
            forall|k: int| lo <= k < swap ==> r@[k] == solution@[lo + hi - k],
        decreases hi + 1 - swap,
    {
        r.set(swap, solution[hi - swap + lo]);
        swap = swap + 1;
    }
    assert(r@ =~= reversed(solution@, i as int, j as int));
    r
}

/// The tour that the move `(i, j)` of the given kind leads to.
pub fn apply_move(kind: MoveKind, solution: &Vec<usize>, i: usize, j: usize) -> (r: Vec<usize>)
    requires
        i < solution@.len(),
        j < solution@.len(),
    ensures
        r@ == applied(kind, solution@, i as int, j as int),
{
    match kind {
        MoveKind::Exchange => swap_solution(solution, i, j),
        MoveKind::Reversal => reverse_segment(solution, i, j),
    }
}

/// The cost of the tour that a move leads to.
pub fn neighbour_cost(
    cost_map: &TriangularMatrix<usize>,
    solution: &Vec<usize>,
    kind: MoveKind,
    i: usize,
    j: usize,
) -> (r: u128)
    requires
        cost_map.wf(),
        cost_map.lines() == solution@.len() + 1,
        solution@.len() >= 1,
        is_tour(solution@, solution@.len() as int),
        i < solution@.len(),
        j < solution@.len(),
    ensures
        r == tour_cost(cost_map@, applied(kind, solution@, i as int, j as int)),
{
    let moved: Vec<usize> = apply_move(kind, solution, i, j);
    proof {
        lemma_applied_is_tour(kind, solution@, solution@.len() as int, i as int, j as int);
    }
    calculate_cost(cost_map, &moved)
}

/// Every position pair `(i, j)`, `j < i < size`, listed by ascending `i`, then
/// ascending `j`: the pair `(i, j)` stands at `i * (i - 1) / 2 + j`.
pub fn generate_neighbours(size: usize) -> (r: Vec<(usize, usize)>)
    requires
        triangle(size as nat) <= usize::MAX,
    ensures
        r@.len() == triangle(size as nat),
        forall|k: int| 0 <= k < r@.len() ==> is_pair_at(#[trigger] r@[k], k, size as int),
{
    let mut neighbours: Vec<(usize, usize)> = Vec::new();
    let mut i: usize = 0;
    while i < size
        invariant
            i <= size,
            triangle(size as nat) <= usize::MAX,
            neighbours@.len() == triangle(i as nat),
            forall|k: int|
                0 <= k < neighbours@.len() ==> is_pair_at(#[trigger] neighbours@[k], k, i as int),
        decreases size - i,
    {
        proof {
            crate::triangular::lemma_triangle_grows(i as nat, size as nat);
        }
        let mut j: usize = 0;
        while j < i
            invariant
                i < size,
                j <= i,
                neighbours@.len() == triangle(i as nat) + j,
                forall|k: int|
                    0 <= k < neighbours@.len() ==> is_pair_at(
                        #[trigger] neighbours@[k],
                        k,
                        i + 1,
                    ),
            decreases i - j,
        {
            neighbours.push((i, j));
            j = j + 1;
        }
        assert(triangle((i + 1) as nat) == triangle(i as nat) + i);
        i = i + 1;
    }
    neighbours
}

/// `p` is the pair `(i, j)`, `j < i < size`, stored at position `k` of a
/// triangle.
pub open spec fn is_pair_at(p: (usize, usize), k: int, size: int) -> bool {
    &&& p.1 < p.0 < size
    &&& cell_index(p.0 as int, p.1 as int) == k
}

/// Every position pair `(anchor, i)`, `i != anchor`, by ascending `i`.
pub fn anchored_neighbours(anchor: usize, size: usize) -> (r: Vec<(usize, usize)>)
    requires
        anchor < size,
    ensures
        r@.len() == size - 1,
        forall|k: int|
            0 <= k < r@.len() ==> #[trigger] r@[k] == (
                anchor,
                if k < anchor {
                    k as usize
                } else {
                    (k + 1) as usize
                },
            ),
{
    let mut neighbours: Vec<(usize, usize)> = Vec::new();
    let mut i: usize = 0;
    while i < size
        invariant
            anchor < size,
            i <= size,
            neighbours@.len() == if i <= anchor {
                i as int
            } else {
                i - 1
            },
            forall|k: int|
                0 <= k < neighbours@.len() ==> #[trigger] neighbours@[k] == (
                    anchor,
                    if k < anchor {
                        k as usize
                    } else {
                        (k + 1) as usize
                    },
                ),
        decreases size - i,
    {
        if i != anchor {
            neighbours.push((anchor, i));
        }
        i = i + 1;
    }
    neighbours
}

} // verus!
