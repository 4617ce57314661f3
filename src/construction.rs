use vstd::prelude::*;
use vstd::set_lib::{lemma_int_range, lemma_len_subset, set_int_range};
use crate::triangular::{TriangularMatrix, cell_index};
use crate::tour::is_tour;

verus! {

/// Cost between two distinct nodes, read from the packed cells of a table.
pub open spec fn dist(cells: Seq<usize>, a: int, b: int) -> int {
    if a >= b {
        cells[cell_index(a, b)] as int
    } else {
        cells[cell_index(b, a)] as int
    }
}

/// Steps from node `from` to node `to` when moving forward over `1..=size`
/// and wrapping from `size` back to `1`.
pub open spec fn cyclic_gap(from: int, to: int, size: int) -> int {
    if from <= to {
        to - from
    } else {
        to + size - from
    }
}

/// A partial tour: distinct nodes of `1..=size`.
pub open spec fn is_partial_tour(t: Seq<usize>, size: int) -> bool {
    &&& t.len() <= size
    &&& forall|k: int| 0 <= k < t.len() ==> 1 <= #[trigger] t[k] <= size
    &&& t.no_duplicates()
}

/// Node `p` of `1..=size` is not in `t`.
pub open spec fn is_free(t: Seq<usize>, p: int, size: int) -> bool {
    1 <= p <= size && !t.contains(p as usize)
}

/// A partial tour shorter than `size` leaves some node of `1..=size` out.
pub proof fn lemma_missing_node(t: Seq<usize>, size: int)
    requires
        is_partial_tour(t, size),
        t.len() < size,
        size <= usize::MAX,
    ensures
        exists|p: int| #[trigger] is_free(t, p, size),
{
    let ints = t.map_values(|x: usize| x as int);
    assert(ints.no_duplicates()) by {
        assert forall|a: int, b: int|
            0 <= a < ints.len() && 0 <= b < ints.len() && a != b implies ints[a] != ints[b] by {
            assert(t[a] != t[b]);
        }
    }
    ints.unique_seq_to_set();
    lemma_int_range(1, size + 1);
    if !(exists|p: int| #[trigger] is_free(t, p, size)) {
        assert(set_int_range(1, size + 1).subset_of(ints.to_set())) by {
            assert forall|p: int| set_int_range(1, size + 1).contains(p) implies ints.to_set().contains(
                p,
            ) by {
                assert(!is_free(t, p, size));
                assert(t.contains(p as usize));
                let k = choose|k: int| 0 <= k < t.len() && t[k] == p as usize;
                assert(ints[k] == p);
            }
        }
        lemma_len_subset(set_int_range(1, size + 1), ints.to_set());
    }
}

/// Position `k` of `t` holds the first node, at or after `start` in the cyclic
/// order of `1..=size`, that the earlier positions left free.
pub open spec fn first_free_from(t: Seq<usize>, k: int, start: int, size: int) -> bool {
    &&& !t.take(k).contains(t[k])
    &&& forall|p: int|
        1 <= p <= size && #[trigger] cyclic_gap(start, p, size) < cyclic_gap(
            start,
            t[k] as int,
            size,
        ) ==> t.take(k).contains(p as usize)
}

/// Builds a tour of `size` nodes from `size` draws: step `k` takes the node
/// `draws[k] + 1`, or, where that one is taken, the next free node after it,
/// wrapping from `size` back to `1`.
pub fn generate_rand_solution(draws: &Vec<usize>, size: usize) -> (r: Vec<usize>)
    requires
        draws@.len() == size,
        size < usize::MAX,
        forall|k: int| 0 <= k < size ==> #[trigger] draws@[k] < size,
    ensures
        is_tour(r@, size as int),
        forall|k: int|
            0 <= k < size ==> #[trigger] first_free_from(r@, k, draws@[k] + 1, size as int),
{
    let mut rand_solution: Vec<usize> = Vec::with_capacity(size);
    let mut taken: Vec<bool> = Vec::new();
    let mut u: usize = 0;
    while u <= size
        invariant
            size < usize::MAX,
            u <= size + 1,
            taken@.len() == u,
            forall|p: int| 0 <= p < u ==> taken@[p] == false,
        decreases size + 1 - u,
    {
        taken.push(false);
        u = u + 1;
    }
    let mut i: usize = 0;
    while i < size
        invariant
            draws@.len() == size,
            size < usize::MAX,
            forall|k: int| 0 <= k < size ==> #[trigger] draws@[k] < size,
            i <= size,
            rand_solution@.len() == i,
            is_partial_tour(rand_solution@, size as int),
            taken@.len() == size + 1,
            forall|p: int| 0 <= p <= size ==> taken@[p] == rand_solution@.contains(p as usize),
            forall|k: int|
                0 <= k < i ==> #[trigger] first_free_from(rand_solution@, k, draws@[k] + 1, size as int),
        decreases size - i,
    {
        let start: usize = draws[i] + 1;
        let mut position: usize = start;
        proof {
            lemma_missing_node(rand_solution@, size as int);
        }
        let ghost free: int = choose|p: int| is_free(rand_solution@, p, size as int);
        while taken[position]
            invariant
                1 <= start <= size,
                1 <= position <= size,
                size < usize::MAX,
                taken@.len() == size + 1,
                forall|p: int| 0 <= p <= size ==> taken@[p] == rand_solution@.contains(p as usize),
                1 <= free <= size,
                !rand_solution@.contains(free as usize),
                cyclic_gap(start as int, position as int, size as int) <= cyclic_gap(
                    start as int,
                    free,
                    size as int,
                ),
                forall|p: int|
                    1 <= p <= size && #[trigger] cyclic_gap(start as int, p, size as int) < cyclic_gap(
                        start as int,
                        position as int,
                        size as int,
                    ) ==> rand_solution@.contains(p as usize),
            decreases cyclic_gap(start as int, free, size as int) - cyclic_gap(
                start as int,
                position as int,
                size as int,
            ),
        {
            assert(position as int != free);
            if position == size {
                position = 1;
            } else {
                position = position + 1;
            }
        }
        let ghost before = rand_solution@;
        rand_solution.push(position);
        taken.set(position, true);
        proof {
            assert(before =~= rand_solution@.take(i as int));
            assert forall|p: int| 0 <= p <= size implies taken@[p] == rand_solution@.contains(
                p as usize,
            ) by {
                if p != position {
                    if rand_solution@.contains(p as usize) {
                        let k = choose|k: int|
                            0 <= k < rand_solution@.len() && rand_solution@[k] == p as usize;
                        assert(k < i);
                        assert(before.contains(p as usize));
                    }
                    if before.contains(p as usize) {
                        let k = choose|k: int| 0 <= k < before.len() && before[k] == p as usize;
                        assert(rand_solution@[k] == p as usize);
                    }
                } else {
                    assert(rand_solution@[i as int] == position);
                }
            }
            assert forall|k: int| 0 <= k < i implies first_free_from(
                rand_solution@,
                k,
                draws@[k] + 1,
                size as int,
            ) by {
                assert(first_free_from(before, k, draws@[k] + 1, size as int));
                assert(rand_solution@.take(k) =~= before.take(k));
                assert(rand_solution@[k] == before[k]);
            }
        }
        i = i + 1;
    }
    rand_solution
}

/// Going from `from` to `chosen` is cheaper than going to `u`, which costs
/// `du`, or as cheap, with `chosen` the smaller node.
pub open spec fn no_cheaper(cells: Seq<usize>, from: int, chosen: int, du: int, u: int) -> bool {
    let dk = dist(cells, from, chosen);
    dk < du || (dk == du && chosen <= u)
}

/// The node that step `k` of `t` leaves from.
pub open spec fn step_origin(t: Seq<usize>, k: int) -> int {
    if k == 0 {
        0
    } else {
        t[k - 1] as int
    }
}

/// Step `k` of `t` goes from the node before it (the depot for `k == 0`) to
/// the cheapest node not visited yet; among equally cheap ones, the smallest.
pub open spec fn is_greedy_step(cells: Seq<usize>, t: Seq<usize>, k: int, size: int) -> bool {
    let from = step_origin(t, k);
    forall|u: int|
        1 <= u <= size && !t.take(k).contains(u as usize) ==> no_cheaper(
            cells,
            from,
            t[k] as int,
            #[trigger] dist(cells, from, u),
            u,
        )
}

/// Builds a tour by starting at the depot and moving, at each step, to the
/// cheapest node not visited yet (the smallest one among equally cheap ones).
pub fn generate_greedy_solution(cost_map: &TriangularMatrix<usize>) -> (r: Vec<usize>)
    requires
        cost_map.wf(),
        cost_map.lines() >= 2,
    ensures
        is_tour(r@, cost_map.lines() - 1),
        forall|k: int|
            0 <= k < r@.len() ==> #[trigger] is_greedy_step(cost_map@, r@, k, cost_map.lines() - 1),
{
    let lines: usize = cost_map.number_of_lines();
    let size: usize = lines - 1;
    let mut first_solution: Vec<usize> = Vec::with_capacity(size);
    let mut visited: Vec<bool> = Vec::new();
    let mut u: usize = 0;
    while u <= size
        invariant
            size + 1 == cost_map.lines(),
            size < usize::MAX,
            u <= size + 1,
            visited@.len() == u,
            forall|p: int| 0 <= p < u ==> visited@[p] == false,
        decreases size + 1 - u,
    {
        visited.push(false);
        u = u + 1;
    }
    let mut node_from: usize = 0;
    let mut i: usize = 0;
    while i < size
        invariant
            cost_map.wf(),
            size + 1 == cost_map.lines(),
            size < usize::MAX,
            i <= size,
            first_solution@.len() == i,
            is_partial_tour(first_solution@, size as int),
            node_from == if i == 0 {
                0
            } else {
                first_solution@[i - 1]
            },
            visited@.len() == size + 1,
            forall|p: int|
                0 <= p <= size ==> visited@[p] == first_solution@.contains(p as usize),
            forall|k: int| 0 <= k < i ==> #[trigger] is_greedy_step(cost_map@, first_solution@, k, size as int),
        decreases size - i,
    {
        proof {
            lemma_missing_node(first_solution@, size as int);
            if i > 0 {
                assert(first_solution@.contains(first_solution@[i - 1]));
            }
        }
        let mut best: usize = 0;
        let mut best_cost: usize = 0;
        let mut v: usize = 1;
        while v <= size
            invariant
                cost_map.wf(),
                size + 1 == cost_map.lines(),
                size < usize::MAX,
                1 <= v <= size + 1,
                node_from <= size,
                node_from == 0 || visited@[node_from as int],
                visited@.len() == size + 1,
                forall|p: int|
                    0 <= p <= size ==> visited@[p] == first_solution@.contains(p as usize),
                best < v,
                best != 0 ==> !visited@[best as int] && best_cost == dist(
                    cost_map@,
                    node_from as int,
                    best as int,
                ),
                forall|w: int| 1 <= w < v && !visited@[w] ==> best != 0,
                forall|w: int|
                    1 <= w < v && !visited@[w] ==> no_cheaper(
                        cost_map@,
                        node_from as int,
                        best as int,
                        #[trigger] dist(cost_map@, node_from as int, w),
                        w,
                    ),
            decreases size + 1 - v,
        {
            if !visited[v] {
                let (line, column) = if node_from >= v {
                    (node_from, v)
                } else {
                    (v, node_from)
                };
                let d: usize = *cost_map.get(line, column);
                assert(d == dist(cost_map@, node_from as int, v as int));
                let ghost old_best = best;
                if best == 0 || d < best_cost {
                    best = v;
                    best_cost = d;
                }
                proof {
                    assert forall|w: int| 1 <= w < v + 1 && !visited@[w] implies best != 0 && no_cheaper(
                        cost_map@,
                        node_from as int,
                        best as int,
                        #[trigger] dist(cost_map@, node_from as int, w),
                        w,
                    ) by {
                        if w < v {
                            assert(old_best != 0 && no_cheaper(
                                cost_map@,
                                node_from as int,
                                old_best as int,
                                dist(cost_map@, node_from as int, w),
                                w,
                            ));
                        }
                    }
                }
            } else {
                proof {
                    assert forall|w: int| 1 <= w < v + 1 && !visited@[w] implies best != 0 && no_cheaper(
                        cost_map@,
                        node_from as int,
                        best as int,
                        #[trigger] dist(cost_map@, node_from as int, w),
                        w,
                    ) by {
                        let dw = dist(cost_map@, node_from as int, w);
                        assert(best != 0 && no_cheaper(cost_map@, node_from as int, best as int, dw, w));
                    }
                }
            }
            v = v + 1;
        }
        proof {
            let free = choose|p: int| is_free(first_solution@, p, size as int);
            assert(!visited@[free]);
            assert(no_cheaper(
                cost_map@,
                node_from as int,
                best as int,
                dist(cost_map@, node_from as int, free),
                free,
            ));
        }
        let ghost before = first_solution@;
        let ghost seen = visited@;
        let ghost from = node_from as int;
        first_solution.push(best);
        visited.set(best, true);
        node_from = best;
        proof {
            assert(before =~= first_solution@.take(i as int));
            assert forall|p: int| 0 <= p <= size implies visited@[p] == first_solution@.contains(
                p as usize,
            ) by {
                if p != best {
                    if first_solution@.contains(p as usize) {
                        let k = choose|k: int|
                            0 <= k < first_solution@.len() && first_solution@[k] == p as usize;
                        assert(k < i);
                        assert(before.contains(p as usize));
                    }
                    if before.contains(p as usize) {
                        let k = choose|k: int| 0 <= k < before.len() && before[k] == p as usize;
                        assert(first_solution@[k] == p as usize);
                    }
                } else {
                    assert(first_solution@[i as int] == best);
                }
            }
            assert forall|k: int| 0 <= k < i + 1 implies is_greedy_step(
                cost_map@,
                first_solution@,
                k,
                size as int,
            ) by {
                if k < i {
                    assert(first_solution@.take(k) =~= before.take(k));
                    assert(first_solution@[k] == before[k]);
                    if k > 0 {
                        assert(first_solution@[k - 1] == before[k - 1]);
                    }
                    assert(is_greedy_step(cost_map@, before, k, size as int));
                    let from_k = step_origin(before, k);
                    assert(step_origin(first_solution@, k) == from_k);
                    assert forall|u: int|
                        1 <= u <= size && !first_solution@.take(k).contains(
                            u as usize,
                        ) implies no_cheaper(
                        cost_map@,
                        from_k,
                        first_solution@[k] as int,
                        #[trigger] dist(cost_map@, from_k, u),
                        u,
                    ) by {
                        assert(!before.take(k).contains(u as usize));
                    }
                } else {
                    if k > 0 {
                        assert(first_solution@[k - 1] == before[k - 1]);
                    }
                    assert(step_origin(first_solution@, k) == from);
                    assert forall|u: int|
                        1 <= u <= size && !first_solution@.take(k).contains(
                            u as usize,
                        ) implies no_cheaper(
                        cost_map@,
                        from,
                        first_solution@[k] as int,
                        #[trigger] dist(cost_map@, from, u),
                        u,
                    ) by {
                        assert(!seen[u]);
                    }
                }
            }
            assert forall|a: int, b: int|
                0 <= a < first_solution@.len() && 0 <= b < first_solution@.len() && a
                    != b implies first_solution@[a] != first_solution@[b] by {
                if a == i {
                    assert(before[b] == first_solution@[b]);
                    assert(before.contains(first_solution@[b]));
                } else if b == i {
                    assert(before[a] == first_solution@[a]);
                    assert(before.contains(first_solution@[a]));
                } else {
                    assert(before[a] == first_solution@[a]);
                    assert(before[b] == first_solution@[b]);
                }
            }
        }
        i = i + 1;
    }
    first_solution
}

} // verus!
