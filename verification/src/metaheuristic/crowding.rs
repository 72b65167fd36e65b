//! The crowding distance: how far apart the neighbours of a solution lie, as
//! a measure of how much of the front it stands for.
use vstd::prelude::*;
use crate::arithmetic::Arithmetic;
use crate::metaheuristic::dominance::has;
use crate::metaheuristic::objects::Solution;
use crate::metaheuristic::sorting::{by_objective, column, lemma_sort_by, sort_by, sort_front};

verus! {

/// The place of `x` in a list that holds it once.
pub open spec fn place(order: Seq<usize>, x: int) -> int {
    choose|q: int| 0 <= q < order.len() && order[q] == x
}

/// The crowding distance of member `x` of a front of more than two members
/// after the first `m` objectives have been taken into account. It starts at
/// zero. For each objective the front is sorted by it: the first and the last
/// member get the distance infinity; any other member gets, where the last
/// value is greater than the first, the difference between its two
/// neighbours' values, divided by the difference between the last and the
/// first, added to what it had.
pub open spec fn crowding_after<P, A, S, D, L, C>(
    ops: &Arithmetic<P, A, S, D, L, C>,
    population: Seq<Solution<P>>,
    front: Seq<usize>,
    m: int,
    x: int,
) -> P where
    A: Fn(&P, &P) -> P,
    S: Fn(&P, &P) -> P,
    D: Fn(&P, &P) -> P,
    L: Fn(&P, &P) -> bool,
    C: Fn(i64) -> P,

    decreases m,
{
    if m <= 0 {
        ops.number(0)
    } else {
        let earlier = crowding_after(ops, population, front, m - 1, x);
        let order = sort_by(by_objective(ops.less, population, m - 1), front);
        let q = place(order, x);
        let lowest = population[order[0] as int].objectives@[m - 1];
        let highest = population[order.last() as int].objectives@[m - 1];
        let scale = ops.difference(highest, lowest);
        if q == 0 || q == order.len() - 1 {
            ops.infinity
        } else if ops.lt(ops.number(0), scale) {
            ops.sum(
                earlier,
                ops.quotient(
                    ops.difference(
                        population[order[q + 1] as int].objectives@[m - 1],
                        population[order[q - 1] as int].objectives@[m - 1],
                    ),
                    scale,
                ),
            )
        } else {
            earlier
        }
    }
}

/// Whether two populations differ at most in crowding distances.
pub open spec fn same_but_crowding<P>(before: Seq<Solution<P>>, after: Seq<Solution<P>>) -> bool {
    &&& after.len() == before.len()
    &&& forall|x: int|
        0 <= x < before.len() ==> (#[trigger] after[x]).variables == before[x].variables
            && after[x].objectives == before[x].objectives && after[x].rank == before[x].rank
}

/// Whether `after` is `before` with the crowding distances of the members of
/// `front` set from their first `m` objectives: infinity throughout a front
/// of at most two members.
pub open spec fn crowded<P, A, S, D, L, C>(
    ops: &Arithmetic<P, A, S, D, L, C>,
    before: Seq<Solution<P>>,
    after: Seq<Solution<P>>,
    front: Seq<usize>,
    m: int,
) -> bool where
    A: Fn(&P, &P) -> P,
    S: Fn(&P, &P) -> P,
    D: Fn(&P, &P) -> P,
    L: Fn(&P, &P) -> bool,
    C: Fn(i64) -> P,
 {
    &&& same_but_crowding(before, after)
    &&& forall|x: int|
        0 <= x < before.len() ==> (#[trigger] after[x]).crowding_distance == if has(front, x) {
            if front.len() <= 2 {
                ops.infinity
            } else {
                crowding_after(ops, before, front, m, x)
            }
        } else {
            before[x].crowding_distance
        }
}

fn set_all<P: Copy>(population: &mut Vec<Solution<P>>, front: &Vec<usize>, value: P)
    requires
        forall|q: int| 0 <= q < front.len() ==> #[trigger] front[q] < old(population).len(),
    ensures
        same_but_crowding(old(population)@, final(population)@),
        forall|x: int|
            0 <= x < old(population).len() ==> (#[trigger] final(population)[x]).crowding_distance
                == if has(front@, x) {
                value
            } else {
                old(population)[x].crowding_distance
            },
{
    let ghost start = population@;
    let mut q: usize = 0;
    while q < front.len()
        invariant
            q <= front.len(),
            forall|t: int| 0 <= t < front.len() ==> #[trigger] front[t] < start.len(),
            same_but_crowding(start, population@),
            forall|x: int|
                0 <= x < start.len() ==> (#[trigger] population[x]).crowding_distance == if exists|
                    t: int,
                |
                    0 <= t < q && #[trigger] front[t] == x {
                    value
                } else {
                    start[x].crowding_distance
                },
        decreases front.len() - q,
    {
        let x = front[q];
        let ghost earlier = population@;
        population[x].crowding_distance = value;
        proof {
            assert forall|y: int| 0 <= y < start.len() implies (#[trigger] population[y]).crowding_distance
                == if exists|t: int| 0 <= t < q + 1 && #[trigger] front[t] == y {
                value
            } else {
                start[y].crowding_distance
            } by {
                if y == x {
                    assert(front[q as int] == y);
                } else {
                    assert(population[y] == earlier[y]);
                    if exists|t: int| 0 <= t < q + 1 && #[trigger] front[t] == y {
                        let t = choose|t: int| 0 <= t < q + 1 && #[trigger] front[t] == y;
                        assert(0 <= t < q && front[t] == y);
                    }
                }
            }
        }
        q += 1;
    }
    proof {
        assert forall|x: int| 0 <= x < start.len() implies (has(front@, x) <==> exists|t: int|
            0 <= t < front.len() && #[trigger] front[t] == x) by {
            if has(front@, x) {
                let t = choose|t: int|
                    0 <= t < front@.len() && t < front@.len() && #[trigger] front@[t] == x;
                assert(front[t] == x);
            }
            if exists|t: int| 0 <= t < front.len() && #[trigger] front[t] == x {
                let t = choose|t: int| 0 <= t < front.len() && #[trigger] front[t] == x;
                assert(front@[t] == x);
            }
        }
    }
}

/// Sets the crowding distance of the members of one front from their first
/// `num_objectives` objectives.
pub fn calculate_crowding_distance<P: Copy, A, S, D, L, C>(
    ops: &Arithmetic<P, A, S, D, L, C>,
    population: &mut Vec<Solution<P>>,
    front: &Vec<usize>,
    num_objectives: usize,
) where
    A: Fn(&P, &P) -> P,
    S: Fn(&P, &P) -> P,
    D: Fn(&P, &P) -> P,
    L: Fn(&P, &P) -> bool,
    C: Fn(i64) -> P,

    requires
        ops.wf(),
        front@.no_duplicates(),
        forall|q: int|
            0 <= q < front.len() ==> #[trigger] front[q] < old(population).len() && old(population)[front[q] as int].objectives.len() >= num_objectives,
    ensures
        crowded(ops, old(population)@, final(population)@, front@, num_objectives as int),
{
    let ghost start = population@;
    let size = front.len();
    if size <= 2 {
        set_all(population, front, ops.infinity);
        return ;
    }
    let zero = ops.count(0);
    set_all(population, front, zero);
    let mut m: usize = 0;
    while m < num_objectives
        invariant
            ops.wf(),
            size == front.len(),
            size > 2,
            m <= num_objectives,
            zero == ops.number(0),
            front@.no_duplicates(),
            forall|q: int|
                0 <= q < front.len() ==> #[trigger] front[q] < start.len() && start[front[q] as int].objectives.len()
                    >= num_objectives,
            same_but_crowding(start, population@),
            forall|x: int|
                0 <= x < start.len() ==> (#[trigger] population[x]).crowding_distance == if has(
                    front@,
                    x,
                ) {
                    crowding_after(ops, start, front@, m as int, x)
                } else {
                    start[x].crowding_distance
                },
        decreases num_objectives - m,
    {
        let ghost entry = population@;
        proof {
            assert forall|q: int| 0 <= q < front.len() implies #[trigger] front[q] < population.len()
                && population[front[q] as int].objectives.len() > m by {
                assert(population[front[q] as int].objectives == start[front[q] as int].objectives);
            }
        }
        let order = sort_front(&ops.less, population, front, m);
        proof {
            assert(column(population@, m as int) =~= column(start, m as int)) by {
                assert forall|i: int| 0 <= i < start.len() implies column(population@, m as int)[i]
                    == column(start, m as int)[i] by {
                    assert(population[i].objectives == start[i].objectives);
                }
            }
            lemma_sort_by(by_objective(ops.less, start, m as int), front@);
            assert forall|q: int| 0 <= q < order.len() implies #[trigger] order[q] < start.len()
                && start[order[q] as int].objectives.len() >= num_objectives && has(
                front@,
                order[q] as int,
            ) by {
                assert(order@.contains(order[q]));
                assert(front@.contains(order[q]));
                let t = choose|t: int| 0 <= t < front@.len() && front@[t] == order[q];
                assert(front[t] == order[q]);
            }
        }
        let first = order[0];
        let last = order[size - 1];
        let scale = ops.minus(&population[last].objectives[m], &population[first].objectives[m]);
        population[first].crowding_distance = ops.infinity;
        population[last].crowding_distance = ops.infinity;
        let positive = ops.below(&zero, &scale);
        let ghost edged = population@;
        proof {
            assert forall|x: int| 0 <= x < start.len() implies (#[trigger] edged[x]).crowding_distance
                == if x == order[0] || x == order[size - 1] {
                ops.infinity
            } else if has(front@, x) {
                crowding_after(ops, start, front@, m as int, x)
            } else {
                start[x].crowding_distance
            } by {
                if x != first && x != last {
                    assert(edged[x] == entry[x]);
                }
            }
        }
        let mut i: usize = 1;
        while positive && i < size - 1
            invariant
                ops.wf(),
                size == order.len(),
                size > 2,
                1 <= i <= size - 1,
                m < num_objectives,
                order@ == sort_by(by_objective(ops.less, start, m as int), front@),
                order@.no_duplicates(),
                forall|q: int|
                    0 <= q < order.len() ==> #[trigger] order[q] < start.len() && start[order[q] as int].objectives.len()
                        >= num_objectives,
                scale == ops.difference(
                    start[order[size - 1] as int].objectives@[m as int],
                    start[order[0] as int].objectives@[m as int],
                ),
                positive == ops.lt(ops.number(0), scale),
                same_but_crowding(start, population@),
                edged.len() == start.len(),
                forall|x: int|
                    0 <= x < start.len() ==> (#[trigger] edged[x]).crowding_distance == if x
                        == order[0] || x == order[size - 1] {
                        ops.infinity
                    } else if has(front@, x) {
                        crowding_after(ops, start, front@, m as int, x)
                    } else {
                        start[x].crowding_distance
                    },
                forall|x: int|
                    0 <= x < start.len() ==> (#[trigger] population[x]).crowding_distance == if exists|
                        q: int,
                    |
                        1 <= q < i && #[trigger] order[q] == x {
                        crowding_after(ops, start, front@, m + 1, x)
                    } else {
                        edged[x].crowding_distance
                    },
            decreases size - 1 - i,
        {
            let x = order[i];
            let gap = ops.minus(
                &population[order[i + 1]].objectives[m],
                &population[order[i - 1]].objectives[m],
            );
            let share = ops.over(&gap, &scale);
            let ghost earlier = population@;
            let value = ops.plus(&population[x].crowding_distance, &share);
            population[x].crowding_distance = value;
            proof {
                assert(forall|q: int| 1 <= q < i ==> #[trigger] order[q] != x) by {
                    assert forall|q: int| 1 <= q < i implies #[trigger] order[q] != x by {
                        assert(order@[q] != order@[i as int]);
                    }
                }
                assert(earlier[x as int].crowding_distance == edged[x as int].crowding_distance);
                assert(order@[0] != order@[i as int]);
                assert(order@[size - 1] != order@[i as int]);
                assert(has(front@, x as int)) by {
                    lemma_sort_by(by_objective(ops.less, start, m as int), front@);
                    assert(order@.contains(order@[i as int]));
                    assert(front@.contains(x));
                    let t = choose|t: int| 0 <= t < front@.len() && front@[t] == x;
                    assert(front@[t] == x as int);
                }
                assert(place(order@, x as int) == i) by {
                    assert(order@[i as int] == x as int);
                    let q = place(order@, x as int);
                    if q != i {
                        assert(order@[q] != order@[i as int]);
                    }
                }
                assert(edged[x as int].crowding_distance == crowding_after(
                    ops,
                    start,
                    front@,
                    m as int,
                    x as int,
                ));
                assert(earlier[order[i + 1] as int].objectives == start[order[i + 1] as int].objectives);
                assert(earlier[order[i - 1] as int].objectives == start[order[i - 1] as int].objectives);
                assert(value == crowding_after(ops, start, front@, m + 1, x as int));
                assert forall|y: int| 0 <= y < start.len() implies (#[trigger] population[y]).crowding_distance
                    == if exists|q: int| 1 <= q < i + 1 && #[trigger] order[q] == y {
                    crowding_after(ops, start, front@, m + 1, y)
                } else {
                    edged[y].crowding_distance
                } by {
                    if y == x {
                        assert(order[i as int] == y);
                    } else {
                        assert(population[y] == earlier[y]);
                        if exists|q: int| 1 <= q < i + 1 && #[trigger] order[q] == y {
                            let q = choose|q: int| 1 <= q < i + 1 && #[trigger] order[q] == y;
                            assert(1 <= q < i && order[q] == y);
                        }
                    }
                }
            }
            i += 1;
        }
        proof {
            assert forall|x: int| 0 <= x < start.len() implies (#[trigger] population[x]).crowding_distance
                == if has(front@, x) {
                crowding_after(ops, start, front@, m + 1, x)
            } else {
                start[x].crowding_distance
            } by {
                lemma_sort_by(by_objective(ops.less, start, m as int), front@);
                if has(front@, x) {
                    let t = choose|t: int|
                        0 <= t < front@.len() && t < front@.len() && #[trigger] front@[t] == x;
                    assert(front@.contains(front@[t]));
                    assert(order@.contains(front@[t]));
                    let q0 = choose|q: int| 0 <= q < order@.len() && order@[q] == front@[t];
                    assert(order@[q0] == x);
                    let q = place(order@, x);
                    if q != q0 {
                        assert(order@[q] != order@[q0]);
                    }
                    if q == 0 || q == size - 1 {
                    } else if positive {
                        assert(order[q] == x);
                    } else {
                        assert(order@[q] != order@[0]);
                        assert(order@[q] != order@[size - 1]);
                    }
                } else {
                    if x == first || x == last {
                        assert(has(front@, order[0] as int));
                        assert(has(front@, order[size - 1] as int));
                    }
                    if exists|q: int| 1 <= q < i && #[trigger] order[q] == x {
                        let q = choose|q: int| 1 <= q < i && #[trigger] order[q] == x;
                        assert(has(front@, order[q] as int));
                    }
                }
            }
        }
        m += 1;
    }
}

} // verus!
