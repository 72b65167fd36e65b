//! Choosing between solutions: the tournament of two and the survivors of a
//! generation.
use vstd::prelude::*;
use crate::arithmetic::{binary, precedes, Arithmetic};
use crate::metaheuristic::crowding::{
    calculate_crowding_distance, crowded, crowding_after, same_but_crowding,
};
use crate::metaheuristic::dominance::{
    evaluated, front_of, graded, has, laid_out, levels, non_dominated_sort, ranked, relation,
};
use crate::metaheuristic::objects::Solution;
use crate::metaheuristic::sorting::{by_objective, column, lemma_sort_by, sort_by};
use crate::random::random_below;

verus! {

/// The winner of a tournament between the members `a` and `b`: the one of
/// lower rank; at equal rank `a` if its crowding distance is the greater,
/// else `b`.
pub open spec fn winner<P, L: Fn(&P, &P) -> bool>(
    less: L,
    population: Seq<Solution<P>>,
    a: int,
    b: int,
) -> int {
    if population[a].rank < population[b].rank {
        a
    } else if population[b].rank < population[a].rank {
        b
    } else if precedes(less, population[b].crowding_distance, population[a].crowding_distance) {
        a
    } else {
        b
    }
}

/// Decides a tournament between two members.
pub fn select<P, L: Fn(&P, &P) -> bool>(
    less: &L,
    population: &Vec<Solution<P>>,
    a: usize,
    b: usize,
) -> (chosen: usize)
    requires
        binary::<P, bool, L>(*less),
        a < population.len(),
        b < population.len(),
    ensures
        chosen == winner(*less, population@, a as int, b as int),
{
    if population[a].rank < population[b].rank {
        a
    } else if population[b].rank < population[a].rank {
        b
    } else if less(&population[b].crowding_distance, &population[a].crowding_distance) {
        a
    } else {
        b
    }
}

/// Draws two members at random and returns the winner of their tournament.
pub fn tournament_selection<P, L: Fn(&P, &P) -> bool>(
    less: &L,
    population: &Vec<Solution<P>>,
) -> (chosen: usize)
    requires
        binary::<P, bool, L>(*less),
        population.len() > 0,
    ensures
        chosen < population.len(),
        exists|a: int, b: int|
            0 <= a < population.len() && 0 <= b < population.len() && chosen == winner(
                *less,
                population@,
                a,
                b,
            ),
{
    let a = random_below(population.len());
    let b = random_below(population.len());
    let chosen = select(less, population, a, b);
    assert(chosen == winner(*less, population@, a as int, b as int));
    chosen
}

/// The crowding distances depend on the population through its objectives
/// alone.
pub proof fn lemma_crowding_reads_objectives<P, A, S, D, L, C>(
    ops: &Arithmetic<P, A, S, D, L, C>,
    one: Seq<Solution<P>>,
    other: Seq<Solution<P>>,
    front: Seq<usize>,
    m: int,
    x: int,
) where
    A: Fn(&P, &P) -> P,
    S: Fn(&P, &P) -> P,
    D: Fn(&P, &P) -> P,
    L: Fn(&P, &P) -> bool,
    C: Fn(i64) -> P,

    requires
        one.len() == other.len(),
        forall|i: int| 0 <= i < one.len() ==> (#[trigger] one[i]).objectives == other[i].objectives,
        forall|q: int| 0 <= q < front.len() ==> #[trigger] front[q] < one.len(),
        has(front, x),
    ensures
        crowding_after(ops, one, front, m, x) == crowding_after(ops, other, front, m, x),
    decreases m,
{
    if m > 0 {
        lemma_crowding_reads_objectives(ops, one, other, front, m - 1, x);
        assert(column(one, m - 1) =~= column(other, m - 1));
        let before = by_objective(ops.less, one, m - 1);
        let order = sort_by(before, front);
        lemma_sort_by(before, front);
        assert forall|q: int| 0 <= q < order.len() implies #[trigger] order[q] < one.len() by {
            assert(order.contains(order[q]));
            assert(front.contains(order[q]));
            let t = choose|t: int| 0 <= t < front.len() && front[t] == order[q];
            assert(front[t] < one.len());
        }
        let t = choose|t: int| 0 <= t < front.len() && t < front.len() && #[trigger] front[t] == x;
        assert(front.contains(front[t]));
        assert(order.contains(front[t]));
        let q0 = choose|q: int| 0 <= q < order.len() && order[q] == front[t];
        assert(order[q0] == x);
        let q = crate::metaheuristic::crowding::place(order, x);
        assert(0 <= q < order.len());
        assert(one[order[0] as int].objectives == other[order[0] as int].objectives);
        assert(one[order.last() as int].objectives == other[order.last() as int].objectives);
        if 0 < q < order.len() - 1 {
            assert(one[order[q + 1] as int].objectives == other[order[q + 1] as int].objectives);
            assert(one[order[q - 1] as int].objectives == other[order[q - 1] as int].objectives);
        }
    }
}

/// Whether `after` is `before` sorted into `fronts` and made ready for
/// selection: a member of a front has the number of the front as its rank
/// and the crowding distance that it has within the front; a member of no
/// front keeps both.
pub open spec fn prepared<P, A, S, D, L, C>(
    ops: &Arithmetic<P, A, S, D, L, C>,
    before: Seq<Solution<P>>,
    after: Seq<Solution<P>>,
    fronts: Seq<Vec<usize>>,
    n: int,
) -> bool where
    A: Fn(&P, &P) -> P,
    S: Fn(&P, &P) -> P,
    D: Fn(&P, &P) -> P,
    L: Fn(&P, &P) -> bool,
    C: Fn(i64) -> P,
 {
    &&& graded(
        relation(ops.less, before, n),
        before.len() as int,
        fronts,
        levels(fronts, before.len() as int),
    )
    &&& after.len() == before.len()
    &&& forall|x: int|
        0 <= x < before.len() ==> (#[trigger] after[x]).variables == before[x].variables
            && after[x].objectives == before[x].objectives && after[x].rank == if front_of(
            fronts,
            x,
        ) >= 0 {
            front_of(fronts, x)
        } else {
            before[x].rank as int
        }
    &&& forall|x: int|
        0 <= x < before.len() ==> (#[trigger] after[x]).crowding_distance == if front_of(fronts, x)
            >= 0 {
            if fronts[front_of(fronts, x)].len() <= 2 {
                ops.infinity
            } else {
                crowding_after(ops, before, fronts[front_of(fronts, x)]@, n, x)
            }
        } else {
            before[x].crowding_distance
        }
}

proof fn lemma_prepared<P, A, S, D, L, C>(
    ops: &Arithmetic<P, A, S, D, L, C>,
    start: Seq<Solution<P>>,
    sorted: Seq<Solution<P>>,
    last: Seq<Solution<P>>,
    fronts: Seq<Vec<usize>>,
    n: int,
) where
    A: Fn(&P, &P) -> P,
    S: Fn(&P, &P) -> P,
    D: Fn(&P, &P) -> P,
    L: Fn(&P, &P) -> bool,
    C: Fn(i64) -> P,

    requires
        graded(
            relation(ops.less, start, n),
            start.len() as int,
            fronts,
            levels(fronts, start.len() as int),
        ),
        ranked(start, sorted, levels(fronts, start.len() as int)),
        same_but_crowding(sorted, last),
        forall|x: int|
            0 <= x < start.len() ==> (#[trigger] last[x]).crowding_distance == if 0 <= levels(
                fronts,
                start.len() as int,
            )[x] < fronts.len() {
                if fronts[levels(fronts, start.len() as int)[x]].len() <= 2 {
                    ops.infinity
                } else {
                    crowding_after(ops, start, fronts[levels(fronts, start.len() as int)[x]]@, n, x)
                }
            } else {
                start[x].crowding_distance
            },
    ensures
        prepared(ops, start, last, fronts, n),
{
    let level = levels(fronts, start.len() as int);
    assert forall|x: int| 0 <= x < start.len() implies (#[trigger] last[x]).variables
        == start[x].variables && last[x].objectives == start[x].objectives && last[x].rank
        == if front_of(fronts, x) >= 0 {
        front_of(fronts, x)
    } else {
        start[x].rank as int
    } by {
        assert(last[x].rank == sorted[x].rank);
        assert(sorted[x].same_but_rank(start[x]));
        assert(level[x] == front_of(fronts, x));
    }
    assert forall|x: int| 0 <= x < start.len() implies (#[trigger] last[x]).crowding_distance
        == if front_of(fronts, x) >= 0 {
        if fronts[front_of(fronts, x)].len() <= 2 {
            ops.infinity
        } else {
            crowding_after(ops, start, fronts[front_of(fronts, x)]@, n, x)
        }
    } else {
        start[x].crowding_distance
    } by {
        assert(level[x] == front_of(fronts, x));
    }
}

proof fn lemma_front_step<P, A, S, D, L, C>(
    ops: &Arithmetic<P, A, S, D, L, C>,
    start: Seq<Solution<P>>,
    sorted: Seq<Solution<P>>,
    earlier: Seq<Solution<P>>,
    later: Seq<Solution<P>>,
    fronts: Seq<Vec<usize>>,
    level: Seq<int>,
    k: int,
    m: int,
) where
    A: Fn(&P, &P) -> P,
    S: Fn(&P, &P) -> P,
    D: Fn(&P, &P) -> P,
    L: Fn(&P, &P) -> bool,
    C: Fn(i64) -> P,

    requires
        laid_out(start.len() as int, fronts, level),
        0 <= k < fronts.len(),
        ranked(start, sorted, level),
        same_but_crowding(sorted, earlier),
        crowded(ops, earlier, later, fronts[k]@, m),
        forall|x: int|
            0 <= x < start.len() ==> (#[trigger] earlier[x]).crowding_distance == if 0 <= level[x]
                < k {
                if fronts[level[x]].len() <= 2 {
                    ops.infinity
                } else {
                    crowding_after(ops, start, fronts[level[x]]@, m, x)
                }
            } else {
                start[x].crowding_distance
            },
    ensures
        same_but_crowding(sorted, later),
        forall|x: int|
            0 <= x < start.len() ==> (#[trigger] later[x]).crowding_distance == if 0 <= level[x] < k
                + 1 {
                if fronts[level[x]].len() <= 2 {
                    ops.infinity
                } else {
                    crowding_after(ops, start, fronts[level[x]]@, m, x)
                }
            } else {
                start[x].crowding_distance
            },
{
    let n = start.len() as int;
    let front = fronts[k];
    assert forall|i: int| 0 <= i < earlier.len() implies (#[trigger] earlier[i]).objectives
        == start[i].objectives by {
        assert(earlier[i].objectives == sorted[i].objectives);
        assert(sorted[i].same_but_rank(start[i]));
    }
    assert forall|q: int| 0 <= q < front@.len() implies #[trigger] front@[q] < earlier.len() by {
        assert(fronts[k]@[q] < n);
    }
    assert forall|x: int| 0 <= x < n implies (#[trigger] later[x]).crowding_distance == if 0
        <= level[x] < k + 1 {
        if fronts[level[x]].len() <= 2 {
            ops.infinity
        } else {
            crowding_after(ops, start, fronts[level[x]]@, m, x)
        }
    } else {
        start[x].crowding_distance
    } by {
        if has(front@, x) {
            let t = choose|t: int|
                0 <= t < front@.len() && t < front@.len() && #[trigger] front@[t] == x;
            assert(fronts[k]@[t] == x);
            assert(level[x] == k);
            if front.len() > 2 {
                lemma_crowding_reads_objectives(ops, earlier, start, front@, m, x);
            }
        } else {
            if level[x] == k {
                assert(has(fronts[level[x]]@, x));
            }
        }
    }
}

proof fn lemma_front_ready<P>(
    start: Seq<Solution<P>>,
    sorted: Seq<Solution<P>>,
    current: Seq<Solution<P>>,
    fronts: Seq<Vec<usize>>,
    level: Seq<int>,
    k: int,
    m: int,
)
    requires
        laid_out(start.len() as int, fronts, level),
        0 <= k < fronts.len(),
        evaluated(start, m),
        ranked(start, sorted, level),
        same_but_crowding(sorted, current),
    ensures
        fronts[k]@.no_duplicates(),
        forall|q: int|
            0 <= q < fronts[k].len() ==> #[trigger] fronts[k]@[q] < current.len()
                && current[fronts[k]@[q] as int].objectives.len() >= m,
{
    let front = fronts[k];
    assert forall|pa: int, pb: int|
        0 <= pa < front@.len() && 0 <= pb < front@.len() && pa != pb implies front@[pa]
        != front@[pb] by {
        if pa < pb {
            assert(fronts[k]@[pa] != fronts[k]@[pb]);
        } else {
            assert(fronts[k]@[pb] != fronts[k]@[pa]);
        }
    }
    assert forall|q: int| 0 <= q < front.len() implies #[trigger] front@[q] < current.len()
        && current[front@[q] as int].objectives.len() >= m by {
        assert(fronts[k]@[q] < start.len());
        let x = front@[q] as int;
        assert(current[x].objectives == sorted[x].objectives);
        assert(sorted[x].same_but_rank(start[x]));
    }
}

/// Sorts a population into fronts, ranks it and sets the crowding distances
/// front by front.
pub fn prepare<P: Copy, A, S, D, L, C>(
    ops: &Arithmetic<P, A, S, D, L, C>,
    population: &mut Vec<Solution<P>>,
    num_objectives: usize,
) -> (fronts: Vec<Vec<usize>>) where
    A: Fn(&P, &P) -> P,
    S: Fn(&P, &P) -> P,
    D: Fn(&P, &P) -> P,
    L: Fn(&P, &P) -> bool,
    C: Fn(i64) -> P,

    requires
        ops.wf(),
        evaluated(old(population)@, num_objectives as int),
    ensures
        prepared(ops, old(population)@, final(population)@, fronts@, num_objectives as int),
{
    let ghost start = population@;
    let ghost n = start.len() as int;
    let fronts = non_dominated_sort(&ops.less, population, num_objectives);
    let ghost level = levels(fronts@, n);
    let ghost sorted = population@;
    let mut k: usize = 0;
    while k < fronts.len()
        invariant
            ops.wf(),
            n == start.len(),
            level == levels(fronts@, n),
            evaluated(start, num_objectives as int),
            laid_out(n, fronts@, level),
            k <= fronts.len(),
            population.len() == n,
            ranked(start, sorted, level),
            same_but_crowding(sorted, population@),
            forall|x: int|
                0 <= x < n ==> (#[trigger] population[x]).crowding_distance == if 0 <= level[x] < k {
                    if fronts[level[x]].len() <= 2 {
                        ops.infinity
                    } else {
                        crowding_after(ops, start, fronts[level[x]]@, num_objectives as int, x)
                    }
                } else {
                    start[x].crowding_distance
                },
        decreases fronts.len() - k,
    {
        let ghost earlier = population@;
        proof {
            lemma_front_ready(
                start,
                sorted,
                population@,
                fronts@,
                level,
                k as int,
                num_objectives as int,
            );
        }
        calculate_crowding_distance(ops, population, &fronts[k], num_objectives);
        proof {
            lemma_front_step(
                ops,
                start,
                sorted,
                earlier,
                population@,
                fronts@,
                level,
                k as int,
                num_objectives as int,
            );
        }
        k += 1;
    }
    proof {
        lemma_prepared(ops, start, sorted, population@, fronts@, num_objectives as int);
    }
    fronts
}

} // verus!
