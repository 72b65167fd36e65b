//! Multi-objective descent: one solution walks to random neighbours, and an
//! archive keeps the solutions met that no other one dominates.
use vstd::prelude::*;
use vstd::string::*;
use crate::arithmetic::Arithmetic;
use crate::metaheuristic::dominance::{dominates, dominates_spec, evaluated, lemma_dominance_asymmetric};
use crate::metaheuristic::nsga2::Setting;
use crate::metaheuristic::objects::{Solution, Variable, VariableDefinition};
use crate::metaheuristic::sorting::{
    by_distance, by_value, lemma_sort_by, sort_by, sort_solutions, Order,
};
use crate::metaheuristic::variation::{
    all_within, between, clamped, copy_solution, fitting, random_variables, sampled, valid, within,
};
use crate::random::{random_below, random_between};

verus! {

/// The parameters of the descent.
#[derive(Clone, Debug)]
pub struct MultiObjectiveDescent<P> {
    pub step_size: P,
    pub variable_definitions: Vec<VariableDefinition<P>>,
    pub max_iterations_without_improvement: usize,
    pub archive_size: usize,
    pub num_objectives: usize,
}

/// Whether two solutions have the same variables, objectives and rank.
pub open spec fn akin<P>(a: Solution<P>, b: Solution<P>) -> bool {
    a.variables == b.variables && a.objectives == b.objectives && a.rank == b.rank
}

/// Whether a solution is akin to one of `archive`.
pub open spec fn matched<P>(solution: Solution<P>, archive: Seq<Solution<P>>) -> bool {
    exists|i: int| 0 <= i < archive.len() && akin(solution, #[trigger] archive[i])
}

/// Whether every solution of `later` is akin to one of `earlier`.
pub open spec fn drawn_from<P>(later: Seq<Solution<P>>, earlier: Seq<Solution<P>>) -> bool {
    forall|k: int| 0 <= k < later.len() ==> matched(#[trigger] later[k], earlier)
}

/// Whether no solution of the archive dominates another.
pub open spec fn antichain<P, L: Fn(&P, &P) -> bool>(
    less: L,
    archive: Seq<Solution<P>>,
    n: int,
) -> bool {
    forall|i: int, j: int|
        0 <= i < archive.len() && 0 <= j < archive.len() ==> !dominates_spec(
            less,
            (#[trigger] archive[i]).objectives@,
            (#[trigger] archive[j]).objectives@,
            n,
        )
}

/// A solution with another crowding distance.
pub open spec fn with_distance<P>(solution: Solution<P>, distance: P) -> Solution<P> {
    Solution {
        variables: solution.variables,
        objectives: solution.objectives,
        crowding_distance: distance,
        rank: solution.rank,
    }
}

/// The solutions, all with the same crowding distance.
pub open spec fn levelled<P>(archive: Seq<Solution<P>>, distance: P) -> Seq<Solution<P>> {
    Seq::new(archive.len(), |i: int| with_distance(archive[i], distance))
}

/// Solutions that are sorted by the objective `m`, with that objective taken
/// into their crowding distances: the first and the last get infinity; any
/// other one gets, where the last value is greater than the first, the
/// difference between its two neighbours' values, divided by the difference
/// between the last and the first, added to what it had.
pub open spec fn edged<P, A, S, D, L, C>(
    ops: &Arithmetic<P, A, S, D, L, C>,
    sorted: Seq<Solution<P>>,
    m: int,
) -> Seq<Solution<P>> where
    A: Fn(&P, &P) -> P,
    S: Fn(&P, &P) -> P,
    D: Fn(&P, &P) -> P,
    L: Fn(&P, &P) -> bool,
    C: Fn(i64) -> P,
 {
    let scale = ops.difference(sorted.last().objectives@[m], sorted[0].objectives@[m]);
    Seq::new(
        sorted.len(),
        |i: int|
            if i == 0 || i == sorted.len() - 1 {
                with_distance(sorted[i], ops.infinity)
            } else if ops.lt(ops.number(0), scale) {
                with_distance(
                    sorted[i],
                    ops.sum(
                        sorted[i].crowding_distance,
                        ops.quotient(
                            ops.difference(
                                sorted[i + 1].objectives@[m],
                                sorted[i - 1].objectives@[m],
                            ),
                            scale,
                        ),
                    ),
                )
            } else {
                sorted[i]
            },
    )
}

/// The archive after the first `m` objectives have been taken into the
/// crowding distances, one after the other: each time the archive is sorted
/// by the objective and the distances are updated.
pub open spec fn spread<P, A, S, D, L, C>(
    ops: &Arithmetic<P, A, S, D, L, C>,
    archive: Seq<Solution<P>>,
    m: int,
) -> Seq<Solution<P>> where
    A: Fn(&P, &P) -> P,
    S: Fn(&P, &P) -> P,
    D: Fn(&P, &P) -> P,
    L: Fn(&P, &P) -> bool,
    C: Fn(i64) -> P,

    decreases m,
{
    if m <= 0 {
        archive
    } else {
        edged(
            ops,
            sort_by(by_value(ops.less, m - 1), spread(ops, archive, m - 1)),
            m - 1,
        )
    }
}

/// The archive with its crowding distances set from the first `n`
/// objectives: infinity throughout an archive of at most two solutions.
pub open spec fn distanced<P, A, S, D, L, C>(
    ops: &Arithmetic<P, A, S, D, L, C>,
    archive: Seq<Solution<P>>,
    n: int,
) -> Seq<Solution<P>> where
    A: Fn(&P, &P) -> P,
    S: Fn(&P, &P) -> P,
    D: Fn(&P, &P) -> P,
    L: Fn(&P, &P) -> bool,
    C: Fn(i64) -> P,
 {
    if archive.len() <= 2 {
        levelled(archive, ops.infinity)
    } else {
        spread(ops, levelled(archive, ops.number(0)), n)
    }
}

/// The archive cut down to `size` solutions where it has more: those of the
/// greatest crowding distance are kept.
pub open spec fn trimmed<P, A, S, D, L, C>(
    ops: &Arithmetic<P, A, S, D, L, C>,
    archive: Seq<Solution<P>>,
    size: int,
    n: int,
) -> Seq<Solution<P>> where
    A: Fn(&P, &P) -> P,
    S: Fn(&P, &P) -> P,
    D: Fn(&P, &P) -> P,
    L: Fn(&P, &P) -> bool,
    C: Fn(i64) -> P,
 {
    if archive.len() > size {
        sort_by(by_distance(ops.less), distanced(ops, archive, n)).take(size)
    } else {
        archive
    }
}

/// Being akin carries over a chain of two steps.
pub proof fn lemma_drawn_chain<P>(
    last: Seq<Solution<P>>,
    middle: Seq<Solution<P>>,
    first: Seq<Solution<P>>,
)
    requires
        drawn_from(last, middle),
        drawn_from(middle, first),
    ensures
        drawn_from(last, first),
{
    assert forall|k: int| 0 <= k < last.len() implies matched(#[trigger] last[k], first) by {
        assert(matched(last[k], middle));
        let j = choose|j: int| 0 <= j < middle.len() && akin(last[k], #[trigger] middle[j]);
        assert(matched(middle[j], first));
        let i = choose|i: int| 0 <= i < first.len() && akin(middle[j], #[trigger] first[i]);
        assert(akin(last[k], first[i]));
    }
}

/// Solutions that are akin position by position are drawn from one another.
pub proof fn lemma_drawn_pointwise<P>(later: Seq<Solution<P>>, earlier: Seq<Solution<P>>)
    requires
        later.len() <= earlier.len(),
        forall|k: int| 0 <= k < later.len() ==> akin(#[trigger] later[k], earlier[k]),
    ensures
        drawn_from(later, earlier),
{
    assert forall|k: int| 0 <= k < later.len() implies matched(#[trigger] later[k], earlier) by {
        assert(akin(later[k], earlier[k]));
    }
}

/// Sorting draws from what it sorts.
pub proof fn lemma_sorted_drawn<P>(
    before: spec_fn(Solution<P>, Solution<P>) -> bool,
    archive: Seq<Solution<P>>,
)
    ensures
        drawn_from(sort_by(before, archive), archive),
        sort_by(before, archive).len() == archive.len(),
{
    lemma_sort_by(before, archive);
    let sorted = sort_by(before, archive);
    assert forall|k: int| 0 <= k < sorted.len() implies matched(#[trigger] sorted[k], archive) by {
        assert(sorted.contains(sorted[k]));
        assert(archive.contains(sorted[k]));
        let i = choose|i: int| 0 <= i < archive.len() && archive[i] == sorted[k];
        assert(akin(sorted[k], archive[i]));
    }
}

/// Setting the crowding distances keeps the solutions: each is akin to one of
/// the archive, and there are as many.
pub proof fn lemma_spread_drawn<P, A, S, D, L, C>(
    ops: &Arithmetic<P, A, S, D, L, C>,
    archive: Seq<Solution<P>>,
    m: int,
) where
    A: Fn(&P, &P) -> P,
    S: Fn(&P, &P) -> P,
    D: Fn(&P, &P) -> P,
    L: Fn(&P, &P) -> bool,
    C: Fn(i64) -> P,

    ensures
        drawn_from(spread(ops, archive, m), archive),
        spread(ops, archive, m).len() == archive.len(),
    decreases m,
{
    if m <= 0 {
        lemma_drawn_pointwise(archive, archive);
    } else {
        let earlier = spread(ops, archive, m - 1);
        lemma_spread_drawn(ops, archive, m - 1);
        let before = by_value(ops.less, m - 1);
        let sorted = sort_by(before, earlier);
        lemma_sorted_drawn(before, earlier);
        let last = edged(ops, sorted, m - 1);
        lemma_drawn_pointwise(last, sorted);
        lemma_drawn_chain(last, sorted, earlier);
        lemma_drawn_chain(last, earlier, archive);
    }
}

/// Trimming keeps at most `size` solutions where there were more, each akin
/// to one of the archive.
pub proof fn lemma_trimmed_drawn<P, A, S, D, L, C>(
    ops: &Arithmetic<P, A, S, D, L, C>,
    archive: Seq<Solution<P>>,
    size: int,
    n: int,
) where
    A: Fn(&P, &P) -> P,
    S: Fn(&P, &P) -> P,
    D: Fn(&P, &P) -> P,
    L: Fn(&P, &P) -> bool,
    C: Fn(i64) -> P,

    requires
        size >= 0,
    ensures
        drawn_from(trimmed(ops, archive, size, n), archive),
        trimmed(ops, archive, size, n).len() == if archive.len() > size {
            size
        } else {
            archive.len() as int
        },
{
    if archive.len() > size {
        let set = distanced(ops, archive, n);
        if archive.len() <= 2 {
            lemma_drawn_pointwise(set, archive);
        } else {
            let zeroed = levelled(archive, ops.number(0));
            lemma_spread_drawn(ops, zeroed, n);
            lemma_drawn_pointwise(zeroed, archive);
            lemma_drawn_chain(set, zeroed, archive);
        }
        let before = by_distance(ops.less);
        let sorted = sort_by(before, set);
        lemma_sorted_drawn(before, set);
        let cut = sorted.take(size);
        lemma_drawn_pointwise(cut, sorted);
        lemma_drawn_chain(cut, sorted, set);
        lemma_drawn_chain(cut, set, archive);
    } else {
        lemma_drawn_pointwise(archive, archive);
    }
}

/// Solutions drawn from an archive in which none dominates another do not
/// dominate one another either.
pub proof fn lemma_drawn_antichain<P, L: Fn(&P, &P) -> bool>(
    less: L,
    later: Seq<Solution<P>>,
    earlier: Seq<Solution<P>>,
    n: int,
)
    requires
        drawn_from(later, earlier),
        antichain(less, earlier, n),
    ensures
        antichain(less, later, n),
{
    assert forall|i: int, j: int| 0 <= i < later.len() && 0 <= j < later.len() implies !dominates_spec(
        less,
        (#[trigger] later[i]).objectives@,
        (#[trigger] later[j]).objectives@,
        n,
    ) by {
        assert(matched(later[i], earlier));
        assert(matched(later[j], earlier));
        let a = choose|a: int| 0 <= a < earlier.len() && akin(later[i], #[trigger] earlier[a]);
        let b = choose|b: int| 0 <= b < earlier.len() && akin(later[j], #[trigger] earlier[b]);
        assert(!dominates_spec(less, earlier[a].objectives@, earlier[b].objectives@, n));
    }
}

/// The solutions of an archive that a newcomer does not dominate.
pub open spec fn undominated<P, L: Fn(&P, &P) -> bool>(
    less: L,
    archive: Seq<Solution<P>>,
    newcomer: Solution<P>,
    n: int,
) -> Seq<Solution<P>> {
    archive.filter(
        |member: Solution<P>| !dominates_spec(less, newcomer.objectives@, member.objectives@, n),
    )
}

/// Whether a member of the archive dominates the newcomer.
pub open spec fn beaten<P, L: Fn(&P, &P) -> bool>(
    less: L,
    archive: Seq<Solution<P>>,
    newcomer: Solution<P>,
    n: int,
) -> bool {
    exists|i: int|
        0 <= i < archive.len() && dominates_spec(
            less,
            (#[trigger] archive[i]).objectives@,
            newcomer.objectives@,
            n,
        )
}

/// The archive after a newcomer was offered to it. A newcomer that a member
/// dominates is turned away. Any other one joins: the members that it
/// dominates leave, and the archive is trimmed where it has grown beyond
/// `size`.
pub open spec fn admitted<P, A, S, D, L, C>(
    ops: &Arithmetic<P, A, S, D, L, C>,
    archive: Seq<Solution<P>>,
    newcomer: Solution<P>,
    size: int,
    n: int,
) -> Seq<Solution<P>> where
    A: Fn(&P, &P) -> P,
    S: Fn(&P, &P) -> P,
    D: Fn(&P, &P) -> P,
    L: Fn(&P, &P) -> bool,
    C: Fn(i64) -> P,
 {
    if beaten(ops.less, archive, newcomer, n) {
        archive
    } else {
        trimmed(ops, undominated(ops.less, archive, newcomer, n).push(newcomer), size, n)
    }
}

/// Sets the crowding distances of an archive from the first
/// `num_objectives` objectives. The archive is left in the order of the last
/// objective.
pub fn crowd_archive<P: Copy, A, S, D, L, C>(
    ops: &Arithmetic<P, A, S, D, L, C>,
    solutions: &mut Vec<Solution<P>>,
    num_objectives: usize,
) where
    A: Fn(&P, &P) -> P,
    S: Fn(&P, &P) -> P,
    D: Fn(&P, &P) -> P,
    L: Fn(&P, &P) -> bool,
    C: Fn(i64) -> P,

    requires
        ops.wf(),
        evaluated(old(solutions)@, num_objectives as int),
    ensures
        final(solutions)@ == distanced(ops, old(solutions)@, num_objectives as int),
{
    let ghost start = solutions@;
    let n = solutions.len();
    let zero = ops.count(0);
    let first = if n <= 2 {
        ops.infinity
    } else {
        zero
    };
    let mut k: usize = 0;
    while k < n
        invariant
            n == start.len(),
            solutions.len() == n,
            k <= n,
            forall|i: int| 0 <= i < k ==> #[trigger] solutions[i] == with_distance(start[i], first),
            forall|i: int| k <= i < n ==> #[trigger] solutions[i] == start[i],
        decreases n - k,
    {
        solutions[k].crowding_distance = first;
        k += 1;
    }
    assert(solutions@ =~= levelled(start, first));
    if n <= 2 {
        return ;
    }
    let ghost zeroed = solutions@;
    let mut m: usize = 0;
    while m < num_objectives
        invariant
            ops.wf(),
            n == start.len(),
            n > 2,
            solutions.len() == n,
            m <= num_objectives,
            zero == ops.number(0),
            zeroed == levelled(start, ops.number(0)),
            evaluated(start, num_objectives as int),
            solutions@ == spread(ops, zeroed, m as int),
        decreases num_objectives - m,
    {
        let ghost earlier = solutions@;
        proof {
            lemma_spread_drawn(ops, zeroed, m as int);
            lemma_drawn_pointwise(zeroed, start);
            lemma_drawn_chain(earlier, zeroed, start);
            lemma_drawn_evaluated(earlier, start, num_objectives as int);
        }
        sort_solutions(&ops.less, Order::Objective(m), solutions);
        let ghost sorted = solutions@;
        proof {
            lemma_sorted_drawn(by_value(ops.less, m as int), earlier);
            lemma_drawn_evaluated(sorted, earlier, num_objectives as int);
        }
        let scale = ops.minus(&solutions[n - 1].objectives[m], &solutions[0].objectives[m]);
        solutions[0].crowding_distance = ops.infinity;
        solutions[n - 1].crowding_distance = ops.infinity;
        let positive = ops.below(&zero, &scale);
        let ghost target = edged(ops, sorted, m as int);
        let mut i: usize = 1;
        while positive && i < n - 1
            invariant
                ops.wf(),
                n == sorted.len(),
                n > 2,
                solutions.len() == n,
                1 <= i <= n - 1,
                m < num_objectives,
                evaluated(sorted, num_objectives as int),
                target == edged(ops, sorted, m as int),
                scale == ops.difference(
                    sorted.last().objectives@[m as int],
                    sorted[0].objectives@[m as int],
                ),
                positive == ops.lt(ops.number(0), scale),
                forall|k: int| 0 <= k < i || k == n - 1 ==> #[trigger] solutions[k] == target[k],
                forall|k: int| i <= k < n - 1 ==> #[trigger] solutions[k] == sorted[k],
            decreases n - 1 - i,
        {
            assert(solutions[i + 1].objectives == sorted[i + 1].objectives);
            assert(solutions[i - 1].objectives == sorted[i - 1].objectives);
            let gap = ops.minus(&solutions[i + 1].objectives[m], &solutions[i - 1].objectives[m]);
            let share = ops.over(&gap, &scale);
            let value = ops.plus(&solutions[i].crowding_distance, &share);
            solutions[i].crowding_distance = value;
            i += 1;
        }
        assert(solutions@ =~= target);
        m += 1;
    }
}

/// Solutions drawn from evaluated ones are evaluated.
pub proof fn lemma_drawn_evaluated<P>(later: Seq<Solution<P>>, earlier: Seq<Solution<P>>, n: int)
    requires
        drawn_from(later, earlier),
        evaluated(earlier, n),
    ensures
        evaluated(later, n),
{
    assert forall|k: int| 0 <= k < later.len() implies (#[trigger] later[k]).objectives.len()
        >= n by {
        assert(matched(later[k], earlier));
        let i = choose|i: int| 0 <= i < earlier.len() && akin(later[k], #[trigger] earlier[i]);
        assert(earlier[i].objectives.len() >= n);
    }
}

/// Cuts an archive down to `size` solutions: those of the greatest crowding
/// distance are kept.
pub fn trim_archive<P: Copy, A, S, D, L, C>(
    ops: &Arithmetic<P, A, S, D, L, C>,
    archive: &mut Vec<Solution<P>>,
    size: usize,
    num_objectives: usize,
) where
    A: Fn(&P, &P) -> P,
    S: Fn(&P, &P) -> P,
    D: Fn(&P, &P) -> P,
    L: Fn(&P, &P) -> bool,
    C: Fn(i64) -> P,

    requires
        ops.wf(),
        evaluated(old(archive)@, num_objectives as int),
        old(archive).len() > size,
    ensures
        final(archive)@ == trimmed(ops, old(archive)@, size as int, num_objectives as int),
{
    crowd_archive(ops, archive, num_objectives);
    sort_solutions(&ops.less, Order::Crowding, archive);
    proof {
        lemma_sort_by(
            by_distance(ops.less),
            distanced(ops, old(archive)@, num_objectives as int),
        );
        lemma_trimmed_drawn(ops, old(archive)@, size as int, num_objectives as int);
        if old(archive).len() > 2 {
            lemma_spread_drawn(
                ops,
                levelled(old(archive)@, ops.number(0)),
                num_objectives as int,
            );
        }
    }
    archive.truncate(size);
}

/// Offers a solution to the archive.
pub fn update_archive<P: Copy, A, S, D, L, C>(
    ops: &Arithmetic<P, A, S, D, L, C>,
    archive: &mut Vec<Solution<P>>,
    new_solution: Solution<P>,
    archive_size: usize,
    num_objectives: usize,
) where
    A: Fn(&P, &P) -> P,
    S: Fn(&P, &P) -> P,
    D: Fn(&P, &P) -> P,
    L: Fn(&P, &P) -> bool,
    C: Fn(i64) -> P,

    requires
        ops.wf(),
        evaluated(old(archive)@, num_objectives as int),
        new_solution.objectives.len() >= num_objectives,
    ensures
        final(archive)@ == admitted(
            ops,
            old(archive)@,
            new_solution,
            archive_size as int,
            num_objectives as int,
        ),
{
    let ghost start = archive@;
    let ghost n = num_objectives as int;
    let ghost keep = |member: Solution<P>|
        !dominates_spec(ops.less, new_solution.objectives@, member.objectives@, n);
    let mut i: usize = 0;
    while i < archive.len()
        invariant
            ops.wf(),
            archive@ == start,
            evaluated(start, n),
            new_solution.objectives.len() >= num_objectives,
            n == num_objectives,
            i <= archive.len(),
            forall|k: int|
                0 <= k < i ==> !dominates_spec(
                    ops.less,
                    (#[trigger] start[k]).objectives@,
                    new_solution.objectives@,
                    n,
                ),
        decreases archive.len() - i,
    {
        if dominates(&ops.less, &archive[i], &new_solution, num_objectives) {
            assert(beaten(ops.less, start, new_solution, n));
            return ;
        }
        i += 1;
    }
    assert(!beaten(ops.less, start, new_solution, n));
    let mut j: usize = 0;
    let ghost mut seen: int = 0;
    while j < archive.len()
        invariant
            ops.wf(),
            evaluated(start, n),
            new_solution.objectives.len() >= num_objectives,
            n == num_objectives,
            keep == |member: Solution<P>|
                !dominates_spec(ops.less, new_solution.objectives@, member.objectives@, n),
            0 <= seen <= start.len(),
            j <= archive.len(),
            archive.len() - j == start.len() - seen,
            archive@ == start.subrange(0, seen).filter(keep) + start.subrange(
                seen,
                start.len() as int,
            ),
            j == start.subrange(0, seen).filter(keep).len(),
        decreases archive.len() - j,
    {
        let ghost prefix = start.subrange(0, seen).filter(keep);
        assert(archive@[j as int] == start[seen]);
        proof {
            reveal(Seq::filter);
            assert(start.subrange(0, seen + 1).drop_last() =~= start.subrange(0, seen));
            assert(start.subrange(0, seen + 1).last() == start[seen]);
        }
        if dominates(&ops.less, &new_solution, &archive[j], num_objectives) {
            archive.remove(j);
            proof {
                assert(!keep(start[seen]));
                assert(start.subrange(0, seen + 1).filter(keep) == prefix);
                assert(archive@ =~= prefix + start.subrange(seen + 1, start.len() as int));
            }
        } else {
            proof {
                assert(keep(start[seen]));
                assert(start.subrange(0, seen + 1).filter(keep) == prefix.push(start[seen]));
                assert(archive@ =~= prefix.push(start[seen]) + start.subrange(
                    seen + 1,
                    start.len() as int,
                ));
            }
            j += 1;
        }
        proof {
            seen = seen + 1;
        }
    }
    proof {
        assert(start.subrange(0, seen) =~= start);
        assert(archive@ =~= undominated(ops.less, start, new_solution, n));
    }
    let ghost stayed = archive@;
    archive.push(new_solution);
    if archive.len() > archive_size {
        proof {
            lemma_undominated_drawn(ops.less, start, new_solution, n);
            assert forall|k: int| 0 <= k < archive.len() implies (
            #[trigger] archive@[k]).objectives.len() >= n by {
                if k < stayed.len() {
                    assert(archive@[k] == stayed[k]);
                    lemma_drawn_evaluated(stayed, start, n);
                }
            }
        }
        trim_archive(ops, archive, archive_size, num_objectives);
    }
}

/// The members that a newcomer does not dominate are members.
pub proof fn lemma_undominated_drawn<P, L: Fn(&P, &P) -> bool>(
    less: L,
    archive: Seq<Solution<P>>,
    newcomer: Solution<P>,
    n: int,
)
    ensures
        drawn_from(undominated(less, archive, newcomer, n), archive),
        forall|k: int|
            0 <= k < undominated(less, archive, newcomer, n).len() ==> !dominates_spec(
                less,
                newcomer.objectives@,
                (#[trigger] undominated(less, archive, newcomer, n)[k]).objectives@,
                n,
            ),
    decreases archive.len(),
{
    reveal(Seq::filter);
    let keep = |member: Solution<P>|
        !dominates_spec(less, newcomer.objectives@, member.objectives@, n);
    let kept = undominated(less, archive, newcomer, n);
    if archive.len() > 0 {
        let rest = archive.drop_last();
        let inner = undominated(less, rest, newcomer, n);
        lemma_undominated_drawn(less, rest, newcomer, n);
        assert forall|k: int| 0 <= k < kept.len() implies matched(#[trigger] kept[k], archive)
            && !dominates_spec(less, newcomer.objectives@, kept[k].objectives@, n) by {
            if k < inner.len() {
                assert(kept[k] == inner[k]);
                assert(matched(inner[k], rest));
                let i = choose|i: int| 0 <= i < rest.len() && akin(inner[k], #[trigger] rest[i]);
                assert(akin(kept[k], archive[i]));
            } else {
                assert(kept[k] == archive.last());
                assert(akin(kept[k], archive[archive.len() - 1]));
            }
        }
    }
}

/// An archive in which no solution dominates another stays so when a
/// newcomer is offered to it.
pub proof fn lemma_admitted_antichain<P, A, S, D, L, C>(
    ops: &Arithmetic<P, A, S, D, L, C>,
    archive: Seq<Solution<P>>,
    newcomer: Solution<P>,
    size: int,
    n: int,
) where
    A: Fn(&P, &P) -> P,
    S: Fn(&P, &P) -> P,
    D: Fn(&P, &P) -> P,
    L: Fn(&P, &P) -> bool,
    C: Fn(i64) -> P,

    requires
        size >= 0,
        antichain(ops.less, archive, n),
    ensures
        antichain(ops.less, admitted(ops, archive, newcomer, size, n), n),
        drawn_from(admitted(ops, archive, newcomer, size, n), archive.push(newcomer)),
        admitted(ops, archive, newcomer, size, n).len() <= archive.len() + 1,
        archive.len() <= size ==> admitted(ops, archive, newcomer, size, n).len() <= size,
{
    let whole = archive.push(newcomer);
    if beaten(ops.less, archive, newcomer, n) {
        assert forall|k: int| 0 <= k < archive.len() implies matched(#[trigger] archive[k], whole) by {
            assert(akin(archive[k], whole[k]));
        }
    } else {
        let kept = undominated(ops.less, archive, newcomer, n);
        lemma_undominated_drawn(ops.less, archive, newcomer, n);
        archive.lemma_filter_len(
            |member: Solution<P>|
                !dominates_spec(ops.less, newcomer.objectives@, member.objectives@, n),
        );
        let joined = kept.push(newcomer);
        assert forall|i: int, j: int| 0 <= i < joined.len() && 0 <= j < joined.len() implies !dominates_spec(
            ops.less,
            (#[trigger] joined[i]).objectives@,
            (#[trigger] joined[j]).objectives@,
            n,
        ) by {
            lemma_dominance_asymmetric(ops.less, newcomer.objectives@, newcomer.objectives@, n);
            if i < kept.len() {
                assert(matched(kept[i], archive));
                let a = choose|a: int| 0 <= a < archive.len() && akin(kept[i], #[trigger] archive[a]);
                if j < kept.len() {
                    assert(matched(kept[j], archive));
                    let b = choose|b: int|
                        0 <= b < archive.len() && akin(kept[j], #[trigger] archive[b]);
                    assert(!dominates_spec(
                        ops.less,
                        archive[a].objectives@,
                        archive[b].objectives@,
                        n,
                    ));
                } else {
                    assert(!dominates_spec(
                        ops.less,
                        archive[a].objectives@,
                        newcomer.objectives@,
                        n,
                    ));
                }
            } else if j < kept.len() {
                assert(!dominates_spec(ops.less, newcomer.objectives@, kept[j].objectives@, n));
            }
        }
        assert forall|k: int| 0 <= k < joined.len() implies matched(#[trigger] joined[k], whole) by {
            if k < kept.len() {
                assert(matched(kept[k], archive));
                let a = choose|a: int| 0 <= a < archive.len() && akin(kept[k], #[trigger] archive[a]);
                assert(akin(joined[k], whole[a]));
            } else {
                assert(akin(joined[k], whole[archive.len() as int]));
            }
        }
        lemma_trimmed_drawn(ops, joined, size, n);
        lemma_drawn_antichain(ops.less, trimmed(ops, joined, size, n), joined, n);
        lemma_drawn_chain(trimmed(ops, joined, size, n), joined, whole);
    }
}

/// Whether the evaluator accepts every choice of variables and answers with
/// at least `n` objectives.
pub open spec fn grading<P, E: Fn(&Vec<Variable<P>>) -> Vec<P>>(evaluate: E, n: int) -> bool {
    &&& forall|variables: Vec<Variable<P>>| call_requires(evaluate, (&variables,))
    &&& forall|variables: Vec<Variable<P>>, objectives: Vec<P>|
        call_ensures(evaluate, (&variables,), objectives) ==> objectives.len() >= n
}

/// What a step may make of the variable that it moves: a number is nudged by
/// the caller's formula; an integer moves by at most the whole step, which
/// the caller rounds up from the step size, and stays within its bounds; a
/// boolean takes the opposite value.
pub open spec fn stepped<P, N, W>(
    nudge: N,
    whole: W,
    step_size: P,
    definition: VariableDefinition<P>,
    before: Variable<P>,
    after: Variable<P>,
) -> bool where N: Fn(&P, &P, &P, &P) -> P, W: Fn(&P) -> i64 {
    match (definition, before, after) {
        (VariableDefinition::Float(min, max), Variable::Float(y), Variable::Float(z)) => call_ensures(
            nudge,
            (&y, &step_size, &min, &max),
            z,
        ),
        (
            VariableDefinition::Integer(min, max),
            Variable::Integer(y),
            Variable::Integer(z),
        ) => exists|raw: i64, move_by: int|
            #![trigger call_ensures(whole, (&step_size,), raw), clamped(y + move_by, min as int, max as int)]
            call_ensures(whole, (&step_size,), raw) && (if raw < 0 {
                move_by == 0
            } else {
                -raw <= move_by <= raw
            }) && z == clamped(y + move_by, min as int, max as int),
        (VariableDefinition::Boolean, Variable::Boolean(y), Variable::Boolean(z)) => z == !y,
        _ => false,
    }
}

/// Whether a solution carries what the evaluator answers for its variables.
pub open spec fn graded_by<P, E: Fn(&Vec<Variable<P>>) -> Vec<P>>(
    evaluate: E,
    solution: Solution<P>,
) -> bool {
    exists|variables: Vec<Variable<P>>, objectives: Vec<P>| #[trigger]
        call_ensures(evaluate, (&variables,), objectives) && variables@ == solution.variables@
            && objectives@ == solution.objectives@
}

/// Whether `to` is a neighbour of `from`: one variable is moved by a step as
/// its domain says, and every other one is the same.
#[verifier::opaque]
pub open spec fn neighbouring<P, N, W>(
    nudge: N,
    whole: W,
    step_size: P,
    definitions: Seq<VariableDefinition<P>>,
    from: Seq<Variable<P>>,
    to: Seq<Variable<P>>,
) -> bool where N: Fn(&P, &P, &P, &P) -> P, W: Fn(&P) -> i64 {
    &&& to.len() == from.len()
    &&& exists|moved: int|
        0 <= moved < definitions.len() && stepped(
            nudge,
            whole,
            step_size,
            definitions[moved],
            from[moved],
            #[trigger] to[moved],
        ) && forall|i: int| 0 <= i < from.len() && i != moved ==> #[trigger] to[i] == from[i]
}

/// Whether the sampling and the step keep numbers within their bounds by
/// the comparison `less`: what is sampled or nudged within two bounds lies
/// between them.
pub open spec fn bounded<P, M, N, L>(sample: M, nudge: N, less: L) -> bool where
    M: Fn(&P, &P) -> P,
    N: Fn(&P, &P, &P, &P) -> P,
    L: Fn(&P, &P) -> bool,
 {
    &&& forall|min: P, max: P, v: P| #[trigger]
        call_ensures(sample, (&min, &max), v) ==> between(less, v, min, max)
    &&& forall|a: P, step: P, min: P, max: P, v: P| #[trigger]
        call_ensures(nudge, (&a, &step, &min, &max), v) ==> between(less, v, min, max)
}

/// With a step that keeps numbers within their bounds, a neighbour of
/// variables within the domains lies within the domains.
pub proof fn lemma_neighbouring_within<P, M, N, W, L>(
    sample: M,
    nudge: N,
    whole: W,
    less: L,
    step_size: P,
    definitions: Seq<VariableDefinition<P>>,
    from: Seq<Variable<P>>,
    to: Seq<Variable<P>>,
) where
    M: Fn(&P, &P) -> P,
    N: Fn(&P, &P, &P, &P) -> P,
    W: Fn(&P) -> i64,
    L: Fn(&P, &P) -> bool,

    requires
        bounded(sample, nudge, less),
        valid(definitions),
        all_within(less, from, definitions),
        neighbouring(nudge, whole, step_size, definitions, from, to),
    ensures
        all_within(less, to, definitions),
{
    reveal(neighbouring);
    let moved = choose|moved: int|
        0 <= moved < definitions.len() && stepped(
            nudge,
            whole,
            step_size,
            definitions[moved],
            from[moved],
            #[trigger] to[moved],
        ) && forall|i: int| 0 <= i < from.len() && i != moved ==> #[trigger] to[i] == from[i];
    assert forall|i: int| 0 <= i < definitions.len() implies within(
        less,
        #[trigger] to[i],
        definitions[i],
    ) by {
        assert(within(less, from[i], definitions[i]));
        if i != moved {
            assert(to[i] == from[i]);
        }
    }
}

/// Offering a solution within the domains to an archive of such solutions
/// leaves an archive of such solutions.
pub proof fn lemma_admitted_within<P, A, S, D, L, C>(
    ops: &Arithmetic<P, A, S, D, L, C>,
    archive: Seq<Solution<P>>,
    newcomer: Solution<P>,
    size: int,
    n: int,
    definitions: Seq<VariableDefinition<P>>,
) where
    A: Fn(&P, &P) -> P,
    S: Fn(&P, &P) -> P,
    D: Fn(&P, &P) -> P,
    L: Fn(&P, &P) -> bool,
    C: Fn(i64) -> P,

    requires
        size >= 0,
        antichain(ops.less, archive, n),
        forall|k: int|
            0 <= k < archive.len() ==> all_within(
                ops.less,
                (#[trigger] archive[k]).variables@,
                definitions,
            ),
        all_within(ops.less, newcomer.variables@, definitions),
    ensures
        forall|k: int|
            0 <= k < admitted(ops, archive, newcomer, size, n).len() ==> all_within(
                ops.less,
                (#[trigger] admitted(ops, archive, newcomer, size, n)[k]).variables@,
                definitions,
            ),
{
    lemma_admitted_antichain(ops, archive, newcomer, size, n);
    let after = admitted(ops, archive, newcomer, size, n);
    let whole = archive.push(newcomer);
    assert forall|k: int| 0 <= k < after.len() implies all_within(
        ops.less,
        (#[trigger] after[k]).variables@,
        definitions,
    ) by {
        assert(matched(after[k], whole));
        let i = choose|i: int| 0 <= i < whole.len() && akin(after[k], #[trigger] whole[i]);
        if i < archive.len() {
            assert(whole[i] == archive[i]);
        } else {
            assert(whole[i] == newcomer);
        }
    }
}

/// The archive after the first `count` solutions of `offers` were offered,
/// one after another, to an empty archive.
pub open spec fn gathered<P, A, S, D, L, C>(
    ops: &Arithmetic<P, A, S, D, L, C>,
    offers: Seq<Solution<P>>,
    count: int,
    size: int,
    n: int,
) -> Seq<Solution<P>> where
    A: Fn(&P, &P) -> P,
    S: Fn(&P, &P) -> P,
    D: Fn(&P, &P) -> P,
    L: Fn(&P, &P) -> bool,
    C: Fn(i64) -> P,

    decreases count,
{
    if count <= 0 {
        Seq::empty()
    } else {
        admitted(ops, gathered(ops, offers, count - 1, size, n), offers[count - 1], size, n)
    }
}

/// Where the walk stands after `steps` steps. It starts at the first
/// solution; each step offers the next one, and the walk moves there unless
/// the place where it stands dominates that solution.
pub open spec fn place_after<P, L: Fn(&P, &P) -> bool>(
    less: L,
    offers: Seq<Solution<P>>,
    steps: int,
    n: int,
) -> Solution<P>
    decreases steps,
{
    if steps <= 0 {
        offers[0]
    } else {
        let before = place_after(less, offers, steps - 1, n);
        if dominates_spec(less, before.objectives@, offers[steps].objectives@, n) {
            before
        } else {
            offers[steps]
        }
    }
}

/// The number of steps in a row, ending with step `steps`, that did not make
/// the archive grow.
pub open spec fn idle<P, A, S, D, L, C>(
    ops: &Arithmetic<P, A, S, D, L, C>,
    offers: Seq<Solution<P>>,
    steps: int,
    size: int,
    n: int,
) -> int where
    A: Fn(&P, &P) -> P,
    S: Fn(&P, &P) -> P,
    D: Fn(&P, &P) -> P,
    L: Fn(&P, &P) -> bool,
    C: Fn(i64) -> P,

    decreases steps,
{
    if steps <= 0 {
        0
    } else if gathered(ops, offers, steps + 1, size, n).len() > gathered(
        ops,
        offers,
        steps,
        size,
        n,
    ).len() {
        0
    } else {
        idle(ops, offers, steps - 1, size, n) + 1
    }
}

/// The archive of the first offers does not depend on the later ones.
pub proof fn lemma_gathered_prefix<P, A, S, D, L, C>(
    ops: &Arithmetic<P, A, S, D, L, C>,
    shorter: Seq<Solution<P>>,
    longer: Seq<Solution<P>>,
    count: int,
    size: int,
    n: int,
) where
    A: Fn(&P, &P) -> P,
    S: Fn(&P, &P) -> P,
    D: Fn(&P, &P) -> P,
    L: Fn(&P, &P) -> bool,
    C: Fn(i64) -> P,

    requires
        count <= shorter.len() <= longer.len(),
        forall|k: int| 0 <= k < count ==> shorter[k] == longer[k],
    ensures
        gathered(ops, shorter, count, size, n) == gathered(ops, longer, count, size, n),
    decreases count,
{
    if count > 0 {
        lemma_gathered_prefix(ops, shorter, longer, count - 1, size, n);
    }
}

/// Where the walk stands does not depend on later offers.
pub proof fn lemma_place_prefix<P, L: Fn(&P, &P) -> bool>(
    less: L,
    shorter: Seq<Solution<P>>,
    longer: Seq<Solution<P>>,
    steps: int,
    n: int,
)
    requires
        0 <= steps < shorter.len() <= longer.len(),
        forall|k: int| 0 <= k <= steps ==> shorter[k] == longer[k],
    ensures
        place_after(less, shorter, steps, n) == place_after(less, longer, steps, n),
    decreases steps,
{
    if steps > 0 {
        lemma_place_prefix(less, shorter, longer, steps - 1, n);
    }
}

/// The count of idle steps does not depend on later offers, and is at most
/// the number of steps.
pub proof fn lemma_idle_prefix<P, A, S, D, L, C>(
    ops: &Arithmetic<P, A, S, D, L, C>,
    shorter: Seq<Solution<P>>,
    longer: Seq<Solution<P>>,
    steps: int,
    size: int,
    n: int,
) where
    A: Fn(&P, &P) -> P,
    S: Fn(&P, &P) -> P,
    D: Fn(&P, &P) -> P,
    L: Fn(&P, &P) -> bool,
    C: Fn(i64) -> P,

    requires
        steps < shorter.len() <= longer.len(),
        forall|k: int| 0 <= k <= steps ==> shorter[k] == longer[k],
    ensures
        idle(ops, shorter, steps, size, n) == idle(ops, longer, steps, size, n),
        0 <= idle(ops, shorter, steps, size, n),
        steps >= 0 ==> idle(ops, shorter, steps, size, n) <= steps,
    decreases steps,
{
    if steps > 0 {
        lemma_idle_prefix(ops, shorter, longer, steps - 1, size, n);
        lemma_gathered_prefix(ops, shorter, longer, steps + 1, size, n);
        lemma_gathered_prefix(ops, shorter, longer, steps, size, n);
    }
}

/// An archive with room for a solution is not empty once a solution was
/// offered to it.
pub proof fn lemma_admitted_holds<P, A, S, D, L, C>(
    ops: &Arithmetic<P, A, S, D, L, C>,
    archive: Seq<Solution<P>>,
    newcomer: Solution<P>,
    size: int,
    n: int,
) where
    A: Fn(&P, &P) -> P,
    S: Fn(&P, &P) -> P,
    D: Fn(&P, &P) -> P,
    L: Fn(&P, &P) -> bool,
    C: Fn(i64) -> P,

    requires
        size >= 1,
    ensures
        admitted(ops, archive, newcomer, size, n).len() >= 1,
{
    if !beaten(ops.less, archive, newcomer, n) {
        let joined = undominated(ops.less, archive, newcomer, n).push(newcomer);
        lemma_trimmed_drawn(ops, joined, size, n);
    }
}

/// Offering a solution that carries the evaluator's answer to an archive of
/// such solutions leaves an archive of such solutions.
pub proof fn lemma_admitted_graded<P, A, S, D, L, C, E>(
    ops: &Arithmetic<P, A, S, D, L, C>,
    evaluate: E,
    archive: Seq<Solution<P>>,
    newcomer: Solution<P>,
    size: int,
    n: int,
) where
    A: Fn(&P, &P) -> P,
    S: Fn(&P, &P) -> P,
    D: Fn(&P, &P) -> P,
    L: Fn(&P, &P) -> bool,
    C: Fn(i64) -> P,
    E: Fn(&Vec<Variable<P>>) -> Vec<P>,

    requires
        size >= 0,
        antichain(ops.less, archive, n),
        forall|k: int| 0 <= k < archive.len() ==> graded_by(evaluate, #[trigger] archive[k]),
        graded_by(evaluate, newcomer),
    ensures
        forall|k: int|
            0 <= k < admitted(ops, archive, newcomer, size, n).len() ==> graded_by(
                evaluate,
                #[trigger] admitted(ops, archive, newcomer, size, n)[k],
            ),
{
    lemma_admitted_antichain(ops, archive, newcomer, size, n);
    let after = admitted(ops, archive, newcomer, size, n);
    let whole = archive.push(newcomer);
    assert forall|k: int| 0 <= k < after.len() implies graded_by(evaluate, #[trigger] after[k]) by {
        assert(matched(after[k], whole));
        let i = choose|i: int| 0 <= i < whole.len() && akin(after[k], #[trigger] whole[i]);
        if i < archive.len() {
            assert(whole[i] == archive[i]);
            assert(graded_by(evaluate, archive[i]));
        } else {
            assert(whole[i] == newcomer);
        }
        let source = whole[i];
        let (variables, objectives) = choose|variables: Vec<Variable<P>>, objectives: Vec<P>| #[trigger]
            call_ensures(evaluate, (&variables,), objectives) && variables@ == source.variables@
                && objectives@ == source.objectives@;
        assert(call_ensures(evaluate, (&variables,), objectives) && variables@
            == after[k].variables@ && objectives@ == after[k].objectives@);
    }
}

impl<P: Copy> MultiObjectiveDescent<P> {
    /// The descent with the given parameters.
    pub fn new(
        step_size: P,
        variable_definitions: Vec<VariableDefinition<P>>,
        max_iterations_without_improvement: usize,
        archive_size: usize,
        num_objectives: usize,
    ) -> (algorithm: Self)
        ensures
            algorithm.step_size == step_size,
            algorithm.variable_definitions == variable_definitions,
            algorithm.max_iterations_without_improvement == max_iterations_without_improvement,
            algorithm.archive_size == archive_size,
            algorithm.num_objectives == num_objectives,
    {
        MultiObjectiveDescent {
            step_size,
            variable_definitions,
            max_iterations_without_improvement,
            archive_size,
            num_objectives,
        }
    }

    /// The descent from the parameters found in a configuration, giving up
    /// after 1000 steps without improvement: an error that says so where a
    /// parameter is missing and, where none is missing, an error that says so
    /// where one is invalid.
    pub fn new_from_json(
        step_size: Setting<P>,
        archive_size: Setting<usize>,
        variable_definitions: Vec<VariableDefinition<P>>,
        num_objectives: usize,
    ) -> (made: Result<Self, String>)
        ensures
            match (step_size, archive_size) {
                (Setting::Given(step), Setting::Given(size)) => made matches Ok(algorithm)
                    && algorithm.step_size == step && algorithm.variable_definitions
                    == variable_definitions && algorithm.max_iterations_without_improvement == 1000
                    && algorithm.archive_size == size && algorithm.num_objectives
                    == num_objectives,
                _ => made matches Err(message) && message@ == if step_size is Missing
                    || archive_size is Missing {
                    "Missing parameters for the algorithm"@
                } else {
                    "Invalid parameters for the algorithm"@
                },
            },
    {
        match (step_size, archive_size) {
            (Setting::Given(step), Setting::Given(size)) => Ok(
                MultiObjectiveDescent {
                    step_size: step,
                    variable_definitions,
                    max_iterations_without_improvement: 1000,
                    archive_size: size,
                    num_objectives,
                },
            ),
            (Setting::Missing, _) | (_, Setting::Missing) => Err(
                String::from_str("Missing parameters for the algorithm"),
            ),
            _ => Err(String::from_str("Invalid parameters for the algorithm")),
        }
    }

    /// Whether `offers` is a trail of the descent: solutions that it offers
    /// to the archive, one after another. Each fits the domains and carries
    /// the evaluator's answer; each but the first is a neighbour of the
    /// place where the walk stood; and no step before the last is the last
    /// of `max_iterations_without_improvement` idle steps in a row.
    #[verifier::opaque]
    pub open spec fn trail<A, S, D, L, C, N, W, E>(
        &self,
        ops: &Arithmetic<P, A, S, D, L, C>,
        nudge: N,
        whole: W,
        evaluate: E,
        offers: Seq<Solution<P>>,
    ) -> bool where
        A: Fn(&P, &P) -> P,
        S: Fn(&P, &P) -> P,
        D: Fn(&P, &P) -> P,
        L: Fn(&P, &P) -> bool,
        C: Fn(i64) -> P,
        N: Fn(&P, &P, &P, &P) -> P,
        W: Fn(&P) -> i64,
        E: Fn(&Vec<Variable<P>>) -> Vec<P>,
     {
        let n = self.num_objectives as int;
        let size = self.archive_size as int;
        &&& forall|k: int|
            0 <= k < offers.len() ==> fitting(
                (#[trigger] offers[k]).variables@,
                self.variable_definitions@,
            ) && offers[k].objectives.len() >= n && graded_by(evaluate, offers[k])
        &&& forall|k: int|
            1 <= k < offers.len() ==> neighbouring(
                nudge,
                whole,
                self.step_size,
                self.variable_definitions@,
                place_after(ops.less, offers, k - 1, n).variables@,
                (#[trigger] offers[k]).variables@,
            )
        &&& forall|t: int|
            0 < t < offers.len() - 1 ==> #[trigger] idle(ops, offers, t, size, n)
                < self.max_iterations_without_improvement
    }

    /// Whether `offers` is a whole walk of the descent: a trail that starts
    /// with a random solution and ends after `max_iterations` steps, or with
    /// the first step that is the last of
    /// `max_iterations_without_improvement` idle steps in a row.
    pub open spec fn walked<A, S, D, L, C, M, N, W, E>(
        &self,
        ops: &Arithmetic<P, A, S, D, L, C>,
        sample: M,
        nudge: N,
        whole: W,
        evaluate: E,
        max_iterations: int,
        offers: Seq<Solution<P>>,
    ) -> bool where
        A: Fn(&P, &P) -> P,
        S: Fn(&P, &P) -> P,
        D: Fn(&P, &P) -> P,
        L: Fn(&P, &P) -> bool,
        C: Fn(i64) -> P,
        M: Fn(&P, &P) -> P,
        N: Fn(&P, &P, &P, &P) -> P,
        W: Fn(&P) -> i64,
        E: Fn(&Vec<Variable<P>>) -> Vec<P>,
     {
        let steps = offers.len() - 1;
        &&& 0 <= steps <= max_iterations
        &&& sampled(sample, self.variable_definitions@, offers[0].variables@)
        &&& self.trail(ops, nudge, whole, evaluate, offers)
        &&& steps == max_iterations || (steps > 0 && idle(
            ops,
            offers,
            steps,
            self.archive_size as int,
            self.num_objectives as int,
        ) >= self.max_iterations_without_improvement)
    }

    /// One solution is a trail.
    proof fn lemma_trail_starts<A, S, D, L, C, N, W, E>(
        &self,
        ops: &Arithmetic<P, A, S, D, L, C>,
        nudge: N,
        whole: W,
        evaluate: E,
        first: Solution<P>,
    ) where
        A: Fn(&P, &P) -> P,
        S: Fn(&P, &P) -> P,
        D: Fn(&P, &P) -> P,
        L: Fn(&P, &P) -> bool,
        C: Fn(i64) -> P,
        N: Fn(&P, &P, &P, &P) -> P,
        W: Fn(&P) -> i64,
        E: Fn(&Vec<Variable<P>>) -> Vec<P>,
    
        requires
            fitting(first.variables@, self.variable_definitions@),
            first.objectives.len() >= self.num_objectives,
            graded_by(evaluate, first),
        ensures
            self.trail(ops, nudge, whole, evaluate, seq![first]),
            gathered(
                ops,
                seq![first],
                1,
                self.archive_size as int,
                self.num_objectives as int,
            ) == admitted(
                ops,
                Seq::empty(),
                first,
                self.archive_size as int,
                self.num_objectives as int,
            ),
            place_after(ops.less, seq![first], 0, self.num_objectives as int) == first,
            idle(ops, seq![first], 0, self.archive_size as int, self.num_objectives as int) == 0,
    {
        reveal(MultiObjectiveDescent::trail);
        let n = self.num_objectives as int;
        let size = self.archive_size as int;
        assert(gathered(ops, seq![first], 0, size, n) =~= Seq::empty());
        assert(seq![first][0] == first);
    }

    /// A trail goes on with a neighbour of the place where the walk stands,
    /// and what the step makes of the archive, the place and the idle steps.
    proof fn lemma_trail_grows<A, S, D, L, C, N, W, E>(
        &self,
        ops: &Arithmetic<P, A, S, D, L, C>,
        nudge: N,
        whole: W,
        evaluate: E,
        earlier: Seq<Solution<P>>,
        offered: Solution<P>,
    ) where
        A: Fn(&P, &P) -> P,
        S: Fn(&P, &P) -> P,
        D: Fn(&P, &P) -> P,
        L: Fn(&P, &P) -> bool,
        C: Fn(i64) -> P,
        N: Fn(&P, &P, &P, &P) -> P,
        W: Fn(&P) -> i64,
        E: Fn(&Vec<Variable<P>>) -> Vec<P>,
    
        requires
            earlier.len() >= 1,
            self.trail(ops, nudge, whole, evaluate, earlier),
            fitting(offered.variables@, self.variable_definitions@),
            offered.objectives.len() >= self.num_objectives,
            graded_by(evaluate, offered),
            neighbouring(
                nudge,
                whole,
                self.step_size,
                self.variable_definitions@,
                place_after(
                    ops.less,
                    earlier,
                    earlier.len() - 1,
                    self.num_objectives as int,
                ).variables@,
                offered.variables@,
            ),
            earlier.len() > 1 ==> idle(
                ops,
                earlier,
                earlier.len() - 1,
                self.archive_size as int,
                self.num_objectives as int,
            ) < self.max_iterations_without_improvement,
        ensures
            self.trail(ops, nudge, whole, evaluate, earlier.push(offered)),
            gathered(
                ops,
                earlier.push(offered),
                earlier.len() as int + 1,
                self.archive_size as int,
                self.num_objectives as int,
            ) == admitted(
                ops,
                gathered(
                    ops,
                    earlier,
                    earlier.len() as int,
                    self.archive_size as int,
                    self.num_objectives as int,
                ),
                offered,
                self.archive_size as int,
                self.num_objectives as int,
            ),
            place_after(
                ops.less,
                earlier.push(offered),
                earlier.len() as int,
                self.num_objectives as int,
            ) == if dominates_spec(
                ops.less,
                place_after(
                    ops.less,
                    earlier,
                    earlier.len() - 1,
                    self.num_objectives as int,
                ).objectives@,
                offered.objectives@,
                self.num_objectives as int,
            ) {
                place_after(ops.less, earlier, earlier.len() - 1, self.num_objectives as int)
            } else {
                offered
            },
            idle(
                ops,
                earlier.push(offered),
                earlier.len() as int,
                self.archive_size as int,
                self.num_objectives as int,
            ) == if admitted(
                ops,
                gathered(
                    ops,
                    earlier,
                    earlier.len() as int,
                    self.archive_size as int,
                    self.num_objectives as int,
                ),
                offered,
                self.archive_size as int,
                self.num_objectives as int,
            ).len() > gathered(
                ops,
                earlier,
                earlier.len() as int,
                self.archive_size as int,
                self.num_objectives as int,
            ).len() {
                0
            } else {
                idle(
                    ops,
                    earlier,
                    earlier.len() - 1,
                    self.archive_size as int,
                    self.num_objectives as int,
                ) + 1
            },
    {
        let n = self.num_objectives as int;
        let size = self.archive_size as int;
        let later = earlier.push(offered);
        let step = earlier.len() as int;
        lemma_walk_grows(ops, earlier, offered, size, n);
        assert(later[step] == offered);
        assert(gathered(ops, later, step, size, n) == gathered(ops, earlier, step, size, n));
        assert(place_after(ops.less, later, step - 1, n) == place_after(
            ops.less,
            earlier,
            step - 1,
            n,
        ));
        assert(idle(ops, later, step - 1, size, n) == idle(ops, earlier, step - 1, size, n));
        assert(self.trail(ops, nudge, whole, evaluate, later)) by {
            reveal(MultiObjectiveDescent::trail);
            assert forall|k: int| 0 <= k < later.len() implies fitting(
                (#[trigger] later[k]).variables@,
                self.variable_definitions@,
            ) && later[k].objectives.len() >= n && graded_by(evaluate, later[k]) by {
                if k < step {
                    assert(later[k] == earlier[k]);
                }
            }
            assert forall|k: int| 1 <= k < later.len() implies neighbouring(
                nudge,
                whole,
                self.step_size,
                self.variable_definitions@,
                place_after(ops.less, later, k - 1, n).variables@,
                (#[trigger] later[k]).variables@,
            ) by {
                assert(place_after(ops.less, later, k - 1, n) == place_after(
                    ops.less,
                    earlier,
                    k - 1,
                    n,
                ));
                if k < step {
                    assert(later[k] == earlier[k]);
                }
            }
            assert forall|t: int| 0 < t < later.len() - 1 implies #[trigger] idle(
                ops,
                later,
                t,
                size,
                n,
            ) < self.max_iterations_without_improvement by {
                assert(idle(ops, later, t, size, n) == idle(ops, earlier, t, size, n));
            }
        }
    }

    /// A random solution: every variable a random value of its domain, every
    /// objective zero.
    pub fn initialize_solution<A, S, D, L, C, M>(
        &self,
        ops: &Arithmetic<P, A, S, D, L, C>,
        sample: &M,
    ) -> (solution: Solution<P>) where
        A: Fn(&P, &P) -> P,
        S: Fn(&P, &P) -> P,
        D: Fn(&P, &P) -> P,
        L: Fn(&P, &P) -> bool,
        C: Fn(i64) -> P,
        M: Fn(&P, &P) -> P,

        requires
            ops.wf(),
            forall|a: P, b: P| call_requires(*sample, (&a, &b)),
            valid(self.variable_definitions@),
        ensures
            sampled(*sample, self.variable_definitions@, solution.variables@),
            solution.objectives@ == Seq::new(self.num_objectives as nat, |k: int| ops.number(0)),
            solution.rank == 0,
            solution.crowding_distance == ops.number(0),
    {
        let zero = ops.count(0);
        let variables = random_variables(sample, &self.variable_definitions);
        let mut objectives: Vec<P> = Vec::with_capacity(self.num_objectives);
        let mut k: usize = 0;
        while k < self.num_objectives
            invariant
                k <= self.num_objectives,
                objectives.len() == k,
                forall|j: int| 0 <= j < k ==> objectives[j] == zero,
            decreases self.num_objectives - k,
        {
            objectives.push(zero);
            k += 1;
        }
        assert(objectives@ =~= Seq::new(self.num_objectives as nat, |k: int| ops.number(0)));
        Solution::new(variables, objectives, zero)
    }

    /// A neighbour of a solution: one variable, chosen at random, is moved as
    /// its domain says; everything else is copied.
    pub fn generate_neighbor<N, W>(&self, nudge: &N, whole: &W, current: &Solution<P>) -> (neighbor:
        Solution<P>) where N: Fn(&P, &P, &P, &P) -> P, W: Fn(&P) -> i64
        requires
            forall|a: P, b: P, c: P, d: P| call_requires(*nudge, (&a, &b, &c, &d)),
            forall|a: P| call_requires(*whole, (&a,)),
            valid(self.variable_definitions@),
            self.variable_definitions.len() > 0,
            fitting(current.variables@, self.variable_definitions@),
        ensures
            fitting(neighbor.variables@, self.variable_definitions@),
            neighbor.objectives@ == current.objectives@,
            neighbor.crowding_distance == current.crowding_distance,
            neighbor.rank == current.rank,
            exists|moved: int|
                0 <= moved < self.variable_definitions.len() && stepped(
                    *nudge,
                    *whole,
                    self.step_size,
                    self.variable_definitions[moved],
                    current.variables[moved],
                    #[trigger] neighbor.variables[moved],
                ) && forall|i: int|
                    0 <= i < current.variables.len() && i != moved ==> #[trigger] neighbor.variables[i]
                        == current.variables[i],
    {
        let mut neighbor = copy_solution(current);
        let moved = random_below(self.variable_definitions.len());
        assert(current.variables[moved as int].fits(self.variable_definitions[moved as int]));
        match (self.variable_definitions[moved], current.variables[moved]) {
            (VariableDefinition::Float(min, max), Variable::Float(value)) => {
                let changed = nudge(&value, &self.step_size, &min, &max);
                neighbor.variables.set(moved, Variable::Float(changed));
            },
            (VariableDefinition::Integer(min, max), Variable::Integer(value)) => {
                let raw = whole(&self.step_size);
                let step: i64 = if raw < 0 {
                    0
                } else {
                    raw
                };
                let move_by = random_between(-step, step);
                let sum: i128 = value as i128 + move_by as i128;
                let changed: i64 = if sum < min as i128 {
                    min
                } else if sum > max as i128 {
                    max
                } else {
                    sum as i64
                };
                assert(changed == clamped(value + move_by, min as int, max as int));
                neighbor.variables.set(moved, Variable::Integer(changed));
                assert(stepped(
                    *nudge,
                    *whole,
                    self.step_size,
                    self.variable_definitions[moved as int],
                    current.variables[moved as int],
                    neighbor.variables[moved as int],
                )) by {
                    assert(call_ensures(*whole, (&self.step_size,), raw));
                    assert(changed == clamped(value + (move_by as int), min as int, max as int));
                }
            },
            (VariableDefinition::Boolean, Variable::Boolean(value)) => {
                neighbor.variables.set(moved, Variable::Boolean(!value));
            },
            _ => {},
        }
        proof {
            assert forall|i: int| 0 <= i < self.variable_definitions.len() implies (
            #[trigger] neighbor.variables@[i]).fits(self.variable_definitions@[i]) by {
                assert(current.variables@[i].fits(self.variable_definitions@[i]));
            }
        }
        neighbor
    }

    /// Runs the descent for at most `max_iterations` steps and returns the
    /// archive. The walk starts at a random solution. Each step offers a
    /// random neighbour of the place where the walk stands to the archive,
    /// and the walk moves there unless the place dominates the neighbour;
    /// the descent ends early after `max_iterations_without_improvement`
    /// steps in a row that did not make the archive grow. The archive is
    /// what these offers leave of an empty archive. No solution of it
    /// dominates another; there are at most `archive_size` of them, and at
    /// least one where there is room for one; each fits the domains and
    /// carries the evaluator's answer for its variables. With a sampling
    /// and a step that keep numbers within their bounds, every number of a
    /// solution of the archive lies between the bounds of its domain.
    pub fn run<A, S, D, L, C, M, N, W, E>(
        &self,
        ops: &Arithmetic<P, A, S, D, L, C>,
        sample: &M,
        nudge: &N,
        whole: &W,
        max_iterations: usize,
        evaluate: &E,
    ) -> (archive: Vec<Solution<P>>) where
        A: Fn(&P, &P) -> P,
        S: Fn(&P, &P) -> P,
        D: Fn(&P, &P) -> P,
        L: Fn(&P, &P) -> bool,
        C: Fn(i64) -> P,
        M: Fn(&P, &P) -> P,
        N: Fn(&P, &P, &P, &P) -> P,
        W: Fn(&P) -> i64,
        E: Fn(&Vec<Variable<P>>) -> Vec<P>,

        requires
            ops.wf(),
            forall|a: P, b: P| call_requires(*sample, (&a, &b)),
            forall|a: P, b: P, c: P, d: P| call_requires(*nudge, (&a, &b, &c, &d)),
            forall|a: P| call_requires(*whole, (&a,)),
            valid(self.variable_definitions@),
            max_iterations > 0 ==> self.variable_definitions.len() > 0,
            grading(*evaluate, self.num_objectives as int),
        ensures
            exists|offers: Seq<Solution<P>>| #[trigger]
                self.walked(ops, *sample, *nudge, *whole, *evaluate, max_iterations as int, offers)
                    && archive@ == gathered(
                    ops,
                    offers,
                    offers.len() as int,
                    self.archive_size as int,
                    self.num_objectives as int,
                ),
            antichain(ops.less, archive@, self.num_objectives as int),
            archive.len() <= self.archive_size,
            self.archive_size >= 1 ==> archive.len() >= 1,
            forall|k: int|
                0 <= k < archive.len() ==> fitting(
                    (#[trigger] archive[k]).variables@,
                    self.variable_definitions@,
                ) && archive[k].objectives.len() >= self.num_objectives && graded_by(
                    *evaluate,
                    archive[k],
                ),
            bounded(*sample, *nudge, ops.less) ==> forall|k: int|
                0 <= k < archive.len() ==> all_within(
                    ops.less,
                    (#[trigger] archive[k]).variables@,
                    self.variable_definitions@,
                ),
    {
        let ghost n = self.num_objectives as int;
        let ghost size = self.archive_size as int;
        let mut archive: Vec<Solution<P>> = Vec::new();
        let mut current = self.initialize_solution(ops, sample);
        current.objectives = evaluate(&current.variables);
        let first = copy_solution(&current);
        let ghost mut offers: Seq<Solution<P>> = seq![first];
        proof {
            assert(call_ensures(*evaluate, (&current.variables,), current.objectives));
            assert(graded_by(*evaluate, first));
            lemma_admitted_antichain(ops, archive@, first, size, n);
            lemma_admitted_sound(ops, archive@, first, size, n, self.variable_definitions@);
            lemma_admitted_graded(ops, *evaluate, archive@, first, size, n);
            if size >= 1 {
                lemma_admitted_holds(ops, archive@, first, size, n);
            }
            self.lemma_trail_starts(ops, *nudge, *whole, *evaluate, first);
            assert(archive@ =~= Seq::empty());
            assert(offers[0] == first);
            if bounded(*sample, *nudge, ops.less) {
                assert forall|i: int| 0 <= i < self.variable_definitions.len() implies within(
                    ops.less,
                    #[trigger] first.variables@[i],
                    self.variable_definitions@[i],
                ) by {
                    assert(first.variables@[i].fits(self.variable_definitions@[i]));
                }
                lemma_admitted_within(ops, archive@, first, size, n, self.variable_definitions@);
            }
        }
        update_archive(ops, &mut archive, first, self.archive_size, self.num_objectives);
        let mut iterations_without_improvement: usize = 0;
        let mut iteration: usize = 0;
        while iteration < max_iterations
            invariant_except_break
                iteration > 0 ==> idle(ops, offers, iteration as int, size, n)
                    < self.max_iterations_without_improvement,
            invariant
                ops.wf(),
                forall|a: P, b: P, c: P, d: P| call_requires(*nudge, (&a, &b, &c, &d)),
                forall|a: P| call_requires(*whole, (&a,)),
                valid(self.variable_definitions@),
                max_iterations > 0 ==> self.variable_definitions.len() > 0,
                grading(*evaluate, n),
                n == self.num_objectives,
                size == self.archive_size,
                iteration <= max_iterations,
                offers.len() == iteration + 1,
                iterations_without_improvement == idle(ops, offers, iteration as int, size, n),
                iterations_without_improvement <= iteration,
                fitting(current.variables@, self.variable_definitions@),
                current.objectives.len() >= self.num_objectives,
                current.variables@ == place_after(
                    ops.less,
                    offers,
                    iteration as int,
                    n,
                ).variables@,
                current.objectives@ == place_after(
                    ops.less,
                    offers,
                    iteration as int,
                    n,
                ).objectives@,
                archive@ == gathered(ops, offers, offers.len() as int, size, n),
                sampled(*sample, self.variable_definitions@, offers[0].variables@),
                self.trail(ops, *nudge, *whole, *evaluate, offers),
                bounded(*sample, *nudge, ops.less) ==> all_within(
                    ops.less,
                    current.variables@,
                    self.variable_definitions@,
                ),
                bounded(*sample, *nudge, ops.less) ==> forall|k: int|
                    0 <= k < archive.len() ==> all_within(
                        ops.less,
                        (#[trigger] archive[k]).variables@,
                        self.variable_definitions@,
                    ),
                antichain(ops.less, archive@, n),
                archive.len() <= self.archive_size,
                self.archive_size >= 1 ==> archive.len() >= 1,
                forall|k: int|
                    0 <= k < archive.len() ==> fitting(
                        (#[trigger] archive[k]).variables@,
                        self.variable_definitions@,
                    ) && archive[k].objectives.len() >= self.num_objectives && graded_by(
                        *evaluate,
                        archive[k],
                    ),
            ensures
                iteration == max_iterations || (iteration > 0 && idle(
                    ops,
                    offers,
                    iteration as int,
                    size,
                    n,
                ) >= self.max_iterations_without_improvement),
            decreases max_iterations - iteration,
        {
            let mut neighbor = self.generate_neighbor(nudge, whole, &current);
            neighbor.objectives = evaluate(&neighbor.variables);
            let archive_size_before = archive.len();
            let offered = copy_solution(&neighbor);
            proof {
                assert(call_ensures(*evaluate, (&neighbor.variables,), neighbor.objectives));
                assert(graded_by(*evaluate, offered));
                assert(neighbouring(
                    *nudge,
                    *whole,
                    self.step_size,
                    self.variable_definitions@,
                    current.variables@,
                    offered.variables@,
                )) by {
                    reveal(neighbouring);
                }
                lemma_admitted_antichain(ops, archive@, offered, size, n);
                lemma_admitted_sound(ops, archive@, offered, size, n, self.variable_definitions@);
                lemma_admitted_graded(ops, *evaluate, archive@, offered, size, n);
                if size >= 1 {
                    lemma_admitted_holds(ops, archive@, offered, size, n);
                }
                if bounded(*sample, *nudge, ops.less) {
                    lemma_neighbouring_within(
                        *sample,
                        *nudge,
                        *whole,
                        ops.less,
                        self.step_size,
                        self.variable_definitions@,
                        current.variables@,
                        offered.variables@,
                    );
                    lemma_admitted_within(
                        ops,
                        archive@,
                        offered,
                        size,
                        n,
                        self.variable_definitions@,
                    );
                }
                self.lemma_trail_grows(ops, *nudge, *whole, *evaluate, offers, offered);
                assert(offers.push(offered)[0] == offers[0]);
                offers = offers.push(offered);
            }
            update_archive(ops, &mut archive, offered, self.archive_size, self.num_objectives);
            if !dominates(&ops.less, &current, &neighbor, self.num_objectives) {
                current = neighbor;
            }
            if archive.len() > archive_size_before {
                iterations_without_improvement = 0;
            } else {
                iterations_without_improvement += 1;
            }
            iteration += 1;
            if iterations_without_improvement >= self.max_iterations_without_improvement {
                break ;
            }
        }
        proof {
            assert(self.walked(
                ops,
                *sample,
                *nudge,
                *whole,
                *evaluate,
                max_iterations as int,
                offers,
            ));
        }
        archive
    }
}

/// Offering one more solution leaves what the walk was before as it was.
proof fn lemma_walk_grows<P, A, S, D, L, C>(
    ops: &Arithmetic<P, A, S, D, L, C>,
    earlier: Seq<Solution<P>>,
    offered: Solution<P>,
    size: int,
    n: int,
) where
    A: Fn(&P, &P) -> P,
    S: Fn(&P, &P) -> P,
    D: Fn(&P, &P) -> P,
    L: Fn(&P, &P) -> bool,
    C: Fn(i64) -> P,

    requires
        earlier.len() >= 1,
    ensures
        forall|k: int|
            0 <= k <= earlier.len() ==> #[trigger] gathered(ops, earlier.push(offered), k, size, n)
                == gathered(ops, earlier, k, size, n),
        forall|k: int|
            0 <= k < earlier.len() ==> #[trigger] place_after(
                ops.less,
                earlier.push(offered),
                k,
                n,
            ) == place_after(ops.less, earlier, k, n),
        forall|k: int|
            0 <= k < earlier.len() ==> #[trigger] idle(ops, earlier.push(offered), k, size, n)
                == idle(ops, earlier, k, size, n),
        forall|k: int|
            0 <= k < earlier.len() ==> 0 <= #[trigger] idle(ops, earlier, k, size, n) <= k,
{
    let later = earlier.push(offered);
    assert forall|k: int| 0 <= k <= earlier.len() implies #[trigger] gathered(
        ops,
        later,
        k,
        size,
        n,
    ) == gathered(ops, earlier, k, size, n) by {
        lemma_gathered_prefix(ops, earlier, later, k, size, n);
    }
    assert forall|k: int| 0 <= k < earlier.len() implies #[trigger] place_after(
        ops.less,
        later,
        k,
        n,
    ) == place_after(ops.less, earlier, k, n) by {
        lemma_place_prefix(ops.less, earlier, later, k, n);
    }
    assert forall|k: int| 0 <= k < earlier.len() implies #[trigger] idle(ops, later, k, size, n)
        == idle(ops, earlier, k, size, n) by {
        lemma_idle_prefix(ops, earlier, later, k, size, n);
    }
    assert forall|k: int| 0 <= k < earlier.len() implies 0 <= #[trigger] idle(
        ops,
        earlier,
        k,
        size,
        n,
    ) <= k by {
        lemma_idle_prefix(ops, earlier, later, k, size, n);
    }
}

/// Offering a solution that fits the domains and is evaluated to an archive
/// of such solutions leaves an archive of such solutions.
pub proof fn lemma_admitted_sound<P, A, S, D, L, C>(
    ops: &Arithmetic<P, A, S, D, L, C>,
    archive: Seq<Solution<P>>,
    newcomer: Solution<P>,
    size: int,
    n: int,
    definitions: Seq<VariableDefinition<P>>,
) where
    A: Fn(&P, &P) -> P,
    S: Fn(&P, &P) -> P,
    D: Fn(&P, &P) -> P,
    L: Fn(&P, &P) -> bool,
    C: Fn(i64) -> P,

    requires
        size >= 0,
        antichain(ops.less, archive, n),
        forall|k: int|
            0 <= k < archive.len() ==> fitting((#[trigger] archive[k]).variables@, definitions)
                && archive[k].objectives.len() >= n,
        fitting(newcomer.variables@, definitions),
        newcomer.objectives.len() >= n,
    ensures
        forall|k: int|
            0 <= k < admitted(ops, archive, newcomer, size, n).len() ==> fitting(
                (#[trigger] admitted(ops, archive, newcomer, size, n)[k]).variables@,
                definitions,
            ) && admitted(ops, archive, newcomer, size, n)[k].objectives.len() >= n,
{
    lemma_admitted_antichain(ops, archive, newcomer, size, n);
    let after = admitted(ops, archive, newcomer, size, n);
    let whole = archive.push(newcomer);
    assert forall|k: int| 0 <= k < after.len() implies fitting(
        (#[trigger] after[k]).variables@,
        definitions,
    ) && after[k].objectives.len() >= n by {
        assert(matched(after[k], whole));
        let i = choose|i: int| 0 <= i < whole.len() && akin(after[k], #[trigger] whole[i]);
        if i < archive.len() {
            assert(whole[i] == archive[i]);
        } else {
            assert(whole[i] == newcomer);
        }
    }
}

} // verus!
