//! Pareto dominance and the sorting of a population into fronts.
use vstd::prelude::*;
use crate::arithmetic::{binary, precedes};
use crate::metaheuristic::objects::Solution;

verus! {

/// Whether the objectives `a` dominate the objectives `b` over the first `n`
/// of them: `a` is nowhere greater and somewhere smaller.
pub open spec fn dominates_spec<P, L: Fn(&P, &P) -> bool>(
    less: L,
    a: Seq<P>,
    b: Seq<P>,
    n: int,
) -> bool {
    &&& forall|i: int| 0 <= i < n ==> !precedes(less, #[trigger] b[i], a[i])
    &&& exists|i: int| 0 <= i < n && precedes(less, #[trigger] a[i], b[i])
}

/// Whether member `i` of a population dominates member `j`.
pub open spec fn dominated_by<P, L: Fn(&P, &P) -> bool>(
    less: L,
    population: Seq<Solution<P>>,
    n: int,
    i: int,
    j: int,
) -> bool {
    dominates_spec(less, population[i].objectives@, population[j].objectives@, n)
}

/// Whether every member of a population has at least `n` objectives.
pub open spec fn evaluated<P>(population: Seq<Solution<P>>, n: int) -> bool {
    forall|i: int| 0 <= i < population.len() ==> (#[trigger] population[i]).objectives.len() >= n
}

/// Nothing dominates itself, and of two solutions at most one dominates the
/// other.
pub proof fn lemma_dominance_asymmetric<P, L: Fn(&P, &P) -> bool>(
    less: L,
    a: Seq<P>,
    b: Seq<P>,
    n: int,
)
    ensures
        !(dominates_spec(less, a, b, n) && dominates_spec(less, b, a, n)),
        !dominates_spec(less, a, a, n),
{
    if dominates_spec(less, a, b, n) && dominates_spec(less, b, a, n) {
        let i = choose|i: int| 0 <= i < n && precedes(less, #[trigger] a[i], b[i]);
        assert(!precedes(less, a[i], b[i]));
    }
    if dominates_spec(less, a, a, n) {
        let i = choose|i: int| 0 <= i < n && precedes(less, #[trigger] a[i], a[i]);
        assert(!precedes(less, a[i], a[i]));
    }
}

/// Whether solution `a` dominates solution `b` over the first
/// `num_objectives` objectives.
pub fn dominates<P, L: Fn(&P, &P) -> bool>(
    less: &L,
    a: &Solution<P>,
    b: &Solution<P>,
    num_objectives: usize,
) -> (r: bool)
    requires
        binary::<P, bool, L>(*less),
        num_objectives <= a.objectives.len(),
        num_objectives <= b.objectives.len(),
    ensures
        r == dominates_spec(*less, a.objectives@, b.objectives@, num_objectives as int),
{
    let mut one_is_better = false;
    let mut i: usize = 0;
    while i < num_objectives
        invariant
            binary::<P, bool, L>(*less),
            i <= num_objectives,
            num_objectives <= a.objectives.len(),
            num_objectives <= b.objectives.len(),
            forall|k: int| 0 <= k < i ==> !precedes(*less, #[trigger] b.objectives@[k], a.objectives@[k]),
            one_is_better <==> exists|k: int|
                0 <= k < i && precedes(*less, #[trigger] a.objectives@[k], b.objectives@[k]),
        decreases num_objectives - i,
    {
        if less(&b.objectives[i], &a.objectives[i]) {
            assert(precedes(*less, b.objectives@[i as int], a.objectives@[i as int]));
            return false;
        }
        if less(&a.objectives[i], &b.objectives[i]) {
            assert(precedes(*less, a.objectives@[i as int], b.objectives@[i as int]));
            one_is_better = true;
        }
        i += 1;
    }
    one_is_better
}

/// The dominance among the members of a population, by their positions.
pub open spec fn relation<P, L: Fn(&P, &P) -> bool>(
    less: L,
    population: Seq<Solution<P>>,
    n: int,
) -> spec_fn(int, int) -> bool {
    |i: int, j: int| dominated_by(less, population, n, i, j)
}

/// The number of members below `upto` that dominate `target` and are not in
/// `done`.
spec fn open_dominators(
    dom: spec_fn(int, int) -> bool,
    target: int,
    upto: int,
    done: Set<int>,
) -> nat
    decreases upto,
{
    if upto <= 0 {
        0
    } else {
        open_dominators(dom, target, upto - 1, done) + if dom(upto - 1, target) && !done.contains(
            upto - 1,
        ) {
            1nat
        } else {
            0nat
        }
    }
}

proof fn lemma_open_zero(dom: spec_fn(int, int) -> bool, target: int, upto: int, done: Set<int>)
    ensures
        open_dominators(dom, target, upto, done) == 0 <==> forall|i: int|
            0 <= i < upto && #[trigger] dom(i, target) ==> done.contains(i),
    decreases upto,
{
    if upto > 0 {
        lemma_open_zero(dom, target, upto - 1, done);
        if open_dominators(dom, target, upto, done) == 0 {
            assert forall|i: int| 0 <= i < upto && #[trigger] dom(i, target) implies done.contains(
                i,
            ) by {
                if i < upto - 1 {
                }
            }
        }
    }
}

proof fn lemma_open_beyond(
    dom: spec_fn(int, int) -> bool,
    target: int,
    upto: int,
    done: Set<int>,
    i: int,
)
    requires
        i >= upto,
    ensures
        open_dominators(dom, target, upto, done.insert(i)) == open_dominators(
            dom,
            target,
            upto,
            done,
        ),
    decreases upto,
{
    if upto > 0 {
        lemma_open_beyond(dom, target, upto - 1, done, i);
    }
}

proof fn lemma_open_insert(
    dom: spec_fn(int, int) -> bool,
    target: int,
    upto: int,
    done: Set<int>,
    i: int,
)
    requires
        0 <= i < upto,
        !done.contains(i),
    ensures
        open_dominators(dom, target, upto, done.insert(i)) == open_dominators(
            dom,
            target,
            upto,
            done,
        ) - if dom(i, target) {
            1int
        } else {
            0int
        },
    decreases upto,
{
    if upto - 1 == i {
        lemma_open_beyond(dom, target, upto - 1, done, i);
    } else {
        lemma_open_insert(dom, target, upto - 1, done, i);
    }
}

/// The number of positions below `upto` that have no level yet.
spec fn unplaced(level: Seq<int>, upto: int) -> nat
    decreases upto,
{
    if upto <= 0 {
        0
    } else {
        unplaced(level, upto - 1) + if level[upto - 1] < 0 {
            1nat
        } else {
            0nat
        }
    }
}

proof fn lemma_unplaced_shrinks(before: Seq<int>, after: Seq<int>, upto: int)
    requires
        0 <= upto <= before.len(),
        before.len() == after.len(),
        forall|x: int| 0 <= x < upto && before[x] >= 0 ==> after[x] >= 0,
    ensures
        unplaced(after, upto) <= unplaced(before, upto),
        (exists|x: int| 0 <= x < upto && before[x] < 0 && after[x] >= 0) ==> unplaced(after, upto)
            < unplaced(before, upto),
    decreases upto,
{
    if upto > 0 {
        lemma_unplaced_shrinks(before, after, upto - 1);
        if exists|x: int| 0 <= x < upto && before[x] < 0 && after[x] >= 0 {
            let x = choose|x: int| 0 <= x < upto && before[x] < 0 && after[x] >= 0;
            if x < upto - 1 {
                assert(0 <= x < upto - 1 && before[x] < 0 && after[x] >= 0);
            }
        }
    }
}

/// Whether `x` is among the first `p` entries of a list.
pub open spec fn among(list: Seq<usize>, p: int, x: int) -> bool {
    exists|t: int| 0 <= t < p && t < list.len() && #[trigger] list[t] == x
}

/// Whether a list holds `x`.
pub open spec fn has(list: Seq<usize>, x: int) -> bool {
    among(list, list.len() as int, x)
}

/// Whether `list` holds, in ascending order, exactly the members that `i`
/// dominates.
spec fn listed(list: Seq<usize>, dom: spec_fn(int, int) -> bool, i: int, n: int) -> bool {
    &&& forall|q: int| 0 <= q < list.len() ==> #[trigger] list[q] < n
    &&& forall|q1: int, q2: int| 0 <= q1 < q2 < list.len() ==> list[q1] < list[q2]
    &&& forall|q: int| 0 <= q < list.len() ==> dom(i, #[trigger] list[q] as int)
    &&& forall|j: int| 0 <= j < n && #[trigger] dom(i, j) ==> has(list, j)
}

fn domination_row<P, L: Fn(&P, &P) -> bool>(
    less: &L,
    population: &Vec<Solution<P>>,
    num_objectives: usize,
    i: usize,
) -> (row: (Vec<usize>, usize))
    requires
        binary::<P, bool, L>(*less),
        evaluated(population@, num_objectives as int),
        i < population.len(),
    ensures
        listed(
            row.0@,
            relation(*less, population@, num_objectives as int),
            i as int,
            population.len() as int,
        ),
        row.1 == open_dominators(
            relation(*less, population@, num_objectives as int),
            i as int,
            population.len() as int,
            Set::empty(),
        ),
{
    let ghost dom = relation(*less, population@, num_objectives as int);
    let n = population.len();
    let mut list: Vec<usize> = Vec::new();
    let mut count: usize = 0;
    let mut j: usize = 0;
    while j < n
        invariant
            binary::<P, bool, L>(*less),
            evaluated(population@, num_objectives as int),
            dom == relation(*less, population@, num_objectives as int),
            n == population.len(),
            i < n,
            j <= n,
            count <= j,
            count == open_dominators(dom, i as int, j as int, Set::empty()),
            listed(list@, dom, i as int, j as int),
        decreases n - j,
    {
        proof {
            lemma_dominance_asymmetric(
                *less,
                population@[i as int].objectives@,
                population@[j as int].objectives@,
                num_objectives as int,
            );
        }
        let ghost before = list@;
        if j != i {
            if dominates(less, &population[i], &population[j], num_objectives) {
                list.push(j);
                proof {
                    assert(dom(i as int, j as int));
                    assert(list@[list.len() - 1] == j);
                    assert forall|x: int| 0 <= x < j + 1 && #[trigger] dom(i as int, x) implies has(
                        list@,
                        x,
                    ) by {
                        if x < j {
                            assert(has(before, x));
                            let q = choose|q: int|
                                0 <= q < before.len() && q < before.len() && #[trigger] before[q]
                                    == x;
                            assert(list@[q] == x);
                        }
                    }
                }
            } else if dominates(less, &population[j], &population[i], num_objectives) {
                assert(dom(j as int, i as int));
                count += 1;
            }
        }
        proof {
            assert(j == i ==> !dom(j as int, i as int));
            assert(listed(list@, dom, i as int, j + 1));
        }
        j += 1;
    }
    (list, count)
}

fn domination_tables<P, L: Fn(&P, &P) -> bool>(
    less: &L,
    population: &Vec<Solution<P>>,
    num_objectives: usize,
) -> (tables: (Vec<Vec<usize>>, Vec<usize>))
    requires
        binary::<P, bool, L>(*less),
        evaluated(population@, num_objectives as int),
    ensures
        tables.0.len() == population.len(),
        tables.1.len() == population.len(),
        forall|i: int|
            0 <= i < population.len() ==> listed(
                (#[trigger] tables.0[i])@,
                relation(*less, population@, num_objectives as int),
                i,
                population.len() as int,
            ),
        forall|i: int|
            0 <= i < population.len() ==> #[trigger] tables.1[i] == open_dominators(
                relation(*less, population@, num_objectives as int),
                i,
                population.len() as int,
                Set::empty(),
            ),
{
    let ghost dom = relation(*less, population@, num_objectives as int);
    let n = population.len();
    let mut lists: Vec<Vec<usize>> = Vec::new();
    let mut counts: Vec<usize> = Vec::new();
    let mut i: usize = 0;
    while i < n
        invariant
            binary::<P, bool, L>(*less),
            evaluated(population@, num_objectives as int),
            dom == relation(*less, population@, num_objectives as int),
            n == population.len(),
            i <= n,
            lists.len() == i,
            counts.len() == i,
            forall|k: int| 0 <= k < i ==> listed((#[trigger] lists[k])@, dom, k, n as int),
            forall|k: int|
                0 <= k < i ==> #[trigger] counts[k] == open_dominators(
                    dom,
                    k,
                    n as int,
                    Set::empty(),
                ),
        decreases n - i,
    {
        let (list, count) = domination_row(less, population, num_objectives, i);
        lists.push(list);
        counts.push(count);
        i += 1;
    }
    (lists, counts)
}

/// The place in `front` of the last member of it that dominates `x`; -1
/// where none does.
pub open spec fn last_dominator(dom: spec_fn(int, int) -> bool, front: Seq<usize>, x: int) -> int {
    if exists|p: int| 0 <= p < front.len() && dom(#[trigger] front[p] as int, x) {
        choose|p: int|
            0 <= p < front.len() && dom(#[trigger] front[p] as int, x) && forall|q: int|
                p < q < front.len() ==> !dom(#[trigger] front[q] as int, x)
    } else {
        -1
    }
}

/// Whether `a` stands before `b` in a front behind `front`: the last member
/// of `front` that dominates `a` stands before the one of `b`, or it is the
/// same and `a` is the smaller.
pub open spec fn found_before(
    dom: spec_fn(int, int) -> bool,
    front: Seq<usize>,
    a: int,
    b: int,
) -> bool {
    last_dominator(dom, front, a) < last_dominator(dom, front, b) || (last_dominator(
        dom,
        front,
        a,
    ) == last_dominator(dom, front, b) && a < b)
}

/// Whether the members of every front stand in the order in which the
/// sorting finds them: the first front in ascending order, any other front
/// in the order of the last dominators in the front before it.
pub open spec fn in_order(dom: spec_fn(int, int) -> bool, fronts: Seq<Vec<usize>>) -> bool {
    &&& forall|m1: int, m2: int|
        0 < fronts.len() && 0 <= m1 < m2 < fronts[0].len() ==> fronts[0]@[m1] < fronts[0]@[m2]
    &&& forall|k: int, m1: int, m2: int|
        1 <= k < fronts.len() && 0 <= m1 < m2 < fronts[k].len() ==> found_before(
            dom,
            fronts[k - 1]@,
            #[trigger] fronts[k]@[m1] as int,
            #[trigger] fronts[k]@[m2] as int,
        )
}

/// The last dominator is where a dominator stands behind which none does.
pub proof fn lemma_last_dominator(
    dom: spec_fn(int, int) -> bool,
    front: Seq<usize>,
    x: int,
    p: int,
)
    requires
        0 <= p < front.len(),
        dom(front[p] as int, x),
        forall|q: int| p < q < front.len() ==> !dom(#[trigger] front[q] as int, x),
    ensures
        last_dominator(dom, front, x) == p,
{
    let found = last_dominator(dom, front, x);
    assert(0 <= found < front.len() && dom(front[found] as int, x) && forall|q: int|
        found < q < front.len() ==> !dom(#[trigger] front[q] as int, x));
    if found < p {
        assert(!dom(front[p] as int, x));
    } else if found > p {
        assert(!dom(front[found] as int, x));
    }
}

/// Whether the fronts hold exactly the positions that have a level, each in
/// the front of its level and once.
pub open spec fn laid_out(n: int, fronts: Seq<Vec<usize>>, level: Seq<int>) -> bool {
    &&& level.len() == n
    &&& forall|x: int| 0 <= x < n ==> -1 <= #[trigger] level[x] < fronts.len()
    &&& forall|k: int, p: int|
        0 <= k < fronts.len() && 0 <= p < fronts[k].len() ==> (#[trigger] fronts[k]@[p]) < n
            && level[fronts[k]@[p] as int] == k
    &&& forall|x: int|
        0 <= x < n && #[trigger] level[x] >= 0 ==> has(fronts[level[x]]@, x)
    &&& forall|k: int, pa: int, pb: int|
        0 <= k < fronts.len() && 0 <= pa < pb < fronts[k].len() ==> #[trigger] fronts[k]@[pa]
            != #[trigger] fronts[k]@[pb]
}

/// Whether every level is the least that dominance allows: level 0 belongs to
/// the members that nothing dominates, and a member of a higher level has all
/// that dominate it on lower levels and one of them on the level just below.
pub open spec fn justified(dom: spec_fn(int, int) -> bool, n: int, level: Seq<int>) -> bool {
    &&& forall|x: int|
        0 <= x < n ==> (#[trigger] level[x] == 0 <==> forall|d: int|
            0 <= d < n ==> !#[trigger] dom(d, x))
    &&& forall|x: int, d: int|
        0 <= x < n && 0 <= d < n && #[trigger] level[x] >= 1 && #[trigger] dom(d, x) ==> 0
            <= level[d] < level[x]
    &&& forall|x: int|
        0 <= x < n && #[trigger] level[x] >= 1 ==> exists|d: int|
            0 <= d < n && #[trigger] dom(d, x) && level[d] == level[x] - 1
}

/// Whether every member without a level is dominated by another member
/// without a level.
pub open spec fn exhausted(dom: spec_fn(int, int) -> bool, n: int, level: Seq<int>) -> bool {
    forall|x: int|
        0 <= x < n && #[trigger] level[x] < 0 ==> exists|d: int|
            0 <= d < n && #[trigger] dom(d, x) && level[d] < 0
}

/// Whether `fronts` is the sorting of `n` members by the dominance `dom`,
/// with `level` the front of each member, or -1 for a member in no front.
pub open spec fn graded(
    dom: spec_fn(int, int) -> bool,
    n: int,
    fronts: Seq<Vec<usize>>,
    level: Seq<int>,
) -> bool {
    &&& fronts.len() >= 1
    &&& forall|k: int| 1 <= k < fronts.len() ==> (#[trigger] fronts[k]).len() > 0
    &&& laid_out(n, fronts, level)
    &&& in_order(dom, fronts)
    &&& justified(dom, n, level)
    &&& exhausted(dom, n, level)
}

/// Whether the ranks of a population are those of the levels: a member with a
/// level has it as its rank, any other keeps the rank it had. Nothing else
/// changes.
pub open spec fn ranked<P>(
    before: Seq<Solution<P>>,
    after: Seq<Solution<P>>,
    level: Seq<int>,
) -> bool {
    &&& after.len() == before.len()
    &&& forall|x: int|
        0 <= x < before.len() ==> (#[trigger] after[x]).same_but_rank(before[x]) && after[x].rank
            == if level[x] >= 0 {
            level[x]
        } else {
            before[x].rank as int
        }
}

/// What one pass over the list of a member does to the counts, to the front
/// being filled and to the ranks.
spec fn released<P>(
    list: Seq<usize>,
    counts1: Seq<usize>,
    counts2: Seq<usize>,
    next1: Seq<usize>,
    next2: Seq<usize>,
    population1: Seq<Solution<P>>,
    population2: Seq<Solution<P>>,
    rank: int,
) -> bool {
    &&& counts2.len() == counts1.len()
    &&& population2.len() == population1.len()
    &&& forall|j: int|
        0 <= j < counts1.len() ==> #[trigger] counts2[j] == counts1[j] - if among(
            list,
            list.len() as int,
            j,
        ) {
            1int
        } else {
            0int
        }
    &&& forall|j: int|
        0 <= j < counts1.len() ==> (#[trigger] population2[j]).same_but_rank(population1[j])
            && population2[j].rank == if among(list, list.len() as int, j) && counts2[j] == 0 {
            rank
        } else {
            population1[j].rank as int
        }
    &&& next2.len() >= next1.len()
    &&& forall|m: int| 0 <= m < next1.len() ==> #[trigger] next2[m] == next1[m]
    &&& forall|m: int|
        next1.len() <= m < next2.len() ==> among(list, list.len() as int, #[trigger] next2[m] as int)
            && counts2[next2[m] as int] == 0
    &&& forall|m1: int, m2: int| next1.len() <= m1 < m2 < next2.len() ==> next2[m1] < next2[m2]
    &&& forall|q: int|
        0 <= q < list.len() && counts2[#[trigger] list[q] as int] == 0 ==> exists|m: int|
            next1.len() <= m < next2.len() && #[trigger] next2[m] == list[q]
}

fn release<P>(
    list: &Vec<usize>,
    counts: &mut Vec<usize>,
    next: &mut Vec<usize>,
    population: &mut Vec<Solution<P>>,
    rank: usize,
)
    requires
        old(counts).len() == old(population).len(),
        forall|q: int| 0 <= q < list.len() ==> #[trigger] list[q] < old(counts).len(),
        forall|q1: int, q2: int| 0 <= q1 < q2 < list.len() ==> list[q1] < list[q2],
        forall|q: int| 0 <= q < list.len() ==> old(counts)[#[trigger] list[q] as int] >= 1,
    ensures
        released(
            list@,
            old(counts)@,
            final(counts)@,
            old(next)@,
            final(next)@,
            old(population)@,
            final(population)@,
            rank as int,
        ),
{
    let ghost counts0 = counts@;
    let ghost next0 = next@;
    let ghost population0 = population@;
    let mut q: usize = 0;
    while q < list.len()
        invariant
            q <= list.len(),
            counts.len() == counts0.len(),
            population.len() == counts0.len(),
            population0.len() == counts0.len(),
            forall|t: int| 0 <= t < list.len() ==> #[trigger] list[t] < counts0.len(),
            forall|q1: int, q2: int| 0 <= q1 < q2 < list.len() ==> list[q1] < list[q2],
            forall|t: int| 0 <= t < list.len() ==> counts0[#[trigger] list[t] as int] >= 1,
            forall|j: int|
                0 <= j < counts0.len() ==> #[trigger] counts[j] == counts0[j] - if among(
                    list@,
                    q as int,
                    j,
                ) {
                    1int
                } else {
                    0int
                },
            forall|j: int|
                0 <= j < counts0.len() ==> (#[trigger] population[j]).same_but_rank(population0[j])
                    && population[j].rank == if among(list@, q as int, j) && counts[j] == 0 {
                    rank
                } else {
                    population0[j].rank
                },
            next.len() >= next0.len(),
            forall|m: int| 0 <= m < next0.len() ==> #[trigger] next[m] == next0[m],
            forall|m: int|
                next0.len() <= m < next.len() ==> among(list@, q as int, #[trigger] next[m] as int)
                    && counts[next[m] as int] == 0,
            forall|m1: int, m2: int| next0.len() <= m1 < m2 < next.len() ==> next[m1] < next[m2],
            forall|t: int|
                0 <= t < q && counts[#[trigger] list[t] as int] == 0 ==> exists|m: int|
                    next0.len() <= m < next.len() && #[trigger] next[m] == list[t],
        decreases list.len() - q,
    {
        let j = list[q];
        let ghost counts1 = counts@;
        let ghost next1 = next@;
        let ghost population1 = population@;
        proof {
            if among(list@, q as int, j as int) {
                let t = choose|t: int| 0 <= t < q && t < list.len() && #[trigger] list[t] == j;
                assert(list[t] < list[q as int]);
            }
            assert(counts[j as int] == counts0[j as int]);
        }
        let c = counts[j] - 1;
        counts.set(j, c);
        if c == 0 {
            population[j].rank = rank;
            next.push(j);
        }
        proof {
            assert(list@[q as int] == j);
            assert(among(list@, q + 1, j as int));
            assert forall|x: int| 0 <= x < counts0.len() implies (among(list@, q + 1, x) <==> (among(
                list@,
                q as int,
                x,
            ) || x == j)) by {
                if among(list@, q + 1, x) {
                    let t = choose|t: int| 0 <= t < q + 1 && t < list.len() && #[trigger] list[t] == x;
                    if t < q {
                        assert(among(list@, q as int, x));
                    }
                }
                if among(list@, q as int, x) {
                    let t = choose|t: int| 0 <= t < q && t < list.len() && #[trigger] list[t] == x;
                    assert(0 <= t < q + 1 && list[t] == x);
                }
            }
            assert forall|m: int| next0.len() <= m < next.len() implies among(
                list@,
                q + 1,
                #[trigger] next[m] as int,
            ) && counts[next[m] as int] == 0 by {
                if m < next1.len() {
                    assert(next[m] == next1[m]);
                    assert(among(list@, q as int, next1[m] as int));
                    assert(next1[m] != j);
                }
            }
            assert forall|m1: int, m2: int| next0.len() <= m1 < m2 < next.len() implies next[m1]
                < next[m2] by {
                if m2 == next1.len() {
                    assert(next[m1] == next1[m1]);
                    assert(among(list@, q as int, next1[m1] as int));
                    let t = choose|t: int|
                        0 <= t < q && t < list.len() && #[trigger] list[t] == next1[m1] as int;
                    assert(list[t] < list[q as int]);
                } else {
                    assert(next[m1] == next1[m1]);
                    assert(next[m2] == next1[m2]);
                }
            }
            assert forall|t: int| 0 <= t < q + 1 && counts[#[trigger] list[t] as int] == 0 implies exists|
                m: int,
            |
                next0.len() <= m < next.len() && #[trigger] next[m] == list[t] by {
                if t < q {
                    assert(list[t] < list[q as int]);
                    assert(counts1[list[t] as int] == 0);
                    let m = choose|m: int|
                        next0.len() <= m < next1.len() && #[trigger] next1[m] == list[t];
                    assert(next[m] == list[t]);
                } else {
                    assert(next[next.len() - 1] == j);
                }
            }
        }
        q += 1;
    }
}

/// What holds of the tables between two steps of the sorting: the count of
/// a member is the number of its dominators that are not done, and it is 0
/// exactly for the members that have a level.
spec fn in_step(
    dom: spec_fn(int, int) -> bool,
    n: int,
    lists: Seq<Vec<usize>>,
    counts: Seq<usize>,
    level: Seq<int>,
    done: Set<int>,
) -> bool {
    &&& 0 <= n <= usize::MAX
    &&& lists.len() == n
    &&& counts.len() == n
    &&& level.len() == n
    &&& forall|i: int| 0 <= i < n ==> listed((#[trigger] lists[i])@, dom, i, n)
    &&& forall|x: int| done.contains(x) ==> 0 <= x < n
    &&& forall|j: int| 0 <= j < n ==> #[trigger] counts[j] == open_dominators(dom, j, n, done)
    &&& forall|j: int| 0 <= j < n ==> (#[trigger] counts[j] == 0 <==> level[j] >= 0)
}

fn first_front<P>(
    population: &mut Vec<Solution<P>>,
    counts: &Vec<usize>,
    Ghost(dom): Ghost<spec_fn(int, int) -> bool>,
) -> (out: (Vec<usize>, Ghost<Seq<int>>))
    requires
        counts.len() == old(population).len(),
        forall|j: int|
            0 <= j < counts.len() ==> #[trigger] counts[j] == open_dominators(
                dom,
                j,
                counts.len() as int,
                Set::empty(),
            ),
    ensures
        out.1@.len() == counts.len(),
        forall|x: int|
            0 <= x < counts.len() ==> #[trigger] out.1@[x] == if counts[x] == 0 {
                0int
            } else {
                -1int
            },
        forall|p: int|
            0 <= p < out.0.len() ==> #[trigger] out.0[p] < counts.len() && counts[out.0[p] as int]
                == 0,
        forall|pa: int, pb: int| 0 <= pa < pb < out.0.len() ==> out.0[pa] < out.0[pb],
        forall|x: int|
            0 <= x < counts.len() && #[trigger] counts[x] == 0 ==> has(out.0@, x),
        ranked(old(population)@, final(population)@, out.1@),
{
    let n = counts.len();
    let ghost population0 = population@;
    let ghost mut level: Seq<int> = Seq::new(n as nat, |x: int| -1int);
    let mut front: Vec<usize> = Vec::new();
    let mut i: usize = 0;
    while i < n
        invariant
            n == counts.len(),
            population.len() == n,
            population0.len() == n,
            i <= n,
            level.len() == n,
            forall|x: int|
                0 <= x < n ==> #[trigger] level[x] == if x < i && counts[x] == 0 {
                    0int
                } else {
                    -1int
                },
            forall|p: int|
                0 <= p < front.len() ==> #[trigger] front[p] < i && counts[front[p] as int] == 0,
            forall|pa: int, pb: int| 0 <= pa < pb < front.len() ==> front[pa] < front[pb],
            forall|x: int| 0 <= x < i && #[trigger] counts[x] == 0 ==> has(front@, x),
            ranked(population0, population@, level),
        decreases n - i,
    {
        let ghost front1 = front@;
        if counts[i] == 0 {
            population[i].rank = 0;
            front.push(i);
            proof {
                level = level.update(i as int, 0);
                assert(front@[front.len() - 1] == i);
            }
        }
        proof {
            assert forall|x: int| 0 <= x < i + 1 && #[trigger] counts[x] == 0 implies has(
                front@,
                x,
            ) by {
                if x < i {
                    assert(has(front1, x));
                    let q = choose|q: int|
                        0 <= q < front1.len() && q < front1.len() && #[trigger] front1[q] == x;
                    assert(front@[q] == x);
                }
            }
        }
        i += 1;
    }
    (front, Ghost(level))
}

/// The levels after a pass: a member without a level whose count has come
/// down to 0 gets the level `rank`.
spec fn raised(level: Seq<int>, counts: Seq<usize>, rank: int) -> Seq<int> {
    Seq::new(
        level.len(),
        |x: int|
            if level[x] < 0 && counts[x] == 0 {
                rank
            } else {
                level[x]
            },
    )
}

/// What holds while the members of the front `current` are passed over, `p`
/// of them so far, and `next` takes up the front after it.
spec fn passing(
    dom: spec_fn(int, int) -> bool,
    n: int,
    lists: Seq<Vec<usize>>,
    counts: Seq<usize>,
    level: Seq<int>,
    done: Set<int>,
    fronts: Seq<Vec<usize>>,
    next: Vec<usize>,
    current: int,
    p: int,
    level_start: Seq<int>,
) -> bool {
    &&& in_step(dom, n, lists, counts, level, done)
    &&& laid_out(n, fronts.push(next), level)
    &&& justified(dom, n, level)
    &&& fronts.len() >= 1
    &&& current == fronts.len() - 1
    &&& 0 <= p <= fronts[current].len()
    &&& forall|x: int|
        0 <= x < n ==> (done.contains(x) <==> (0 <= #[trigger] level[x] < current || (level[x]
            == current && among(fronts[current]@, p, x))))
    &&& level_start.len() == n
    &&& forall|x: int| 0 <= x < n && #[trigger] level_start[x] >= 0 ==> level[x] == level_start[x]
    &&& forall|m: int| 0 <= m < next.len() ==> level_start[#[trigger] next[m] as int] < 0
}

proof fn lemma_member(
    dom: spec_fn(int, int) -> bool,
    n: int,
    lists: Seq<Vec<usize>>,
    counts: Seq<usize>,
    level: Seq<int>,
    done: Set<int>,
    fronts: Seq<Vec<usize>>,
    next: Vec<usize>,
    current: int,
    p: int,
    level_start: Seq<int>,
)
    requires
        passing(dom, n, lists, counts, level, done, fronts, next, current, p, level_start),
        p < fronts[current].len(),
    ensures
        ({
            let i = fronts[current]@[p] as int;
            let list = lists[i]@;
            &&& 0 <= i < n
            &&& level[i] == current
            &&& !done.contains(i)
            &&& listed(list, dom, i, n)
            &&& forall|j: int| 0 <= j < n ==> (among(list, list.len() as int, j) <==> dom(i, j))
            &&& forall|j: int|
                0 <= j < n && #[trigger] dom(i, j) ==> counts[j] >= 1 && level[j] < 0
            &&& forall|q: int| 0 <= q < list.len() ==> counts[#[trigger] list[q] as int] >= 1
        }),
{
    let i = fronts[current]@[p] as int;
    let all = fronts.push(next);
    let head = fronts[current]@;
    assert(all[current] == fronts[current]);
    assert(all[current]@[p] == i);
    if among(head, p, i) {
        let t = choose|t: int| 0 <= t < p && t < head.len() && #[trigger] head[t] == i;
        assert(all[current]@[t] != all[current]@[p]);
    }
    let list = lists[i]@;
    assert(listed(list, dom, i, n));
    assert forall|j: int| 0 <= j < n implies (among(list, list.len() as int, j) <==> dom(i, j)) by {
        if among(list, list.len() as int, j) {
            let t = choose|t: int| 0 <= t < list.len() && t < list.len() && #[trigger] list[t] == j;
            assert(dom(i, list[t] as int));
        }
        if dom(i, j) {
            assert(has(list, j));
        }
    }
    assert(0 <= i < n && level[i] == current);
    assert(!done.contains(i));
    assert forall|j: int| 0 <= j < n && #[trigger] dom(i, j) implies counts[j] >= 1 && level[j]
        < 0 by {
        lemma_open_zero(dom, j, n, done);
        assert(open_dominators(dom, j, n, done) != 0);
        assert(counts[j] == open_dominators(dom, j, n, done));
        assert(counts[j] == 0 <==> level[j] >= 0);
    }
    assert forall|q: int| 0 <= q < list.len() implies counts[#[trigger] list[q] as int] >= 1 by {
        assert(dom(i, list[q] as int));
    }
}

proof fn lemma_pass_counts(
    dom: spec_fn(int, int) -> bool,
    n: int,
    lists: Seq<Vec<usize>>,
    counts: Seq<usize>,
    level: Seq<int>,
    done: Set<int>,
    fronts: Seq<Vec<usize>>,
    next: Vec<usize>,
    current: int,
    p: int,
    level_start: Seq<int>,
    counts2: Seq<usize>,
)
    requires
        passing(dom, n, lists, counts, level, done, fronts, next, current, p, level_start),
        p < fronts[current].len(),
        counts2.len() == n,
        forall|j: int|
            0 <= j < n ==> #[trigger] counts2[j] == counts[j] - if dom(
                fronts[current]@[p] as int,
                j,
            ) {
                1int
            } else {
                0int
            },
    ensures
        in_step(
            dom,
            n,
            lists,
            counts2,
            raised(level, counts2, current + 1),
            done.insert(fronts[current]@[p] as int),
        ),
{
    let i = fronts[current]@[p] as int;
    lemma_member(dom, n, lists, counts, level, done, fronts, next, current, p, level_start);
    let done2 = done.insert(i);
    let level2 = raised(level, counts2, current + 1);
    assert forall|j: int| 0 <= j < n implies #[trigger] counts2[j] == open_dominators(
        dom,
        j,
        n,
        done2,
    ) by {
        lemma_open_insert(dom, j, n, done, i);
    }
    assert forall|j: int| 0 <= j < n implies (#[trigger] counts2[j] == 0 <==> level2[j] >= 0) by {
        assert(counts[j] == 0 <==> level[j] >= 0);
    }
}

proof fn lemma_pass_layout<P>(
    dom: spec_fn(int, int) -> bool,
    n: int,
    lists: Seq<Vec<usize>>,
    counts: Seq<usize>,
    level: Seq<int>,
    done: Set<int>,
    fronts: Seq<Vec<usize>>,
    next: Vec<usize>,
    current: int,
    p: int,
    level_start: Seq<int>,
    counts2: Seq<usize>,
    next2: Vec<usize>,
    population1: Seq<Solution<P>>,
    population2: Seq<Solution<P>>,
)
    requires
        passing(dom, n, lists, counts, level, done, fronts, next, current, p, level_start),
        p < fronts[current].len(),
        released(
            lists[fronts[current]@[p] as int]@,
            counts,
            counts2,
            next@,
            next2@,
            population1,
            population2,
            current + 1,
        ),
    ensures
        laid_out(n, fronts.push(next2), raised(level, counts2, current + 1)),
        forall|m: int| 0 <= m < next2.len() ==> level_start[#[trigger] next2[m] as int] < 0,
{
    let i = fronts[current]@[p] as int;
    let list = lists[i]@;
    lemma_member(dom, n, lists, counts, level, done, fronts, next, current, p, level_start);
    let level2 = raised(level, counts2, current + 1);
    let all = fronts.push(next);
    let all2 = fronts.push(next2);
    assert forall|k: int, q: int| 0 <= k < all2.len() && 0 <= q < all2[k].len() implies (
    #[trigger] all2[k]@[q]) < n && level2[all2[k]@[q] as int] == k by {
        if k < fronts.len() {
            assert(all2[k] == all[k]);
            assert(all[k]@[q] < n && level[all[k]@[q] as int] == k);
        } else if q < next.len() {
            assert(next2@[q] == next@[q]);
            assert(all[k]@[q] < n && level[all[k]@[q] as int] == k);
        } else {
            let x = next2@[q] as int;
            assert(among(list, list.len() as int, x));
            let t = choose|t: int| 0 <= t < list.len() && t < list.len() && #[trigger] list[t] == x;
            assert(list[t] < n);
            assert(dom(i, x));
        }
    }
    assert forall|x: int| 0 <= x < n && #[trigger] level2[x] >= 0 implies has(
        all2[level2[x]]@,
        x,
    ) by {
        if level[x] >= 0 {
            assert(has(all[level[x]]@, x));
            if level[x] < fronts.len() {
                assert(all2[level[x]] == all[level[x]]);
            } else {
                let q = choose|q: int|
                    0 <= q < next@.len() && q < next@.len() && #[trigger] next@[q] == x;
                assert(next2@[q] == x);
            }
        } else {
            assert(counts[x] != 0);
            assert(among(list, list.len() as int, x));
            let t = choose|t: int| 0 <= t < list.len() && t < list.len() && #[trigger] list[t] == x;
            assert(counts2[list[t] as int] == 0);
            let m = choose|m: int| next@.len() <= m < next2@.len() && #[trigger] next2@[m] == list[t];
            assert(next2@[m] == x);
        }
    }
    assert forall|k: int, pa: int, pb: int|
        0 <= k < all2.len() && 0 <= pa < pb < all2[k].len() implies #[trigger] all2[k]@[pa]
        != #[trigger] all2[k]@[pb] by {
        if k < fronts.len() {
            assert(all2[k] == all[k]);
            assert(all[k]@[pa] != all[k]@[pb]);
        } else if pb < next.len() {
            assert(next2@[pa] == next@[pa]);
            assert(next2@[pb] == next@[pb]);
            assert(all[k]@[pa] != all[k]@[pb]);
        } else if pa < next.len() {
            assert(next2@[pa] == next@[pa]);
            assert(level[all[k]@[pa] as int] == k);
            let x = next2@[pb] as int;
            assert(among(list, list.len() as int, x));
            assert(dom(i, x));
        }
    }
    assert forall|m: int| 0 <= m < next2.len() implies level_start[#[trigger] next2[m] as int]
        < 0 by {
        if m < next.len() {
            assert(next2@[m] == next@[m]);
        } else {
            let x = next2@[m] as int;
            assert(among(list, list.len() as int, x));
            assert(dom(i, x));
        }
    }
}

/// Whether the fronts so far stand in order and `next` holds, in order, what
/// the first `p` members of the front at `current` have set free.
#[verifier::opaque]
spec fn sequenced(
    dom: spec_fn(int, int) -> bool,
    fronts: Seq<Vec<usize>>,
    next: Vec<usize>,
    current: int,
    p: int,
) -> bool {
    &&& in_order(dom, fronts)
    &&& forall|m: int|
        0 <= m < next.len() ==> 0 <= last_dominator(
            dom,
            fronts[current]@,
            #[trigger] next[m] as int,
        ) < p
    &&& forall|m1: int, m2: int|
        0 <= m1 < m2 < next.len() ==> found_before(
            dom,
            fronts[current]@,
            #[trigger] next[m1] as int,
            #[trigger] next[m2] as int,
        )
}

proof fn lemma_pass_order_start(
    dom: spec_fn(int, int) -> bool,
    fronts: Seq<Vec<usize>>,
    next: Vec<usize>,
    current: int,
)
    requires
        in_order(dom, fronts),
        next.len() == 0,
    ensures
        sequenced(dom, fronts, next, current, 0),
{
    reveal(sequenced);
}

proof fn lemma_pass_order_over(
    dom: spec_fn(int, int) -> bool,
    fronts: Seq<Vec<usize>>,
    next: Vec<usize>,
    current: int,
    p: int,
)
    requires
        sequenced(dom, fronts, next, current, p),
        current == fronts.len() - 1,
        current >= 0,
    ensures
        in_order(dom, fronts.push(next)),
{
    reveal(sequenced);
    let all = fronts.push(next);
    assert(all[0] == fronts[0]);
    assert forall|k: int, m1: int, m2: int|
        1 <= k < all.len() && 0 <= m1 < m2 < all[k].len() implies found_before(
        dom,
        all[k - 1]@,
        #[trigger] all[k]@[m1] as int,
        #[trigger] all[k]@[m2] as int,
    ) by {
        assert(all[k - 1] == fronts[k - 1]);
        if k < fronts.len() {
            assert(all[k] == fronts[k]);
            assert(found_before(dom, fronts[k - 1]@, fronts[k]@[m1] as int, fronts[k]@[m2] as int));
        } else {
            assert(all[k] == next);
            assert(found_before(dom, fronts[current]@, next[m1] as int, next[m2] as int));
        }
    }
}

proof fn lemma_pass_order<P>(
    dom: spec_fn(int, int) -> bool,
    n: int,
    lists: Seq<Vec<usize>>,
    counts: Seq<usize>,
    level: Seq<int>,
    done: Set<int>,
    fronts: Seq<Vec<usize>>,
    next: Vec<usize>,
    current: int,
    p: int,
    level_start: Seq<int>,
    counts2: Seq<usize>,
    next2: Vec<usize>,
    population1: Seq<Solution<P>>,
    population2: Seq<Solution<P>>,
)
    requires
        passing(dom, n, lists, counts, level, done, fronts, next, current, p, level_start),
        sequenced(dom, fronts, next, current, p),
        p < fronts[current].len(),
        released(
            lists[fronts[current]@[p] as int]@,
            counts,
            counts2,
            next@,
            next2@,
            population1,
            population2,
            current + 1,
        ),
        in_step(
            dom,
            n,
            lists,
            counts2,
            raised(level, counts2, current + 1),
            done.insert(fronts[current]@[p] as int),
        ),
    ensures
        sequenced(dom, fronts, next2, current, p + 1),
{
    reveal(sequenced);
    let i = fronts[current]@[p] as int;
    let list = lists[i]@;
    let head = fronts[current]@;
    let all = fronts.push(next);
    let done2 = done.insert(i);
    lemma_member(dom, n, lists, counts, level, done, fronts, next, current, p, level_start);
    assert(all[current] == fronts[current]);
    assert forall|m: int| next.len() <= m < next2.len() implies last_dominator(
        dom,
        head,
        #[trigger] next2[m] as int,
    ) == p by {
        let x = next2@[m] as int;
        assert(among(list, list.len() as int, x));
        let t = choose|t: int| 0 <= t < list.len() && t < list.len() && #[trigger] list[t] == x;
        assert(list[t] < n);
        assert(dom(i, x));
        assert(counts2[x] == 0);
        lemma_open_zero(dom, x, n, done2);
        assert forall|q: int| p < q < head.len() implies !dom(#[trigger] head[q] as int, x) by {
            let y = head[q] as int;
            assert(all[current]@[q] < n && level[all[current]@[q] as int] == current);
            if dom(y, x) {
                assert(done2.contains(y));
                assert(all[current]@[p] != all[current]@[q]);
                assert(done.contains(y));
                assert(among(head, p, y));
                let t2 = choose|t2: int| 0 <= t2 < p && t2 < head.len() && #[trigger] head[t2] == y;
                assert(all[current]@[t2] != all[current]@[q]);
            }
        }
        lemma_last_dominator(dom, head, x, p);
    }
    assert forall|m: int| 0 <= m < next2.len() implies 0 <= last_dominator(
        dom,
        head,
        #[trigger] next2[m] as int,
    ) < p + 1 by {
        if m < next.len() {
            assert(next2@[m] == next@[m]);
        }
    }
    assert forall|m1: int, m2: int| 0 <= m1 < m2 < next2.len() implies found_before(
        dom,
        head,
        #[trigger] next2[m1] as int,
        #[trigger] next2[m2] as int,
    ) by {
        if m2 < next.len() {
            assert(next2@[m1] == next@[m1] && next2@[m2] == next@[m2]);
        } else if m1 < next.len() {
            assert(next2@[m1] == next@[m1]);
            assert(last_dominator(dom, head, next@[m1] as int) < p);
        } else {
            assert(next2@[m1] < next2@[m2]);
        }
    }
}

proof fn lemma_pass_justified(
    dom: spec_fn(int, int) -> bool,
    n: int,
    lists: Seq<Vec<usize>>,
    counts: Seq<usize>,
    level: Seq<int>,
    done: Set<int>,
    fronts: Seq<Vec<usize>>,
    next: Vec<usize>,
    current: int,
    p: int,
    level_start: Seq<int>,
    counts2: Seq<usize>,
)
    requires
        passing(dom, n, lists, counts, level, done, fronts, next, current, p, level_start),
        p < fronts[current].len(),
        in_step(
            dom,
            n,
            lists,
            counts2,
            raised(level, counts2, current + 1),
            done.insert(fronts[current]@[p] as int),
        ),
        forall|j: int|
            0 <= j < n ==> #[trigger] counts2[j] == counts[j] - if dom(
                fronts[current]@[p] as int,
                j,
            ) {
                1int
            } else {
                0int
            },
    ensures
        justified(dom, n, raised(level, counts2, current + 1)),
        forall|x: int|
            0 <= x < n ==> (done.insert(fronts[current]@[p] as int).contains(x) <==> (0
                <= #[trigger] raised(level, counts2, current + 1)[x] < current || (raised(
                level,
                counts2,
                current + 1,
            )[x] == current && among(fronts[current]@, p + 1, x)))),
        forall|x: int|
            0 <= x < n && #[trigger] level_start[x] >= 0 ==> raised(level, counts2, current + 1)[x]
                == level_start[x],
{
    let i = fronts[current]@[p] as int;
    lemma_member(dom, n, lists, counts, level, done, fronts, next, current, p, level_start);
    let level2 = raised(level, counts2, current + 1);
    let done2 = done.insert(i);
    let head = fronts[current]@;
    assert forall|x: int, d: int|
        0 <= x < n && 0 <= d < n && #[trigger] level2[x] >= 1 && #[trigger] dom(d, x) implies 0
        <= level2[d] < level2[x] by {
        if level[x] >= 1 {
            assert(0 <= level[d] < level[x]);
        } else {
            if level[x] == 0 {
                assert(!dom(d, x));
            }
            lemma_open_zero(dom, x, n, done2);
            assert(done2.contains(d));
        }
    }
    assert forall|x: int| 0 <= x < n && #[trigger] level2[x] >= 1 implies exists|d: int|
        0 <= d < n && #[trigger] dom(d, x) && level2[d] == level2[x] - 1 by {
        if level[x] >= 1 {
            let d = choose|d: int| 0 <= d < n && #[trigger] dom(d, x) && level[d] == level[x] - 1;
            assert(dom(d, x) && level2[d] == level2[x] - 1);
        } else {
            assert(counts[x] != 0);
            assert(dom(i, x) && level2[i] == level2[x] - 1);
        }
    }
    assert forall|x: int| 0 <= x < n implies (#[trigger] level2[x] == 0 <==> forall|d: int|
        0 <= d < n ==> !#[trigger] dom(d, x)) by {
        assert(level[x] == 0 <==> forall|d: int| 0 <= d < n ==> !#[trigger] dom(d, x));
    }
    assert forall|x: int| 0 <= x < n implies (among(head, p + 1, x) <==> (among(head, p, x) || x
        == i)) by {
        if among(head, p + 1, x) {
            let t = choose|t: int| 0 <= t < p + 1 && t < head.len() && #[trigger] head[t] == x;
            if t < p {
                assert(among(head, p, x));
            }
        }
        if among(head, p, x) {
            let t = choose|t: int| 0 <= t < p && t < head.len() && #[trigger] head[t] == x;
            assert(0 <= t < p + 1 && head[t] == x);
        }
        if x == i {
            assert(head[p] == x);
        }
    }
    assert forall|x: int| 0 <= x < n implies (done2.contains(x) <==> (0 <= #[trigger] level2[x]
        < current || (level2[x] == current && among(head, p + 1, x)))) by {
        assert(done.contains(x) <==> (0 <= level[x] < current || (level[x] == current && among(
            head,
            p,
            x,
        ))));
    }
}

proof fn lemma_pass_ranked<P>(
    n: int,
    counts: Seq<usize>,
    level: Seq<int>,
    counts2: Seq<usize>,
    list: Seq<usize>,
    next1: Seq<usize>,
    next2: Seq<usize>,
    population0: Seq<Solution<P>>,
    population1: Seq<Solution<P>>,
    population2: Seq<Solution<P>>,
    rank: int,
)
    requires
        counts.len() == n,
        level.len() == n,
        population0.len() == n,
        forall|j: int| 0 <= j < n ==> (#[trigger] counts[j] == 0 <==> level[j] >= 0),
        ranked(population0, population1, level),
        released(list, counts, counts2, next1, next2, population1, population2, rank),
    ensures
        ranked(population0, population2, raised(level, counts2, rank)),
{
    let level2 = raised(level, counts2, rank);
    assert forall|x: int| 0 <= x < n implies (#[trigger] population2[x]).same_but_rank(
        population0[x],
    ) && population2[x].rank == if level2[x] >= 0 {
        level2[x]
    } else {
        population0[x].rank as int
    } by {
        assert(counts[x] == 0 <==> level[x] >= 0);
        assert(population1[x].same_but_rank(population0[x]));
        assert(population2[x].same_but_rank(population1[x]));
    }
}

proof fn lemma_pass_over(
    dom: spec_fn(int, int) -> bool,
    n: int,
    lists: Seq<Vec<usize>>,
    counts: Seq<usize>,
    level: Seq<int>,
    done: Set<int>,
    fronts: Seq<Vec<usize>>,
    next: Vec<usize>,
    current: int,
    level_start: Seq<int>,
)
    requires
        passing(
            dom,
            n,
            lists,
            counts,
            level,
            done,
            fronts,
            next,
            current,
            fronts[current].len() as int,
            level_start,
        ),
    ensures
        forall|x: int| 0 <= x < n ==> (done.contains(x) <==> 0 <= #[trigger] level[x] < current + 1),
        next.len() == 0 ==> laid_out(n, fronts, level) && exhausted(dom, n, level),
        next.len() > 0 ==> unplaced(level, n) < unplaced(level_start, n),
{
    let head = fronts[current]@;
    let all = fronts.push(next);
    assert forall|x: int| 0 <= x < n implies (done.contains(x) <==> 0 <= #[trigger] level[x]
        < current + 1) by {
        if level[x] == current {
            assert(has(all[level[x]]@, x));
            assert(all[current] == fronts[current]);
        }
    }
    if next.len() == 0 {
        assert forall|x: int| 0 <= x < n implies -1 <= #[trigger] level[x] < fronts.len() by {
            if level[x] >= fronts.len() {
                assert(has(all[level[x]]@, x));
            }
        }
        assert forall|k: int, q: int| 0 <= k < fronts.len() && 0 <= q < fronts[k].len() implies (
        #[trigger] fronts[k]@[q]) < n && level[fronts[k]@[q] as int] == k by {
            assert(all[k] == fronts[k]);
            assert(all[k]@[q] < n);
        }
        assert forall|x: int| 0 <= x < n && #[trigger] level[x] >= 0 implies has(
            fronts[level[x]]@,
            x,
        ) by {
            assert(has(all[level[x]]@, x));
            assert(all[level[x]] == fronts[level[x]]);
        }
        assert forall|k: int, pa: int, pb: int|
            0 <= k < fronts.len() && 0 <= pa < pb < fronts[k].len() implies #[trigger] fronts[k]@[pa]
            != #[trigger] fronts[k]@[pb] by {
            assert(all[k] == fronts[k]);
            assert(all[k]@[pa] != all[k]@[pb]);
        }
        assert forall|x: int| 0 <= x < n && #[trigger] level[x] < 0 implies exists|d: int|
            0 <= d < n && #[trigger] dom(d, x) && level[d] < 0 by {
            lemma_open_zero(dom, x, n, done);
            assert(counts[x] != 0);
            let d = choose|d: int| 0 <= d < n && #[trigger] dom(d, x) && !done.contains(d);
            assert(dom(d, x));
        }
    } else {
        let x0 = next@[0] as int;
        assert(all[current + 1]@[0] == next@[0]);
        assert(x0 < n && level[x0] == current + 1);
        assert(level_start[x0] < 0);
        lemma_unplaced_shrinks(level_start, level, n);
    }
}

proof fn lemma_pass_start(n: int, fronts: Seq<Vec<usize>>, level: Seq<int>, next: Vec<usize>)
    requires
        laid_out(n, fronts, level),
        next.len() == 0,
    ensures
        laid_out(n, fronts.push(next), level),
{
    let all = fronts.push(next);
    assert forall|x: int| 0 <= x < n && #[trigger] level[x] >= 0 implies has(all[level[x]]@, x) by {
        assert(all[level[x]] == fronts[level[x]]);
    }
    assert forall|k: int, q: int| 0 <= k < all.len() && 0 <= q < all[k].len() implies (
    #[trigger] all[k]@[q]) < n && level[all[k]@[q] as int] == k by {
        assert(all[k] == fronts[k]);
        assert(fronts[k]@[q] < n);
    }
    assert forall|k: int, pa: int, pb: int|
        0 <= k < all.len() && 0 <= pa < pb < all[k].len() implies #[trigger] all[k]@[pa]
        != #[trigger] all[k]@[pb] by {
        assert(all[k] == fronts[k]);
        assert(fronts[k]@[pa] != fronts[k]@[pb]);
    }
}

proof fn lemma_nothing_free(
    dom: spec_fn(int, int) -> bool,
    n: int,
    lists: Seq<Vec<usize>>,
    counts: Seq<usize>,
    level: Seq<int>,
    done: Set<int>,
    fronts: Seq<Vec<usize>>,
    current: int,
)
    requires
        in_step(dom, n, lists, counts, level, done),
        laid_out(n, fronts, level),
        current == fronts.len() - 1,
        current >= 0,
        fronts[current].len() == 0,
        forall|x: int| 0 <= x < n ==> (done.contains(x) <==> 0 <= #[trigger] level[x] < current),
    ensures
        exhausted(dom, n, level),
{
    assert forall|x: int| 0 <= x < n && #[trigger] level[x] < 0 implies exists|d: int|
        0 <= d < n && #[trigger] dom(d, x) && level[d] < 0 by {
        lemma_open_zero(dom, x, n, done);
        assert(counts[x] != 0);
        let d = choose|d: int| 0 <= d < n && #[trigger] dom(d, x) && !done.contains(d);
        if level[d] >= 0 {
            assert(has(fronts[level[d]]@, d));
        }
        assert(dom(d, x));
    }
}

proof fn lemma_first_layout(
    dom: spec_fn(int, int) -> bool,
    n: int,
    counts: Seq<usize>,
    front: Vec<usize>,
    level: Seq<int>,
    fronts: Seq<Vec<usize>>,
)
    requires
        counts.len() == n,
        level.len() == n,
        fronts.len() == 1,
        fronts[0] == front,
        forall|j: int| 0 <= j < n ==> #[trigger] counts[j] == open_dominators(dom, j, n, Set::empty()),
        forall|x: int|
            0 <= x < n ==> #[trigger] level[x] == if counts[x] == 0 {
                0int
            } else {
                -1int
            },
        forall|p: int| 0 <= p < front.len() ==> #[trigger] front[p] < n && counts[front[p] as int] == 0,
        forall|pa: int, pb: int| 0 <= pa < pb < front.len() ==> front[pa] < front[pb],
        forall|x: int| 0 <= x < n && #[trigger] counts[x] == 0 ==> has(front@, x),
    ensures
        laid_out(n, fronts, level),
        justified(dom, n, level),
        in_order(dom, fronts),
{
    assert forall|x: int| 0 <= x < n implies (#[trigger] level[x] == 0 <==> forall|d: int|
        0 <= d < n ==> !#[trigger] dom(d, x)) by {
        lemma_open_zero(dom, x, n, Set::empty());
    }
    assert forall|k: int, q: int| 0 <= k < fronts.len() && 0 <= q < fronts[k].len() implies (
    #[trigger] fronts[k]@[q]) < n && level[fronts[k]@[q] as int] == k by {
        assert(front[q] < n);
    }
    assert forall|k: int, pa: int, pb: int|
        0 <= k < fronts.len() && 0 <= pa < pb < fronts[k].len() implies #[trigger] fronts[k]@[pa]
        != #[trigger] fronts[k]@[pb] by {
        assert(front[pa] < front[pb]);
    }
}

fn peel<P>(
    population: &mut Vec<Solution<P>>,
    lists: &Vec<Vec<usize>>,
    counts: Vec<usize>,
    Ghost(dom): Ghost<spec_fn(int, int) -> bool>,
) -> (out: (Vec<Vec<usize>>, Ghost<Seq<int>>))
    requires
        lists.len() == old(population).len(),
        counts.len() == old(population).len(),
        forall|i: int|
            0 <= i < lists.len() ==> listed((#[trigger] lists[i])@, dom, i, lists.len() as int),
        forall|j: int|
            0 <= j < counts.len() ==> #[trigger] counts[j] == open_dominators(
                dom,
                j,
                counts.len() as int,
                Set::empty(),
            ),
    ensures
        graded(dom, old(population).len() as int, out.0@, out.1@),
        ranked(old(population)@, final(population)@, out.1@),
{
    let n = population.len();
    let ghost population0 = population@;
    let mut counts = counts;
    let (front, Ghost(level0)) = first_front(population, &counts, Ghost(dom));
    let ghost mut level = level0;
    let ghost mut done: Set<int> = Set::empty();
    let mut fronts: Vec<Vec<usize>> = Vec::new();
    fronts.push(front);
    let mut current: usize = 0;
    proof {
        assert(fronts@.len() == 1);
        assert(fronts@[0] == front);
        lemma_first_layout(dom, n as int, counts@, front, level, fronts@);
    }
    loop
        invariant_except_break
            n == population0.len(),
            in_step(dom, n as int, lists@, counts@, level, done),
            laid_out(n as int, fronts@, level),
            in_order(dom, fronts@),
            justified(dom, n as int, level),
            fronts.len() >= 1,
            current == fronts.len() - 1,
            forall|k: int| 1 <= k < fronts.len() ==> (#[trigger] fronts[k]).len() > 0,
            forall|x: int| 0 <= x < n ==> (done.contains(x) <==> 0 <= #[trigger] level[x] < current),
        invariant
            population.len() == n,
            ranked(population0, population@, level),
        ensures
            graded(dom, n as int, fronts@, level),
        decreases unplaced(level, n as int),
    {
        if fronts[current].len() == 0 {
            proof {
                lemma_nothing_free(
                    dom,
                    n as int,
                    lists@,
                    counts@,
                    level,
                    done,
                    fronts@,
                    current as int,
                );
            }
            break ;
        }
        let ghost level_start = level;
        let mut next: Vec<usize> = Vec::new();
        let mut p: usize = 0;
        proof {
            lemma_pass_start(n as int, fronts@, level, next);
            lemma_pass_order_start(dom, fronts@, next, current as int);
        }
        while p < fronts[current].len()
            invariant
                n == population0.len(),
                population.len() == n,
                current == fronts.len() - 1,
                passing(
                    dom,
                    n as int,
                    lists@,
                    counts@,
                    level,
                    done,
                    fronts@,
                    next,
                    current as int,
                    p as int,
                    level_start,
                ),
                sequenced(dom, fronts@, next, current as int, p as int),
                ranked(population0, population@, level),
            decreases fronts[current as int].len() - p,
        {
            let i = fronts[current][p];
            let ghost counts1 = counts@;
            let ghost next1 = next;
            let ghost population1 = population@;
            proof {
                lemma_member(
                    dom,
                    n as int,
                    lists@,
                    counts@,
                    level,
                    done,
                    fronts@,
                    next,
                    current as int,
                    p as int,
                    level_start,
                );
            }
            release(&lists[i], &mut counts, &mut next, population, current + 1);
            proof {
                lemma_pass_counts(
                    dom,
                    n as int,
                    lists@,
                    counts1,
                    level,
                    done,
                    fronts@,
                    next1,
                    current as int,
                    p as int,
                    level_start,
                    counts@,
                );
                lemma_pass_layout(
                    dom,
                    n as int,
                    lists@,
                    counts1,
                    level,
                    done,
                    fronts@,
                    next1,
                    current as int,
                    p as int,
                    level_start,
                    counts@,
                    next,
                    population1,
                    population@,
                );
                lemma_pass_order(
                    dom,
                    n as int,
                    lists@,
                    counts1,
                    level,
                    done,
                    fronts@,
                    next1,
                    current as int,
                    p as int,
                    level_start,
                    counts@,
                    next,
                    population1,
                    population@,
                );
                lemma_pass_justified(
                    dom,
                    n as int,
                    lists@,
                    counts1,
                    level,
                    done,
                    fronts@,
                    next1,
                    current as int,
                    p as int,
                    level_start,
                    counts@,
                );
                lemma_pass_ranked(
                    n as int,
                    counts1,
                    level,
                    counts@,
                    lists@[i as int]@,
                    next1@,
                    next@,
                    population0,
                    population1,
                    population@,
                    current + 1,
                );
                level = raised(level, counts@, current + 1);
                done = done.insert(i as int);
            }
            p += 1;
        }
        proof {
            lemma_pass_over(
                dom,
                n as int,
                lists@,
                counts@,
                level,
                done,
                fronts@,
                next,
                current as int,
                level_start,
            );
            lemma_pass_order_over(dom, fronts@, next, current as int, p as int);
        }
        if next.len() == 0 {
            break ;
        }
        fronts.push(next);
        current += 1;
    }
    (fronts, Ghost(level))
}

/// The front that holds `x`, or -1 where none does.
pub open spec fn front_of(fronts: Seq<Vec<usize>>, x: int) -> int {
    if exists|k: int| 0 <= k < fronts.len() && has((#[trigger] fronts[k])@, x) {
        choose|k: int| 0 <= k < fronts.len() && has((#[trigger] fronts[k])@, x)
    } else {
        -1
    }
}

/// For each of `n` members the front that holds it, or -1.
pub open spec fn levels(fronts: Seq<Vec<usize>>, n: int) -> Seq<int> {
    Seq::new(n as nat, |x: int| front_of(fronts, x))
}

proof fn lemma_levels(n: int, fronts: Seq<Vec<usize>>, level: Seq<int>)
    requires
        n >= 0,
        laid_out(n, fronts, level),
    ensures
        level == levels(fronts, n),
{
    assert forall|x: int| 0 <= x < n implies level[x] == front_of(fronts, x) by {
        if level[x] >= 0 {
            assert(has(fronts[level[x]]@, x));
        }
        if exists|k: int| 0 <= k < fronts.len() && has((#[trigger] fronts[k])@, x) {
            let k = choose|k: int| 0 <= k < fronts.len() && has((#[trigger] fronts[k])@, x);
            let q = choose|q: int|
                0 <= q < fronts[k]@.len() && q < fronts[k]@.len() && #[trigger] fronts[k]@[q] == x;
            assert(level[fronts[k]@[q] as int] == k);
        }
    }
    assert(level =~= levels(fronts, n));
}

/// Sorts a population into fronts and ranks it: the first front holds the
/// members that nothing dominates, each later front those whose dominators
/// lie in earlier fronts, one of them in the front just before. The result
/// lists the members of each front by position: the first front in ascending
/// order, a later front by the place of each member's last dominator in the
/// front before, and in ascending order where that is the same. A member's
/// rank becomes the number of its front. A member that is in no front (which
/// takes a cycle of dominance) keeps its rank.
pub fn non_dominated_sort<P, L: Fn(&P, &P) -> bool>(
    less: &L,
    population: &mut Vec<Solution<P>>,
    num_objectives: usize,
) -> (fronts: Vec<Vec<usize>>)
    requires
        binary::<P, bool, L>(*less),
        evaluated(old(population)@, num_objectives as int),
    ensures
        graded(
            relation(*less, old(population)@, num_objectives as int),
            old(population).len() as int,
            fronts@,
            levels(fronts@, old(population).len() as int),
        ),
        ranked(
            old(population)@,
            final(population)@,
            levels(fronts@, old(population).len() as int),
        ),
{
    let ghost dom = relation(*less, population@, num_objectives as int);
    let (lists, counts) = domination_tables(less, population, num_objectives);
    let (fronts, Ghost(level)) = peel(population, &lists, counts, Ghost(dom));
    proof {
        lemma_levels(old(population).len() as int, fronts@, level);
    }
    fronts
}

/// Whether, on each of the first `n` objectives, "not less" is transitive
/// among the values of the population: where `a` is not less than `b` and `b`
/// not less than `c`, `a` is not less than `c`. It is so for numbers that
/// can all be compared with each other.
#[verifier::opaque]
pub open spec fn comparable<P, L: Fn(&P, &P) -> bool>(
    less: L,
    population: Seq<Solution<P>>,
    n: int,
) -> bool {
    forall|i: int, j: int, k: int, m: int|
        0 <= i < population.len() && 0 <= j < population.len() && 0 <= k < population.len() && 0
            <= m < n && !precedes(
            less,
            #[trigger] population[i].objectives@[m],
            #[trigger] population[j].objectives@[m],
        ) && !precedes(less, population[j].objectives@[m], #[trigger] population[k].objectives@[m])
            ==> !precedes(less, population[i].objectives@[m], population[k].objectives@[m])
}

/// Dominance is transitive among the members of a population whose values
/// can all be compared.
pub proof fn lemma_dominance_transitive<P, L: Fn(&P, &P) -> bool>(
    less: L,
    population: Seq<Solution<P>>,
    n: int,
    i: int,
    j: int,
    k: int,
)
    requires
        comparable(less, population, n),
        0 <= i < population.len(),
        0 <= j < population.len(),
        0 <= k < population.len(),
        dominated_by(less, population, n, i, j),
        dominated_by(less, population, n, j, k),
    ensures
        dominated_by(less, population, n, i, k),
{
    reveal(comparable);
    let a = population[i].objectives@;
    let b = population[j].objectives@;
    let c = population[k].objectives@;
    assert forall|m: int| 0 <= m < n implies !precedes(less, #[trigger] c[m], a[m]) by {
        assert(!precedes(less, c[m], b[m]));
        assert(!precedes(less, b[m], a[m]));
        assert(!precedes(less, population[k].objectives@[m], population[j].objectives@[m]));
    }
    let m = choose|m: int| 0 <= m < n && precedes(less, #[trigger] a[m], b[m]);
    assert(!precedes(less, c[m], b[m]));
    if !precedes(less, a[m], c[m]) {
        assert(!precedes(less, population[i].objectives@[m], population[k].objectives@[m]));
        assert(!precedes(less, population[k].objectives@[m], population[j].objectives@[m]));
        assert(!precedes(less, population[i].objectives@[m], population[j].objectives@[m]));
    }
    assert(precedes(less, a[m], c[m]));
}

proof fn lemma_open_fewer(
    dom: spec_fn(int, int) -> bool,
    a: int,
    b: int,
    upto: int,
    done: Set<int>,
    witness: int,
)
    requires
        forall|e: int| 0 <= e < upto && #[trigger] dom(e, a) ==> dom(e, b),
    ensures
        open_dominators(dom, a, upto, done) <= open_dominators(dom, b, upto, done),
        0 <= witness < upto && !done.contains(witness) && dom(witness, b) && !dom(witness, a)
            ==> open_dominators(dom, a, upto, done) < open_dominators(dom, b, upto, done),
    decreases upto,
{
    if upto > 0 {
        lemma_open_fewer(dom, a, b, upto - 1, done, witness);
        if dom(upto - 1, a) {
            assert(dom(upto - 1, b));
        }
    }
}

proof fn lemma_no_descent(
    dom: spec_fn(int, int) -> bool,
    n: int,
    level: Seq<int>,
    x: int,
)
    requires
        level.len() == n,
        exhausted(dom, n, level),
        forall|d: int| 0 <= d < n ==> !#[trigger] dom(d, d),
        forall|d: int, e: int, f: int|
            0 <= d < n && 0 <= e < n && 0 <= f < n && #[trigger] dom(d, e) && #[trigger] dom(e, f)
                ==> dom(d, f),
        0 <= x < n,
    ensures
        level[x] >= 0,
    decreases open_dominators(dom, x, n, Set::new(|y: int| 0 <= y < n && level[y] >= 0)),
{
    if level[x] < 0 {
        let placed = Set::new(|y: int| 0 <= y < n && level[y] >= 0);
        let d = choose|d: int| 0 <= d < n && #[trigger] dom(d, x) && level[d] < 0;
        assert(dom(d, x));
        assert forall|e: int| 0 <= e < n && #[trigger] dom(e, d) implies dom(e, x) by {}
        lemma_open_fewer(dom, d, x, n, placed, d);
        lemma_no_descent(dom, n, level, d);
    }
}

proof fn lemma_relation_is_order<P, L: Fn(&P, &P) -> bool>(
    less: L,
    population: Seq<Solution<P>>,
    n: int,
)
    requires
        comparable(less, population, n),
    ensures
        forall|d: int|
            0 <= d < population.len() ==> !#[trigger] relation(less, population, n)(d, d),
        forall|d: int, e: int, f: int|
            0 <= d < population.len() && 0 <= e < population.len() && 0 <= f < population.len()
                && #[trigger] relation(less, population, n)(d, e) && #[trigger] relation(
                less,
                population,
                n,
            )(e, f) ==> relation(less, population, n)(d, f),
{
    let dom = relation(less, population, n);
    assert forall|d: int| 0 <= d < population.len() implies !#[trigger] dom(d, d) by {
        lemma_dominance_asymmetric(less, population[d].objectives@, population[d].objectives@, n);
    }
    assert forall|d: int, e: int, f: int|
        0 <= d < population.len() && 0 <= e < population.len() && 0 <= f < population.len()
            && #[trigger] dom(d, e) && #[trigger] dom(e, f) implies dom(d, f) by {
        lemma_dominance_transitive(less, population, n, d, e, f);
    }
}

/// In a population whose values can all be compared, the sorting leaves no
/// member out: each is in a front.
pub proof fn lemma_sort_places_everyone<P, L: Fn(&P, &P) -> bool>(
    less: L,
    population: Seq<Solution<P>>,
    n: int,
    fronts: Seq<Vec<usize>>,
)
    requires
        comparable(less, population, n),
        graded(
            relation(less, population, n),
            population.len() as int,
            fronts,
            levels(fronts, population.len() as int),
        ),
    ensures
        forall|x: int| 0 <= x < population.len() ==> 0 <= #[trigger] front_of(fronts, x),
{
    let dom = relation(less, population, n);
    let size = population.len() as int;
    let level = levels(fronts, size);
    lemma_relation_is_order(less, population, n);
    assert(exhausted(dom, size, level));
    assert forall|x: int| 0 <= x < size implies 0 <= #[trigger] front_of(fronts, x) by {
        lemma_no_descent(dom, size, level, x);
        assert(level[x] == front_of(fronts, x));
    }
}

/// After the sorting of a population whose values can all be compared, no
/// member of rank 0 dominates another member of rank 0.
pub proof fn lemma_rank_zero_is_pareto<P, L: Fn(&P, &P) -> bool>(
    less: L,
    before: Seq<Solution<P>>,
    after: Seq<Solution<P>>,
    n: int,
    fronts: Seq<Vec<usize>>,
    x: int,
    y: int,
)
    requires
        comparable(less, before, n),
        graded(
            relation(less, before, n),
            before.len() as int,
            fronts,
            levels(fronts, before.len() as int),
        ),
        ranked(before, after, levels(fronts, before.len() as int)),
        0 <= x < after.len(),
        0 <= y < after.len(),
        after[x].rank == 0,
        after[y].rank == 0,
    ensures
        !dominates_spec(less, after[x].objectives@, after[y].objectives@, n),
{
    lemma_sort_places_everyone(less, before, n, fronts);
    let dom = relation(less, before, n);
    let level = levels(fronts, before.len() as int);
    assert(level[x] == front_of(fronts, x));
    assert(level[y] == front_of(fronts, y));
    assert(after[x].same_but_rank(before[x]));
    assert(after[y].same_but_rank(before[y]));
    assert(level[y] == 0);
    assert(!dom(x, y));
}

} // verus!
