//! Stable sorting by a caller's order, of positions and of solutions.
use vstd::prelude::*;
use crate::arithmetic::{binary, precedes};
use crate::metaheuristic::objects::Solution;

verus! {

/// `s`, taken as sorted, with `x` put behind the last entry that `x` does not
/// come before.
pub open spec fn insert_by<T>(before: spec_fn(T, T) -> bool, s: Seq<T>, x: T) -> Seq<T>
    decreases s.len(),
{
    if s.len() == 0 {
        seq![x]
    } else if before(x, s.last()) {
        insert_by(before, s.drop_last(), x).push(s.last())
    } else {
        s.push(x)
    }
}

/// The entries of `s` sorted by `before`; entries of which neither comes
/// before the other keep their order.
pub open spec fn sort_by<T>(before: spec_fn(T, T) -> bool, s: Seq<T>) -> Seq<T>
    decreases s.len(),
{
    if s.len() == 0 {
        s
    } else {
        insert_by(before, sort_by(before, s.drop_last()), s.last())
    }
}

/// Inserting adds the entry and nothing else.
pub proof fn lemma_insert_by<T>(before: spec_fn(T, T) -> bool, s: Seq<T>, x: T)
    ensures
        insert_by(before, s, x).len() == s.len() + 1,
        insert_by(before, s, x).contains(x),
        forall|y: T| #[trigger] s.contains(y) ==> insert_by(before, s, x).contains(y),
        forall|y: T| #[trigger] insert_by(before, s, x).contains(y) ==> s.contains(y) || y == x,
        s.no_duplicates() && !s.contains(x) ==> insert_by(before, s, x).no_duplicates(),
    decreases s.len(),
{
    let r = insert_by(before, s, x);
    if s.len() == 0 {
        assert(r[0] == x);
        assert forall|y: T| #[trigger] r.contains(y) implies s.contains(y) || y == x by {
            let i = choose|i: int| 0 <= i < r.len() && r[i] == y;
        }
    } else if before(x, s.last()) {
        let front = s.drop_last();
        let inner = insert_by(before, front, x);
        lemma_insert_by(before, front, x);
        assert(r == inner.push(s.last()));
        assert(r.contains(x)) by {
            let i = choose|i: int| 0 <= i < inner.len() && inner[i] == x;
            assert(r[i] == x);
        }
        assert forall|y: T| #[trigger] s.contains(y) implies r.contains(y) by {
            let k = choose|k: int| 0 <= k < s.len() && s[k] == y;
            if k < front.len() {
                assert(front[k] == y);
                assert(front.contains(y));
                assert(inner.contains(y));
                let i = choose|i: int| 0 <= i < inner.len() && inner[i] == y;
                assert(r[i] == y);
            } else {
                assert(r[r.len() - 1] == y);
            }
        }
        assert forall|y: T| #[trigger] r.contains(y) implies s.contains(y) || y == x by {
            let i = choose|i: int| 0 <= i < r.len() && r[i] == y;
            if i < inner.len() {
                assert(inner[i] == y);
                assert(inner.contains(y));
                if front.contains(y) {
                    let k = choose|k: int| 0 <= k < front.len() && front[k] == y;
                    assert(s[k] == y);
                }
            } else {
                assert(s[s.len() - 1] == y);
            }
        }
        if s.no_duplicates() && !s.contains(x) {
            assert(front.no_duplicates());
            if front.contains(x) {
                let k = choose|k: int| 0 <= k < front.len() && front[k] == x;
                assert(s[k] == x);
            }
            if inner.contains(s.last()) {
                assert(front.contains(s.last()));
                let k = choose|k: int| 0 <= k < front.len() && front[k] == s.last();
                assert(s[k] == s[s.len() - 1]);
            }
            assert forall|i: int, j: int| 0 <= i < r.len() && 0 <= j < r.len() && i != j implies r[i]
                != r[j] by {
                if i < inner.len() && j < inner.len() {
                    assert(inner[i] != inner[j]);
                } else if i < inner.len() {
                    assert(inner.contains(inner[i]));
                } else if j < inner.len() {
                    assert(inner.contains(inner[j]));
                }
            }
        }
    } else {
        assert(r[r.len() - 1] == x);
        assert forall|y: T| #[trigger] s.contains(y) implies r.contains(y) by {
            let k = choose|k: int| 0 <= k < s.len() && s[k] == y;
            assert(r[k] == y);
        }
        assert forall|y: T| #[trigger] r.contains(y) implies s.contains(y) || y == x by {
            let i = choose|i: int| 0 <= i < r.len() && r[i] == y;
            if i < s.len() {
                assert(s[i] == y);
            }
        }
        if s.no_duplicates() && !s.contains(x) {
            assert forall|i: int, j: int| 0 <= i < r.len() && 0 <= j < r.len() && i != j implies r[i]
                != r[j] by {
                if i < s.len() && j < s.len() {
                    assert(s[i] != s[j]);
                } else if i < s.len() {
                    assert(s.contains(s[i]));
                } else if j < s.len() {
                    assert(s.contains(s[j]));
                }
            }
        }
    }
}

/// Sorting keeps the length and the entries, and sorts a sequence without
/// duplicates into one without duplicates.
pub proof fn lemma_sort_by<T>(before: spec_fn(T, T) -> bool, s: Seq<T>)
    ensures
        sort_by(before, s).len() == s.len(),
        forall|y: T| #[trigger] s.contains(y) ==> sort_by(before, s).contains(y),
        forall|y: T| #[trigger] sort_by(before, s).contains(y) ==> s.contains(y),
        s.no_duplicates() ==> sort_by(before, s).no_duplicates(),
    decreases s.len(),
{
    if s.len() > 0 {
        let front = s.drop_last();
        let inner = sort_by(before, front);
        let r = sort_by(before, s);
        lemma_sort_by(before, front);
        lemma_insert_by(before, inner, s.last());
        assert(r == insert_by(before, inner, s.last()));
        assert forall|y: T| #[trigger] s.contains(y) implies r.contains(y) by {
            let k = choose|k: int| 0 <= k < s.len() && s[k] == y;
            if k < front.len() {
                assert(front[k] == y);
                assert(front.contains(y));
                assert(inner.contains(y));
            }
        }
        assert forall|y: T| #[trigger] r.contains(y) implies s.contains(y) by {
            if inner.contains(y) {
                assert(front.contains(y));
                let k = choose|k: int| 0 <= k < front.len() && front[k] == y;
                assert(s[k] == y);
            } else {
                assert(s[s.len() - 1] == y);
            }
        }
        if s.no_duplicates() {
            assert(front.no_duplicates());
            if inner.contains(s.last()) {
                assert(front.contains(s.last()));
                let k = choose|k: int| 0 <= k < front.len() && front[k] == s.last();
                assert(s[k] == s[s.len() - 1]);
            }
        }
    }
}

/// Whether `before` orders the entries of `s` as a ranking does: of two
/// entries at most one comes before the other, and where `a` does not come
/// before `b` nor `b` before `c`, `a` does not come before `c`.
pub open spec fn ranks<T>(before: spec_fn(T, T) -> bool, s: Seq<T>) -> bool {
    &&& forall|a: T, b: T|
        s.contains(a) && s.contains(b) && #[trigger] before(a, b) ==> !before(b, a)
    &&& forall|a: T, b: T, c: T|
        s.contains(a) && s.contains(b) && s.contains(c) && !#[trigger] before(a, b)
            && !#[trigger] before(b, c) ==> !before(a, c)
}

/// Whether no entry comes before an earlier entry.
pub open spec fn ordered<T>(before: spec_fn(T, T) -> bool, s: Seq<T>) -> bool {
    forall|i: int, j: int| 0 <= i < j < s.len() ==> !before(#[trigger] s[j], #[trigger] s[i])
}

proof fn lemma_insert_ordered<T>(before: spec_fn(T, T) -> bool, all: Seq<T>, s: Seq<T>, x: T)
    requires
        ranks(before, all),
        all.contains(x),
        forall|i: int| 0 <= i < s.len() ==> all.contains(#[trigger] s[i]),
        ordered(before, s),
    ensures
        ordered(before, insert_by(before, s, x)),
    decreases s.len(),
{
    let r = insert_by(before, s, x);
    if s.len() == 0 {
    } else if before(x, s.last()) {
        let front = s.drop_last();
        let inner = insert_by(before, front, x);
        assert forall|i: int| 0 <= i < front.len() implies all.contains(#[trigger] front[i]) by {
            assert(front[i] == s[i]);
        }
        assert forall|i: int, j: int| 0 <= i < j < front.len() implies !before(
            #[trigger] front[j],
            #[trigger] front[i],
        ) by {
            assert(front[j] == s[j] && front[i] == s[i]);
        }
        lemma_insert_ordered(before, all, front, x);
        lemma_insert_by(before, front, x);
        assert(all.contains(s[s.len() - 1]));
        assert forall|i: int, j: int| 0 <= i < j < r.len() implies !before(
            #[trigger] r[j],
            #[trigger] r[i],
        ) by {
            if j < inner.len() {
                assert(r[j] == inner[j] && r[i] == inner[i]);
            } else {
                assert(r[j] == s.last());
                assert(r[i] == inner[i]);
                assert(inner.contains(inner[i]));
                if inner[i] == x {
                } else {
                    assert(front.contains(inner[i]));
                    let k = choose|k: int| 0 <= k < front.len() && front[k] == inner[i];
                    assert(s[k] == inner[i]);
                    assert(!before(s[s.len() - 1], s[k]));
                }
            }
        }
    } else {
        assert forall|i: int, j: int| 0 <= i < j < r.len() implies !before(
            #[trigger] r[j],
            #[trigger] r[i],
        ) by {
            if j < s.len() {
                assert(r[j] == s[j] && r[i] == s[i]);
            } else {
                assert(r[j] == x);
                assert(r[i] == s[i]);
                assert(all.contains(s[i]));
                assert(all.contains(s[s.len() - 1]));
                if i < s.len() - 1 {
                    assert(!before(s[s.len() - 1], s[i]));
                }
                assert(!before(x, s[s.len() - 1]));
            }
        }
    }
}

/// Sorting by an order that ranks the entries leaves no entry before an
/// earlier one.
pub proof fn lemma_sort_by_ordered<T>(before: spec_fn(T, T) -> bool, s: Seq<T>)
    requires
        ranks(before, s),
    ensures
        ordered(before, sort_by(before, s)),
{
    lemma_sort_prefix_ordered(before, s, s.len() as int);
    assert(s.take(s.len() as int) =~= s);
}

proof fn lemma_sort_prefix_ordered<T>(before: spec_fn(T, T) -> bool, s: Seq<T>, n: int)
    requires
        ranks(before, s),
        0 <= n <= s.len(),
    ensures
        ordered(before, sort_by(before, s.take(n))),
    decreases n,
{
    if n > 0 {
        let prefix = s.take(n);
        let front = prefix.drop_last();
        assert(front =~= s.take(n - 1));
        lemma_sort_prefix_ordered(before, s, n - 1);
        let inner = sort_by(before, front);
        lemma_sort_by(before, front);
        assert forall|i: int| 0 <= i < inner.len() implies s.contains(#[trigger] inner[i]) by {
            assert(inner.contains(inner[i]));
            assert(front.contains(inner[i]));
            let k = choose|k: int| 0 <= k < front.len() && front[k] == inner[i];
            assert(s[k] == inner[i]);
        }
        assert(s[n - 1] == prefix.last());
        lemma_insert_ordered(before, s, inner, prefix.last());
    }
}

/// Where the place of `x` is known, inserting puts it there.
pub proof fn lemma_insert_at<T>(before: spec_fn(T, T) -> bool, s: Seq<T>, x: T, j: int)
    requires
        0 <= j <= s.len(),
        forall|k: int| j <= k < s.len() ==> before(x, #[trigger] s[k]),
        j > 0 ==> !before(x, s[j - 1]),
    ensures
        insert_by(before, s, x) == s.subrange(0, j).push(x) + s.subrange(j, s.len() as int),
    decreases s.len(),
{
    if s.len() == 0 {
        assert(insert_by(before, s, x) =~= s.subrange(0, j).push(x) + s.subrange(
            j,
            s.len() as int,
        ));
    } else if j == s.len() {
        assert(s.push(x) =~= s.subrange(0, j).push(x) + s.subrange(j, s.len() as int));
    } else {
        let front = s.drop_last();
        assert(before(x, s[s.len() - 1]));
        assert forall|k: int| j <= k < front.len() implies before(x, #[trigger] front[k]) by {
            assert(front[k] == s[k]);
        }
        lemma_insert_at(before, front, x, j);
        assert(insert_by(before, front, x).push(s.last()) =~= s.subrange(0, j).push(x)
            + s.subrange(j, s.len() as int));
    }
}

/// The order that the optimizers keep their populations in: by rank, the
/// lower first, and within a rank by crowding distance, the greater first.
pub open spec fn ahead<P, L: Fn(&P, &P) -> bool>(less: L) -> spec_fn(
    Solution<P>,
    Solution<P>,
) -> bool {
    |a: Solution<P>, b: Solution<P>|
        a.rank < b.rank || (a.rank == b.rank && precedes(
            less,
            b.crowding_distance,
            a.crowding_distance,
        ))
}

/// The objective `m` of each member.
pub open spec fn column<P>(population: Seq<Solution<P>>, m: int) -> Seq<P> {
    Seq::new(population.len(), |i: int| population[i].objectives@[m])
}

/// The order of positions by the number that each holds in `keys`, the
/// smaller first.
pub open spec fn by_key<P, L: Fn(&P, &P) -> bool>(less: L, keys: Seq<P>) -> spec_fn(
    usize,
    usize,
) -> bool {
    |a: usize, b: usize| precedes(less, keys[a as int], keys[b as int])
}

/// The order of members by their objective `m`, the smaller first.
pub open spec fn by_objective<P, L: Fn(&P, &P) -> bool>(
    less: L,
    population: Seq<Solution<P>>,
    m: int,
) -> spec_fn(usize, usize) -> bool {
    by_key(less, column(population, m))
}

/// What a sequence of solutions is sorted by.
#[derive(Clone, Copy, Debug)]
pub enum Order {
    /// By rank, the lower first, and within a rank by crowding distance, the
    /// greater first.
    Selection,
    /// By the objective of the given number, the smaller first.
    Objective(usize),
    /// By crowding distance, the greater first.
    Crowding,
}

/// The order of solutions by their objective `m`, the smaller first.
pub open spec fn by_value<P, L: Fn(&P, &P) -> bool>(less: L, m: int) -> spec_fn(
    Solution<P>,
    Solution<P>,
) -> bool {
    |a: Solution<P>, b: Solution<P>| precedes(less, a.objectives@[m], b.objectives@[m])
}

/// The order of solutions by crowding distance, the greater first.
pub open spec fn by_distance<P, L: Fn(&P, &P) -> bool>(less: L) -> spec_fn(
    Solution<P>,
    Solution<P>,
) -> bool {
    |a: Solution<P>, b: Solution<P>| precedes(less, b.crowding_distance, a.crowding_distance)
}

/// Whether `a` comes before `b` in an order.
pub open spec fn arranged<P, L: Fn(&P, &P) -> bool>(less: L, order: Order) -> spec_fn(
    Solution<P>,
    Solution<P>,
) -> bool {
    match order {
        Order::Selection => ahead(less),
        Order::Objective(m) => by_value(less, m as int),
        Order::Crowding => by_distance(less),
    }
}

fn comes_before<P, L: Fn(&P, &P) -> bool>(
    less: &L,
    order: Order,
    a: &Solution<P>,
    b: &Solution<P>,
) -> (r: bool)
    requires
        binary::<P, bool, L>(*less),
        order matches Order::Objective(m) ==> m < a.objectives.len() && m < b.objectives.len(),
    ensures
        r == arranged(*less, order)(*a, *b),
{
    match order {
        Order::Selection => a.rank < b.rank || (a.rank == b.rank && less(
            &b.crowding_distance,
            &a.crowding_distance,
        )),
        Order::Objective(m) => less(&a.objectives[m], &b.objectives[m]),
        Order::Crowding => less(&b.crowding_distance, &a.crowding_distance),
    }
}

/// Sorts solutions by an order; solutions of which neither comes before the
/// other keep their order.
pub fn sort_solutions<P, L: Fn(&P, &P) -> bool>(
    less: &L,
    order: Order,
    population: &mut Vec<Solution<P>>,
)
    requires
        binary::<P, bool, L>(*less),
        order matches Order::Objective(m) ==> forall|i: int|
            0 <= i < old(population).len() ==> m < (#[trigger] old(population)[i]).objectives.len(),
    ensures
        final(population)@ == sort_by(arranged(*less, order), old(population)@),
{
    let ghost before = arranged(*less, order);
    let ghost start = population@;
    let n = population.len();
    let mut i: usize = 0;
    while i < n
        invariant
            binary::<P, bool, L>(*less),
            before == arranged(*less, order),
            order matches Order::Objective(m) ==> forall|i: int|
                0 <= i < start.len() ==> m < (#[trigger] start[i]).objectives.len(),
            n == start.len(),
            population.len() == n,
            i <= n,
            population@ == sort_by(before, start.subrange(0, i as int)) + start.subrange(
                i as int,
                n as int,
            ),
        decreases n - i,
    {
        let ghost sorted = sort_by(before, start.subrange(0, i as int));
        proof {
            lemma_sort_by(before, start.subrange(0, i as int));
            assert forall|k: int| 0 <= k < sorted.len() implies (order matches Order::Objective(m)
                ==> m < (#[trigger] sorted[k]).objectives.len()) by {
                assert(sorted.contains(sorted[k]));
                assert(start.subrange(0, i as int).contains(sorted[k]));
                let q = choose|q: int|
                    0 <= q < start.subrange(0, i as int).len() && start.subrange(0, i as int)[q]
                        == sorted[k];
                assert(start[q] == sorted[k]);
            }
        }
        let x = population.remove(i);
        assert(x == start[i as int]);
        assert(population@ == sorted + start.subrange(i + 1, n as int));
        let mut j: usize = i;
        while j > 0 && comes_before(less, order, &x, &population[j - 1])
            invariant
                binary::<P, bool, L>(*less),
                before == arranged(*less, order),
                order matches Order::Objective(m) ==> m < x.objectives.len(),
                forall|k: int|
                    0 <= k < sorted.len() ==> (order matches Order::Objective(m) ==> m < (
                    #[trigger] sorted[k]).objectives.len()),
                j <= i,
                i < n,
                sorted.len() == i,
                population.len() == n - 1,
                population@ == sorted + start.subrange(i + 1, n as int),
                forall|k: int| j <= k < i ==> before(x, #[trigger] sorted[k]),
            decreases j,
        {
            assert(population@[j - 1] == sorted[j - 1]);
            assert(before(x, sorted[j - 1]));
            j -= 1;
        }
        proof {
            if j > 0 {
                assert(population@[j - 1] == sorted[j - 1]);
                assert(!before(x, sorted[j - 1]));
            }
            lemma_insert_at(before, sorted, x, j as int);
        }
        population.insert(j, x);
        proof {
            let prefix = start.subrange(0, i + 1);
            assert(prefix.drop_last() =~= start.subrange(0, i as int));
            assert(prefix.last() == x);
            assert(sort_by(before, prefix) == insert_by(before, sorted, x));
            assert(population@ =~= sort_by(before, prefix) + start.subrange(i + 1, n as int));
        }
        i += 1;
    }
    assert(start.subrange(0, n as int) =~= start);
    assert(population@ =~= sort_by(before, start));
}

/// Sorts a population by rank and, within a rank, by falling crowding
/// distance; members that are alike in both keep their order.
pub fn sort_population<P, L: Fn(&P, &P) -> bool>(less: &L, population: &mut Vec<Solution<P>>)
    requires
        binary::<P, bool, L>(*less),
    ensures
        final(population)@ == sort_by(ahead(*less), old(population)@),
{
    sort_solutions(less, Order::Selection, population)
}

/// The positions of `front` sorted by the objective `m` of their members,
/// the smaller first; positions of members that are alike in it keep their
/// order.
pub fn sort_front<P, L: Fn(&P, &P) -> bool>(
    less: &L,
    population: &Vec<Solution<P>>,
    front: &Vec<usize>,
    m: usize,
) -> (sorted: Vec<usize>)
    requires
        binary::<P, bool, L>(*less),
        forall|q: int|
            0 <= q < front.len() ==> #[trigger] front[q] < population.len()
                && population[front[q] as int].objectives.len() > m,
    ensures
        sorted@ == sort_by(by_objective(*less, population@, m as int), front@),
{
    let ghost before = by_objective(*less, population@, m as int);
    let n = front.len();
    let mut sorted: Vec<usize> = Vec::with_capacity(n);
    let mut i: usize = 0;
    while i < n
        invariant
            binary::<P, bool, L>(*less),
            before == by_objective(*less, population@, m as int),
            n == front.len(),
            i <= n,
            forall|q: int|
                0 <= q < front.len() ==> #[trigger] front[q] < population.len()
                    && population[front[q] as int].objectives.len() > m,
            sorted@ == sort_by(before, front@.subrange(0, i as int)),
        decreases n - i,
    {
        let ghost done = sorted@;
        proof {
            lemma_sort_by(before, front@.subrange(0, i as int));
            assert forall|k: int| 0 <= k < done.len() implies #[trigger] done[k] < population.len()
                && population[done[k] as int].objectives.len() > m by {
                assert(done.contains(done[k]));
                assert(front@.subrange(0, i as int).contains(done[k]));
                let q = choose|q: int|
                    0 <= q < front@.subrange(0, i as int).len() && front@.subrange(0, i as int)[q]
                        == done[k];
                assert(front[q] == done[k]);
            }
        }
        let x = front[i];
        let mut j: usize = sorted.len();
        while j > 0 && less(
            &population[x].objectives[m],
            &population[sorted[j - 1]].objectives[m],
        )
            invariant
                binary::<P, bool, L>(*less),
                before == by_objective(*less, population@, m as int),
                j <= sorted.len(),
                sorted@ == done,
                x < population.len(),
                population[x as int].objectives.len() > m,
                forall|k: int|
                    0 <= k < done.len() ==> #[trigger] done[k] < population.len()
                        && population[done[k] as int].objectives.len() > m,
                forall|k: int| j <= k < done.len() ==> before(x, #[trigger] done[k]),
            decreases j,
        {
            assert(before(x, done[j - 1]));
            j -= 1;
        }
        proof {
            if j > 0 {
                assert(!before(x, done[j - 1]));
            }
            lemma_insert_at(before, done, x, j as int);
        }
        sorted.insert(j, x);
        proof {
            let prefix = front@.subrange(0, i + 1);
            assert(prefix.drop_last() =~= front@.subrange(0, i as int));
            assert(prefix.last() == x);
            assert(sorted@ =~= insert_by(before, done, x));
        }
        i += 1;
    }
    assert(front@.subrange(0, n as int) =~= front@);
    sorted
}

} // verus!
