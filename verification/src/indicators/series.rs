//! What the indicators share: which positions of their series are missing,
//! the candlesticks that a position looks back on, and sums.
use vstd::prelude::*;
use crate::arithmetic::Arithmetic;
use crate::klines::{Kline, KlineCollection};

verus! {

/// The sum of the numbers, added up from zero in their order.
pub open spec fn total<P, A, S, D, L, C>(ops: &Arithmetic<P, A, S, D, L, C>, values: Seq<P>) -> P where
    A: Fn(&P, &P) -> P,
    S: Fn(&P, &P) -> P,
    D: Fn(&P, &P) -> P,
    L: Fn(&P, &P) -> bool,
    C: Fn(i64) -> P,

    decreases values.len(),
{
    if values.len() == 0 {
        ops.number(0)
    } else {
        ops.sum(total(ops, values.drop_last()), values.last())
    }
}

/// The mean of the numbers: their sum divided by the number that stands for
/// `count`.
pub open spec fn mean<P, A, S, D, L, C>(
    ops: &Arithmetic<P, A, S, D, L, C>,
    values: Seq<P>,
    count: i64,
) -> P where
    A: Fn(&P, &P) -> P,
    S: Fn(&P, &P) -> P,
    D: Fn(&P, &P) -> P,
    L: Fn(&P, &P) -> bool,
    C: Fn(i64) -> P,
 {
    ops.quotient(total(ops, values), ops.number(count))
}

/// Adds up numbers from zero in their order.
pub fn sum_of<P: Copy, A, S, D, L, C>(ops: &Arithmetic<P, A, S, D, L, C>, values: &Vec<P>) -> (sum:
    P) where
    A: Fn(&P, &P) -> P,
    S: Fn(&P, &P) -> P,
    D: Fn(&P, &P) -> P,
    L: Fn(&P, &P) -> bool,
    C: Fn(i64) -> P,

    requires
        ops.wf(),
    ensures
        sum == total(ops, values@),
{
    let mut sum = ops.count(0);
    let mut j: usize = 0;
    while j < values.len()
        invariant
            ops.wf(),
            j <= values.len(),
            sum == total(ops, values@.subrange(0, j as int)),
        decreases values.len() - j,
    {
        proof {
            assert(values@.subrange(0, j + 1).drop_last() =~= values@.subrange(0, j as int));
        }
        sum = ops.plus(&sum, &values[j]);
        j += 1;
    }
    assert(values@.subrange(0, j as int) =~= values@);
    sum
}

/// Whether one of the series has no value at position `i`.
pub open spec fn missing_at<P>(series: Seq<&Vec<Option<P>>>, i: int) -> bool {
    exists|k: int| 0 <= k < series.len() && (#[trigger] series[k])@[i] is None
}

/// The positions below `upto` at which one of the series has no value, in
/// ascending order.
pub open spec fn gaps<P>(series: Seq<&Vec<Option<P>>>, upto: int) -> Seq<i32>
    decreases upto,
{
    if upto <= 0 {
        Seq::empty()
    } else if missing_at(series, upto - 1) {
        gaps(series, upto - 1).push((upto - 1) as i32)
    } else {
        gaps(series, upto - 1)
    }
}

/// Whether all the series are of the length `n`, which 32 bits can count.
pub open spec fn aligned<P>(series: Seq<&Vec<Option<P>>>, n: int) -> bool {
    &&& 0 <= n <= i32::MAX
    &&& forall|k: int| 0 <= k < series.len() ==> (#[trigger] series[k])@.len() == n
}

/// The gaps are the positions without a value, each once and in ascending
/// order.
pub proof fn lemma_gaps<P>(series: Seq<&Vec<Option<P>>>, upto: int)
    requires
        0 <= upto <= i32::MAX,
    ensures
        gaps(series, upto).len() <= upto,
        forall|q: int|
            0 <= q < gaps(series, upto).len() ==> 0 <= #[trigger] gaps(series, upto)[q] < upto
                && missing_at(series, gaps(series, upto)[q] as int),
        forall|q1: int, q2: int|
            0 <= q1 < q2 < gaps(series, upto).len() ==> gaps(series, upto)[q1] < gaps(
                series,
                upto,
            )[q2],
        forall|i: int|
            0 <= i < upto && missing_at(series, i) ==> #[trigger] gaps(series, upto).contains(
                i as i32,
            ),
        (forall|i: int| 0 <= i < upto ==> !missing_at(series, i)) <==> gaps(series, upto).len()
            == 0,
    decreases upto,
{
    if upto > 0 {
        lemma_gaps(series, upto - 1);
        let earlier = gaps(series, upto - 1);
        let all = gaps(series, upto);
        if missing_at(series, upto - 1) {
            assert(all[all.len() - 1] == (upto - 1) as i32);
        }
        assert forall|i: int| 0 <= i < upto && missing_at(series, i) implies #[trigger] all.contains(
            i as i32,
        ) by {
            if i < upto - 1 {
                assert(earlier.contains(i as i32));
                let q = choose|q: int| 0 <= q < earlier.len() && earlier[q] == i as i32;
                assert(all[q] == i as i32);
            } else {
                assert(all[all.len() - 1] == i as i32);
            }
        }
        if all.len() == 0 {
            assert forall|i: int| 0 <= i < upto implies !missing_at(series, i) by {
                if missing_at(series, i) {
                    assert(all.contains(i as i32));
                }
            }
        }
    }
}

/// The positions at which one of the series has no value, in ascending
/// order.
pub fn missing_indices_of<P>(series: &Vec<&Vec<Option<P>>>) -> (missing: Vec<i32>)
    requires
        series.len() > 0,
        aligned(series@, series[0]@.len() as int),
    ensures
        missing@ == gaps(series@, series[0]@.len() as int),
{
    let n = series[0].len();
    let mut missing: Vec<i32> = Vec::new();
    let mut i: usize = 0;
    while i < n
        invariant
            series.len() > 0,
            n == series[0]@.len(),
            aligned(series@, n as int),
            i <= n,
            missing@ == gaps(series@, i as int),
        decreases n - i,
    {
        let mut k: usize = 0;
        let mut found = false;
        while k < series.len()
            invariant
                aligned(series@, n as int),
                i < n,
                k <= series.len(),
                found <==> exists|t: int| 0 <= t < k && (#[trigger] series@[t])@[i as int] is None,
            decreases series.len() - k,
        {
            assert(series@[k as int]@.len() == n);
            if series[k][i].is_none() {
                found = true;
            }
            k += 1;
        }
        if found {
            missing.push(i as i32);
        }
        i += 1;
    }
    missing
}

/// The candlesticks that a position looks back on: `count` of them, the one
/// at the reverse index `start` first and then the older ones in turn.
pub open spec fn window<P>(klines: &KlineCollection<P>, start: int, count: int) -> Seq<Kline<P>> {
    Seq::new(
        if count > 0 {
            count as nat
        } else {
            0nat
        },
        |j: int| klines.timeline()[klines.timeline().len() - 1 - (start + j)],
    )
}

/// Whether the collection holds all the candlesticks of a window.
pub open spec fn in_reach<P>(klines: &KlineCollection<P>, start: int, count: int) -> bool {
    count > 0 ==> 0 <= start && start + count <= klines.timeline().len()
}

/// The candlesticks of a window.
pub fn window_of<P: Copy>(klines: &KlineCollection<P>, start: i32, count: i32) -> (found: Vec<
    Kline<P>,
>)
    requires
        klines.countable(),
        in_reach(klines, start as int, count as int),
    ensures
        found@ == window(klines, start as int, count as int),
{
    let mut found: Vec<Kline<P>> = Vec::new();
    let mut j: i32 = 0;
    while j < count
        invariant
            klines.countable(),
            in_reach(klines, start as int, count as int),
            0 <= j,
            count > 0 ==> j <= count,
            count <= 0 ==> j == 0,
            found.len() == j,
            forall|t: int|
                0 <= t < j ==> #[trigger] found[t] == klines.timeline()[klines.timeline().len() - 1
                    - (start + t)],
        decreases count - j,
    {
        match klines.get_rev(start + j) {
            Some(kline) => {
                found.push(*kline);
            },
            None => {},
        }
        j += 1;
    }
    proof {
        let wanted = window(klines, start as int, count as int);
        if count > 0 {
            assert(j == count);
        } else {
            assert(j == 0);
        }
        assert(found@.len() == wanted.len());
        assert forall|t: int| 0 <= t < found@.len() implies found@[t] == wanted[t] by {}
        assert(found@ =~= wanted);
    }
    found
}

/// Whether `results` holds, for each of the positions, what the formula makes
/// of the candlesticks that the position looks back on: `width` numbers.
pub open spec fn answered<P, F: Fn(&Vec<Kline<P>>) -> Vec<P>>(
    formula: F,
    klines: &KlineCollection<P>,
    lookback: int,
    positions: Seq<i32>,
    results: Seq<Vec<P>>,
    width: int,
) -> bool {
    &&& results.len() == positions.len()
    &&& forall|q: int|
        0 <= q < results.len() ==> (#[trigger] results[q]).len() == width && exists|
            seen: Vec<Kline<P>>,
        |
            seen@ == window(klines, klines.length() - 1 - positions[q], lookback) && call_ensures(
                formula,
                (&seen,),
                results[q],
            )
}

/// Whether the formula accepts every window and answers with `width`
/// numbers.
pub open spec fn formula_of<P, F: Fn(&Vec<Kline<P>>) -> Vec<P>>(formula: F, width: int) -> bool {
    &&& forall|seen: Vec<Kline<P>>| call_requires(formula, (&seen,))
    &&& forall|seen: Vec<Kline<P>>, numbers: Vec<P>|
        call_ensures(formula, (&seen,), numbers) ==> numbers.len() == width
}

/// Whether every position is one of the collection and the collection holds
/// the candlesticks that it looks back on.
pub open spec fn all_in_reach<P>(
    klines: &KlineCollection<P>,
    lookback: int,
    positions: Seq<i32>,
) -> bool {
    forall|q: int|
        0 <= q < positions.len() ==> 0 <= #[trigger] positions[q] && in_reach(
            klines,
            klines.length() - 1 - positions[q],
            lookback,
        )
}

/// Asks the formula for the numbers of each position.
pub(crate) fn apply_formula<P: Copy, F: Fn(&Vec<Kline<P>>) -> Vec<P>>(
    klines: &KlineCollection<P>,
    lookback: i32,
    positions: &Vec<i32>,
    formula: &F,
    Ghost(width): Ghost<int>,
) -> (results: Vec<Vec<P>>)
    requires
        klines.countable(),
        formula_of(*formula, width),
        all_in_reach(klines, lookback as int, positions@),
    ensures
        answered(*formula, klines, lookback as int, positions@, results@, width),
{
    let length = klines.get_length();
    let mut results: Vec<Vec<P>> = Vec::with_capacity(positions.len());
    let mut q: usize = 0;
    while q < positions.len()
        invariant
            klines.countable(),
            formula_of(*formula, width),
            all_in_reach(klines, lookback as int, positions@),
            length == klines.length(),
            q <= positions.len(),
            answered(
                *formula,
                klines,
                lookback as int,
                positions@.subrange(0, q as int),
                results@,
                width,
            ),
        decreases positions.len() - q,
    {
        let ghost earlier = results@;
        let position = positions[q];
        let seen = window_of(klines, length - 1 - position, lookback);
        let numbers = formula(&seen);
        results.push(numbers);
        proof {
            let taken = positions@.subrange(0, q + 1);
            assert forall|t: int| 0 <= t < results@.len() implies (#[trigger] results@[t]).len()
                == width && exists|seen: Vec<Kline<P>>|
                seen@ == window(klines, klines.length() - 1 - taken[t], lookback as int)
                    && call_ensures(*formula, (&seen,), results@[t]) by {
                if t < q {
                    assert(results@[t] == earlier[t]);
                    assert(positions@.subrange(0, q as int)[t] == taken[t]);
                } else {
                    assert(seen@ == window(
                        klines,
                        klines.length() - 1 - taken[t],
                        lookback as int,
                    ) && call_ensures(*formula, (&seen,), results@[t]));
                }
            }
        }
        q += 1;
    }
    assert(positions@.subrange(0, q as int) =~= positions@);
    results
}

/// Whether `positions` are positions of a series of the length `n`, in
/// ascending order.
pub open spec fn ascending_within(positions: Seq<i32>, n: int) -> bool {
    &&& forall|q: int| 0 <= q < positions.len() ==> 0 <= #[trigger] positions[q] < n
    &&& forall|q1: int, q2: int| 0 <= q1 < q2 < positions.len() ==> positions[q1] < positions[q2]
}

/// A series with the numbers of one column of the results put at the
/// positions.
pub open spec fn filled<P>(
    series: Seq<Option<P>>,
    positions: Seq<i32>,
    results: Seq<Vec<P>>,
    column: int,
) -> Seq<Option<P>> {
    Seq::new(
        series.len(),
        |i: int|
            if exists|q: int| 0 <= q < positions.len() && #[trigger] positions[q] == i {
                let q = choose|q: int| 0 <= q < positions.len() && #[trigger] positions[q] == i;
                Some(results[q]@[column])
            } else {
                series[i]
            },
    )
}

/// Puts the numbers of one column of the results at the positions of a
/// series.
pub fn put<P: Copy>(
    series: &mut Vec<Option<P>>,
    positions: &Vec<i32>,
    results: &Vec<Vec<P>>,
    column: usize,
)
    requires
        ascending_within(positions@, old(series).len() as int),
        results.len() == positions.len(),
        forall|q: int| 0 <= q < results.len() ==> (#[trigger] results[q]).len() > column,
    ensures
        final(series)@ == filled(old(series)@, positions@, results@, column as int),
{
    let ghost start = series@;
    let mut q: usize = 0;
    while q < positions.len()
        invariant
            ascending_within(positions@, start.len() as int),
            results.len() == positions.len(),
            forall|t: int| 0 <= t < results.len() ==> (#[trigger] results[t]).len() > column,
            q <= positions.len(),
            series.len() == start.len(),
            forall|i: int|
                0 <= i < start.len() ==> #[trigger] series[i] == if exists|t: int|
                    0 <= t < q && #[trigger] positions[t] == i {
                    let t = choose|t: int| 0 <= t < q && #[trigger] positions[t] == i;
                    Some(results[t]@[column as int])
                } else {
                    start[i]
                },
        decreases positions.len() - q,
    {
        let ghost earlier = series@;
        let position = positions[q];
        series.set(position as usize, Some(results[q][column]));
        proof {
            assert forall|i: int| 0 <= i < start.len() implies #[trigger] series[i] == if exists|
                t: int,
            |
                0 <= t < q + 1 && #[trigger] positions[t] == i {
                let t = choose|t: int| 0 <= t < q + 1 && #[trigger] positions[t] == i;
                Some(results[t]@[column as int])
            } else {
                start[i]
            } by {
                if i == position {
                    assert(positions[q as int] == i);
                    let t = choose|t: int| 0 <= t < q + 1 && #[trigger] positions[t] == i;
                    if t != q {
                        if t < q {
                            assert(positions[t] < positions[q as int]);
                        }
                    }
                } else {
                    assert(series[i] == earlier[i]);
                    if exists|t: int| 0 <= t < q + 1 && #[trigger] positions[t] == i {
                        let t = choose|t: int| 0 <= t < q + 1 && #[trigger] positions[t] == i;
                        assert(0 <= t < q && positions[t] == i);
                        let t1 = choose|t: int| 0 <= t < q && #[trigger] positions[t] == i;
                        if t1 != t {
                            if t1 < t {
                                assert(positions[t1] < positions[t]);
                            } else {
                                assert(positions[t] < positions[t1]);
                            }
                        }
                    } else {
                        if exists|t: int| 0 <= t < q && #[trigger] positions[t] == i {
                            let t = choose|t: int| 0 <= t < q && #[trigger] positions[t] == i;
                            assert(0 <= t < q + 1 && positions[t] == i);
                        }
                    }
                }
            }
        }
        q += 1;
    }
    assert(series@ =~= filled(start, positions@, results@, column as int));
}

/// The gaps of aligned series are positions of the series in ascending
/// order.
pub proof fn lemma_ascending<P>(series: Seq<&Vec<Option<P>>>, n: int)
    requires
        0 <= n <= i32::MAX,
    ensures
        ascending_within(gaps(series, n), n),
{
    lemma_gaps(series, n);
}

/// Where the gaps of aligned series are filled, every position of every
/// series holds a value.
pub proof fn lemma_filled_some<P>(
    series: Seq<&Vec<Option<P>>>,
    k: int,
    n: int,
    results: Seq<Vec<P>>,
    column: int,
    i: int,
)
    requires
        aligned(series, n),
        0 <= k < series.len(),
        0 <= i < n,
    ensures
        filled(series[k]@, gaps(series, n), results, column)[i] is Some,
{
    lemma_gaps(series, n);
    let positions = gaps(series, n);
    if !exists|q: int| 0 <= q < positions.len() && #[trigger] positions[q] == i {
        if missing_at(series, i) {
            assert(positions.contains(i as i32));
            let q = choose|q: int| 0 <= q < positions.len() && positions[q] == i as i32;
            assert(positions[q] == i);
        }
        assert(series[k]@[i] is Some);
    }
}

} // verus!
