//! What is read from and written to the store for an indicator.
use vstd::prelude::*;
use crate::arithmetic::Arithmetic;
use crate::indicators::series::{aligned, filled, gaps, lemma_gaps, missing_at};
use crate::indicators::types::Indicator;
use crate::klines::{Kline, KlineCollection};

verus! {

/// The values of an indicator for one candlestick: one for each column, in
/// the order of the column names.
#[derive(Debug, Clone)]
pub struct StoredRow<P> {
    pub open_time: i64,
    pub values: Vec<P>,
}

/// Why the stored values of an indicator could not be taken up.
#[derive(Debug, Clone, Copy, PartialEq, Eq, Structural)]
pub enum RetrieveError {
    /// The store holds another number of rows than the window has
    /// candlesticks.
    MissingRows,
}

/// Checks that the store answered with one row for each candlestick to train
/// and to validate on.
pub fn check_rows(rows: usize, length: i32) -> (checked: Result<(), RetrieveError>)
    ensures
        checked is Ok <==> rows == length,
        checked is Err ==> checked == Err::<(), RetrieveError>(RetrieveError::MissingRows),
{
    if length >= 0 && rows == length as usize {
        Ok(())
    } else {
        Err(RetrieveError::MissingRows)
    }
}

/// The position of the indicator that looks back on the most candlesticks,
/// the last one of them where there are several; none where there is no
/// indicator. A window that is extended for it is extended for all.
pub fn most_demanding<P: Copy>(indicators: &Vec<Indicator<P>>) -> (position: Option<usize>)
    requires
        forall|i: int|
            0 <= i < indicators.len() ==> i32::MIN <= (#[trigger] indicators[i]).lookback()
                <= i32::MAX,
    ensures
        indicators.len() == 0 <==> position is None,
        position matches Some(p) ==> p < indicators.len() && (forall|i: int|
            0 <= i < indicators.len() ==> (#[trigger] indicators[i]).lookback()
                <= indicators[p as int].lookback()) && (forall|i: int|
            p < i < indicators.len() ==> (#[trigger] indicators[i]).lookback()
                < indicators[p as int].lookback()),
{
    if indicators.len() == 0 {
        return None;
    }
    let mut best: usize = 0;
    let mut most = indicators[0].n_before_needed();
    let mut i: usize = 1;
    while i < indicators.len()
        invariant
            forall|k: int|
                0 <= k < indicators.len() ==> i32::MIN <= (#[trigger] indicators[k]).lookback()
                    <= i32::MAX,
            1 <= i <= indicators.len(),
            best < i,
            most == indicators[best as int].lookback(),
            forall|k: int| 0 <= k < i ==> (#[trigger] indicators[k]).lookback() <= most,
            forall|k: int| best < k < i ==> (#[trigger] indicators[k]).lookback() < most,
        decreases indicators.len() - i,
    {
        let needed = indicators[i].n_before_needed();
        if needed >= most {
            best = i;
            most = needed;
        }
        i += 1;
    }
    Some(best)
}

/// Whether a stored row holds no value in its first `width` columns.
pub open spec fn absent<P>(row: Seq<Option<P>>, width: int) -> bool {
    forall|k: int| 0 <= k < width ==> (#[trigger] row[k]) is None
}

/// The positions below `upto` of the rows that hold no value.
pub open spec fn absent_below<P>(rows: Seq<Vec<Option<P>>>, width: int, upto: int) -> Seq<i32>
    decreases upto,
{
    if upto <= 0 {
        Seq::empty()
    } else if absent(rows[upto - 1]@, width) {
        absent_below(rows, width, upto - 1).push((upto - 1) as i32)
    } else {
        absent_below(rows, width, upto - 1)
    }
}

/// The positions of the stored rows that hold no value at all, in ascending
/// order. The indicator is computed where there is one.
pub fn absent_rows<P>(rows: &Vec<Vec<Option<P>>>, width: usize) -> (positions: Vec<i32>)
    requires
        rows.len() <= i32::MAX,
        forall|i: int| 0 <= i < rows.len() ==> (#[trigger] rows[i]).len() >= width,
    ensures
        positions@ == absent_below(rows@, width as int, rows.len() as int),
{
    let mut positions: Vec<i32> = Vec::new();
    let mut i: usize = 0;
    while i < rows.len()
        invariant
            rows.len() <= i32::MAX,
            forall|t: int| 0 <= t < rows.len() ==> (#[trigger] rows[t]).len() >= width,
            i <= rows.len(),
            positions@ == absent_below(rows@, width as int, i as int),
        decreases rows.len() - i,
    {
        let mut k: usize = 0;
        let mut empty = true;
        while k < width
            invariant
                i < rows.len(),
                rows[i as int].len() >= width,
                k <= width,
                empty <==> forall|t: int| 0 <= t < k ==> (#[trigger] rows[i as int]@[t]) is None,
            decreases width - k,
        {
            if rows[i][k].is_some() {
                empty = false;
            }
            k += 1;
        }
        if empty {
            positions.push(i as i32);
        }
        i += 1;
    }
    positions
}

impl<P: Copy> Indicator<P> {
    /// Whether every position of every series holds a value.
    pub open spec fn saturated(&self) -> bool {
        gaps(self.series(), self.size()).len() == 0
    }

    /// The rows to write to the store: for each position the opening time of
    /// its candlestick, counted forward from the first one to train on, and
    /// the values of the series at the position.
    pub fn rows_to_store(&self, kline_collection: &KlineCollection<P>) -> (rows: Vec<StoredRow<P>>)
        requires
            self.wf(),
            self.saturated(),
            kline_collection.countable(),
            self.size() <= kline_collection.forward().len(),
        ensures
            rows.len() == self.size(),
            forall|i: int|
                0 <= i < rows.len() ==> {
                    &&& (#[trigger] rows[i]).open_time == kline_collection.forward()[i].open_time
                    &&& rows[i].values.len() == self.names().len()
                    &&& forall|k: int|
                        0 <= k < self.series().len() ==> self.series()[k]@[i] == Some(
                            #[trigger] rows[i].values[k],
                        )
                },
    {
        let series = self.get_values();
        let ghost n = self.size();
        proof {
            lemma_gaps(self.series(), n);
            assert(series@.len() > 0 && series@[0]@.len() == n);
        }
        let size = series[0].len();
        let mut rows: Vec<StoredRow<P>> = Vec::with_capacity(size);
        let mut i: usize = 0;
        while i < size
            invariant
                series@ == self.series(),
                self.names().len() == self.series().len(),
                aligned(series@, n),
                n == size,
                kline_collection.countable(),
                n <= kline_collection.forward().len(),
                forall|x: int| 0 <= x < n ==> !missing_at(series@, x),
                i <= size,
                rows.len() == i,
                forall|t: int|
                    0 <= t < i ==> {
                        &&& (#[trigger] rows[t]).open_time == kline_collection.forward()[t].open_time
                        &&& rows[t].values.len() == series@.len()
                        &&& forall|k: int|
                            0 <= k < series@.len() ==> series@[k]@[t] == Some(
                                #[trigger] rows[t].values[k],
                            )
                    },
            decreases size - i,
        {
            let open_time = match kline_collection.get(i as i32) {
                Some(kline) => kline.open_time,
                None => 0,
            };
            let mut values: Vec<P> = Vec::with_capacity(series.len());
            let mut k: usize = 0;
            while k < series.len()
                invariant
                    aligned(series@, n),
                    i < n,
                    !missing_at(series@, i as int),
                    k <= series.len(),
                    values.len() == k,
                    forall|t: int| 0 <= t < k ==> series@[t]@[i as int] == Some(#[trigger] values[t]),
                decreases series.len() - k,
            {
                assert(series@[k as int]@.len() == n);
                match series[k][i] {
                    Some(value) => {
                        values.push(value);
                    },
                    None => {
                        assert(missing_at(series@, i as int));
                    },
                }
                k += 1;
            }
            rows.push(StoredRow { open_time, values });
            i += 1;
        }
        rows
    }
}

/// Computing the values of an indicator that misses none changes none of its
/// values.
pub proof fn lemma_saturated_stays<P: Copy, A, S, D, L, C, F>(
    before: Indicator<P>,
    after: Indicator<P>,
    ops: &Arithmetic<P, A, S, D, L, C>,
    klines: &KlineCollection<P>,
    formula: F,
) where
    A: Fn(&P, &P) -> P,
    S: Fn(&P, &P) -> P,
    D: Fn(&P, &P) -> P,
    L: Fn(&P, &P) -> bool,
    C: Fn(i64) -> P,
    F: Fn(&Vec<Kline<P>>) -> Vec<P>,

    requires
        before.wf(),
        before.saturated(),
        before.calculated(&after, ops, klines, formula),
    ensures
        after.series().len() == before.series().len(),
        forall|k: int|
            0 <= k < before.series().len() ==> (#[trigger] after.series()[k])@ == before.series()[k]@,
{
    lemma_gaps(before.series(), before.size());
    let empty = gaps(before.series(), before.size());
    assert forall|k: int, results: Seq<Vec<P>>, column: int|
        0 <= k < before.series().len() implies #[trigger] filled(
        before.series()[k]@,
        empty,
        results,
        column,
    ) =~= before.series()[k]@ by {}
    match (before, after) {
        (Indicator::MovingAverage(a), Indicator::MovingAverage(b)) => {
            assert(before.series()[0] == &a.values);
            assert(after.series()[0] == &b.values);
            assert forall|i: int| 0 <= i < a.values.len() implies b.values[i] == a.values[i] by {
                if a.values[i] is None {
                    assert(before.series()[0]@[i] is None);
                    assert(missing_at(before.series(), i));
                }
            }
            assert(b.values@ =~= a.values@);
        },
        (Indicator::StochasticOscillator(a), Indicator::StochasticOscillator(b)) => {
            assert(before.series()[0] == &a.k_values);
            assert(before.series()[1] == &a.d_values);
            assert(after.series()[0] == &b.k_values);
            assert(after.series()[1] == &b.d_values);
            assert forall|i: int| 0 <= i < a.k_values.len() implies !a.missing(i) by {
                if a.k_values[i] is None {
                    assert(before.series()[0]@[i] is None);
                    assert(missing_at(before.series(), i));
                }
                if a.d_values[i] is None {
                    assert(before.series()[1]@[i] is None);
                    assert(missing_at(before.series(), i));
                }
            }
            assert(a.d_values@.len() == a.k_values@.len());
            assert(b.k_values@ =~= a.k_values@);
            assert(b.d_values@ =~= a.d_values@);
        },
        (Indicator::ExponentialMovingAverage(a), Indicator::ExponentialMovingAverage(b)) => {
            assert(before.series()[0] == &a.values);
            assert(after.series()[0] == &b.values);
        },
        (Indicator::RelativeStrengthIndex(a), Indicator::RelativeStrengthIndex(b)) => {
            assert(before.series()[0] == &a.values);
            assert(after.series()[0] == &b.values);
        },
        (Indicator::FibonacciRetracement(a), Indicator::FibonacciRetracement(b)) => {
            assert(before.series()[0] == &a.values);
            assert(after.series()[0] == &b.values);
        },
        (Indicator::OnBalanceVolume(a), Indicator::OnBalanceVolume(b)) => {
            assert(before.series()[0] == &a.values);
            assert(after.series()[0] == &b.values);
        },
        (
            Indicator::MovingAverageConvergenceDivergence(a),
            Indicator::MovingAverageConvergenceDivergence(b),
        ) => {
            assert(before.series()[0] == &a.macd_values);
            assert(before.series()[1] == &a.signal_values);
            assert(before.series()[2] == &a.histogram_values);
            assert(after.series()[0] == &b.macd_values);
            assert(after.series()[1] == &b.signal_values);
            assert(after.series()[2] == &b.histogram_values);
        },
        (Indicator::BollingerBands(a), Indicator::BollingerBands(b)) => {
            assert(before.series()[0] == &a.upper_band_values);
            assert(before.series()[1] == &a.middle_band_values);
            assert(before.series()[2] == &a.lower_band_values);
            assert(after.series()[0] == &b.upper_band_values);
            assert(after.series()[1] == &b.middle_band_values);
            assert(after.series()[2] == &b.lower_band_values);
        },
        (Indicator::IchimokuCloud(a), Indicator::IchimokuCloud(b)) => {
            assert(before.series()[0] == &a.conversion_line_values);
            assert(before.series()[1] == &a.base_line_values);
            assert(before.series()[2] == &a.lagging_span_values);
            assert(before.series()[3] == &a.leading_span_a_values);
            assert(before.series()[4] == &a.leading_span_b_values);
            assert(after.series()[0] == &b.conversion_line_values);
            assert(after.series()[1] == &b.base_line_values);
            assert(after.series()[2] == &b.lagging_span_values);
            assert(after.series()[3] == &b.leading_span_a_values);
            assert(after.series()[4] == &b.leading_span_b_values);
        },
        _ => {},
    }
}

} // verus!
