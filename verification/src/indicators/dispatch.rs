//! Any indicator, handled alike.
use vstd::prelude::*;
use crate::arithmetic::Arithmetic;
use crate::criteria::Criterion;
use crate::indicators::series::{all_in_reach, answered, filled, formula_of, gaps, in_reach};
use crate::indicators::types::{
    BollingerBands, ExponentialMovingAverage, FibonacciRetracement, IchimokuCloud, Indicator,
    IndicatorInformation, InformationCard, MovingAverage, MovingAverageConvergenceDivergence,
    OnBalanceVolume, RelativeStrengthIndex, StochasticOscillator,
};
use crate::klines::{Kline, KlineCollection};
use crate::metaheuristic::objects::VariableDefinition;

verus! {

impl<P: Copy> Indicator<P> {
    /// The series of the indicator.
    pub open spec fn series(&self) -> Seq<&Vec<Option<P>>> {
        match self {
            Indicator::MovingAverage(indicator) => indicator.series(),
            Indicator::ExponentialMovingAverage(indicator) => indicator.series(),
            Indicator::RelativeStrengthIndex(indicator) => indicator.series(),
            Indicator::MovingAverageConvergenceDivergence(indicator) => indicator.series(),
            Indicator::BollingerBands(indicator) => indicator.series(),
            Indicator::FibonacciRetracement(indicator) => indicator.series(),
            Indicator::StochasticOscillator(indicator) => indicator.series(),
            Indicator::OnBalanceVolume(indicator) => indicator.series(),
            Indicator::IchimokuCloud(indicator) => indicator.series(),
        }
    }

    /// Whether the series are of one length, which 32 bits can count.
    pub open spec fn wf(&self) -> bool {
        match self {
            Indicator::MovingAverage(indicator) => indicator.wf(),
            Indicator::ExponentialMovingAverage(indicator) => indicator.wf(),
            Indicator::RelativeStrengthIndex(indicator) => indicator.wf(),
            Indicator::MovingAverageConvergenceDivergence(indicator) => indicator.wf(),
            Indicator::BollingerBands(indicator) => indicator.wf(),
            Indicator::FibonacciRetracement(indicator) => indicator.wf(),
            Indicator::StochasticOscillator(indicator) => indicator.wf(),
            Indicator::OnBalanceVolume(indicator) => indicator.wf(),
            Indicator::IchimokuCloud(indicator) => indicator.wf(),
        }
    }

    /// The number of positions of the series.
    pub open spec fn size(&self) -> int {
        match self {
            Indicator::MovingAverage(indicator) => indicator.values@.len() as int,
            Indicator::ExponentialMovingAverage(indicator) => indicator.values@.len() as int,
            Indicator::RelativeStrengthIndex(indicator) => indicator.values@.len() as int,
            Indicator::MovingAverageConvergenceDivergence(indicator) => indicator.macd_values@.len() as int,
            Indicator::BollingerBands(indicator) => indicator.upper_band_values@.len() as int,
            Indicator::FibonacciRetracement(indicator) => indicator.values@.len() as int,
            Indicator::StochasticOscillator(indicator) => indicator.k_values@.len() as int,
            Indicator::OnBalanceVolume(indicator) => indicator.values@.len() as int,
            Indicator::IchimokuCloud(indicator) => indicator.conversion_line_values@.len() as int,
        }
    }

    /// The names of the columns that hold the series.
    pub open spec fn names(&self) -> Seq<Seq<char>> {
        match self {
            Indicator::MovingAverage(indicator) => indicator.names(),
            Indicator::ExponentialMovingAverage(indicator) => indicator.names(),
            Indicator::RelativeStrengthIndex(indicator) => indicator.names(),
            Indicator::MovingAverageConvergenceDivergence(indicator) => indicator.names(),
            Indicator::BollingerBands(indicator) => indicator.names(),
            Indicator::FibonacciRetracement(indicator) => indicator.names(),
            Indicator::StochasticOscillator(indicator) => indicator.names(),
            Indicator::OnBalanceVolume(indicator) => indicator.names(),
            Indicator::IchimokuCloud(indicator) => indicator.names(),
        }
    }

    /// What the catalogue says of the indicator.
    pub open spec fn card(&self) -> InformationCard {
        match self {
            Indicator::MovingAverage(indicator) => MovingAverage::<P>::card(),
            Indicator::ExponentialMovingAverage(indicator) => ExponentialMovingAverage::<P>::card(),
            Indicator::RelativeStrengthIndex(indicator) => RelativeStrengthIndex::<P>::card(),
            Indicator::MovingAverageConvergenceDivergence(indicator) => MovingAverageConvergenceDivergence::<P>::card(),
            Indicator::BollingerBands(indicator) => BollingerBands::<P>::card(),
            Indicator::FibonacciRetracement(indicator) => FibonacciRetracement::<P>::card(),
            Indicator::StochasticOscillator(indicator) => StochasticOscillator::<P>::card(),
            Indicator::OnBalanceVolume(indicator) => OnBalanceVolume::<P>::card(),
            Indicator::IchimokuCloud(indicator) => IchimokuCloud::<P>::card(),
        }
    }

    /// The number of candlesticks that a value looks back on.
    pub open spec fn lookback(&self) -> int {
        match self {
            Indicator::MovingAverage(indicator) => indicator.period as int,
            Indicator::ExponentialMovingAverage(indicator) => indicator.period as int,
            Indicator::RelativeStrengthIndex(indicator) => indicator.period as int,
            Indicator::MovingAverageConvergenceDivergence(indicator) => indicator.long_period as int,
            Indicator::BollingerBands(indicator) => indicator.period as int,
            Indicator::FibonacciRetracement(indicator) => indicator.period as int,
            Indicator::StochasticOscillator(indicator) => indicator.k_period + indicator.d_period,
            Indicator::OnBalanceVolume(indicator) => indicator.period as int,
            Indicator::IchimokuCloud(indicator) => indicator.conversion_period as int,
        }
    }

    /// Whether two indicators are of the same kind and have the same parameters
    /// and signals.
    pub open spec fn same_settings(&self, other: &Self) -> bool {
        match (self, other) {
            (Indicator::MovingAverage(a), Indicator::MovingAverage(b)) => a.period == b.period
                && a.criteria == b.criteria
                && a.criteria_count == b.criteria_count,
            (Indicator::ExponentialMovingAverage(a), Indicator::ExponentialMovingAverage(b)) => a.period == b.period
                && a.criteria == b.criteria
                && a.criteria_count == b.criteria_count,
            (Indicator::RelativeStrengthIndex(a), Indicator::RelativeStrengthIndex(b)) => a.period == b.period
                && a.criteria == b.criteria
                && a.criteria_count == b.criteria_count,
            (Indicator::MovingAverageConvergenceDivergence(a), Indicator::MovingAverageConvergenceDivergence(b)) => a.short_period == b.short_period
                && a.long_period == b.long_period
                && a.signal_period == b.signal_period
                && a.criteria == b.criteria
                && a.criteria_count == b.criteria_count,
            (Indicator::BollingerBands(a), Indicator::BollingerBands(b)) => a.period == b.period
                && a.deviation == b.deviation
                && a.deviation_text == b.deviation_text
                && a.criteria == b.criteria
                && a.criteria_count == b.criteria_count,
            (Indicator::FibonacciRetracement(a), Indicator::FibonacciRetracement(b)) => a.period == b.period
                && a.criteria == b.criteria
                && a.criteria_count == b.criteria_count,
            (Indicator::StochasticOscillator(a), Indicator::StochasticOscillator(b)) => a.k_period == b.k_period
                && a.d_period == b.d_period
                && a.criteria == b.criteria
                && a.criteria_count == b.criteria_count,
            (Indicator::OnBalanceVolume(a), Indicator::OnBalanceVolume(b)) => a.period == b.period
                && a.criteria == b.criteria
                && a.criteria_count == b.criteria_count,
            (Indicator::IchimokuCloud(a), Indicator::IchimokuCloud(b)) => a.conversion_period == b.conversion_period
                && a.base_period == b.base_period
                && a.lagging_span == b.lagging_span
                && a.criteria == b.criteria
                && a.criteria_count == b.criteria_count,
            _ => false,
        }
    }

    /// Whether the collection holds the candlesticks that the computation of
    /// the missing values reads.
    pub open spec fn fed_by(&self, klines: &KlineCollection<P>) -> bool {
        match self {
            Indicator::MovingAverage(indicator) => forall|i: int|
                0 <= i < indicator.values.len() && indicator.values[i] is None ==> in_reach(
                    klines,
                    klines.length() - 1 - i,
                    indicator.period as int,
                ),
            Indicator::ExponentialMovingAverage(indicator) => all_in_reach(
                klines,
                self.lookback(),
                gaps(self.series(), self.size()),
            ),
            Indicator::RelativeStrengthIndex(indicator) => all_in_reach(
                klines,
                self.lookback(),
                gaps(self.series(), self.size()),
            ),
            Indicator::MovingAverageConvergenceDivergence(indicator) => all_in_reach(
                klines,
                self.lookback(),
                gaps(self.series(), self.size()),
            ),
            Indicator::BollingerBands(indicator) => all_in_reach(
                klines,
                self.lookback(),
                gaps(self.series(), self.size()),
            ),
            Indicator::FibonacciRetracement(indicator) => all_in_reach(
                klines,
                self.lookback(),
                gaps(self.series(), self.size()),
            ),
            Indicator::StochasticOscillator(indicator) => indicator.fed_by(klines),
            Indicator::OnBalanceVolume(indicator) => all_in_reach(
                klines,
                self.lookback(),
                gaps(self.series(), self.size()),
            ),
            Indicator::IchimokuCloud(indicator) => all_in_reach(
                klines,
                self.lookback(),
                gaps(self.series(), self.size()),
            ),
        }
    }

    /// Whether `after` is this indicator with its missing values computed:
    /// the moving average and the stochastic oscillator by their own rules,
    /// any other indicator by the formula.
    pub open spec fn calculated<A, S, D, L, C, F>(
        &self,
        after: &Self,
        ops: &Arithmetic<P, A, S, D, L, C>,
        klines: &KlineCollection<P>,
        formula: F,
    ) -> bool where
        A: Fn(&P, &P) -> P,
        S: Fn(&P, &P) -> P,
        D: Fn(&P, &P) -> P,
        L: Fn(&P, &P) -> bool,
        C: Fn(i64) -> P,
        F: Fn(&Vec<Kline<P>>) -> Vec<P>,
     {
        match (self, after) {
            (Indicator::MovingAverage(a), Indicator::MovingAverage(b)) => b.values.len()
                == a.values.len() && forall|i: int|
                0 <= i < a.values.len() ==> #[trigger] b.values[i] == if a.values[i] is None {
                    Some(a.value_at(ops, klines, i))
                } else {
                    a.values[i]
                },
            (Indicator::ExponentialMovingAverage(a), Indicator::ExponentialMovingAverage(b)) => exists|
                results: Seq<Vec<P>>,
            |
                {
                    &&& answered(
                        formula,
                        klines,
                        self.lookback(),
                        gaps(a.series(), self.size()),
                        results,
                        1,
                    )
                    &&& b.values@ == filled(a.values@, gaps(a.series(), self.size()), results, 0)
                },
            (Indicator::RelativeStrengthIndex(a), Indicator::RelativeStrengthIndex(b)) => exists|
                results: Seq<Vec<P>>,
            |
                {
                    &&& answered(
                        formula,
                        klines,
                        self.lookback(),
                        gaps(a.series(), self.size()),
                        results,
                        1,
                    )
                    &&& b.values@ == filled(a.values@, gaps(a.series(), self.size()), results, 0)
                },
            (Indicator::MovingAverageConvergenceDivergence(a), Indicator::MovingAverageConvergenceDivergence(b)) => exists|
                results: Seq<Vec<P>>,
            |
                {
                    &&& answered(
                        formula,
                        klines,
                        self.lookback(),
                        gaps(a.series(), self.size()),
                        results,
                        3,
                    )
                    &&& b.macd_values@ == filled(a.macd_values@, gaps(a.series(), self.size()), results, 0)
                    &&& b.signal_values@ == filled(a.signal_values@, gaps(a.series(), self.size()), results, 1)
                    &&& b.histogram_values@ == filled(a.histogram_values@, gaps(a.series(), self.size()), results, 2)
                },
            (Indicator::BollingerBands(a), Indicator::BollingerBands(b)) => exists|
                results: Seq<Vec<P>>,
            |
                {
                    &&& answered(
                        formula,
                        klines,
                        self.lookback(),
                        gaps(a.series(), self.size()),
                        results,
                        3,
                    )
                    &&& b.upper_band_values@ == filled(a.upper_band_values@, gaps(a.series(), self.size()), results, 0)
                    &&& b.middle_band_values@ == filled(a.middle_band_values@, gaps(a.series(), self.size()), results, 1)
                    &&& b.lower_band_values@ == filled(a.lower_band_values@, gaps(a.series(), self.size()), results, 2)
                },
            (Indicator::FibonacciRetracement(a), Indicator::FibonacciRetracement(b)) => exists|
                results: Seq<Vec<P>>,
            |
                {
                    &&& answered(
                        formula,
                        klines,
                        self.lookback(),
                        gaps(a.series(), self.size()),
                        results,
                        1,
                    )
                    &&& b.values@ == filled(a.values@, gaps(a.series(), self.size()), results, 0)
                },
            (Indicator::StochasticOscillator(a), Indicator::StochasticOscillator(b)) => {
                &&& b.k_values.len() == a.k_values.len()
                &&& b.d_values.len() == a.d_values.len()
                &&& forall|i: int|
                    0 <= i < a.k_values.len() ==> #[trigger] b.k_values[i] == if a.missing(i) {
                        Some(a.k_at(ops, klines, i))
                    } else {
                        a.k_values[i]
                    }
                &&& forall|i: int|
                    0 <= i < a.d_values.len() ==> #[trigger] b.d_values[i] == if a.missing(i) {
                        Some(a.d_at(ops, klines, i))
                    } else {
                        a.d_values[i]
                    }
            },
            (Indicator::OnBalanceVolume(a), Indicator::OnBalanceVolume(b)) => exists|
                results: Seq<Vec<P>>,
            |
                {
                    &&& answered(
                        formula,
                        klines,
                        self.lookback(),
                        gaps(a.series(), self.size()),
                        results,
                        1,
                    )
                    &&& b.values@ == filled(a.values@, gaps(a.series(), self.size()), results, 0)
                },
            (Indicator::IchimokuCloud(a), Indicator::IchimokuCloud(b)) => exists|
                results: Seq<Vec<P>>,
            |
                {
                    &&& answered(
                        formula,
                        klines,
                        self.lookback(),
                        gaps(a.series(), self.size()),
                        results,
                        5,
                    )
                    &&& b.conversion_line_values@ == filled(a.conversion_line_values@, gaps(a.series(), self.size()), results, 0)
                    &&& b.base_line_values@ == filled(a.base_line_values@, gaps(a.series(), self.size()), results, 1)
                    &&& b.lagging_span_values@ == filled(a.lagging_span_values@, gaps(a.series(), self.size()), results, 2)
                    &&& b.leading_span_a_values@ == filled(a.leading_span_a_values@, gaps(a.series(), self.size()), results, 3)
                    &&& b.leading_span_b_values@ == filled(a.leading_span_b_values@, gaps(a.series(), self.size()), results, 4)
                },
            _ => false,
        }
    }

    /// What the catalogue says of the indicator.
    pub fn information(&self) -> (info: IndicatorInformation)
        ensures
            info@ == self.card(),
    {
        match self {
            Indicator::MovingAverage(_) => MovingAverage::<P>::information(),
            Indicator::ExponentialMovingAverage(_) => ExponentialMovingAverage::<P>::information(),
            Indicator::RelativeStrengthIndex(_) => RelativeStrengthIndex::<P>::information(),
            Indicator::MovingAverageConvergenceDivergence(_) => MovingAverageConvergenceDivergence::<P>::information(),
            Indicator::BollingerBands(_) => BollingerBands::<P>::information(),
            Indicator::FibonacciRetracement(_) => FibonacciRetracement::<P>::information(),
            Indicator::StochasticOscillator(_) => StochasticOscillator::<P>::information(),
            Indicator::OnBalanceVolume(_) => OnBalanceVolume::<P>::information(),
            Indicator::IchimokuCloud(_) => IchimokuCloud::<P>::information(),
        }
    }

    /// The names of the columns that hold the series.
    pub fn column_names(&self) -> (names: Vec<String>)
        ensures
            names@.map_values(|name: String| name@) == self.names(),
    {
        match self {
            Indicator::MovingAverage(indicator) => indicator.column_names(),
            Indicator::ExponentialMovingAverage(indicator) => indicator.column_names(),
            Indicator::RelativeStrengthIndex(indicator) => indicator.column_names(),
            Indicator::MovingAverageConvergenceDivergence(indicator) => indicator.column_names(),
            Indicator::BollingerBands(indicator) => indicator.column_names(),
            Indicator::FibonacciRetracement(indicator) => indicator.column_names(),
            Indicator::StochasticOscillator(indicator) => indicator.column_names(),
            Indicator::OnBalanceVolume(indicator) => indicator.column_names(),
            Indicator::IchimokuCloud(indicator) => indicator.column_names(),
        }
    }

    /// The number of candlesticks that a value looks back on.
    pub fn n_before_needed(&self) -> (n: i32)
        requires
            i32::MIN <= self.lookback() <= i32::MAX,
        ensures
            n == self.lookback(),
    {
        match self {
            Indicator::MovingAverage(indicator) => indicator.n_before_needed(),
            Indicator::ExponentialMovingAverage(indicator) => indicator.n_before_needed(),
            Indicator::RelativeStrengthIndex(indicator) => indicator.n_before_needed(),
            Indicator::MovingAverageConvergenceDivergence(indicator) => indicator.n_before_needed(),
            Indicator::BollingerBands(indicator) => indicator.n_before_needed(),
            Indicator::FibonacciRetracement(indicator) => indicator.n_before_needed(),
            Indicator::StochasticOscillator(indicator) => indicator.n_before_needed(),
            Indicator::OnBalanceVolume(indicator) => indicator.n_before_needed(),
            Indicator::IchimokuCloud(indicator) => indicator.n_before_needed(),
        }
    }

    /// The number of candlesticks that a value looks back on, where it is a
    /// count that 32 bits hold.
    pub fn try_n_before_needed(&self) -> (needed: Option<i32>)
        ensures
            needed is Some == (0 <= self.lookback() <= i32::MAX),
            needed matches Some(n) ==> n == self.lookback(),
    {
        let wide: i64 = match self {
            Indicator::MovingAverage(indicator) => indicator.period as i64,
            Indicator::ExponentialMovingAverage(indicator) => indicator.period as i64,
            Indicator::RelativeStrengthIndex(indicator) => indicator.period as i64,
            Indicator::MovingAverageConvergenceDivergence(indicator) => indicator.long_period as i64,
            Indicator::BollingerBands(indicator) => indicator.period as i64,
            Indicator::FibonacciRetracement(indicator) => indicator.period as i64,
            Indicator::StochasticOscillator(indicator) => indicator.k_period as i64 + indicator.d_period as i64,
            Indicator::OnBalanceVolume(indicator) => indicator.period as i64,
            Indicator::IchimokuCloud(indicator) => indicator.conversion_period as i64,
        };
        if 0 <= wide && wide <= 0x7fff_ffffi64 {
            Some(wide as i32)
        } else {
            None
        }
    }

    /// Makes room for `n` more values.
    pub fn reserve_space(&mut self, n: i32)
        requires
            n >= 0,
        ensures
            final(self).same_settings(&*old(self)),
            final(self).series().len() == old(self).series().len(),
            forall|k: int|
                0 <= k < old(self).series().len() ==> (#[trigger] final(self).series()[k])@ == old(self).series()[k]@,
    {
        match self {
            Indicator::MovingAverage(indicator) => indicator.reserve_space(n),
            Indicator::ExponentialMovingAverage(indicator) => indicator.reserve_space(n),
            Indicator::RelativeStrengthIndex(indicator) => indicator.reserve_space(n),
            Indicator::MovingAverageConvergenceDivergence(indicator) => indicator.reserve_space(n),
            Indicator::BollingerBands(indicator) => indicator.reserve_space(n),
            Indicator::FibonacciRetracement(indicator) => indicator.reserve_space(n),
            Indicator::StochasticOscillator(indicator) => indicator.reserve_space(n),
            Indicator::OnBalanceVolume(indicator) => indicator.reserve_space(n),
            Indicator::IchimokuCloud(indicator) => indicator.reserve_space(n),
        }
    }

    /// Takes up the values of one stored row: one for each series, in their
    /// order.
    pub fn store_row(&mut self, row: &Vec<Option<P>>)
        requires
            row.len() >= old(self).series().len(),
        ensures
            final(self).same_settings(&*old(self)),
            final(self).series().len() == old(self).series().len(),
            forall|k: int|
                0 <= k < old(self).series().len() ==> (#[trigger] final(self).series()[k])@ == old(self).series()[k]@.push(row[k]),
    {
        match self {
            Indicator::MovingAverage(indicator) => indicator.store_row(row),
            Indicator::ExponentialMovingAverage(indicator) => indicator.store_row(row),
            Indicator::RelativeStrengthIndex(indicator) => indicator.store_row(row),
            Indicator::MovingAverageConvergenceDivergence(indicator) => indicator.store_row(row),
            Indicator::BollingerBands(indicator) => indicator.store_row(row),
            Indicator::FibonacciRetracement(indicator) => indicator.store_row(row),
            Indicator::StochasticOscillator(indicator) => indicator.store_row(row),
            Indicator::OnBalanceVolume(indicator) => indicator.store_row(row),
            Indicator::IchimokuCloud(indicator) => indicator.store_row(row),
        }
    }

    /// Takes up the values of stored rows, in their order.
    pub fn store_rows(&mut self, rows: &Vec<Vec<Option<P>>>)
        requires
            rows.len() <= i32::MAX,
            forall|r: int| 0 <= r < rows.len() ==> (#[trigger] rows[r]).len() >= old(self).series().len(),
        ensures
            final(self).same_settings(&*old(self)),
            final(self).series().len() == old(self).series().len(),
            forall|k: int|
                0 <= k < old(self).series().len() ==> (#[trigger] final(self).series()[k])@ == old(self).series()[k]@ + Seq::new(
                    rows.len() as nat,
                    |r: int| rows[r][k],
                ),
    {
        let ghost start = *self;
        self.reserve_space(rows.len() as i32);
        let mut r: usize = 0;
        while r < rows.len()
            invariant
                r <= rows.len(),
                forall|t: int| 0 <= t < rows.len() ==> (#[trigger] rows[t]).len() >= start.series().len(),
                self.same_settings(&start),
                self.series().len() == start.series().len(),
                forall|k: int|
                    0 <= k < start.series().len() ==> (#[trigger] self.series()[k])@ == start.series()[k]@ + Seq::new(
                        r as nat,
                        |t: int| rows[t][k],
                    ),
            decreases rows.len() - r,
        {
            let ghost earlier = *self;
            self.store_row(&rows[r]);
            proof {
                assert forall|k: int| 0 <= k < start.series().len() implies (
                #[trigger] self.series()[k])@ == start.series()[k]@ + Seq::new(
                    (r + 1) as nat,
                    |t: int| rows[t][k],
                ) by {
                    assert(self.series()[k]@ == earlier.series()[k]@.push(rows[r as int][k]));
                    assert(earlier.series()[k]@.push(rows[r as int][k]) =~= start.series()[k]@
                        + Seq::new((r + 1) as nat, |t: int| rows[t][k]));
                }
            }
            r += 1;
        }
    }

    /// The series of the indicator.
    pub fn get_values(&self) -> (values: Vec<&Vec<Option<P>>>)
        ensures
            values@ == self.series(),
    {
        match self {
            Indicator::MovingAverage(indicator) => indicator.get_values(),
            Indicator::ExponentialMovingAverage(indicator) => indicator.get_values(),
            Indicator::RelativeStrengthIndex(indicator) => indicator.get_values(),
            Indicator::MovingAverageConvergenceDivergence(indicator) => indicator.get_values(),
            Indicator::BollingerBands(indicator) => indicator.get_values(),
            Indicator::FibonacciRetracement(indicator) => indicator.get_values(),
            Indicator::StochasticOscillator(indicator) => indicator.get_values(),
            Indicator::OnBalanceVolume(indicator) => indicator.get_values(),
            Indicator::IchimokuCloud(indicator) => indicator.get_values(),
        }
    }

    /// The positions without a value in one of the series, in ascending
    /// order.
    pub fn get_missing_indices(&self) -> (missing: Vec<i32>)
        requires
            self.wf(),
        ensures
            missing@ == gaps(self.series(), self.size()),
    {
        match self {
            Indicator::MovingAverage(indicator) => indicator.get_missing_indices(),
            Indicator::ExponentialMovingAverage(indicator) => indicator.get_missing_indices(),
            Indicator::RelativeStrengthIndex(indicator) => indicator.get_missing_indices(),
            Indicator::MovingAverageConvergenceDivergence(indicator) => indicator.get_missing_indices(),
            Indicator::BollingerBands(indicator) => indicator.get_missing_indices(),
            Indicator::FibonacciRetracement(indicator) => indicator.get_missing_indices(),
            Indicator::StochasticOscillator(indicator) => indicator.get_missing_indices(),
            Indicator::OnBalanceVolume(indicator) => indicator.get_missing_indices(),
            Indicator::IchimokuCloud(indicator) => indicator.get_missing_indices(),
        }
    }

    /// Computes the values that are missing. After it no position of a series
    /// is without a value.
    pub fn calculate<A, S, D, L, C, F>(
        &mut self,
        ops: &Arithmetic<P, A, S, D, L, C>,
        kline_collection: &KlineCollection<P>,
        formula: &F,
    ) where
        A: Fn(&P, &P) -> P,
        S: Fn(&P, &P) -> P,
        D: Fn(&P, &P) -> P,
        L: Fn(&P, &P) -> bool,
        C: Fn(i64) -> P,
        F: Fn(&Vec<Kline<P>>) -> Vec<P>,

        requires
            ops.wf(),
            kline_collection.countable(),
            old(self).wf(),
            old(self).fed_by(kline_collection),
            !old(self).has_own_rule() ==> formula_of(
                *formula,
                old(self).series().len() as int,
            ),
        ensures
            final(self).same_settings(&*old(self)),
            old(self).calculated(&*final(self), ops, kline_collection, *formula),
            gaps(final(self).series(), final(self).size()).len() == 0,
    {
        match self {
            Indicator::MovingAverage(indicator) => indicator.calculate(ops, kline_collection),
            Indicator::ExponentialMovingAverage(indicator) => indicator.calculate(kline_collection, formula),
            Indicator::RelativeStrengthIndex(indicator) => indicator.calculate(kline_collection, formula),
            Indicator::MovingAverageConvergenceDivergence(indicator) => indicator.calculate(kline_collection, formula),
            Indicator::BollingerBands(indicator) => indicator.calculate(kline_collection, formula),
            Indicator::FibonacciRetracement(indicator) => indicator.calculate(kline_collection, formula),
            Indicator::StochasticOscillator(indicator) => indicator.calculate(ops, kline_collection),
            Indicator::OnBalanceVolume(indicator) => indicator.calculate(kline_collection, formula),
            Indicator::IchimokuCloud(indicator) => indicator.calculate(kline_collection, formula),
        }
    }

    /// Derives the signals of the indicator. Only the moving average has
    /// signals to derive.
    pub fn calculate_criteria<A, S, D, L, C>(
        &mut self,
        ops: &Arithmetic<P, A, S, D, L, C>,
        kline_collection: &KlineCollection<P>,
    ) where
        A: Fn(&P, &P) -> P,
        S: Fn(&P, &P) -> P,
        D: Fn(&P, &P) -> P,
        L: Fn(&P, &P) -> bool,
        C: Fn(i64) -> P,

        requires
            ops.wf(),
        ensures
            !old(self).has_signals() ==> *final(self) == *old(self),
            *old(self) matches Indicator::MovingAverage(a) ==> (*final(self) matches Indicator::MovingAverage(b)
                && b.period == a.period && b.values == a.values && b.criteria_count
                == a.criteria_count && a.derives(&b, ops, kline_collection)),
    {
        match self {
            Indicator::MovingAverage(indicator) => indicator.calculate_criteria(ops, kline_collection),
            Indicator::ExponentialMovingAverage(indicator) => indicator.calculate_criteria(kline_collection),
            Indicator::RelativeStrengthIndex(indicator) => indicator.calculate_criteria(kline_collection),
            Indicator::MovingAverageConvergenceDivergence(indicator) => indicator.calculate_criteria(kline_collection),
            Indicator::BollingerBands(indicator) => indicator.calculate_criteria(kline_collection),
            Indicator::FibonacciRetracement(indicator) => indicator.calculate_criteria(kline_collection),
            Indicator::StochasticOscillator(indicator) => indicator.calculate_criteria(kline_collection),
            Indicator::OnBalanceVolume(indicator) => indicator.calculate_criteria(kline_collection),
            Indicator::IchimokuCloud(indicator) => indicator.calculate_criteria(kline_collection),
        }
    }

    /// The signals of the indicator.
    pub fn get_criteria(&self) -> (criteria: &Vec<Criterion>)
        ensures
            criteria == self.criteria(),
    {
        match self {
            Indicator::MovingAverage(indicator) => indicator.get_criteria(),
            Indicator::ExponentialMovingAverage(indicator) => indicator.get_criteria(),
            Indicator::RelativeStrengthIndex(indicator) => indicator.get_criteria(),
            Indicator::MovingAverageConvergenceDivergence(indicator) => indicator.get_criteria(),
            Indicator::BollingerBands(indicator) => indicator.get_criteria(),
            Indicator::FibonacciRetracement(indicator) => indicator.get_criteria(),
            Indicator::StochasticOscillator(indicator) => indicator.get_criteria(),
            Indicator::OnBalanceVolume(indicator) => indicator.get_criteria(),
            Indicator::IchimokuCloud(indicator) => indicator.get_criteria(),
        }
    }

    /// The number of signals that the indicator has.
    pub fn get_criteria_count(&self) -> (count: i32)
        ensures
            count == self.criteria_count(),
    {
        match self {
            Indicator::MovingAverage(indicator) => indicator.get_criteria_count(),
            Indicator::ExponentialMovingAverage(indicator) => indicator.get_criteria_count(),
            Indicator::RelativeStrengthIndex(indicator) => indicator.get_criteria_count(),
            Indicator::MovingAverageConvergenceDivergence(indicator) => indicator.get_criteria_count(),
            Indicator::BollingerBands(indicator) => indicator.get_criteria_count(),
            Indicator::FibonacciRetracement(indicator) => indicator.get_criteria_count(),
            Indicator::StochasticOscillator(indicator) => indicator.get_criteria_count(),
            Indicator::OnBalanceVolume(indicator) => indicator.get_criteria_count(),
            Indicator::IchimokuCloud(indicator) => indicator.get_criteria_count(),
        }
    }

    /// Whether the values of the indicator are computed by a rule of its own.
    pub open spec fn has_own_rule(&self) -> bool {
        match self {
            Indicator::MovingAverage(indicator) => true,
            Indicator::ExponentialMovingAverage(indicator) => false,
            Indicator::RelativeStrengthIndex(indicator) => false,
            Indicator::MovingAverageConvergenceDivergence(indicator) => false,
            Indicator::BollingerBands(indicator) => false,
            Indicator::FibonacciRetracement(indicator) => false,
            Indicator::StochasticOscillator(indicator) => true,
            Indicator::OnBalanceVolume(indicator) => false,
            Indicator::IchimokuCloud(indicator) => false,
        }
    }

    /// Whether signals are derived from the indicator.
    pub open spec fn has_signals(&self) -> bool {
        match self {
            Indicator::MovingAverage(indicator) => true,
            Indicator::ExponentialMovingAverage(indicator) => false,
            Indicator::RelativeStrengthIndex(indicator) => false,
            Indicator::MovingAverageConvergenceDivergence(indicator) => false,
            Indicator::BollingerBands(indicator) => false,
            Indicator::FibonacciRetracement(indicator) => false,
            Indicator::StochasticOscillator(indicator) => false,
            Indicator::OnBalanceVolume(indicator) => false,
            Indicator::IchimokuCloud(indicator) => false,
        }
    }

    /// The signals of the indicator.
    pub open spec fn criteria(&self) -> &Vec<Criterion> {
        match self {
            Indicator::MovingAverage(indicator) => &indicator.criteria,
            Indicator::ExponentialMovingAverage(indicator) => &indicator.criteria,
            Indicator::RelativeStrengthIndex(indicator) => &indicator.criteria,
            Indicator::MovingAverageConvergenceDivergence(indicator) => &indicator.criteria,
            Indicator::BollingerBands(indicator) => &indicator.criteria,
            Indicator::FibonacciRetracement(indicator) => &indicator.criteria,
            Indicator::StochasticOscillator(indicator) => &indicator.criteria,
            Indicator::OnBalanceVolume(indicator) => &indicator.criteria,
            Indicator::IchimokuCloud(indicator) => &indicator.criteria,
        }
    }

    /// The number of signals that the indicator has.
    pub open spec fn criteria_count(&self) -> i32 {
        match self {
            Indicator::MovingAverage(indicator) => indicator.criteria_count,
            Indicator::ExponentialMovingAverage(indicator) => indicator.criteria_count,
            Indicator::RelativeStrengthIndex(indicator) => indicator.criteria_count,
            Indicator::MovingAverageConvergenceDivergence(indicator) => indicator.criteria_count,
            Indicator::BollingerBands(indicator) => indicator.criteria_count,
            Indicator::FibonacciRetracement(indicator) => indicator.criteria_count,
            Indicator::StochasticOscillator(indicator) => indicator.criteria_count,
            Indicator::OnBalanceVolume(indicator) => indicator.criteria_count,
            Indicator::IchimokuCloud(indicator) => indicator.criteria_count,
        }
    }

    /// The domains of the parameters, in their order.
    pub open spec fn parameter_domains<A, S, D, L, C>(
        &self,
        ops: &Arithmetic<P, A, S, D, L, C>,
    ) -> Seq<VariableDefinition<P>> where
        A: Fn(&P, &P) -> P,
        S: Fn(&P, &P) -> P,
        D: Fn(&P, &P) -> P,
        L: Fn(&P, &P) -> bool,
        C: Fn(i64) -> P,
     {
        match self {
            Indicator::MovingAverage(_) => seq![
                VariableDefinition::Integer(2, 40),
            ],
            Indicator::ExponentialMovingAverage(_) => seq![
                VariableDefinition::Integer(1, 40),
            ],
            Indicator::RelativeStrengthIndex(_) => seq![
                VariableDefinition::Integer(1, 40),
            ],
            Indicator::MovingAverageConvergenceDivergence(_) => seq![
                VariableDefinition::Integer(0, 40),
                VariableDefinition::Integer(0, 40),
                VariableDefinition::Integer(0, 40),
            ],
            Indicator::BollingerBands(_) => seq![
                VariableDefinition::Integer(0, 40),
                VariableDefinition::Float(ops.number(0), ops.number(400)),
            ],
            Indicator::FibonacciRetracement(_) => seq![
                VariableDefinition::Float(ops.number(0), ops.number(0)),
            ],
            Indicator::StochasticOscillator(_) => seq![
                VariableDefinition::Integer(0, 40),
                VariableDefinition::Integer(0, 40),
            ],
            Indicator::OnBalanceVolume(_) => seq![
                VariableDefinition::Float(ops.number(0), ops.number(0)),
            ],
            Indicator::IchimokuCloud(_) => seq![
                VariableDefinition::Integer(1, 40),
                VariableDefinition::Integer(1, 40),
                VariableDefinition::Integer(1, 40),
            ],
        }
    }

    /// The domains of the parameters, in their order: an integer parameter
    /// ranges from its least value, or from 0, to 40; a number ranges from 0
    /// to 400; a parameter of another kind has the domain of the number 0.
    pub fn get_params_variable_definitions<A, S, D, L, C>(
        &self,
        ops: &Arithmetic<P, A, S, D, L, C>,
    ) -> (definitions: Vec<VariableDefinition<P>>) where
        A: Fn(&P, &P) -> P,
        S: Fn(&P, &P) -> P,
        D: Fn(&P, &P) -> P,
        L: Fn(&P, &P) -> bool,
        C: Fn(i64) -> P,

        requires
            ops.wf(),
        ensures
            definitions@ == self.parameter_domains(ops),
    {
        let mut definitions: Vec<VariableDefinition<P>> = Vec::new();
        match self {
            Indicator::MovingAverage(_) => {
                definitions.push(VariableDefinition::Integer(2, 40));
            },
            Indicator::ExponentialMovingAverage(_) => {
                definitions.push(VariableDefinition::Integer(1, 40));
            },
            Indicator::RelativeStrengthIndex(_) => {
                definitions.push(VariableDefinition::Integer(1, 40));
            },
            Indicator::MovingAverageConvergenceDivergence(_) => {
                definitions.push(VariableDefinition::Integer(0, 40));
                definitions.push(VariableDefinition::Integer(0, 40));
                definitions.push(VariableDefinition::Integer(0, 40));
            },
            Indicator::BollingerBands(_) => {
                definitions.push(VariableDefinition::Integer(0, 40));
                definitions.push(VariableDefinition::Float(ops.count(0), ops.count(400)));
            },
            Indicator::FibonacciRetracement(_) => {
                definitions.push(VariableDefinition::Float(ops.count(0), ops.count(0)));
            },
            Indicator::StochasticOscillator(_) => {
                definitions.push(VariableDefinition::Integer(0, 40));
                definitions.push(VariableDefinition::Integer(0, 40));
            },
            Indicator::OnBalanceVolume(_) => {
                definitions.push(VariableDefinition::Float(ops.count(0), ops.count(0)));
            },
            Indicator::IchimokuCloud(_) => {
                definitions.push(VariableDefinition::Integer(1, 40));
                definitions.push(VariableDefinition::Integer(1, 40));
                definitions.push(VariableDefinition::Integer(1, 40));
            },
        }
        assert(definitions@ =~= self.parameter_domains(ops));
        definitions
    }

    /// The domains of all variables of the indicator: those of its
    /// parameters, then one boolean for each of its signals, which switches
    /// the signal on and off.
    pub fn get_all_variable_definitions<A, S, D, L, C>(
        &self,
        ops: &Arithmetic<P, A, S, D, L, C>,
    ) -> (definitions: Vec<VariableDefinition<P>>) where
        A: Fn(&P, &P) -> P,
        S: Fn(&P, &P) -> P,
        D: Fn(&P, &P) -> P,
        L: Fn(&P, &P) -> bool,
        C: Fn(i64) -> P,

        requires
            ops.wf(),
        ensures
            definitions@ == self.parameter_domains(ops) + Seq::new(
                if self.criteria_count() > 0 {
                    self.criteria_count() as nat
                } else {
                    0nat
                },
                |i: int| VariableDefinition::Boolean,
            ),
    {
        let mut definitions = self.get_params_variable_definitions(ops);
        let count = self.get_criteria_count();
        let mut i: i32 = 0;
        while i < count
            invariant
                0 <= i,
                count > 0 ==> i <= count,
                count <= 0 ==> i == 0,
                definitions@ == self.parameter_domains(ops) + Seq::new(
                    i as nat,
                    |i: int| VariableDefinition::Boolean,
                ),
            decreases count - i,
        {
            definitions.push(VariableDefinition::Boolean);
            assert(definitions@ =~= self.parameter_domains(ops) + Seq::new(
                (i + 1) as nat,
                |i: int| VariableDefinition::Boolean,
            ));
            i += 1;
        }
        definitions
    }

    /// What the catalogue says of every indicator.
    pub fn get_all_indicators_info() -> (all: Vec<IndicatorInformation>)
        ensures
            all@.map_values(|info: IndicatorInformation| info@) == seq![
                MovingAverage::<P>::card(),
                ExponentialMovingAverage::<P>::card(),
                RelativeStrengthIndex::<P>::card(),
                MovingAverageConvergenceDivergence::<P>::card(),
                BollingerBands::<P>::card(),
                FibonacciRetracement::<P>::card(),
                StochasticOscillator::<P>::card(),
                OnBalanceVolume::<P>::card(),
                IchimokuCloud::<P>::card(),
            ],
    {
        let mut all: Vec<IndicatorInformation> = Vec::new();
        all.push(MovingAverage::<P>::information());
        all.push(ExponentialMovingAverage::<P>::information());
        all.push(RelativeStrengthIndex::<P>::information());
        all.push(MovingAverageConvergenceDivergence::<P>::information());
        all.push(BollingerBands::<P>::information());
        all.push(FibonacciRetracement::<P>::information());
        all.push(StochasticOscillator::<P>::information());
        all.push(OnBalanceVolume::<P>::information());
        all.push(IchimokuCloud::<P>::information());
        assert(all@.map_values(|info: IndicatorInformation| info@) =~= seq![
            MovingAverage::<P>::card(),
            ExponentialMovingAverage::<P>::card(),
            RelativeStrengthIndex::<P>::card(),
            MovingAverageConvergenceDivergence::<P>::card(),
            BollingerBands::<P>::card(),
            FibonacciRetracement::<P>::card(),
            StochasticOscillator::<P>::card(),
            OnBalanceVolume::<P>::card(),
            IchimokuCloud::<P>::card(),
        ]);
        all
    }
}

} // verus!
