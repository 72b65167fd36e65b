//! The stochastic oscillator: where the closing price lies within the range
//! of a first period (%K), and the mean of that over a second period (%D).
use vstd::prelude::*;
use vstd::string::*;
use crate::arithmetic::Arithmetic;
use crate::criteria::Criterion;
use crate::indicators::series::{
    aligned, gaps, in_reach, lemma_gaps, mean, missing_at, missing_indices_of, sum_of, window,
    window_of,
};
use crate::indicators::types::{
    IndicatorInformation, IndicatorParameter, InformationCard, ParameterCard, StochasticOscillator,
};
use crate::klines::{Kline, KlineCollection};
use crate::metaheuristic::objects::Variable;
use crate::text::{decimal, render_i64};

verus! {

/// The highest of the numbers, found from zero upwards: a number takes the
/// place of the highest so far only where it is greater.
pub open spec fn highest<P, A, S, D, L, C>(ops: &Arithmetic<P, A, S, D, L, C>, values: Seq<P>) -> P where
    A: Fn(&P, &P) -> P,
    S: Fn(&P, &P) -> P,
    D: Fn(&P, &P) -> P,
    L: Fn(&P, &P) -> bool,
    C: Fn(i64) -> P,

    decreases values.len(),
{
    if values.len() == 0 {
        ops.number(0)
    } else {
        let so_far = highest(ops, values.drop_last());
        if ops.lt(so_far, values.last()) {
            values.last()
        } else {
            so_far
        }
    }
}

/// The lowest of the numbers, found from the largest number downwards: a
/// number takes the place of the lowest so far only where it is smaller.
pub open spec fn lowest<P, A, S, D, L, C>(ops: &Arithmetic<P, A, S, D, L, C>, values: Seq<P>) -> P where
    A: Fn(&P, &P) -> P,
    S: Fn(&P, &P) -> P,
    D: Fn(&P, &P) -> P,
    L: Fn(&P, &P) -> bool,
    C: Fn(i64) -> P,

    decreases values.len(),
{
    if values.len() == 0 {
        ops.largest
    } else {
        let so_far = lowest(ops, values.drop_last());
        if ops.lt(values.last(), so_far) {
            values.last()
        } else {
            so_far
        }
    }
}

/// Where the closing price of the candlestick at the reverse index `start`
/// lies within the range of that candlestick and the `period - 1` before it:
/// the closing price less the lowest low, divided by the highest high less
/// the lowest low.
pub open spec fn position_in_range<P, A, S, D, L, C>(
    ops: &Arithmetic<P, A, S, D, L, C>,
    klines: &KlineCollection<P>,
    start: int,
    period: int,
) -> P where
    A: Fn(&P, &P) -> P,
    S: Fn(&P, &P) -> P,
    D: Fn(&P, &P) -> P,
    L: Fn(&P, &P) -> bool,
    C: Fn(i64) -> P,
 {
    let seen = window(klines, start, period);
    let top = highest(ops, seen.map_values(|k: Kline<P>| k.high));
    let bottom = lowest(ops, seen.map_values(|k: Kline<P>| k.low));
    let close = klines.timeline()[klines.timeline().len() - 1 - start].close;
    ops.quotient(ops.difference(close, bottom), ops.difference(top, bottom))
}

/// Whether the collection holds the candlestick at the reverse index `start`
/// and those that it looks back on.
pub open spec fn readable<P>(klines: &KlineCollection<P>, start: int, period: int) -> bool {
    0 <= start < klines.timeline().len() && in_reach(klines, start, period)
}

/// Computes where a closing price lies within the range of a period.
pub fn range_position<P: Copy, A, S, D, L, C>(
    ops: &Arithmetic<P, A, S, D, L, C>,
    klines: &KlineCollection<P>,
    start: i32,
    period: i32,
) -> (value: P) where
    A: Fn(&P, &P) -> P,
    S: Fn(&P, &P) -> P,
    D: Fn(&P, &P) -> P,
    L: Fn(&P, &P) -> bool,
    C: Fn(i64) -> P,

    requires
        ops.wf(),
        klines.countable(),
        readable(klines, start as int, period as int),
    ensures
        value == position_in_range(ops, klines, start as int, period as int),
{
    let seen = window_of(klines, start, period);
    let ghost highs = seen@.map_values(|k: Kline<P>| k.high);
    let ghost lows = seen@.map_values(|k: Kline<P>| k.low);
    let mut max = ops.count(0);
    let mut min = ops.largest;
    let mut j: usize = 0;
    while j < seen.len()
        invariant
            ops.wf(),
            j <= seen.len(),
            highs == seen@.map_values(|k: Kline<P>| k.high),
            lows == seen@.map_values(|k: Kline<P>| k.low),
            max == highest(ops, highs.subrange(0, j as int)),
            min == lowest(ops, lows.subrange(0, j as int)),
        decreases seen.len() - j,
    {
        proof {
            assert(highs.subrange(0, j + 1).drop_last() =~= highs.subrange(0, j as int));
            assert(lows.subrange(0, j + 1).drop_last() =~= lows.subrange(0, j as int));
            assert(highs.subrange(0, j + 1).last() == seen[j as int].high);
            assert(lows.subrange(0, j + 1).last() == seen[j as int].low);
        }
        if ops.below(&max, &seen[j].high) {
            max = seen[j].high;
        }
        if ops.below(&seen[j].low, &min) {
            min = seen[j].low;
        }
        j += 1;
    }
    proof {
        assert(highs.subrange(0, j as int) =~= highs);
        assert(lows.subrange(0, j as int) =~= lows);
    }
    let close = match klines.get_rev(start) {
        Some(kline) => kline.close,
        None => max,
    };
    let above_bottom = ops.minus(&close, &min);
    let range = ops.minus(&max, &min);
    ops.over(&above_bottom, &range)
}

impl<P: Copy> StochasticOscillator<P> {
    /// The series of the indicator: %K, then %D.
    pub open spec fn series(&self) -> Seq<&Vec<Option<P>>> {
        seq![&self.k_values, &self.d_values]
    }

    /// Whether the series are of one length, which 32 bits can count.
    pub open spec fn wf(&self) -> bool {
        aligned(self.series(), self.k_values@.len() as int)
    }

    /// What the catalogue says of the indicator.
    pub open spec fn card() -> InformationCard {
        InformationCard {
            struct_name: "StochasticOscillator"@,
            name: "Stochastic Oscillator"@,
            description: "Calculates the Stochastic Oscillator indicator"@,
            parameters: seq![
                ParameterCard {
                    name: "k_period"@,
                    description: "The period of the K line"@,
                    kind: "integer"@,
                    default: "14"@,
                    min: None,
                    max: None,
                },
                ParameterCard {
                    name: "d_period"@,
                    description: "The period of the D line"@,
                    kind: "integer"@,
                    default: "3"@,
                    min: None,
                    max: None,
                },
            ],
        }
    }

    /// The names of the columns that hold the series.
    pub open spec fn names(&self) -> Seq<Seq<char>> {
        let stem = "i_so_"@ + decimal(self.k_period as int) + "_"@ + decimal(self.d_period as int);
        seq![stem + "_k"@, stem + "_d"@]
    }

    /// Whether position `i` has no value in one of the series.
    pub open spec fn missing(&self, i: int) -> bool {
        0 <= i < self.k_values.len() && (self.k_values[i] is None || self.d_values[i] is None)
    }

    /// %K at position `i`, also before the first position: the value that is
    /// held or, where the position has none, the value that is computed.
    pub open spec fn k_at<A, S, D, L, C>(
        &self,
        ops: &Arithmetic<P, A, S, D, L, C>,
        klines: &KlineCollection<P>,
        i: int,
    ) -> P where
        A: Fn(&P, &P) -> P,
        S: Fn(&P, &P) -> P,
        D: Fn(&P, &P) -> P,
        L: Fn(&P, &P) -> bool,
        C: Fn(i64) -> P,
     {
        if i < 0 || self.missing(i) {
            position_in_range(ops, klines, klines.length() - 1 - i, self.k_period as int)
        } else {
            self.k_values[i].unwrap()
        }
    }

    /// %D at position `i`: the mean of %K at the position and at the
    /// `d_period - 1` positions before it, added up from the latest one.
    pub open spec fn d_at<A, S, D, L, C>(
        &self,
        ops: &Arithmetic<P, A, S, D, L, C>,
        klines: &KlineCollection<P>,
        i: int,
    ) -> P where
        A: Fn(&P, &P) -> P,
        S: Fn(&P, &P) -> P,
        D: Fn(&P, &P) -> P,
        L: Fn(&P, &P) -> bool,
        C: Fn(i64) -> P,
     {
        mean(
            ops,
            Seq::new(self.d_period as nat, |j: int| self.k_at(ops, klines, i - j)),
            self.d_period as i64,
        )
    }

    /// Whether the collection holds the candlesticks that the computation
    /// reads: those that a missing position looks back on, and those that the
    /// `d_period` positions before the first one look back on.
    pub open spec fn fed_by(&self, klines: &KlineCollection<P>) -> bool {
        &&& self.d_period >= 0
        &&& forall|i: int|
            -self.d_period <= i < self.k_values.len() && (i < 0 || self.missing(i))
                ==> #[trigger] self.reads(klines, i)
    }

    /// Whether the collection holds the candlesticks that %K at position `i`
    /// is computed from.
    pub open spec fn reads(&self, klines: &KlineCollection<P>, i: int) -> bool {
        readable(klines, klines.length() - 1 - i, self.k_period as int)
    }

    /// The indicator without values.
    pub fn new(k_period: i32, d_period: i32) -> (indicator: Self)
        ensures
            indicator.k_period == k_period,
            indicator.d_period == d_period,
            indicator.k_values@ == Seq::<Option<P>>::empty(),
            indicator.d_values@ == Seq::<Option<P>>::empty(),
            indicator.criteria@ == Seq::<Criterion>::empty(),
            indicator.criteria_count == 0,
    {
        StochasticOscillator {
            k_period,
            d_period,
            k_values: Vec::new(),
            d_values: Vec::new(),
            criteria: Vec::new(),
            criteria_count: 0,
        }
    }

    /// What the catalogue says of the indicator.
    pub fn information() -> (info: IndicatorInformation)
        ensures
            info@ == Self::card(),
    {
        let mut parameters: Vec<IndicatorParameter> = Vec::new();
        parameters.push(
            IndicatorParameter {
                name: String::from_str("k_period"),
                description: String::from_str("The period of the K line"),
                kind: String::from_str("integer"),
                default: String::from_str("14"),
                min: None,
                max: None,
            },
        );
        parameters.push(
            IndicatorParameter {
                name: String::from_str("d_period"),
                description: String::from_str("The period of the D line"),
                kind: String::from_str("integer"),
                default: String::from_str("3"),
                min: None,
                max: None,
            },
        );
        let info = IndicatorInformation {
            struct_name: String::from_str("StochasticOscillator"),
            name: String::from_str("Stochastic Oscillator"),
            description: String::from_str("Calculates the Stochastic Oscillator indicator"),
            parameters,
        };
        assert(info@.parameters =~= Self::card().parameters);
        info
    }

    /// The names of the columns that hold the series.
    pub fn column_names(&self) -> (names: Vec<String>)
        ensures
            names@.map_values(|name: String| name@) == self.names(),
    {
        let mut stem = String::from_str("i_so_");
        let first = render_i64(self.k_period as i64);
        stem.append(first.as_str());
        stem.append("_");
        let second = render_i64(self.d_period as i64);
        stem.append(second.as_str());
        let mut k_name = stem.clone();
        k_name.append("_k");
        let mut d_name = stem;
        d_name.append("_d");
        let mut names: Vec<String> = Vec::new();
        names.push(k_name);
        names.push(d_name);
        assert(names@.map_values(|name: String| name@) =~= self.names());
        names
    }

    /// The number of candlesticks that a value looks back on.
    pub fn n_before_needed(&self) -> (n: i32)
        requires
            i32::MIN <= self.k_period + self.d_period <= i32::MAX,
        ensures
            n == self.k_period + self.d_period,
    {
        self.k_period + self.d_period
    }

    /// Makes room for `n` more values.
    pub fn reserve_space(&mut self, n: i32)
        requires
            n >= 0,
        ensures
            final(self).k_values@ == old(self).k_values@,
            final(self).d_values@ == old(self).d_values@,
            final(self).k_period == old(self).k_period,
            final(self).d_period == old(self).d_period,
            final(self).criteria == old(self).criteria,
            final(self).criteria_count == old(self).criteria_count,
    {
        self.k_values.reserve(n as usize);
        self.d_values.reserve(n as usize);
    }

    /// Takes up the values of one stored row.
    pub fn store_row(&mut self, row: &Vec<Option<P>>)
        requires
            row.len() >= 2,
        ensures
            final(self).k_values@ == old(self).k_values@.push(row[0]),
            final(self).d_values@ == old(self).d_values@.push(row[1]),
            final(self).k_period == old(self).k_period,
            final(self).d_period == old(self).d_period,
            final(self).criteria == old(self).criteria,
            final(self).criteria_count == old(self).criteria_count,
    {
        self.k_values.push(row[0]);
        self.d_values.push(row[1]);
    }

    /// The series of the indicator.
    pub fn get_values(&self) -> (values: Vec<&Vec<Option<P>>>)
        ensures
            values@ == self.series(),
    {
        let mut values: Vec<&Vec<Option<P>>> = Vec::new();
        values.push(&self.k_values);
        values.push(&self.d_values);
        assert(values@ =~= self.series());
        values
    }

    /// The positions without a value in one of the series, in ascending
    /// order.
    pub fn get_missing_indices(&self) -> (missing: Vec<i32>)
        requires
            self.wf(),
        ensures
            missing@ == gaps(self.series(), self.k_values@.len() as int),
    {
        let values = self.get_values();
        missing_indices_of(&values)
    }

    /// No signal is derived from this indicator.
    pub fn calculate_criteria(&mut self, kline_collection: &KlineCollection<P>)
        ensures
            *final(self) == *old(self),
    {
    }

    /// The signals of the indicator.
    pub fn get_criteria(&self) -> (criteria: &Vec<Criterion>)
        ensures
            criteria == &self.criteria,
    {
        &self.criteria
    }

    /// The number of signals that the indicator has.
    pub fn get_criteria_count(&self) -> (count: i32)
        ensures
            count == self.criteria_count,
    {
        self.criteria_count
    }

    /// A fresh indicator with the periods that the first two variables hold.
    pub fn clone_with_new_parameters(&self, parameters: &Vec<Variable<P>>) -> (indicator: Self)
        requires
            parameters.len() >= 2,
            parameters[0] matches Variable::Integer(value) && i32::MIN <= value <= i32::MAX,
            parameters[1] matches Variable::Integer(value) && i32::MIN <= value <= i32::MAX,
        ensures
            parameters[0] matches Variable::Integer(value) && indicator.k_period == value,
            parameters[1] matches Variable::Integer(value) && indicator.d_period == value,
            indicator.k_values@ == Seq::<Option<P>>::empty(),
            indicator.d_values@ == Seq::<Option<P>>::empty(),
            indicator.criteria@ == Seq::<Criterion>::empty(),
            indicator.criteria_count == 0,
    {
        match (parameters[0], parameters[1]) {
            (Variable::Integer(first), Variable::Integer(second)) => Self::new(
                first as i32,
                second as i32,
            ),
            _ => Self::new(0, 0),
        }
    }

    /// The positions that the lists of missing positions name are the
    /// missing positions.
    proof fn lemma_missing(&self, i: int)
        requires
            self.wf(),
            0 <= i < self.k_values.len(),
        ensures
            self.missing(i) <==> missing_at(self.series(), i),
    {
        assert(self.series()[0] == &self.k_values);
        assert(self.series()[1] == &self.d_values);
        if missing_at(self.series(), i) {
            let k = choose|k: int|
                0 <= k < self.series().len() && (#[trigger] self.series()[k])@[i] is None;
            assert(k == 0 || k == 1);
        }
        if self.k_values[i] is None {
            assert(self.series()[0]@[i] is None);
        }
        if self.d_values[i] is None {
            assert(self.series()[1]@[i] is None);
        }
    }

    fn values_before<A, S, D, L, C>(
        &self,
        ops: &Arithmetic<P, A, S, D, L, C>,
        klines: &KlineCollection<P>,
    ) -> (before: Vec<P>) where
        A: Fn(&P, &P) -> P,
        S: Fn(&P, &P) -> P,
        D: Fn(&P, &P) -> P,
        L: Fn(&P, &P) -> bool,
        C: Fn(i64) -> P,

        requires
            ops.wf(),
            klines.countable(),
            self.fed_by(klines),
        ensures
            before.len() == self.d_period,
            forall|a: int|
                0 <= a < self.d_period ==> #[trigger] before[a] == self.k_at(
                    ops,
                    klines,
                    a - self.d_period,
                ),
    {
        let length = klines.get_length();
        let mut before: Vec<P> = Vec::new();
        let mut a: i32 = 0;
        while a < self.d_period
            invariant
                ops.wf(),
                klines.countable(),
                self.fed_by(klines),
                length == klines.length(),
                0 <= a <= self.d_period,
                before.len() == a,
                forall|t: int|
                    0 <= t < a ==> #[trigger] before[t] == self.k_at(ops, klines, t - self.d_period),
            decreases self.d_period - a,
        {
            let position = a - self.d_period;
            assert(self.reads(klines, position as int));
            let value = range_position(ops, klines, length - 1 - position, self.k_period);
            before.push(value);
            a += 1;
        }
        before
    }

    fn fill_k<A, S, D, L, C>(
        &mut self,
        ops: &Arithmetic<P, A, S, D, L, C>,
        klines: &KlineCollection<P>,
        missing: &Vec<i32>,
    ) where
        A: Fn(&P, &P) -> P,
        S: Fn(&P, &P) -> P,
        D: Fn(&P, &P) -> P,
        L: Fn(&P, &P) -> bool,
        C: Fn(i64) -> P,

        requires
            ops.wf(),
            klines.countable(),
            old(self).wf(),
            old(self).fed_by(klines),
            missing@ == gaps(old(self).series(), old(self).k_values@.len() as int),
        ensures
            final(self).k_period == old(self).k_period,
            final(self).d_period == old(self).d_period,
            final(self).d_values == old(self).d_values,
            final(self).criteria == old(self).criteria,
            final(self).criteria_count == old(self).criteria_count,
            final(self).k_values.len() == old(self).k_values.len(),
            forall|i: int|
                0 <= i < old(self).k_values.len() ==> #[trigger] final(self).k_values[i] == Some(
                    old(self).k_at(ops, klines, i),
                ),
    {
        let ghost start = *self;
        let length = klines.get_length();
        proof {
            lemma_gaps(start.series(), start.k_values@.len() as int);
            assert forall|t: int| 0 <= t < missing.len() implies 0 <= #[trigger] missing[t]
                < start.k_values.len() && start.missing(missing[t] as int) by {
                start.lemma_missing(missing[t] as int);
            }
        }
        let mut q: usize = 0;
        while q < missing.len()
            invariant
                ops.wf(),
                klines.countable(),
                start.wf(),
                start.fed_by(klines),
                length == klines.length(),
                self.k_period == start.k_period,
                self.d_period == start.d_period,
                self.d_values == start.d_values,
                self.criteria == start.criteria,
                self.criteria_count == start.criteria_count,
                self.k_values.len() == start.k_values.len(),
                q <= missing.len(),
                forall|t: int|
                    0 <= t < missing.len() ==> 0 <= #[trigger] missing[t] < start.k_values.len()
                        && start.missing(missing[t] as int),
                forall|i: int|
                    0 <= i < start.k_values.len() ==> #[trigger] self.k_values[i] == if exists|
                        t: int,
                    |
                        0 <= t < q && #[trigger] missing[t] == i {
                        Some(start.k_at(ops, klines, i))
                    } else {
                        start.k_values[i]
                    },
            decreases missing.len() - q,
        {
            let i = missing[q];
            assert(start.reads(klines, i as int));
            let value = range_position(ops, klines, length - 1 - i, self.k_period);
            let ghost earlier = self.k_values@;
            self.k_values.set(i as usize, Some(value));
            proof {
                assert forall|x: int| 0 <= x < start.k_values.len() implies #[trigger] self.k_values[x]
                    == if exists|t: int| 0 <= t < q + 1 && #[trigger] missing[t] == x {
                    Some(start.k_at(ops, klines, x))
                } else {
                    start.k_values[x]
                } by {
                    if x == i {
                        assert(missing[q as int] == x);
                    } else {
                        assert(self.k_values[x] == earlier[x]);
                        if exists|t: int| 0 <= t < q + 1 && #[trigger] missing[t] == x {
                            let t = choose|t: int| 0 <= t < q + 1 && #[trigger] missing[t] == x;
                            assert(0 <= t < q && missing[t] == x);
                        }
                    }
                }
            }
            q += 1;
        }
        proof {
            assert forall|i: int| 0 <= i < start.k_values.len() implies #[trigger] self.k_values[i]
                == Some(start.k_at(ops, klines, i)) by {
                start.lemma_missing(i);
                if start.missing(i) {
                    assert(missing@.contains(i as i32));
                    let t = choose|t: int| 0 <= t < missing@.len() && missing@[t] == i as i32;
                    assert(missing[t] == i);
                } else {
                    if exists|t: int| 0 <= t < missing.len() && #[trigger] missing[t] == i {
                        let t = choose|t: int| 0 <= t < missing.len() && #[trigger] missing[t] == i;
                        assert(start.missing(missing[t] as int));
                    }
                }
            }
        }
    }

    fn d_value<A, S, D, L, C>(
        &self,
        ops: &Arithmetic<P, A, S, D, L, C>,
        before: &Vec<P>,
        i: i32,
        Ghost(start): Ghost<Self>,
        Ghost(klines): Ghost<&KlineCollection<P>>,
    ) -> (value: P) where
        A: Fn(&P, &P) -> P,
        S: Fn(&P, &P) -> P,
        D: Fn(&P, &P) -> P,
        L: Fn(&P, &P) -> bool,
        C: Fn(i64) -> P,

        requires
            ops.wf(),
            self.d_period == start.d_period,
            self.d_period >= 0,
            self.k_values.len() == start.k_values.len(),
            self.k_values.len() <= i32::MAX,
            0 <= i < self.k_values.len(),
            before.len() == self.d_period,
            forall|a: int|
                0 <= a < self.d_period ==> #[trigger] before[a] == start.k_at(
                    ops,
                    klines,
                    a - self.d_period,
                ),
            forall|x: int|
                0 <= x < self.k_values.len() ==> #[trigger] self.k_values[x] == Some(
                    start.k_at(ops, klines, x),
                ),
        ensures
            value == start.d_at(ops, klines, i as int),
    {
        let mut terms: Vec<P> = Vec::new();
        let mut j: i32 = 0;
        while j < self.d_period
            invariant
                self.d_period == start.d_period,
                self.k_values.len() == start.k_values.len(),
                self.k_values.len() <= i32::MAX,
                0 <= i < self.k_values.len(),
                0 <= j <= self.d_period,
                terms.len() == j,
                before.len() == self.d_period,
                forall|a: int|
                    0 <= a < self.d_period ==> #[trigger] before[a] == start.k_at(
                        ops,
                        klines,
                        a - self.d_period,
                    ),
                forall|x: int|
                    0 <= x < self.k_values.len() ==> #[trigger] self.k_values[x] == Some(
                        start.k_at(ops, klines, x),
                    ),
                forall|t: int| 0 <= t < j ==> #[trigger] terms[t] == start.k_at(ops, klines, i - t),
            decreases self.d_period - j,
        {
            let position = i - j;
            let term = if position < 0 {
                let a = (position + self.d_period) as usize;
                assert(before[a as int] == start.k_at(ops, klines, a - self.d_period));
                before[a]
            } else {
                match self.k_values[position as usize] {
                    Some(value) => value,
                    None => before[0],
                }
            };
            terms.push(term);
            j += 1;
        }
        proof {
            assert(terms@ =~= Seq::new(
                start.d_period as nat,
                |j: int| start.k_at(ops, klines, i - j),
            ));
        }
        let sum = sum_of(ops, &terms);
        let count = ops.count(self.d_period as i64);
        ops.over(&sum, &count)
    }

    /// Computes the values that are missing. %K is computed first, also for
    /// the `d_period` positions before the first one; %D is the mean of what
    /// %K then holds.
    pub fn calculate<A, S, D, L, C>(
        &mut self,
        ops: &Arithmetic<P, A, S, D, L, C>,
        kline_collection: &KlineCollection<P>,
    ) where
        A: Fn(&P, &P) -> P,
        S: Fn(&P, &P) -> P,
        D: Fn(&P, &P) -> P,
        L: Fn(&P, &P) -> bool,
        C: Fn(i64) -> P,

        requires
            ops.wf(),
            kline_collection.countable(),
            old(self).wf(),
            old(self).fed_by(kline_collection),
        ensures
            final(self).k_period == old(self).k_period,
            final(self).d_period == old(self).d_period,
            final(self).criteria == old(self).criteria,
            final(self).criteria_count == old(self).criteria_count,
            final(self).k_values.len() == old(self).k_values.len(),
            final(self).d_values.len() == old(self).d_values.len(),
            forall|i: int|
                0 <= i < old(self).k_values.len() ==> #[trigger] final(self).k_values[i] == if old(self).missing(i) {
                    Some(old(self).k_at(ops, kline_collection, i))
                } else {
                    old(self).k_values[i]
                },
            forall|i: int|
                0 <= i < old(self).d_values.len() ==> #[trigger] final(self).d_values[i] == if old(self).missing(i) {
                    Some(old(self).d_at(ops, kline_collection, i))
                } else {
                    old(self).d_values[i]
                },
            gaps(final(self).series(), final(self).k_values@.len() as int).len() == 0,
    {
        let ghost start = *self;
        let missing = self.get_missing_indices();
        let before = self.values_before(ops, kline_collection);
        self.fill_k(ops, kline_collection, &missing);
        proof {
            lemma_gaps(start.series(), start.k_values@.len() as int);
            assert(start.series()[0] == &start.k_values);
            assert(start.series()[1] == &start.d_values);
            assert(start.d_values@.len() == start.k_values@.len());
            assert forall|t: int| 0 <= t < missing.len() implies 0 <= #[trigger] missing[t]
                < start.k_values.len() && start.missing(missing[t] as int) by {
                start.lemma_missing(missing[t] as int);
            }
        }
        let mut q: usize = 0;
        while q < missing.len()
            invariant
                ops.wf(),
                start.wf(),
                start.d_period >= 0,
                self.k_period == start.k_period,
                self.d_period == start.d_period,
                self.criteria == start.criteria,
                self.criteria_count == start.criteria_count,
                self.k_values.len() == start.k_values.len(),
                self.d_values.len() == start.d_values.len(),
                start.d_values.len() == start.k_values.len(),
                start.k_values.len() <= i32::MAX,
                q <= missing.len(),
                before.len() == self.d_period,
                forall|a: int|
                    0 <= a < self.d_period ==> #[trigger] before[a] == start.k_at(
                        ops,
                        kline_collection,
                        a - self.d_period,
                    ),
                forall|x: int|
                    0 <= x < self.k_values.len() ==> #[trigger] self.k_values[x] == Some(
                        start.k_at(ops, kline_collection, x),
                    ),
                forall|t: int|
                    0 <= t < missing.len() ==> 0 <= #[trigger] missing[t] < start.k_values.len()
                        && start.missing(missing[t] as int),
                forall|i: int|
                    0 <= i < start.d_values.len() ==> #[trigger] self.d_values[i] == if exists|
                        t: int,
                    |
                        0 <= t < q && #[trigger] missing[t] == i {
                        Some(start.d_at(ops, kline_collection, i))
                    } else {
                        start.d_values[i]
                    },
            decreases missing.len() - q,
        {
            let i = missing[q];
            let value = self.d_value(ops, &before, i, Ghost(start), Ghost(kline_collection));
            let ghost earlier = self.d_values@;
            self.d_values.set(i as usize, Some(value));
            proof {
                assert forall|x: int| 0 <= x < start.d_values.len() implies #[trigger] self.d_values[x]
                    == if exists|t: int| 0 <= t < q + 1 && #[trigger] missing[t] == x {
                    Some(start.d_at(ops, kline_collection, x))
                } else {
                    start.d_values[x]
                } by {
                    if x == i {
                        assert(missing[q as int] == x);
                    } else {
                        assert(self.d_values[x] == earlier[x]);
                        if exists|t: int| 0 <= t < q + 1 && #[trigger] missing[t] == x {
                            let t = choose|t: int| 0 <= t < q + 1 && #[trigger] missing[t] == x;
                            assert(0 <= t < q && missing[t] == x);
                        }
                    }
                }
            }
            q += 1;
        }
        proof {
            assert forall|i: int| 0 <= i < start.d_values.len() implies #[trigger] self.d_values[i]
                == if start.missing(i) {
                Some(start.d_at(ops, kline_collection, i))
            } else {
                start.d_values[i]
            } by {
                start.lemma_missing(i);
                if start.missing(i) {
                    assert(missing@.contains(i as i32));
                    let t = choose|t: int| 0 <= t < missing@.len() && missing@[t] == i as i32;
                    assert(missing[t] == i);
                } else {
                    if exists|t: int| 0 <= t < missing.len() && #[trigger] missing[t] == i {
                        let t = choose|t: int| 0 <= t < missing.len() && #[trigger] missing[t] == i;
                        assert(start.missing(missing[t] as int));
                    }
                }
            }
            assert forall|i: int| 0 <= i < self.k_values@.len() implies !missing_at(self.series(), i) by {
                assert(self.series()[0] == &self.k_values);
                assert(self.series()[1] == &self.d_values);
                assert(self.k_values[i] is Some);
                assert(self.d_values[i] is Some) by {
                    if !start.missing(i) {
                        assert(start.d_values[i] is Some);
                    }
                }
                if missing_at(self.series(), i) {
                    let k = choose|k: int|
                        0 <= k < self.series().len() && (#[trigger] self.series()[k])@[i] is None;
                    assert(k == 0 || k == 1);
                }
            }
            lemma_gaps(self.series(), self.k_values@.len() as int);
        }
    }
}

} // verus!
