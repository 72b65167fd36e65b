//! The moving average: the mean of the closing prices over a period.
use vstd::prelude::*;
use vstd::string::*;
use crate::arithmetic::Arithmetic;
use crate::criteria::{
    above, crossings, signal, CompareCriterion, Criterion, CriterionTrait, CrossCriterion,
};
use crate::indicators::series::{
    aligned, gaps, in_reach, lemma_gaps, mean, missing_at, missing_indices_of, sum_of, window,
    window_of,
};
use crate::indicators::types::{
    IndicatorInformation, IndicatorParameter, InformationCard, MovingAverage, ParameterCard,
};
use crate::klines::{Kline, KlineCollection};
use crate::metaheuristic::objects::Variable;
use crate::text::{decimal, render_i64};

verus! {

/// The values that a series holds, without its gaps.
pub open spec fn present<P>(values: Seq<Option<P>>) -> Seq<P>
    decreases values.len(),
{
    if values.len() == 0 {
        Seq::empty()
    } else {
        match values.last() {
            Some(value) => present(values.drop_last()).push(value),
            None => present(values.drop_last()),
        }
    }
}

/// The values that a series holds, without its gaps.
pub fn present_values<P: Copy>(values: &Vec<Option<P>>) -> (held: Vec<P>)
    ensures
        held@ == present(values@),
{
    let mut held: Vec<P> = Vec::new();
    let mut i: usize = 0;
    while i < values.len()
        invariant
            i <= values.len(),
            held@ == present(values@.subrange(0, i as int)),
        decreases values.len() - i,
    {
        proof {
            assert(values@.subrange(0, i + 1).drop_last() =~= values@.subrange(0, i as int));
        }
        match values[i] {
            Some(value) => {
                held.push(value);
            },
            None => {},
        }
        i += 1;
    }
    assert(values@.subrange(0, i as int) =~= values@);
    held
}

impl<P: Copy> MovingAverage<P> {
    /// The series of the indicator.
    pub open spec fn series(&self) -> Seq<&Vec<Option<P>>> {
        seq![&self.values]
    }

    /// Whether positions in the series can be counted in 32 bits.
    pub open spec fn wf(&self) -> bool {
        aligned(self.series(), self.values@.len() as int)
    }

    /// What the catalogue says of the indicator.
    pub open spec fn card() -> InformationCard {
        InformationCard {
            struct_name: "MovingAverage"@,
            name: "Moving Average"@,
            description: "Calculates the moving average of the close prices"@,
            parameters: seq![
                ParameterCard {
                    name: "period"@,
                    description: "The period of the moving average"@,
                    kind: "integer"@,
                    default: "20"@,
                    min: Some("2"@),
                    max: None,
                },
            ],
        }
    }

    /// The names of the columns that hold the series.
    pub open spec fn names(&self) -> Seq<Seq<char>> {
        seq!["i_ma_"@ + decimal(self.period as int)]
    }

    /// The value at position `i`: the mean of the closing prices of the
    /// candlestick of the position and of the `period - 1` before it, added
    /// up from the latest one.
    pub open spec fn value_at<A, S, D, L, C>(
        &self,
        ops: &Arithmetic<P, A, S, D, L, C>,
        klines: &KlineCollection<P>,
        i: int,
    ) -> P where
        A: Fn(&P, &P) -> P,
        S: Fn(&P, &P) -> P,
        D: Fn(&P, &P) -> P,
        L: Fn(&P, &P) -> bool,
        C: Fn(i64) -> P,
     {
        mean(
            ops,
            window(klines, klines.length() - 1 - i, self.period as int).map_values(
                |k: Kline<P>| k.close,
            ),
            self.period as i64,
        )
    }

    /// Whether `after` holds the signals that are derived from this
    /// indicator: those that are there already, where they are as many as
    /// the indicator has; otherwise whether the closing price is above the
    /// average, then where it crosses the average upwards, then where it
    /// crosses it downwards.
    pub open spec fn derives<A, S, D, L, C>(
        &self,
        after: &Self,
        ops: &Arithmetic<P, A, S, D, L, C>,
        klines: &KlineCollection<P>,
    ) -> bool where
        A: Fn(&P, &P) -> P,
        S: Fn(&P, &P) -> P,
        D: Fn(&P, &P) -> P,
        L: Fn(&P, &P) -> bool,
        C: Fn(i64) -> P,
     {
        if self.criteria.len() == self.criteria_count {
            after.criteria == self.criteria
        } else {
            let compared = above(ops, klines.closes(), present(self.values@));
            &&& after.criteria.len() == 3
            &&& after.criteria[0] is Compare
            &&& signal(after.criteria[0]) == compared
            &&& after.criteria[1] is Cross
            &&& signal(after.criteria[1]) == crossings(compared, true)
            &&& after.criteria[2] is Cross
            &&& signal(after.criteria[2]) == crossings(compared, false)
        }
    }

    /// The indicator without values.
    pub fn new(period: i32) -> (indicator: Self)
        ensures
            indicator.period == period,
            indicator.values@ == Seq::<Option<P>>::empty(),
            indicator.criteria@ == Seq::<Criterion>::empty(),
            indicator.criteria_count == 3,
    {
        MovingAverage { period, values: Vec::new(), criteria: Vec::new(), criteria_count: 3 }
    }

    /// What the catalogue says of the indicator.
    pub fn information() -> (info: IndicatorInformation)
        ensures
            info@ == Self::card(),
    {
        let mut parameters: Vec<IndicatorParameter> = Vec::new();
        parameters.push(
            IndicatorParameter {
                name: String::from_str("period"),
                description: String::from_str("The period of the moving average"),
                kind: String::from_str("integer"),
                default: String::from_str("20"),
                min: Some(String::from_str("2")),
                max: None,
            },
        );
        let info = IndicatorInformation {
            struct_name: String::from_str("MovingAverage"),
            name: String::from_str("Moving Average"),
            description: String::from_str("Calculates the moving average of the close prices"),
            parameters,
        };
        assert(info@.parameters =~= Self::card().parameters);
        info
    }

    /// The names of the columns that hold the series.
    pub fn column_names(&self) -> (names: Vec<String>)
        ensures
            names@.map_values(|name: String| name@) == self.names(),
    {
        let mut name = String::from_str("i_ma_");
        let period = render_i64(self.period as i64);
        name.append(period.as_str());
        let mut names: Vec<String> = Vec::new();
        names.push(name);
        assert(names@.map_values(|name: String| name@) =~= self.names());
        names
    }

    /// The number of candlesticks that a value looks back on.
    pub fn n_before_needed(&self) -> (n: i32)
        ensures
            n == self.period,
    {
        self.period
    }

    /// Makes room for `n` more values.
    pub fn reserve_space(&mut self, n: i32)
        requires
            n >= 0,
        ensures
            final(self).values@ == old(self).values@,
            final(self).period == old(self).period,
            final(self).criteria == old(self).criteria,
            final(self).criteria_count == old(self).criteria_count,
    {
        self.values.reserve(n as usize);
    }

    /// Takes up the values of one stored row.
    pub fn store_row(&mut self, row: &Vec<Option<P>>)
        requires
            row.len() >= 1,
        ensures
            final(self).values@ == old(self).values@.push(row[0]),
            final(self).period == old(self).period,
            final(self).criteria == old(self).criteria,
            final(self).criteria_count == old(self).criteria_count,
    {
        self.values.push(row[0]);
    }

    /// The series of the indicator.
    pub fn get_values(&self) -> (values: Vec<&Vec<Option<P>>>)
        ensures
            values@ == self.series(),
    {
        let mut values: Vec<&Vec<Option<P>>> = Vec::new();
        values.push(&self.values);
        assert(values@ =~= self.series());
        values
    }

    /// The positions without a value, in ascending order.
    pub fn get_missing_indices(&self) -> (missing: Vec<i32>)
        requires
            self.wf(),
        ensures
            missing@ == gaps(self.series(), self.values@.len() as int),
    {
        let values = self.get_values();
        missing_indices_of(&values)
    }

    /// Computes the values that are missing.
    pub fn calculate<A, S, D, L, C>(
        &mut self,
        ops: &Arithmetic<P, A, S, D, L, C>,
        kline_collection: &KlineCollection<P>,
    ) where
        A: Fn(&P, &P) -> P,
        S: Fn(&P, &P) -> P,
        D: Fn(&P, &P) -> P,
        L: Fn(&P, &P) -> bool,
        C: Fn(i64) -> P,

        requires
            ops.wf(),
            kline_collection.countable(),
            old(self).wf(),
            forall|i: int|
                0 <= i < old(self).values.len() && old(self).values[i] is None ==> in_reach(
                    kline_collection,
                    kline_collection.length() - 1 - i,
                    old(self).period as int,
                ),
        ensures
            final(self).period == old(self).period,
            final(self).criteria == old(self).criteria,
            final(self).criteria_count == old(self).criteria_count,
            final(self).values.len() == old(self).values.len(),
            forall|i: int|
                0 <= i < old(self).values.len() ==> #[trigger] final(self).values[i] == if old(self).values[i] is None {
                    Some(old(self).value_at(ops, kline_collection, i))
                } else {
                    old(self).values[i]
                },
            gaps(final(self).series(), final(self).values@.len() as int).len() == 0,
    {
        let ghost start = *self;
        let missing = self.get_missing_indices();
        let length = kline_collection.get_length();
        let period = self.period;
        let count = ops.count(period as i64);
        proof {
            lemma_gaps(start.series(), start.values@.len() as int);
            assert forall|t: int| 0 <= t < missing.len() implies 0 <= #[trigger] missing[t]
                < start.values.len() && start.values[missing[t] as int] is None by {
                let position = missing[t] as int;
                assert(missing_at(start.series(), position));
                let k = choose|k: int|
                    0 <= k < start.series().len() && (#[trigger] start.series()[k])@[position] is None;
                assert(start.series()[k] == &start.values);
            }
        }
        let mut q: usize = 0;
        while q < missing.len()
            invariant
                ops.wf(),
                kline_collection.countable(),
                length == kline_collection.length(),
                period == start.period,
                count == ops.number(period as i64),
                self.period == start.period,
                self.criteria == start.criteria,
                self.criteria_count == start.criteria_count,
                self.values.len() == start.values.len(),
                start.values.len() <= i32::MAX,
                q <= missing.len(),
                missing@ == gaps(start.series(), start.values@.len() as int),
                forall|t: int|
                    0 <= t < missing.len() ==> 0 <= #[trigger] missing[t] < start.values.len()
                        && start.values[missing[t] as int] is None,
                forall|t1: int, t2: int| 0 <= t1 < t2 < missing.len() ==> missing[t1] < missing[t2],
                forall|i: int|
                    0 <= i < start.values.len() && start.values[i] is None ==> in_reach(
                        kline_collection,
                        kline_collection.length() - 1 - i,
                        start.period as int,
                    ),
                forall|i: int|
                    0 <= i < start.values.len() ==> #[trigger] self.values[i] == if start.values[i] is None
                        && exists|t: int| 0 <= t < q && #[trigger] missing[t] == i {
                        Some(start.value_at(ops, kline_collection, i))
                    } else {
                        start.values[i]
                    },
            decreases missing.len() - q,
        {
            let i = missing[q];
            let seen = window_of(kline_collection, length - 1 - i, period);
            let mut closes: Vec<P> = Vec::with_capacity(seen.len());
            let mut j: usize = 0;
            while j < seen.len()
                invariant
                    j <= seen.len(),
                    closes.len() == j,
                    forall|t: int| 0 <= t < j ==> closes[t] == seen[t].close,
                decreases seen.len() - j,
            {
                closes.push(seen[j].close);
                j += 1;
            }
            assert(closes@ =~= seen@.map_values(|k: Kline<P>| k.close));
            let sum = sum_of(ops, &closes);
            let value = ops.over(&sum, &count);
            let ghost earlier = self.values@;
            self.values.set(i as usize, Some(value));
            proof {
                assert(value == start.value_at(ops, kline_collection, i as int));
                assert forall|x: int| 0 <= x < start.values.len() implies #[trigger] self.values[x]
                    == if start.values[x] is None && exists|t: int|
                    0 <= t < q + 1 && #[trigger] missing[t] == x {
                    Some(start.value_at(ops, kline_collection, x))
                } else {
                    start.values[x]
                } by {
                    if x == i {
                        assert(missing[q as int] == x);
                    } else {
                        assert(self.values[x] == earlier[x]);
                        if exists|t: int| 0 <= t < q + 1 && #[trigger] missing[t] == x {
                            let t = choose|t: int| 0 <= t < q + 1 && #[trigger] missing[t] == x;
                            assert(0 <= t < q && missing[t] == x);
                        }
                    }
                }
            }
            q += 1;
        }
        proof {
            assert forall|i: int| 0 <= i < start.values.len() implies #[trigger] self.values[i]
                == if start.values[i] is None {
                Some(start.value_at(ops, kline_collection, i))
            } else {
                start.values[i]
            } by {
                if start.values[i] is None {
                    assert(start.series()[0]@[i] is None);
                    assert(missing_at(start.series(), i));
                    assert(missing@.contains(i as i32));
                    let t = choose|t: int| 0 <= t < missing@.len() && missing@[t] == i as i32;
                    assert(missing[t] == i);
                }
            }
            assert forall|i: int| 0 <= i < self.values@.len() implies !missing_at(self.series(), i) by {
                if missing_at(self.series(), i) {
                    let k = choose|k: int|
                        0 <= k < self.series().len() && (#[trigger] self.series()[k])@[i] is None;
                    assert(self.series()[k] == &self.values);
                    assert(self.values[i] is Some);
                }
            }
            lemma_gaps(self.series(), self.values@.len() as int);
        }
    }

    /// Derives the signals: whether the closing price is above the average,
    /// and where it crosses the average upwards and downwards. Signals that
    /// are already there, as many as the indicator has, are kept.
    pub fn calculate_criteria<A, S, D, L, C>(
        &mut self,
        ops: &Arithmetic<P, A, S, D, L, C>,
        kline_collection: &KlineCollection<P>,
    ) where
        A: Fn(&P, &P) -> P,
        S: Fn(&P, &P) -> P,
        D: Fn(&P, &P) -> P,
        L: Fn(&P, &P) -> bool,
        C: Fn(i64) -> P,

        requires
            ops.wf(),
        ensures
            final(self).period == old(self).period,
            final(self).values == old(self).values,
            final(self).criteria_count == old(self).criteria_count,
            old(self).derives(&*final(self), ops, kline_collection),
    {
        if self.criteria_count < 0 || self.criteria.len() != self.criteria_count as usize {
            self.criteria.clear();
            let closes = kline_collection.get_close_prices_iter();
            let held = present_values(&self.values);
            let compare = Criterion::Compare(CompareCriterion::new(&closes, &held, ops));
            let up = CrossCriterion::new_from(&compare, true);
            let down = CrossCriterion::new_from(&compare, false);
            self.criteria.push(compare);
            self.criteria.push(Criterion::Cross(up));
            self.criteria.push(Criterion::Cross(down));
        }
    }

    /// The signals of the indicator.
    pub fn get_criteria(&self) -> (criteria: &Vec<Criterion>)
        ensures
            criteria == &self.criteria,
    {
        &self.criteria
    }

    /// The number of signals that the indicator has.
    pub fn get_criteria_count(&self) -> (count: i32)
        ensures
            count == self.criteria_count,
    {
        self.criteria_count
    }

    /// A fresh indicator with the period that the first variable holds.
    pub fn clone_with_new_parameters(&self, parameters: &Vec<Variable<P>>) -> (indicator: Self)
        requires
            parameters.len() >= 1,
            parameters[0] matches Variable::Integer(value) && i32::MIN <= value <= i32::MAX,
        ensures
            parameters[0] matches Variable::Integer(value) && indicator.period == value,
            indicator.values@ == Seq::<Option<P>>::empty(),
            indicator.criteria@ == Seq::<Criterion>::empty(),
            indicator.criteria_count == 3,
    {
        match parameters[0] {
            Variable::Integer(value) => Self::new(value as i32),
            _ => Self::new(0),
        }
    }
}

} // verus!
