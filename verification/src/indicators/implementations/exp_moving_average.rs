//! The exponential moving average: a mean of the closing prices that weighs
//! the latest ones most.
use vstd::prelude::*;
use vstd::string::*;
use crate::criteria::Criterion;
use crate::indicators::series::{
    aligned, all_in_reach, answered, apply_formula, filled, formula_of, gaps, lemma_ascending,
    lemma_filled_some, lemma_gaps, missing_at, missing_indices_of, put,
};
use crate::indicators::types::{
    ExponentialMovingAverage, IndicatorInformation, IndicatorParameter, InformationCard, ParameterCard,
};
use crate::klines::{Kline, KlineCollection};
use crate::metaheuristic::objects::Variable;
use crate::text::{decimal, render_i64};

verus! {

impl<P: Copy> ExponentialMovingAverage<P> {
    /// The series of the indicator.
    pub open spec fn series(&self) -> Seq<&Vec<Option<P>>> {
        seq![&self.values]
    }

    /// Whether positions in the series can be counted in 32 bits.
    pub open spec fn wf(&self) -> bool {
        aligned(self.series(), self.values@.len() as int)
    }

    /// What the catalogue says of the indicator.
    pub open spec fn card() -> InformationCard {
        InformationCard {
            struct_name: "ExponentialMovingAverage"@,
            name: "Exponential Moving Average"@,
            description: "Exponential Moving Average"@,
            parameters: seq![
                ParameterCard {
                    name: "Period"@,
                    description: "The number of periods to use in the calculation."@,
                    kind: "integer"@,
                    default: "20"@,
                    min: Some("1"@),
                    max: None,
                },
            ],
        }
    }

    /// The names of the columns that hold the series.
    pub open spec fn names(&self) -> Seq<Seq<char>> {
        seq!["i_ema"@ + "_"@ + decimal(self.period as int)]
    }

    /// The indicator without values.
    pub fn new(period: i32) -> (indicator: Self)
        ensures
            indicator.period == period,
            indicator.values@ == Seq::<Option<P>>::empty(),
            indicator.criteria@ == Seq::<Criterion>::empty(),
            indicator.criteria_count == 2,
    {
        ExponentialMovingAverage {
            period,
            values: Vec::new(),
            criteria: Vec::new(),
            criteria_count: 2,
        }
    }

    /// What the catalogue says of the indicator.
    pub fn information() -> (info: IndicatorInformation)
        ensures
            info@ == Self::card(),
    {
        let mut parameters: Vec<IndicatorParameter> = Vec::new();
        parameters.push(
            IndicatorParameter {
                name: String::from_str("Period"),
                description: String::from_str("The number of periods to use in the calculation."),
                kind: String::from_str("integer"),
                default: String::from_str("20"),
                min: Some(String::from_str("1")),
                max: None,
            },
        );
        let info = IndicatorInformation {
            struct_name: String::from_str("ExponentialMovingAverage"),
            name: String::from_str("Exponential Moving Average"),
            description: String::from_str("Exponential Moving Average"),
            parameters,
        };
        assert(info@.parameters =~= Self::card().parameters);
        info
    }

    /// The names of the columns that hold the series.
    pub fn column_names(&self) -> (names: Vec<String>)
        ensures
            names@.map_values(|name: String| name@) == self.names(),
    {
        let mut stem = String::from_str("i_ema");
        stem.append("_");
        let first = render_i64(self.period as i64);
        stem.append(first.as_str());
        let mut names: Vec<String> = Vec::new();
        names.push(stem);
        assert(names@.map_values(|name: String| name@) =~= self.names());
        names
    }

    /// The number of candlesticks that a value looks back on.
    pub fn n_before_needed(&self) -> (n: i32)
        ensures
            n == self.period,
    {
        self.period
    }

    /// Makes room for `n` more values.
    pub fn reserve_space(&mut self, n: i32)
        requires
            n >= 0,
        ensures
            final(self).values@ == old(self).values@,
            final(self).period == old(self).period,
            final(self).criteria == old(self).criteria,
            final(self).criteria_count == old(self).criteria_count,
    {
        self.values.reserve(n as usize);
    }

    /// Takes up the values of one stored row.
    pub fn store_row(&mut self, row: &Vec<Option<P>>)
        requires
            row.len() >= 1,
        ensures
            final(self).values@ == old(self).values@.push(row[0]),
            final(self).period == old(self).period,
            final(self).criteria == old(self).criteria,
            final(self).criteria_count == old(self).criteria_count,
    {
        self.values.push(row[0]);
    }

    /// The series of the indicator.
    pub fn get_values(&self) -> (values: Vec<&Vec<Option<P>>>)
        ensures
            values@ == self.series(),
    {
        let mut values: Vec<&Vec<Option<P>>> = Vec::new();
        values.push(&self.values);
        assert(values@ =~= self.series());
        values
    }

    /// The positions without a value, in ascending order.
    pub fn get_missing_indices(&self) -> (missing: Vec<i32>)
        requires
            self.wf(),
        ensures
            missing@ == gaps(self.series(), self.values@.len() as int),
    {
        let values = self.get_values();
        missing_indices_of(&values)
    }

    /// Computes the values that are missing: each is what the formula makes
    /// of the candlesticks that its position looks back on.
    pub fn calculate<F: Fn(&Vec<Kline<P>>) -> Vec<P>>(
        &mut self,
        kline_collection: &KlineCollection<P>,
        formula: &F,
    )
        requires
            kline_collection.countable(),
            old(self).wf(),
            formula_of(*formula, 1),
            all_in_reach(
                kline_collection,
                old(self).period as int,
                gaps(old(self).series(), old(self).values@.len() as int),
            ),
        ensures
            final(self).period == old(self).period,
            final(self).criteria == old(self).criteria,
            final(self).criteria_count == old(self).criteria_count,
            exists|results: Seq<Vec<P>>|
                {
                    &&& answered(
                        *formula,
                        kline_collection,
                        old(self).period as int,
                        gaps(old(self).series(), old(self).values@.len() as int),
                        results,
                        1,
                    )
                    &&& final(self).values@ == filled(
                        old(self).values@,
                        gaps(old(self).series(), old(self).values@.len() as int),
                        results,
                        0,
                    )
                },
            gaps(final(self).series(), final(self).values@.len() as int).len() == 0,
    {
        let ghost start = *self;
        let ghost n = start.values@.len() as int;
        let missing = self.get_missing_indices();
        proof {
            lemma_ascending(start.series(), n);
            assert(start.series()[0] == &start.values);
        }
        let results = apply_formula(
            kline_collection,
            self.period,
            &missing,
            formula,
            Ghost(1),
        );
        put(&mut self.values, &missing, &results, 0);
        proof {
            assert forall|i: int| 0 <= i < n implies !missing_at(self.series(), i) by {
                lemma_filled_some(start.series(), 0, n, results@, 0, i);
                assert(self.series()[0] == &self.values);
                if missing_at(self.series(), i) {
                    let k = choose|k: int|
                        0 <= k < self.series().len() && (#[trigger] self.series()[k])@[i] is None;
                    assert(k == 0);
                }
            }
            lemma_gaps(self.series(), n);
        }
    }

    /// No signal is derived from this indicator.
    pub fn calculate_criteria(&mut self, kline_collection: &KlineCollection<P>)
        ensures
            *final(self) == *old(self),
    {
    }

    /// The signals of the indicator.
    pub fn get_criteria(&self) -> (criteria: &Vec<Criterion>)
        ensures
            criteria == &self.criteria,
    {
        &self.criteria
    }

    /// The number of signals that the indicator has.
    pub fn get_criteria_count(&self) -> (count: i32)
        ensures
            count == self.criteria_count,
    {
        self.criteria_count
    }

    /// A fresh indicator with the period that the first variable holds.
    pub fn clone_with_new_parameters(&self, parameters: &Vec<Variable<P>>) -> (indicator: Self)
        requires
            parameters.len() >= 1,
            parameters[0] matches Variable::Integer(value) && i32::MIN <= value <= i32::MAX,
        ensures
            parameters[0] matches Variable::Integer(value) && indicator.period == value,
            indicator.values@ == Seq::<Option<P>>::empty(),
            indicator.criteria@ == Seq::<Criterion>::empty(),
            indicator.criteria_count == 2,
    {
        match parameters[0] {
            Variable::Integer(first) => Self::new(first as i32),
            _ => Self::new(0),
        }
    }
}

} // verus!
