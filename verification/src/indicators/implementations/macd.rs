//! Moving average convergence divergence: the difference of a short and a
//! long moving average, its signal line and their histogram.
use vstd::prelude::*;
use vstd::string::*;
use crate::criteria::Criterion;
use crate::indicators::series::{
    aligned, all_in_reach, answered, apply_formula, filled, formula_of, gaps, lemma_ascending,
    lemma_filled_some, lemma_gaps, missing_at, missing_indices_of, put,
};
use crate::indicators::types::{
    MovingAverageConvergenceDivergence, IndicatorInformation, IndicatorParameter, InformationCard, ParameterCard,
};
use crate::klines::{Kline, KlineCollection};
use crate::metaheuristic::objects::Variable;
use crate::text::{decimal, render_i64};

verus! {

impl<P: Copy> MovingAverageConvergenceDivergence<P> {
    /// The series of the indicator.
    pub open spec fn series(&self) -> Seq<&Vec<Option<P>>> {
        seq![&self.macd_values, &self.signal_values, &self.histogram_values]
    }

    /// Whether the series are of one length, which 32 bits can count.
    pub open spec fn wf(&self) -> bool {
        aligned(self.series(), self.macd_values@.len() as int)
    }

    /// What the catalogue says of the indicator.
    pub open spec fn card() -> InformationCard {
        InformationCard {
            struct_name: "MovingAverageConvergenceDivergence"@,
            name: "MACD"@,
            description: "Moving Average Convergence Divergence"@,
            parameters: seq![
                ParameterCard {
                    name: "short_period"@,
                    description: "Short period for MACD"@,
                    kind: "integer"@,
                    default: "12"@,
                    min: None,
                    max: None,
                },
                ParameterCard {
                    name: "long_period"@,
                    description: "Long period for MACD"@,
                    kind: "integer"@,
                    default: "26"@,
                    min: None,
                    max: None,
                },
                ParameterCard {
                    name: "signal_period"@,
                    description: "Signal period for MACD"@,
                    kind: "integer"@,
                    default: "9"@,
                    min: None,
                    max: None,
                },
            ],
        }
    }

    /// The names of the columns that hold the series.
    pub open spec fn names(&self) -> Seq<Seq<char>> {
        let stem = "i_macd"@ + "_"@ + decimal(self.short_period as int) + "_"@ + decimal(self.long_period as int) + "_"@ + decimal(self.signal_period as int);
        seq![stem + "_macd"@, stem + "_signal"@, stem + "_histogram"@]
    }

    /// The indicator without values.
    pub fn new(short_period: i32, long_period: i32, signal_period: i32) -> (indicator: Self)
        ensures
            indicator.short_period == short_period,
            indicator.long_period == long_period,
            indicator.signal_period == signal_period,
            indicator.macd_values@ == Seq::<Option<P>>::empty(),
            indicator.signal_values@ == Seq::<Option<P>>::empty(),
            indicator.histogram_values@ == Seq::<Option<P>>::empty(),
            indicator.criteria@ == Seq::<Criterion>::empty(),
            indicator.criteria_count == 0,
    {
        MovingAverageConvergenceDivergence {
            short_period,
            long_period,
            signal_period,
            macd_values: Vec::new(),
            signal_values: Vec::new(),
            histogram_values: Vec::new(),
            criteria: Vec::new(),
            criteria_count: 0,
        }
    }

    /// What the catalogue says of the indicator.
    pub fn information() -> (info: IndicatorInformation)
        ensures
            info@ == Self::card(),
    {
        let mut parameters: Vec<IndicatorParameter> = Vec::new();
        parameters.push(
            IndicatorParameter {
                name: String::from_str("short_period"),
                description: String::from_str("Short period for MACD"),
                kind: String::from_str("integer"),
                default: String::from_str("12"),
                min: None,
                max: None,
            },
        );
        parameters.push(
            IndicatorParameter {
                name: String::from_str("long_period"),
                description: String::from_str("Long period for MACD"),
                kind: String::from_str("integer"),
                default: String::from_str("26"),
                min: None,
                max: None,
            },
        );
        parameters.push(
            IndicatorParameter {
                name: String::from_str("signal_period"),
                description: String::from_str("Signal period for MACD"),
                kind: String::from_str("integer"),
                default: String::from_str("9"),
                min: None,
                max: None,
            },
        );
        let info = IndicatorInformation {
            struct_name: String::from_str("MovingAverageConvergenceDivergence"),
            name: String::from_str("MACD"),
            description: String::from_str("Moving Average Convergence Divergence"),
            parameters,
        };
        assert(info@.parameters =~= Self::card().parameters);
        info
    }

    /// The names of the columns that hold the series.
    pub fn column_names(&self) -> (names: Vec<String>)
        ensures
            names@.map_values(|name: String| name@) == self.names(),
    {
        let mut stem = String::from_str("i_macd");
        stem.append("_");
        let first = render_i64(self.short_period as i64);
        stem.append(first.as_str());
        stem.append("_");
        let second = render_i64(self.long_period as i64);
        stem.append(second.as_str());
        stem.append("_");
        let third = render_i64(self.signal_period as i64);
        stem.append(third.as_str());
        let mut names: Vec<String> = Vec::new();
        let mut name_macd = stem.clone();
        name_macd.append("_macd");
        names.push(name_macd);
        let mut name_signal = stem.clone();
        name_signal.append("_signal");
        names.push(name_signal);
        let mut name_histogram = stem;
        name_histogram.append("_histogram");
        names.push(name_histogram);
        assert(names@.map_values(|name: String| name@) =~= self.names());
        names
    }

    /// The number of candlesticks that a value looks back on.
    pub fn n_before_needed(&self) -> (n: i32)
        ensures
            n == self.long_period,
    {
        self.long_period
    }

    /// Makes room for `n` more values.
    pub fn reserve_space(&mut self, n: i32)
        requires
            n >= 0,
        ensures
            final(self).macd_values@ == old(self).macd_values@,
            final(self).signal_values@ == old(self).signal_values@,
            final(self).histogram_values@ == old(self).histogram_values@,
            final(self).short_period == old(self).short_period,
            final(self).long_period == old(self).long_period,
            final(self).signal_period == old(self).signal_period,
            final(self).criteria == old(self).criteria,
            final(self).criteria_count == old(self).criteria_count,
    {
        self.macd_values.reserve(n as usize);
        self.signal_values.reserve(n as usize);
        self.histogram_values.reserve(n as usize);
    }

    /// Takes up the values of one stored row.
    pub fn store_row(&mut self, row: &Vec<Option<P>>)
        requires
            row.len() >= 3,
        ensures
            final(self).macd_values@ == old(self).macd_values@.push(row[0]),
            final(self).signal_values@ == old(self).signal_values@.push(row[1]),
            final(self).histogram_values@ == old(self).histogram_values@.push(row[2]),
            final(self).short_period == old(self).short_period,
            final(self).long_period == old(self).long_period,
            final(self).signal_period == old(self).signal_period,
            final(self).criteria == old(self).criteria,
            final(self).criteria_count == old(self).criteria_count,
    {
        self.macd_values.push(row[0]);
        self.signal_values.push(row[1]);
        self.histogram_values.push(row[2]);
    }

    /// The series of the indicator.
    pub fn get_values(&self) -> (values: Vec<&Vec<Option<P>>>)
        ensures
            values@ == self.series(),
    {
        let mut values: Vec<&Vec<Option<P>>> = Vec::new();
        values.push(&self.macd_values);
        values.push(&self.signal_values);
        values.push(&self.histogram_values);
        assert(values@ =~= self.series());
        values
    }

    /// The positions without a value in one of the series, in ascending
    /// order.
    pub fn get_missing_indices(&self) -> (missing: Vec<i32>)
        requires
            self.wf(),
        ensures
            missing@ == gaps(self.series(), self.macd_values@.len() as int),
    {
        let values = self.get_values();
        missing_indices_of(&values)
    }

    /// Computes the values that are missing: those of a position are what
    /// the formula makes of the candlesticks that the position looks back
    /// on, one number for each series.
    pub fn calculate<F: Fn(&Vec<Kline<P>>) -> Vec<P>>(
        &mut self,
        kline_collection: &KlineCollection<P>,
        formula: &F,
    )
        requires
            kline_collection.countable(),
            old(self).wf(),
            formula_of(*formula, 3),
            all_in_reach(
                kline_collection,
                old(self).long_period as int,
                gaps(old(self).series(), old(self).macd_values@.len() as int),
            ),
        ensures
            final(self).short_period == old(self).short_period,
            final(self).long_period == old(self).long_period,
            final(self).signal_period == old(self).signal_period,
            final(self).criteria == old(self).criteria,
            final(self).criteria_count == old(self).criteria_count,
            exists|results: Seq<Vec<P>>|
                {
                    &&& answered(
                        *formula,
                        kline_collection,
                        old(self).long_period as int,
                        gaps(old(self).series(), old(self).macd_values@.len() as int),
                        results,
                        3,
                    )
                    &&& final(self).macd_values@ == filled(
                        old(self).macd_values@,
                        gaps(old(self).series(), old(self).macd_values@.len() as int),
                        results,
                        0,
                    )
                    &&& final(self).signal_values@ == filled(
                        old(self).signal_values@,
                        gaps(old(self).series(), old(self).macd_values@.len() as int),
                        results,
                        1,
                    )
                    &&& final(self).histogram_values@ == filled(
                        old(self).histogram_values@,
                        gaps(old(self).series(), old(self).macd_values@.len() as int),
                        results,
                        2,
                    )
                },
            gaps(final(self).series(), final(self).macd_values@.len() as int).len() == 0,
    {
        let ghost start = *self;
        let ghost n = start.macd_values@.len() as int;
        let missing = self.get_missing_indices();
        proof {
            lemma_ascending(start.series(), n);
            assert(start.series()[0] == &start.macd_values);
            assert(start.series()[1] == &start.signal_values);
            assert(start.series()[2] == &start.histogram_values);
        }
        let results = apply_formula(
            kline_collection,
            self.long_period,
            &missing,
            formula,
            Ghost(3),
        );
        put(&mut self.macd_values, &missing, &results, 0);
        put(&mut self.signal_values, &missing, &results, 1);
        put(&mut self.histogram_values, &missing, &results, 2);
        proof {
            assert forall|i: int| 0 <= i < n implies !missing_at(self.series(), i) by {
                lemma_filled_some(start.series(), 0, n, results@, 0, i);
                assert(self.series()[0] == &self.macd_values);
                lemma_filled_some(start.series(), 1, n, results@, 1, i);
                assert(self.series()[1] == &self.signal_values);
                lemma_filled_some(start.series(), 2, n, results@, 2, i);
                assert(self.series()[2] == &self.histogram_values);
                if missing_at(self.series(), i) {
                    let k = choose|k: int|
                        0 <= k < self.series().len() && (#[trigger] self.series()[k])@[i] is None;
                    assert(k == 0 || k == 1 || k == 2);
                }
            }
            lemma_gaps(self.series(), n);
        }
    }

    /// No signal is derived from this indicator.
    pub fn calculate_criteria(&mut self, kline_collection: &KlineCollection<P>)
        ensures
            *final(self) == *old(self),
    {
    }

    /// The signals of the indicator.
    pub fn get_criteria(&self) -> (criteria: &Vec<Criterion>)
        ensures
            criteria == &self.criteria,
    {
        &self.criteria
    }

    /// The number of signals that the indicator has.
    pub fn get_criteria_count(&self) -> (count: i32)
        ensures
            count == self.criteria_count,
    {
        self.criteria_count
    }

    /// A fresh indicator with the periods that the first three variables
    /// hold.
    pub fn clone_with_new_parameters(&self, parameters: &Vec<Variable<P>>) -> (indicator: Self)
        requires
            parameters.len() >= 3,
            parameters[0] matches Variable::Integer(value) && i32::MIN <= value <= i32::MAX,
            parameters[1] matches Variable::Integer(value) && i32::MIN <= value <= i32::MAX,
            parameters[2] matches Variable::Integer(value) && i32::MIN <= value <= i32::MAX,
        ensures
            parameters[0] matches Variable::Integer(value) && indicator.short_period == value,
            parameters[1] matches Variable::Integer(value) && indicator.long_period == value,
            parameters[2] matches Variable::Integer(value) && indicator.signal_period == value,
            indicator.macd_values@ == Seq::<Option<P>>::empty(),
            indicator.signal_values@ == Seq::<Option<P>>::empty(),
            indicator.histogram_values@ == Seq::<Option<P>>::empty(),
            indicator.criteria@ == Seq::<Criterion>::empty(),
            indicator.criteria_count == 0,
    {
        match (parameters[0], parameters[1], parameters[2]) {
            (Variable::Integer(first), Variable::Integer(second), Variable::Integer(third)) => Self::new(
                first as i32,
                second as i32,
                third as i32,
            ),
            _ => Self::new(0, 0, 0),
        }
    }
}

} // verus!
