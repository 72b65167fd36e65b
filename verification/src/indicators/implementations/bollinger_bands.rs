//! Bollinger bands: a moving average with a band of some standard deviations
//! above and below it.
use vstd::prelude::*;
use vstd::string::*;
use crate::criteria::Criterion;
use crate::indicators::series::{
    aligned, all_in_reach, answered, apply_formula, filled, formula_of, gaps, lemma_ascending,
    lemma_filled_some, lemma_gaps, missing_at, missing_indices_of, put,
};
use crate::indicators::types::{
    BollingerBands, IndicatorInformation, IndicatorParameter, InformationCard, ParameterCard,
};
use crate::klines::{Kline, KlineCollection};
use crate::metaheuristic::objects::Variable;
use crate::text::{decimal, render_i64};

verus! {

impl<P: Copy> BollingerBands<P> {
    /// The series of the indicator.
    pub open spec fn series(&self) -> Seq<&Vec<Option<P>>> {
        seq![&self.upper_band_values, &self.middle_band_values, &self.lower_band_values]
    }

    /// Whether the series are of one length, which 32 bits can count.
    pub open spec fn wf(&self) -> bool {
        aligned(self.series(), self.upper_band_values@.len() as int)
    }

    /// What the catalogue says of the indicator.
    pub open spec fn card() -> InformationCard {
        InformationCard {
            struct_name: "BollingerBands"@,
            name: "Bollinger Bands"@,
            description: "Bollinger Bands (BB) is a volatility indicator that consists of a middle band being an N-period simple moving average (SMA), an upper band at K times an N-period standard deviation above the middle band, and a lower band at K times an N-period standard deviation below the middle band."@,
            parameters: seq![
                ParameterCard {
                    name: "period"@,
                    description: "The number of periods to use in the calculation."@,
                    kind: "integer"@,
                    default: "20"@,
                    min: None,
                    max: None,
                },
                ParameterCard {
                    name: "deviation"@,
                    description: "The number of standard deviations to use in the calculation."@,
                    kind: "float"@,
                    default: "2.0"@,
                    min: None,
                    max: None,
                },
            ],
        }
    }

    /// The names of the columns that hold the series.
    pub open spec fn names(&self) -> Seq<Seq<char>> {
        let stem = "i_bb"@ + "_"@ + decimal(self.period as int) + "_"@ + self.deviation_text@;
        seq![stem + "_upper"@, stem + "_middle"@, stem + "_lower"@]
    }

    /// The indicator without values.
    pub fn new(period: i32, deviation: P, deviation_text: String) -> (indicator: Self)
        ensures
            indicator.period == period,
            indicator.deviation == deviation,
            indicator.deviation_text == deviation_text,
            indicator.upper_band_values@ == Seq::<Option<P>>::empty(),
            indicator.middle_band_values@ == Seq::<Option<P>>::empty(),
            indicator.lower_band_values@ == Seq::<Option<P>>::empty(),
            indicator.criteria@ == Seq::<Criterion>::empty(),
            indicator.criteria_count == 0,
    {
        BollingerBands {
            period,
            deviation,
            deviation_text,
            upper_band_values: Vec::new(),
            middle_band_values: Vec::new(),
            lower_band_values: Vec::new(),
            criteria: Vec::new(),
            criteria_count: 0,
        }
    }

    /// What the catalogue says of the indicator.
    pub fn information() -> (info: IndicatorInformation)
        ensures
            info@ == Self::card(),
    {
        let mut parameters: Vec<IndicatorParameter> = Vec::new();
        parameters.push(
            IndicatorParameter {
                name: String::from_str("period"),
                description: String::from_str("The number of periods to use in the calculation."),
                kind: String::from_str("integer"),
                default: String::from_str("20"),
                min: None,
                max: None,
            },
        );
        parameters.push(
            IndicatorParameter {
                name: String::from_str("deviation"),
                description: String::from_str("The number of standard deviations to use in the calculation."),
                kind: String::from_str("float"),
                default: String::from_str("2.0"),
                min: None,
                max: None,
            },
        );
        let info = IndicatorInformation {
            struct_name: String::from_str("BollingerBands"),
            name: String::from_str("Bollinger Bands"),
            description: String::from_str("Bollinger Bands (BB) is a volatility indicator that consists of a middle band being an N-period simple moving average (SMA), an upper band at K times an N-period standard deviation above the middle band, and a lower band at K times an N-period standard deviation below the middle band."),
            parameters,
        };
        assert(info@.parameters =~= Self::card().parameters);
        info
    }

    /// The names of the columns that hold the series.
    pub fn column_names(&self) -> (names: Vec<String>)
        ensures
            names@.map_values(|name: String| name@) == self.names(),
    {
        let mut stem = String::from_str("i_bb");
        stem.append("_");
        let first = render_i64(self.period as i64);
        stem.append(first.as_str());
        stem.append("_");
        stem.append(self.deviation_text.as_str());
        let mut names: Vec<String> = Vec::new();
        let mut name_upper = stem.clone();
        name_upper.append("_upper");
        names.push(name_upper);
        let mut name_middle = stem.clone();
        name_middle.append("_middle");
        names.push(name_middle);
        let mut name_lower = stem;
        name_lower.append("_lower");
        names.push(name_lower);
        assert(names@.map_values(|name: String| name@) =~= self.names());
        names
    }

    /// The number of candlesticks that a value looks back on.
    pub fn n_before_needed(&self) -> (n: i32)
        ensures
            n == self.period,
    {
        self.period
    }

    /// Makes room for `n` more values.
    pub fn reserve_space(&mut self, n: i32)
        requires
            n >= 0,
        ensures
            final(self).upper_band_values@ == old(self).upper_band_values@,
            final(self).middle_band_values@ == old(self).middle_band_values@,
            final(self).lower_band_values@ == old(self).lower_band_values@,
            final(self).period == old(self).period,
            final(self).deviation == old(self).deviation,
            final(self).deviation_text == old(self).deviation_text,
            final(self).criteria == old(self).criteria,
            final(self).criteria_count == old(self).criteria_count,
    {
        self.upper_band_values.reserve(n as usize);
        self.middle_band_values.reserve(n as usize);
        self.lower_band_values.reserve(n as usize);
    }

    /// Takes up the values of one stored row.
    pub fn store_row(&mut self, row: &Vec<Option<P>>)
        requires
            row.len() >= 3,
        ensures
            final(self).upper_band_values@ == old(self).upper_band_values@.push(row[0]),
            final(self).middle_band_values@ == old(self).middle_band_values@.push(row[1]),
            final(self).lower_band_values@ == old(self).lower_band_values@.push(row[2]),
            final(self).period == old(self).period,
            final(self).deviation == old(self).deviation,
            final(self).deviation_text == old(self).deviation_text,
            final(self).criteria == old(self).criteria,
            final(self).criteria_count == old(self).criteria_count,
    {
        self.upper_band_values.push(row[0]);
        self.middle_band_values.push(row[1]);
        self.lower_band_values.push(row[2]);
    }

    /// The series of the indicator.
    pub fn get_values(&self) -> (values: Vec<&Vec<Option<P>>>)
        ensures
            values@ == self.series(),
    {
        let mut values: Vec<&Vec<Option<P>>> = Vec::new();
        values.push(&self.upper_band_values);
        values.push(&self.middle_band_values);
        values.push(&self.lower_band_values);
        assert(values@ =~= self.series());
        values
    }

    /// The positions without a value in one of the series, in ascending
    /// order.
    pub fn get_missing_indices(&self) -> (missing: Vec<i32>)
        requires
            self.wf(),
        ensures
            missing@ == gaps(self.series(), self.upper_band_values@.len() as int),
    {
        let values = self.get_values();
        missing_indices_of(&values)
    }

    /// Computes the values that are missing: those of a position are what
    /// the formula makes of the candlesticks that the position looks back
    /// on, one number for each series.
    pub fn calculate<F: Fn(&Vec<Kline<P>>) -> Vec<P>>(
        &mut self,
        kline_collection: &KlineCollection<P>,
        formula: &F,
    )
        requires
            kline_collection.countable(),
            old(self).wf(),
            formula_of(*formula, 3),
            all_in_reach(
                kline_collection,
                old(self).period as int,
                gaps(old(self).series(), old(self).upper_band_values@.len() as int),
            ),
        ensures
            final(self).period == old(self).period,
            final(self).deviation == old(self).deviation,
            final(self).deviation_text == old(self).deviation_text,
            final(self).criteria == old(self).criteria,
            final(self).criteria_count == old(self).criteria_count,
            exists|results: Seq<Vec<P>>|
                {
                    &&& answered(
                        *formula,
                        kline_collection,
                        old(self).period as int,
                        gaps(old(self).series(), old(self).upper_band_values@.len() as int),
                        results,
                        3,
                    )
                    &&& final(self).upper_band_values@ == filled(
                        old(self).upper_band_values@,
                        gaps(old(self).series(), old(self).upper_band_values@.len() as int),
                        results,
                        0,
                    )
                    &&& final(self).middle_band_values@ == filled(
                        old(self).middle_band_values@,
                        gaps(old(self).series(), old(self).upper_band_values@.len() as int),
                        results,
                        1,
                    )
                    &&& final(self).lower_band_values@ == filled(
                        old(self).lower_band_values@,
                        gaps(old(self).series(), old(self).upper_band_values@.len() as int),
                        results,
                        2,
                    )
                },
            gaps(final(self).series(), final(self).upper_band_values@.len() as int).len() == 0,
    {
        let ghost start = *self;
        let ghost n = start.upper_band_values@.len() as int;
        let missing = self.get_missing_indices();
        proof {
            lemma_ascending(start.series(), n);
            assert(start.series()[0] == &start.upper_band_values);
            assert(start.series()[1] == &start.middle_band_values);
            assert(start.series()[2] == &start.lower_band_values);
        }
        let results = apply_formula(
            kline_collection,
            self.period,
            &missing,
            formula,
            Ghost(3),
        );
        put(&mut self.upper_band_values, &missing, &results, 0);
        put(&mut self.middle_band_values, &missing, &results, 1);
        put(&mut self.lower_band_values, &missing, &results, 2);
        proof {
            assert forall|i: int| 0 <= i < n implies !missing_at(self.series(), i) by {
                lemma_filled_some(start.series(), 0, n, results@, 0, i);
                assert(self.series()[0] == &self.upper_band_values);
                lemma_filled_some(start.series(), 1, n, results@, 1, i);
                assert(self.series()[1] == &self.middle_band_values);
                lemma_filled_some(start.series(), 2, n, results@, 2, i);
                assert(self.series()[2] == &self.lower_band_values);
                if missing_at(self.series(), i) {
                    let k = choose|k: int|
                        0 <= k < self.series().len() && (#[trigger] self.series()[k])@[i] is None;
                    assert(k == 0 || k == 1 || k == 2);
                }
            }
            lemma_gaps(self.series(), n);
        }
    }

    /// No signal is derived from this indicator.
    pub fn calculate_criteria(&mut self, kline_collection: &KlineCollection<P>)
        ensures
            *final(self) == *old(self),
    {
    }

    /// The signals of the indicator.
    pub fn get_criteria(&self) -> (criteria: &Vec<Criterion>)
        ensures
            criteria == &self.criteria,
    {
        &self.criteria
    }

    /// The number of signals that the indicator has.
    pub fn get_criteria_count(&self) -> (count: i32)
        ensures
            count == self.criteria_count,
    {
        self.criteria_count
    }

    /// A fresh indicator with the period that the first variable holds and the
    /// deviation that the second one holds, written as `label` writes it.
    pub fn clone_with_new_parameters<T: Fn(&P) -> String>(
        &self,
        parameters: &Vec<Variable<P>>,
        label: &T,
    ) -> (indicator: Self)
        requires
            parameters.len() >= 2,
            parameters[0] matches Variable::Integer(value) && i32::MIN <= value <= i32::MAX,
            parameters[1] is Float,
            forall|number: P| call_requires(*label, (&number,)),
        ensures
            parameters[0] matches Variable::Integer(value) && indicator.period == value,
            parameters[1] matches Variable::Float(value) && indicator.deviation == value
                && call_ensures(*label, (&value,), indicator.deviation_text),
            indicator.upper_band_values@ == Seq::<Option<P>>::empty(),
            indicator.middle_band_values@ == Seq::<Option<P>>::empty(),
            indicator.lower_band_values@ == Seq::<Option<P>>::empty(),
            indicator.criteria@ == Seq::<Criterion>::empty(),
            indicator.criteria_count == 0,
    {
        match (parameters[0], parameters[1]) {
            (Variable::Integer(first), Variable::Float(deviation)) => {
                let text = label(&deviation);
                Self::new(first as i32, deviation, text)
            },
            _ => Self::new(0, self.deviation, String::new()),
        }
    }
}

} // verus!
