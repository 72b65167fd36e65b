//! The Ichimoku cloud and its five lines.
use vstd::prelude::*;
use vstd::string::*;
use crate::criteria::Criterion;
use crate::indicators::series::{
    aligned, all_in_reach, answered, apply_formula, filled, formula_of, gaps, lemma_ascending,
    lemma_filled_some, lemma_gaps, missing_at, missing_indices_of, put,
};
use crate::indicators::types::{
    IchimokuCloud, IndicatorInformation, IndicatorParameter, InformationCard, ParameterCard,
};
use crate::klines::{Kline, KlineCollection};
use crate::metaheuristic::objects::Variable;
use crate::text::{decimal, render_i64};

verus! {

impl<P: Copy> IchimokuCloud<P> {
    /// The series of the indicator.
    pub open spec fn series(&self) -> Seq<&Vec<Option<P>>> {
        seq![&self.conversion_line_values, &self.base_line_values, &self.lagging_span_values, &self.leading_span_a_values, &self.leading_span_b_values]
    }

    /// Whether the series are of one length, which 32 bits can count.
    pub open spec fn wf(&self) -> bool {
        aligned(self.series(), self.conversion_line_values@.len() as int)
    }

    /// What the catalogue says of the indicator.
    pub open spec fn card() -> InformationCard {
        InformationCard {
            struct_name: "IchimokuCloud"@,
            name: "Ichimoku Cloud"@,
            description: "Ichimoku Cloud indicator"@,
            parameters: seq![
                ParameterCard {
                    name: "Conversion Period"@,
                    description: "The period for the conversion line"@,
                    kind: "integer"@,
                    default: "9"@,
                    min: Some("1"@),
                    max: None,
                },
                ParameterCard {
                    name: "Base Period"@,
                    description: "The period for the base line"@,
                    kind: "integer"@,
                    default: "26"@,
                    min: Some("1"@),
                    max: None,
                },
                ParameterCard {
                    name: "Lagging Span"@,
                    description: "The period for the lagging span"@,
                    kind: "integer"@,
                    default: "52"@,
                    min: Some("1"@),
                    max: None,
                },
            ],
        }
    }

    /// The names of the columns that hold the series.
    pub open spec fn names(&self) -> Seq<Seq<char>> {
        let stem = "i_ic"@ + "_"@ + decimal(self.conversion_period as int) + "_"@ + decimal(self.base_period as int) + "_"@ + decimal(self.lagging_span as int);
        seq![stem + "_conversion"@, stem + "_base"@, stem + "_lagging"@, stem + "_leading_a"@, stem + "_leading_b"@]
    }

    /// The indicator without values.
    pub fn new(conversion_period: i32, base_period: i32, lagging_span: i32) -> (indicator: Self)
        ensures
            indicator.conversion_period == conversion_period,
            indicator.base_period == base_period,
            indicator.lagging_span == lagging_span,
            indicator.conversion_line_values@ == Seq::<Option<P>>::empty(),
            indicator.base_line_values@ == Seq::<Option<P>>::empty(),
            indicator.lagging_span_values@ == Seq::<Option<P>>::empty(),
            indicator.leading_span_a_values@ == Seq::<Option<P>>::empty(),
            indicator.leading_span_b_values@ == Seq::<Option<P>>::empty(),
            indicator.criteria@ == Seq::<Criterion>::empty(),
            indicator.criteria_count == 2,
    {
        IchimokuCloud {
            conversion_period,
            base_period,
            lagging_span,
            conversion_line_values: Vec::new(),
            base_line_values: Vec::new(),
            lagging_span_values: Vec::new(),
            leading_span_a_values: Vec::new(),
            leading_span_b_values: Vec::new(),
            criteria: Vec::new(),
            criteria_count: 2,
        }
    }

    /// What the catalogue says of the indicator.
    pub fn information() -> (info: IndicatorInformation)
        ensures
            info@ == Self::card(),
    {
        let mut parameters: Vec<IndicatorParameter> = Vec::new();
        parameters.push(
            IndicatorParameter {
                name: String::from_str("Conversion Period"),
                description: String::from_str("The period for the conversion line"),
                kind: String::from_str("integer"),
                default: String::from_str("9"),
                min: Some(String::from_str("1")),
                max: None,
            },
        );
        parameters.push(
            IndicatorParameter {
                name: String::from_str("Base Period"),
                description: String::from_str("The period for the base line"),
                kind: String::from_str("integer"),
                default: String::from_str("26"),
                min: Some(String::from_str("1")),
                max: None,
            },
        );
        parameters.push(
            IndicatorParameter {
                name: String::from_str("Lagging Span"),
                description: String::from_str("The period for the lagging span"),
                kind: String::from_str("integer"),
                default: String::from_str("52"),
                min: Some(String::from_str("1")),
                max: None,
            },
        );
        let info = IndicatorInformation {
            struct_name: String::from_str("IchimokuCloud"),
            name: String::from_str("Ichimoku Cloud"),
            description: String::from_str("Ichimoku Cloud indicator"),
            parameters,
        };
        assert(info@.parameters =~= Self::card().parameters);
        info
    }

    /// The names of the columns that hold the series.
    pub fn column_names(&self) -> (names: Vec<String>)
        ensures
            names@.map_values(|name: String| name@) == self.names(),
    {
        let mut stem = String::from_str("i_ic");
        stem.append("_");
        let first = render_i64(self.conversion_period as i64);
        stem.append(first.as_str());
        stem.append("_");
        let second = render_i64(self.base_period as i64);
        stem.append(second.as_str());
        stem.append("_");
        let third = render_i64(self.lagging_span as i64);
        stem.append(third.as_str());
        let mut names: Vec<String> = Vec::new();
        let mut name_conversion = stem.clone();
        name_conversion.append("_conversion");
        names.push(name_conversion);
        let mut name_base = stem.clone();
        name_base.append("_base");
        names.push(name_base);
        let mut name_lagging = stem.clone();
        name_lagging.append("_lagging");
        names.push(name_lagging);
        let mut name_leading_a = stem.clone();
        name_leading_a.append("_leading_a");
        names.push(name_leading_a);
        let mut name_leading_b = stem;
        name_leading_b.append("_leading_b");
        names.push(name_leading_b);
        assert(names@.map_values(|name: String| name@) =~= self.names());
        names
    }

    /// The number of candlesticks that a value looks back on.
    pub fn n_before_needed(&self) -> (n: i32)
        ensures
            n == self.conversion_period,
    {
        self.conversion_period
    }

    /// Makes room for `n` more values.
    pub fn reserve_space(&mut self, n: i32)
        requires
            n >= 0,
        ensures
            final(self).conversion_line_values@ == old(self).conversion_line_values@,
            final(self).base_line_values@ == old(self).base_line_values@,
            final(self).lagging_span_values@ == old(self).lagging_span_values@,
            final(self).leading_span_a_values@ == old(self).leading_span_a_values@,
            final(self).leading_span_b_values@ == old(self).leading_span_b_values@,
            final(self).conversion_period == old(self).conversion_period,
            final(self).base_period == old(self).base_period,
            final(self).lagging_span == old(self).lagging_span,
            final(self).criteria == old(self).criteria,
            final(self).criteria_count == old(self).criteria_count,
    {
        self.conversion_line_values.reserve(n as usize);
        self.base_line_values.reserve(n as usize);
        self.lagging_span_values.reserve(n as usize);
        self.leading_span_a_values.reserve(n as usize);
        self.leading_span_b_values.reserve(n as usize);
    }

    /// Takes up the values of one stored row.
    pub fn store_row(&mut self, row: &Vec<Option<P>>)
        requires
            row.len() >= 5,
        ensures
            final(self).conversion_line_values@ == old(self).conversion_line_values@.push(row[0]),
            final(self).base_line_values@ == old(self).base_line_values@.push(row[1]),
            final(self).lagging_span_values@ == old(self).lagging_span_values@.push(row[2]),
            final(self).leading_span_a_values@ == old(self).leading_span_a_values@.push(row[3]),
            final(self).leading_span_b_values@ == old(self).leading_span_b_values@.push(row[4]),
            final(self).conversion_period == old(self).conversion_period,
            final(self).base_period == old(self).base_period,
            final(self).lagging_span == old(self).lagging_span,
            final(self).criteria == old(self).criteria,
            final(self).criteria_count == old(self).criteria_count,
    {
        self.conversion_line_values.push(row[0]);
        self.base_line_values.push(row[1]);
        self.lagging_span_values.push(row[2]);
        self.leading_span_a_values.push(row[3]);
        self.leading_span_b_values.push(row[4]);
    }

    /// The series of the indicator.
    pub fn get_values(&self) -> (values: Vec<&Vec<Option<P>>>)
        ensures
            values@ == self.series(),
    {
        let mut values: Vec<&Vec<Option<P>>> = Vec::new();
        values.push(&self.conversion_line_values);
        values.push(&self.base_line_values);
        values.push(&self.lagging_span_values);
        values.push(&self.leading_span_a_values);
        values.push(&self.leading_span_b_values);
        assert(values@ =~= self.series());
        values
    }

    /// The positions without a value in one of the series, in ascending
    /// order.
    pub fn get_missing_indices(&self) -> (missing: Vec<i32>)
        requires
            self.wf(),
        ensures
            missing@ == gaps(self.series(), self.conversion_line_values@.len() as int),
    {
        let values = self.get_values();
        missing_indices_of(&values)
    }

    /// Computes the values that are missing: those of a position are what
    /// the formula makes of the candlesticks that the position looks back
    /// on, one number for each series.
    pub fn calculate<F: Fn(&Vec<Kline<P>>) -> Vec<P>>(
        &mut self,
        kline_collection: &KlineCollection<P>,
        formula: &F,
    )
        requires
            kline_collection.countable(),
            old(self).wf(),
            formula_of(*formula, 5),
            all_in_reach(
                kline_collection,
                old(self).conversion_period as int,
                gaps(old(self).series(), old(self).conversion_line_values@.len() as int),
            ),
        ensures
            final(self).conversion_period == old(self).conversion_period,
            final(self).base_period == old(self).base_period,
            final(self).lagging_span == old(self).lagging_span,
            final(self).criteria == old(self).criteria,
            final(self).criteria_count == old(self).criteria_count,
            exists|results: Seq<Vec<P>>|
                {
                    &&& answered(
                        *formula,
                        kline_collection,
                        old(self).conversion_period as int,
                        gaps(old(self).series(), old(self).conversion_line_values@.len() as int),
                        results,
                        5,
                    )
                    &&& final(self).conversion_line_values@ == filled(
                        old(self).conversion_line_values@,
                        gaps(old(self).series(), old(self).conversion_line_values@.len() as int),
                        results,
                        0,
                    )
                    &&& final(self).base_line_values@ == filled(
                        old(self).base_line_values@,
                        gaps(old(self).series(), old(self).conversion_line_values@.len() as int),
                        results,
                        1,
                    )
                    &&& final(self).lagging_span_values@ == filled(
                        old(self).lagging_span_values@,
                        gaps(old(self).series(), old(self).conversion_line_values@.len() as int),
                        results,
                        2,
                    )
                    &&& final(self).leading_span_a_values@ == filled(
                        old(self).leading_span_a_values@,
                        gaps(old(self).series(), old(self).conversion_line_values@.len() as int),
                        results,
                        3,
                    )
                    &&& final(self).leading_span_b_values@ == filled(
                        old(self).leading_span_b_values@,
                        gaps(old(self).series(), old(self).conversion_line_values@.len() as int),
                        results,
                        4,
                    )
                },
            gaps(final(self).series(), final(self).conversion_line_values@.len() as int).len() == 0,
    {
        let ghost start = *self;
        let ghost n = start.conversion_line_values@.len() as int;
        let missing = self.get_missing_indices();
        proof {
            lemma_ascending(start.series(), n);
            assert(start.series()[0] == &start.conversion_line_values);
            assert(start.series()[1] == &start.base_line_values);
            assert(start.series()[2] == &start.lagging_span_values);
            assert(start.series()[3] == &start.leading_span_a_values);
            assert(start.series()[4] == &start.leading_span_b_values);
        }
        let results = apply_formula(
            kline_collection,
            self.conversion_period,
            &missing,
            formula,
            Ghost(5),
        );
        put(&mut self.conversion_line_values, &missing, &results, 0);
        put(&mut self.base_line_values, &missing, &results, 1);
        put(&mut self.lagging_span_values, &missing, &results, 2);
        put(&mut self.leading_span_a_values, &missing, &results, 3);
        put(&mut self.leading_span_b_values, &missing, &results, 4);
        proof {
            assert forall|i: int| 0 <= i < n implies !missing_at(self.series(), i) by {
                lemma_filled_some(start.series(), 0, n, results@, 0, i);
                assert(self.series()[0] == &self.conversion_line_values);
                lemma_filled_some(start.series(), 1, n, results@, 1, i);
                assert(self.series()[1] == &self.base_line_values);
                lemma_filled_some(start.series(), 2, n, results@, 2, i);
                assert(self.series()[2] == &self.lagging_span_values);
                lemma_filled_some(start.series(), 3, n, results@, 3, i);
                assert(self.series()[3] == &self.leading_span_a_values);
                lemma_filled_some(start.series(), 4, n, results@, 4, i);
                assert(self.series()[4] == &self.leading_span_b_values);
                if missing_at(self.series(), i) {
                    let k = choose|k: int|
                        0 <= k < self.series().len() && (#[trigger] self.series()[k])@[i] is None;
                    assert(k == 0 || k == 1 || k == 2 || k == 3 || k == 4);
                }
            }
            lemma_gaps(self.series(), n);
        }
    }

    /// No signal is derived from this indicator.
    pub fn calculate_criteria(&mut self, kline_collection: &KlineCollection<P>)
        ensures
            *final(self) == *old(self),
    {
    }

    /// The signals of the indicator.
    pub fn get_criteria(&self) -> (criteria: &Vec<Criterion>)
        ensures
            criteria == &self.criteria,
    {
        &self.criteria
    }

    /// The number of signals that the indicator has.
    pub fn get_criteria_count(&self) -> (count: i32)
        ensures
            count == self.criteria_count,
    {
        self.criteria_count
    }

    /// A fresh indicator with the periods that the first three variables
    /// hold.
    pub fn clone_with_new_parameters(&self, parameters: &Vec<Variable<P>>) -> (indicator: Self)
        requires
            parameters.len() >= 3,
            parameters[0] matches Variable::Integer(value) && i32::MIN <= value <= i32::MAX,
            parameters[1] matches Variable::Integer(value) && i32::MIN <= value <= i32::MAX,
            parameters[2] matches Variable::Integer(value) && i32::MIN <= value <= i32::MAX,
        ensures
            parameters[0] matches Variable::Integer(value) && indicator.conversion_period == value,
            parameters[1] matches Variable::Integer(value) && indicator.base_period == value,
            parameters[2] matches Variable::Integer(value) && indicator.lagging_span == value,
            indicator.conversion_line_values@ == Seq::<Option<P>>::empty(),
            indicator.base_line_values@ == Seq::<Option<P>>::empty(),
            indicator.lagging_span_values@ == Seq::<Option<P>>::empty(),
            indicator.leading_span_a_values@ == Seq::<Option<P>>::empty(),
            indicator.leading_span_b_values@ == Seq::<Option<P>>::empty(),
            indicator.criteria@ == Seq::<Criterion>::empty(),
            indicator.criteria_count == 2,
    {
        match (parameters[0], parameters[1], parameters[2]) {
            (Variable::Integer(first), Variable::Integer(second), Variable::Integer(third)) => Self::new(
                first as i32,
                second as i32,
                third as i32,
            ),
            _ => Self::new(0, 0, 0),
        }
    }
}

} // verus!
