//! Making indicators: from a name and named parameters, and from the
//! variables of a candidate solution.
use vstd::prelude::*;
use vstd::string::*;
use crate::indicators::types::{
    BollingerBands, ExponentialMovingAverage, FibonacciRetracement, IchimokuCloud, Indicator,
    MovingAverage, MovingAverageConvergenceDivergence, OnBalanceVolume, RelativeStrengthIndex,
    StochasticOscillator,
};
use crate::metaheuristic::objects::Variable;
use crate::text::spells;

verus! {

/// A named parameter of a configuration. An integer is given as an integer;
/// a number that is to be read as a real, as a number.
#[derive(Debug, Clone)]
pub struct Parameter<P> {
    pub name: String,
    pub value: Variable<P>,
}

/// The value of the first parameter of the given name.
pub open spec fn found<P>(parameters: Seq<Parameter<P>>, name: Seq<char>) -> Option<Variable<P>>
    decreases parameters.len(),
{
    if parameters.len() == 0 {
        None
    } else if parameters[0].name@ == name {
        Some(parameters[0].value)
    } else {
        found(parameters.subrange(1, parameters.len() as int), name)
    }
}

/// Whether an integer that 32 bits hold was found.
pub open spec fn is_period<P>(value: Option<Variable<P>>) -> bool {
    value matches Some(Variable::Integer(v)) && i32::MIN <= v <= i32::MAX
}

/// Whether a number was found.
pub open spec fn is_number<P>(value: Option<Variable<P>>) -> bool {
    value matches Some(Variable::Float(_))
}

/// The integer that was found.
pub open spec fn period_of<P>(value: Option<Variable<P>>) -> int {
    match value {
        Some(Variable::Integer(v)) => v as int,
        _ => 0,
    }
}

/// Finds the value of the first parameter of the given name.
pub fn lookup<P: Copy>(parameters: &Vec<Parameter<P>>, name: &str) -> (value: Option<Variable<P>>)
    ensures
        value == found(parameters@, name@),
{
    let mut i: usize = 0;
    assert(parameters@.subrange(0, parameters.len() as int) =~= parameters@);
    while i < parameters.len()
        invariant
            i <= parameters.len(),
            found(parameters@, name@) == found(
                parameters@.subrange(i as int, parameters.len() as int),
                name@,
            ),
        decreases parameters.len() - i,
    {
        let ghost rest = parameters@.subrange(i as int, parameters.len() as int);
        assert(rest[0] == parameters@[i as int]);
        assert(rest.subrange(1, rest.len() as int) =~= parameters@.subrange(
            i + 1,
            parameters.len() as int,
        ));
        if spells(&parameters[i].name, name) {
            return Some(parameters[i].value);
        }
        i += 1;
    }
    None
}

/// The period that was found: an integer that 32 bits hold.
pub fn period<P: Copy>(value: Option<Variable<P>>) -> (period: Option<i32>)
    ensures
        period is Some == is_period(value),
        period matches Some(p) ==> p == period_of(value),
{
    match value {
        Some(Variable::Integer(v)) => {
            if -0x8000_0000i64 <= v && v <= 0x7fff_ffffi64 {
                Some(v as i32)
            } else {
                None
            }
        },
        _ => None,
    }
}

fn holds_period<P: Copy>(variables: &Vec<Variable<P>>, position: usize) -> (r: bool)
    ensures
        r == (position < variables.len() && is_period(Some(variables[position as int]))),
{
    position < variables.len() && period(Some(variables[position])).is_some()
}

fn holds_number<P: Copy>(variables: &Vec<Variable<P>>, position: usize) -> (r: bool)
    ensures
        r == (position < variables.len() && variables[position as int] is Float),
{
    position < variables.len() && match variables[position] {
        Variable::Float(_) => true,
        _ => false,
    }
}

impl<P: Copy> Indicator<P> {
    /// Whether the indicator holds no values and no signals, as a new one
    /// does.
    pub open spec fn fresh(&self) -> bool {
        &&& forall|k: int| 0 <= k < self.series().len() ==> (#[trigger] self.series()[k])@.len() == 0
        &&& self.criteria()@.len() == 0
        &&& self.criteria_count() == match self {
            Indicator::MovingAverage(_) => 3int,
            Indicator::ExponentialMovingAverage(_) => 2int,
            Indicator::RelativeStrengthIndex(_) => 2int,
            Indicator::MovingAverageConvergenceDivergence(_) => 0int,
            Indicator::BollingerBands(_) => 0int,
            Indicator::FibonacciRetracement(_) => 0int,
            Indicator::StochasticOscillator(_) => 0int,
            Indicator::OnBalanceVolume(_) => 0int,
            Indicator::IchimokuCloud(_) => 2int,
        }
    }

    /// Whether `made` is what the name and the named parameters describe: an
    /// indicator of that name with those parameters, new; nothing where the
    /// name is unknown, or a parameter is not there or not of its kind: an
    /// integer that 32 bits hold for a period, a number for a deviation.
    pub open spec fn described<T: Fn(&P) -> String>(
        struct_name: Seq<char>,
        parameters: Seq<Parameter<P>>,
        label: T,
        made: Option<Self>,
    ) -> bool {
        if struct_name == "MovingAverage"@ {
            if !is_period(found(parameters, "period"@)) {
                made is None
            } else {
                &&& made matches Some(Indicator::MovingAverage(it))
                &&& it.period == period_of(found(parameters, "period"@))
                &&& made.unwrap().fresh()
            }
        } else if struct_name == "ExponentialMovingAverage"@ {
            if !is_period(found(parameters, "period"@)) {
                made is None
            } else {
                &&& made matches Some(Indicator::ExponentialMovingAverage(it))
                &&& it.period == period_of(found(parameters, "period"@))
                &&& made.unwrap().fresh()
            }
        } else if struct_name == "RelativeStrengthIndex"@ {
            if !is_period(found(parameters, "period"@)) {
                made is None
            } else {
                &&& made matches Some(Indicator::RelativeStrengthIndex(it))
                &&& it.period == period_of(found(parameters, "period"@))
                &&& made.unwrap().fresh()
            }
        } else if struct_name == "MovingAverageConvergenceDivergence"@ {
            if !is_period(found(parameters, "short_period"@)) || !is_period(found(parameters, "long_period"@)) || !is_period(found(parameters, "signal_period"@)) {
                made is None
            } else {
                &&& made matches Some(Indicator::MovingAverageConvergenceDivergence(it))
                &&& it.short_period == period_of(found(parameters, "short_period"@))
                &&& it.long_period == period_of(found(parameters, "long_period"@))
                &&& it.signal_period == period_of(found(parameters, "signal_period"@))
                &&& made.unwrap().fresh()
            }
        } else if struct_name == "BollingerBands"@ {
            if !is_period(found(parameters, "period"@)) || !is_number(found(parameters, "deviation"@)) {
                made is None
            } else {
                &&& made matches Some(Indicator::BollingerBands(it))
                &&& it.period == period_of(found(parameters, "period"@))
                &&& found(parameters, "deviation"@) matches Some(Variable::Float(deviation))
                &&& it.deviation == deviation
                &&& call_ensures(label, (&deviation,), it.deviation_text)
                &&& made.unwrap().fresh()
            }
        } else if struct_name == "FibonacciRetracement"@ {
            if !is_period(found(parameters, "period"@)) {
                made is None
            } else {
                &&& made matches Some(Indicator::FibonacciRetracement(it))
                &&& it.period == period_of(found(parameters, "period"@))
                &&& made.unwrap().fresh()
            }
        } else if struct_name == "StochasticOscillator"@ {
            if !is_period(found(parameters, "k_period"@)) || !is_period(found(parameters, "d_period"@)) {
                made is None
            } else {
                &&& made matches Some(Indicator::StochasticOscillator(it))
                &&& it.k_period == period_of(found(parameters, "k_period"@))
                &&& it.d_period == period_of(found(parameters, "d_period"@))
                &&& made.unwrap().fresh()
            }
        } else if struct_name == "OnBalanceVolume"@ {
            if !is_period(found(parameters, "period"@)) {
                made is None
            } else {
                &&& made matches Some(Indicator::OnBalanceVolume(it))
                &&& it.period == period_of(found(parameters, "period"@))
                &&& made.unwrap().fresh()
            }
        } else if struct_name == "IchimokuCloud"@ {
            if !is_period(found(parameters, "conversion_period"@)) || !is_period(found(parameters, "base_period"@)) || !is_period(found(parameters, "lagging_span"@)) {
                made is None
            } else {
                &&& made matches Some(Indicator::IchimokuCloud(it))
                &&& it.conversion_period == period_of(found(parameters, "conversion_period"@))
                &&& it.base_period == period_of(found(parameters, "base_period"@))
                &&& it.lagging_span == period_of(found(parameters, "lagging_span"@))
                &&& made.unwrap().fresh()
            }
        } else {
            made is None
        }
    }

    /// Makes the indicator that a name and named parameters describe.
    pub fn new_from_struct_name<T: Fn(&P) -> String>(
        struct_name: &str,
        parameters: &Vec<Parameter<P>>,
        label: &T,
    ) -> (made: Option<Self>)
        requires
            forall|number: P| call_requires(*label, (&number,)),
        ensures
            Self::described(struct_name@, parameters@, *label, made),
    {
        let name = String::from_str(struct_name);
        if spells(&name, "MovingAverage") {
            let first = period(lookup(parameters, "period"));
            match first {
                Some(first) => {
                    let it = MovingAverage::new(first);
                    let made = Indicator::MovingAverage(it);
                    proof {
                        assert(made.series()[0] == &it.values);
                        assert(made.fresh());
                    }
                    Some(made)
                },
                _ => None,
            }
        } else if spells(&name, "ExponentialMovingAverage") {
            let first = period(lookup(parameters, "period"));
            match first {
                Some(first) => {
                    let it = ExponentialMovingAverage::new(first);
                    let made = Indicator::ExponentialMovingAverage(it);
                    proof {
                        assert(made.series()[0] == &it.values);
                        assert(made.fresh());
                    }
                    Some(made)
                },
                _ => None,
            }
        } else if spells(&name, "RelativeStrengthIndex") {
            let first = period(lookup(parameters, "period"));
            match first {
                Some(first) => {
                    let it = RelativeStrengthIndex::new(first);
                    let made = Indicator::RelativeStrengthIndex(it);
                    proof {
                        assert(made.series()[0] == &it.values);
                        assert(made.fresh());
                    }
                    Some(made)
                },
                _ => None,
            }
        } else if spells(&name, "MovingAverageConvergenceDivergence") {
            let first = period(lookup(parameters, "short_period"));
            let second = period(lookup(parameters, "long_period"));
            let third = period(lookup(parameters, "signal_period"));
            match (first, second, third) {
                (Some(first), Some(second), Some(third)) => {
                    let it = MovingAverageConvergenceDivergence::new(first, second, third);
                    let made = Indicator::MovingAverageConvergenceDivergence(it);
                    proof {
                        assert(made.series()[0] == &it.macd_values);
                        assert(made.series()[1] == &it.signal_values);
                        assert(made.series()[2] == &it.histogram_values);
                        assert(made.fresh());
                    }
                    Some(made)
                },
                _ => None,
            }
        } else if spells(&name, "BollingerBands") {
            let first = period(lookup(parameters, "period"));
            let deviation = lookup(parameters, "deviation");
            match (first, deviation) {
                (Some(first), Some(Variable::Float(deviation))) => {
                    let text = label(&deviation);
                    let it = BollingerBands::new(first, deviation, text);
                    let made = Indicator::BollingerBands(it);
                    proof {
                        assert(made.series()[0] == &it.upper_band_values);
                        assert(made.series()[1] == &it.middle_band_values);
                        assert(made.series()[2] == &it.lower_band_values);
                        assert(made.fresh());
                    }
                    Some(made)
                },
                _ => None,
            }
        } else if spells(&name, "FibonacciRetracement") {
            let first = period(lookup(parameters, "period"));
            match first {
                Some(first) => {
                    let it = FibonacciRetracement::new(first);
                    let made = Indicator::FibonacciRetracement(it);
                    proof {
                        assert(made.series()[0] == &it.values);
                        assert(made.fresh());
                    }
                    Some(made)
                },
                _ => None,
            }
        } else if spells(&name, "StochasticOscillator") {
            let first = period(lookup(parameters, "k_period"));
            let second = period(lookup(parameters, "d_period"));
            match (first, second) {
                (Some(first), Some(second)) => {
                    let it = StochasticOscillator::new(first, second);
                    let made = Indicator::StochasticOscillator(it);
                    proof {
                        assert(made.series()[0] == &it.k_values);
                        assert(made.series()[1] == &it.d_values);
                        assert(made.fresh());
                    }
                    Some(made)
                },
                _ => None,
            }
        } else if spells(&name, "OnBalanceVolume") {
            let first = period(lookup(parameters, "period"));
            match first {
                Some(first) => {
                    let it = OnBalanceVolume::new(first);
                    let made = Indicator::OnBalanceVolume(it);
                    proof {
                        assert(made.series()[0] == &it.values);
                        assert(made.fresh());
                    }
                    Some(made)
                },
                _ => None,
            }
        } else if spells(&name, "IchimokuCloud") {
            let first = period(lookup(parameters, "conversion_period"));
            let second = period(lookup(parameters, "base_period"));
            let third = period(lookup(parameters, "lagging_span"));
            match (first, second, third) {
                (Some(first), Some(second), Some(third)) => {
                    let it = IchimokuCloud::new(first, second, third);
                    let made = Indicator::IchimokuCloud(it);
                    proof {
                        assert(made.series()[0] == &it.conversion_line_values);
                        assert(made.series()[1] == &it.base_line_values);
                        assert(made.series()[2] == &it.lagging_span_values);
                        assert(made.series()[3] == &it.leading_span_a_values);
                        assert(made.series()[4] == &it.leading_span_b_values);
                        assert(made.fresh());
                    }
                    Some(made)
                },
                _ => None,
            }
        } else {
            None
        }
    }

    /// Whether the variables begin with the parameters of the indicator:
    /// integers that 32 bits hold for periods, a number for a deviation.
    pub open spec fn decodes(&self, variables: Seq<Variable<P>>) -> bool {
        match self {
            Indicator::MovingAverage(_) => variables.len() >= 1
                && is_period(Some(variables[0])),
            Indicator::ExponentialMovingAverage(_) => variables.len() >= 1
                && is_period(Some(variables[0])),
            Indicator::RelativeStrengthIndex(_) => variables.len() >= 1
                && is_period(Some(variables[0])),
            Indicator::MovingAverageConvergenceDivergence(_) => variables.len() >= 3
                && is_period(Some(variables[0]))
                && is_period(Some(variables[1]))
                && is_period(Some(variables[2])),
            Indicator::BollingerBands(_) => variables.len() >= 2
                && is_period(Some(variables[0]))
                && variables[1] is Float,
            Indicator::FibonacciRetracement(_) => variables.len() >= 1
                && is_period(Some(variables[0])),
            Indicator::StochasticOscillator(_) => variables.len() >= 2
                && is_period(Some(variables[0]))
                && is_period(Some(variables[1])),
            Indicator::OnBalanceVolume(_) => variables.len() >= 1
                && is_period(Some(variables[0])),
            Indicator::IchimokuCloud(_) => variables.len() >= 3
                && is_period(Some(variables[0]))
                && is_period(Some(variables[1]))
                && is_period(Some(variables[2])),
        }
    }

    /// Tests whether the variables begin with the parameters of the
    /// indicator.
    pub fn can_decode(&self, variables: &Vec<Variable<P>>) -> (r: bool)
        ensures
            r == self.decodes(variables@),
    {
        match self {
            Indicator::MovingAverage(_) => holds_period(variables, 0),
            Indicator::ExponentialMovingAverage(_) => holds_period(variables, 0),
            Indicator::RelativeStrengthIndex(_) => holds_period(variables, 0),
            Indicator::MovingAverageConvergenceDivergence(_) => holds_period(variables, 0) && holds_period(variables, 1) && holds_period(variables, 2),
            Indicator::BollingerBands(_) => holds_period(variables, 0) && holds_number(variables, 1),
            Indicator::FibonacciRetracement(_) => holds_period(variables, 0),
            Indicator::StochasticOscillator(_) => holds_period(variables, 0) && holds_period(variables, 1),
            Indicator::OnBalanceVolume(_) => holds_period(variables, 0),
            Indicator::IchimokuCloud(_) => holds_period(variables, 0) && holds_period(variables, 1) && holds_period(variables, 2),
        }
    }

    /// Whether `made` is a new indicator of the kind of this one with the
    /// parameters that the first variables hold.
    pub open spec fn decoded<T: Fn(&P) -> String>(
        &self,
        variables: Seq<Variable<P>>,
        label: T,
        made: &Self,
    ) -> bool {
        &&& made.fresh()
        &&& match (self, made) {
            (Indicator::MovingAverage(_), Indicator::MovingAverage(it)) => it.period == period_of(Some(variables[0])),
            (Indicator::ExponentialMovingAverage(_), Indicator::ExponentialMovingAverage(it)) => it.period == period_of(Some(variables[0])),
            (Indicator::RelativeStrengthIndex(_), Indicator::RelativeStrengthIndex(it)) => it.period == period_of(Some(variables[0])),
            (Indicator::MovingAverageConvergenceDivergence(_), Indicator::MovingAverageConvergenceDivergence(it)) => it.short_period == period_of(Some(variables[0]))
                && it.long_period == period_of(Some(variables[1]))
                && it.signal_period == period_of(Some(variables[2])),
            (Indicator::BollingerBands(_), Indicator::BollingerBands(it)) => it.period == period_of(Some(variables[0]))
                && (variables[1] matches Variable::Float(deviation) && it.deviation == deviation
                && call_ensures(label, (&deviation,), it.deviation_text)),
            (Indicator::FibonacciRetracement(_), Indicator::FibonacciRetracement(it)) => it.period == period_of(Some(variables[0])),
            (Indicator::StochasticOscillator(_), Indicator::StochasticOscillator(it)) => it.k_period == period_of(Some(variables[0]))
                && it.d_period == period_of(Some(variables[1])),
            (Indicator::OnBalanceVolume(_), Indicator::OnBalanceVolume(it)) => it.period == period_of(Some(variables[0])),
            (Indicator::IchimokuCloud(_), Indicator::IchimokuCloud(it)) => it.conversion_period == period_of(Some(variables[0]))
                && it.base_period == period_of(Some(variables[1]))
                && it.lagging_span == period_of(Some(variables[2])),
            _ => false,
        }
    }

    /// A new indicator of the same kind with the parameters that the first
    /// variables hold. A deviation is written into column names as `label`
    /// writes it.
    pub fn clone_with_new_parameters<T: Fn(&P) -> String>(
        &self,
        parameters: &Vec<Variable<P>>,
        label: &T,
    ) -> (made: Self)
        requires
            self.decodes(parameters@),
            forall|number: P| call_requires(*label, (&number,)),
        ensures
            self.decoded(parameters@, *label, &made),
    {
        match self {
            Indicator::MovingAverage(indicator) => {
                let it = indicator.clone_with_new_parameters(parameters);
                let made = Indicator::MovingAverage(it);
                proof {
                    assert(made.series()[0] == &it.values);
                    assert(made.fresh());
                }
                made
            },
            Indicator::ExponentialMovingAverage(indicator) => {
                let it = indicator.clone_with_new_parameters(parameters);
                let made = Indicator::ExponentialMovingAverage(it);
                proof {
                    assert(made.series()[0] == &it.values);
                    assert(made.fresh());
                }
                made
            },
            Indicator::RelativeStrengthIndex(indicator) => {
                let it = indicator.clone_with_new_parameters(parameters);
                let made = Indicator::RelativeStrengthIndex(it);
                proof {
                    assert(made.series()[0] == &it.values);
                    assert(made.fresh());
                }
                made
            },
            Indicator::MovingAverageConvergenceDivergence(indicator) => {
                let it = indicator.clone_with_new_parameters(parameters);
                let made = Indicator::MovingAverageConvergenceDivergence(it);
                proof {
                    assert(made.series()[0] == &it.macd_values);
                    assert(made.series()[1] == &it.signal_values);
                    assert(made.series()[2] == &it.histogram_values);
                    assert(made.fresh());
                }
                made
            },
            Indicator::BollingerBands(indicator) => {
                let it = indicator.clone_with_new_parameters(parameters, label);
                let made = Indicator::BollingerBands(it);
                proof {
                    assert(made.series()[0] == &it.upper_band_values);
                    assert(made.series()[1] == &it.middle_band_values);
                    assert(made.series()[2] == &it.lower_band_values);
                    assert(made.fresh());
                }
                made
            },
            Indicator::FibonacciRetracement(indicator) => {
                let it = indicator.clone_with_new_parameters(parameters);
                let made = Indicator::FibonacciRetracement(it);
                proof {
                    assert(made.series()[0] == &it.values);
                    assert(made.fresh());
                }
                made
            },
            Indicator::StochasticOscillator(indicator) => {
                let it = indicator.clone_with_new_parameters(parameters);
                let made = Indicator::StochasticOscillator(it);
                proof {
                    assert(made.series()[0] == &it.k_values);
                    assert(made.series()[1] == &it.d_values);
                    assert(made.fresh());
                }
                made
            },
            Indicator::OnBalanceVolume(indicator) => {
                let it = indicator.clone_with_new_parameters(parameters);
                let made = Indicator::OnBalanceVolume(it);
                proof {
                    assert(made.series()[0] == &it.values);
                    assert(made.fresh());
                }
                made
            },
            Indicator::IchimokuCloud(indicator) => {
                let it = indicator.clone_with_new_parameters(parameters);
                let made = Indicator::IchimokuCloud(it);
                proof {
                    assert(made.series()[0] == &it.conversion_line_values);
                    assert(made.series()[1] == &it.base_line_values);
                    assert(made.series()[2] == &it.lagging_span_values);
                    assert(made.series()[3] == &it.leading_span_a_values);
                    assert(made.series()[4] == &it.leading_span_b_values);
                    assert(made.fresh());
                }
                made
            },
        }
    }
}

/// An indicator has one column name for each of its series.
pub proof fn lemma_one_name_per_series<P: Copy>(indicator: Indicator<P>)
    ensures
        indicator.names().len() == indicator.series().len(),
{
}

/// The column names depend on the kind and the parameters of an indicator
/// alone.
pub proof fn lemma_names_follow_settings<P: Copy>(one: Indicator<P>, other: Indicator<P>)
    requires
        one.same_settings(&other),
    ensures
        one.names() == other.names(),
{
}

} // verus!
