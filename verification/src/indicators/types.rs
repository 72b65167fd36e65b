//! The indicators and what the catalogue says of each.
use vstd::prelude::*;
use crate::criteria::Criterion;

verus! {

/// One parameter of an indicator, as the catalogue shows it.
#[derive(Debug, Clone)]
pub struct IndicatorParameter {
    pub name: String,
    pub description: String,
    pub kind: String,
    pub default: String,
    pub min: Option<String>,
    pub max: Option<String>,
}

/// An indicator, as the catalogue shows it.
#[derive(Debug, Clone)]
pub struct IndicatorInformation {
    pub struct_name: String,
    pub name: String,
    pub description: String,
    pub parameters: Vec<IndicatorParameter>,
}

/// The texts of a parameter of the catalogue.
pub struct ParameterCard {
    pub name: Seq<char>,
    pub description: Seq<char>,
    pub kind: Seq<char>,
    pub default: Seq<char>,
    pub min: Option<Seq<char>>,
    pub max: Option<Seq<char>>,
}

/// The texts of an entry of the catalogue.
pub struct InformationCard {
    pub struct_name: Seq<char>,
    pub name: Seq<char>,
    pub description: Seq<char>,
    pub parameters: Seq<ParameterCard>,
}

impl View for IndicatorParameter {
    type V = ParameterCard;

    open spec fn view(&self) -> ParameterCard {
        ParameterCard {
            name: self.name@,
            description: self.description@,
            kind: self.kind@,
            default: self.default@,
            min: match self.min {
                Some(text) => Some(text@),
                None => None,
            },
            max: match self.max {
                Some(text) => Some(text@),
                None => None,
            },
        }
    }
}

impl View for IndicatorInformation {
    type V = InformationCard;

    open spec fn view(&self) -> InformationCard {
        InformationCard {
            struct_name: self.struct_name@,
            name: self.name@,
            description: self.description@,
            parameters: self.parameters@.map_values(|p: IndicatorParameter| p@),
        }
    }
}

/// The mean of the closing prices over a period.
#[derive(Debug, Clone)]
pub struct MovingAverage<P> {
    pub period: i32,
    pub values: Vec<Option<P>>,
    pub criteria_count: i32,
    pub criteria: Vec<Criterion>,
}

/// The exponentially weighted mean of the closing prices over a period.
#[derive(Debug, Clone)]
pub struct ExponentialMovingAverage<P> {
    pub period: i32,
    pub values: Vec<Option<P>>,
    pub criteria_count: i32,
    pub criteria: Vec<Criterion>,
}

/// The relative strength of gains over losses within a period.
#[derive(Debug, Clone)]
pub struct RelativeStrengthIndex<P> {
    pub period: i32,
    pub values: Vec<Option<P>>,
    pub criteria_count: i32,
    pub criteria: Vec<Criterion>,
}

/// The difference of a short and a long moving average, its signal line and
/// their histogram.
#[derive(Debug, Clone)]
pub struct MovingAverageConvergenceDivergence<P> {
    pub short_period: i32,
    pub long_period: i32,
    pub signal_period: i32,
    pub macd_values: Vec<Option<P>>,
    pub signal_values: Vec<Option<P>>,
    pub histogram_values: Vec<Option<P>>,
    pub criteria_count: i32,
    pub criteria: Vec<Criterion>,
}

/// A moving average with a band of some standard deviations above and below
/// it. `deviation_text` is the deviation as it is written in column names.
#[derive(Debug, Clone)]
pub struct BollingerBands<P> {
    pub period: i32,
    pub deviation: P,
    pub deviation_text: String,
    pub upper_band_values: Vec<Option<P>>,
    pub middle_band_values: Vec<Option<P>>,
    pub lower_band_values: Vec<Option<P>>,
    pub criteria_count: i32,
    pub criteria: Vec<Criterion>,
}

/// The retracement levels of the range of a period.
#[derive(Debug, Clone)]
pub struct FibonacciRetracement<P> {
    pub period: i32,
    pub values: Vec<Option<P>>,
    pub criteria_count: i32,
    pub criteria: Vec<Criterion>,
}

/// Where the closing price lies within the range of a period, and the mean
/// of that over a second period.
#[derive(Debug, Clone)]
pub struct StochasticOscillator<P> {
    pub k_period: i32,
    pub d_period: i32,
    pub k_values: Vec<Option<P>>,
    pub d_values: Vec<Option<P>>,
    pub criteria_count: i32,
    pub criteria: Vec<Criterion>,
}

/// The volume, added where the price rose and subtracted where it fell.
#[derive(Debug, Clone)]
pub struct OnBalanceVolume<P> {
    pub period: i32,
    pub values: Vec<Option<P>>,
    pub criteria_count: i32,
    pub criteria: Vec<Criterion>,
}

/// The five lines of the Ichimoku cloud.
#[derive(Debug, Clone)]
pub struct IchimokuCloud<P> {
    pub conversion_period: i32,
    pub base_period: i32,
    pub lagging_span: i32,
    pub conversion_line_values: Vec<Option<P>>,
    pub base_line_values: Vec<Option<P>>,
    pub lagging_span_values: Vec<Option<P>>,
    pub leading_span_a_values: Vec<Option<P>>,
    pub leading_span_b_values: Vec<Option<P>>,
    pub criteria_count: i32,
    pub criteria: Vec<Criterion>,
}

/// Any of the indicators.
#[derive(Debug, Clone)]
pub enum Indicator<P> {
    MovingAverage(MovingAverage<P>),
    ExponentialMovingAverage(ExponentialMovingAverage<P>),
    RelativeStrengthIndex(RelativeStrengthIndex<P>),
    MovingAverageConvergenceDivergence(MovingAverageConvergenceDivergence<P>),
    BollingerBands(BollingerBands<P>),
    FibonacciRetracement(FibonacciRetracement<P>),
    StochasticOscillator(StochasticOscillator<P>),
    OnBalanceVolume(OnBalanceVolume<P>),
    IchimokuCloud(IchimokuCloud<P>),
}

} // verus!
