use backend::arithmetic::Arithmetic;
use backend::criteria::CriterionTrait;
use backend::indicators::making::Parameter;
use backend::indicators::persistence::{absent_rows, check_rows, RetrieveError};
use backend::indicators::types::{
    BollingerBands, ExponentialMovingAverage, FibonacciRetracement, IchimokuCloud, Indicator,
    MovingAverage, MovingAverageConvergenceDivergence, OnBalanceVolume, RelativeStrengthIndex,
    StochasticOscillator,
};
use backend::klines::{Kline, KlineCollection};
use backend::metaheuristic::objects::{Variable, VariableDefinition};

fn ieee() -> Arithmetic<
    f64,
    impl Fn(&f64, &f64) -> f64,
    impl Fn(&f64, &f64) -> f64,
    impl Fn(&f64, &f64) -> f64,
    impl Fn(&f64, &f64) -> bool,
    impl Fn(i64) -> f64,
> {
    Arithmetic {
        add: |a: &f64, b: &f64| a + b,
        sub: |a: &f64, b: &f64| a - b,
        div: |a: &f64, b: &f64| a / b,
        less: |a: &f64, b: &f64| a < b,
        from_int: |n: i64| n as f64,
        largest: f64::MAX,
        infinity: f64::INFINITY,
    }
}

fn label(number: &f64) -> String {
    format!("{:?}", number).to_lowercase()
}

fn kline_dummy_new(open: f64, high: f64, low: f64, close: f64) -> Kline<f64> {
    let now = chrono::Utc::now().timestamp_millis();
    Kline {
        open_time: now,
        open,
        high,
        low,
        close,
        volume: 0.0,
        close_time: now,
        quote_asset_volume: 0.0,
        number_of_trades: 0,
        taker_buy_base_asset_volume: 0.0,
        taker_buy_quote_asset_volume: 0.0,
    }
}

fn moving_average_collection() -> KlineCollection<f64> {
    let mut kline_collection = KlineCollection::new(1.0);
    let closes = vec![
        94215.8, 94164.3, 94094.8, 94224.0, 94129.1, 94134.4, 94098.6, 94122.1, 94165.9, 94160.5,
        94173.3, 94206.8, 94154.8, 94134.5, 94036.9,
    ];
    kline_collection.training_percentage = 0.75;
    for (i, close) in closes.iter().enumerate() {
        let kline = kline_dummy_new(0.0, 0.0, 0.0, *close);
        match i {
            0..=6 => kline_collection.past.push(kline),
            7..=12 => kline_collection.training.push(kline),
            13..=14 => kline_collection.validation.push(kline),
            _ => (),
        }
    }
    kline_collection
}

fn moving_average_expected() -> Vec<Option<f64>> {
    vec![
        Some(94138.18571428572),
        Some(94138.41428571429),
        Some(94147.8),
        Some(94140.55714285713),
        Some(94151.65714285713),
        Some(94154.57142857143),
        Some(94159.69999999998),
        Some(94147.52857142859),
    ]
}

fn stochastic_collection() -> KlineCollection<f64> {
    let mut kline_collection = KlineCollection::new(1.0);
    let highs = vec![
        94565.8, 94562.2, 94588.0, 94623.9, 94602.8, 94668.8, 94668.9, 94741.5, 94719.0, 94730.6,
        94706.9, 94669.0, 94678.1, 94667.5, 94620.1, 94612.7,
    ];
    let lows = vec![
        94513.3, 94465.7, 94498.2, 94554.4, 94562.6, 94520.2, 94585.6, 94639.2, 94692.7, 94689.0,
        94579.9, 94565.0, 94626.8, 94620.0, 94544.4, 94567.0,
    ];
    let closes = vec![
        94542.7, 94522.4, 94560.1, 94580.0, 94595.2, 94667.8, 94639.2, 94697.5, 94700.0, 94706.9,
        94579.9, 94657.3, 94626.9, 94620.1, 94576.7, 94588.5,
    ];
    kline_collection.training_percentage = 0.75;
    for i in 0..closes.len() {
        let kline = kline_dummy_new(0.0, highs[i], lows[i], closes[i]);
        match i {
            0..=7 => kline_collection.past.push(kline),
            8..=13 => kline_collection.training.push(kline),
            14..=15 => kline_collection.validation.push(kline),
            _ => (),
        }
    }
    kline_collection
}

fn stochastic_expected() -> (Vec<Option<f64>>, Vec<Option<f64>>) {
    (
        vec![
            Some(0.812471757794851),
            Some(0.843651152281946),
            Some(0.0),
            Some(0.5229461756374103),
            Some(0.37379227053135267),
            Some(0.3327294685990573),
            Some(0.19876923076924868),
            Some(0.3298429319371876),
        ],
        vec![
            Some(0.8132190594482104),
            Some(0.8190992619370322),
            Some(0.5520409700255989),
            Some(0.4555324426397854),
            Some(0.29891281538958764),
            Some(0.40982263825594006),
            Some(0.3017636566332195),
            Some(0.28711387710183117),
        ],
    )
}

#[test]
fn test_moving_average() {
    let kline_collection = moving_average_collection();
    let mut ma: MovingAverage<f64> =
        MovingAverage { period: 7, values: vec![], criteria_count: 3, criteria: vec![] };
    for _ in 0..kline_collection.get_length() {
        ma.values.push(None);
    }
    ma.calculate(&ieee(), &kline_collection);
    let expected_values = moving_average_expected();
    for i in 0..ma.values.len() {
        assert_eq!(ma.values[i], expected_values[i]);
    }
}

#[test]
fn test_moving_average_calculation() {
    let kline_collection = moving_average_collection();
    let mut ma: MovingAverage<f64> = MovingAverage::new(7);
    for _ in 0..kline_collection.get_length() {
        ma.values.push(None);
    }
    ma.calculate(&ieee(), &kline_collection);
    let expected_values = moving_average_expected();
    for i in 0..ma.values.len() {
        assert_eq!(ma.values[i], expected_values[i]);
    }
}

#[test]
fn test_stochastic_oscillator() {
    let kline_collection = stochastic_collection();
    let mut so: StochasticOscillator<f64> = StochasticOscillator {
        k_period: 5,
        d_period: 3,
        k_values: vec![],
        d_values: vec![],
        criteria_count: 0,
        criteria: vec![],
    };
    for _ in 0..kline_collection.get_length() {
        so.k_values.push(None);
        so.d_values.push(None);
    }
    so.calculate(&ieee(), &kline_collection);
    let (expected_k_values, expected_d_values) = stochastic_expected();
    for i in 0..so.k_values.len() {
        assert_eq!(so.k_values[i], expected_k_values[i]);
        assert_eq!(so.d_values[i], expected_d_values[i]);
    }
}

#[test]
fn test_stochastic_oscillator_calculation() {
    let kline_collection = stochastic_collection();
    let mut so: StochasticOscillator<f64> = StochasticOscillator::new(5, 3);
    for _ in 0..kline_collection.get_length() {
        so.k_values.push(None);
        so.d_values.push(None);
    }
    so.calculate(&ieee(), &kline_collection);
    let (expected_k_values, expected_d_values) = stochastic_expected();
    for i in 0..so.k_values.len() {
        assert_eq!(so.k_values[i], expected_k_values[i]);
        assert_eq!(so.d_values[i], expected_d_values[i]);
    }
    assert_eq!(so.k_values.len(), 8);
}

#[test]
fn moving_average_has_eight_values_and_misses_none_after_calculation() {
    let kline_collection = moving_average_collection();
    let mut ma: MovingAverage<f64> = MovingAverage::new(7);
    ma.store_rows_of_nothing(kline_collection.get_length());
    assert_eq!(ma.get_missing_indices(), vec![0, 1, 2, 3, 4, 5, 6, 7]);
    ma.calculate(&ieee(), &kline_collection);
    assert_eq!(ma.values.len(), 8);
    assert!(ma.get_missing_indices().is_empty());
}

trait Blank {
    fn store_rows_of_nothing(&mut self, n: i32);
}

impl Blank for MovingAverage<f64> {
    fn store_rows_of_nothing(&mut self, n: i32) {
        for _ in 0..n {
            self.store_row(&vec![None]);
        }
    }
}

#[test]
fn calculating_twice_changes_nothing() {
    let kline_collection = moving_average_collection();
    let mut ma: MovingAverage<f64> = MovingAverage::new(7);
    ma.store_rows_of_nothing(8);
    ma.calculate(&ieee(), &kline_collection);
    let once = ma.values.clone();
    ma.calculate(&ieee(), &kline_collection);
    assert_eq!(ma.values, once);
    assert!(ma.get_missing_indices().is_empty());
}

#[test]
fn moving_average_keeps_the_values_that_are_stored() {
    let kline_collection = moving_average_collection();
    let mut ma: MovingAverage<f64> = MovingAverage::new(7);
    for i in 0..8 {
        ma.store_row(&vec![if i % 2 == 0 { Some(1.5) } else { None }]);
    }
    assert_eq!(ma.get_missing_indices(), vec![1, 3, 5, 7]);
    ma.calculate(&ieee(), &kline_collection);
    let expected = moving_average_expected();
    for i in 0..8 {
        if i % 2 == 0 {
            assert_eq!(ma.values[i], Some(1.5));
        } else {
            assert_eq!(ma.values[i], expected[i]);
        }
    }
}

#[test]
fn moving_average_of_period_one_is_the_close() {
    let kline_collection = moving_average_collection();
    let mut ma: MovingAverage<f64> = MovingAverage::new(1);
    ma.store_rows_of_nothing(8);
    ma.calculate(&ieee(), &kline_collection);
    assert_eq!(ma.values, kline_collection.get_close_prices_iter().into_iter().map(Some).collect::<Vec<_>>());
}

#[test]
fn stochastic_ties_keep_the_first_extreme() {
    let mut kline_collection: KlineCollection<f64> = KlineCollection::new(1.0);
    for _ in 0..4 {
        kline_collection.past.push(kline_dummy_new(0.0, 10.0, 5.0, 7.5));
    }
    kline_collection.training.push(kline_dummy_new(0.0, 10.0, 5.0, 7.5));
    let mut so: StochasticOscillator<f64> = StochasticOscillator::new(2, 2);
    so.store_row(&vec![None, None]);
    so.calculate(&ieee(), &kline_collection);
    assert_eq!(so.k_values, vec![Some(0.5)]);
    assert_eq!(so.d_values, vec![Some(0.5)]);
    assert!(so.get_missing_indices().is_empty());
}

#[test]
fn stochastic_misses_a_position_where_one_series_does() {
    let mut so: StochasticOscillator<f64> = StochasticOscillator::new(5, 3);
    so.store_row(&vec![Some(0.1), Some(0.2)]);
    so.store_row(&vec![Some(0.1), None]);
    so.store_row(&vec![None, Some(0.2)]);
    so.store_row(&vec![None, None]);
    assert_eq!(so.get_missing_indices(), vec![1, 2, 3]);
}

#[test]
fn stochastic_keeps_stored_values_and_uses_them_for_the_mean() {
    let kline_collection = stochastic_collection();
    let mut so: StochasticOscillator<f64> = StochasticOscillator::new(5, 3);
    let (k, d) = stochastic_expected();
    for i in 0..8 {
        if i == 7 {
            so.store_row(&vec![None, None]);
        } else {
            so.store_row(&vec![k[i], d[i]]);
        }
    }
    so.calculate(&ieee(), &kline_collection);
    assert_eq!(so.k_values, k);
    assert_eq!(so.d_values, d);
}

#[test]
fn column_names_are_made_of_tag_and_parameters() {
    let label_text = label(&2.5);
    let cases: Vec<(Indicator<f64>, Vec<&str>)> = vec![
        (Indicator::MovingAverage(MovingAverage::new(7)), vec!["i_ma_7"]),
        (Indicator::ExponentialMovingAverage(ExponentialMovingAverage::new(12)), vec!["i_ema_12"]),
        (Indicator::RelativeStrengthIndex(RelativeStrengthIndex::new(14)), vec!["i_rsi_14"]),
        (
            Indicator::MovingAverageConvergenceDivergence(MovingAverageConvergenceDivergence::new(
                12, 26, 9,
            )),
            vec!["i_macd_12_26_9_macd", "i_macd_12_26_9_signal", "i_macd_12_26_9_histogram"],
        ),
        (
            Indicator::BollingerBands(BollingerBands::new(20, 2.5, label_text)),
            vec!["i_bb_20_2.5_upper", "i_bb_20_2.5_middle", "i_bb_20_2.5_lower"],
        ),
        (Indicator::FibonacciRetracement(FibonacciRetracement::new(14)), vec!["i_fr_14"]),
        (
            Indicator::StochasticOscillator(StochasticOscillator::new(5, 3)),
            vec!["i_so_5_3_k", "i_so_5_3_d"],
        ),
        (Indicator::OnBalanceVolume(OnBalanceVolume::new(20)), vec!["i_obv_20"]),
        (
            Indicator::IchimokuCloud(IchimokuCloud::new(9, 26, 52)),
            vec![
                "i_ic_9_26_52_conversion",
                "i_ic_9_26_52_base",
                "i_ic_9_26_52_lagging",
                "i_ic_9_26_52_leading_a",
                "i_ic_9_26_52_leading_b",
            ],
        ),
    ];
    for (indicator, names) in cases.iter() {
        assert_eq!(&indicator.column_names(), names);
        assert_eq!(indicator.column_names().len(), indicator.get_values().len());
        assert_eq!(indicator.column_names(), indicator.column_names());
    }
}

#[test]
fn column_names_write_negative_and_large_periods() {
    let ma: MovingAverage<f64> = MovingAverage::new(-3);
    assert_eq!(ma.column_names(), vec!["i_ma_-3"]);
    let limit: MovingAverage<f64> = MovingAverage::new(i32::MIN);
    assert_eq!(limit.column_names(), vec!["i_ma_-2147483648"]);
    let top: MovingAverage<f64> = MovingAverage::new(i32::MAX);
    assert_eq!(top.column_names(), vec!["i_ma_2147483647"]);
    let zero: MovingAverage<f64> = MovingAverage::new(0);
    assert_eq!(zero.column_names(), vec!["i_ma_0"]);
    let hundred: MovingAverage<f64> = MovingAverage::new(100);
    assert_eq!(hundred.column_names(), vec!["i_ma_100"]);
}

#[test]
fn lookback_follows_the_parameters() {
    assert_eq!(Indicator::<f64>::MovingAverage(MovingAverage::new(7)).n_before_needed(), 7);
    assert_eq!(
        Indicator::<f64>::StochasticOscillator(StochasticOscillator::new(5, 3)).n_before_needed(),
        8
    );
    assert_eq!(
        Indicator::<f64>::MovingAverageConvergenceDivergence(
            MovingAverageConvergenceDivergence::new(12, 26, 9)
        )
        .n_before_needed(),
        26
    );
    assert_eq!(Indicator::<f64>::IchimokuCloud(IchimokuCloud::new(9, 26, 52)).n_before_needed(), 9);
    assert_eq!(
        Indicator::<f64>::BollingerBands(BollingerBands::new(20, 2.0, label(&2.0)))
            .n_before_needed(),
        20
    );
}

#[test]
fn stored_rows_fill_the_series_in_order() {
    let mut indicator: Indicator<f64> =
        Indicator::MovingAverageConvergenceDivergence(MovingAverageConvergenceDivergence::new(
            12, 26, 9,
        ));
    indicator.reserve_space(2);
    indicator.store_rows(&vec![
        vec![Some(1.0), Some(2.0), Some(3.0)],
        vec![Some(4.0), None, Some(6.0)],
    ]);
    let values = indicator.get_values();
    assert_eq!(values.len(), 3);
    assert_eq!(values[0], &vec![Some(1.0), Some(4.0)]);
    assert_eq!(values[1], &vec![Some(2.0), None]);
    assert_eq!(values[2], &vec![Some(3.0), Some(6.0)]);
    assert_eq!(indicator.get_missing_indices(), vec![1]);
}

#[test]
fn formula_fills_what_is_missing_from_the_lookback_window() {
    let kline_collection = moving_average_collection();
    let mut indicator: Indicator<f64> =
        Indicator::ExponentialMovingAverage(ExponentialMovingAverage::new(2));
    indicator.store_rows(&vec![vec![None]; 8]);
    indicator.store_rows(&vec![]);
    let formula = |window: &Vec<Kline<f64>>| vec![window[0].close - window[1].close];
    indicator.calculate(&ieee(), &kline_collection, &formula);
    let closes = [94098.6, 94122.1, 94165.9, 94160.5, 94173.3, 94206.8, 94154.8, 94134.5, 94036.9];
    let values = indicator.get_values();
    for i in 0..8 {
        assert_eq!(values[0][i], Some(closes[i + 1] - closes[i]));
    }
    assert!(indicator.get_missing_indices().is_empty());
}

#[test]
fn formula_fills_every_series_and_keeps_stored_values() {
    let kline_collection = stochastic_collection();
    let mut indicator: Indicator<f64> = Indicator::IchimokuCloud(IchimokuCloud::new(3, 26, 52));
    for i in 0..8 {
        if i == 2 {
            indicator.store_row(&vec![Some(1.0), Some(2.0), Some(3.0), Some(4.0), Some(5.0)]);
        } else if i == 3 {
            indicator.store_row(&vec![Some(1.0), None, Some(3.0), Some(4.0), Some(5.0)]);
        } else {
            indicator.store_row(&vec![None; 5]);
        }
    }
    let formula = |window: &Vec<Kline<f64>>| {
        let high = window.iter().map(|k| k.high).fold(0.0, f64::max);
        vec![high, window.len() as f64, window[0].low, window[2].low, -1.0]
    };
    assert_eq!(indicator.get_missing_indices(), vec![0, 1, 3, 4, 5, 6, 7]);
    indicator.calculate(&ieee(), &kline_collection, &formula);
    assert!(indicator.get_missing_indices().is_empty());
    let values = indicator.get_values();
    assert_eq!(values[0][2], Some(1.0));
    assert_eq!(values[1][2], Some(2.0));
    assert_eq!(values[0][7], Some(94667.5));
    assert_eq!(values[1][7], Some(3.0));
    assert_eq!(values[2][7], Some(94567.0));
    assert_eq!(values[3][7], Some(94620.0));
    assert_eq!(values[4][7], Some(-1.0));
    assert_eq!(values[1][3], Some(3.0));
    assert_eq!(values[0][0], Some(94741.5));
}

#[test]
fn signals_of_the_moving_average() {
    let kline_collection = moving_average_collection();
    let mut indicator: Indicator<f64> = Indicator::MovingAverage(MovingAverage::new(7));
    indicator.store_rows(&vec![vec![None]; 8]);
    indicator.calculate(&ieee(), &kline_collection, &|_: &Vec<Kline<f64>>| vec![0.0]);
    assert!(indicator.get_criteria().is_empty());
    assert_eq!(indicator.get_criteria_count(), 3);
    indicator.calculate_criteria(&ieee(), &kline_collection);
    let criteria = indicator.get_criteria();
    assert_eq!(criteria.len(), 3);
    let closes = kline_collection.get_close_prices_iter();
    let averages = moving_average_expected();
    let compare: Vec<bool> = (0..8).map(|i| closes[i] > averages[i].unwrap()).collect();
    assert_eq!(criteria[0].get_values(), &compare);
    assert_eq!(compare, vec![false, true, true, true, true, true, false, false]);
    assert_eq!(
        criteria[1].get_values(),
        &vec![false, true, false, false, false, false, false, false]
    );
    assert_eq!(
        criteria[2].get_values(),
        &vec![false, false, false, false, false, false, true, false]
    );
    indicator.calculate_criteria(&ieee(), &kline_collection);
    assert_eq!(indicator.get_criteria().len(), 3);
}

#[test]
fn other_indicators_derive_no_signals() {
    let kline_collection = stochastic_collection();
    let mut indicator: Indicator<f64> = Indicator::RelativeStrengthIndex(RelativeStrengthIndex::new(3));
    indicator.calculate_criteria(&ieee(), &kline_collection);
    assert!(indicator.get_criteria().is_empty());
    assert_eq!(indicator.get_criteria_count(), 2);
}

#[test]
fn catalogue_names_every_indicator() {
    let all = Indicator::<f64>::get_all_indicators_info();
    let names: Vec<&str> = all.iter().map(|info| info.struct_name.as_str()).collect();
    assert_eq!(
        names,
        vec![
            "MovingAverage",
            "ExponentialMovingAverage",
            "RelativeStrengthIndex",
            "MovingAverageConvergenceDivergence",
            "BollingerBands",
            "FibonacciRetracement",
            "StochasticOscillator",
            "OnBalanceVolume",
            "IchimokuCloud",
        ]
    );
    assert_eq!(all[0].name, "Moving Average");
    assert_eq!(all[0].description, "Calculates the moving average of the close prices");
    assert_eq!(all[0].parameters.len(), 1);
    assert_eq!(all[0].parameters[0].name, "period");
    assert_eq!(all[0].parameters[0].kind, "integer");
    assert_eq!(all[0].parameters[0].default, "20");
    assert_eq!(all[0].parameters[0].min, Some(String::from("2")));
    assert_eq!(all[0].parameters[0].max, None);
    assert_eq!(all[4].parameters[1].kind, "float");
    assert_eq!(all[4].parameters[1].default, "2.0");
    assert_eq!(all[8].parameters.len(), 3);
    assert_eq!(all[8].parameters[2].name, "Lagging Span");
    let one = Indicator::<f64>::StochasticOscillator(StochasticOscillator::new(5, 3)).information();
    assert_eq!(one.struct_name, all[6].struct_name);
    assert_eq!(one.parameters[1].default, "3");
}

fn same_definitions(a: &Vec<VariableDefinition<f64>>, b: &Vec<VariableDefinition<f64>>) -> bool {
    a.len() == b.len()
        && a.iter().zip(b.iter()).all(|pair| match pair {
            (VariableDefinition::Float(a1, a2), VariableDefinition::Float(b1, b2)) => {
                a1 == b1 && a2 == b2
            }
            (VariableDefinition::Integer(a1, a2), VariableDefinition::Integer(b1, b2)) => {
                a1 == b1 && a2 == b2
            }
            (VariableDefinition::Boolean, VariableDefinition::Boolean) => true,
            _ => false,
        })
}

#[test]
fn domains_of_the_parameters() {
    let ops = ieee();
    let ma: Indicator<f64> = Indicator::MovingAverage(MovingAverage::new(7));
    assert!(same_definitions(
        &ma.get_params_variable_definitions(&ops),
        &vec![VariableDefinition::Integer(2, 40)]
    ));
    assert!(same_definitions(
        &ma.get_all_variable_definitions(&ops),
        &vec![
            VariableDefinition::Integer(2, 40),
            VariableDefinition::Boolean,
            VariableDefinition::Boolean,
            VariableDefinition::Boolean,
        ]
    ));
    let bb: Indicator<f64> = Indicator::BollingerBands(BollingerBands::new(20, 2.0, label(&2.0)));
    assert!(same_definitions(
        &bb.get_all_variable_definitions(&ops),
        &vec![VariableDefinition::Integer(0, 40), VariableDefinition::Float(0.0, 400.0)]
    ));
    let fr: Indicator<f64> = Indicator::FibonacciRetracement(FibonacciRetracement::new(14));
    assert!(same_definitions(
        &fr.get_all_variable_definitions(&ops),
        &vec![VariableDefinition::Float(0.0, 0.0)]
    ));
    let ic: Indicator<f64> = Indicator::IchimokuCloud(IchimokuCloud::new(9, 26, 52));
    assert_eq!(ic.get_all_variable_definitions(&ops).len(), 5);
    let so: Indicator<f64> = Indicator::StochasticOscillator(StochasticOscillator::new(5, 3));
    assert!(same_definitions(
        &so.get_all_variable_definitions(&ops),
        &vec![VariableDefinition::Integer(0, 40), VariableDefinition::Integer(0, 40)]
    ));
}

fn parameter(name: &str, value: Variable<f64>) -> Parameter<f64> {
    Parameter { name: String::from(name), value }
}

#[test]
fn indicators_are_made_from_name_and_parameters() {
    let made = Indicator::new_from_struct_name(
        "MovingAverage",
        &vec![parameter("other", Variable::Integer(1)), parameter("period", Variable::Integer(9))],
        &label,
    );
    match made {
        Some(Indicator::MovingAverage(ma)) => {
            assert_eq!(ma.period, 9);
            assert!(ma.values.is_empty());
            assert!(ma.criteria.is_empty());
            assert_eq!(ma.criteria_count, 3);
        }
        _ => panic!("a moving average was expected"),
    }
    let made = Indicator::new_from_struct_name(
        "BollingerBands",
        &vec![parameter("deviation", Variable::Float(1.5)), parameter("period", Variable::Integer(20))],
        &label,
    );
    match made {
        Some(Indicator::BollingerBands(bb)) => {
            assert_eq!(bb.period, 20);
            assert_eq!(bb.deviation, 1.5);
            assert_eq!(bb.deviation_text, "1.5");
        }
        _ => panic!("Bollinger bands were expected"),
    }
    let made = Indicator::new_from_struct_name(
        "IchimokuCloud",
        &vec![
            parameter("conversion_period", Variable::Integer(9)),
            parameter("base_period", Variable::Integer(26)),
            parameter("lagging_span", Variable::Integer(52)),
        ],
        &label,
    );
    match made {
        Some(Indicator::IchimokuCloud(ic)) => {
            assert_eq!((ic.conversion_period, ic.base_period, ic.lagging_span), (9, 26, 52));
            assert_eq!(ic.criteria_count, 2);
        }
        _ => panic!("an Ichimoku cloud was expected"),
    }
}

#[test]
fn no_indicator_is_made_of_an_unknown_name_or_without_a_parameter() {
    let period = vec![parameter("period", Variable::Integer(9))];
    assert!(Indicator::new_from_struct_name("movingaverage", &period, &label).is_none());
    assert!(Indicator::new_from_struct_name("", &period, &label).is_none());
    assert!(Indicator::<f64>::new_from_struct_name("MovingAverage", &vec![], &label).is_none());
    assert!(Indicator::new_from_struct_name("StochasticOscillator", &period, &label).is_none());
    assert!(Indicator::new_from_struct_name("BollingerBands", &period, &label).is_none());
    assert!(Indicator::new_from_struct_name(
        "MovingAverageConvergenceDivergence",
        &vec![
            parameter("short_period", Variable::Integer(1)),
            parameter("long_period", Variable::Integer(2)),
        ],
        &label
    )
    .is_none());
    for name in ["ExponentialMovingAverage", "RelativeStrengthIndex", "FibonacciRetracement", "OnBalanceVolume"] {
        assert!(Indicator::new_from_struct_name(name, &period, &label).is_some());
    }
}

#[test]
fn the_first_parameter_of_a_name_counts() {
    let made = Indicator::new_from_struct_name(
        "OnBalanceVolume",
        &vec![parameter("period", Variable::Integer(3)), parameter("period", Variable::Integer(4))],
        &label,
    );
    match made {
        Some(Indicator::OnBalanceVolume(obv)) => assert_eq!(obv.period, 3),
        _ => panic!("an on-balance volume was expected"),
    }
}

#[test]
fn a_candidate_solution_gives_a_new_indicator() {
    let mut old: Indicator<f64> = Indicator::MovingAverage(MovingAverage::new(7));
    old.store_row(&vec![Some(1.0)]);
    let made = old.clone_with_new_parameters(
        &vec![Variable::Integer(12), Variable::Boolean(true), Variable::Boolean(false)],
        &label,
    );
    match made {
        Indicator::MovingAverage(ma) => {
            assert_eq!(ma.period, 12);
            assert!(ma.values.is_empty());
            assert_eq!(ma.criteria_count, 3);
        }
        _ => panic!("a moving average was expected"),
    }
    let so: Indicator<f64> = Indicator::StochasticOscillator(StochasticOscillator::new(5, 3));
    match so.clone_with_new_parameters(&vec![Variable::Integer(8), Variable::Integer(2)], &label) {
        Indicator::StochasticOscillator(so) => assert_eq!((so.k_period, so.d_period), (8, 2)),
        _ => panic!("a stochastic oscillator was expected"),
    }
    let bb: Indicator<f64> = Indicator::BollingerBands(BollingerBands::new(20, 2.0, label(&2.0)));
    match bb.clone_with_new_parameters(&vec![Variable::Integer(10), Variable::Float(3.25)], &label) {
        Indicator::BollingerBands(bb) => {
            assert_eq!(bb.period, 10);
            assert_eq!(bb.deviation, 3.25);
            assert_eq!(bb.column_names()[0], "i_bb_10_3.25_upper");
        }
        _ => panic!("Bollinger bands were expected"),
    }
}

#[test]
fn rows_to_store_hold_one_value_for_each_column() {
    let mut kline_collection = stochastic_collection();
    for (i, kline) in kline_collection.training.iter_mut().enumerate() {
        kline.open_time = 1000 + i as i64;
    }
    for (i, kline) in kline_collection.validation.iter_mut().enumerate() {
        kline.open_time = 2000 + i as i64;
    }
    let mut indicator: Indicator<f64> = Indicator::StochasticOscillator(StochasticOscillator::new(5, 3));
    indicator.store_rows(&vec![vec![None, None]; 8]);
    indicator.calculate(&ieee(), &kline_collection, &|_: &Vec<Kline<f64>>| vec![]);
    let rows = indicator.rows_to_store(&kline_collection);
    let (k, d) = stochastic_expected();
    assert_eq!(rows.len(), 8);
    let times = [1000, 1001, 1002, 1003, 1004, 1005, 2000, 2001];
    for i in 0..8 {
        assert_eq!(rows[i].open_time, times[i]);
        assert_eq!(rows[i].values.len(), indicator.column_names().len());
        assert_eq!(rows[i].values, vec![k[i].unwrap(), d[i].unwrap()]);
    }
}

#[test]
fn stored_rows_are_checked_against_the_window() {
    assert_eq!(check_rows(8, 8), Ok(()));
    assert_eq!(check_rows(7, 8), Err(RetrieveError::MissingRows));
    assert_eq!(check_rows(0, -1), Err(RetrieveError::MissingRows));
    assert_eq!(check_rows(0, 0), Ok(()));
}

#[test]
fn rows_without_any_value_are_found() {
    let rows: Vec<Vec<Option<f64>>> = vec![
        vec![None, None],
        vec![Some(1.0), None],
        vec![None, Some(1.0)],
        vec![None, None],
        vec![Some(1.0), Some(2.0)],
    ];
    assert_eq!(absent_rows(&rows, 2), vec![0, 3]);
    assert_eq!(absent_rows(&rows, 1), vec![0, 2, 3]);
    assert_eq!(absent_rows(&rows, 0), vec![0, 1, 2, 3, 4]);
    assert!(absent_rows::<f64>(&vec![], 2).is_empty());
}

#[test]
fn the_most_demanding_indicator_is_the_last_of_the_greatest_lookback() {
    use_most_demanding();
}

fn use_most_demanding() {
    let indicators: Vec<Indicator<f64>> = vec![
        Indicator::MovingAverage(MovingAverage::new(7)),
        Indicator::StochasticOscillator(StochasticOscillator::new(5, 4)),
        Indicator::RelativeStrengthIndex(RelativeStrengthIndex::new(9)),
        Indicator::MovingAverage(MovingAverage::new(3)),
    ];
    assert_eq!(backend::indicators::persistence::most_demanding(&indicators), Some(2));
    assert_eq!(backend::indicators::persistence::most_demanding(&indicators[..2].to_vec()), Some(1));
    assert_eq!(
        backend::indicators::persistence::most_demanding(&Vec::<Indicator<f64>>::new()),
        None
    );
}

#[test]
fn no_indicator_is_made_of_a_parameter_of_another_kind() {
    let real = vec![parameter("period", Variable::Float(9.0))];
    assert!(Indicator::new_from_struct_name("MovingAverage", &real, &label).is_none());
    let wide = vec![parameter("period", Variable::Integer(i64::from(i32::MAX) + 1))];
    assert!(Indicator::new_from_struct_name("OnBalanceVolume", &wide, &label).is_none());
    let low = vec![parameter("period", Variable::Integer(i64::from(i32::MIN) - 1))];
    assert!(Indicator::new_from_struct_name("OnBalanceVolume", &low, &label).is_none());
    let edge = vec![parameter("period", Variable::Integer(i64::from(i32::MIN)))];
    assert!(Indicator::new_from_struct_name("OnBalanceVolume", &edge, &label).is_some());
    let whole = vec![
        parameter("period", Variable::Integer(20)),
        parameter("deviation", Variable::Integer(2)),
    ];
    assert!(Indicator::new_from_struct_name("BollingerBands", &whole, &label).is_none());
    let flag = vec![
        parameter("k_period", Variable::Integer(5)),
        parameter("d_period", Variable::Boolean(true)),
    ];
    assert!(Indicator::new_from_struct_name("StochasticOscillator", &flag, &label).is_none());
}

#[test]
fn the_lookback_is_given_where_it_is_a_count() {
    let so: Indicator<f64> = Indicator::StochasticOscillator(StochasticOscillator::new(5, 3));
    assert_eq!(so.try_n_before_needed(), Some(8));
    let wide: Indicator<f64> = Indicator::StochasticOscillator(StochasticOscillator::new(i32::MAX, 1));
    assert_eq!(wide.try_n_before_needed(), None);
    let negative: Indicator<f64> = Indicator::MovingAverage(MovingAverage::new(-1));
    assert_eq!(negative.try_n_before_needed(), None);
    let ma: Indicator<f64> = Indicator::MovingAverage(MovingAverage::new(7));
    assert_eq!(ma.try_n_before_needed(), Some(7));
}

#[test]
fn variables_are_tested_before_they_are_decoded() {
    let ma: Indicator<f64> = Indicator::MovingAverage(MovingAverage::new(7));
    assert!(ma.can_decode(&vec![Variable::Integer(9), Variable::Boolean(true)]));
    assert!(!ma.can_decode(&vec![]));
    assert!(!ma.can_decode(&vec![Variable::Float(9.0)]));
    assert!(!ma.can_decode(&vec![Variable::Integer(1 << 40)]));
    let bands: Indicator<f64> =
        Indicator::BollingerBands(BollingerBands::new(20, 2.0, String::from("2.0")));
    assert!(bands.can_decode(&vec![Variable::Integer(10), Variable::Float(1.5)]));
    assert!(!bands.can_decode(&vec![Variable::Integer(10), Variable::Integer(2)]));
    assert!(!bands.can_decode(&vec![Variable::Integer(10)]));
    let so: Indicator<f64> = Indicator::StochasticOscillator(StochasticOscillator::new(5, 3));
    assert!(so.can_decode(&vec![Variable::Integer(5), Variable::Integer(3)]));
    assert!(!so.can_decode(&vec![Variable::Integer(5)]));
}
