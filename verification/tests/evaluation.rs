use backend::arithmetic::Arithmetic;
use backend::evaluation::{choose_algorithm, count_true, objectives_of, partition, Metaheuristic};
use backend::intervals::CryptoInterval;
use backend::indicators::making::Parameter;
use backend::indicators::types::Indicator;
use backend::metaheuristic::descent::MultiObjectiveDescent;
use backend::metaheuristic::nsga2::NSGAII;
use backend::metaheuristic::objects::Variable;
use backend::objects::CryptoListComplete;
use backend::tasks::{checkpoint, prepare, IndicatorRequest, FORCE_FETCH_DEFAULT};

fn ieee() -> Arithmetic<
    f64,
    impl Fn(&f64, &f64) -> f64,
    impl Fn(&f64, &f64) -> f64,
    impl Fn(&f64, &f64) -> f64,
    impl Fn(&f64, &f64) -> bool,
    impl Fn(i64) -> f64,
> {
    Arithmetic {
        add: |a: &f64, b: &f64| a + b,
        sub: |a: &f64, b: &f64| a - b,
        div: |a: &f64, b: &f64| a / b,
        less: |a: &f64, b: &f64| a < b,
        from_int: |n: i64| n as f64,
        largest: f64::MAX,
        infinity: f64::INFINITY,
    }
}

fn label(number: &f64) -> String {
    format!("{:?}", number).to_lowercase()
}

#[test]
fn variables_are_split_by_the_lengths_of_the_parts() {
    let variables: Vec<Variable<f64>> = (0..6).map(Variable::Integer).collect();
    let parts = partition(&variables, &vec![2, 0, 3]);
    let shown: Vec<String> = parts.iter().map(|p| format!("{:?}", p)).collect();
    assert_eq!(
        shown,
        vec!["[Integer(0), Integer(1)]", "[]", "[Integer(2), Integer(3), Integer(4)]"]
    );
    assert!(partition(&variables, &vec![]).is_empty());
    assert_eq!(partition(&variables, &vec![6])[0].len(), 6);
}

#[test]
fn a_signal_is_counted() {
    assert_eq!(count_true(&vec![true, false, true, true]), 3);
    assert_eq!(count_true(&vec![]), 0);
    assert_eq!(count_true(&vec![false, false]), 0);
    assert_eq!(objectives_of(&ieee(), &vec![true, false, true, true]), vec![3.0, 0.0, 0.0]);
    assert_eq!(objectives_of(&ieee(), &vec![]), vec![0.0, 0.0, 0.0]);
}

fn nsga() -> Result<NSGAII<f64>, String> {
    Ok(NSGAII::new(4, vec![], 3, 0.1, 0.9))
}

fn descent() -> Result<MultiObjectiveDescent<f64>, String> {
    Ok(MultiObjectiveDescent::new(0.5, vec![], 1000, 7, 3))
}

#[test]
fn the_optimizer_is_chosen_by_its_name() {
    match choose_algorithm("NSGA-II", nsga(), descent()) {
        Ok(Metaheuristic::NSGAII(algorithm)) => assert_eq!(algorithm.population_size, 4),
        _ => panic!("NSGA-II was expected"),
    }
    match choose_algorithm("Multi-Objective Simple Descent", nsga(), descent()) {
        Ok(Metaheuristic::MultiObjectiveDescent(algorithm)) => assert_eq!(algorithm.archive_size, 7),
        _ => panic!("the descent was expected"),
    }
    match choose_algorithm("NSGA-II", nsga(), Err(String::from("no"))) {
        Ok(Metaheuristic::NSGAII(_)) => {}
        _ => panic!("NSGA-II was expected"),
    }
}

#[test]
fn the_choice_fails_with_the_reason() {
    let failed = choose_algorithm("NSGA-II", Err(String::from("no")), descent());
    assert_eq!(failed.err().unwrap(), "Error creating NSGA-II algorithm");
    let failed = choose_algorithm("Multi-Objective Simple Descent", nsga(), Err(String::from("no")));
    assert_eq!(failed.err().unwrap(), "Error creating Multi-Objective Simple Descent algorithm");
    let unknown = choose_algorithm("nsga-ii", nsga(), descent());
    assert_eq!(unknown.err().unwrap(), "Unknown algorithm");
    let unknown = choose_algorithm::<f64>("", Err(String::from("a")), Err(String::from("b")));
    assert_eq!(unknown.err().unwrap(), "Unknown algorithm");
}

fn list(limit_count: i32) -> CryptoListComplete {
    CryptoListComplete {
        id: 1,
        hidden: false,
        name: String::from("majors"),
        interval: CryptoInterval::Int15m,
        limit_count,
        kind: String::from("manual"),
        crypto_symbols: vec![1, 2],
    }
}

fn request(name: &str, period: Option<i64>) -> IndicatorRequest<f64> {
    IndicatorRequest {
        struct_name: String::from(name),
        parameters: period
            .map(|p| vec![Parameter { name: String::from("period"), value: Variable::Integer(p) }])
            .unwrap_or_default(),
    }
}

#[test]
fn a_task_is_prepared_with_its_indicators_and_window() {
    let requests = vec![request("MovingAverage", Some(7)), request("RelativeStrengthIndex", Some(14))];
    let plan = prepare(true, Some(&list(96)), true, &requests, false, None, 0.8, &label).unwrap();
    assert_eq!(plan.limit_minutes, 96 * 15);
    assert_eq!(plan.force_fetch, FORCE_FETCH_DEFAULT);
    assert!(!plan.force_fetch);
    assert_eq!(plan.training_percentage, 0.8);
    assert_eq!(plan.indicators.len(), 2);
    match (&plan.indicators[0], &plan.indicators[1]) {
        (Indicator::MovingAverage(ma), Indicator::RelativeStrengthIndex(rsi)) => {
            assert_eq!(ma.period, 7);
            assert_eq!(rsi.period, 14);
        }
        _ => panic!("a moving average and a relative strength index were expected"),
    }
    let forced = prepare(true, Some(&list(10)), true, &vec![], false, Some(true), 0.5, &label).unwrap();
    assert!(forced.force_fetch);
    assert!(forced.indicators.is_empty());
    assert_eq!(forced.limit_minutes, 150);
}

#[test]
fn a_task_is_refused_for_the_first_reason_that_holds() {
    let good = vec![request("MovingAverage", Some(7))];
    let bad = vec![request("MovingAverage", Some(7)), request("MovingAverage", None)];
    let unknown = vec![request("Nothing", Some(7))];
    let refused = prepare(true, Some(&list(5)), false, &bad, true, None, 0.8, &label);
    assert_eq!(refused.err().unwrap(), "Indicator combination not found");
    let refused = prepare(true, Some(&list(5)), true, &bad, true, None, 0.8, &label);
    assert_eq!(refused.err().unwrap(), "Error creating indicator");
    let refused = prepare(true, Some(&list(50)), true, &unknown, false, None, 0.8, &label);
    assert_eq!(refused.err().unwrap(), "Error creating indicator");
    let refused = prepare(true, Some(&list(5)), true, &good, true, None, 0.8, &label);
    assert_eq!(refused.err().unwrap(), "Task was cancelled");
    let refused = prepare(true, Some(&list(9)), true, &good, false, None, 0.8, &label);
    assert_eq!(refused.err().unwrap(), "limit_minutes must be at least 10 times the interval");
    assert!(prepare(true, Some(&list(10)), true, &good, false, None, 0.8, &label).is_ok());
}

#[test]
fn a_task_without_what_it_names_is_refused() {
    let good = vec![request("MovingAverage", Some(7))];
    let refused = prepare(false, None, false, &good, true, None, 0.8, &label);
    assert_eq!(refused.err().unwrap(), "MH object not found");
    let refused = prepare(false, Some(&list(50)), true, &good, false, None, 0.8, &label);
    assert_eq!(refused.err().unwrap(), "MH object not found");
    let refused = prepare(true, None, false, &good, false, None, 0.8, &label);
    assert_eq!(refused.err().unwrap(), "Crypto list not found");
    let refused = prepare(true, Some(&list(50)), false, &good, false, None, 0.8, &label);
    assert_eq!(refused.err().unwrap(), "Indicator combination not found");
}

#[test]
fn a_parameter_of_another_kind_makes_no_indicator() {
    let real = vec![IndicatorRequest {
        struct_name: String::from("MovingAverage"),
        parameters: vec![Parameter { name: String::from("period"), value: Variable::Float(7.0) }],
    }];
    let refused = prepare(true, Some(&list(50)), true, &real, false, None, 0.8, &label);
    assert_eq!(refused.err().unwrap(), "Error creating indicator");
    let wide = vec![request("MovingAverage", Some(1 << 31))];
    let refused = prepare(true, Some(&list(50)), true, &wide, false, None, 0.8, &label);
    assert_eq!(refused.err().unwrap(), "Error creating indicator");
    let fits = vec![request("MovingAverage", Some((1 << 31) - 1))];
    assert!(prepare(true, Some(&list(50)), true, &fits, false, None, 0.8, &label).is_ok());
}

#[test]
fn a_cancelled_task_ends_with_the_same_error_wherever_it_is_asked() {
    assert_eq!(checkpoint(true).err().unwrap(), "Task was cancelled");
    assert!(checkpoint(false).is_ok());
    let good = vec![request("MovingAverage", Some(7))];
    let refused = prepare(true, Some(&list(50)), true, &good, true, None, 0.8, &label);
    assert_eq!(refused.err().unwrap(), checkpoint(true).err().unwrap());
}
