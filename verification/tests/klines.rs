use backend::intervals::CryptoInterval;
use backend::klines::{
    check_klines_collection_integrity, get_table_name_collection, Extension, Kline,
    KlineCollection, RetrievalPlan,
};
use chrono::{TimeZone, Utc};

fn create_sample_kline(time: i64) -> Kline<f64> {
    Kline {
        open_time: time,
        open: 100.0,
        high: 110.0,
        low: 90.0,
        close: 105.0,
        volume: 1000.0,
        close_time: time + chrono::Duration::minutes(1).num_milliseconds(),
        quote_asset_volume: 105000.0,
        number_of_trades: 100,
        taker_buy_base_asset_volume: 600.0,
        taker_buy_quote_asset_volume: 63000.0,
    }
}

fn base_time() -> i64 {
    Utc.timestamp_opt(1609459200, 0).unwrap().timestamp_millis()
}

fn minutes(n: i64) -> i64 {
    chrono::Duration::minutes(n).num_milliseconds()
}

fn create_test_collection() -> KlineCollection<f64> {
    let mut collection = KlineCollection::new(1.0);
    collection.symbol = String::from("BTCUSDT");
    collection.interval = CryptoInterval::Int1m;
    collection.training_percentage = 0.7;
    for i in 0..3 {
        collection.training.push(create_sample_kline(base_time() + minutes(i)));
    }
    for i in 3..5 {
        collection.validation.push(create_sample_kline(base_time() + minutes(i)));
    }
    for i in -2..0 {
        collection.past.push(create_sample_kline(base_time() + minutes(i)));
    }
    collection
}

#[test]
fn test_kline_creation() {
    let time = Utc::now().timestamp_millis();
    let kline = create_sample_kline(time);

    assert_eq!(kline.open, 100.0);
    assert_eq!(kline.high, 110.0);
    assert_eq!(kline.low, 90.0);
    assert_eq!(kline.close, 105.0);
    assert_eq!(kline.volume, 1000.0);
}

#[test]
fn test_collection_new() {
    let collection: KlineCollection<f64> = KlineCollection::new(1.0);
    assert_eq!(collection.symbol, "");
    assert_eq!(collection.training_percentage, 1.0);
    assert!(collection.training.is_empty());
    assert!(collection.validation.is_empty());
    assert!(collection.past.is_empty());
}

#[test]
fn test_get_normal_index() {
    let collection = create_test_collection();

    let first = collection.get(0).unwrap();
    assert_eq!(first.open, 100.0);

    let fourth = collection.get(3).unwrap();
    assert_eq!(fourth.open, 100.0);

    let past = collection.get(5).unwrap();
    assert_eq!(past.open, 100.0);

    assert!(collection.get(-1).is_none());
    assert!(collection.get(7).is_none());
}

#[test]
fn test_get_reverse_index() {
    let collection = create_test_collection();

    let last = collection.get_rev(0).unwrap();
    assert_eq!(last.open, 100.0);

    let training = collection.get_rev(3).unwrap();
    assert_eq!(training.open, 100.0);

    let past = collection.get_rev(5).unwrap();
    assert_eq!(past.open, 100.0);

    assert!(collection.get_rev(-1).is_none());
    assert!(collection.get_rev(7).is_none());
}

#[test]
fn test_get_close_prices_iter() {
    let collection = create_test_collection();
    let close_prices: Vec<f64> = collection.get_close_prices_iter();

    assert_eq!(close_prices.len(), 5);
    assert!(close_prices.iter().all(|&price| price == 105.0));
}

#[test]
fn test_get_length() {
    let collection = create_test_collection();
    assert_eq!(collection.get_length(), 5);
}

#[test]
fn test_get_limit_minutes() {
    let collection = create_test_collection();
    assert_eq!(collection.get_limit_minutes(), 5);
}

#[test]
fn test_get_first_last_times() {
    let collection = create_test_collection();
    let now = Utc::now().timestamp_millis();

    println!("{:?} {:?} {:?}", collection.past, collection.training, collection.validation);

    assert_eq!(collection.get_first_open_time(now), base_time());
    assert_eq!(collection.get_last_open_time(now), base_time() + minutes(4));
    assert_eq!(collection.get_first_past_open_time(now), base_time() - minutes(2));
}

#[test]
fn test_integrity() {
    let collection = create_test_collection();
    collection.check_integrity();
}

#[test]
fn forward_index_runs_through_training_validation_and_past() {
    let collection = create_test_collection();
    let expected = [0, 1, 2, 3, 4, -2, -1];
    for (i, offset) in expected.iter().enumerate() {
        assert_eq!(collection.get(i as i32).unwrap().open_time, base_time() + minutes(*offset));
    }
    assert!(collection.get(6).is_some());
}

#[test]
fn reverse_index_runs_from_the_latest_to_the_oldest() {
    let collection = create_test_collection();
    let expected = [4, 3, 2, 1, 0, -1, -2];
    for (i, offset) in expected.iter().enumerate() {
        assert_eq!(collection.get_rev(i as i32).unwrap().open_time, base_time() + minutes(*offset));
    }
}

#[test]
fn length_leaves_the_past_out() {
    let mut collection = create_test_collection();
    collection.past.push(create_sample_kline(base_time() - minutes(3)));
    assert_eq!(collection.get_length(), 5);
    assert_eq!(collection.get_length() as usize, collection.training.len() + collection.validation.len());
}

#[test]
fn limit_minutes_scale_with_the_interval() {
    let mut collection = create_test_collection();
    collection.interval = CryptoInterval::Int4h;
    assert_eq!(collection.get_limit_minutes(), 1200);
}

#[test]
fn times_of_an_empty_collection_are_now() {
    let collection: KlineCollection<f64> = KlineCollection::new(0.5);
    assert_eq!(collection.get_first_open_time(77), 77);
    assert_eq!(collection.get_last_open_time(78), 78);
    assert_eq!(collection.get_first_past_open_time(79), 79);
}

#[test]
fn times_fall_back_to_the_other_part() {
    let mut collection: KlineCollection<f64> = KlineCollection::new(0.5);
    collection.training.push(create_sample_kline(1000));
    collection.training.push(create_sample_kline(61000));
    assert_eq!(collection.get_last_open_time(0), 61000);
    assert_eq!(collection.get_first_open_time(0), 1000);
    assert_eq!(collection.get_first_past_open_time(0), 1000);
    let mut other: KlineCollection<f64> = KlineCollection::new(0.5);
    other.validation.push(create_sample_kline(5000));
    assert_eq!(other.get_first_open_time(0), 5000);
    assert_eq!(other.get_last_open_time(0), 5000);
}

#[test]
fn integrity_holds_of_evenly_spaced_klines() {
    let collection = create_test_collection();
    assert!(collection.check_integrity());
    assert!(check_klines_collection_integrity(&collection));
}

#[test]
fn integrity_fails_on_a_gap() {
    let mut collection = create_test_collection();
    collection.validation.push(create_sample_kline(base_time() + minutes(6)));
    assert!(!collection.check_integrity());
}

#[test]
fn integrity_fails_on_a_repeated_kline() {
    let mut collection = create_test_collection();
    collection.training.insert(1, create_sample_kline(base_time()));
    assert!(!collection.check_integrity());
}

#[test]
fn integrity_fails_on_another_interval() {
    let mut collection = create_test_collection();
    collection.interval = CryptoInterval::Int5m;
    assert!(!collection.check_integrity());
}

#[test]
fn integrity_is_exact_to_the_millisecond() {
    let mut collection: KlineCollection<f64> = KlineCollection::new(1.0);
    collection.training.push(create_sample_kline(-60_001));
    collection.training.push(create_sample_kline(-1));
    assert!(collection.check_integrity());
    let mut other: KlineCollection<f64> = KlineCollection::new(1.0);
    other.training.push(create_sample_kline(-60_001));
    other.training.push(create_sample_kline(0));
    assert!(!other.check_integrity());
    let mut late: KlineCollection<f64> = KlineCollection::new(1.0);
    late.past.push(create_sample_kline(0));
    late.training.push(create_sample_kline(60_500));
    assert!(!late.check_integrity());
    assert!(!check_klines_collection_integrity(&late));
}

#[test]
fn integrity_holds_of_an_empty_collection() {
    let collection: KlineCollection<f64> = KlineCollection::new(1.0);
    assert!(collection.check_integrity());
}

#[test]
fn table_name_of_a_collection() {
    let mut collection = create_test_collection();
    collection.interval = CryptoInterval::Int1M;
    assert_eq!(get_table_name_collection(&collection), "klines_btcusdt_int1mo");
}

#[test]
fn fill_splits_the_rows_in_ascending_order() {
    let mut collection: KlineCollection<f64> = KlineCollection::new(0.75);
    let rows: Vec<Kline<f64>> = (0..8).rev().map(|i| create_sample_kline(minutes(i))).collect();
    collection.fill(rows, 6, String::from("ETHUSDT"), CryptoInterval::Int1m);
    assert_eq!(collection.symbol, "ETHUSDT");
    assert_eq!(collection.training.len(), 6);
    assert_eq!(collection.validation.len(), 2);
    assert_eq!(collection.get_length(), 8);
    for i in 0..6 {
        assert_eq!(collection.training[i].open_time, minutes(i as i64));
    }
    assert_eq!(collection.validation[0].open_time, minutes(6));
    assert_eq!(collection.validation[1].open_time, minutes(7));
    assert!(collection.check_integrity());
}

#[test]
fn fill_trains_on_everything_where_more_is_asked_for() {
    let mut collection: KlineCollection<f64> = KlineCollection::new(1.0);
    let rows: Vec<Kline<f64>> = (0..3).rev().map(|i| create_sample_kline(minutes(i))).collect();
    collection.fill(rows, 10, String::from("X"), CryptoInterval::Int1m);
    assert_eq!(collection.training.len(), 3);
    assert!(collection.validation.is_empty());
}

#[test]
fn fill_of_nothing_changes_no_klines() {
    let mut collection: KlineCollection<f64> = KlineCollection::new(1.0);
    collection.fill(Vec::new(), 0, String::from("X"), CryptoInterval::Int1h);
    assert_eq!(collection.get_length(), 0);
    assert_eq!(collection.interval, CryptoInterval::Int1h);
}

#[test]
fn extend_past_prepends_in_ascending_order() {
    let mut collection = create_test_collection();
    let rows: Vec<Kline<f64>> =
        (-5..-2).rev().map(|i| create_sample_kline(base_time() + minutes(i))).collect();
    collection.extend_past(rows, String::from("BTCUSDT"), CryptoInterval::Int1m);
    assert_eq!(collection.past.len(), 5);
    for (i, offset) in (-5..0).enumerate() {
        assert_eq!(collection.past[i].open_time, base_time() + minutes(offset));
    }
    assert_eq!(collection.get_length(), 5);
    assert!(collection.check_integrity());
}

#[test]
fn plan_asks_the_exchange_for_a_short_table() {
    let collection: KlineCollection<f64> = KlineCollection::new(0.8);
    let plan =
        collection.plan_retrieval(&CryptoInterval::Int5m, 500, false, true, 40, None, None, 1);
    assert_eq!(plan, RetrievalPlan { acquire: true, acquire_limit: 100, only_before: 1, limit: 100 });
}

#[test]
fn plan_reads_a_full_table_without_asking() {
    let collection: KlineCollection<f64> = KlineCollection::new(0.8);
    let plan = collection.plan_retrieval(
        &CryptoInterval::Int5m,
        503,
        false,
        true,
        100,
        Some(99),
        None,
        1,
    );
    assert_eq!(
        plan,
        RetrievalPlan { acquire: false, acquire_limit: 100, only_before: 99, limit: 100 }
    );
}

#[test]
fn plan_asks_where_forced_missing_or_empty() {
    let collection: KlineCollection<f64> = KlineCollection::new(0.8);
    let interval = CryptoInterval::Int1m;
    assert!(collection.plan_retrieval(&interval, 10, true, true, 100, None, None, 1).acquire);
    assert!(collection.plan_retrieval(&interval, 10, false, false, 100, None, None, 1).acquire);
    assert!(collection.plan_retrieval(&interval, 0, false, true, 0, None, None, 1).acquire);
    assert!(!collection.plan_retrieval(&interval, 10, false, true, 10, None, None, 1).acquire);
}

#[test]
fn plan_rounds_a_negative_window_towards_zero() {
    let collection: KlineCollection<f64> = KlineCollection::new(0.8);
    let plan =
        collection.plan_retrieval(&CryptoInterval::Int5m, -7, false, true, 5, None, None, 1);
    assert_eq!(plan.limit, -1);
}

#[test]
fn plan_of_an_extension_reads_what_is_missing_before_the_oldest() {
    let collection = create_test_collection();
    let extension = Extension { additional_klines: 7, stored_before_first: 6 };
    let plan = collection.plan_retrieval(
        &CryptoInterval::Int1m,
        20,
        false,
        true,
        900,
        None,
        Some(extension),
        1,
    );
    assert_eq!(
        plan,
        RetrievalPlan {
            acquire: true,
            acquire_limit: 20,
            only_before: base_time() - minutes(2),
            limit: 5,
        }
    );
}

#[test]
fn plan_of_an_extension_skips_the_exchange_where_enough_is_stored() {
    let collection = create_test_collection();
    let extension = Extension { additional_klines: 7, stored_before_first: 7 };
    let plan = collection.plan_retrieval(
        &CryptoInterval::Int1m,
        20,
        true,
        true,
        9,
        None,
        Some(extension),
        1,
    );
    assert!(!plan.acquire);
    assert_eq!(plan.limit, 5);
}

#[test]
fn extended_limit_reaches_from_the_wanted_past_to_now() {
    let collection = create_test_collection();
    let now = base_time() + minutes(4) + 150_000;
    assert_eq!(collection.get_extended_limit_minutes(7, now), 5 + 2 + 7);
}

#[test]
fn a_collection_with_a_gap_is_rejected() {
    let collection = create_test_collection();
    assert!(collection.require_integrity().is_ok());
    assert!(collection.is_countable());
    let mut broken = create_test_collection();
    broken.validation.push(create_sample_kline(base_time() + minutes(60)));
    assert_eq!(broken.require_integrity().err().unwrap(), "Klines collection integrity failed");
}
