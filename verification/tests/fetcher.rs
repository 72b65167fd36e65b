use backend::fetcher::{accepts_row, acquisition, FetchState, KlinesFetchType, COLD_START_SLACK};

#[test]
fn a_forward_walk_begins_at_the_latest_stored_time() {
    let state = FetchState::begin(KlinesFetchType::Recent, 40, Some(100), true, 1000, 9000, 5);
    assert_eq!(state.time_param, 9000);
    assert_eq!(state.table_length, 40);
    let request = state.next_request().unwrap();
    assert_eq!(request.time_name, "startTime");
    assert_eq!(request.time_param, 9000);
    assert_eq!(request.limit, "5");
}

#[test]
fn a_backward_walk_begins_at_the_oldest_stored_time() {
    let state = FetchState::begin(KlinesFetchType::Older, 40, None, false, 1000, 9000, 5);
    assert_eq!(state.time_param, 1000);
    let request = state.next_request().unwrap();
    assert_eq!(request.time_name, "endTime");
    assert_eq!(request.time_param, 1000);
}

#[test]
fn a_cold_start_reaches_a_hundred_days_beyond_now() {
    let now = 1735325040000u64;
    let state = FetchState::begin(KlinesFetchType::Older, 0, Some(10), false, 1000, 9000, now);
    assert_eq!(state.time_param, now + 100 * 24 * 60 * 60 * 1000);
    assert_eq!(COLD_START_SLACK, 8_640_000_000);
}

#[test]
fn the_limit_ends_the_walk_unless_forced() {
    let done = FetchState::begin(KlinesFetchType::Older, 10, Some(10), false, 1000, 9000, 5);
    assert!(done.next_request().is_none());
    let forced = FetchState::begin(KlinesFetchType::Recent, 10, Some(10), true, 1000, 9000, 5);
    assert!(forced.next_request().is_some());
    let short = FetchState::begin(KlinesFetchType::Older, 9, Some(10), false, 1000, 9000, 5);
    assert!(short.next_request().is_some());
    let free = FetchState::begin(KlinesFetchType::Older, 1_000_000, None, false, 1000, 9000, 5);
    assert!(free.next_request().is_some());
}

#[test]
fn a_response_moves_the_walk_on() {
    let mut forward = FetchState::begin(KlinesFetchType::Recent, 1, None, false, 1000, 9000, 5);
    assert!(forward.take_response(&vec![9000, 9060, 9120]));
    assert_eq!(forward.time_param, 9120);
    let mut backward = FetchState::begin(KlinesFetchType::Older, 1, None, false, 1000, 9000, 5);
    assert!(backward.take_response(&vec![880, 940, 1000]));
    assert_eq!(backward.time_param, 880);
}

#[test]
fn a_response_of_one_row_ends_the_walk() {
    let mut state = FetchState::begin(KlinesFetchType::Recent, 1, None, false, 1000, 9000, 5);
    assert!(!state.take_response(&vec![9000]));
    assert_eq!(state.time_param, 9000);
    assert!(!state.take_response(&vec![]));
    assert_eq!(state.time_param, 9000);
}

#[test]
fn stored_rows_count_and_duplicates_do_not() {
    let mut state = FetchState::begin(KlinesFetchType::Older, 8, Some(10), false, 1000, 9000, 5);
    state.count_row(true);
    state.count_row(false);
    assert_eq!(state.table_length, 9);
    assert!(state.next_request().is_some());
    state.count_row(true);
    assert_eq!(state.table_length, 10);
    assert!(state.next_request().is_none());
}

#[test]
fn an_incomplete_candle_is_left_out() {
    assert!(accepts_row(999, 1000));
    assert!(accepts_row(1000, 1000));
    assert!(!accepts_row(1001, 1000));
}

#[test]
fn a_table_is_created_and_filled_as_it_needs() {
    let missing = acquisition(false, 0);
    assert!(missing.create_table);
    assert!(!missing.recent_first);
    let empty = acquisition(true, 0);
    assert!(!empty.create_table);
    assert!(!empty.recent_first);
    let filled = acquisition(true, 12);
    assert!(!filled.create_table);
    assert!(filled.recent_first);
    let odd = acquisition(false, 12);
    assert!(odd.create_table);
    assert!(!odd.recent_first);
}
