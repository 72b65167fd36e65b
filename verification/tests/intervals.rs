use backend::intervals::CryptoInterval;
use backend::klines::get_table_name;

#[test]
fn interval_minutes_are_exact() {
    assert_eq!(CryptoInterval::Int1m.to_minutes(), 1);
    assert_eq!(CryptoInterval::Int4h.to_minutes(), 240);
    assert_eq!(CryptoInterval::Int1M.to_minutes(), 43200);
}

#[test]
fn table_name_is_lower_case() {
    assert_eq!(get_table_name("BTCUSDT", &CryptoInterval::Int1m), "klines_btcusdt_int1m");
}

#[test]
fn interval_names_are_read_back() {
    let all = [
        (CryptoInterval::Int1m, "Int1m", "1m", 1),
        (CryptoInterval::Int5m, "Int5m", "5m", 5),
        (CryptoInterval::Int15m, "Int15m", "15m", 15),
        (CryptoInterval::Int30m, "Int30m", "30m", 30),
        (CryptoInterval::Int1h, "Int1h", "1h", 60),
        (CryptoInterval::Int2h, "Int2h", "2h", 120),
        (CryptoInterval::Int4h, "Int4h", "4h", 240),
        (CryptoInterval::Int6h, "Int6h", "6h", 360),
        (CryptoInterval::Int8h, "Int8h", "8h", 480),
        (CryptoInterval::Int12h, "Int12h", "12h", 720),
        (CryptoInterval::Int1d, "Int1d", "1d", 1440),
        (CryptoInterval::Int3d, "Int3d", "3d", 4320),
        (CryptoInterval::Int1w, "Int1w", "1w", 10080),
        (CryptoInterval::Int1M, "Int1M", "1M", 43200),
    ];
    for (interval, name, wire, minutes) in all.iter() {
        assert_eq!(interval.to_string(), *name);
        assert_eq!(interval.to_binance_string(), *wire);
        assert_eq!(interval.to_minutes(), *minutes);
        assert_eq!(CryptoInterval::parse_from(name), *interval);
    }
}

#[test]
fn unknown_interval_reads_as_one_minute() {
    assert_eq!(CryptoInterval::parse_from("1m"), CryptoInterval::Int1m);
    assert_eq!(CryptoInterval::parse_from(""), CryptoInterval::Int1m);
    assert_eq!(CryptoInterval::parse_from("int1h"), CryptoInterval::Int1m);
}

#[test]
fn month_and_minute_differ_by_case_alone() {
    assert_eq!(CryptoInterval::parse_from("Int1M"), CryptoInterval::Int1M);
    assert_eq!(CryptoInterval::parse_from("Int1m"), CryptoInterval::Int1m);
}

#[test]
fn table_name_lowers_symbol_and_interval() {
    assert_eq!(get_table_name("EthUsdt", &CryptoInterval::Int12h), "klines_ethusdt_int12h");
    assert_eq!(get_table_name("", &CryptoInterval::Int3d), "klines__int3d");
}

#[test]
fn the_month_and_the_minute_have_tables_of_their_own() {
    let minute = get_table_name("BTCUSDT", &CryptoInterval::Int1m);
    let month = get_table_name("BTCUSDT", &CryptoInterval::Int1M);
    assert_eq!(minute, "klines_btcusdt_int1m");
    assert_eq!(month, "klines_btcusdt_int1mo");
    assert_ne!(minute, month);
    assert_eq!(CryptoInterval::Int1M.to_table_tag(), "int1mo");
    assert_eq!(CryptoInterval::Int15m.to_table_tag(), "int15m");
}
