use backend::text::{render_i64, render_nat, spells};

#[test]
fn integers_are_written_in_decimal() {
    for n in [0i64, 1, 9, 10, 11, 99, 100, 101, 12345, -1, -10, -999, i64::MAX, i64::MIN] {
        assert_eq!(render_i64(n), n.to_string());
    }
}

#[test]
fn naturals_are_written_in_decimal() {
    for n in [0u64, 7, 10, 1_000_000, u64::MAX] {
        assert_eq!(render_nat(n), n.to_string());
    }
}

#[test]
fn spelling_compares_whole_texts() {
    assert!(spells(&String::from("abc"), "abc"));
    assert!(!spells(&String::from("abc"), "ab"));
    assert!(!spells(&String::from("abc"), "Abc"));
    assert!(spells(&String::new(), ""));
}
