use create_bundle_monitor::args::{parse_filter_args, parse_u32, parse_u64, parse_usize, DEFAULT_CU_TARGET};
use create_bundle_monitor::format::u64_to_decimal;

fn words(ws: &[&str]) -> Vec<String> {
    ws.iter().map(|w| w.to_string()).collect()
}

#[test]
fn unsigned_numbers_read_as_std_reads_them() {
    for s in [
        "", "+", "-", "0", "00", "+0", "-0", "7", "+7", "-7", "140000", "4294967295", "4294967296",
        "99999999999999999999", "18446744073709551615", "18446744073709551616", "1_000", " 1", "1 ",
        "\u{ff11}", "12a", "a12", "+-1", "++1",
    ] {
        assert_eq!(parse_u32(s), s.parse::<u32>().ok(), "u32 {:?}", s);
        assert_eq!(parse_usize(s), s.parse::<usize>().ok(), "usize {:?}", s);
        assert_eq!(parse_u64(s), s.parse::<u64>().ok(), "u64 {:?}", s);
    }
}

#[test]
fn filter_args_defaults() {
    let a = parse_filter_args(&words(&["filter_by_cu"]));
    assert_eq!(a.cu_target, DEFAULT_CU_TARGET);
    assert_eq!(a.db_path, "./pump_bundles_db");
    assert_eq!(a.follow_count, None);
    assert!(!a.follow_count_missing);
}

#[test]
fn filter_args_positional_and_flag() {
    let a = parse_filter_args(&words(&["prog", "150000", "/data/db", "--follow-count", "3"]));
    assert_eq!(a.cu_target, 150_000);
    assert_eq!(a.db_path, "/data/db");
    assert_eq!(a.follow_count, Some(3));
    assert!(!a.follow_count_missing);
}

#[test]
fn filter_args_second_number_is_a_path() {
    let a = parse_filter_args(&words(&["prog", "150000", "200000"]));
    assert_eq!(a.cu_target, 150_000);
    assert_eq!(a.db_path, "200000");
}

#[test]
fn filter_args_flag_without_value() {
    let a = parse_filter_args(&words(&["prog", "db", "--follow-count"]));
    assert_eq!(a.db_path, "db");
    assert_eq!(a.follow_count, None);
    assert!(a.follow_count_missing);
}

#[test]
fn filter_args_bad_count_and_unknown_flags() {
    let a = parse_filter_args(&words(&["prog", "--follow-count", "x", "--verbose", "-1"]));
    assert_eq!(a.follow_count, None);
    assert_eq!(a.cu_target, DEFAULT_CU_TARGET);
    assert_eq!(a.db_path, "-1");
}

#[test]
fn written_numbers_read_back() {
    for n in [0u64, 7, 10, 99, 140_000, 4_294_967_295, u64::MAX] {
        assert_eq!(parse_u64(&u64_to_decimal(n)), Some(n));
    }
    assert_eq!(parse_u32(&u64_to_decimal(4_294_967_296)), None);
    assert_eq!(parse_u32(&u64_to_decimal(4_294_967_295)), Some(u32::MAX));
}
