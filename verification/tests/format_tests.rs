use create_bundle_monitor::format::{format_cu, format_cu_limit, u64_to_decimal};

fn float_cu(cu: u32) -> String {
    if cu >= 1_000_000 {
        format!("{:.1}M", cu as f64 / 1_000_000.0)
    } else if cu >= 1_000 {
        format!("{}k", cu / 1_000)
    } else {
        cu.to_string()
    }
}

fn float_cu_limit(cu: Option<u32>) -> String {
    match cu {
        Some(cu) if cu >= 1_000_000 => format!("{:.2}M", cu as f64 / 1_000_000.0),
        Some(cu) if cu >= 1_000 => format!("{}k", cu / 1_000),
        Some(cu) => cu.to_string(),
        None => "N/A".to_string(),
    }
}

#[test]
fn format_cu_examples() {
    assert_eq!(format_cu(0), "0");
    assert_eq!(format_cu(999), "999");
    assert_eq!(format_cu(1_000), "1k");
    assert_eq!(format_cu(140_000), "140k");
    assert_eq!(format_cu(999_999), "999k");
    assert_eq!(format_cu(1_000_000), "1.0M");
    assert_eq!(format_cu(1_400_000), "1.4M");
    assert_eq!(format_cu(1_500_000), "1.5M");
    assert_eq!(format_cu(1_049_999), "1.0M");
    assert_eq!(format_cu(1_950_000), "1.9M");
    assert_eq!(format_cu(u32::MAX), "4295.0M");
}

#[test]
fn format_cu_limit_examples() {
    assert_eq!(format_cu_limit(None), "N/A");
    assert_eq!(format_cu_limit(Some(7)), "7");
    assert_eq!(format_cu_limit(Some(200_000)), "200k");
    assert_eq!(format_cu_limit(Some(1_400_000)), "1.40M");
    assert_eq!(format_cu_limit(Some(1_500_000)), "1.50M");
    assert_eq!(format_cu_limit(Some(1_234_567)), "1.23M");
}

#[test]
fn format_cu_matches_float_formatting_at_ties() {
    for cu in [
        1_050_000u32, 1_150_000, 1_250_000, 1_350_000, 1_450_000, 1_550_000, 2_250_000, 3_750_000,
        1_005_000, 1_015_000, 1_125_000, 1_375_000, 9_995_000, 4_294_950_000,
    ] {
        assert_eq!(format_cu(cu), float_cu(cu), "cu = {}", cu);
        assert_eq!(format_cu_limit(Some(cu)), float_cu_limit(Some(cu)), "cu = {}", cu);
    }
}

#[test]
fn format_cu_matches_float_formatting_on_a_sweep() {
    let mut cu: u32 = 0;
    while cu < 12_000_000 {
        assert_eq!(format_cu(cu), float_cu(cu), "cu = {}", cu);
        assert_eq!(format_cu_limit(Some(cu)), float_cu_limit(Some(cu)), "cu = {}", cu);
        cu += 997;
    }
    let mut big: u64 = 12_000_000;
    while big <= u32::MAX as u64 {
        let cu = big as u32;
        assert_eq!(format_cu(cu), float_cu(cu), "cu = {}", cu);
        assert_eq!(format_cu_limit(Some(cu)), float_cu_limit(Some(cu)), "cu = {}", cu);
        big += 4_999_999;
    }
}

#[test]
fn decimal_rendering() {
    assert_eq!(u64_to_decimal(0), "0");
    assert_eq!(u64_to_decimal(10), "10");
    assert_eq!(u64_to_decimal(u64::MAX), u64::MAX.to_string());
}

#[test]
fn renderings_round_to_half_a_digit() {
    let units = |s: &str| -> i64 { s.trim_end_matches('M').replace('.', "").parse().unwrap() };
    let mut cu: u64 = 1_000_000;
    while cu <= u32::MAX as u64 {
        let c = cu as u32;
        let one = units(&format_cu(c));
        let two = units(&format_cu_limit(Some(c)));
        assert!((one * 100_000 - cu as i64).abs() <= 50_000, "cu = {}", cu);
        assert!((two * 10_000 - cu as i64).abs() <= 5_000, "cu = {}", cu);
        cu += 1_234_567;
    }
    for c in [0u32, 999, 1_000, 999_999] {
        assert_eq!(format_cu_limit(Some(c)), format_cu(c));
    }
}
