use paymonero_ui::amount::{magnitude_of, wrap_to_u64, xmr_full_string, xmr_string};
use paymonero_ui::decimal::decimal_string;
use paymonero_ui::filters::format_xmr as format_xmr_filter;
use paymonero_ui::models::{format_xmr, DashboardStats};
use paymonero_ui::pages::format_xmr_display;

#[test]
fn decimal_numerals() {
    assert_eq!(decimal_string(0), "0");
    assert_eq!(decimal_string(7), "7");
    assert_eq!(decimal_string(10), "10");
    assert_eq!(decimal_string(1234567890), "1234567890");
    assert_eq!(decimal_string(u64::MAX), "18446744073709551615");
}

#[test]
fn format_xmr_short_form() {
    assert_eq!(format_xmr(0), "0.0");
    assert_eq!(format_xmr(1), "0.000000000001");
    assert_eq!(format_xmr(1_500_000_000_000), "1.5");
    assert_eq!(format_xmr(1_000_000_000_000), "1.0");
    assert_eq!(format_xmr(123_456_789_000_000), "123.456789");
    assert_eq!(format_xmr(100_000_000_001), "0.100000000001");
}

#[test]
fn format_xmr_drops_the_sign() {
    assert_eq!(format_xmr(-2_500_000_000_000), "2.5");
    assert_eq!(format_xmr(-2_500_000_000_000), format_xmr(2_500_000_000_000));
    assert_eq!(format_xmr(i64::MIN), "9223372.036854775808");
    assert_eq!(format_xmr(i64::MAX), "9223372.036854775807");
}

#[test]
fn display_form_wraps_negative_amounts() {
    assert_eq!(format_xmr_display(0), "0.0");
    assert_eq!(format_xmr_display(1_230_000_000_000), "1.23");
    assert_eq!(format_xmr_display(-1), "18446744.073709551615");
    assert_eq!(format_xmr_display(42_000_000_000_000), format_xmr(42_000_000_000_000));
}

#[test]
fn filter_format_xmr_keeps_twelve_places() {
    assert_eq!(format_xmr_filter(&1_500_000_000_000).unwrap(), "1.500000000000");
    assert_eq!(format_xmr_filter(&0).unwrap(), "0.000000000000");
    assert_eq!(format_xmr_filter(&-1).unwrap(), "18446744.073709551615");
    assert_eq!(format_xmr_filter(&987_654_321).unwrap(), "0.000987654321");
}

#[test]
fn short_form_is_full_form_trimmed() {
    for a in [0u64, 1, 10, 1_500_000_000_000, 2_000_000_000_000, 3_141_592_653_589, u64::MAX] {
        let short = xmr_string(a);
        let full = xmr_full_string(a);
        assert!(full.starts_with(&short));
        assert!(full[short.len()..].chars().all(|c| c == '0'));
        assert_eq!(full.len() - full.find('.').unwrap() - 1, 12);
    }
}

#[test]
fn short_form_reads_back() {
    for a in [0u64, 5, 70, 1_000_000_000_000, 1_234_000_000_001, 99_999_999_999_999, u64::MAX] {
        let text = xmr_string(a);
        let (whole, frac) = text.split_once('.').unwrap();
        assert!(!frac.is_empty() && frac.len() <= 12);
        assert!(frac == "0" || !frac.ends_with('0'));
        let padded = format!("{:0<12}", frac);
        let value = whole.parse::<u128>().unwrap() * 1_000_000_000_000 + padded.parse::<u128>().unwrap();
        assert_eq!(value, a as u128);
    }
}

#[test]
fn magnitude_and_wrapping() {
    assert_eq!(magnitude_of(-5), 5);
    assert_eq!(magnitude_of(i64::MIN), 9_223_372_036_854_775_808);
    assert_eq!(wrap_to_u64(-1), u64::MAX);
    assert_eq!(wrap_to_u64(i64::MIN), 9_223_372_036_854_775_808);
    assert_eq!(wrap_to_u64(12), 12);
}

#[test]
fn dashboard_totals() {
    let stats = DashboardStats::from_counts(10, 4, 3, 2, 1, Some(2_500_000_000_000), None);
    assert_eq!(stats.total_invoices, 10);
    assert_eq!(stats.paid_count, 4);
    assert_eq!(stats.pending_count, 3);
    assert_eq!(stats.partial_count, 2);
    assert_eq!(stats.expired_count, 1);
    assert_eq!(stats.total_received_atomic, 2_500_000_000_000);
    assert_eq!(stats.total_expected_atomic, 0);
    assert_eq!(stats.total_received_xmr(), "2.5");
    assert_eq!(stats.total_expected_xmr(), "0.0");
    let empty = DashboardStats::default();
    assert_eq!(empty.total_invoices, 0);
    assert_eq!(empty.total_received_xmr(), "0.0");
}
