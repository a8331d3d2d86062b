use confish::text::{decimal_string, parse_u64};
use confish::time::Duration;
use confish::webhook::trim_whitespace;

#[test]
fn durations() {
    let d = Duration::new(3, 2_500_000_000);
    assert_eq!(d.as_secs(), 5);
    assert_eq!(d.subsec_nanos(), 500_000_000);
    assert_eq!(d.subsec_millis(), 500);
    assert_eq!(Duration::from_millis(1_500), Duration::new(1, 500_000_000));
    assert!(Duration::from_secs(0).is_zero());
    assert!(!Duration::new(0, 1).is_zero());
    assert!(Duration::from_millis(1001).gt(&Duration::from_secs(1)));
    assert_eq!(
        Duration::from_secs(2).min(Duration::from_millis(1500)),
        Duration::from_millis(1500)
    );
    assert_eq!(
        Duration::from_secs(2).max(Duration::from_millis(1500)),
        Duration::from_secs(2)
    );
    assert_eq!(
        Duration::new(1, 600_000_000).saturating_mul(3),
        Duration::new(4, 800_000_000)
    );
    assert_eq!(
        Duration::from_secs(u64::MAX).saturating_mul(2),
        Duration::new(u64::MAX, 999_999_999)
    );
}

#[test]
fn decimal_text() {
    assert_eq!(decimal_string(0), "0");
    assert_eq!(decimal_string(1_700_000_000), "1700000000");
    assert_eq!(decimal_string(u64::MAX), "18446744073709551615");
    assert_eq!(parse_u64("0042"), Some(42));
    assert_eq!(parse_u64("abc"), None);
}

#[test]
fn parsing_agrees_with_std() {
    for s in [
        "0", "7", "+7", "-7", "+", "", " 1", "1 ", "007", "18446744073709551615",
        "18446744073709551616", "99999999999999999999", "1_000", "١٢", "+0",
    ] {
        assert_eq!(parse_u64(s), s.parse::<u64>().ok(), "for {s:?}");
    }
    for n in [0u64, 9, 10, 99, 100, 12_345, u64::MAX - 1, u64::MAX] {
        assert_eq!(parse_u64(&decimal_string(n)), Some(n));
    }
}

#[test]
fn trimming_agrees_with_std() {
    for s in [
        "",
        "   ",
        " ts=1;sig=ab ",
        "\t\n\u{b}\u{c}\r x \u{85}\u{a0}",
        "\u{1680}\u{2000}\u{200a}y\u{2028}\u{2029}\u{202f}\u{205f}\u{3000}",
        "\u{200b}z\u{200b}",
        "inner  space",
    ] {
        let chars: Vec<char> = s.chars().collect();
        let expected: Vec<char> = s.trim().chars().collect();
        assert_eq!(trim_whitespace(&chars), expected, "for {s:?}");
    }
}
