use icost_bill_convert::num::format_amount;
use icost_bill_convert::num::parse_amount;

fn chars(s: &str) -> Vec<char> {
    s.chars().collect()
}

fn string_of(v: &Vec<char>) -> String {
    v.iter().collect()
}

#[test]
fn parse_plain_amount() {
    assert_eq!(parse_amount(&chars("25.00")), Some(2500));
    assert_eq!(parse_amount(&chars("1234.50")), Some(123450));
    assert_eq!(parse_amount(&chars("12")), Some(1200));
    assert_eq!(parse_amount(&chars("0.5")), Some(50));
    assert_eq!(parse_amount(&chars("0.05")), Some(5));
    assert_eq!(parse_amount(&chars("0")), Some(0));
}

#[test]
fn parse_strips_currency_glyph_and_commas() {
    assert_eq!(parse_amount(&chars("¥1,234.50")), Some(123450));
    assert_eq!(parse_amount(&chars("¥15.00")), Some(1500));
    assert_eq!(parse_amount(&chars("¥1,000,000")), Some(100000000));
}

#[test]
fn parse_rejects_malformed_amounts() {
    assert_eq!(parse_amount(&chars("")), None);
    assert_eq!(parse_amount(&chars("abc")), None);
    assert_eq!(parse_amount(&chars("12.345")), None);
    assert_eq!(parse_amount(&chars("1.2.3")), None);
    assert_eq!(parse_amount(&chars("12a")), None);
}

#[test]
fn parse_amount_at_machine_bounds() {
    // the largest representable amount in hundredths
    assert_eq!(parse_amount(&chars("184467440737095516.15")), Some(u64::MAX));
    // one step beyond does not fit
    assert_eq!(parse_amount(&chars("184467440737095516.16")), None);
    assert_eq!(parse_amount(&chars("18446744073709551616")), None);
}

#[test]
fn format_always_two_fraction_digits() {
    assert_eq!(string_of(&format_amount(2500)), "25.00");
    assert_eq!(string_of(&format_amount(123450)), "1234.50");
    assert_eq!(string_of(&format_amount(5)), "0.05");
    assert_eq!(string_of(&format_amount(0)), "0.00");
}

#[test]
fn format_then_parse_restores_value() {
    for cents in [0u64, 1, 99, 100, 123450, 999999999, u64::MAX] {
        let text = format_amount(cents);
        assert_eq!(parse_amount(&text), Some(cents));
    }
}
