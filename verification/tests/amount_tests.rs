use std::str::FromStr;

use beanbot::amount::Amount;
use rust_decimal::Decimal;

#[test]
fn test_amount_with_currency() {
    let a = Amount::from_str("10 CNY", "USD").unwrap();
    assert_eq!(a.currency, "CNY");
    assert!(!a.number.negative);
    assert_eq!(a.number.mantissa, 10);
    assert_eq!(a.number.scale, 0);
}

#[test]
fn test_amount_default_currency() {
    let a = Amount::from_str("3.50", "USD").unwrap();
    assert_eq!(a.currency, "USD");
    assert!(!a.number.negative);
    assert_eq!(a.number.mantissa, 350);
    assert_eq!(a.number.scale, 2);
}

#[test]
fn test_amount_single_letter_currency() {
    let a = Amount::from_str("10 C", "USD").unwrap();
    assert_eq!(a.currency, "C");
}

#[test]
fn test_amount_attached_currency() {
    let a = Amount::from_str("10CNY", "USD").unwrap();
    assert_eq!(a.currency, "CNY");
    assert_eq!(a.number.mantissa, 10);
}

#[test]
fn test_amount_rejects_malformed() {
    for bad in [
        "", "abc", "CNY", "1.2.3", ".", "10 cny", "10 2NY", "10 CNY extra", "1 C-", "- 10",
        "10 TOOLONGCURRENCYCODEXXXXXXXXX",
    ] {
        assert!(Amount::from_str(bad, "USD").is_none(), "{:?} should not parse", bad);
    }
}

#[test]
fn test_amount_neg_preserves_currency_and_flips_sign() {
    let a = Amount::from_str("3.50 CNY", "USD").unwrap();
    let n = a.neg();
    assert!(n.number.negative);
    assert_eq!(n.currency, "CNY");
    assert_eq!(n.number.mantissa, a.number.mantissa);
    assert_eq!(n.number.scale, a.number.scale);
    let nn = n.neg();
    assert_eq!(nn.number, a.number);
    assert_eq!(nn.currency, a.currency);
}

#[test]
fn test_amount_render() {
    let a = Amount::from_str("3.50", "USD").unwrap();
    assert_eq!(a.render(), "3.50 USD");
    assert_eq!(a.neg().render(), "-3.50 USD");
    let b = Amount::from_str("10 CNY", "USD").unwrap();
    assert_eq!(b.render(), "10 CNY");
    let c = Amount::from_str("0.05", "USD").unwrap();
    assert_eq!(c.render(), "0.05 USD");
}

#[test]
fn test_number_text_agrees_with_decimal_crate() {
    for text in ["10", "3.50", "0.5", "5.", ".5", "007", "0.000", "123456.789", "0"] {
        let mine = Amount::from_str(text, "USD").unwrap();
        let rendered = mine.render();
        let number_part = rendered.strip_suffix(" USD").unwrap();
        let reference = Decimal::from_str(text).unwrap();
        assert_eq!(number_part, reference.to_string(), "for input {:?}", text);
        let neg_rendered = mine.neg().render();
        let neg_part = neg_rendered.strip_suffix(" USD").unwrap();
        assert_eq!(neg_part, (-reference).to_string(), "for negated input {:?}", text);
    }
}

#[test]
fn test_amount_mantissa_limits() {
    // 2^96 - 1 fits, one digit more does not
    let max = "79228162514264337593543950335";
    assert!(Amount::from_str(max, "USD").is_some());
    assert!(Decimal::from_str(max).is_ok());
    let over = "79228162514264337593543950336";
    assert!(Amount::from_str(over, "USD").is_none());
    assert!(Decimal::from_str(over).is_err());
}
