use daily_nutrition::activity::Activity;
use daily_nutrition::decimal::{parse_decimal, ParsedDecimal};
use daily_nutrition::form::Form;
use daily_nutrition::tips::Tip;

#[test]
fn decimal_forms_accepted() {
    assert_eq!(parse_decimal("70", 3), ParsedDecimal::Value(70_000));
    assert_eq!(parse_decimal("72.5", 3), ParsedDecimal::Value(72_500));
    assert_eq!(parse_decimal("+72.25", 3), ParsedDecimal::Value(72_250));
    assert_eq!(parse_decimal(".5", 3), ParsedDecimal::Value(500));
    assert_eq!(parse_decimal("5.", 3), ParsedDecimal::Value(5_000));
    assert_eq!(parse_decimal("007", 0), ParsedDecimal::Value(7));
    assert_eq!(parse_decimal("1.10", 2), ParsedDecimal::Value(110));
    assert_eq!(parse_decimal("1.25", 2), ParsedDecimal::Value(125));
}

#[test]
fn extra_fraction_digits_are_dropped() {
    assert_eq!(parse_decimal("70.12345", 3), ParsedDecimal::Value(70_123));
    assert_eq!(parse_decimal("1.125", 2), ParsedDecimal::Value(112));
    assert_eq!(parse_decimal("0.0009", 3), ParsedDecimal::Value(0));
}

#[test]
fn decimal_negative_and_malformed() {
    assert_eq!(parse_decimal("-3", 3), ParsedDecimal::Negative);
    assert_eq!(parse_decimal("-0", 3), ParsedDecimal::Negative);
    assert_eq!(parse_decimal("-.5", 3), ParsedDecimal::Negative);
    assert_eq!(parse_decimal("", 3), ParsedDecimal::Malformed);
    assert_eq!(parse_decimal(".", 3), ParsedDecimal::Malformed);
    assert_eq!(parse_decimal("+", 3), ParsedDecimal::Malformed);
    assert_eq!(parse_decimal("-", 3), ParsedDecimal::Malformed);
    assert_eq!(parse_decimal("abc", 3), ParsedDecimal::Malformed);
    assert_eq!(parse_decimal("1.2.3", 3), ParsedDecimal::Malformed);
    assert_eq!(parse_decimal("1e", 3), ParsedDecimal::Malformed);
    assert_eq!(parse_decimal("1e+", 3), ParsedDecimal::Malformed);
    assert_eq!(parse_decimal("e5", 3), ParsedDecimal::Malformed);
    assert_eq!(parse_decimal(".e5", 3), ParsedDecimal::Malformed);
    assert_eq!(parse_decimal("1e1.5", 3), ParsedDecimal::Malformed);
    assert_eq!(parse_decimal("1e2e3", 3), ParsedDecimal::Malformed);
    assert_eq!(parse_decimal("1.2.3e1", 3), ParsedDecimal::Malformed);
    assert_eq!(parse_decimal(" 70", 3), ParsedDecimal::Malformed);
    assert_eq!(parse_decimal("70kg", 3), ParsedDecimal::Malformed);
    assert_eq!(parse_decimal("--1", 3), ParsedDecimal::Malformed);
    assert_eq!(parse_decimal("7,5", 3), ParsedDecimal::Malformed);
}

#[test]
fn exponent_notation() {
    assert_eq!(parse_decimal("8e1", 3), ParsedDecimal::Value(80_000));
    assert_eq!(parse_decimal("7.25e1", 3), ParsedDecimal::Value(72_500));
    assert_eq!(parse_decimal("7.25E+1", 3), ParsedDecimal::Value(72_500));
    assert_eq!(parse_decimal("5e-4", 3), ParsedDecimal::Value(0));
    assert_eq!(parse_decimal("1.5e-1", 3), ParsedDecimal::Value(150));
    assert_eq!(parse_decimal("725e-1", 3), ParsedDecimal::Value(72_500));
    assert_eq!(parse_decimal("1e0", 2), ParsedDecimal::Value(100));
    assert_eq!(
        parse_decimal("123456789012345678901234567890e-20", 3),
        ParsedDecimal::Value(1_234_567_890_123)
    );
    assert_eq!(parse_decimal("-1e5", 3), ParsedDecimal::Negative);
    assert_eq!(parse_decimal("1e17", 3), ParsedDecimal::TooLarge);
    assert_eq!(parse_decimal("1e16", 3), ParsedDecimal::Value(10_000_000_000_000_000_000));
    assert_eq!(parse_decimal("1e15", 3), ParsedDecimal::Value(1_000_000_000_000_000_000));
}

#[test]
fn exponent_at_the_largest_size() {
    let huge = "99999999999999999999999999999999999999999";
    assert_eq!(parse_decimal(&format!("1e{}", huge), 3), ParsedDecimal::TooLarge);
    assert_eq!(parse_decimal(&format!("0.000e{}", huge), 3), ParsedDecimal::Value(0));
    assert_eq!(parse_decimal(&format!("123e-{}", huge), 3), ParsedDecimal::Value(0));
    assert_eq!(parse_decimal(&format!("{}e-40", huge), 0), ParsedDecimal::Value(9));
}

#[test]
fn weight_in_exponent_notation() {
    let mut f = Form::new();
    f.edit_weight("8e1");
    assert_eq!(f.weight_g, 80_000);
    f.edit_weight("7.25e1");
    assert_eq!(f.weight_g, 72_500);
    f.edit_weight("5e-4");
    assert_eq!(f.weight_g, 0);
    f.edit_weight("6.5E1");
    assert_eq!(f.weight_g, 65_000);
    f.edit_weight("1e40");
    assert_eq!(f.weight_g, 65_000);
}

#[test]
fn decimal_at_the_largest_size() {
    assert_eq!(parse_decimal("18446744073709551615", 0), ParsedDecimal::Value(u64::MAX));
    assert_eq!(parse_decimal("18446744073709551616", 0), ParsedDecimal::TooLarge);
    assert_eq!(parse_decimal("18446744073709551.615", 3), ParsedDecimal::Value(u64::MAX));
    assert_eq!(parse_decimal("18446744073709552", 3), ParsedDecimal::TooLarge);
    assert_eq!(parse_decimal("99999999999999999999999", 0), ParsedDecimal::TooLarge);
    assert_eq!(parse_decimal("0", 30), ParsedDecimal::Value(0));
    assert_eq!(parse_decimal("1", 30), ParsedDecimal::TooLarge);
    assert_eq!(parse_decimal("-99999999999999999999999", 0), ParsedDecimal::Negative);
}

#[test]
fn form_opens_at_seventy_kg_bedridden() {
    let f = Form::new();
    assert_eq!(f.weight_g, 70_000);
    assert_eq!(f.activity, Activity::Bedridden);
    let s = f.estimate().rounded();
    assert_eq!(s.calories_kcal, 1694);
    assert_eq!(s.carbs_g, 186);
    assert_eq!(f.tips().len(), 4);
}

#[test]
fn weight_edits() {
    let mut f = Form::new();
    f.edit_weight("82.5");
    assert_eq!(f.weight_g, 82_500);
    f.edit_weight("abc");
    assert_eq!(f.weight_g, 82_500);
    f.edit_weight("");
    assert_eq!(f.weight_g, 82_500);
    f.edit_weight("99999999999999999999");
    assert_eq!(f.weight_g, 82_500);
    f.edit_weight("-5");
    assert_eq!(f.weight_g, 0);
    f.edit_weight("60");
    assert_eq!(f.weight_g, 60_000);
    assert_eq!(f.activity, Activity::Bedridden);
}

#[test]
fn malformed_weight_keeps_last_valid_value() {
    let mut f = Form::new();
    f.edit_weight("75");
    for text in ["", "x", "7 5", "1e", "e2", ".", "-", "NaN"] {
        f.edit_weight(text);
        assert_eq!(f.weight_g, 75_000);
    }
}

#[test]
fn activity_selection() {
    let mut f = Form::new();
    f.select_activity("1.6");
    assert_eq!(f.activity, Activity::Active);
    f.select_activity("1.3");
    assert_eq!(f.activity, Activity::Active);
    f.select_activity("oops");
    assert_eq!(f.activity, Activity::Active);
    f.select_activity("-1.1");
    assert_eq!(f.activity, Activity::Active);
    f.select_activity("1.25");
    assert_eq!(f.activity, Activity::VeryLittle);
    f.select_activity("1.8");
    assert_eq!(f.activity, Activity::VeryIntense);
    assert_eq!(f.weight_g, 70_000);
    assert_eq!(
        f.tips(),
        vec![Tip::CarbsNearActivity, Tip::IncreaseFluids, Tip::HealthyFats, Tip::LimitFriedFood]
    );
    assert_eq!(f.estimate().water_ul, 2_600_000);
}
