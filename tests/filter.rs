use safe_thing::{ErrorCode, FilterOperator};

#[test]
fn any_lets_everything_through() {
    assert_eq!(FilterOperator::Any.eval("x", "y").unwrap(), true);
    assert_eq!(FilterOperator::Any.eval("", "not a number").unwrap(), true);
}

#[test]
fn equal_and_not_equal_compare_strings() {
    assert_eq!(FilterOperator::Equal.eval("on", "on").unwrap(), true);
    assert_eq!(FilterOperator::Equal.eval("on", "off").unwrap(), false);
    assert_eq!(FilterOperator::Equal.eval("1.0", "1").unwrap(), false);
    assert_eq!(FilterOperator::NotEqual.eval("on", "off").unwrap(), true);
    assert_eq!(FilterOperator::NotEqual.eval("on", "on").unwrap(), false);
}

#[test]
fn less_than_compares_numbers() {
    assert_eq!(FilterOperator::LessThan.eval("1.5", "2").unwrap(), true);
    assert_eq!(FilterOperator::LessThan.eval("2", "1.5").unwrap(), false);
    assert_eq!(FilterOperator::LessThan.eval("10", "9").unwrap(), false);
    assert_eq!(FilterOperator::LessThan.eval("-3", "2").unwrap(), true);
    assert_eq!(FilterOperator::LessThan.eval("-3", "-2.5").unwrap(), true);
    assert_eq!(FilterOperator::LessThan.eval("1.0", "1").unwrap(), false);
    assert_eq!(FilterOperator::LessThan.eval("-0", "0").unwrap(), false);
    assert_eq!(FilterOperator::LessThan.eval(".5", "0.6").unwrap(), true);
    assert_eq!(FilterOperator::LessThan.eval("+7", "8.").unwrap(), true);
}

#[test]
fn greater_than_compares_numbers() {
    assert_eq!(FilterOperator::GreaterThan.eval("70", "20").unwrap(), true);
    assert_eq!(FilterOperator::GreaterThan.eval("20", "70").unwrap(), false);
    assert_eq!(FilterOperator::GreaterThan.eval("0.25", "0.2").unwrap(), true);
    assert_eq!(FilterOperator::GreaterThan.eval("5", "5.000").unwrap(), false);
}

#[test]
fn numeric_filters_reject_non_numbers() {
    let e = FilterOperator::LessThan.eval("abc", "2").unwrap_err();
    assert_eq!(e.code, ErrorCode::InvalidArgument);
    let e = FilterOperator::GreaterThan.eval("2", "70%").unwrap_err();
    assert_eq!(e.code, ErrorCode::InvalidArgument);
    assert!(FilterOperator::LessThan.eval("", "1").is_err());
    assert!(FilterOperator::LessThan.eval("1.2.3", "1").is_err());
    assert!(FilterOperator::LessThan.eval(".", "1").is_err());
    assert!(FilterOperator::LessThan.eval("1e", "1").is_err());
    assert!(FilterOperator::LessThan.eval("e3", "1").is_err());
    assert!(FilterOperator::LessThan.eval("1e3e4", "1").is_err());
    assert!(FilterOperator::LessThan.eval("1e99999999999999999999", "1").is_err());
    assert!(FilterOperator::LessThan.eval("inf", "1").is_err());
}

#[test]
fn numbers_of_any_length_compare_exactly() {
    assert_eq!(FilterOperator::LessThan.eval("12345678901234567890", "1").unwrap(), false);
    assert_eq!(
        FilterOperator::LessThan
            .eval("0.12345678901234567890123", "0.12345678901234567890124")
            .unwrap(),
        true
    );
    assert_eq!(
        FilterOperator::GreaterThan
            .eval("100000000000000000000000000000", "99999999999999999999999999999.9999")
            .unwrap(),
        true
    );
    assert_eq!(FilterOperator::LessThan.eval("-000.000", "0").unwrap(), false);
    assert_eq!(FilterOperator::LessThan.eval("-0.001", "0").unwrap(), true);
    assert_eq!(FilterOperator::GreaterThan.eval("007.50", "7.5").unwrap(), false);
    assert_eq!(FilterOperator::LessThan.eval("-12.5", "-12.49").unwrap(), true);
}

#[test]
fn exponents_scale_the_number() {
    assert_eq!(FilterOperator::GreaterThan.eval("1e3", "999").unwrap(), true);
    assert_eq!(FilterOperator::LessThan.eval("1e3", "1000").unwrap(), false);
    assert_eq!(FilterOperator::GreaterThan.eval("1e3", "1000").unwrap(), false);
    assert_eq!(FilterOperator::LessThan.eval("2.5E-3", "0.0026").unwrap(), true);
    assert_eq!(FilterOperator::LessThan.eval("-1e+2", "-99").unwrap(), true);
    assert_eq!(FilterOperator::LessThan.eval("1e-400", "1e-399").unwrap(), true);
    assert_eq!(FilterOperator::GreaterThan.eval("0e500", "0").unwrap(), false);
    assert_eq!(FilterOperator::LessThan.eval("5e18446744073709551615", "6e18446744073709551615").unwrap(), true);
}
