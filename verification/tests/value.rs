//! Text to typed values (XML Schema lexical forms).

use xeibe::value::{
    Scalar, ScalarType, TimeUnit, days_from_civil_exec, int_in, parse_date, parse_scalar, parse_time, parse_tz,
    uint_in,
};

fn chars(text: &str) -> Vec<char> {
    text.chars().collect()
}

#[test]
fn dates_and_timestamps() {
    assert_eq!(parse_scalar(ScalarType::Date32, "1970-01-02"), Some(Scalar::Int32(1)));
    assert_eq!(parse_scalar(ScalarType::Date32, "2000-03-01Z"), Some(Scalar::Int32(11017)));
    let utc = ScalarType::Timestamp(TimeUnit::Microsecond, true);
    assert_eq!(parse_scalar(utc, "1970-01-01T00:00:01+00:00"), Some(Scalar::Int(1_000_000)));
    assert_eq!(parse_scalar(utc, "1970-01-01T01:00:00.5+01:00"), Some(Scalar::Int(500_000)));
    assert_eq!(parse_scalar(utc, "1970-01-01T00:00:01"), None);
    assert_eq!(parse_scalar(utc, "1970-01-01T00:00:00.0000001Z"), None);
}

#[test]
fn numbers() {
    assert_eq!(parse_scalar(ScalarType::Int64, "0012"), Some(Scalar::Int(12)));
    assert_eq!(parse_scalar(ScalarType::Int8, "300"), None);
    match parse_scalar(ScalarType::Float64, "1e3") {
        Some(Scalar::Float(text)) => assert_eq!(text.parse::<f64>(), Ok(1000.0)),
        other => panic!("expected a float, got {other:?}"),
    }
    assert_eq!(parse_scalar(ScalarType::Float64, "inf"), None);
    assert_eq!(parse_scalar(ScalarType::Int64, "huge"), None);
}

#[test]
fn integers_take_one_plus_before_the_sign_and_keep_to_their_range() {
    assert_eq!(int_in("+12", -100, 100), Some(12));
    assert_eq!(int_in("++12", -100, 100), Some(12));
    assert_eq!(int_in("+-12", -100, 100), Some(-12));
    assert_eq!(int_in("-", -100, 100), None);
    assert_eq!(int_in("", -100, 100), None);
    assert_eq!(int_in("101", -100, 100), None);
    assert_eq!(int_in("-9223372036854775808", i64::MIN, i64::MAX), Some(i64::MIN));
    assert_eq!(int_in("9223372036854775808", i64::MIN, i64::MAX), None);
    assert_eq!(int_in("99999999999999999999999", i64::MIN, i64::MAX), None);
    assert_eq!(uint_in("+255", 255), Some(255));
    assert_eq!(uint_in("-0", 255), None);
    assert_eq!(uint_in("18446744073709551615", u64::MAX), Some(u64::MAX));
    assert_eq!(uint_in("18446744073709551616", u64::MAX), None);
    assert_eq!(parse_scalar(ScalarType::UInt8, "256"), None);
    assert_eq!(parse_scalar(ScalarType::Int16, "-32768"), Some(Scalar::Int(-32768)));
}

#[test]
fn booleans_and_text() {
    assert_eq!(parse_scalar(ScalarType::Boolean, "1"), Some(Scalar::Bool(true)));
    assert_eq!(parse_scalar(ScalarType::Boolean, "false"), Some(Scalar::Bool(false)));
    assert_eq!(parse_scalar(ScalarType::Boolean, "True"), None);
    assert_eq!(parse_scalar(ScalarType::Utf8View, "a b"), Some(Scalar::Str("a b".to_string())));
    assert_eq!(parse_scalar(ScalarType::Other, "1"), None);
}

#[test]
fn float_forms() {
    for ok in ["INF", "+INF", "-INF", "NaN", "1.5E-3", "-0"] {
        assert!(matches!(parse_scalar(ScalarType::Float32, ok), Some(Scalar::Float(ref t)) if t == ok), "{ok}");
    }
    for bad in ["Infinity", "nan", "1.5x"] {
        assert_eq!(parse_scalar(ScalarType::Float64, bad), None, "{bad}");
    }
}

#[test]
fn days_count_from_the_epoch_in_the_proleptic_calendar() {
    assert_eq!(days_from_civil_exec(1970, 1, 1), 0);
    assert_eq!(days_from_civil_exec(1969, 12, 31), -1);
    assert_eq!(days_from_civil_exec(2000, 3, 1), 11017);
    assert_eq!(days_from_civil_exec(2024, 2, 29), 19782);
    assert_eq!(days_from_civil_exec(1900, 3, 1), -25508);
    assert_eq!(days_from_civil_exec(0, 1, 1), -719528);
    assert_eq!(days_from_civil_exec(-1, 12, 31), -719529);
}

#[test]
fn dates_check_their_months_and_days() {
    assert_eq!(parse_date(&chars("2023-02-29")), None);
    assert_eq!(parse_date(&chars("2024-02-29")), Some((19782, 10)));
    assert_eq!(parse_date(&chars("2024-13-01")), None);
    assert_eq!(parse_date(&chars("2024-04-31")), None);
    assert_eq!(parse_date(&chars("2024-00-10")), None);
    assert_eq!(parse_date(&chars("999-01-01")), None);
    assert_eq!(parse_date(&chars("-0001-12-31")), Some((-719529, 11)));
    assert_eq!(parse_date(&chars("1970-01-01T")), Some((0, 10)));
    assert_eq!(parse_scalar(ScalarType::Date32, "1970-01-01+01:00"), Some(Scalar::Int32(0)));
    assert_eq!(parse_scalar(ScalarType::Date32, "1970-01-01+15:00"), None);
    assert_eq!(parse_scalar(ScalarType::Date64, "1970-01-02"), Some(Scalar::Int(86_400_000)));
    assert_eq!(parse_scalar(ScalarType::Date32, "999999999-12-31"), None, "beyond Date32");
}

#[test]
fn times_and_time_zones() {
    assert_eq!(parse_time(&chars("23:59:60"), 0), Some((86399, 8, 8, 8)));
    assert_eq!(parse_time(&chars("24:00:00"), 0), None);
    assert_eq!(parse_time(&chars("12:00:00."), 0), None);
    assert_eq!(parse_time(&chars("12:00:00.25Z"), 0), Some((43200, 9, 11, 11)));
    assert_eq!(parse_tz(&chars(""), 0), Some(None));
    assert_eq!(parse_tz(&chars("Z"), 0), Some(Some(0)));
    assert_eq!(parse_tz(&chars("-05:30"), 0), Some(Some(-330)));
    assert_eq!(parse_tz(&chars("+5:30"), 0), None);
    assert_eq!(parse_tz(&chars("+14:60"), 0), None);
    assert_eq!(parse_scalar(ScalarType::Time32(TimeUnit::Millisecond), "01:00:00.5"), Some(Scalar::Int32(3_600_500)));
    assert_eq!(parse_scalar(ScalarType::Time64(TimeUnit::Nanosecond), "00:00:01Z"), Some(Scalar::Int(1_000_000_000)));
    assert_eq!(parse_scalar(ScalarType::Time32(TimeUnit::Microsecond), "23:00:00"), None, "beyond Time32");
}

#[test]
fn timestamps_keep_precision_and_time_zone_rules() {
    let local = ScalarType::Timestamp(TimeUnit::Second, false);
    assert_eq!(parse_scalar(local, "1970-01-02T00:00:00"), Some(Scalar::Int(86_400)));
    assert_eq!(parse_scalar(local, "1970-01-02T00:00:00Z"), None);
    assert_eq!(parse_scalar(local, "1970-01-01T00:00:00.000"), Some(Scalar::Int(0)));
    assert_eq!(parse_scalar(local, "1970-01-01T00:00:00.5"), None);
    let nanos = ScalarType::Timestamp(TimeUnit::Nanosecond, false);
    assert_eq!(parse_scalar(nanos, "2300-01-01T00:00:00"), None, "beyond i64 nanoseconds");
    let millis = ScalarType::Timestamp(TimeUnit::Millisecond, true);
    assert_eq!(parse_scalar(millis, "1970-01-01T00:00:00.123-01:00"), Some(Scalar::Int(3_600_123)));
}
