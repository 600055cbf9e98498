use objectbox::datetime::DateTime;
use objectbox::datetime::DateTimeNano;

#[test]
fn test_datetime_from_millis() {
    let dt = DateTime::from_millis(1706745600000);
    assert_eq!(dt.to_millis(), 1706745600000);
    assert_eq!(dt.to_secs(), 1706745600);
}

#[test]
fn test_datetime_from_secs() {
    let dt = DateTime::from_secs(1706745600);
    assert_eq!(dt.to_millis(), 1706745600000);
}

#[test]
fn datetime_test_datetime_now() {
    let dt = DateTime::now();
    assert!(dt.to_millis() > 0);
}

#[test]
fn test_datetime_default() {
    let dt = DateTime::default();
    assert_eq!(dt.to_millis(), 0);
    assert!(dt.is_zero());
}

#[test]
fn test_datetime_conversions() {
    let ms: i64 = 1706745600000;
    let dt: DateTime = ms.into();
    let back: i64 = dt.into();
    assert_eq!(ms, back);
}

#[test]
fn test_datetime_nano_from_nanos() {
    let dt = DateTimeNano::from_nanos(1706745600_000_000_000);
    assert_eq!(dt.to_nanos(), 1706745600_000_000_000);
    assert_eq!(dt.to_millis(), 1706745600_000);
    assert_eq!(dt.to_micros(), 1706745600_000_000);
}

#[test]
fn test_datetime_nano_from_millis() {
    let dt = DateTimeNano::from_millis(1706745600000);
    assert_eq!(dt.to_nanos(), 1706745600_000_000_000);
}

#[test]
fn test_datetime_nano_from_micros() {
    // Compatible with microsecond-precision datetime sources.
    let dt = DateTimeNano::from_micros(1706745600_000_000);
    assert_eq!(dt.to_nanos(), 1706745600_000_000_000);
}

#[test]
fn test_datetime_nano_to_datetime() {
    let nano = DateTimeNano::from_nanos(1706745600_123_456_789);
    let dt = nano.to_datetime();
    assert_eq!(dt.to_millis(), 1706745600_123); // nanoseconds truncated
}

#[test]
fn test_datetime_to_datetime_nano() {
    let dt = DateTime::from_millis(1706745600_123);
    let nano: DateTimeNano = dt.into();
    assert_eq!(nano.to_nanos(), 1706745600_123_000_000);
}

#[test]
fn test_datetime_nano_now() {
    let dt = DateTimeNano::now();
    assert!(dt.to_nanos() > 0);
}

#[test]
fn test_datetime_negative_truncation() {
    // Truncating division, as the host language's division operator.
    let dt = DateTime::from_millis(-1500);
    assert_eq!(dt.to_secs(), -1);
    let nano = DateTimeNano::from_nanos(-1_500_000_000);
    assert_eq!(nano.to_millis(), -1500);
    assert_eq!(nano.to_datetime().to_millis(), -1500);
}
