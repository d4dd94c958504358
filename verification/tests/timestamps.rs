use neurographrag::errors::AppError;
use neurographrag::timestamps::{parse_epoch_seconds, parse_timestamp_arg, timestamp_arg_from};

fn validation_detail(r: Result<i64, AppError>) -> String {
    match r {
        Err(AppError::Validation(m)) => m,
        other => panic!("expected a validation error, got {:?}", other),
    }
}

#[test]
fn epoch_seconds_read_as_str_parse_reads_them() {
    assert_eq!(parse_epoch_seconds("1700000000"), Some(1700000000));
    assert_eq!(parse_epoch_seconds("+42"), Some(42));
    assert_eq!(parse_epoch_seconds("-42"), Some(-42));
    assert_eq!(parse_epoch_seconds("007"), Some(7));
    assert_eq!(parse_epoch_seconds("9223372036854775807"), Some(i64::MAX));
    assert_eq!(parse_epoch_seconds("-9223372036854775808"), Some(i64::MIN));
    for bad in ["", "+", "-", "9223372036854775808", "-9223372036854775809", "12a", " 1", "1_000", "١٢"] {
        assert_eq!(parse_epoch_seconds(bad), None, "{bad:?}");
        assert_eq!(parse_epoch_seconds(bad), bad.parse::<i64>().ok(), "{bad:?}");
    }
    for good in ["0", "-0", "+0", "123456789012345678"] {
        assert_eq!(parse_epoch_seconds(good), good.parse::<i64>().ok(), "{good:?}");
    }
}

#[test]
fn timestamp_argument_takes_seconds_or_rfc3339() {
    assert_eq!(parse_timestamp_arg("1700000000").unwrap(), 1700000000);
    assert_eq!(parse_timestamp_arg("2024-01-01T00:00:00Z").unwrap(), 1704067200);
    assert_eq!(parse_timestamp_arg("2024-01-01T02:00:00+02:00").unwrap(), 1704067200);
    assert_eq!(parse_timestamp_arg("1970-01-01T00:00:00Z").unwrap(), 0);
}

#[test]
fn timestamp_argument_that_is_neither_is_a_validation_error() {
    assert_eq!(
        validation_detail(parse_timestamp_arg("yesterday")),
        "expected Unix seconds or an RFC 3339 timestamp, got 'yesterday'"
    );
    assert!(parse_timestamp_arg("2024-13-01T00:00:00Z").is_err());
    assert_eq!(parse_timestamp_arg("yesterday").unwrap_err().exit_code(), 1);
}

#[test]
fn seconds_win_over_the_rfc3339_reading() {
    assert_eq!(timestamp_arg_from("15", Some(99)).unwrap(), 15);
    assert_eq!(timestamp_arg_from("later", Some(99)).unwrap(), 99);
    assert_eq!(
        validation_detail(timestamp_arg_from("later", None)),
        "expected Unix seconds or an RFC 3339 timestamp, got 'later'"
    );
}
