use pixel_canvas::models::ServiceError;
use pixel_canvas::utils::{epoch_to_day, epoch_to_iso_string, iso_string_result};

#[test]
fn day_is_whole_days_since_the_epoch() {
    assert_eq!(epoch_to_day(0), 0);
    assert_eq!(epoch_to_day(86_399), 0);
    assert_eq!(epoch_to_day(86_400), 1);
    assert_eq!(epoch_to_day(1_577_836_800), 18_262);
    assert_eq!(epoch_to_day(1_577_838_600), 18_262);
    assert_eq!(epoch_to_day(u64::MAX), 213_503_982_334_601);
}

#[test]
fn epoch_is_written_as_rfc3339_in_utc() {
    assert_eq!(epoch_to_iso_string(0), Ok("1970-01-01T00:00:00+00:00".to_string()));
    assert_eq!(
        epoch_to_iso_string(1_735_689_600_000),
        Ok("2025-01-01T00:00:00+00:00".to_string())
    );
    assert_eq!(
        epoch_to_iso_string(1_577_837_700_000),
        Ok("2020-01-01T00:15:00+00:00".to_string())
    );
    assert_eq!(
        epoch_to_iso_string(1_577_837_700_123),
        Ok("2020-01-01T00:15:00.123+00:00".to_string())
    );
    assert_eq!(epoch_to_iso_string(-1000), Ok("1969-12-31T23:59:59+00:00".to_string()));
}

#[test]
fn epoch_outside_the_calendar_is_fatal() {
    let expected =
        Err(ServiceError::Fatal("Cannot convert unix epoch to datetime format".to_string()));
    assert_eq!(epoch_to_iso_string(i64::MAX), expected);
    assert_eq!(epoch_to_iso_string(i64::MIN), expected);
}

#[test]
fn formatted_instant_becomes_the_result() {
    assert_eq!(iso_string_result(Some("x".to_string())), Ok("x".to_string()));
    assert_eq!(
        iso_string_result(None),
        Err(ServiceError::Fatal("Cannot convert unix epoch to datetime format".to_string()))
    );
}
