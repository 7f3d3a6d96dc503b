use chrono::NaiveDate;
use slot_booking::controllers::time_helper::{
    to_naive_datetime, to_ymdhm_str, try_to_naive_datetime, try_to_ymdhm_str,
};

#[test]
fn test_to_naive_datetime() {
    let date = to_naive_datetime("2020/01/01 10:00");
    assert_eq!(
        date,
        NaiveDate::from_ymd_opt(2020, 1, 1)
            .and_then(|x| x.and_hms_opt(10, 0, 0))
            .unwrap()
            .and_utc()
            .timestamp()
    );
}

#[test]
fn test_to_ymdhm_str() {
    let date = NaiveDate::from_ymd_opt(2020, 1, 1)
        .and_then(|x| x.and_hms_opt(10, 0, 0))
        .unwrap()
        .and_utc()
        .timestamp();
    assert_eq!(to_ymdhm_str(&date), "2020/01/01 10:00");
}

#[test]
fn instants_are_seconds_since_the_epoch() {
    assert_eq!(to_naive_datetime("1970/01/01 00:00"), 0);
    assert_eq!(to_naive_datetime("1970/01/01 00:30"), 1800);
    assert_eq!(to_naive_datetime("2020/01/01 10:00"), 1577872800);
    assert_eq!(to_ymdhm_str(&0), "1970/01/01 00:00");
    assert_eq!(to_ymdhm_str(&1577872800), "2020/01/01 10:00");
    assert_eq!(to_ymdhm_str(&-60), "1969/12/31 23:59");
}

#[test]
fn seconds_are_not_written() {
    assert_eq!(to_ymdhm_str(&1577872859), "2020/01/01 10:00");
}

#[test]
fn text_and_instant_go_back_and_forth() {
    let text = "2024/02/29 19:30";
    assert_eq!(to_ymdhm_str(&to_naive_datetime(text)), text);
}

#[test]
fn text_that_is_no_date_is_rejected() {
    assert_eq!(try_to_naive_datetime("2020/01/01 10:00"), Some(1577872800));
    assert_eq!(try_to_naive_datetime("2020-01-01 10:00"), None);
    assert_eq!(try_to_naive_datetime("2020/01/01"), None);
    assert_eq!(try_to_naive_datetime("2020/13/01 10:00"), None);
    assert_eq!(try_to_naive_datetime("2020/01/01 24:00"), None);
    assert_eq!(try_to_naive_datetime(""), None);
}

#[test]
fn instants_beyond_the_calendar_are_not_written() {
    assert_eq!(try_to_ymdhm_str(&1577872800), Some("2020/01/01 10:00".to_string()));
    assert_eq!(try_to_ymdhm_str(&i64::MAX), None);
    assert_eq!(try_to_ymdhm_str(&i64::MIN), None);
}
