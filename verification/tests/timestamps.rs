use timew_report::timewarrior_datetime::{
    date_time_to_date_string, has_timestamp_pattern, parse, timestamp_of_reading, Duration,
    InvalidTimestamp, Timestamp, MAX_SECONDS,
};

#[test]
fn parse_reads_the_epoch() {
    let t = parse("19700101T000000Z").unwrap();
    assert_eq!(t.seconds(), 0);
    assert_eq!(Timestamp::from_seconds(0).unwrap().seconds(), 0);
}

#[test]
fn parse_counts_seconds_from_the_epoch() {
    assert_eq!(parse("20240101T000000Z").unwrap().seconds(), 1_704_067_200);
    assert_eq!(parse("20240229T235959Z").unwrap().seconds(), 1_709_251_199);
    assert_eq!(parse("19691231T235959Z").unwrap().seconds(), -1);
}

#[test]
fn parse_applies_no_time_zone() {
    let start = parse("20240310T013000Z").unwrap();
    let end = parse("20240310T033000Z").unwrap();
    assert_eq!(end.signed_duration_since(&start).num_seconds(), 7200);
}

#[test]
fn parse_rejects_what_is_no_timestamp() {
    assert_eq!(parse("").err(), Some(InvalidTimestamp));
    assert_eq!(parse("2024-01-01T00:00:00Z").err(), Some(InvalidTimestamp));
    assert_eq!(parse("20240101T000000").err(), Some(InvalidTimestamp));
    assert_eq!(parse("20241301T000000Z").err(), Some(InvalidTimestamp));
    assert_eq!(parse("20240230T000000Z").err(), Some(InvalidTimestamp));
    assert_eq!(parse("20240101T240000Z").err(), Some(InvalidTimestamp));
    assert_eq!(parse("20240101T000000Z trailing").err(), Some(InvalidTimestamp));
    assert_eq!(parse("Invalid date").err(), Some(InvalidTimestamp));
}

#[test]
fn timestamp_of_reading_checks_the_range() {
    assert_eq!(timestamp_of_reading(Some(17)).unwrap().seconds(), 17);
    assert_eq!(timestamp_of_reading(Some(MAX_SECONDS)).unwrap().seconds(), MAX_SECONDS);
    assert_eq!(timestamp_of_reading(Some(MAX_SECONDS + 1)).err(), Some(InvalidTimestamp));
    assert_eq!(timestamp_of_reading(Some(i64::MIN)).err(), Some(InvalidTimestamp));
    assert_eq!(timestamp_of_reading(None).err(), Some(InvalidTimestamp));
}

#[test]
fn from_seconds_keeps_to_the_range() {
    assert!(Timestamp::from_seconds(MAX_SECONDS).is_some());
    assert!(Timestamp::from_seconds(-MAX_SECONDS).is_some());
    assert!(Timestamp::from_seconds(MAX_SECONDS + 1).is_none());
    assert!(Timestamp::from_seconds(-MAX_SECONDS - 1).is_none());
    assert!(Timestamp::from_seconds(i64::MAX).is_none());
    assert!(Timestamp::from_seconds(i64::MIN).is_none());
}

#[test]
fn date_string_is_the_date_written_in_the_timestamp() {
    let t = parse("20240101T000000Z").unwrap();
    assert_eq!(date_time_to_date_string(t), Some(String::from("2024-01-01")));
    let t = parse("20231231T235959Z").unwrap();
    assert_eq!(date_time_to_date_string(t), Some(String::from("2023-12-31")));
    let t = Timestamp::from_seconds(0).unwrap();
    assert_eq!(date_time_to_date_string(t), Some(String::from("1970-01-01")));
    let t = Timestamp::from_seconds(-1).unwrap();
    assert_eq!(date_time_to_date_string(t), Some(String::from("1969-12-31")));
}

#[test]
fn date_string_is_missing_beyond_the_calendar() {
    let t = Timestamp::from_seconds(MAX_SECONDS).unwrap();
    assert_eq!(date_time_to_date_string(t), None);
    let t = Timestamp::from_seconds(-MAX_SECONDS).unwrap();
    assert_eq!(date_time_to_date_string(t), None);
}

#[test]
fn signed_duration_since_is_the_difference() {
    let a = Timestamp::from_seconds(100).unwrap();
    let b = Timestamp::from_seconds(40).unwrap();
    assert_eq!(a.signed_duration_since(&b).num_seconds(), 60);
    assert_eq!(b.signed_duration_since(&a).num_seconds(), -60);
    assert_eq!(a.signed_duration_since(&a).num_seconds(), 0);
    let high = Timestamp::from_seconds(MAX_SECONDS).unwrap();
    let low = Timestamp::from_seconds(-MAX_SECONDS).unwrap();
    assert_eq!(high.signed_duration_since(&low).num_seconds(), 2 * (MAX_SECONDS as i128));
    assert_eq!(low.signed_duration_since(&high).num_seconds(), -2 * (MAX_SECONDS as i128));
}

#[test]
fn checked_sub_signed_moves_back() {
    let t = parse("20240201T000000Z").unwrap();
    let back = t.checked_sub_signed(&Duration::seconds(1)).unwrap();
    assert_eq!(back.seconds(), t.seconds() - 1);
    assert_eq!(date_time_to_date_string(back), Some(String::from("2024-01-31")));
    let forth = t.checked_sub_signed(&Duration::seconds(-86_400)).unwrap();
    assert_eq!(date_time_to_date_string(forth), Some(String::from("2024-02-02")));
}

#[test]
fn checked_sub_signed_stops_at_the_range() {
    let low = Timestamp::from_seconds(-MAX_SECONDS).unwrap();
    assert!(low.checked_sub_signed(&Duration::seconds(1)).is_none());
    assert_eq!(low.checked_sub_signed(&Duration::seconds(0)).unwrap().seconds(), -MAX_SECONDS);
    let high = Timestamp::from_seconds(MAX_SECONDS).unwrap();
    assert!(high.checked_sub_signed(&Duration::seconds(-1)).is_none());
    assert!(high.checked_sub_signed(&Duration::seconds(i128::MAX)).is_none());
    assert!(high.checked_sub_signed(&Duration::seconds(i128::MIN)).is_none());
    assert_eq!(
        high.checked_sub_signed(&Duration::seconds(2 * (MAX_SECONDS as i128))).unwrap().seconds(),
        -MAX_SECONDS
    );
}

#[test]
fn num_minutes_rounds_towards_zero() {
    assert_eq!(Duration::zero().num_minutes(), 0);
    assert_eq!(Duration::zero().num_seconds(), 0);
    assert_eq!(Duration::seconds(59).num_minutes(), 0);
    assert_eq!(Duration::seconds(60).num_minutes(), 1);
    assert_eq!(Duration::seconds(7199).num_minutes(), 119);
    assert_eq!(Duration::seconds(-59).num_minutes(), 0);
    assert_eq!(Duration::seconds(-60).num_minutes(), -1);
    assert_eq!(Duration::seconds(-61).num_minutes(), -1);
    assert_eq!(Duration::seconds(-61).num_seconds(), -61);
}

#[test]
fn parse_takes_only_the_fixed_shape() {
    assert_eq!(parse(" 20240101T000000Z").err(), Some(InvalidTimestamp));
    assert_eq!(parse("20240101T000000Z ").err(), Some(InvalidTimestamp));
    assert_eq!(parse("2024 1 1T 0 0 0Z").err(), Some(InvalidTimestamp));
    assert_eq!(parse("2024 101T000000Z").err(), Some(InvalidTimestamp));
    assert_eq!(parse("20240101T 00000Z").err(), Some(InvalidTimestamp));
    assert_eq!(parse("+2024101T000000Z").err(), Some(InvalidTimestamp));
    assert_eq!(parse("20240101t000000Z").err(), Some(InvalidTimestamp));
    assert_eq!(parse("20240101T000000z").err(), Some(InvalidTimestamp));
    assert_eq!(parse("\u{ff12}0240101T000000Z").err(), Some(InvalidTimestamp));
    assert_eq!(parse("2024010T0000000Z").err(), Some(InvalidTimestamp));
}

#[test]
fn parse_reads_the_ends_of_the_four_digit_years() {
    assert_eq!(parse("00000101T000000Z").unwrap().seconds(), -62_167_219_200);
    assert_eq!(parse("99991231T235959Z").unwrap().seconds(), 253_402_300_799);
    let first = parse("00000101T000000Z").unwrap();
    assert_eq!(date_time_to_date_string(first), Some(String::from("0000-01-01")));
    let last = parse("99991231T235959Z").unwrap();
    assert_eq!(date_time_to_date_string(last), Some(String::from("9999-12-31")));
}

#[test]
fn a_second_written_sixty_counts_as_the_one_before() {
    assert_eq!(
        parse("20240101T235960Z").unwrap().seconds(),
        parse("20240101T235959Z").unwrap().seconds()
    );
    assert_eq!(parse("20240101T235961Z").err(), Some(InvalidTimestamp));
}

#[test]
fn pattern_is_eight_digits_t_six_digits_z() {
    assert!(has_timestamp_pattern("20240101T000000Z"));
    assert!(has_timestamp_pattern("99999999T999999Z"));
    assert!(has_timestamp_pattern("00000000T000000Z"));
    assert!(!has_timestamp_pattern(""));
    assert!(!has_timestamp_pattern("20240101T000000"));
    assert!(!has_timestamp_pattern("20240101T000000ZZ"));
    assert!(!has_timestamp_pattern("20240101 000000Z"));
    assert!(!has_timestamp_pattern("2024010aT000000Z"));
    assert!(!has_timestamp_pattern("20240101T00000/Z"));
    assert!(!has_timestamp_pattern("20240101T00000:Z"));
    assert!(!has_timestamp_pattern("/0240101T000000Z"));
    assert!(!has_timestamp_pattern(":0240101T000000Z"));
    assert!(!has_timestamp_pattern("20240101T000000\u{17d}"));
    assert!(!has_timestamp_pattern("2024-01-01T00:00Z"));
}

#[test]
fn parse_rejects_dates_and_times_that_are_none() {
    assert_eq!(parse("99999999T999999Z").err(), Some(InvalidTimestamp));
    assert_eq!(parse("20240000T000000Z").err(), Some(InvalidTimestamp));
    assert_eq!(parse("20230229T000000Z").err(), Some(InvalidTimestamp));
    assert_eq!(parse("20240101T006000Z").err(), Some(InvalidTimestamp));
}
