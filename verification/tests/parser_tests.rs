use bokatvattid_api::api::utils::{bool_from_int, date_from_string};
use bokatvattid_api::dates::{Date, DateTime, Duration, Time};
use bokatvattid_api::text::{chars_of, parse_hhmm_chars};
use bokatvattid_api::time_slot_desc::{
    deserialize_time_slot_desc, TimeSlotDesc, TimeSlotParseError,
};

fn time_of(s: &str) -> Time {
    parse_hhmm_chars(&chars_of(s)).unwrap()
}

#[test]
fn deserialize_time_slot_desc_parses_start_and_end() {
    let date = date_from_string("2022-08-22").unwrap();
    let result = deserialize_time_slot_desc("15:00 - 16:00", date).unwrap();
    assert_eq!(
        result,
        TimeSlotDesc {
            duration: Duration::hours(1),
            date: DateTime::new(date, time_of("15:00")),
        }
    );
}

#[test]
fn deserialize_time_slot_desc_parses_start_and_end_and_date() {
    let date = date_from_string("2022-08-22").unwrap();
    let result = deserialize_time_slot_desc("15:00 - 16:00 (23/8)", date).unwrap();
    assert_eq!(
        result,
        TimeSlotDesc {
            duration: Duration::hours(25),
            date: DateTime::new(date, time_of("15:00")),
        }
    );
}

#[test]
fn deserialize_time_slot_desc_parses_start_and_end_and_date_next_year() {
    let date = date_from_string("2022-12-31").unwrap();
    let result = deserialize_time_slot_desc("15:00 - 16:00 (1/1)", date).unwrap();
    assert_eq!(
        result,
        TimeSlotDesc {
            duration: Duration::hours(25),
            date: DateTime::new(date, time_of("15:00")),
        }
    );
}

#[test]
fn negative_duration_is_kept() {
    let date = date_from_string("2022-08-22").unwrap();
    let result = deserialize_time_slot_desc("16:00 - 15:00", date).unwrap();
    assert_eq!(result.duration.seconds, -3600);
    assert_eq!(result.duration.num_hours(), -1);
}

#[test]
fn parsing_twice_yields_identical_output() {
    let date = date_from_string("2022-12-31").unwrap();
    let first = deserialize_time_slot_desc("15:00 - 16:00 (1/1)", date);
    let second = deserialize_time_slot_desc("15:00 - 16:00 (1/1)", date);
    assert_eq!(first, second);
}

#[test]
fn malformed_day_gives_day_error_distinct_from_month_error() {
    let date = date_from_string("2022-08-22").unwrap();
    let day_err = deserialize_time_slot_desc("15:00 - 16:00 (x/8)", date).unwrap_err();
    let month_err = deserialize_time_slot_desc("15:00 - 16:00 (23/x)", date).unwrap_err();
    assert_eq!(day_err, TimeSlotParseError::ParseDay);
    assert_eq!(month_err, TimeSlotParseError::ParseMonth);
    assert_ne!(day_err, month_err);
}

#[test]
fn swapped_day_and_month_reproduce_historical_failure() {
    let date = date_from_string("2022-08-22").unwrap();
    let result = deserialize_time_slot_desc("15:00 - 16:00 (8/23)", date);
    assert_eq!(result.unwrap_err(), TimeSlotParseError::ParseEnd);
}

#[test]
fn unparsable_start_time_is_start_error() {
    let date = date_from_string("2022-08-22").unwrap();
    let result = deserialize_time_slot_desc("xx:00 - 16:00", date);
    assert_eq!(result.unwrap_err(), TimeSlotParseError::StartDate);
}

#[test]
fn time_errors_take_precedence_over_hint_errors() {
    let date = date_from_string("2022-08-22").unwrap();
    let result = deserialize_time_slot_desc("xx:00 16:00 (a/1)", date);
    assert_eq!(result.unwrap_err(), TimeSlotParseError::StartDate);
    let result = deserialize_time_slot_desc("15:00 xx (a/1)", date);
    assert_eq!(result.unwrap_err(), TimeSlotParseError::EndDate);
}

#[test]
fn unparsable_end_time_is_end_error() {
    let date = date_from_string("2022-08-22").unwrap();
    let result = deserialize_time_slot_desc("15:00 - xx", date);
    assert_eq!(result.unwrap_err(), TimeSlotParseError::EndDate);
}

#[test]
fn impossible_end_date_is_parse_end_error() {
    let date = date_from_string("2022-08-22").unwrap();
    let result = deserialize_time_slot_desc("15:00 - 16:00 (31/2)", date);
    assert_eq!(result.unwrap_err(), TimeSlotParseError::ParseEnd);
}

#[test]
fn rollover_past_last_supported_year_is_overflow_error() {
    let date = date_from_string("9999-12-31").unwrap();
    let result = deserialize_time_slot_desc("15:00 - 16:00 (1/1)", date);
    assert_eq!(result.unwrap_err(), TimeSlotParseError::Overflow);
}

#[test]
fn error_messages_name_each_failure() {
    assert_eq!(TimeSlotParseError::ParseMonth.message(), "Could not parse month");
    assert_eq!(TimeSlotParseError::ParseDay.message(), "Could not parse day");
    assert_eq!(TimeSlotParseError::ParseEnd.message(), "Could not parse end");
    assert_eq!(TimeSlotParseError::StartDate.message(), "Could not parse start date");
    assert_eq!(TimeSlotParseError::EndDate.message(), "Could not parse end date");
    assert_eq!(TimeSlotParseError::Overflow.message(), "Year overflow");
    assert_eq!(TimeSlotParseError::AlarmDate.message(), "Could not parse alarm date");
}

#[test]
fn time_of_day_grammar_accepts_short_and_rejects_out_of_range() {
    assert_eq!(time_of("9:5"), Time { hour: 9, minute: 5, second: 0 });
    assert_eq!(parse_hhmm_chars(&chars_of("24:00")), None);
    assert_eq!(parse_hhmm_chars(&chars_of("15:60")), None);
    assert_eq!(parse_hhmm_chars(&chars_of("15:000")), None);
    assert_eq!(parse_hhmm_chars(&chars_of("15")), None);
}

#[test]
fn time_of_day_grammar_allows_whitespace_before_each_number() {
    assert_eq!(time_of(" 09:00"), Time { hour: 9, minute: 0, second: 0 });
    assert_eq!(time_of("09: 30"), Time { hour: 9, minute: 30, second: 0 });
    assert_eq!(parse_hhmm_chars(&chars_of("09 :30")), None);
    assert_eq!(parse_hhmm_chars(&chars_of("09:30 ")), None);
}

#[test]
fn date_from_string_reads_the_wire_format() {
    assert_eq!(
        date_from_string("2012-11-12"),
        Some(Date { year: 2012, month: 11, day: 12 })
    );
    assert_eq!(
        date_from_string("2024-02-29"),
        Some(Date { year: 2024, month: 2, day: 29 })
    );
    assert_eq!(date_from_string("2023-02-29"), None);
    assert_eq!(date_from_string("2022-13-01"), None);
    assert_eq!(date_from_string("2022/08/22"), None);
    assert_eq!(date_from_string("2022-08-22 "), None);
    assert_eq!(date_from_string("20220-8-22"), None);
}

#[test]
fn date_from_string_allows_short_fields_and_leading_whitespace() {
    assert_eq!(
        date_from_string("2022-8-22"),
        Some(Date { year: 2022, month: 8, day: 22 })
    );
    assert_eq!(
        date_from_string("22-08-22"),
        Some(Date { year: 22, month: 8, day: 22 })
    );
    assert_eq!(
        date_from_string(" 2022- 8- 2"),
        Some(Date { year: 2022, month: 8, day: 2 })
    );
}

#[test]
fn twelve_month_advance_clamps_only_the_day() {
    let leap_day = Date::from_ymd(2024, 2, 29).unwrap();
    assert_eq!(
        leap_day.checked_add_12_months(),
        Some(Date { year: 2025, month: 2, day: 28 })
    );
    let plain = Date::from_ymd(2022, 1, 1).unwrap();
    assert_eq!(
        plain.checked_add_12_months(),
        Some(Date { year: 2023, month: 1, day: 1 })
    );
}

#[test]
fn tokens_beyond_the_hint_are_ignored() {
    let date = date_from_string("2022-08-22").unwrap();
    let with_extra = deserialize_time_slot_desc("15:00 - 16:00 (23/8) extra", date);
    let without = deserialize_time_slot_desc("15:00 - 16:00 (23/8)", date);
    assert_eq!(with_extra, without);
}

#[test]
fn only_the_exact_dash_token_is_dropped() {
    let date = date_from_string("2022-08-22").unwrap();
    let glued = deserialize_time_slot_desc("15:00-16:00", date);
    assert_eq!(glued.unwrap_err(), TimeSlotParseError::StartDate);
    // "--" is kept as a token and read as the end time.
    let doubled = deserialize_time_slot_desc("15:00 -- 16:00", date);
    assert_eq!(doubled.unwrap_err(), TimeSlotParseError::EndDate);
}

#[test]
fn bool_from_int_accepts_only_zero_and_one() {
    assert_eq!(bool_from_int(0), Some(false));
    assert_eq!(bool_from_int(1), Some(true));
    assert_eq!(bool_from_int(2), None);
}
