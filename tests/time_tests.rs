use chrono::{FixedOffset, Local, NaiveDateTime, TimeZone, Utc};
use taskmao::stamp::{format_stamp, parse_stamp, Stamp};
use taskmao::terror::ErrorKind;
use taskmao::time::{
    convert_to_local_timestamp, convert_to_utc_timestr, get_current_utc_string,
    get_time_between_stamps, get_todays_date, is_time_yesterday, is_valid_timestr,
    checked_date_text, checked_display, checked_stamp_text, day_ago_text, get_day_ago_utc_string,
    local_display, local_start_stamp, pad_clock_input, previous_day,
    resolve_clock_input,
};

fn stamp(year: i32, month: u32, day: u32, hour: u32, minute: u32, second: u32) -> Stamp {
    Stamp { year, month, day, hour, minute, second }
}

#[test]
fn test_convert_invalid_local_to_utc_fails() {
    let timest = "100:10:10";
    assert_eq!(convert_to_utc_timestr(&timest).is_err(), true);
}

#[test]
fn test_convert_truncated_local_to_utc_fails() {
    let timest = "10";
    assert_eq!(convert_to_utc_timestr(&timest).is_err(), true);
}

#[test]
fn test_display_local_timestamp_error_hit() {
    let timest = "arestneasrtn";
    assert_eq!(convert_to_local_timestamp(&timest, false).is_err(), true);
}

#[test]
fn test_display_local_timestamp_error_incorrect_format() {
    let timest = "009:009:009";
    assert_eq!(convert_to_local_timestamp(&timest, false).is_err(), true);
}

#[test]
fn test_get_todays_date() {
    assert_eq!(get_todays_date().unwrap(), Local::now().format("%Y-%m-%d").to_string());
}

#[test]
fn test_is_time_yesterday() {
    assert_eq!(is_time_yesterday("08:08:08", "09:09:09"), true);
    assert_eq!(is_time_yesterday("08:08:08", "07:59:59"), false);
    assert_eq!(is_time_yesterday("00:01:08", "23:09:09"), true);
    assert_eq!(is_time_yesterday("01:01:08", "01:01:00"), false);
}

#[test]
fn test_is_valid_timestr() {
    let valid_strs = vec!["01:01:00", "12:12:59", "23:59:28", "23:59:40"];
    let invalid_strs = vec!["22:80:00", "21:21:80", "111:12:12", "10:10", "09:09", "09"];

    for str in &valid_strs {
        assert_eq!(is_valid_timestr(str), true);
    }

    for str in &invalid_strs {
        assert_eq!(is_valid_timestr(str), false);
    }
}

#[test]
fn test_time_since_start() {
    let begin_time = "2021-03-18 23:36:24";
    let end_time = "2021-03-18 23:36:59";
    let prev_time = Utc.with_ymd_and_hms(2021, 03, 18, 23, 36, 24).unwrap();
    let future_time = Utc.with_ymd_and_hms(2021, 03, 18, 23, 36, 59).unwrap();
    let actual = get_time_between_stamps(begin_time, end_time);
    assert_eq!(actual.unwrap(), (future_time - prev_time).num_seconds());
}

#[test]
fn test_time_since_start_minutes() {
    let begin_time = "2021-03-18 23:36:24";
    let end_time = "2021-03-18 23:38:59";
    let prev_time = Utc.with_ymd_and_hms(2021, 03, 18, 23, 36, 24).unwrap();
    let future_time = Utc.with_ymd_and_hms(2021, 03, 18, 23, 38, 59).unwrap();
    let actual = get_time_between_stamps(begin_time, end_time);
    assert_eq!(actual.unwrap(), (future_time - prev_time).num_seconds());
}

#[test]
fn test_time_since_start_hours() {
    let begin_time = "2021-03-18 23:36:24";
    let end_time = "2021-03-19 01:38:59";
    let prev_time = Utc.with_ymd_and_hms(2021, 03, 18, 23, 36, 24).unwrap();
    let future_time = Utc.with_ymd_and_hms(2021, 03, 19, 01, 38, 59).unwrap();
    let actual = get_time_between_stamps(begin_time, end_time);
    assert_eq!(actual.unwrap(), (future_time - prev_time).num_seconds());
}

#[test]
fn duration_between_is_two_hours_two_minutes_thirty_five_seconds() {
    let d = get_time_between_stamps("2021-03-18 23:36:24", "2021-03-19 01:38:59").unwrap();
    assert_eq!(d, 2 * 3600 + 2 * 60 + 35);
}

#[test]
fn duration_between_is_negative_backwards_and_spans_leap_days() {
    assert_eq!(get_time_between_stamps("2021-03-18 23:36:59", "2021-03-18 23:36:24").unwrap(), -35);
    assert_eq!(get_time_between_stamps("2020-02-28 00:00:00", "2020-03-01 00:00:00").unwrap(), 2 * 86400);
    assert_eq!(get_time_between_stamps("2021-02-28 00:00:00", "2021-03-01 00:00:00").unwrap(), 86400);
    assert_eq!(get_time_between_stamps("1999-12-31 23:59:59", "2000-01-01 00:00:00").unwrap(), 1);
}

#[test]
fn duration_between_rejects_malformed_stamps() {
    let e = get_time_between_stamps("2021-03-18 23:36", "2021-03-19 01:38:59").unwrap_err();
    assert_eq!(e.kind, ErrorKind::Parse);
    let e = get_time_between_stamps("2021-03-18 23:36:24", "2021-02-30 01:38:59").unwrap_err();
    assert_eq!(e.kind, ErrorKind::Parse);
}

#[test]
fn invalid_clock_inputs_fail_with_invalid_timestamp() {
    for input in ["24:00:00", "12:60", "12:00:60", "ab:cd:ef", "", "7:05:00", "12-00-00", "123:00"] {
        let e = convert_to_utc_timestr(input).unwrap_err();
        assert_eq!(e.kind, ErrorKind::InvalidTimestamp, "input {:?}", input);
    }
}

#[test]
fn clock_input_without_seconds_is_padded() {
    assert_eq!(pad_clock_input("15:44"), "15:44:00");
    assert_eq!(pad_clock_input("15:44:56"), "15:44:56");
    assert_eq!(pad_clock_input("10"), "10:00");
}

#[test]
fn converted_clock_input_is_a_canonical_stamp() {
    let s = convert_to_utc_timestr("15:44").unwrap();
    assert!(parse_stamp(&s).is_some());
    let back = convert_to_local_timestamp(&s, false).unwrap();
    assert_eq!(back, "15:44:00");
}

#[test]
fn clock_input_round_trips_through_utc() {
    let s = convert_to_utc_timestr("00:00:01").unwrap();
    assert_eq!(convert_to_local_timestamp(&s, false).unwrap(), "00:00:01");
}

#[test]
fn local_display_with_and_without_date() {
    let t = stamp(1983, 4, 13, 22, 9, 14);
    assert_eq!(local_display(&t, false), "22:09:14");
    assert_eq!(local_display(&t, true), "1983-04-13 22:09:14");
}

#[test]
fn converted_local_stamp_keeps_date_format() {
    let shown = convert_to_local_timestamp("1983-04-13 12:09:14", true).unwrap();
    assert!(parse_stamp(&shown).is_some());
    let clock = convert_to_local_timestamp("1983-04-13 12:09:14", false).unwrap();
    assert!(is_valid_timestr(&clock));
    assert!(shown.ends_with(&clock));
}

#[test]
fn clock_later_than_now_means_yesterday() {
    let now = stamp(2021, 3, 1, 8, 0, 0);
    assert_eq!(local_start_stamp("09:00:00", &now), stamp(2021, 2, 28, 9, 0, 0));
    assert_eq!(local_start_stamp("07:00:00", &now), stamp(2021, 3, 1, 7, 0, 0));
    assert_eq!(local_start_stamp("08:00:00", &now), stamp(2021, 3, 1, 8, 0, 0));
    let new_year = stamp(2021, 1, 1, 0, 0, 5);
    assert_eq!(local_start_stamp("23:59:59", &new_year), stamp(2020, 12, 31, 23, 59, 59));
}

#[test]
fn resolved_clock_input_displays_as_typed() {
    let now = stamp(2021, 3, 1, 8, 0, 0);
    for input in ["15:44:56", "00:00:00", "23:59:59", "07:59:59"] {
        let t = resolve_clock_input(input, &now).unwrap();
        assert_eq!(local_display(&t, false), input);
    }
    let t = resolve_clock_input("15:44", &now).unwrap();
    assert_eq!(local_display(&t, true), "2021-02-28 15:44:00");
    assert_eq!(resolve_clock_input("25:00", &now).unwrap_err().kind, ErrorKind::InvalidTimestamp);
}

#[test]
fn previous_day_crosses_months_years_and_leap_days() {
    assert_eq!(previous_day(&stamp(2021, 3, 18, 1, 2, 3)), stamp(2021, 3, 17, 1, 2, 3));
    assert_eq!(previous_day(&stamp(2021, 3, 1, 1, 2, 3)), stamp(2021, 2, 28, 1, 2, 3));
    assert_eq!(previous_day(&stamp(2020, 3, 1, 1, 2, 3)), stamp(2020, 2, 29, 1, 2, 3));
    assert_eq!(previous_day(&stamp(2021, 1, 1, 1, 2, 3)), stamp(2020, 12, 31, 1, 2, 3));
    assert_eq!(previous_day(&stamp(2021, 5, 1, 0, 0, 0)), stamp(2021, 4, 30, 0, 0, 0));
}

#[test]
fn canonical_stamps_round_trip() {
    for text in ["2021-03-18 23:36:24", "0000-01-01 00:00:00", "9999-12-31 23:59:59", "2020-02-29 12:00:00"] {
        let t = parse_stamp(text).unwrap();
        assert_eq!(format_stamp(&t), text);
    }
    assert_eq!(parse_stamp("2021-03-18 23:36:24"), Some(stamp(2021, 3, 18, 23, 36, 24)));
}

#[test]
fn malformed_stamps_are_refused() {
    for text in [
        "2021-02-29 00:00:00",
        "1900-02-29 00:00:00",
        "2021-13-01 00:00:00",
        "2021-00-01 00:00:00",
        "2021-04-31 00:00:00",
        "2021-03-18 24:00:00",
        "2021-03-18 23:60:00",
        "2021-03-18 23:00:60",
        "2021-03-18T23:36:24",
        "2021-3-18 23:36:24",
        "2021-03-18 23:36:24 ",
        "",
    ] {
        assert_eq!(parse_stamp(text), None, "text {:?}", text);
    }
}

#[test]
fn current_utc_string_is_canonical() {
    let s = get_current_utc_string().unwrap();
    assert!(parse_stamp(&s).is_some());
    let now = Utc::now().format("%Y-%m-%d").to_string();
    assert!(s.starts_with(&now[..4]));
}

#[test]
fn day_ago_is_one_day_before_now() {
    let before = get_day_ago_utc_string().unwrap();
    let now = get_current_utc_string().unwrap();
    let gap = get_time_between_stamps(&before, &now).unwrap();
    assert!((86400..=86402).contains(&gap), "gap {}", gap);
}

/// The UTC time of day that chrono gives for the local wall time `hms` on the date the
/// library attaches to it.
fn expected_utc_clock(hms: &str) -> String {
    let now = Local::now().naive_local();
    let today = now.date();
    let typed = chrono::NaiveTime::parse_from_str(hms, "%H:%M:%S").unwrap();
    let date = if typed > now.time() { today.pred_opt().unwrap() } else { today };
    let local = Local.from_local_datetime(&NaiveDateTime::new(date, typed)).single().unwrap();
    local.naive_utc().format("%H:%M:%S").to_string()
}

#[test]
fn test_convert_local_to_utc() {
    let timest = "15:44:56";
    let utc_time = expected_utc_clock("15:44:56");
    assert_eq!(convert_to_utc_timestr(&timest).unwrap().contains(&utc_time), true);
}

#[test]
fn test_convert_local_to_utc_no_seconds() {
    let timest = "15:44";
    let utc_time_with_padd = expected_utc_clock("15:44:00");
    assert_eq!(convert_to_utc_timestr(&timest).unwrap().contains(&utc_time_with_padd), true);
}

#[test]
fn test_display_local_timestamp() {
    let instant = FixedOffset::east_opt(0).unwrap().with_ymd_and_hms(1983, 4, 13, 12, 9, 14).unwrap();
    let timest = instant.format("%Y-%m-%d %H:%M:%S").to_string();
    let expected = instant.with_timezone(&Local).format("%H:%M:%S").to_string();
    assert_eq!(convert_to_local_timestamp(&timest, false).unwrap(), expected);
}

#[test]
fn checked_texts_refuse_years_without_four_digits() {
    let t = stamp(2021, 3, 18, 23, 36, 24);
    assert_eq!(checked_stamp_text(&t).unwrap(), "2021-03-18 23:36:24");
    assert_eq!(checked_date_text(&t).unwrap(), "2021-03-18");
    assert_eq!(checked_display(&t, false).unwrap(), "23:36:24");
    let far = stamp(10000, 1, 1, 0, 0, 0);
    assert_eq!(checked_stamp_text(&far).unwrap_err().kind, ErrorKind::Misc);
    assert_eq!(checked_date_text(&far).unwrap_err().kind, ErrorKind::Misc);
    assert_eq!(checked_display(&stamp(-1, 12, 31, 0, 0, 0), true).unwrap_err().kind, ErrorKind::Misc);
    assert_eq!(checked_display(&stamp(-1, 12, 31, 23, 5, 0), false).unwrap(), "23:05:00");
    assert_eq!(checked_display(&far, false).unwrap(), "00:00:00");
}

#[test]
fn day_ago_text_is_previous_date() {
    assert_eq!(day_ago_text(&stamp(2021, 3, 1, 12, 0, 5)).unwrap(), "2021-02-28 12:00:05");
    assert_eq!(day_ago_text(&stamp(10000, 1, 1, 0, 0, 0)).unwrap_err().kind, ErrorKind::Misc);
    assert_eq!(day_ago_text(&stamp(0, 6, 1, 0, 0, 0)).unwrap_err().kind, ErrorKind::Misc);
}

#[test]
fn resolve_refuses_dates_out_of_range() {
    let first = stamp(0, 1, 1, 8, 0, 0);
    assert_eq!(resolve_clock_input("09:00", &first).unwrap_err().kind, ErrorKind::Misc);
    assert_eq!(resolve_clock_input("07:00", &first).unwrap(), stamp(0, 1, 1, 7, 0, 0));
}

#[test]
fn clock_only_display_works_at_the_edges_of_the_calendar() {
    for text in ["0000-01-01 00:00:00", "9999-12-31 23:59:59"] {
        let clock = convert_to_local_timestamp(text, false).unwrap();
        assert!(is_valid_timestr(&clock), "{:?}", clock);
    }
}
