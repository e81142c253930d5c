use crate::stamp::{
    clock_text, date_text, days_in_month, format_clock, format_date, format_stamp, is_stamp_text,
    lemma_instant_bounds, lemma_near_stamps_years, lemma_stamp_text_round_trip, parse_stamp,
    stamp_of_text, is_digit, lemma_two_digits_of_text,
    lemma_two_digits_round_trip, month_length, stamp_text, two_digit_value, two_digits,
    two_digits_at, Stamp,
};
use crate::terror::{ErrorKind, TError};
use chrono::{Datelike, TimeZone, Timelike};
use vstd::prelude::*;

verus! {

// ------------------------------------------------------------ clock input
/// `s` is a time of day `HH:MM:SS` on a 24-hour clock: hours 00-23, minutes and
/// seconds 00-59, every field two digits.
pub open spec fn valid_clock_text(s: Seq<char>) -> bool {
    &&& s.len() == 8
    &&& s[2] == ':' && s[5] == ':'
    &&& ((s[0] == '0' || s[0] == '1') && is_digit(s[1])) || (s[0] == '2' && '0' <= s[1] && s[1]
        <= '3')
    &&& '0' <= s[3] && s[3] <= '5' && is_digit(s[4])
    &&& '0' <= s[6] && s[6] <= '5' && is_digit(s[7])
}

pub open spec fn clock_hour(s: Seq<char>) -> int {
    two_digit_value(s, 0)
}

pub open spec fn clock_minute(s: Seq<char>) -> int {
    two_digit_value(s, 3)
}

pub open spec fn clock_second(s: Seq<char>) -> int {
    two_digit_value(s, 6)
}

/// Seconds into the day of a clock text.
pub open spec fn clock_value(s: Seq<char>) -> int {
    clock_hour(s) * 3600 + clock_minute(s) * 60 + clock_second(s)
}

/// User input with its seconds defaulted: `HH:MM` becomes `HH:MM:00`.
pub open spec fn padded_clock_input(s: Seq<char>) -> Seq<char> {
    if s.len() < 8 {
        s + seq![':', '0', '0']
    } else {
        s
    }
}

/// Whether a clock time typed by the user must have meant yesterday: it lies later
/// in the day than the current time. Inputs older than a day are not told apart.
pub open spec fn clock_is_yesterday(now: Seq<char>, compared: Seq<char>) -> bool {
    clock_value(compared) > clock_value(now)
}

/// The calendar day before the date of `t`, at the same time of day.
pub open spec fn previous_date(t: Stamp) -> Stamp {
    if t.day > 1 {
        Stamp { day: (t.day - 1) as u32, ..t }
    } else if t.month > 1 {
        Stamp {
            month: (t.month - 1) as u32,
            day: days_in_month(t.year as int, t.month - 1) as u32,
            ..t
        }
    } else {
        Stamp { year: (t.year - 1) as i32, month: 12, day: 31, ..t }
    }
}

/// The local stamp that a clock input names, given the local time now: today's date,
/// or yesterday's where the input lies later in the day than now.
pub open spec fn local_start_spec(clock: Seq<char>, now: Stamp) -> Stamp {
    let base = if clock_value(clock) > now.clock_seconds() {
        previous_date(now)
    } else {
        now
    };
    Stamp {
        hour: clock_hour(clock) as u32,
        minute: clock_minute(clock) as u32,
        second: clock_second(clock) as u32,
        ..base
    }
}

/// Whether `time_str` is a strict `HH:MM:SS` time of day.
pub fn is_valid_timestr(time_str: &str) -> (r: bool)
    ensures
        r == valid_clock_text(time_str@),
{
    if time_str.unicode_len() != 8 {
        return false;
    }
    let c0 = time_str.get_char(0);
    let c1 = time_str.get_char(1);
    let c3 = time_str.get_char(3);
    let c4 = time_str.get_char(4);
    let c6 = time_str.get_char(6);
    let c7 = time_str.get_char(7);
    let hours_ok = ((c0 == '0' || c0 == '1') && '0' <= c1 && c1 <= '9') || (c0 == '2' && '0'
        <= c1 && c1 <= '3');
    time_str.get_char(2) == ':' && time_str.get_char(5) == ':' && hours_ok && '0' <= c3 && c3
        <= '5' && '0' <= c4 && c4 <= '9' && '0' <= c6 && c6 <= '5' && '0' <= c7 && c7 <= '9'
}

/// Defaults the seconds of a `HH:MM` input to `00`.
pub fn pad_clock_input(input: &str) -> (r: String)
    ensures
        r@ == padded_clock_input(input@),
{
    proof {
        reveal_strlit(":00");
    }
    let mut out = String::from_str(input);
    if input.unicode_len() < 8 {
        out.append(":00");
    }
    assert(out@ =~= padded_clock_input(input@));
    out
}

proof fn lemma_clock_fields(s: Seq<char>)
    requires
        valid_clock_text(s),
    ensures
        0 <= clock_hour(s) < 24,
        0 <= clock_minute(s) < 60,
        0 <= clock_second(s) < 60,
{
}

/// Whether the clock time `compared_time` must have meant yesterday, the current
/// time of day being `now_time`.
///
/// The fields are compared from hours to seconds: the first field in which the two
/// differ decides, and the answer is yes where `compared_time` is the larger there.
pub fn is_time_yesterday(now_time: &str, compared_time: &str) -> (r: bool)
    requires
        valid_clock_text(now_time@),
        valid_clock_text(compared_time@),
    ensures
        r == clock_is_yesterday(now_time@, compared_time@),
{
    proof {
        lemma_clock_fields(now_time@);
        lemma_clock_fields(compared_time@);
    }
    let (nh, nm, ns) = match (
        two_digits_at(now_time, 0),
        two_digits_at(now_time, 3),
        two_digits_at(now_time, 6),
    ) {
        (Some(h), Some(m), Some(s)) => (h, m, s),
        _ => (0, 0, 0),
    };
    let (ch, cm, cs) = match (
        two_digits_at(compared_time, 0),
        two_digits_at(compared_time, 3),
        two_digits_at(compared_time, 6),
    ) {
        (Some(h), Some(m), Some(s)) => (h, m, s),
        _ => (0, 0, 0),
    };
    assert(nh == clock_hour(now_time@) && nm == clock_minute(now_time@) && ns == clock_second(
        now_time@,
    ));
    assert(ch == clock_hour(compared_time@) && cm == clock_minute(compared_time@) && cs
        == clock_second(compared_time@));
    let now_fields: [u32; 3] = [nh, nm, ns];
    let compared_fields: [u32; 3] = [ch, cm, cs];
    let mut digits_same = true;
    let mut i: usize = 0;
    while i < 3
        invariant
            i <= 3,
            now_fields@ == seq![nh, nm, ns],
            compared_fields@ == seq![ch, cm, cs],
            digits_same <==> (i < 1 || nh == ch) && (i < 2 || nm == cm) && (i < 3 || ns == cs),
            !digits_same ==> !(ch * 3600 + cm * 60 + cs > nh * 3600 + nm * 60 + ns),
            nm < 60 && ns < 60 && cm < 60 && cs < 60 && nh < 24 && ch < 24,
            clock_value(compared_time@) == ch * 3600 + cm * 60 + cs,
            clock_value(now_time@) == nh * 3600 + nm * 60 + ns,
        decreases 3 - i,
    {
        let now_digit = now_fields[i];
        let compared_digit = compared_fields[i];
        if now_digit > compared_digit {
            if digits_same {
                assert(!(ch * 3600 + cm * 60 + cs > nh * 3600 + nm * 60 + ns)) by (nonlinear_arith)
                    requires
                        nm < 60 && ns < 60 && cm < 60 && cs < 60,
                        (i == 0 && nh > ch) || (i == 1 && nh == ch && nm > cm) || (i == 2 && nh
                            == ch && nm == cm && ns > cs),
                ;
            }
            digits_same = false;
        } else if digits_same && compared_digit > now_digit {
            assert(ch * 3600 + cm * 60 + cs > nh * 3600 + nm * 60 + ns) by (nonlinear_arith)
                requires
                    nm < 60 && ns < 60 && cm < 60 && cs < 60,
                    (i == 0 && ch > nh) || (i == 1 && nh == ch && cm > nm) || (i == 2 && nh == ch
                        && nm == cm && cs > ns),
            ;
            return true;
        }
        i = i + 1;
    }
    false
}

} // verus!

verus! {

proof fn lemma_clock_text_valid(h: int, m: int, s: int)
    requires
        0 <= h < 24,
        0 <= m < 60,
        0 <= s < 60,
    ensures
        valid_clock_text(clock_text(h, m, s)),
        clock_hour(clock_text(h, m, s)) == h,
        clock_minute(clock_text(h, m, s)) == m,
        clock_second(clock_text(h, m, s)) == s,
{
    let c = clock_text(h, m, s);
    lemma_two_digits_round_trip(h);
    lemma_two_digits_round_trip(m);
    lemma_two_digits_round_trip(s);
    assert(c.subrange(0, 2) =~= two_digits(h));
    assert(c.subrange(3, 5) =~= two_digits(m));
    assert(c.subrange(6, 8) =~= two_digits(s));
    assert(c[0] == two_digits(h)[0] && c[1] == two_digits(h)[1]);
    assert(c[3] == two_digits(m)[0] && c[4] == two_digits(m)[1]);
    assert(c[6] == two_digits(s)[0] && c[7] == two_digits(s)[1]);
}

/// The calendar day before the date of `t`, at the same time of day.
pub fn previous_day(t: &Stamp) -> (r: Stamp)
    requires
        t.wf(),
        t.year > i32::MIN,
    ensures
        r == previous_date(*t),
        r.wf(),
{
    if t.day > 1 {
        Stamp { day: t.day - 1, ..*t }
    } else if t.month > 1 {
        Stamp { month: t.month - 1, day: month_length(t.year, t.month - 1), ..*t }
    } else {
        Stamp { year: t.year - 1, month: 12, day: 31, ..*t }
    }
}

/// The local stamp that the clock input `clock` names, the local time now being `now`:
/// today's date, or yesterday's where the input lies later in the day than now.
pub fn local_start_stamp(clock: &str, now: &Stamp) -> (r: Stamp)
    requires
        valid_clock_text(clock@),
        now.wf(),
        now.year > i32::MIN,
    ensures
        r == local_start_spec(clock@, *now),
        r.wf(),
{
    let now_str = format_clock(now);
    proof {
        lemma_clock_text_valid(now.hour as int, now.minute as int, now.second as int);
        lemma_clock_fields(clock@);
    }
    let base = if is_time_yesterday(now_str.as_str(), clock) {
        previous_day(now)
    } else {
        *now
    };
    match (two_digits_at(clock, 0), two_digits_at(clock, 3), two_digits_at(clock, 6)) {
        (Some(h), Some(m), Some(s)) => Stamp { hour: h, minute: m, second: s, ..base },
        _ => base,
    }
}

/// What a local stamp looks like on screen: `HH:MM:SS`, or the full
/// `YYYY-MM-DD HH:MM:SS` where `include_date` holds.
pub open spec fn display_text(t: Stamp, include_date: bool) -> Seq<char> {
    if include_date {
        stamp_text(t)
    } else {
        clock_text(t.hour as int, t.minute as int, t.second as int)
    }
}

/// Formats a local stamp for display.
pub fn local_display(t: &Stamp, include_date: bool) -> (r: String)
    requires
        t.wf(),
        include_date ==> 0 <= t.year <= 9999,
    ensures
        r@ == display_text(*t, include_date),
{
    if include_date {
        format_stamp(t)
    } else {
        format_clock(t)
    }
}

/// A clock input turned into a local stamp and displayed without its date reads as
/// the input again.
pub proof fn lemma_clock_input_round_trip(clock: Seq<char>, now: Stamp)
    requires
        valid_clock_text(clock),
        now.wf(),
    ensures
        display_text(local_start_spec(clock, now), false) == clock,
{
    let t = local_start_spec(clock, now);
    assert(is_digit(clock[0]) && is_digit(clock[1]) && is_digit(clock[3]) && is_digit(clock[4]));
    assert(is_digit(clock[6]) && is_digit(clock[7]));
    lemma_two_digits_of_text(clock, 0);
    lemma_two_digits_of_text(clock, 3);
    lemma_two_digits_of_text(clock, 6);
    assert(clock_text(t.hour as int, t.minute as int, t.second as int) =~= clock);
}

// ------------------------------------------------------------ chrono
/// Relies on chrono::Local::now: the current local date and time, read through
/// chrono's calendar accessors (month 1-12, a day of that month, seconds 0-59).
#[verifier::external_body]
pub(crate) fn local_now() -> (r: Stamp)
    ensures
        r.wf(),
{
    let n = chrono::Local::now().naive_local();
    Stamp {
        year: n.year(),
        month: n.month(),
        day: n.day(),
        hour: n.hour(),
        minute: n.minute(),
        second: n.second(),
    }
}

/// Relies on chrono::Utc::now: the current date and time in UTC, read through
/// chrono's calendar accessors.
#[verifier::external_body]
fn utc_now() -> (r: Stamp)
    ensures
        r.wf(),
{
    let n = chrono::Utc::now().naive_utc();
    Stamp {
        year: n.year(),
        month: n.month(),
        day: n.day(),
        hour: n.hour(),
        minute: n.minute(),
        second: n.second(),
    }
}

/// Relies on chrono's `TimeZone::from_local_datetime` for `Local`: the UTC instant of a
/// local wall-clock time, `None` where the time falls in a gap or a fold of the time
/// zone. The offset of a zone is less than a day.
#[verifier::external_body]
fn local_to_utc(t: &Stamp) -> (r: Option<Stamp>)
    requires
        t.canonical(),
    ensures
        r matches Some(u) ==> u.wf() && -86400 < u.instant() - t.instant() < 86400,
{
    let d = chrono::NaiveDate::from_ymd_opt(t.year, t.month, t.day)?;
    let naive = d.and_hms_opt(t.hour, t.minute, t.second)?;
    let n = chrono::Local.from_local_datetime(&naive).single()?.naive_utc();
    Some(Stamp {
        year: n.year(),
        month: n.month(),
        day: n.day(),
        hour: n.hour(),
        minute: n.minute(),
        second: n.second(),
    })
}

/// Relies on chrono's `TimeZone::from_utc_datetime` for `Local`: the local wall-clock
/// time of a UTC instant. The offset of a zone is less than a day; a real calendar
/// day and time always converts.
#[verifier::external_body]
fn utc_to_local(t: &Stamp) -> (r: Option<Stamp>)
    requires
        t.canonical(),
    ensures
        r is Some,
        r matches Some(l) ==> l.wf() && -86400 < l.instant() - t.instant() < 86400,
{
    let d = chrono::NaiveDate::from_ymd_opt(t.year, t.month, t.day)?;
    let naive = d.and_hms_opt(t.hour, t.minute, t.second)?;
    let n = chrono::Local.from_utc_datetime(&naive).naive_local();
    Some(Stamp {
        year: n.year(),
        month: n.month(),
        day: n.day(),
        hour: n.hour(),
        minute: n.minute(),
        second: n.second(),
    })
}

/// Relies on chrono's `NaiveDateTime::signed_duration_since`: the seconds from `a` to `b`
/// on the proleptic Gregorian calendar, without leap seconds.
#[verifier::external_body]
pub(crate) fn seconds_between(a: &Stamp, b: &Stamp) -> (r: Option<i64>)
    requires
        a.canonical(),
        b.canonical(),
    ensures
        r == Some((b.instant() - a.instant()) as i64),
{
    let na = chrono::NaiveDate::from_ymd_opt(a.year, a.month, a.day)?;
    let nb = chrono::NaiveDate::from_ymd_opt(b.year, b.month, b.day)?;
    let ta = na.and_hms_opt(a.hour, a.minute, a.second)?;
    let tb = nb.and_hms_opt(b.hour, b.minute, b.second)?;
    Some(tb.signed_duration_since(ta).num_seconds())
}

} // verus!

verus! {

fn fail(kind: ErrorKind, message: &str) -> (r: TError)
    ensures
        r.kind == kind,
{
    TError::new(kind, String::from_str(message))
}

/// `t` lies less than a day from `u`, as a time zone's offset allows.
pub open spec fn within_a_day(t: Stamp, u: Stamp) -> bool {
    -86400 < t.instant() - u.instant() < 86400
}

/// The canonical text of `t`; an error of kind `Misc` where its year has no four-digit
/// form.
pub fn checked_stamp_text(t: &Stamp) -> (r: Result<String, TError>)
    requires
        t.wf(),
    ensures
        r is Ok <==> 0 <= t.year <= 9999,
        r matches Ok(s) ==> s@ == stamp_text(*t) && is_stamp_text(s@),
        r matches Err(e) ==> e.kind == ErrorKind::Misc,
{
    if t.year < 0 || t.year > 9999 {
        return Err(fail(ErrorKind::Misc, "the date is out of range"));
    }
    proof {
        lemma_stamp_text_round_trip(*t);
    }
    Ok(format_stamp(t))
}

/// `YYYY-MM-DD` of `t`; an error of kind `Misc` where its year has no four-digit form.
pub fn checked_date_text(t: &Stamp) -> (r: Result<String, TError>)
    requires
        t.wf(),
    ensures
        r is Ok <==> 0 <= t.year <= 9999,
        r matches Ok(s) ==> s@ == date_text(*t),
        r matches Err(e) ==> e.kind == ErrorKind::Misc,
{
    if t.year < 0 || t.year > 9999 {
        return Err(fail(ErrorKind::Misc, "the date is out of range"));
    }
    Ok(format_date(t))
}

/// A local stamp as shown; an error of kind `Misc` where its date is to be shown and its
/// year has no four-digit form.
pub fn checked_display(t: &Stamp, include_date: bool) -> (r: Result<String, TError>)
    requires
        t.wf(),
    ensures
        r is Ok <==> !include_date || 0 <= t.year <= 9999,
        r matches Ok(s) ==> s@ == display_text(*t, include_date),
        r matches Err(e) ==> e.kind == ErrorKind::Misc,
{
    if include_date && (t.year < 0 || t.year > 9999) {
        return Err(fail(ErrorKind::Misc, "the date is out of range"));
    }
    Ok(local_display(t, include_date))
}

/// The canonical text of the same time of day on the date before `now`; an error of kind
/// `Misc` where that year has no four-digit form.
pub fn day_ago_text(now: &Stamp) -> (r: Result<String, TError>)
    requires
        now.wf(),
    ensures
        r is Ok <==> 1 <= now.year <= 9999,
        r matches Ok(s) ==> s@ == stamp_text(previous_date(*now)) && is_stamp_text(s@),
        r matches Err(e) ==> e.kind == ErrorKind::Misc,
{
    if now.year < 1 || now.year > 9999 {
        return Err(fail(ErrorKind::Misc, "the date is out of range"));
    }
    checked_stamp_text(&previous_day(now))
}

/// Turns a user's clock input (`HH:MM:SS`, or `HH:MM` with seconds `00`) into the local
/// stamp it names, the local time now being `now`. `InvalidTimestamp` where the input is
/// no strict 24-hour time; `Misc` where the resulting date has no four-digit year.
pub fn resolve_clock_input(input: &str, now: &Stamp) -> (r: Result<Stamp, TError>)
    requires
        now.wf(),
    ensures
        (r matches Err(e) && e.kind == ErrorKind::InvalidTimestamp) <==> !valid_clock_text(
            padded_clock_input(input@),
        ),
        r matches Err(e) ==> e.kind == ErrorKind::InvalidTimestamp || e.kind == ErrorKind::Misc,
        r is Ok <==> valid_clock_text(padded_clock_input(input@)) && now.year > i32::MIN && 0
            <= local_start_spec(padded_clock_input(input@), *now).year <= 9999,
        r matches Ok(t) ==> t == local_start_spec(padded_clock_input(input@), *now)
            && t.canonical(),
{
    let padded = pad_clock_input(input);
    if !is_valid_timestr(padded.as_str()) {
        return Err(
            fail(
                ErrorKind::InvalidTimestamp,
                "time specified is an illegal timestamp, timestamp should be of the format HH:MM:SS",
            ),
        );
    }
    if now.year == i32::MIN {
        return Err(fail(ErrorKind::Misc, "the date is out of range"));
    }
    let t = local_start_stamp(padded.as_str(), now);
    if t.year < 0 || t.year > 9999 {
        return Err(fail(ErrorKind::Misc, "the date is out of range"));
    }
    Ok(t)
}

/// The canonical UTC timestamp of a user's local clock input, dated today, or
/// yesterday where the input lies later in the day than now.
pub fn convert_to_utc_timestr(local_date_time: &str) -> (r: Result<String, TError>)
    ensures
        (r matches Err(e) && e.kind == ErrorKind::InvalidTimestamp) <==> !valid_clock_text(
            padded_clock_input(local_date_time@),
        ),
        r matches Ok(s) ==> is_stamp_text(s@) && exists|now: Stamp|
            now.wf() && within_a_day(
                stamp_of_text(s@),
                local_start_spec(padded_clock_input(local_date_time@), now),
            ),
{
    let now = local_now();
    let local = resolve_clock_input(local_date_time, &now)?;
    match local_to_utc(&local) {
        Some(u) => {
            let s = checked_stamp_text(&u)?;
            proof {
                lemma_stamp_text_round_trip(u);
                assert(now.wf() && within_a_day(
                    stamp_of_text(s@),
                    local_start_spec(padded_clock_input(local_date_time@), now),
                ));
            }
            Ok(s)
        },
        None => Err(fail(ErrorKind::Misc, "that time does not exist or is ambiguous locally")),
    }
}

/// The local stamp of a canonical UTC timestamp; `Parse` where it is none.
pub fn local_stamp_of(utc_date_time: &str) -> (r: Result<Stamp, TError>)
    ensures
        r is Err <==> !is_stamp_text(utc_date_time@),
        r matches Err(e) ==> e.kind == ErrorKind::Parse,
        r matches Ok(l) ==> l.wf() && within_a_day(l, stamp_of_text(utc_date_time@)),
{
    let utc = match parse_stamp(utc_date_time) {
        Some(t) => t,
        None => {
            return Err(fail(ErrorKind::Parse, "input is not a timestamp YYYY-MM-DD HH:MM:SS"));
        },
    };
    match utc_to_local(&utc) {
        Some(l) => Ok(l),
        None => Err(fail(ErrorKind::Parse, "input is not a timestamp YYYY-MM-DD HH:MM:SS")),
    }
}

/// Shows a canonical UTC timestamp in local time: `HH:MM:SS`, or with its date where
/// `should_display_date` holds.
pub fn convert_to_local_timestamp(utc_date_time: &str, should_display_date: bool) -> (r: Result<
    String,
    TError,
>)
    ensures
        (r matches Err(e) && e.kind == ErrorKind::Parse) <==> !is_stamp_text(utc_date_time@),
        is_stamp_text(utc_date_time@) && (!should_display_date || 1 <= stamp_of_text(
            utc_date_time@,
        ).year <= 9998) ==> r is Ok,
        r matches Ok(s) ==> exists|l: Stamp|
            l.wf() && (should_display_date ==> l.canonical()) && s@ == display_text(
                l,
                should_display_date,
            ) && within_a_day(
                l,
                stamp_of_text(utc_date_time@),
            ),
{
    let l = local_stamp_of(utc_date_time)?;
    proof {
        lemma_near_stamps_years(stamp_of_text(utc_date_time@), l);
    }
    let s = checked_display(&l, should_display_date)?;
    assert(l.wf() && (should_display_date ==> l.canonical()) && s@ == display_text(
        l,
        should_display_date,
    ) && within_a_day(
        l,
        stamp_of_text(utc_date_time@),
    ));
    Ok(s)
}

/// The current instant in UTC as a canonical timestamp.
pub fn get_current_utc_string() -> (r: Result<String, TError>)
    ensures
        r matches Ok(s) ==> is_stamp_text(s@) && exists|now: Stamp| now.wf() && s@ == stamp_text(now),
        r matches Err(e) ==> e.kind == ErrorKind::Misc,
{
    let now = utc_now();
    checked_stamp_text(&now)
}

pub fn get_time_between_stamps(begin_stamp: &str, end_stamp: &str) -> (r: Result<i64, TError>)
    ensures
        r is Err <==> !(is_stamp_text(begin_stamp@) && is_stamp_text(end_stamp@)),
        r matches Err(e) ==> e.kind == ErrorKind::Parse,
        r matches Ok(d) ==> d == stamp_of_text(end_stamp@).instant() - stamp_of_text(
            begin_stamp@,
        ).instant(),
{
    let (a, b) = match (parse_stamp(begin_stamp), parse_stamp(end_stamp)) {
        (Some(a), Some(b)) => (a, b),
        _ => {
            return Err(fail(ErrorKind::Parse, "input is not a timestamp YYYY-MM-DD HH:MM:SS"));
        },
    };
    proof {
        lemma_instant_bounds(a);
        lemma_instant_bounds(b);
    }
    match seconds_between(&a, &b) {
        Some(d) => Ok(d),
        None => Err(fail(ErrorKind::Parse, "input is not a timestamp YYYY-MM-DD HH:MM:SS")),
    }
}

/// Today's local date, `YYYY-MM-DD`.
pub fn get_todays_date() -> (r: Result<String, TError>)
    ensures
        r matches Ok(s) ==> exists|l: Stamp| l.wf() && s@ == date_text(l),
        r matches Err(e) ==> e.kind == ErrorKind::Misc,
{
    let now = local_now();
    checked_date_text(&now)
}

/// The canonical UTC timestamp one day before now: in UTC, where days have no gaps,
/// that is the same time of day on the previous date.
pub fn get_day_ago_utc_string() -> (r: Result<String, TError>)
    ensures
        r matches Ok(s) ==> exists|now: Stamp|
            now.wf() && s@ == stamp_text(previous_date(now)) && is_stamp_text(s@),
        r matches Err(e) ==> e.kind == ErrorKind::Misc,
{
    let now = utc_now();
    day_ago_text(&now)
}

} // verus!
