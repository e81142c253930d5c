use vstd::prelude::*;

verus! {

/// A calendar date and a time of day, to the second, in one time zone.
#[derive(Debug, Clone, Copy, PartialEq, Eq, Structural)]
pub struct Stamp {
    pub year: i32,
    pub month: u32,
    pub day: u32,
    pub hour: u32,
    pub minute: u32,
    pub second: u32,
}

pub open spec fn is_leap_year(y: int) -> bool {
    (y % 4 == 0 && y % 100 != 0) || y % 400 == 0
}

pub open spec fn days_in_month(y: int, m: int) -> int {
    if m == 2 {
        if is_leap_year(y) { 29 } else { 28 }
    } else if m == 4 || m == 6 || m == 9 || m == 11 {
        30
    } else {
        31
    }
}

/// Days from 0000-01-01 to the first day of year `y` (negative before it).
pub open spec fn days_before_year(y: int) -> int {
    365 * y + (y + 3) / 4 - (y + 99) / 100 + (y + 399) / 400
}

/// Days from the first of January to the first day of month `m` of year `y`.
pub open spec fn days_before_month(y: int, m: int) -> int
    decreases m,
{
    if m <= 1 { 0 } else { days_before_month(y, m - 1) + days_in_month(y, m - 1) }
}

impl Stamp {
    /// The fields name a real calendar day and a time of day without leap second.
    pub open spec fn wf(&self) -> bool {
        &&& 1 <= self.month <= 12
        &&& 1 <= self.day <= days_in_month(self.year as int, self.month as int)
        &&& self.hour < 24
        &&& self.minute < 60
        &&& self.second < 60
    }

    /// Well formed, with a year that the four-digit text form can hold.
    pub open spec fn canonical(&self) -> bool {
        self.wf() && 0 <= self.year <= 9999
    }

    /// Days since 0000-01-01 (proleptic Gregorian calendar).
    pub open spec fn day_number(&self) -> int {
        days_before_year(self.year as int) + days_before_month(self.year as int, self.month as int)
            + self.day - 1
    }

    /// Seconds into the day.
    pub open spec fn clock_seconds(&self) -> int {
        self.hour * 3600 + self.minute * 60 + self.second
    }

    /// Seconds since 0000-01-01 00:00:00.
    pub open spec fn instant(&self) -> int {
        self.day_number() * 86400 + self.clock_seconds()
    }
}

// ---------------------------------------------------------------- text form
pub open spec fn is_digit(c: char) -> bool {
    '0' <= c && c <= '9'
}

pub open spec fn digit_value(c: char) -> int {
    c as int - '0' as int
}

pub open spec fn digit_char(d: int) -> char {
    if d == 0 { '0' }
    else if d == 1 { '1' }
    else if d == 2 { '2' }
    else if d == 3 { '3' }
    else if d == 4 { '4' }
    else if d == 5 { '5' }
    else if d == 6 { '6' }
    else if d == 7 { '7' }
    else if d == 8 { '8' }
    else { '9' }
}

/// Two decimal digits of `n` (below 100), zero-padded.
pub open spec fn two_digits(n: int) -> Seq<char> {
    seq![digit_char(n / 10), digit_char(n % 10)]
}

/// Four decimal digits of `n` (below 10000), zero-padded.
pub open spec fn four_digits(n: int) -> Seq<char> {
    two_digits(n / 100) + two_digits(n % 100)
}

/// The value of the two digits of `s` at `i` and `i + 1`.
pub open spec fn two_digit_value(s: Seq<char>, i: int) -> int {
    10 * digit_value(s[i]) + digit_value(s[i + 1])
}

/// `HH:MM:SS` of a time of day.
pub open spec fn clock_text(h: int, m: int, s: int) -> Seq<char> {
    two_digits(h) + seq![':'] + two_digits(m) + seq![':'] + two_digits(s)
}

/// `YYYY-MM-DD` of a stamp.
pub open spec fn date_text(t: Stamp) -> Seq<char> {
    four_digits(t.year as int) + seq!['-'] + two_digits(t.month as int) + seq!['-']
        + two_digits(t.day as int)
}

/// The canonical form `YYYY-MM-DD HH:MM:SS`.
pub open spec fn stamp_text(t: Stamp) -> Seq<char> {
    date_text(t) + seq![' '] + clock_text(t.hour as int, t.minute as int, t.second as int)
}

/// `s` has the shape `DDDD-DD-DD DD:DD:DD`, each `D` a decimal digit.
pub open spec fn stamp_shape(s: Seq<char>) -> bool {
    &&& s.len() == 19
    &&& s[4] == '-' && s[7] == '-' && s[10] == ' ' && s[13] == ':' && s[16] == ':'
    &&& forall|i: int|
        0 <= i < 19 && i != 4 && i != 7 && i != 10 && i != 13 && i != 16 ==> is_digit(
            #[trigger] s[i],
        )
}

/// The fields that a text of the shape `DDDD-DD-DD DD:DD:DD` spells.
pub open spec fn stamp_of_text(s: Seq<char>) -> Stamp {
    Stamp {
        year: (100 * two_digit_value(s, 0) + two_digit_value(s, 2)) as i32,
        month: two_digit_value(s, 5) as u32,
        day: two_digit_value(s, 8) as u32,
        hour: two_digit_value(s, 11) as u32,
        minute: two_digit_value(s, 14) as u32,
        second: two_digit_value(s, 17) as u32,
    }
}

/// `s` is a canonical timestamp: the right shape, naming a real day and time.
pub open spec fn is_stamp_text(s: Seq<char>) -> bool {
    stamp_shape(s) && stamp_of_text(s).wf()
}

pub proof fn lemma_digit_round_trip(d: int)
    requires
        0 <= d < 10,
    ensures
        is_digit(digit_char(d)),
        digit_value(digit_char(d)) == d,
{
}

pub proof fn lemma_two_digits_round_trip(n: int)
    requires
        0 <= n < 100,
    ensures
        two_digits(n).len() == 2,
        is_digit(two_digits(n)[0]) && is_digit(two_digits(n)[1]),
        two_digit_value(two_digits(n), 0) == n,
{
    lemma_digit_round_trip(n / 10);
    lemma_digit_round_trip(n % 10);
}

} // verus!

verus! {

/// The one-character text of a decimal digit.
pub fn digit_str(d: u32) -> (r: &'static str)
    requires
        d < 10,
    ensures
        r@ == seq![digit_char(d as int)],
{
    proof {
        reveal_strlit("0");
        reveal_strlit("1");
        reveal_strlit("2");
        reveal_strlit("3");
        reveal_strlit("4");
        reveal_strlit("5");
        reveal_strlit("6");
        reveal_strlit("7");
        reveal_strlit("8");
        reveal_strlit("9");
    }
    let r = match d {
        0 => "0",
        1 => "1",
        2 => "2",
        3 => "3",
        4 => "4",
        5 => "5",
        6 => "6",
        7 => "7",
        8 => "8",
        _ => "9",
    };
    assert(r@ =~= seq![digit_char(d as int)]);
    r
}

fn push_two_digits(out: &mut String, n: u32)
    requires
        n < 100,
    ensures
        final(out)@ == old(out)@ + two_digits(n as int),
{
    out.append(digit_str(n / 10));
    out.append(digit_str(n % 10));
    assert(final(out)@ =~= old(out)@ + two_digits(n as int));
}

fn push_str(out: &mut String, s: &str)
    ensures
        final(out)@ == old(out)@ + s@,
{
    out.append(s);
}

/// Appends `HH:MM:SS` of the given time of day.
pub fn push_clock(out: &mut String, h: u32, m: u32, s: u32)
    requires
        h < 100,
        m < 100,
        s < 100,
    ensures
        final(out)@ == old(out)@ + clock_text(h as int, m as int, s as int),
{
    let ghost start = out@;
    proof {
        reveal_strlit(":");
    }
    push_two_digits(out, h);
    push_str(out, ":");
    push_two_digits(out, m);
    push_str(out, ":");
    push_two_digits(out, s);
    assert(out@ =~= start + clock_text(h as int, m as int, s as int));
}

/// `YYYY-MM-DD` of `t`.
pub fn format_date(t: &Stamp) -> (r: String)
    requires
        t.canonical(),
    ensures
        r@ == date_text(*t),
{
    proof {
        reveal_strlit("-");
    }
    let y = t.year as u32;
    let mut out = String::new();
    push_two_digits(&mut out, y / 100);
    push_two_digits(&mut out, y % 100);
    push_str(&mut out, "-");
    push_two_digits(&mut out, t.month);
    push_str(&mut out, "-");
    push_two_digits(&mut out, t.day);
    assert(out@ =~= date_text(*t));
    out
}

/// `HH:MM:SS` of `t`.
pub fn format_clock(t: &Stamp) -> (r: String)
    requires
        t.wf(),
    ensures
        r@ == clock_text(t.hour as int, t.minute as int, t.second as int),
{
    let mut out = String::new();
    push_clock(&mut out, t.hour, t.minute, t.second);
    assert(out@ =~= clock_text(t.hour as int, t.minute as int, t.second as int));
    out
}

/// The canonical text `YYYY-MM-DD HH:MM:SS` of `t`.
pub fn format_stamp(t: &Stamp) -> (r: String)
    requires
        t.canonical(),
    ensures
        r@ == stamp_text(*t),
{
    proof {
        reveal_strlit(" ");
    }
    let mut out = format_date(t);
    push_str(&mut out, " ");
    push_clock(&mut out, t.hour, t.minute, t.second);
    assert(out@ =~= stamp_text(*t));
    out
}

} // verus!

verus! {

pub fn is_leap(y: i32) -> (r: bool)
    ensures
        r == is_leap_year(y as int),
{
    (y % 4 == 0 && y % 100 != 0) || y % 400 == 0
}

pub fn month_length(y: i32, m: u32) -> (r: u32)
    ensures
        r as int == days_in_month(y as int, m as int),
{
    if m == 2 {
        if is_leap(y) { 29 } else { 28 }
    } else if m == 4 || m == 6 || m == 9 || m == 11 {
        30
    } else {
        31
    }
}

/// The value of the decimal digits at `i` and `i + 1`, or `None` where either is no digit.
pub fn two_digits_at(s: &str, i: usize) -> (r: Option<u32>)
    requires
        i + 1 < s@.len(),
    ensures
        r is Some <==> (is_digit(s@[i as int]) && is_digit(s@[i + 1])),
        r matches Some(v) ==> v as int == two_digit_value(s@, i as int) && v < 100,
{
    let n = s.unicode_len();
    assert(i + 1 < n);
    let a = s.get_char(i);
    let b = s.get_char(i + 1);
    if '0' <= a && a <= '9' && '0' <= b && b <= '9' {
        Some(10 * (a as u32 - '0' as u32) + (b as u32 - '0' as u32))
    } else {
        None
    }
}

/// Reads a canonical timestamp `YYYY-MM-DD HH:MM:SS`; `None` where `s` is not one.
pub fn parse_stamp(s: &str) -> (r: Option<Stamp>)
    ensures
        r is Some <==> is_stamp_text(s@),
        r matches Some(t) ==> t == stamp_of_text(s@) && t.canonical(),
{
    if s.unicode_len() != 19 {
        return None;
    }
    if s.get_char(4) != '-' || s.get_char(7) != '-' || s.get_char(10) != ' ' || s.get_char(13)
        != ':' || s.get_char(16) != ':' {
        return None;
    }
    let (y1, y2, mo, d, h, mi, se) = match (
        two_digits_at(s, 0),
        two_digits_at(s, 2),
        two_digits_at(s, 5),
        two_digits_at(s, 8),
        two_digits_at(s, 11),
        two_digits_at(s, 14),
        two_digits_at(s, 17),
    ) {
        (Some(y1), Some(y2), Some(mo), Some(d), Some(h), Some(mi), Some(se)) => (
            y1,
            y2,
            mo,
            d,
            h,
            mi,
            se,
        ),
        _ => {
            return None;
        },
    };
    assert(stamp_shape(s@));
    let year = (100 * y1 + y2) as i32;
    let t = Stamp { year, month: mo, day: d, hour: h, minute: mi, second: se };
    assert(t == stamp_of_text(s@));
    if mo < 1 || mo > 12 || d < 1 || d > month_length(year, mo) || h > 23 || mi > 59 || se > 59 {
        return None;
    }
    Some(t)
}

} // verus!

verus! {

proof fn lemma_digit_char_of_value(c: char)
    requires
        is_digit(c),
    ensures
        digit_char(digit_value(c)) == c,
{
}

pub proof fn lemma_two_digits_of_text(s: Seq<char>, i: int)
    requires
        0 <= i,
        i + 1 < s.len(),
        is_digit(s[i]),
        is_digit(s[i + 1]),
    ensures
        0 <= two_digit_value(s, i) < 100,
        two_digits(two_digit_value(s, i)) == s.subrange(i, i + 2),
{
    lemma_digit_char_of_value(s[i]);
    lemma_digit_char_of_value(s[i + 1]);
    let v = two_digit_value(s, i);
    assert(v / 10 == digit_value(s[i]));
    assert(v % 10 == digit_value(s[i + 1]));
    assert(two_digits(v) =~= s.subrange(i, i + 2));
}

/// Formatting a canonical stamp and reading the text back gives the same stamp.
pub proof fn lemma_stamp_text_round_trip(t: Stamp)
    requires
        t.canonical(),
    ensures
        is_stamp_text(stamp_text(t)),
        stamp_of_text(stamp_text(t)) == t,
{
    let s = stamp_text(t);
    let y = t.year as int;
    lemma_two_digits_round_trip(y / 100);
    lemma_two_digits_round_trip(y % 100);
    lemma_two_digits_round_trip(t.month as int);
    lemma_two_digits_round_trip(t.day as int);
    lemma_two_digits_round_trip(t.hour as int);
    lemma_two_digits_round_trip(t.minute as int);
    lemma_two_digits_round_trip(t.second as int);
    assert(s.subrange(0, 2) =~= two_digits(y / 100));
    assert(s.subrange(2, 4) =~= two_digits(y % 100));
    assert(s.subrange(5, 7) =~= two_digits(t.month as int));
    assert(s.subrange(8, 10) =~= two_digits(t.day as int));
    assert(s.subrange(11, 13) =~= two_digits(t.hour as int));
    assert(s.subrange(14, 16) =~= two_digits(t.minute as int));
    assert(s.subrange(17, 19) =~= two_digits(t.second as int));
    assert(s.len() == 19);
    assert(stamp_shape(s)) by {
        assert forall|i: int|
            0 <= i < 19 && i != 4 && i != 7 && i != 10 && i != 13 && i != 16 implies is_digit(
                #[trigger] s[i],
            ) by {
            if i < 2 {
                assert(s[i] == s.subrange(0, 2)[i]);
            } else if i < 4 {
                assert(s[i] == s.subrange(2, 4)[i - 2]);
            } else if i < 7 {
                assert(s[i] == s.subrange(5, 7)[i - 5]);
            } else if i < 10 {
                assert(s[i] == s.subrange(8, 10)[i - 8]);
            } else if i < 13 {
                assert(s[i] == s.subrange(11, 13)[i - 11]);
            } else if i < 16 {
                assert(s[i] == s.subrange(14, 16)[i - 14]);
            } else {
                assert(s[i] == s.subrange(17, 19)[i - 17]);
            }
        }
    }
    assert(two_digit_value(s, 0) == two_digit_value(two_digits(y / 100), 0));
    assert(two_digit_value(s, 2) == two_digit_value(two_digits(y % 100), 0));
    assert(two_digit_value(s, 5) == two_digit_value(two_digits(t.month as int), 0));
    assert(two_digit_value(s, 8) == two_digit_value(two_digits(t.day as int), 0));
    assert(two_digit_value(s, 11) == two_digit_value(two_digits(t.hour as int), 0));
    assert(two_digit_value(s, 14) == two_digit_value(two_digits(t.minute as int), 0));
    assert(two_digit_value(s, 17) == two_digit_value(two_digits(t.second as int), 0));
    assert(stamp_of_text(s) == t);
}

/// Reading a canonical timestamp and formatting the stamp gives back the same text.
pub proof fn lemma_text_stamp_round_trip(s: Seq<char>)
    requires
        is_stamp_text(s),
    ensures
        stamp_text(stamp_of_text(s)) == s,
{
    let t = stamp_of_text(s);
    assert(is_digit(s[0]) && is_digit(s[1]) && is_digit(s[2]) && is_digit(s[3]));
    assert(is_digit(s[5]) && is_digit(s[6]) && is_digit(s[8]) && is_digit(s[9]));
    assert(is_digit(s[11]) && is_digit(s[12]) && is_digit(s[14]) && is_digit(s[15]));
    assert(is_digit(s[17]) && is_digit(s[18]));
    lemma_two_digits_of_text(s, 0);
    lemma_two_digits_of_text(s, 2);
    lemma_two_digits_of_text(s, 5);
    lemma_two_digits_of_text(s, 8);
    lemma_two_digits_of_text(s, 11);
    lemma_two_digits_of_text(s, 14);
    lemma_two_digits_of_text(s, 17);
    let y = t.year as int;
    assert(y == 100 * two_digit_value(s, 0) + two_digit_value(s, 2));
    assert(y / 100 == two_digit_value(s, 0));
    assert(y % 100 == two_digit_value(s, 2));
    assert(stamp_text(t) =~= s);
}

} // verus!

verus! {

/// A canonical stamp lies within the first ten thousand years, so the seconds between
/// two of them fit in an `i64`.
pub proof fn lemma_instant_bounds(t: Stamp)
    requires
        t.canonical(),
    ensures
        0 <= t.instant() < 400_000_000_000,
{
    let y = t.year as int;
    assert(0 <= days_before_year(y) <= 3_700_000) by (nonlinear_arith)
        requires
            0 <= y <= 9999,
    ;
    lemma_days_before_month_bounds(y, t.month as int);
}

proof fn lemma_days_before_month_bounds(y: int, m: int)
    requires
        1 <= m <= 12,
    ensures
        0 <= days_before_month(y, m) <= 31 * (m - 1),
    decreases m,
{
    if m > 1 {
        lemma_days_before_month_bounds(y, m - 1);
    }
}

} // verus!

verus! {

proof fn lemma_multiples_step(y: int, k: int)
    requires
        k > 0,
    ensures
        (y + k) / k - (y + k - 1) / k == if y % k == 0 {
            1int
        } else {
            0int
        },
{
    let q = y / k;
    let r = y % k;
    vstd::arithmetic::div_mod::lemma_fundamental_div_mod(y, k);
    assert(k * q == q * k && (q + 1) * k == q * k + k) by (nonlinear_arith);
    if r == 0 {
        vstd::arithmetic::div_mod::lemma_fundamental_div_mod_converse(y + k, k, q + 1, 0);
        vstd::arithmetic::div_mod::lemma_fundamental_div_mod_converse(y + k - 1, k, q, k - 1);
    } else {
        vstd::arithmetic::div_mod::lemma_fundamental_div_mod_converse(y + k, k, q + 1, r);
        vstd::arithmetic::div_mod::lemma_fundamental_div_mod_converse(y + k - 1, k, q + 1, r - 1);
    }
}

proof fn lemma_year_length(y: int)
    ensures
        days_before_year(y + 1) - days_before_year(y) == if is_leap_year(y) {
            366int
        } else {
            365int
        },
{
    lemma_multiples_step(y, 4);
    lemma_multiples_step(y, 100);
    lemma_multiples_step(y, 400);
}

proof fn lemma_days_before_year_mono(a: int, b: int)
    requires
        a <= b,
    ensures
        days_before_year(b) - days_before_year(a) >= 365 * (b - a),
    decreases b - a,
{
    if a < b {
        lemma_days_before_year_mono(a, b - 1);
        lemma_year_length(b - 1);
    }
}

proof fn lemma_days_before_month_step(y: int, m: int)
    requires
        1 <= m <= 12,
    ensures
        days_before_month(y, m) + days_in_month(y, m) <= days_before_month(y, 13),
    decreases 12 - m,
{
    if m < 12 {
        lemma_days_before_month_step(y, m + 1);
    }
}

/// A well-formed stamp lies within its year.
pub proof fn lemma_day_number_in_year(t: Stamp)
    requires
        t.wf(),
    ensures
        days_before_year(t.year as int) <= t.day_number() < days_before_year(t.year + 1),
{
    let y = t.year as int;
    lemma_year_length(y);
    lemma_days_before_month_step(y, t.month as int);
    lemma_days_before_month_bounds(y, t.month as int);
    reveal_with_fuel(days_before_month, 13);
    assert(days_before_month(y, 13) == if is_leap_year(y) { 366int } else { 365int });
}

/// Two stamps less than a day apart lie in the same year or in neighbouring years.
pub proof fn lemma_near_stamps_years(t: Stamp, l: Stamp)
    requires
        t.wf(),
        l.wf(),
        -86400 < l.instant() - t.instant() < 86400,
    ensures
        t.year - 1 <= l.year <= t.year + 1,
{
    lemma_day_number_in_year(t);
    lemma_day_number_in_year(l);
    if l.year < t.year - 1 {
        lemma_days_before_year_mono(l.year + 1, t.year as int);
    }
    if l.year > t.year + 1 {
        lemma_days_before_year_mono(t.year + 1, l.year as int);
    }
}

} // verus!
