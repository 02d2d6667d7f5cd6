//! Dates and times as text.
use vstd::prelude::*;

use crate::number::{padded_decimal, push_padded_decimal};
use crate::text::{push_text, string_of};

verus! {

// ---------------------------------------------------------------- the calendar

/// A leap year of the Gregorian calendar.
pub open spec fn is_leap(y: int) -> bool {
    y % 4 == 0 && (y % 100 != 0 || y % 400 == 0)
}

/// How many days a month has.
pub open spec fn month_length(y: int, m: int) -> int {
    if m == 2 {
        if is_leap(y) {
            29
        } else {
            28
        }
    } else if m == 4 || m == 6 || m == 9 || m == 11 {
        30
    } else {
        31
    }
}

/// How many days of a year lie before a month.
pub open spec fn days_before_month(y: int, m: int) -> int
    decreases m,
{
    if m <= 1 {
        0
    } else {
        days_before_month(y, m - 1) + month_length(y, m - 1)
    }
}

/// How many leap years there are up to a year, counted from the year 0.
pub open spec fn leap_years(y: int) -> int {
    y / 4 - y / 100 + y / 400
}

/// How many days lie between the first of January of 1970 and that of a year.
pub open spec fn days_before_year(y: int) -> int {
    365 * (y - 1970) + leap_years(y - 1) - leap_years(1969)
}

/// How many days a date lies behind the first of January of 1970.
pub open spec fn day_number(y: int, m: int, d: int) -> int {
    days_before_year(y) + days_before_month(y, m) + d - 1
}

/// A date of the calendar.
pub open spec fn is_date(y: int, m: int, d: int) -> bool {
    1 <= m <= 12 && 1 <= d <= month_length(y, m)
}

/// Leap years are counted one by one.
#[verifier::spinoff_prover]
#[verifier::rlimit(40)]
proof fn lemma_leap_years(y: int)
    ensures
        leap_years(y) - leap_years(y - 1) == (if is_leap(y) {
            1int
        } else {
            0
        }),
{
    assert(y / 4 - (y - 1) / 4 == (if y % 4 == 0 {
        1int
    } else {
        0
    }));
    assert(y / 100 - (y - 1) / 100 == (if y % 100 == 0 {
        1int
    } else {
        0
    }));
    assert(y / 400 - (y - 1) / 400 == (if y % 400 == 0 {
        1int
    } else {
        0
    }));
    assert(y % 100 == 0 ==> y % 4 == 0);
    assert(y % 400 == 0 ==> y % 100 == 0);
}

/// A year has as many days as its months.
#[verifier::spinoff_prover]
#[verifier::rlimit(40)]
proof fn lemma_year_length(y: int)
    ensures
        days_before_month(y, 2) == 31,
        days_before_month(y, 3) == 59 + (if is_leap(y) {
            1int
        } else {
            0
        }),
        days_before_month(y, 4) == days_before_month(y, 3) + 31,
        days_before_month(y, 5) == days_before_month(y, 3) + 61,
        days_before_month(y, 6) == days_before_month(y, 3) + 92,
        days_before_month(y, 7) == days_before_month(y, 3) + 122,
        days_before_month(y, 8) == days_before_month(y, 3) + 153,
        days_before_month(y, 9) == days_before_month(y, 3) + 184,
        days_before_month(y, 10) == days_before_month(y, 3) + 214,
        days_before_month(y, 11) == days_before_month(y, 3) + 245,
        days_before_month(y, 12) == days_before_month(y, 3) + 275,
        days_before_year(y + 1) == days_before_month(y, 12) + 31 + days_before_year(y),
{
    assert(days_before_month(y, 1) == 0);
    assert(days_before_month(y, 2) == 31);
    assert(days_before_month(y, 3) == 31 + month_length(y, 2));
    assert(days_before_month(y, 4) == days_before_month(y, 3) + 31);
    assert(days_before_month(y, 5) == days_before_month(y, 4) + 30);
    assert(days_before_month(y, 6) == days_before_month(y, 5) + 31);
    assert(days_before_month(y, 7) == days_before_month(y, 6) + 30);
    assert(days_before_month(y, 8) == days_before_month(y, 7) + 31);
    assert(days_before_month(y, 9) == days_before_month(y, 8) + 31);
    assert(days_before_month(y, 10) == days_before_month(y, 9) + 30);
    assert(days_before_month(y, 11) == days_before_month(y, 10) + 31);
    assert(days_before_month(y, 12) == days_before_month(y, 11) + 30);
    lemma_leap_years(y);
}

/// Counting goes on by one from each date to the next: inside a month, from month to
/// month, and from year to year.
pub proof fn law_days_are_counted(y: int, m: int, d: int)
    requires
        is_date(y, m, d),
    ensures
        day_number(1970, 1, 1) == 0,
        d < month_length(y, m) ==> day_number(y, m, d + 1) == day_number(y, m, d) + 1,
        d == month_length(y, m) && m < 12 ==> day_number(y, m + 1, 1) == day_number(y, m, d) + 1,
        d == month_length(y, m) && m == 12 ==> day_number(y + 1, 1, 1) == day_number(y, m, d) + 1,
{
    lemma_year_length(y);
}

/// Later years start later.
proof fn lemma_years_in_order(a: int, b: int)
    requires
        a <= b,
    ensures
        days_before_year(a) <= days_before_year(b),
    decreases b - a,
{
    if a < b {
        lemma_years_in_order(a, b - 1);
        lemma_year_length(b - 1);
    }
}

/// A date lies inside its year.
proof fn lemma_inside_year(y: int, m: int, d: int)
    requires
        is_date(y, m, d),
    ensures
        days_before_year(y) <= day_number(y, m, d) < days_before_year(y + 1),
{
    lemma_year_length(y);
}

/// Two dates of the same day are the same date.
#[verifier::spinoff_prover]
#[verifier::rlimit(40)]
pub proof fn law_day_has_one_date(y1: int, m1: int, d1: int, y2: int, m2: int, d2: int)
    requires
        is_date(y1, m1, d1),
        is_date(y2, m2, d2),
        day_number(y1, m1, d1) == day_number(y2, m2, d2),
    ensures
        y1 == y2,
        m1 == m2,
        d1 == d2,
{
    lemma_inside_year(y1, m1, d1);
    lemma_inside_year(y2, m2, d2);
    if y1 < y2 {
        lemma_years_in_order(y1 + 1, y2);
    }
    if y2 < y1 {
        lemma_years_in_order(y2 + 1, y1);
    }
    lemma_year_length(y1);
}

/// The days of a 400-year cycle that lie before a year which starts in March.
pub open spec fn cycle_start(yoe: int) -> int {
    365 * yoe + yoe / 4 - yoe / 100
}

/// The year of a day in a 400-year cycle.
proof fn lemma_year_of_cycle(doe: u32)
    requires
        doe < 146097,
    ensures
        ({
            let yoe = (doe - doe / 1460 + doe / 36524 - doe / 146096) / 365;
            &&& 0 <= yoe < 400
            &&& cycle_start(yoe) <= doe
            &&& doe < cycle_start(yoe + 1) || yoe == 399
        }),
{
    assert(({
        let a = doe - doe / 1460;
        let b = a + doe / 36524;
        let c = b - doe / 146096;
        let yoe = c / 365;
        &&& 0 <= yoe < 400
        &&& 365 * yoe + yoe / 4 - yoe / 100 <= doe
        &&& doe < 365 * (yoe + 1) + (yoe + 1) / 4 - (yoe + 1) / 100 || yoe == 399
    })) by (bit_vector)
        requires
            doe < 146097,
    ;
}

/// The month and the day of a day in a year which starts in March.
proof fn lemma_month_of_year(doy: u32)
    requires
        doy <= 365,
    ensures
        ({
            let mp = (5 * doy + 2) / 153;
            let before = (153 * mp + 2) / 5;
            &&& 0 <= mp < 12
            &&& before <= doy
            &&& mp < 11 ==> doy < (153 * (mp + 1) + 2) / 5
        }),
{
}

/// The date of a day in the calendar.
#[verifier::spinoff_prover]
#[verifier::rlimit(40)]
pub fn civil_from_days(z: i64) -> (r: (i64, u32, u32))
    requires
        z <= i64::MAX - 719468,
    ensures
        is_date(r.0 as int, r.1 as int, r.2 as int),
        day_number(r.0 as int, r.1 as int, r.2 as int) == z,
{
    let z0: i64 = z + 719468;
    let era: i64 = if z0 >= 0 {
        z0 / 146097
    } else {
        0 - (0 - (z0 - 146096)) / 146097
    };
    let doe: i64 = z0 - era * 146097;
    assert(0 <= doe < 146097);
    proof {
        lemma_year_of_cycle(doe as u32);
    }
    let yoe: i64 = (doe - doe / 1460 + doe / 36524 - doe / 146096) / 365;
    let y: i64 = yoe + era * 400;
    let doy: i64 = doe - (365 * yoe + yoe / 4 - yoe / 100);
    assert(0 <= yoe < 400 && 0 <= doy <= 365);
    proof {
        lemma_month_of_year(doy as u32);
    }
    let mp: i64 = (5 * doy + 2) / 153;
    let d: u32 = (doy - (153 * mp + 2) / 5 + 1) as u32;
    let m: u32 = (if mp < 10 {
        mp + 3
    } else {
        mp - 9
    }) as u32;
    proof {
        lemma_date_of_day(era as int, yoe as int, doy as int, mp as int);
    }
    (if m <= 2 {
        y + 1
    } else {
        y
    }, m, d)
}

/// The leap years up to a year of a 400-year cycle.
proof fn lemma_leap_years_of_cycle(era: int, yoe: int)
    requires
        0 <= yoe < 400,
    ensures
        leap_years(yoe + era * 400) == 97 * era + yoe / 4 - yoe / 100,
{
    let y = yoe + era * 400;
    assert(y / 4 == era * 100 + yoe / 4);
    assert(y / 100 == era * 4 + yoe / 100);
    assert(y / 400 == era);
}

/// A year of 366 days from March on ends with a leap day.
proof fn lemma_long_year_ends_with_leap_day(era: int, yoe: int)
    requires
        0 <= yoe < 400,
        365 + cycle_start(yoe) < cycle_start(yoe + 1) || yoe == 399,
    ensures
        is_leap(yoe + era * 400 + 1),
{
    let y = yoe + era * 400 + 1;
    assert(y % 4 == (yoe + 1) % 4);
    assert(y % 100 == (yoe + 1) % 100);
    assert(y % 400 == (yoe + 1) % 400);
    assert((yoe + 1) / 4 - yoe / 4 == (if (yoe + 1) % 4 == 0 {
        1int
    } else {
        0
    }));
    assert((yoe + 1) / 100 - yoe / 100 == (if (yoe + 1) % 100 == 0 {
        1int
    } else {
        0
    }));
}

/// The date that is put together is the one of the day.
#[verifier::spinoff_prover]
#[verifier::rlimit(40)]
proof fn lemma_date_of_day(era: int, yoe: int, doy: int, mp: int)
    requires
        0 <= yoe < 400,
        0 <= doy <= 365,
        doy + cycle_start(yoe) < cycle_start(yoe + 1) || yoe == 399,
        0 <= mp < 12,
        (153 * mp + 2) / 5 <= doy,
        mp < 11 ==> doy < (153 * (mp + 1) + 2) / 5,
    ensures
        ({
            let m = if mp < 10 {
                mp + 3
            } else {
                mp - 9
            };
            let y = if m <= 2 {
                yoe + era * 400 + 1
            } else {
                yoe + era * 400
            };
            let d = doy - (153 * mp + 2) / 5 + 1;
            &&& is_date(y, m, d)
            &&& day_number(y, m, d) == era * 146097 + cycle_start(yoe) + doy - 719468
        }),
{
    let y0 = yoe + era * 400;
    if doy == 365 {
        lemma_long_year_ends_with_leap_day(era, yoe);
    }
    lemma_leap_years_of_cycle(era, yoe);
    let leaps = leap_years(y0);
    let start = cycle_start(yoe);
    assert(start == 365 * yoe + leaps - 97 * era);
    assert(leap_years(1969) == 477);
    let before = days_before_year(y0 + 1);
    assert(before == 365 * (y0 - 1969) + leaps - 477);
    if mp < 10 {
        lemma_year_length(y0);
    } else {
        lemma_year_length(y0 + 1);
    }
}

// ---------------------------------------------------------------- times as text

/// The date of a day.
pub open spec fn date_of(z: int) -> (int, int, int) {
    choose|y: int, m: int, d: int| #![trigger day_number(y, m, d)] is_date(y, m, d) && day_number(
        y,
        m,
        d,
    ) == z
}

/// A moment as "YYYY-MM-DD HH:MM:SS.mmm" in UTC.
pub open spec fn utc_text(secs: int, millis: int) -> Seq<char> {
    let (y, m, d) = date_of(secs / 86400);
    let rem = secs % 86400;
    padded_decimal(y, 4) + "-"@ + padded_decimal(m, 2) + "-"@ + padded_decimal(d, 2) + " "@
        + padded_decimal(rem / 3600, 2) + ":"@ + padded_decimal((rem % 3600) / 60, 2) + ":"@
        + padded_decimal(rem % 60, 2) + "."@ + padded_decimal(millis, 3)
}

/// A moment as "YYYYMMDD-HHMMSS" in UTC.
pub open spec fn stamp_text(secs: int) -> Seq<char> {
    let (y, m, d) = date_of(secs / 86400);
    let rem = secs % 86400;
    padded_decimal(y, 4) + padded_decimal(m, 2) + padded_decimal(d, 2) + "-"@ + padded_decimal(
        rem / 3600,
        2,
    ) + padded_decimal((rem % 3600) / 60, 2) + padded_decimal(rem % 60, 2)
}

/// A moment taken apart: year, month, day, hour, minute, second.
fn take_apart(secs: i64) -> (t: (i64, i64, i64, i64, i64, i64))
    requires
        0 <= secs,
    ensures
        (t.0 as int, t.1 as int, t.2 as int) == date_of(secs as int / 86400),
        t.3 == (secs % 86400) / 3600,
        t.4 == (secs % 86400) % 3600 / 60,
        t.5 == (secs % 86400) % 60,
{
    let days: i64 = secs / 86400;
    let rem: i64 = secs % 86400;
    let (y, m, d) = civil_from_days(days);
    proof {
        let (y0, m0, d0) = date_of(days as int);
        law_day_has_one_date(y as int, m as int, d as int, y0, m0, d0);
    }
    (y, m as i64, d as i64, rem / 3600, (rem % 3600) / 60, rem % 60)
}

/// Writes a moment, given in seconds since 1970 and milliseconds.
pub fn fmt_utc(secs: i64, millis: u32) -> (s: String)
    requires
        0 <= secs,
    ensures
        s@ == utc_text(secs as int, millis as int),
{
    let (y, m, d, h, mi, sec) = take_apart(secs);
    let mut out: Vec<char> = Vec::new();
    push_padded_decimal(&mut out, y, 4);
    push_text(&mut out, "-");
    push_padded_decimal(&mut out, m, 2);
    push_text(&mut out, "-");
    push_padded_decimal(&mut out, d, 2);
    push_text(&mut out, " ");
    push_padded_decimal(&mut out, h, 2);
    push_text(&mut out, ":");
    push_padded_decimal(&mut out, mi, 2);
    push_text(&mut out, ":");
    push_padded_decimal(&mut out, sec, 2);
    push_text(&mut out, ".");
    push_padded_decimal(&mut out, millis as i64, 3);
    assert(out@ =~= utc_text(secs as int, millis as int));
    string_of(out.as_slice())
}

/// Writes a moment as a short stamp, given in seconds since 1970.
pub fn fmt_stamp(secs: i64) -> (s: String)
    requires
        0 <= secs,
    ensures
        s@ == stamp_text(secs as int),
{
    let (y, m, d, h, mi, sec) = take_apart(secs);
    let mut out: Vec<char> = Vec::new();
    push_padded_decimal(&mut out, y, 4);
    push_padded_decimal(&mut out, m, 2);
    push_padded_decimal(&mut out, d, 2);
    push_text(&mut out, "-");
    push_padded_decimal(&mut out, h, 2);
    push_padded_decimal(&mut out, mi, 2);
    push_padded_decimal(&mut out, sec, 2);
    assert(out@ =~= stamp_text(secs as int));
    string_of(out.as_slice())
}

// ---------------------------------------------------------------- log lines

/// A text brought to at least `width` characters by blanks behind it.
pub open spec fn blank_padded(s: Seq<char>, width: nat) -> Seq<char> {
    if s.len() < width {
        s + Seq::new((width - s.len()) as nat, |i: int| ' ')
    } else {
        s
    }
}

/// A line of the log: the time, the level in brackets, the message.
pub fn log_line(time: &str, level: &str, message: &str) -> (line: String)
    ensures
        line@ == time@ + " ["@ + blank_padded(level@, 5) + "] "@ + message@,
{
    let mut out: Vec<char> = Vec::new();
    push_text(&mut out, time);
    push_text(&mut out, " [");
    let ghost before = out@;
    push_text(&mut out, level);
    let start: usize = out.len();
    let mut have: usize = 0;
    for c in it: level.chars()
        invariant
            it.seq() == level@,
            have == it.index(),
            level@.len() <= start,
    {
        have = have + 1;
    }
    let ghost mid = out@;
    let ghost width = level@.len();
    while have < 5
        invariant
            width <= have,
            have <= 5 || have == width,
            out@ =~= mid + Seq::new((have - width) as nat, |i: int| ' '),
        decreases 5 - have,
    {
        out.push(' ');
        have = have + 1;
    }
    assert(out@ =~= before + blank_padded(level@, 5));
    push_text(&mut out, "] ");
    push_text(&mut out, message);
    assert(out@ =~= time@ + " ["@ + blank_padded(level@, 5) + "] "@ + message@);
    string_of(out.as_slice())
}

// ---------------------------------------------------------------- laws

/// The months have the lengths that they are known to have; February has a day more in
/// every fourth year, but for the hundredth ones, unless they are four hundredth ones.
pub proof fn law_lengths_of_months(y: int, k: int)
    ensures
        month_length(y, 1) == 31 && month_length(y, 3) == 31 && month_length(y, 5) == 31
            && month_length(y, 7) == 31 && month_length(y, 8) == 31 && month_length(y, 10) == 31
            && month_length(y, 12) == 31,
        month_length(y, 4) == 30 && month_length(y, 6) == 30 && month_length(y, 9) == 30
            && month_length(y, 11) == 30,
        month_length(y, 2) == 28 || month_length(y, 2) == 29,
        y % 4 != 0 ==> month_length(y, 2) == 28,
        month_length(4 * k, 2) == 28 <==> k % 25 == 0 && k % 100 != 0,
{
    assert((4 * k) % 4 == 0);
    assert((4 * k) % 100 == 0 <==> k % 25 == 0);
    assert((4 * k) % 400 == 0 <==> k % 100 == 0);
}

/// A date is a month from one to twelve and a day that the month has.
pub proof fn law_dates(y: int, m: int, d: int)
    ensures
        is_date(y, m, d) <==> 1 <= m && m <= 12 && 1 <= d && d <= month_length(y, m),
{
}

/// A moment is written as its date and its time of day, year first, with the separators
/// that are usual; the time of day is counted in hours, minutes and seconds.
pub proof fn law_moments_are_written(
    y: int,
    m: int,
    d: int,
    h: int,
    mi: int,
    s: int,
    millis: int,
)
    requires
        is_date(y, m, d),
        0 <= h < 24,
        0 <= mi < 60,
        0 <= s < 60,
    ensures
        utc_text(day_number(y, m, d) * 86400 + h * 3600 + mi * 60 + s, millis) == padded_decimal(
            y,
            4,
        ) + seq!['-'] + padded_decimal(m, 2) + seq!['-'] + padded_decimal(d, 2) + seq![' ']
            + padded_decimal(h, 2) + seq![':'] + padded_decimal(mi, 2) + seq![':']
            + padded_decimal(s, 2) + seq!['.'] + padded_decimal(millis, 3),
        stamp_text(day_number(y, m, d) * 86400 + h * 3600 + mi * 60 + s) == padded_decimal(y, 4)
            + padded_decimal(m, 2) + padded_decimal(d, 2) + seq!['-'] + padded_decimal(h, 2)
            + padded_decimal(mi, 2) + padded_decimal(s, 2),
{
    reveal_strlit("-");
    reveal_strlit(" ");
    reveal_strlit(":");
    reveal_strlit(".");
    assert("-"@ =~= seq!['-'] && " "@ =~= seq![' '] && ":"@ =~= seq![':'] && "."@ =~= seq!['.']);
    let z = day_number(y, m, d);
    let rem = h * 3600 + mi * 60 + s;
    let secs = z * 86400 + h * 3600 + mi * 60 + s;
    assert(secs / 86400 == z && secs % 86400 == rem);
    assert(rem / 3600 == h && rem % 3600 == mi * 60 + s);
    assert((mi * 60 + s) / 60 == mi && rem % 60 == s);
    let (y0, m0, d0) = date_of(z);
    assert(is_date(y0, m0, d0) && day_number(y0, m0, d0) == z);
    law_day_has_one_date(y, m, d, y0, m0, d0);
}

/// A text is filled with blanks behind it up to its width, and never cut.
pub proof fn law_levels_are_filled(s: Seq<char>, width: nat, i: int)
    requires
        0 <= i < blank_padded(s, width).len(),
    ensures
        blank_padded(s, width).len() == (if s.len() < width {
            width
        } else {
            s.len()
        }),
        i < s.len() ==> blank_padded(s, width)[i] == s[i],
        i >= s.len() ==> blank_padded(s, width)[i] == ' ',
{
}

} // verus!
