//! Calendar labels: the UTC hour that names a data file and the local date that names a
//! log file.

use vstd::arithmetic::div_mod::lemma_fundamental_div_mod;
use vstd::arithmetic::div_mod::lemma_fundamental_div_mod_converse;
use vstd::prelude::*;

use crate::process::opt_text;
use crate::text::decimal;
use crate::text::lemma_padded_value;
use crate::text::lemma_padded_width;
use crate::text::numeral_value;
use crate::text::zero_padded;

verus! {

/// The pattern of an hour label: `YYYY-MM-DDTHH`.
pub const HOUR_PATTERN: &'static str = "%Y-%m-%dT%H";

/// The pattern of a date label: `YYYY-MM-DD`.
pub const DATE_PATTERN: &'static str = "%Y-%m-%d";

/// The first second of the year 10000, counted from the Unix epoch.
pub const YEAR_10000: i64 = 253402300800;

/// The seconds of a day.
pub const DAY_SECS: i64 = 86400;

/// The nanoseconds of a second.
pub const NANOS: u128 = 1_000_000_000;

/// The leap years of the Gregorian calendar.
pub open spec fn is_leap(year: int) -> bool {
    year % 4 == 0 && (year % 100 != 0 || year % 400 == 0)
}

/// The number of days of a month.
pub open spec fn days_in_month(year: int, month: int) -> int {
    if month == 2 {
        if is_leap(year) {
            29
        } else {
            28
        }
    } else if month == 4 || month == 6 || month == 9 || month == 11 {
        30
    } else {
        31
    }
}

/// The days of a year before a month.
pub open spec fn days_before_month(year: int, month: int) -> int
    decreases month,
{
    if month <= 1 {
        0
    } else {
        days_before_month(year, month - 1) + days_in_month(year, month - 1)
    }
}

/// The number of leap years up to a year.
pub open spec fn leap_years_to(year: int) -> int {
    year / 4 - year / 100 + year / 400
}

/// The days from the first of January 1970 to that of `year`.
pub open spec fn days_before_year(year: int) -> int {
    365 * (year - 1970) + leap_years_to(year - 1) - leap_years_to(1969)
}

/// A date of the Gregorian calendar.
pub open spec fn is_date(year: int, month: int, day: int) -> bool {
    1 <= month <= 12 && 1 <= day <= days_in_month(year, month)
}

/// The number of a date, counted in days from the first of January 1970.
pub open spec fn day_number(year: int, month: int, day: int) -> int {
    days_before_year(year) + days_before_month(year, month) + day - 1
}

/// A date as `YYYY-MM-DD`.
pub open spec fn date_text(year: int, month: int, day: int) -> Seq<char> {
    zero_padded(year as nat, 4) + "-"@ + zero_padded(month as nat, 2) + "-"@ + zero_padded(
        day as nat,
        2,
    )
}

/// `text` is the date, as `YYYY-MM-DD`, of a day from `first` to `last`, counted from
/// the first of January 1970.
pub open spec fn is_date_text(text: Seq<char>, first: int, last: int) -> bool {
    exists|year: int, month: int, day: int|
        {
            &&& #[trigger] is_date(year, month, day)
            &&& 0 <= year <= 9999
            &&& first <= day_number(year, month, day) <= last
            &&& text == date_text(year, month, day)
        }
}

/// `text` is the UTC hour of a point in time, as `YYYY-MM-DDTHH`.
pub open spec fn is_hour_text(text: Seq<char>, secs: int) -> bool {
    exists|date: Seq<char>|
        {
            &&& #[trigger] is_date_text(date, secs / 86400, secs / 86400)
            &&& text == date + "T"@ + zero_padded(((secs % 86400) / 3600) as nat, 2)
        }
}

/// The UTC time of a Unix timestamp written by a pattern; `None` for a timestamp beyond
/// the range of the calendar.
pub uninterp spec fn utc_text(secs: i64, pattern: Seq<char>) -> Option<Seq<char>>;

/// Writes the UTC hour of a Unix timestamp.
///
/// Calls `chrono::DateTime::from_timestamp` and `format`. The result is a function of
/// the timestamp and the pattern, named [`utc_text`]; from 1970 to the end of the year
/// 9999 it is the date and hour of the Gregorian calendar. What years of more than four
/// digits look like is left to chrono.
#[verifier::external_body]
fn format_utc(secs: i64, pattern: &str) -> (text: Option<String>)
    requires
        pattern@ == HOUR_PATTERN@,
    ensures
        opt_text(text) == utc_text(secs, pattern@),
        0 <= secs < YEAR_10000 ==> text is Some && is_hour_text(text->0@, secs as int),
{
    match chrono::DateTime::from_timestamp(secs, 0) {
        Some(time) => Some(time.format(pattern).to_string()),
        None => None,
    }
}

/// Writes the date of a Unix timestamp in the machine's time zone; `None` for a timestamp
/// beyond the range of the calendar.
///
/// Calls `chrono::DateTime::from_timestamp`, `with_timezone` for `chrono::Local`, and
/// `format`. Which date it is depends on the time zone; whatever that is, it is the
/// UTC date or a neighbour of it, since chrono's offsets are shorter than a day. Where the
/// machine's time zone is set to an offset of a day or more, which no place on Earth has,
/// chrono stops the program.
#[verifier::external_body]
fn format_local(secs: i64, pattern: &str) -> (text: Option<String>)
    requires
        pattern@ == DATE_PATTERN@,
    ensures
        0 <= secs < YEAR_10000 - DAY_SECS ==> text is Some && is_date_text(
            text->0@,
            secs as int / 86400 - 1,
            secs as int / 86400 + 1,
        ),
{
    match chrono::DateTime::from_timestamp(secs, 0) {
        Some(time) => Some(time.with_timezone(&chrono::Local).format(pattern).to_string()),
        None => None,
    }
}

/// The UTC hour of a point in time, as `YYYY-MM-DDTHH`; `None` where the calendar does
/// not reach that far.
pub fn current_hour(now_secs: i64) -> (hour: Option<String>)
    ensures
        opt_text(hour) == utc_text(now_secs, HOUR_PATTERN@),
        0 <= now_secs < YEAR_10000 ==> hour is Some && is_hour_text(hour->0@, now_secs as int),
{
    format_utc(now_secs, HOUR_PATTERN)
}

/// The label of the UTC hour of a point in time in nanoseconds since the Unix epoch; `None`
/// where the calendar does not reach that far.
pub open spec fn hour_label(nanos: u128) -> Option<Seq<char>> {
    if nanos / NANOS <= i64::MAX {
        utc_text((nanos / NANOS) as i64, HOUR_PATTERN@)
    } else {
        None
    }
}

/// The UTC hour of a point in time in nanoseconds since the Unix epoch, as
/// `YYYY-MM-DDTHH`; `None` where the calendar does not reach that far.
pub fn hour_at(nanos: u128) -> (hour: Option<String>)
    ensures
        opt_text(hour) == hour_label(nanos),
        nanos / NANOS < YEAR_10000 ==> hour is Some && is_hour_text(
            hour->0@,
            (nanos / NANOS) as int,
        ),
{
    let secs: u128 = nanos / NANOS;
    if secs > i64::MAX as u128 {
        return None;
    }
    current_hour(secs as i64)
}

/// The local date of a point in time, as `YYYY-MM-DD`; `None` where the calendar does not
/// reach that far.
pub fn today(now_secs: i64) -> (date: Option<String>)
    ensures
        0 <= now_secs < YEAR_10000 - DAY_SECS ==> date is Some && is_date_text(
            date->0@,
            now_secs as int / 86400 - 1,
            now_secs as int / 86400 + 1,
        ),
{
    format_local(now_secs, DATE_PATTERN)
}

/// The labels of all hours have the same length.
pub proof fn law_hour_labels_have_thirteen_characters(text: Seq<char>, secs: int)
    requires
        is_hour_text(text, secs),
    ensures
        text.len() == 13,
{
    reveal_strlit("-");
    reveal_strlit("T");
    let date = choose|date: Seq<char>|
        {
            &&& #[trigger] is_date_text(date, secs / 86400, secs / 86400)
            &&& text == date + "T"@ + zero_padded(((secs % 86400) / 3600) as nat, 2)
        };
    let (year, month, day) = choose|year: int, month: int, day: int|
        {
            &&& #[trigger] is_date(year, month, day)
            &&& 0 <= year <= 9999
            &&& secs / 86400 <= day_number(year, month, day) <= secs / 86400
            &&& date == date_text(year, month, day)
        };
    reveal_with_fuel(decimal, 4);
    lemma_padded_width(year as nat, 4);
    lemma_padded_width(month as nat, 2);
    lemma_padded_width(day as nat, 2);
    lemma_padded_width(((secs % 86400) / 3600) as nat, 2);
}

/// Two dates with one number are the same date.
pub proof fn law_day_numbers_are_unique(
    year: int,
    month: int,
    day: int,
    other_year: int,
    other_month: int,
    other_day: int,
)
    requires
        is_date(year, month, day),
        is_date(other_year, other_month, other_day),
        day_number(year, month, day) == day_number(other_year, other_month, other_day),
    ensures
        year == other_year,
        month == other_month,
        day == other_day,
{
    lemma_month_within_year(year, month, day);
    lemma_month_within_year(other_year, other_month, other_day);
    if year < other_year {
        lemma_years_apart(year, other_year);
    } else if other_year < year {
        lemma_years_apart(other_year, year);
    }
    assert(year == other_year);
    if month < other_month {
        lemma_months_apart(year, month, other_month);
    } else if other_month < month {
        lemma_months_apart(year, other_month, month);
    }
}

spec fn year_length(year: int) -> int {
    if is_leap(year) {
        366
    } else {
        365
    }
}

proof fn lemma_month_within_year(year: int, month: int, day: int)
    requires
        is_date(year, month, day),
    ensures
        0 <= days_before_month(year, month) + day - 1 < year_length(year),
{
    reveal_with_fuel(days_before_month, 13);
}

/// From one year to the next a quotient grows by one exactly at the multiples of the
/// divisor.
proof fn lemma_quotient_step(year: int, n: int)
    requires
        n > 1,
    ensures
        year / n - (year - 1) / n == (if year % n == 0 {
            1int
        } else {
            0int
        }),
{
    let q = year / n;
    let r = year % n;
    lemma_fundamental_div_mod(year, n);
    if r == 0 {
        assert(year - 1 == (q - 1) * n + (n - 1)) by (nonlinear_arith)
            requires
                year == n * q + r,
                r == 0,
        ;
        lemma_fundamental_div_mod_converse(year - 1, n, q - 1, n - 1);
    } else {
        assert(year - 1 == q * n + (r - 1)) by (nonlinear_arith)
            requires
                year == n * q + r,
        ;
        lemma_fundamental_div_mod_converse(year - 1, n, q, r - 1);
    }
}

proof fn lemma_year_step(year: int)
    ensures
        days_before_year(year + 1) == days_before_year(year) + year_length(year),
{
    lemma_quotient_step(year, 4);
    lemma_quotient_step(year, 100);
    lemma_quotient_step(year, 400);
    assert(year % 400 == 0 ==> year % 100 == 0);
    assert(year % 100 == 0 ==> year % 4 == 0);
}

proof fn lemma_years_apart(early: int, late: int)
    requires
        early < late,
    ensures
        days_before_year(early) + year_length(early) <= days_before_year(late),
    decreases late - early,
{
    lemma_year_step(late - 1);
    if early < late - 1 {
        lemma_years_apart(early, late - 1);
    }
}

proof fn lemma_months_apart(year: int, early: int, late: int)
    requires
        1 <= early < late,
    ensures
        days_before_month(year, early) + days_in_month(year, early) <= days_before_month(year, late),
    decreases late - early,
{
    if early < late - 1 {
        lemma_months_apart(year, early, late - 1);
    }
}

/// The label of an hour depends on the whole seconds alone: it is that of the timestamp, as
/// far as timestamps go.
pub proof fn law_label_is_that_of_the_second(nanos: u128, secs: i64)
    requires
        secs >= 0,
        secs * 1_000_000_000 <= nanos < (secs + 1) * 1_000_000_000,
    ensures
        hour_label(nanos) == utc_text(secs, "%Y-%m-%dT%H"@),
{
    assert(nanos / NANOS == secs) by {
        lemma_fundamental_div_mod_converse(
            nanos as int,
            1_000_000_000,
            secs as int,
            nanos - secs * 1_000_000_000,
        );
    }
}

/// The first of January 1970 has the number zero.
pub proof fn law_days_are_counted_from_the_epoch()
    ensures
        day_number(1970, 1, 1) == 0,
{
}

/// The numbers of two days that follow each other do so too, within a month, from month to
/// month and from year to year.
pub proof fn law_day_numbers_follow_each_other(year: int, month: int, day: int)
    requires
        1 <= month <= 12,
        1 <= day <= days_in_month(year, month),
    ensures
        day < days_in_month(year, month) ==> day_number(year, month, day + 1) == day_number(
            year,
            month,
            day,
        ) + 1,
        day == days_in_month(year, month) && month < 12 ==> day_number(year, month + 1, 1)
            == day_number(year, month, day) + 1,
        day == days_in_month(year, month) && month == 12 ==> day_number(year + 1, 1, 1)
            == day_number(year, month, day) + 1,
{
    lemma_year_step(year);
    reveal_with_fuel(days_before_month, 13);
}

/// An hour label shows the date and the hour of its point in time: four digits of the year,
/// two of the month, two of the day and two of the hour.
pub proof fn law_hour_label_shows_date_and_hour(text: Seq<char>, secs: int) -> (date: (
    int,
    int,
    int,
))
    requires
        is_hour_text(text, secs),
    ensures
        is_date(date.0, date.1, date.2),
        day_number(date.0, date.1, date.2) == secs / 86400,
        text.len() == 13,
        text[4] == '-' && text[7] == '-' && text[10] == 'T',
        numeral_value(text.take(4)) == date.0,
        numeral_value(text.subrange(5, 7)) == date.1,
        numeral_value(text.subrange(8, 10)) == date.2,
        numeral_value(text.skip(11)) == (secs % 86400) / 3600,
{
    reveal_strlit("-");
    reveal_strlit("T");
    let shown = choose|date: Seq<char>|
        {
            &&& #[trigger] is_date_text(date, secs / 86400, secs / 86400)
            &&& text == date + "T"@ + zero_padded(((secs % 86400) / 3600) as nat, 2)
        };
    let (year, month, day) = choose|year: int, month: int, day: int|
        {
            &&& #[trigger] is_date(year, month, day)
            &&& 0 <= year <= 9999
            &&& secs / 86400 <= day_number(year, month, day) <= secs / 86400
            &&& shown == date_text(year, month, day)
        };
    let hour = (secs % 86400) / 3600;
    reveal_with_fuel(decimal, 4);
    lemma_padded_width(year as nat, 4);
    lemma_padded_width(month as nat, 2);
    lemma_padded_width(day as nat, 2);
    lemma_padded_width(hour as nat, 2);
    lemma_padded_value(year as nat, 4);
    lemma_padded_value(month as nat, 2);
    lemma_padded_value(day as nat, 2);
    lemma_padded_value(hour as nat, 2);
    assert(text.take(4) =~= zero_padded(year as nat, 4));
    assert(text.subrange(5, 7) =~= zero_padded(month as nat, 2));
    assert(text.subrange(8, 10) =~= zero_padded(day as nat, 2));
    assert(text.skip(11) =~= zero_padded(hour as nat, 2));
    (year, month, day)
}

} // verus!
