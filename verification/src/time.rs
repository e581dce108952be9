//! Points in time: seconds since the epoch, and how they are written.

use std::time::{SystemTime, UNIX_EPOCH};
use vstd::prelude::*;

use crate::text::{
    decimal_value, law_decimal_is_as_long_as_needed, law_padding_keeps_the_number, padded_decimal,
    push_padded,
};

verus! {

// ---------------------------------------------------------------------------
// The calendar
// ---------------------------------------------------------------------------

/// Whether the year has a leap day.
pub open spec fn is_leap(year: int) -> bool {
    year % 4 == 0 && (year % 100 != 0 || year % 400 == 0)
}

/// How many days the month has.
pub open spec fn month_days(year: int, month: int) -> int {
    if month == 2 {
        if is_leap(year) {
            29
        } else {
            28
        }
    } else if month == 4 || month == 6 || month == 9 || month == 11 {
        30
    } else {
        31
    }
}

/// How many days of the year lie before the month.
pub open spec fn days_before_month(year: int, month: int) -> int
    decreases month,
{
    if month <= 1 {
        0
    } else {
        days_before_month(year, month - 1) + month_days(year, month - 1)
    }
}

/// How many days lie between the first of January of year one and that of `year`.
pub open spec fn days_before_year(year: int) -> int {
    365 * (year - 1) + (year - 1) / 4 - (year - 1) / 100 + (year - 1) / 400
}

/// Whether the calendar has the day.
pub open spec fn is_date(year: int, month: int, day: int) -> bool {
    1 <= month <= 12 && 1 <= day <= month_days(year, month)
}

/// The number of a day, counted from the first of January 1970.
pub open spec fn day_number(year: int, month: int, day: int) -> int {
    days_before_year(year) + days_before_month(year, month) + day - 1 - 719162
}

/// A year as four digits at least, the sign counting as one.
pub open spec fn year_text(year: int) -> Seq<char> {
    if year < 0 {
        seq!['-'] + padded_decimal((-year) as nat, 3)
    } else {
        padded_decimal(year as nat, 4)
    }
}

/// A point in time as `YYYY-MM-DDTHH:MM:SSZ`.
pub open spec fn iso_text(year: int, month: int, day: int, second_of_day: int) -> Seq<char> {
    year_text(year) + seq!['-'] + padded_decimal(month as nat, 2) + seq!['-'] + padded_decimal(
        day as nat,
        2,
    ) + seq!['T'] + padded_decimal((second_of_day / 3600) as nat, 2) + seq![':'] + padded_decimal(
        (second_of_day % 3600 / 60) as nat,
        2,
    ) + seq![':'] + padded_decimal((second_of_day % 60) as nat, 2) + seq!['Z']
}

/// Whether `text` is how the point in time is written: its day by the calendar,
/// and its time of day.
pub open spec fn is_iso8601_of(text: Seq<char>, secs: int) -> bool {
    exists|year: int, month: int, day: int|
        #![trigger is_date(year, month, day)]
        is_date(year, month, day) && day_number(year, month, day) == secs / 86400 && text
            == iso_text(year, month, day, secs % 86400)
}

/// A year that starts in March, so that the leap day is its last.
struct MarchDate {
    year: i64,
    /// The day of that year, from zero.
    day: i64,
}

/// The days before the month of a year that starts in March.
spec fn march_offset(m: int) -> int {
    (153 * m + 2) / 5
}

/// The days from the first of March of year zero to that of `year`.
spec fn days_before_march(year: int) -> int {
    365 * year + year / 4 - year / 100 + year / 400
}

/// The March year and the day in it of a day counted from the first of March of
/// year zero.
fn march_date(z: i64) -> (r: MarchDate)
    requires
        -200000000000000 <= z <= 200000000000000,
    ensures
        days_before_march(r.year as int) + r.day == z,
        0 <= r.day <= (if is_leap(r.year + 1) {
            365int
        } else {
            364int
        }),
        -600000000000 <= r.year <= 600000000000,
{
    let era: i64 = if z >= 0 {
        z / 146097
    } else {
        0 - (((0 - z) - 1) / 146097) - 1
    };
    let doe: i64 = z - era * 146097;
    assert(0 <= doe < 146097);
    let c: i64 = if doe / 36524 < 3 {
        doe / 36524
    } else {
        3
    };
    let doc: i64 = doe - c * 36524;
    let q: i64 = if doc / 1461 < 24 {
        doc / 1461
    } else {
        24
    };
    let doq: i64 = doc - q * 1461;
    let r: i64 = if doq / 365 < 3 {
        doq / 365
    } else {
        3
    };
    let day: i64 = doq - r * 365;
    let year: i64 = era * 400 + c * 100 + q * 4 + r;
    proof {
        lemma_march_year(era as int, c as int, q as int, r as int);
        assert(0 <= day <= 365);
    }
    MarchDate { year, day }
}

/// The leap days before a year made of eras, centuries, quads and years.
proof fn lemma_march_year(era: int, c: int, q: int, r: int)
    requires
        0 <= c <= 3,
        0 <= q <= 24,
        0 <= r <= 3,
    ensures
        ({
            let year = era * 400 + c * 100 + q * 4 + r;
            &&& days_before_march(year) == era * 146097 + c * 36524 + q * 1461 + r * 365
            &&& is_leap(year + 1) <==> r == 3 && (q < 24 || c == 3)
        }),
{
    let year = era * 400 + c * 100 + q * 4 + r;
    assert(year / 4 == era * 100 + c * 25 + q);
    assert(year / 100 == era * 4 + c);
    assert(year / 400 == era);
    let next = year + 1;
    if r < 3 {
        assert(next % 4 == r + 1);
    } else {
        assert(next % 4 == 0);
        if q < 24 {
            assert(next % 100 == q * 4 + 4);
        } else {
            assert(next % 100 == 0);
            if c < 3 {
                assert(next % 400 == c * 100 + 100);
            } else {
                assert(next % 400 == 0);
            }
        }
    }
}

/// From a day of a March year to the calendar.
proof fn lemma_march_to_calendar(march_year: int, doy: int, mp: int)
    requires
        0 <= doy <= (if is_leap(march_year + 1) {
            365int
        } else {
            364int
        }),
        mp == (5 * doy + 2) / 153,
    ensures
        0 <= mp <= 11,
        march_offset(mp) <= doy,
        ({
            let month = if mp < 10 {
                mp + 3
            } else {
                mp - 9
            };
            let year = if month <= 2 {
                march_year + 1
            } else {
                march_year
            };
            let day = doy - march_offset(mp) + 1;
            &&& is_date(year, month, day)
            &&& day_number(year, month, day) == days_before_march(march_year) + doy - 719468
        }),
{
    let month = if mp < 10 {
        mp + 3
    } else {
        mp - 9
    };
    let year = if month <= 2 {
        march_year + 1
    } else {
        march_year
    };
    reveal_with_fuel(days_before_month, 13);
    let y = march_year;
    lemma_leaps_of_year(y);
    lemma_leaps_of_year(y + 1);
}

/// A year adds a leap day to the count of those before it exactly when it has one.
proof fn lemma_leaps_of_year(year: int)
    ensures
        year / 4 - (year - 1) / 4 == (if year % 4 == 0 {
            1int
        } else {
            0
        }),
        year / 100 - (year - 1) / 100 == (if year % 100 == 0 {
            1int
        } else {
            0
        }),
        year / 400 - (year - 1) / 400 == (if year % 400 == 0 {
            1int
        } else {
            0
        }),
        year % 400 == 0 ==> year % 100 == 0,
        year % 100 == 0 ==> year % 4 == 0,
{
    lemma_quads_of_year(year);
    lemma_centuries_of_year(year);
    lemma_eras_of_year(year);
    lemma_multiples(year);
}

proof fn lemma_quads_of_year(year: int)
    ensures
        year / 4 - (year - 1) / 4 == (if year % 4 == 0 {
            1int
        } else {
            0
        }),
{
}

proof fn lemma_centuries_of_year(year: int)
    ensures
        year / 100 - (year - 1) / 100 == (if year % 100 == 0 {
            1int
        } else {
            0
        }),
{
}

proof fn lemma_eras_of_year(year: int)
    ensures
        year / 400 - (year - 1) / 400 == (if year % 400 == 0 {
            1int
        } else {
            0
        }),
{
}

proof fn lemma_multiples(year: int)
    ensures
        year % 400 == 0 ==> year % 100 == 0,
        year % 100 == 0 ==> year % 4 == 0,
{
    if year % 400 == 0 {
        assert(year == 100 * (4 * (year / 400)));
    }
    if year % 100 == 0 {
        assert(year == 4 * (25 * (year / 100)));
    }
}

/// Appends a year as four digits at least.
fn push_year(out: &mut String, year: i64)
    requires
        -600000000001 <= year <= 600000000001,
    ensures
        final(out)@ == old(out)@ + year_text(year as int),
{
    if year < 0 {
        out.push('-');
        push_padded(out, (0 - year) as u64, 3);
    } else {
        push_padded(out, year as u64, 4);
    }
    assert(out@ =~= old(out)@ + year_text(year as int));
}

/// A day of the calendar.
struct CalendarDate {
    year: i64,
    month: i64,
    day: i64,
}

/// The day of the calendar with a number.
fn calendar_date(days: i64) -> (r: CalendarDate)
    requires
        -150000000000000 <= days <= 150000000000000,
    ensures
        is_date(r.year as int, r.month as int, r.day as int),
        day_number(r.year as int, r.month as int, r.day as int) == days,
        -600000000001 <= r.year <= 600000000001,
{
    let march: MarchDate = march_date(days + 719468);
    let doy: i64 = march.day;
    let mp: i64 = (5 * doy + 2) / 153;
    proof {
        lemma_march_to_calendar(march.year as int, doy as int, mp as int);
    }
    let day: i64 = doy - (153 * mp + 2) / 5 + 1;
    let month: i64 = if mp < 10 {
        mp + 3
    } else {
        mp - 9
    };
    let year: i64 = if month <= 2 {
        march.year + 1
    } else {
        march.year
    };
    CalendarDate { year, month, day }
}

/// The number of the day, and the second within it.
fn day_and_second(secs: i64) -> (r: (i64, i64))
    ensures
        r.0 == secs as int / 86400,
        r.1 == secs as int % 86400,
{
    if secs >= 0 {
        (secs / 86400, secs % 86400)
    } else {
        let n: i64 = 0 - (secs + 1);
        (0 - (n / 86400) - 1, 86399 - n % 86400)
    }
}

/// The text of a date and a time of day.
fn iso_string(date: &CalendarDate, second_of_day: i64) -> (text: String)
    requires
        is_date(date.year as int, date.month as int, date.day as int),
        -600000000001 <= date.year <= 600000000001,
        0 <= second_of_day < 86400,
    ensures
        text@ == iso_text(
            date.year as int,
            date.month as int,
            date.day as int,
            second_of_day as int,
        ),
{
    let mut out: String = String::new();
    push_year(&mut out, date.year);
    out.push('-');
    push_padded(&mut out, date.month as u64, 2);
    out.push('-');
    push_padded(&mut out, date.day as u64, 2);
    out.push('T');
    push_padded(&mut out, (second_of_day / 3600) as u64, 2);
    out.push(':');
    push_padded(&mut out, (second_of_day % 3600 / 60) as u64, 2);
    out.push(':');
    push_padded(&mut out, (second_of_day % 60) as u64, 2);
    out.push('Z');
    assert(out@ =~= iso_text(
        date.year as int,
        date.month as int,
        date.day as int,
        second_of_day as int,
    ));
    out
}

/// A point in time, in seconds since the epoch, as `YYYY-MM-DDTHH:MM:SSZ` in UTC.
pub fn epoch_to_iso8601(secs: i64) -> (text: String)
    ensures
        is_iso8601_of(text@, secs as int),
{
    let (days, second_of_day): (i64, i64) = day_and_second(secs);
    let date: CalendarDate = calendar_date(days);
    let text: String = iso_string(&date, second_of_day);
    assert(is_date(date.year as int, date.month as int, date.day as int));
    text
}

proof fn lemma_month_starts(year: int, month: int)
    requires
        1 <= month <= 12,
    ensures
        0 <= days_before_month(year, month),
        days_before_month(year, month) + month_days(year, month) <= (if is_leap(year) {
            366int
        } else {
            365
        }),
        month < 12 ==> days_before_month(year, month + 1) == days_before_month(year, month)
            + month_days(year, month),
{
    reveal_with_fuel(days_before_month, 13);
}

proof fn lemma_months_in_order(year: int, early: int, late: int)
    requires
        1 <= early < late <= 12,
    ensures
        days_before_month(year, early) + month_days(year, early) <= days_before_month(year, late),
    decreases late,
{
    lemma_month_starts(year, late - 1);
    if early < late - 1 {
        lemma_months_in_order(year, early, late - 1);
    }
}

proof fn lemma_years_in_order(early: int, late: int)
    requires
        early < late,
    ensures
        days_before_year(early) + (if is_leap(early) {
            366int
        } else {
            365
        }) <= days_before_year(late),
    decreases late - early,
{
    lemma_leaps_of_year(late - 1);
    if early < late - 1 {
        lemma_years_in_order(early, late - 1);
    }
}

/// No two dates have the same number: a point in time is on one day only.
pub proof fn law_day_numbers_are_unique(
    y1: int,
    m1: int,
    d1: int,
    y2: int,
    m2: int,
    d2: int,
)
    requires
        is_date(y1, m1, d1),
        is_date(y2, m2, d2),
        day_number(y1, m1, d1) == day_number(y2, m2, d2),
    ensures
        y1 == y2,
        m1 == m2,
        d1 == d2,
{
    lemma_month_starts(y1, m1);
    lemma_month_starts(y2, m2);
    if y1 < y2 {
        lemma_years_in_order(y1, y2);
    } else if y2 < y1 {
        lemma_years_in_order(y2, y1);
    } else if m1 < m2 {
        lemma_months_in_order(y1, m1, m2);
    } else if m2 < m1 {
        lemma_months_in_order(y1, m2, m1);
    }
}

/// A point in time is written in one way only.
pub proof fn law_iso8601_is_unique(left: Seq<char>, right: Seq<char>, secs: int)
    requires
        is_iso8601_of(left, secs),
        is_iso8601_of(right, secs),
    ensures
        left == right,
{
    let (y1, m1, d1) = choose|year: int, month: int, day: int|
        #![trigger is_date(year, month, day)]
        is_date(year, month, day) && day_number(year, month, day) == secs / 86400 && left
            == iso_text(year, month, day, secs % 86400);
    let (y2, m2, d2) = choose|year: int, month: int, day: int|
        #![trigger is_date(year, month, day)]
        is_date(year, month, day) && day_number(year, month, day) == secs / 86400 && right
            == iso_text(year, month, day, secs % 86400);
    law_day_numbers_are_unique(y1, m1, d1, y2, m2, d2);
}

/// Days are counted from the first of January of 1970, each one more than the day before
/// it: in a month, from one month to the next, and from one year to the next.
pub proof fn law_days_follow_each_other(year: int, month: int, day: int)
    ensures
        day_number(1970, 1, 1) == 0,
        day_number(year, month, day + 1) == day_number(year, month, day) + 1,
        1 <= month < 12 ==> day_number(year, month + 1, 1) == day_number(
            year,
            month,
            month_days(year, month),
        ) + 1,
        day_number(year + 1, 1, 1) == day_number(year, 12, 31) + 1,
{
    reveal_with_fuel(days_before_month, 13);
    let leap: int = if is_leap(year) {
        1
    } else {
        0
    };
    assert(year / 4 - (year - 1) / 4 == (if year % 4 == 0 {
        1int
    } else {
        0
    }));
    assert(year / 100 - (year - 1) / 100 == (if year % 100 == 0 {
        1int
    } else {
        0
    }));
    assert(year / 400 - (year - 1) / 400 == (if year % 400 == 0 {
        1int
    } else {
        0
    }));
    assert(days_before_year(year + 1) - days_before_year(year) == 365 + leap);
}

/// How long the months are: a year has a leap day where four divides it, but of the full
/// centuries only where four hundred does.
pub proof fn law_lengths_of_months(year: int, month: int)
    ensures
        month == 1 || month == 3 || month == 5 || month == 7 || month == 8 || month == 10 || month
            == 12 ==> month_days(year, month) == 31,
        month == 4 || month == 6 || month == 9 || month == 11 ==> month_days(year, month) == 30,
        month == 2 && year % 4 != 0 ==> month_days(year, month) == 28,
        month == 2 && year % 4 == 0 && year % 100 != 0 ==> month_days(year, month) == 29,
        month == 2 && year % 100 == 0 && year % 400 != 0 ==> month_days(year, month) == 28,
        month == 2 && year % 400 == 0 ==> month_days(year, month) == 29,
{
}

proof fn lemma_years_of_four_digits(year: int, month: int, day: int)
    requires
        is_date(year, month, day),
        0 <= day_number(year, month, day) < 2932897,
    ensures
        1970 <= year < 10000,
{
    assert(1 <= days_before_month(year, month) + day <= 366) by {
        reveal_with_fuel(days_before_month, 13);
    }
    if year <= 1969 {
        assert(days_before_year(year) <= 718797);
        assert(days_before_month(year, month) + day <= 365 + (if is_leap(year) {
            1int
        } else {
            0
        })) by {
            reveal_with_fuel(days_before_month, 13);
        }
    } else if year >= 10000 {
        assert(days_before_year(year) >= 3652059);
    }
}

/// The characters of a point in time whose year has four digits.
proof fn lemma_layout(year: int, month: int, day: int, sod: int)
    requires
        is_date(year, month, day),
        0 <= year < 10000,
        0 <= sod < 86400,
    ensures
        ({
            let text = iso_text(year, month, day, sod);
            &&& text.len() == 20
            &&& text[4] == '-' && text[7] == '-' && text[10] == 'T' && text[13] == ':' && text[16]
                == ':' && text[19] == 'Z'
            &&& decimal_value(text.subrange(0, 4)) == year
            &&& decimal_value(text.subrange(5, 7)) == month
            &&& decimal_value(text.subrange(8, 10)) == day
            &&& decimal_value(text.subrange(11, 13)) == sod / 3600
            &&& decimal_value(text.subrange(14, 16)) == sod % 3600 / 60
            &&& decimal_value(text.subrange(17, 19)) == sod % 60
        }),
{
    let text = iso_text(year, month, day, sod);
    let y = padded_decimal(year as nat, 4);
    let mo = padded_decimal(month as nat, 2);
    let d = padded_decimal(day as nat, 2);
    let h = padded_decimal((sod / 3600) as nat, 2);
    let mi = padded_decimal((sod % 3600 / 60) as nat, 2);
    let s = padded_decimal((sod % 60) as nat, 2);
    lemma_two_digits(month as nat);
    lemma_two_digits(day as nat);
    lemma_two_digits((sod / 3600) as nat);
    lemma_two_digits((sod % 3600 / 60) as nat);
    lemma_two_digits((sod % 60) as nat);
    law_padding_keeps_the_number(year as nat, 4);
    law_decimal_is_as_long_as_needed(year as nat);
    assert(text.subrange(0, 4) =~= y);
    assert(text.subrange(5, 7) =~= mo);
    assert(text.subrange(8, 10) =~= d);
    assert(text.subrange(11, 13) =~= h);
    assert(text.subrange(14, 16) =~= mi);
    assert(text.subrange(17, 19) =~= s);
}

proof fn lemma_two_digits(n: nat)
    requires
        n < 100,
    ensures
        padded_decimal(n, 2).len() == 2,
        decimal_value(padded_decimal(n, 2)) == n,
{
    law_padding_keeps_the_number(n, 2);
    law_decimal_is_as_long_as_needed(n);
}

/// What is written of a point in time reads back: four digits of the year, two of the
/// month and of the day, and two each of the hour, the minute and the second, which add
/// up to the second that was written.
pub proof fn law_iso8601_reads_back(text: Seq<char>, secs: int)
    requires
        is_iso8601_of(text, secs),
        0 <= secs < 253402300800,
    ensures
        text.len() == 20,
        text[4] == '-' && text[7] == '-' && text[10] == 'T' && text[13] == ':' && text[16] == ':'
            && text[19] == 'Z',
        ({
            let year = decimal_value(text.subrange(0, 4));
            let month = decimal_value(text.subrange(5, 7));
            let day = decimal_value(text.subrange(8, 10));
            let hour = decimal_value(text.subrange(11, 13));
            let minute = decimal_value(text.subrange(14, 16));
            let second = decimal_value(text.subrange(17, 19));
            &&& is_date(year, month, day)
            &&& 0 <= hour < 24 && 0 <= minute < 60 && 0 <= second < 60
            &&& day_number(year, month, day) * 86400 + hour * 3600 + minute * 60 + second == secs
        }),
{
    let (year, month, day) = choose|year: int, month: int, day: int|
        #![trigger is_date(year, month, day)]
        is_date(year, month, day) && day_number(year, month, day) == secs / 86400 && text
            == iso_text(year, month, day, secs % 86400);
    let sod = secs % 86400;
    lemma_years_of_four_digits(year, month, day);
    lemma_layout(year, month, day, sod);
}

/// A year before year zero has a minus in front, and three digits at least.
pub proof fn law_years_are_written_with_four_characters(year: int)
    ensures
        year_text(year).len() >= 4,
        year >= 0 ==> decimal_value(year_text(year)) == year,
        year < 0 ==> year_text(year)[0] == '-' && decimal_value(year_text(year).skip(1)) == -year,
{
    if year < 0 {
        law_padding_keeps_the_number((-year) as nat, 3);
        assert(year_text(year).skip(1) =~= padded_decimal((-year) as nat, 3));
    } else {
        law_padding_keeps_the_number(year as nat, 4);
    }
}

// ---------------------------------------------------------------------------
// The clock
// ---------------------------------------------------------------------------

/// A reading of the system clock.
#[verifier::external_type_specification]
#[verifier::external_body]
pub struct ExSystemTime(SystemTime);

/// `SystemTime::now` reads the system clock. Nothing is said of what it shows.
#[verifier::external_body]
fn read_clock() -> SystemTime {
    SystemTime::now()
}

/// `SystemTime::duration_since` the epoch, in whole seconds; `None` where the clock
/// stands before the epoch. Nothing is said of what the clock shows.
#[verifier::external_body]
fn seconds_since_epoch(reading: SystemTime) -> Option<u64> {
    reading.duration_since(UNIX_EPOCH).map(|d| d.as_secs()).ok()
}

/// The seconds since the epoch that a reading of the clock stands for. A clock
/// before the epoch reads as the epoch.
pub fn epoch_of_reading(reading: Option<u64>) -> (secs: i64)
    ensures
        secs == (match reading {
            Some(count) => count as i64,
            None => 0i64,
        }),
{
    match reading {
        Some(secs) => secs as i64,
        None => 0,
    }
}

/// The current time in seconds since the epoch.
pub fn now_epoch_seconds() -> i64 {
    epoch_of_reading(seconds_since_epoch(read_clock()))
}

} // verus!
