//! The proleptic Gregorian calendar. A day is a number: January 1 of year 1 is day 1.

use crate::text::{decimal, digit, precedes};
use vstd::prelude::*;

verus! {

/// January 1 of year 0.
pub const FIRST_DAY: i32 = -365;

/// December 31 of year 9999.
pub const LAST_DAY: i32 = 3652059;

/// January 1 of year -262143, the first day that `chrono::NaiveDate` can hold.
pub const EARLIEST_DAY: i32 = -95746129;

/// December 31 of year 262142, the last day that `chrono::NaiveDate` can hold.
pub const LATEST_DAY: i32 = 95745399;

/// January 1, 1970.
pub const EPOCH_DAY: i32 = 719163;

/// Whether a year has a February 29.
pub open spec fn leap(year: int) -> bool {
    year % 4 == 0 && (year % 100 != 0 || year % 400 == 0)
}

/// How many days a month has.
pub open spec fn month_days(year: int, month: int) -> int {
    if month == 2 {
        if leap(year) {
            29
        } else {
            28
        }
    } else if month == 4 || month == 6 || month == 9 || month == 11 {
        30
    } else {
        31
    }
}

/// How many days a year has before a month.
pub open spec fn days_before_month(year: int, month: int) -> int
    decreases month,
{
    if month <= 1 {
        0
    } else {
        days_before_month(year, month - 1) + month_days(year, month - 1)
    }
}

/// The day before January 1 of a year.
pub open spec fn days_before_year(year: int) -> int {
    let past = year - 1;
    365 * past + past / 4 - past / 100 + past / 400
}

/// Whether a day is the one with this date.
pub open spec fn is_date(day: int, year: int, month: int, dom: int) -> bool {
    &&& 1 <= month <= 12
    &&& 1 <= dom <= month_days(year, month)
    &&& day == days_before_year(year) + days_before_month(year, month) + dom
}

/// A date of the years 0 to 9999 as zero-padded YYYY-MM-DD.
pub open spec fn padded_date(year: int, month: int, dom: int) -> Seq<char> {
    seq![
        digit((year / 1000) as nat),
        digit((year / 100 % 10) as nat),
        digit((year / 10 % 10) as nat),
        digit((year % 10) as nat),
        '-',
        digit((month / 10) as nat),
        digit((month % 10) as nat),
        '-',
        digit((dom / 10) as nat),
        digit((dom % 10) as nat),
    ]
}

/// The date of a day of the years 0 to 9999 as zero-padded YYYY-MM-DD.
pub open spec fn date_text(day: int) -> Seq<char> {
    let (year, month, dom) = choose|year: int, month: int, dom: int|
        is_date(day, year, month, dom);
    padded_date(year, month, dom)
}

/// What the digit `c` stands for.
pub open spec fn digit_value(c: char) -> int {
    (c as int) - ('0' as int)
}

/// Whether `c` is a decimal digit.
pub open spec fn is_digit(c: char) -> bool {
    0 <= digit_value(c) <= 9
}

/// Whether `text` has the shape dddd-dd-dd of a date, whether or not there is that date.
pub open spec fn date_shaped(text: Seq<char>) -> bool {
    &&& text.len() == 10
    &&& text[4] == '-' && text[7] == '-'
    &&& forall|i: int| 0 <= i < 10 && i != 4 && i != 7 ==> is_digit(#[trigger] text[i])
}

/// The day whose date a text of the shape dddd-dd-dd is; none where there is no such date.
pub open spec fn written_day(text: Seq<char>) -> Option<int> {
    let at = |i: int| digit_value(text[i]);
    let year = 1000 * at(0) + 100 * at(1) + 10 * at(2) + at(3);
    let month = 10 * at(5) + at(6);
    let dom = 10 * at(8) + at(9);
    if 1 <= month <= 12 && 1 <= dom <= month_days(year, month) {
        Some(days_before_year(year) + days_before_month(year, month) + dom)
    } else {
        None
    }
}

/// The short name of the weekday of a day. Day 1 was a Monday.
pub open spec fn weekday_name(day: int) -> Seq<char> {
    let n = day % 7;
    if n == 0 {
        "Sun"@
    } else if n == 1 {
        "Mon"@
    } else if n == 2 {
        "Tue"@
    } else if n == 3 {
        "Wed"@
    } else if n == 4 {
        "Thu"@
    } else if n == 5 {
        "Fri"@
    } else {
        "Sat"@
    }
}

/// The short name of a month.
pub open spec fn month_name(month: int) -> Seq<char> {
    if month == 1 {
        "Jan"@
    } else if month == 2 {
        "Feb"@
    } else if month == 3 {
        "Mar"@
    } else if month == 4 {
        "Apr"@
    } else if month == 5 {
        "May"@
    } else if month == 6 {
        "Jun"@
    } else if month == 7 {
        "Jul"@
    } else if month == 8 {
        "Aug"@
    } else if month == 9 {
        "Sep"@
    } else if month == 10 {
        "Oct"@
    } else if month == 11 {
        "Nov"@
    } else {
        "Dec"@
    }
}

/// A number below 100, zero-padded to two digits.
pub open spec fn two_digits(n: int) -> Seq<char> {
    seq![digit((n / 10) as nat), digit((n % 10) as nat)]
}

/// The RFC 2822 form of a date, such as `Tue, 1 Jul 2003`, where `day` is the day of the date.
pub open spec fn stamped_date(day: int, year: int, month: int, dom: int) -> Seq<char> {
    weekday_name(day) + ", "@ + decimal(dom as nat) + " "@ + month_name(month) + " "@ + two_digits(
        year / 100,
    ) + two_digits(year % 100)
}

/// The RFC 2822 timestamp of a time of a day of the years 0 to 9999, in UTC, such as
/// `Tue, 1 Jul 2003 00:00:00 +0000`.
pub open spec fn utc_stamp(day: int, hour: int, minute: int, second: int) -> Seq<char> {
    let (year, month, dom) = choose|year: int, month: int, dom: int|
        is_date(day, year, month, dom);
    stamped_date(day, year, month, dom) + " "@ + two_digits(hour) + ":"@ + two_digits(minute)
        + ":"@ + two_digits(second) + " +0000"@
}

/// What a year adds to the days before the next.
proof fn lemma_year_days(year: int)
    ensures
        days_before_year(year + 1) == days_before_year(year) + days_before_month(year, 13),
        days_before_month(year, 13) == if leap(year) {
            366int
        } else {
            365int
        },
{
    reveal_with_fuel(days_before_month, 14);
}

/// An earlier year ends before a later one starts.
proof fn lemma_years_ascend(a: int, b: int)
    requires
        a < b,
    ensures
        days_before_year(a) + days_before_month(a, 13) <= days_before_year(b),
    decreases b - a,
{
    lemma_year_days(a);
    if a + 1 < b {
        lemma_years_ascend(a + 1, b);
        lemma_year_days(a + 1);
    }
}

/// An earlier month ends before a later one starts.
proof fn lemma_months_ascend(year: int, a: int, b: int)
    requires
        1 <= a < b,
    ensures
        days_before_month(year, a) + month_days(year, a) <= days_before_month(year, b),
    decreases b - a,
{
    if a + 1 < b {
        lemma_months_ascend(year, a, b - 1);
    }
}

/// A date lies within its year.
proof fn lemma_within_year(day: int, year: int, month: int, dom: int)
    requires
        is_date(day, year, month, dom),
    ensures
        days_before_year(year) < day <= days_before_year(year) + days_before_month(year, 13),
{
    lemma_months_ascend(year, month, 13);
    if month > 1 {
        lemma_months_ascend(year, 1, month);
    }
}

/// Every day from January 1 of year 0 on has a date.
pub proof fn every_day_has_a_date(day: int)
    requires
        FIRST_DAY <= day,
    ensures
        exists|year: int, month: int, dom: int| is_date(day, year, month, dom),
    decreases day - FIRST_DAY,
{
    if day == FIRST_DAY {
        assert(is_date(day, 0, 1, 1));
    } else {
        let before = day - 1;
        every_day_has_a_date(before);
        let (year, month, dom) = choose|year: int, month: int, dom: int|
            is_date(before, year, month, dom);
        if dom < month_days(year, month) {
            assert(is_date(day, year, month, dom + 1));
        } else if month < 12 {
            assert(is_date(day, year, month + 1, 1));
        } else {
            lemma_year_days(year);
            assert(is_date(day, year + 1, 1, 1));
        }
    }
}

/// Earlier days have earlier dates: by the year, else by the month, else by the day of the
/// month.
pub proof fn dates_ascend(
    a: int,
    year_a: int,
    month_a: int,
    dom_a: int,
    b: int,
    year_b: int,
    month_b: int,
    dom_b: int,
)
    requires
        is_date(a, year_a, month_a, dom_a),
        is_date(b, year_b, month_b, dom_b),
    ensures
        a < b <==> year_a < year_b || year_a == year_b && (month_a < month_b || month_a == month_b
            && dom_a < dom_b),
        a == b ==> (year_a, month_a, dom_a) == (year_b, month_b, dom_b),
{
    lemma_within_year(a, year_a, month_a, dom_a);
    lemma_within_year(b, year_b, month_b, dom_b);
    if year_a < year_b {
        lemma_years_ascend(year_a, year_b);
    } else if year_b < year_a {
        lemma_years_ascend(year_b, year_a);
    } else if month_a < month_b {
        lemma_months_ascend(year_a, month_a, month_b);
    } else if month_b < month_a {
        lemma_months_ascend(year_a, month_b, month_a);
    }
}

/// The days from [`FIRST_DAY`] to [`LAST_DAY`] are those of the years 0 to 9999.
pub proof fn first_and_last_day(day: int, year: int, month: int, dom: int)
    requires
        is_date(day, year, month, dom),
    ensures
        FIRST_DAY <= day <= LAST_DAY <==> 0 <= year <= 9999,
{
    lemma_within_year(day, year, month, dom);
    if year < 0 {
        lemma_years_ascend(year, 0);
    } else if year > 0 {
        lemma_years_ascend(0, year);
        lemma_year_days(0);
    }
    if year < 10000 {
        lemma_years_ascend(year, 10000);
    } else if year > 10000 {
        lemma_years_ascend(10000, year);
        lemma_year_days(10000);
    }
}

/// The text of a day is that of its date.
pub proof fn date_text_is_of_the_date(day: int, year: int, month: int, dom: int)
    requires
        is_date(day, year, month, dom),
    ensures
        date_text(day) == padded_date(year, month, dom),
{
    let (y, m, d) = choose|y: int, m: int, d: int| is_date(day, y, m, d);
    dates_ascend(day, y, m, d, day, year, month, dom);
}

/// The timestamp of a time of a day is that of its date.
pub proof fn utc_stamp_is_of_the_date(
    day: int,
    year: int,
    month: int,
    dom: int,
    hour: int,
    minute: int,
    second: int,
)
    requires
        is_date(day, year, month, dom),
    ensures
        utc_stamp(day, hour, minute, second) == stamped_date(day, year, month, dom) + " "@
            + two_digits(hour) + ":"@ + two_digits(minute) + ":"@ + two_digits(second)
            + " +0000"@,
{
    let (y, m, d) = choose|y: int, m: int, d: int| is_date(day, y, m, d);
    dates_ascend(day, y, m, d, day, year, month, dom);
}

/// [`EARLIEST_DAY`], [`LATEST_DAY`] and [`EPOCH_DAY`] are the days that they are said to be.
pub proof fn earliest_and_latest_day()
    ensures
        is_date(EARLIEST_DAY as int, -262143, 1, 1),
        is_date(LATEST_DAY as int, 262142, 12, 31),
        is_date(EPOCH_DAY as int, 1970, 1, 1),
{
    reveal_with_fuel(days_before_month, 13);
}

/// A text precedes another where it is smaller at the first place at which they differ.
proof fn lemma_precedes_at(a: Seq<char>, b: Seq<char>, k: int)
    requires
        0 <= k < a.len(),
        k < b.len(),
        forall|i: int| 0 <= i < k ==> #[trigger] a[i] == b[i],
        (a[k] as int) < (b[k] as int),
    ensures
        precedes(a, b),
    decreases k,
{
    if k > 0 {
        assert(a[0] == b[0]);
        let a0 = a.drop_first();
        let b0 = b.drop_first();
        assert forall|i: int| 0 <= i < k - 1 implies #[trigger] a0[i] == b0[i] by {
            assert(a[i + 1] == b[i + 1]);
        }
        lemma_precedes_at(a0, b0, k - 1);
    }
}

/// The digits of a year of at most four digits make up the year.
proof fn lemma_year_digits(year: int)
    requires
        0 <= year <= 9999,
    ensures
        year == 1000 * (year / 1000) + 100 * (year / 100 % 10) + 10 * (year / 10 % 10) + year % 10,
        0 <= year / 1000 <= 9,
        0 <= year / 100 % 10 <= 9,
        0 <= year / 10 % 10 <= 9,
        0 <= year % 10 <= 9,
{
    let tens = year / 10;
    let hundreds = year / 100;
    vstd::arithmetic::div_mod::lemma_div_denominator(year, 10, 10);
    vstd::arithmetic::div_mod::lemma_div_denominator(year, 100, 10);
    assert(year == 10 * tens + year % 10);
    assert(tens == 10 * hundreds + tens % 10);
    assert(hundreds == 10 * (year / 1000) + hundreds % 10);
}

/// Digits are ordered as their characters are.
proof fn lemma_digits_ascend(a: int, b: int)
    requires
        0 <= a < b <= 9,
    ensures
        (digit(a as nat) as int) < (digit(b as nat) as int),
{
}

/// An earlier year has the earlier text.
proof fn lemma_padded_years_ascend(
    year_a: int,
    month_a: int,
    dom_a: int,
    year_b: int,
    month_b: int,
    dom_b: int,
)
    requires
        0 <= year_a < year_b <= 9999,
    ensures
        precedes(padded_date(year_a, month_a, dom_a), padded_date(year_b, month_b, dom_b)),
{
    let a = padded_date(year_a, month_a, dom_a);
    let b = padded_date(year_b, month_b, dom_b);
    lemma_year_digits(year_a);
    lemma_year_digits(year_b);
    if year_a / 1000 != year_b / 1000 {
        lemma_digits_ascend(year_a / 1000, year_b / 1000);
        lemma_precedes_at(a, b, 0);
    } else if year_a / 100 % 10 != year_b / 100 % 10 {
        lemma_digits_ascend(year_a / 100 % 10, year_b / 100 % 10);
        lemma_precedes_at(a, b, 1);
    } else if year_a / 10 % 10 != year_b / 10 % 10 {
        lemma_digits_ascend(year_a / 10 % 10, year_b / 10 % 10);
        lemma_precedes_at(a, b, 2);
    } else {
        lemma_digits_ascend(year_a % 10, year_b % 10);
        lemma_precedes_at(a, b, 3);
    }
}

/// Within a year an earlier month, and within a month an earlier day, has the earlier text.
proof fn lemma_padded_days_ascend(year: int, month_a: int, dom_a: int, month_b: int, dom_b: int)
    requires
        1 <= month_a <= 12,
        1 <= month_b <= 12,
        1 <= dom_a <= 31,
        1 <= dom_b <= 31,
        month_a < month_b || month_a == month_b && dom_a < dom_b,
    ensures
        precedes(padded_date(year, month_a, dom_a), padded_date(year, month_b, dom_b)),
{
    let a = padded_date(year, month_a, dom_a);
    let b = padded_date(year, month_b, dom_b);
    if month_a / 10 < month_b / 10 {
        lemma_digits_ascend(month_a / 10, month_b / 10);
        lemma_precedes_at(a, b, 5);
    } else if month_a < month_b {
        lemma_digits_ascend(month_a % 10, month_b % 10);
        lemma_precedes_at(a, b, 6);
    } else if dom_a / 10 < dom_b / 10 {
        lemma_digits_ascend(dom_a / 10, dom_b / 10);
        lemma_precedes_at(a, b, 8);
    } else {
        lemma_digits_ascend(dom_a % 10, dom_b % 10);
        lemma_precedes_at(a, b, 9);
    }
}

/// In the years 0 to 9999 days are ordered as the texts of their dates are, and every text has
/// ten characters.
pub proof fn date_texts_ascend(a: int, b: int)
    requires
        FIRST_DAY <= a < b <= LAST_DAY,
    ensures
        precedes(date_text(a), date_text(b)),
        date_text(a).len() == 10,
        date_text(b).len() == 10,
{
    every_day_has_a_date(a);
    every_day_has_a_date(b);
    let (ya, ma, da) = choose|y: int, m: int, d: int| is_date(a, y, m, d);
    let (yb, mb, db) = choose|y: int, m: int, d: int| is_date(b, y, m, d);
    first_and_last_day(a, ya, ma, da);
    first_and_last_day(b, yb, mb, db);
    dates_ascend(a, ya, ma, da, b, yb, mb, db);
    if ya < yb {
        lemma_padded_years_ascend(ya, ma, da, yb, mb, db);
    } else {
        lemma_padded_days_ascend(ya, ma, da, mb, db);
    }
}

/// A date is read as the day that it was written for, and has the shape of a date.
pub proof fn written_dates_are_read(day: int, year: int, month: int, dom: int)
    requires
        0 <= year <= 9999,
        is_date(day, year, month, dom),
    ensures
        date_shaped(padded_date(year, month, dom)),
        written_day(padded_date(year, month, dom)) == Some(day),
        written_day(date_text(day)) == Some(day),
{
    date_text_is_of_the_date(day, year, month, dom);
    lemma_year_digits(year);
    lemma_digit_value(year / 1000);
    lemma_digit_value(year / 100 % 10);
    lemma_digit_value(year / 10 % 10);
    lemma_digit_value(year % 10);
    lemma_digit_value(month / 10);
    lemma_digit_value(month % 10);
    lemma_digit_value(dom / 10);
    lemma_digit_value(dom % 10);
}

/// A digit stands for the number that it was written for.
proof fn lemma_digit_value(n: int)
    requires
        0 <= n <= 9,
    ensures
        digit_value(digit(n as nat)) == n,
        is_digit(digit(n as nat)),
{
}

/// The day that a text of the shape dddd-dd-dd names is one of the years 0 to 9999.
pub proof fn written_days_are_of_the_years_0_to_9999(text: Seq<char>)
    requires
        date_shaped(text),
        written_day(text) is Some,
    ensures
        FIRST_DAY <= written_day(text)->0 <= LAST_DAY,
{
    let at = |i: int| digit_value(text[i]);
    let year = 1000 * at(0) + 100 * at(1) + 10 * at(2) + at(3);
    let month = 10 * at(5) + at(6);
    let dom = 10 * at(8) + at(9);
    assert(is_digit(text[0]) && is_digit(text[1]) && is_digit(text[2]) && is_digit(text[3]));
    first_and_last_day(written_day(text)->0, year, month, dom);
}

} // verus!
