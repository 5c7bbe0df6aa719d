//! The texts of days and their RFC 2822 timestamps.

use crate::calendar::{
    date_shaped, date_text, date_text_is_of_the_date, date_texts_ascend, every_day_has_a_date,
    first_and_last_day, is_date, padded_date, utc_stamp, written_dates_are_read, written_day,
    written_days_are_of_the_years_0_to_9999, EARLIEST_DAY, EPOCH_DAY, FIRST_DAY, LAST_DAY,
    LATEST_DAY,
};
use crate::text::precedes;
use chrono::Datelike;
use vstd::prelude::*;

verus! {

/// How dates are written (YYYY-MM-DD).
pub const DATE_FORMAT: &'static str = "%Y-%m-%d";

/// The recency window of a feed for which none is configured.
pub const DEFAULT_FROM_DAYS: u32 = 365;

/// The text that `chrono::NaiveDate::format` gives a day that `chrono::NaiveDate` can hold.
pub uninterp spec fn day_text(day: int, format: Seq<char>) -> Seq<char>;

/// The day that `chrono::NaiveDate::parse_from_str` reads out of a text, if it reads one.
pub uninterp spec fn parsed_day(text: Seq<char>, format: Seq<char>) -> Option<int>;

/// Calls `chrono::NaiveDate::format` on the day that
/// `chrono::NaiveDate::from_num_days_from_ce_opt` finds under `day`. Claimed: there is a text
/// exactly for the days from [`EARLIEST_DAY`] to [`LATEST_DAY`], and it depends on nothing but the
/// day and the format; for a day of the years 0 to 9999 it is the date, zero-padded. The format is
/// the one that asks for that text.
#[verifier::external_body]
fn format_day(day: i32, format: &str) -> (res: Option<String>)
    requires
        format@ == DATE_FORMAT@,
    ensures
        res.deep_view() == if EARLIEST_DAY <= day <= LATEST_DAY {
            Some(day_text(day as int, format@))
        } else {
            None
        },
        forall|year: int, month: int, dom: int|
            0 <= year <= 9999 && #[trigger] is_date(day as int, year, month, dom)
                ==> res.deep_view() == Some(padded_date(year, month, dom)),
{
    let date = chrono::NaiveDate::from_num_days_from_ce_opt(day)?;
    Some(date.format(format).to_string())
}

/// Calls `chrono::NaiveDate::parse_from_str` and gives the number of the day that it read.
/// Claimed: the day, or that there is none, depends on nothing but the text and the format; out of
/// a text of the shape dddd-dd-dd, with the format of such texts, it reads the day with that date,
/// and none where there is no such date.
#[verifier::external_body]
fn parse_day(text: &str, format: &str) -> (res: Option<i32>)
    ensures
        res is Some <==> parsed_day(text@, format@) is Some,
        res is Some ==> res->0 == parsed_day(text@, format@)->0,
        format@ == DATE_FORMAT@ && date_shaped(text@) ==> (res is Some <==> written_day(
            text@,
        ) is Some),
        format@ == DATE_FORMAT@ && date_shaped(text@) && res is Some ==> res->0 == written_day(
            text@,
        )->0,
{
    let date = chrono::NaiveDate::parse_from_str(text, format).ok()?;
    Some(date.num_days_from_ce())
}

/// Calls `chrono::DateTime::to_rfc2822` on a time of a day, in UTC. Claimed: the text is the
/// weekday, the day of the month, the month, the year in four digits, the time and `+0000`. Days
/// outside of the years 0 to 9999 are left out: there `to_rfc2822` panics.
#[verifier::external_body]
fn stamp(day: i32, hour: u32, minute: u32, second: u32) -> (res: String)
    requires
        FIRST_DAY <= day <= LAST_DAY,
        hour < 24,
        minute < 60,
        second < 60,
    ensures
        res@ == utc_stamp(day as int, hour as int, minute as int, second as int),
{
    let date = chrono::NaiveDate::from_num_days_from_ce_opt(day).unwrap();
    let datetime = date.and_time(chrono::NaiveTime::from_hms_opt(hour, minute, second).unwrap());
    chrono::DateTime::<chrono::Utc>::from_naive_utc_and_offset(datetime, chrono::Utc).to_rfc2822()
}

/// Calls `chrono::Utc::now` and gives the number of the present day. Claimed: it is no
/// earlier than January 1, 1970 and no later than the last day that `chrono::NaiveDate` can hold,
/// as `now` gives no other time. Which day it is depends on the clock.
#[verifier::external_body]
fn current_day() -> (res: i32)
    ensures
        EPOCH_DAY <= res <= LATEST_DAY,
{
    chrono::Utc::now().date_naive().num_days_from_ce()
}

/// Whether `day` is one that the clock gave as the present day.
pub closed spec fn day_of_the_clock(day: int) -> bool {
    exists|read: i32| #[trigger] call_ensures(current_day, (), read) && read == day
}

/// Whether `text` is one that the clock gave as the present time.
pub closed spec fn time_of_the_clock(text: Seq<char>) -> bool {
    exists|read: String| #[trigger] call_ensures(current_stamp, (), read) && read@ == text
}

/// Whether `text` is the RFC 2822 timestamp of a time from January 1, 1970 to the end of the year
/// 9999, in UTC.
pub open spec fn present_stamp(text: Seq<char>) -> bool {
    exists|day: int, hour: int, minute: int, second: int|
        EPOCH_DAY <= day <= LAST_DAY && 0 <= hour < 24 && 0 <= minute < 60 && 0 <= second < 60
            && text == #[trigger] utc_stamp(day, hour, minute, second)
}

/// What `clock` gives when it is asked.
fn asked<T, F: Fn() -> T>(clock: F) -> (res: T)
    requires
        call_requires(clock, ()),
    ensures
        call_ensures(clock, (), res),
{
    clock()
}

/// The present day.
fn today() -> (res: i32)
    ensures
        day_of_the_clock(res as int),
        EPOCH_DAY <= res <= LATEST_DAY,
{
    asked(current_day)
}

/// Calls `chrono::Utc::now` and `chrono::DateTime::to_rfc2822` on it. Claimed: the text is that of
/// a time no earlier than January 1, 1970, as `now` gives no other, and no later than the year
/// 9999, as `to_rfc2822` writes no other: with a clock beyond that year it panics. Which time it
/// is depends on the clock.
#[verifier::external_body]
pub(crate) fn current_stamp() -> (res: String)
    ensures
        present_stamp(res@),
{
    chrono::Utc::now().to_rfc2822()
}

/// The present time, as an RFC 2822 timestamp.
pub(crate) fn now() -> (res: String)
    ensures
        time_of_the_clock(res@),
        present_stamp(res@),
{
    asked(current_stamp)
}

/// The recency window in days.
pub open spec fn window_days(from_days: Option<u32>) -> int {
    match from_days {
        Some(days) => days as int,
        None => DEFAULT_FROM_DAYS as int,
    }
}

/// The date on which the recency window starts that ends on `today`; none for a day that
/// `chrono::NaiveDate` cannot hold. Outside of the years 0 to 9999 its text is what `chrono` makes
/// of it.
pub open spec fn window_start(from_days: Option<u32>, today: int) -> Option<Seq<char>> {
    let day = today - window_days(from_days);
    if FIRST_DAY <= day <= LAST_DAY {
        Some(date_text(day))
    } else if EARLIEST_DAY <= day <= LATEST_DAY {
        Some(day_text(day, DATE_FORMAT@))
    } else {
        None
    }
}

/// The longest recency window that has a start on every day from January 1, 1970 on.
pub open spec fn longest_window() -> int {
    EPOCH_DAY - EARLIEST_DAY
}

/// The day of a date. Of a text that has not the shape dddd-dd-dd it is what `chrono` reads out of
/// it.
pub open spec fn day_of(date: Seq<char>) -> Option<int> {
    if date_shaped(date) {
        written_day(date)
    } else {
        parsed_day(date, DATE_FORMAT@)
    }
}

/// Whether `date` is no date, or one of a year that RFC 2822 can write.
pub open spec fn stampable(date: Seq<char>) -> bool {
    match day_of(date) {
        Some(day) => FIRST_DAY <= day <= LAST_DAY,
        None => true,
    }
}

/// The RFC 2822 timestamp of `date`: midnight in UTC. None where `date` is no date.
pub open spec fn date_stamp(date: Seq<char>) -> Option<Seq<char>> {
    match day_of(date) {
        Some(day) => Some(utc_stamp(day, 0, 0, 0)),
        None => None,
    }
}

/// The date (YYYY-MM-DD) `from_days` (or the default window) before the day `today`; none
/// where there is no such date.
pub fn from_date_on(from_days: Option<u32>, today: i32) -> (res: Option<String>)
    ensures
        res.deep_view() == window_start(from_days, today as int),
        res is Some <==> EARLIEST_DAY <= today - window_days(from_days) <= LATEST_DAY,
{
    let days: i64 = match from_days {
        Some(days) => days as i64,
        None => DEFAULT_FROM_DAYS as i64,
    };
    let day: i64 = today as i64 - days;
    proof {
        if FIRST_DAY <= day <= LAST_DAY {
            every_day_has_a_date(day as int);
            let (year, month, dom) = choose|year: int, month: int, dom: int|
                is_date(day as int, year, month, dom);
            first_and_last_day(day as int, year, month, dom);
            date_text_is_of_the_date(day as int, year, month, dom);
        }
    }
    if day < i32::MIN as i64 {
        None
    } else {
        format_day(day as i32, DATE_FORMAT)
    }
}

/// Compute a YYYY-MM-DD date `from_days` (or the default window) in the past; none where it
/// lies before all dates that can be written.
pub fn default_from_date(from_days: Option<u32>) -> (res: Option<String>)
    ensures
        exists|today: int|
            day_of_the_clock(today) && EPOCH_DAY <= today <= LATEST_DAY && res.deep_view()
                == #[trigger] window_start(from_days, today),
        window_days(from_days) <= longest_window() ==> res is Some,
{
    from_date_on(from_days, today())
}

/// The day of a date.
fn read_day(date: &str) -> (res: Option<i32>)
    ensures
        res is Some <==> day_of(date@) is Some,
        res is Some ==> res->0 == day_of(date@)->0,
{
    parse_day(date, DATE_FORMAT)
}

/// Whether [`to_rfc2822`] can be asked for the timestamp of `date`.
pub fn is_stampable(date: &str) -> (res: bool)
    ensures
        res == stampable(date@),
{
    match read_day(date) {
        Some(day) => FIRST_DAY <= day && day <= LAST_DAY,
        None => true,
    }
}

/// Convert an OpenAlex `YYYY-MM-DD` date into an RFC-2822 timestamp.
pub fn to_rfc2822(date: &str) -> (res: Option<String>)
    requires
        stampable(date@),
    ensures
        res.deep_view() == date_stamp(date@),
{
    match read_day(date) {
        Some(day) => Some(stamp(day, 0, 0, 0)),
        None => None,
    }
}

/// A recency window starts on the day that many days before `today`, written as ten characters,
/// and a longer window has the earlier text.
pub proof fn longer_windows_start_earlier(a: u32, b: u32, today: int)
    requires
        a < b,
        FIRST_DAY <= today - b,
        today - a <= LAST_DAY,
    ensures
        window_start(Some(a), today) == Some(date_text(today - a)),
        window_start(Some(b), today) == Some(date_text(today - b)),
        precedes(date_text(today - b), date_text(today - a)),
        date_text(today - a).len() == 10,
        date_text(today - b).len() == 10,
{
    date_texts_ascend(today - b, today - a);
}

/// The window for which nothing is configured is that of [`DEFAULT_FROM_DAYS`].
pub proof fn default_window_is_a_year(today: int)
    ensures
        window_start(None, today) == window_start(Some(365), today),
{
}

/// A window of no days starts today.
pub proof fn empty_window_starts_today(today: int)
    requires
        FIRST_DAY <= today <= LAST_DAY,
    ensures
        window_start(Some(0), today) == Some(date_text(today)),
{
}

/// Every recency window up to [`longest_window`] has a start, whatever day it is.
pub proof fn ordinary_windows_have_a_start(from_days: Option<u32>, today: int)
    requires
        EPOCH_DAY <= today <= LATEST_DAY,
        window_days(from_days) <= longest_window(),
    ensures
        window_start(from_days, today) is Some,
{
}

/// A date of the years 0 to 9999 has a timestamp: midnight of its day.
pub proof fn dates_have_timestamps(day: int, year: int, month: int, dom: int)
    requires
        0 <= year <= 9999,
        is_date(day, year, month, dom),
    ensures
        stampable(padded_date(year, month, dom)),
        date_stamp(padded_date(year, month, dom)) == Some(utc_stamp(day, 0, 0, 0)),
{
    written_dates_are_read(day, year, month, dom);
    first_and_last_day(day, year, month, dom);
}

/// Every text of the shape dddd-dd-dd can be asked for its timestamp, and has one exactly where it
/// is a date.
pub proof fn texts_of_the_shape_of_a_date_are_stampable(text: Seq<char>)
    requires
        date_shaped(text),
    ensures
        stampable(text),
        date_stamp(text) is Some <==> written_day(text) is Some,
{
    if written_day(text) is Some {
        written_days_are_of_the_years_0_to_9999(text);
    }
}

/// A window of `days` days that ends on `today` starts that many days before: on that day's date in
/// the years 0 to 9999, on what `chrono` writes for it in other years that it can hold, and
/// nowhere else.
pub proof fn windows_start_days_before_today(days: u32, today: int)
    ensures
        FIRST_DAY <= today - days <= LAST_DAY ==> window_start(Some(days), today) == Some(
            date_text(today - days),
        ),
        EARLIEST_DAY <= today - days < FIRST_DAY || LAST_DAY < today - days <= LATEST_DAY
            ==> window_start(Some(days), today) == Some(day_text(today - days, "%Y-%m-%d"@)),
        today - days < EARLIEST_DAY || LATEST_DAY < today - days ==> window_start(
            Some(days),
            today,
        ) is None,
{
}

/// A text that has not the shape dddd-dd-dd has a timestamp exactly where `chrono` reads a day out of
/// it, and can be asked for it exactly where that is no day outside of the years 0 to 9999.
pub proof fn other_texts_are_stamped_as_they_are_read(text: Seq<char>)
    requires
        !date_shaped(text),
    ensures
        match parsed_day(text, "%Y-%m-%d"@) {
            Some(day) => date_stamp(text) == Some(utc_stamp(day, 0, 0, 0)) && (stampable(text)
                <==> FIRST_DAY <= day <= LAST_DAY),
            None => date_stamp(text) is None && stampable(text),
        },
{
}

/// The present day and the present time are what was read off the clock, and nothing else.
proof fn the_clock_is_taken_as_it_is_read(day: i32, time: String)
    ensures
        day_of_the_clock(day as int) <==> call_ensures(current_day, (), day),
        call_ensures(current_stamp, (), time) ==> time_of_the_clock(time@),
        time_of_the_clock(time@) ==> exists|read: String| #[trigger]
            call_ensures(current_stamp, (), read) && read@ == time@,
{
}

/// The longest window that always has a start reaches from January 1, 1970 to the first day that
/// `chrono::NaiveDate` can hold; that of a year is far shorter.
pub proof fn a_year_is_an_ordinary_window()
    ensures
        longest_window() == 719163 + 95746129,
        window_days(None) == 365,
        window_days(None) <= longest_window(),
        forall|days: u32| #[trigger] window_days(Some(days)) == days,
{
}

} // verus!
