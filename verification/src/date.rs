//! Calendar days, as chrono knows them.
//!
//! A [`Date`] is a day of the proleptic Gregorian calendar, told apart from
//! every other by its number: day 1 is January 1 of the year 1. What the
//! calendar says of a day (its year, month, day of the month and weekday) is
//! chrono's to say; this module only carries it.

use chrono::{Datelike, NaiveDate};
use vstd::prelude::*;

verus! {

/// What chrono reports of the day with number `n`: its year, its month (from
/// 1), its day of the month (from 1) and how many days after a Monday it
/// falls; `None` where chrono has no date for that number.
pub uninterp spec fn date_at(n: int) -> Option<(int, int, int, int)>;

/// What chrono reads from `text` as a month, a day and a two-digit year with
/// slashes between them: the number of the day, or `None` where it reads no
/// date.
pub uninterp spec fn parsed_day(text: Seq<char>) -> Option<int>;

/// The day with number `n` is one that a `Date` can hold.
pub open spec fn known(n: int) -> bool {
    i32::MIN <= n <= i32::MAX && date_at(n) is Some
}

/// The year in which day `n` falls.
pub open spec fn year_of(n: int) -> int {
    match date_at(n) {
        Some(c) => c.0,
        None => 0,
    }
}

/// The month in which day `n` falls, from 1 for January.
pub open spec fn month_of(n: int) -> int {
    match date_at(n) {
        Some(c) => c.1,
        None => 0,
    }
}

/// The day of the month on which day `n` falls, from 1.
pub open spec fn day_of(n: int) -> int {
    match date_at(n) {
        Some(c) => c.2,
        None => 0,
    }
}

/// How many days after a Monday day `n` falls: 0 for a Monday, 6 for a
/// Sunday.
pub open spec fn days_from_monday_of(n: int) -> int {
    match date_at(n) {
        Some(c) => c.3,
        None => 0,
    }
}

/// The ten digits.
pub open spec fn digits() -> Seq<char> {
    seq!['0', '1', '2', '3', '4', '5', '6', '7', '8', '9']
}

/// A number under 100 in two digits, with a zero in front where it is under
/// 10.
pub open spec fn two_digits(n: int) -> Seq<char> {
    seq![digits()[n / 10], digits()[n % 10]]
}

/// A date in the form month, day, year, each in two digits, with slashes
/// between them; of the year only the last two digits stand.
pub open spec fn month_day_year(year: int, month: int, day: int) -> Seq<char> {
    two_digits(month) + seq!['/'] + two_digits(day) + seq!['/'] + two_digits(year % 100)
}

/// A calendar day.
#[derive(Clone, Copy, Debug, PartialEq, Eq)]
pub struct Date {
    number: i32,
    year: i32,
    month: u32,
    day: u32,
    from_monday: u32,
}

impl View for Date {
    type V = int;

    /// The number of the day.
    closed spec fn view(&self) -> int {
        self.number as int
    }
}

/// `NaiveDate::from_num_days_from_ce_opt`, and the `Datelike` getters on the
/// date it gives. The contract names the outcome `date_at`, and takes from
/// chrono's documentation that a month lies in 1 to 12, a day of the month in
/// 1 to 31 and a count of days from Monday in 0 to 6.
#[verifier::external_body]
fn look_up(n: i32) -> (r: Option<(i32, u32, u32, u32)>)
    ensures
        match r {
            Some(c) => date_at(n as int) == Some((c.0 as int, c.1 as int, c.2 as int, c.3 as int))
                && 1 <= c.1 <= 12 && 1 <= c.2 <= 31 && c.3 <= 6,
            None => date_at(n as int) is None,
        },
{
    match NaiveDate::from_num_days_from_ce_opt(n) {
        Some(d) => Some((d.year(), d.month(), d.day(), d.weekday().num_days_from_monday())),
        None => None,
    }
}

/// `NaiveDate::parse_from_str` with the format `%m/%d/%y`, and
/// `Datelike::num_days_from_ce` on the date it gives. The contract names the
/// outcome `parsed_day`, and adds that a day which chrono has read is one
/// that it has a date for.
#[verifier::external_body]
fn read_day(text: &str) -> (r: Option<i32>)
    ensures
        match r {
            Some(n) => parsed_day(text@) == Some(n as int) && date_at(n as int) is Some,
            None => parsed_day(text@) is None,
        },
{
    match NaiveDate::parse_from_str(text, "%m/%d/%y") {
        Ok(d) => Some(d.num_days_from_ce()),
        Err(_) => None,
    }
}

/// `NaiveDate::format` with the format `%m/%d/%y`, written out, on the date
/// that `NaiveDate::from_num_days_from_ce_opt` gives. By chrono's table of
/// format items each of the three is a number in two digits with a zero in
/// front where needed: the month, the day of the month, and what is left of
/// the year after division by 100, never negative.
#[verifier::external_body]
fn write_day(n: i32) -> (r: String)
    requires
        date_at(n as int) is Some,
    ensures
        r@ == month_day_year(year_of(n as int), month_of(n as int), day_of(n as int)),
{
    match NaiveDate::from_num_days_from_ce_opt(n) {
        Some(d) => d.format("%m/%d/%y").to_string(),
        None => String::new(),
    }
}

impl Date {
    #[verifier::type_invariant]
    spec fn consistent(self) -> bool {
        &&& date_at(self.number as int) == Some(
            (self.year as int, self.month as int, self.day as int, self.from_monday as int),
        )
        &&& 1 <= self.month <= 12
        &&& 1 <= self.day <= 31
        &&& self.from_monday <= 6
    }

    /// The day with number `n`, where there is one.
    pub fn from_day_number(n: i32) -> (r: Option<Date>)
        ensures
            match r {
                Some(d) => d@ == n && known(n as int),
                None => !known(n as int),
            },
    {
        match look_up(n) {
            Some(c) => Some(Date { number: n, year: c.0, month: c.1, day: c.2, from_monday: c.3 }),
            None => None,
        }
    }

    /// Reads a date written as month, day and two-digit year with slashes
    /// between them, such as `01/15/24`.
    pub fn parse(text: &str) -> (r: Option<Date>)
        ensures
            match r {
                Some(d) => parsed_day(text@) == Some(d@) && known(d@),
                None => parsed_day(text@) is None,
            },
    {
        match read_day(text) {
            Some(n) => Date::from_day_number(n),
            None => None,
        }
    }

    /// The number of the day.
    pub fn day_number(&self) -> (r: i32)
        ensures
            r == self@,
            known(self@),
    {
        proof {
            use_type_invariant(self);
        }
        self.number
    }

    /// The year.
    pub fn year(&self) -> (r: i32)
        ensures
            r == year_of(self@),
    {
        proof {
            use_type_invariant(self);
        }
        self.year
    }

    /// The month, from 1 for January.
    pub fn month(&self) -> (r: u32)
        ensures
            r == month_of(self@),
            1 <= r <= 12,
    {
        proof {
            use_type_invariant(self);
        }
        self.month
    }

    /// The day of the month, from 1.
    pub fn day(&self) -> (r: u32)
        ensures
            r == day_of(self@),
            1 <= r <= 31,
    {
        proof {
            use_type_invariant(self);
        }
        self.day
    }

    /// The date as month, day and two-digit year with slashes between them.
    pub fn to_text(&self) -> (r: String)
        ensures
            r@ == month_day_year(year_of(self@), month_of(self@), day_of(self@)),
    {
        proof {
            use_type_invariant(self);
        }
        write_day(self.number)
    }

    /// How many days after a Monday the day falls.
    pub fn days_from_monday(&self) -> (r: u32)
        ensures
            r == days_from_monday_of(self@),
            r <= 6,
    {
        proof {
            use_type_invariant(self);
        }
        self.from_monday
    }
}

} // verus!
