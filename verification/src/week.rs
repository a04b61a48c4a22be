//! Weeks of seven days from a Monday: where the week of a day starts, in
//! which week a day lies, and how an entry stands to the current week.

use crate::date::{days_from_monday_of, known, Date};
use vstd::prelude::*;

verus! {

/// The number of the Monday on or before day `n`.
pub open spec fn week_start_of(n: int) -> int {
    n - days_from_monday_of(n)
}

/// Whether the calendar has the Monday on or before day `n`, and counts it a
/// Monday.
pub open spec fn has_week_start(n: int) -> bool {
    known(week_start_of(n)) && days_from_monday_of(week_start_of(n)) == 0
}

/// In which week day `day` lies, counted in weeks of seven days that start on
/// day `origin`: 0 for `origin` and the six days after it, 1 for the seven
/// days after those, -1 for the seven days before `origin`, and so on.
pub open spec fn week_difference(day: int, origin: int) -> int {
    (day - origin) / 7
}

/// How an entry stands to the current week.
#[derive(Clone, Copy, Debug, PartialEq, Eq, Structural)]
pub enum Style {
    /// In the current week.
    Current,
    /// In the week before or after it.
    Adjacent,
    /// Further away.
    Plain,
}

/// The style for an entry that many weeks from the current week.
pub open spec fn style_of(weeks: int) -> Style {
    if weeks == 0 {
        Style::Current
    } else if weeks == 1 || weeks == -1 {
        Style::Adjacent
    } else {
        Style::Plain
    }
}

/// The style goes by the days from the Monday that starts the current week:
/// that Monday and the six days after it are in the current week, the seven
/// days before it and the seven days after the current week are in the weeks
/// next to it, and every other day is further away.
pub proof fn lemma_style_by_days(day: int, week: int)
    ensures
        style_of(week_difference(day, week)) == Style::Current <==> 0 <= day - week <= 6,
        style_of(week_difference(day, week)) == Style::Adjacent <==> (-7 <= day - week <= -1 || 7
            <= day - week <= 13),
        style_of(week_difference(day, week)) == Style::Plain <==> (day - week < -7 || 13 < day
            - week),
{
}

/// The Monday of the week that holds `today`: the day as many days before
/// `today` as `today` falls after a Monday. `None` where the calendar has no
/// such day, or does not count it a Monday.
pub fn get_current_week(today: &Date) -> (r: Option<Date>)
    ensures
        match r {
            Some(start) => start@ == week_start_of(today@) && today@ - 6 <= start@ <= today@
                && days_from_monday_of(start@) == 0,
            None => !has_week_start(today@),
        },
{
    let back: u32 = today.days_from_monday();
    let n: i32 = today.day_number();
    match n.checked_sub(back as i32) {
        Some(m) => match Date::from_day_number(m) {
            Some(start) => if start.days_from_monday() == 0 {
                Some(start)
            } else {
                None
            },
            None => None,
        },
        None => None,
    }
}

/// In which week `day` lies, counted from the week that starts on `origin`.
pub fn weeks_between(day: &Date, origin: &Date) -> (r: i64)
    ensures
        r == week_difference(day@, origin@),
{
    let a: i64 = day.day_number() as i64;
    let b: i64 = origin.day_number() as i64;
    if a >= b {
        (a - b) / 7
    } else {
        -((b - a + 6) / 7)
    }
}

/// The style for an entry that many weeks from the current week.
pub fn style_for(weeks: i64) -> (r: Style)
    ensures
        r == style_of(weeks as int),
{
    if weeks == 0 {
        Style::Current
    } else if weeks == 1 || weeks == -1 {
        Style::Adjacent
    } else {
        Style::Plain
    }
}

} // verus!
