//! What is shown of a schedule: which entries, each with what text and in
//! what style.

use crate::date::{day_of, month_day_year, month_of, year_of, Date};
use crate::entry::{entry_views, separator, WeekEntry};
use crate::week::{
    get_current_week, has_week_start, style_for, style_of, week_difference, week_start_of,
    weeks_between, Style,
};
use vstd::prelude::*;
use vstd::string::StringExecFns;

verus! {

/// Which entries are shown.
#[derive(Clone, Copy, Debug, PartialEq, Eq, Structural)]
pub enum Mode {
    /// Every entry.
    All,
    /// The entries of the current week, of the week before it and of the
    /// week after it.
    ThisWeek,
    /// The entries of the current month, of whatever year.
    ThisMonth,
    /// No entry: in its place stands the plan of the quarter.
    ThisQuarter,
}

/// One line of what is shown.
#[derive(Clone, Debug, PartialEq, Eq)]
pub struct Line {
    pub text: String,
    pub style: Style,
}

impl View for Line {
    type V = (Seq<char>, Style);

    open spec fn view(&self) -> (Seq<char>, Style) {
        (self.text@, self.style)
    }
}

/// What each of the lines holds.
pub open spec fn line_views(lines: Seq<Line>) -> Seq<(Seq<char>, Style)> {
    lines.map_values(|line: Line| line@)
}

/// Whether `mode` shows an entry of day `day`, where today is day `today`
/// and the current week starts on day `week`.
pub open spec fn shown(mode: Mode, day: int, today: int, week: int) -> bool {
    match mode {
        Mode::All => true,
        Mode::ThisWeek => -1 <= week_difference(day, week) <= 1,
        Mode::ThisMonth => month_of(day) == month_of(today),
        Mode::ThisQuarter => false,
    }
}

/// The line for an entry where the current week starts on day `week`: the
/// entry's date, the separator and the description, in the style of the
/// entry's week.
pub open spec fn line_of(entry: (int, Seq<char>), week: int) -> (Seq<char>, Style) {
    (
        month_day_year(year_of(entry.0), month_of(entry.0), day_of(entry.0)) + separator()
            + entry.1,
        style_of(week_difference(entry.0, week)),
    )
}

/// The line for an entry that `mode` shows, and nothing for another.
pub open spec fn line_if_shown(mode: Mode, entry: (int, Seq<char>), today: int, week: int) -> Option<
    (Seq<char>, Style),
> {
    if shown(mode, entry.0, today, week) {
        Some(line_of(entry, week))
    } else {
        None
    }
}

/// The lines for the entries that `mode` shows, in the order of the entries.
pub open spec fn report_of(mode: Mode, entries: Seq<(int, Seq<char>)>, today: int, week: int) -> Seq<
    (Seq<char>, Style),
> {
    entries.filter_map(|entry: (int, Seq<char>)| line_if_shown(mode, entry, today, week))
}

/// An entry on the Monday that starts the current week is no week away from
/// that week: its line has the style of the current week, and the mode that
/// shows the current week shows it.
pub proof fn lemma_week_start_is_current(description: Seq<char>, today: int, week: int)
    ensures
        week_difference(week, week) == 0,
        line_of((week, description), week).1 == Style::Current,
        shown(Mode::ThisWeek, week, today, week),
{
}

/// `ThisWeek` shows an entry that is at most one week from the current week
/// and none that is two weeks or more from it: it shows the seven days before
/// the Monday that starts the current week, that Monday, and the thirteen
/// days after it.
pub proof fn lemma_this_week(day: int, today: int, week: int)
    ensures
        -1 <= week_difference(day, week) <= 1 ==> shown(Mode::ThisWeek, day, today, week),
        week_difference(day, week) >= 2 || week_difference(day, week) <= -2 ==> !shown(
            Mode::ThisWeek,
            day,
            today,
            week,
        ),
        shown(Mode::ThisWeek, day, today, week) <==> -7 <= day - week <= 13,
{
}

/// `ThisMonth` shows the entries whose month is today's month and no others;
/// neither the entry's year nor today's has a part in it.
pub proof fn lemma_this_month(day: int, today: int, week: int)
    ensures
        shown(Mode::ThisMonth, day, today, week) <==> month_of(day) == month_of(today),
{
}

impl Mode {
    /// Whether the mode shows `entry`, where today is `today` and the current
    /// week starts on `current_week`.
    pub fn shows(self, entry: &WeekEntry, today: &Date, current_week: &Date) -> (r: bool)
        ensures
            r == shown(self, entry@.0, today@, current_week@),
    {
        match self {
            Mode::All => true,
            Mode::ThisWeek => {
                let weeks = weeks_between(&entry.date, current_week);
                -1 <= weeks && weeks <= 1
            },
            Mode::ThisMonth => entry.date.month() == today.month(),
            Mode::ThisQuarter => false,
        }
    }
}

/// The line for `entry`, where the current week starts on `current_week`.
pub fn week_entry_line(entry: &WeekEntry, current_week: &Date) -> (r: Line)
    ensures
        r@ == line_of(entry@, current_week@),
{
    let mut text = entry.date.to_text();
    text.append(" - ");
    text.append(entry.description.as_str());
    proof {
        reveal_strlit(" - ");
        assert(" - "@ =~= separator());
    }
    Line { text, style: style_for(weeks_between(&entry.date, current_week)) }
}

/// The lines for the entries that `mode` shows, where today is `today`;
/// `None` where the calendar has no Monday for today's week to start on.
pub fn report(mode: Mode, entries: &Vec<WeekEntry>, today: &Date) -> (r: Option<Vec<Line>>)
    ensures
        match r {
            Some(lines) => line_views(lines@) == report_of(
                mode,
                entry_views(entries@),
                today@,
                week_start_of(today@),
            ),
            None => !has_week_start(today@),
        },
{
    let current_week = match get_current_week(today) {
        Some(start) => start,
        None => {
            return None;
        },
    };
    let ghost all = entry_views(entries@);
    let ghost pick = |entry: (int, Seq<char>)| line_if_shown(mode, entry, today@, current_week@);
    let mut lines: Vec<Line> = Vec::new();
    assert(line_views(lines@) =~= all.take(0).filter_map(pick));
    for k in 0..entries.len()
        invariant
            all == entry_views(entries@),
            current_week@ == week_start_of(today@),
            pick == |entry: (int, Seq<char>)| line_if_shown(mode, entry, today@, current_week@),
            line_views(lines@) == all.take(k as int).filter_map(pick),
    {
        let ghost before = line_views(lines@);
        proof {
            all.lemma_filter_map_take_succ(pick, k as int);
        }
        if mode.shows(&entries[k], today, &current_week) {
            let line = week_entry_line(&entries[k], &current_week);
            lines.push(line);
            assert(line_views(lines@) =~= before + seq![line@]);
        } else {
            assert(before + Seq::<(Seq<char>, Style)>::empty() =~= before);
        }
    }
    assert(all.take(entries.len() as int) =~= all);
    Some(lines)
}

} // verus!
