//! Schedule entries and the text that holds them, one entry to a line: a
//! date, the separator ` - `, and a description.

use crate::date::{parsed_day, Date};
use crate::text::{
    chars_of, contents, ends_lines, find, first_match, lemma_first_match, lemma_lines_concat,
    lemma_one_line, line_feed, lines, lines_of, string_of, without_cr,
};
use vstd::prelude::*;
use vstd::slice::slice_subrange;

verus! {

/// One dated, described line of the schedule.
#[derive(Clone, Debug, PartialEq, Eq)]
pub struct WeekEntry {
    pub date: Date,
    pub description: String,
}

impl View for WeekEntry {
    type V = (int, Seq<char>);

    /// The number of the entry's day, and its description.
    open spec fn view(&self) -> (int, Seq<char>) {
        (self.date@, self.description@)
    }
}

/// What each of the entries holds.
pub open spec fn entry_views(entries: Seq<WeekEntry>) -> Seq<(int, Seq<char>)> {
    entries.map_values(|e: WeekEntry| e@)
}

/// What stands between the date and the description.
pub open spec fn separator() -> Seq<char> {
    seq![' ', '-', ' ']
}

/// The two fields of a line that holds the separator once: what stands before
/// it and what stands after it. A line without the separator has no fields,
/// nor has one in which the separator stands again after its first place.
pub open spec fn fields_of(line: Seq<char>) -> Option<(Seq<char>, Seq<char>)> {
    match first_match(line, separator(), 0) {
        Some(i) => if first_match(line, separator(), i + 3) is None {
            Some((line.subrange(0, i), line.subrange(i + 3, line.len() as int)))
        } else {
            None
        },
        None => None,
    }
}

/// The entry that a line holds: the day that its first field names and its
/// second field as the description. A line without fields holds none, nor
/// does one whose first field is no date.
pub open spec fn entry_of(line: Seq<char>) -> Option<(int, Seq<char>)> {
    match fields_of(line) {
        Some(fields) => match parsed_day(fields.0) {
            Some(n) => Some((n, fields.1)),
            None => None,
        },
        None => None,
    }
}

/// The entries that the lines hold, in the order of the lines.
pub open spec fn entries_of_lines(lines: Seq<Seq<char>>) -> Seq<(int, Seq<char>)> {
    lines.filter_map(|line: Seq<char>| entry_of(line))
}

/// The entries that a text holds.
pub open spec fn entries_of(content: Seq<char>) -> Seq<(int, Seq<char>)> {
    entries_of_lines(lines_of(content))
}

/// The entries of lines that follow other lines are the entries of the first
/// and then the entries of the second.
pub proof fn lemma_entries_concat(first: Seq<Seq<char>>, second: Seq<Seq<char>>)
    ensures
        entries_of_lines(first + second) == entries_of_lines(first) + entries_of_lines(second),
    decreases second.len(),
{
    if second.len() == 0 {
        assert(first + second =~= first);
        assert(entries_of_lines(first) + entries_of_lines(second) =~= entries_of_lines(first));
    } else {
        lemma_entries_concat(first, second.drop_last());
        assert((first + second).drop_last() =~= first + second.drop_last());
        assert((first + second).last() == second.last());
        assert(entries_of_lines(first + second) =~= entries_of_lines(first) + entries_of_lines(
            second,
        ));
    }
}

/// Each line gives its entry by itself: a line between whole lines and the
/// rest of a text adds the entry that it holds, if it holds one, between the
/// entries of what stands before it and the entries of what stands after it.
pub proof fn lemma_entries_by_line(head: Seq<char>, line: Seq<char>, tail: Seq<char>)
    requires
        ends_lines(head),
        !line.contains('\n'),
    ensures
        entries_of(head + line + line_feed() + tail) == entries_of(head) + match entry_of(
            without_cr(line),
        ) {
            Some(e) => seq![e],
            None => Seq::empty(),
        } + entries_of(tail),
{
    let one = line + line_feed();
    assert(head + line + line_feed() + tail =~= head + (one + tail));
    assert(ends_lines(one));
    lemma_lines_concat(head, one + tail);
    lemma_lines_concat(one, tail);
    lemma_one_line(line);
    lemma_entries_concat(lines_of(head), lines_of(one) + lines_of(tail));
    lemma_entries_concat(lines_of(one), lines_of(tail));
    Seq::lemma_filter_map_singleton(without_cr(line), |l: Seq<char>| entry_of(l));
}

/// A line that holds no entry, because it has no two fields or because its
/// first field is no date, is passed over, and the entries of the lines around
/// it are what they are without it.
pub proof fn lemma_line_without_entry(head: Seq<char>, line: Seq<char>, tail: Seq<char>)
    requires
        ends_lines(head),
        !line.contains('\n'),
        entry_of(without_cr(line)) is None,
    ensures
        entries_of(head + line + line_feed() + tail) == entries_of(head + tail),
{
    lemma_entries_by_line(head, line, tail);
    lemma_lines_concat(head, tail);
    lemma_entries_concat(lines_of(head), lines_of(tail));
    assert(entries_of(head) + Seq::<(int, Seq<char>)>::empty() + entries_of(tail) =~= entries_of(
        head,
    ) + entries_of(tail));
}

/// Cuts a line at its separator.
pub fn split_fields<'a>(line: &'a [char]) -> (r: Option<(&'a [char], &'a [char])>)
    ensures
        match r {
            Some(fields) => fields_of(line@) == Some((fields.0@, fields.1@)),
            None => fields_of(line@) is None,
        },
{
    let mark: Vec<char> = vec![' ', '-', ' '];
    assert(mark@ == separator());
    match find(line, mark.as_slice(), 0) {
        Some(i) => {
            proof {
                lemma_first_match(line@, separator(), 0);
                assert(separator().len() == 3);
            }
            let end: usize = line.len();
            match find(line, mark.as_slice(), i + 3) {
                Some(_) => None,
                None => Some((slice_subrange(line, 0, i), slice_subrange(line, i + 3, end))),
            }
        },
        None => None,
    }
}

/// Reads the entry that a line holds.
pub fn parse_line(line: &[char]) -> (r: Option<WeekEntry>)
    ensures
        match r {
            Some(e) => entry_of(line@) == Some(e@),
            None => entry_of(line@) is None,
        },
{
    match split_fields(line) {
        Some(fields) => {
            let date_text = string_of(fields.0, 0, fields.0.len());
            assert(date_text@ =~= fields.0@);
            match Date::parse(date_text.as_str()) {
                Some(date) => {
                    let description = string_of(fields.1, 0, fields.1.len());
                    assert(description@ =~= fields.1@);
                    Some(WeekEntry { date, description })
                },
                None => None,
            }
        },
        None => None,
    }
}

/// Reads the entries of a schedule. A line that holds no entry is passed
/// over; the others give their entries in the order in which they stand.
pub fn parse_week_entries(content: &str) -> (out: Vec<WeekEntry>)
    ensures
        entry_views(out@) == entries_of(content@),
{
    let chars = chars_of(content);
    let all = lines(chars.as_slice());
    let mut out: Vec<WeekEntry> = Vec::new();
    let ghost texts = lines_of(content@);
    assert(entry_views(out@) =~= entries_of_lines(texts.take(0)));
    for k in 0..all.len()
        invariant
            texts == lines_of(content@),
            contents(all@) == texts,
            entry_views(out@) == entries_of_lines(texts.take(k as int)),
    {
        let ghost before = entry_views(out@);
        assert(texts[k as int] == all@[k as int]@);
        proof {
            texts.lemma_filter_map_take_succ(|line: Seq<char>| entry_of(line), k as int);
        }
        match parse_line(all[k]) {
            Some(e) => {
                out.push(e);
                assert(entry_views(out@) =~= before + seq![e@]);
            },
            None => {
                assert(before + Seq::<(int, Seq<char>)>::empty() =~= before);
            },
        }
    }
    assert(texts.take(all.len() as int) =~= texts);
    out
}

} // verus!
