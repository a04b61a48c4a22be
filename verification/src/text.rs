//! Searching and cutting sequences of characters.

use vstd::prelude::*;
use vstd::slice::slice_subrange;

verus! {

/// `pat` stands in `s` at index `i`.
pub open spec fn matches_at(s: Seq<char>, pat: Seq<char>, i: int) -> bool {
    0 <= i && i + pat.len() <= s.len() && s.subrange(i, i + pat.len()) == pat
}

/// The least index at or after `from` at which `pat` stands in `s`, if there
/// is one.
pub open spec fn first_match(s: Seq<char>, pat: Seq<char>, from: int) -> Option<int>
    decreases s.len() + 1 - from,
{
    if from < 0 || from + pat.len() > s.len() {
        None
    } else if matches_at(s, pat, from) {
        Some(from)
    } else {
        first_match(s, pat, from + 1)
    }
}

/// `first_match` finds a place where `pat` stands, passes over none that lies
/// at or after `from`, and finds nothing only where there is nothing to find.
pub proof fn lemma_first_match(s: Seq<char>, pat: Seq<char>, from: int)
    requires
        0 <= from,
    ensures
        match first_match(s, pat, from) {
            Some(i) => from <= i && matches_at(s, pat, i) && forall|j: int|
                from <= j < i ==> !matches_at(s, pat, j),
            None => forall|j: int| from <= j ==> !matches_at(s, pat, j),
        },
    decreases s.len() + 1 - from,
{
    if from + pat.len() > s.len() {
    } else if matches_at(s, pat, from) {
    } else {
        lemma_first_match(s, pat, from + 1);
    }
}

/// A place at or after `from` where `pat` stands, with none between `from`
/// and it, is the one that `first_match` finds.
pub proof fn lemma_first_match_unique(s: Seq<char>, pat: Seq<char>, from: int, i: int)
    requires
        0 <= from <= i,
        matches_at(s, pat, i),
        forall|j: int| from <= j < i ==> !matches_at(s, pat, j),
    ensures
        first_match(s, pat, from) == Some(i),
{
    lemma_first_match(s, pat, from);
}

/// A match is found in `s` from `from` on exactly where it is found, `from`
/// places earlier, in what is left of `s` after its first `from` characters.
pub proof fn lemma_first_match_suffix(s: Seq<char>, pat: Seq<char>, from: int)
    requires
        0 <= from <= s.len(),
    ensures
        first_match(s, pat, from) == match first_match(s.subrange(from, s.len() as int), pat, 0) {
            Some(i) => Some(i + from),
            None => None,
        },
{
    let rest = s.subrange(from, s.len() as int);
    lemma_first_match(s, pat, from);
    lemma_first_match(rest, pat, 0);
    assert forall|j: int| 0 <= j implies matches_at(rest, pat, j) == matches_at(
        s,
        pat,
        from + j,
    ) by {
        if j + pat.len() <= rest.len() {
            assert(rest.subrange(j, j + pat.len()) =~= s.subrange(
                from + j,
                from + j + pat.len(),
            ));
        }
    }
    match first_match(rest, pat, 0) {
        Some(i) => {
            assert(matches_at(s, pat, from + i));
            match first_match(s, pat, from) {
                Some(k) => {
                    assert(matches_at(rest, pat, k - from));
                    if k < from + i {
                        assert(!matches_at(rest, pat, k - from));
                    }
                },
                None => {},
            }
        },
        None => {
            match first_match(s, pat, from) {
                Some(k) => {
                    assert(matches_at(rest, pat, k - from));
                },
                None => {},
            }
        },
    }
}

/// The line feed, which ends a line.
pub open spec fn line_feed() -> Seq<char> {
    seq!['\n']
}

/// A line without the carriage return that stood before its line feed, where
/// one did.
pub open spec fn without_cr(line: Seq<char>) -> Seq<char> {
    if line.len() > 0 && line.last() == '\r' {
        line.drop_last()
    } else {
        line
    }
}

/// The lines of a text. A line ends at a line feed, or at a carriage return
/// and a line feed; what follows the last line feed is a line too unless it is
/// empty, and keeps a carriage return at its end.
pub open spec fn lines_of(s: Seq<char>) -> Seq<Seq<char>>
    decreases s.len(),
    via lines_of_decreases
{
    if s.len() == 0 {
        Seq::empty()
    } else {
        match first_match(s, line_feed(), 0) {
            Some(end) => seq![without_cr(s.subrange(0, end))] + lines_of(
                s.subrange(end + 1, s.len() as int),
            ),
            None => seq![s],
        }
    }
}

#[via_fn]
proof fn lines_of_decreases(s: Seq<char>) {
    lemma_first_match(s, line_feed(), 0);
}

/// A text is whole lines: it is empty or ends in a line feed.
pub open spec fn ends_lines(s: Seq<char>) -> bool {
    s.len() == 0 || s.last() == '\n'
}

/// The lines of a text that follows whole lines are the lines of the first
/// and then the lines of the second.
pub proof fn lemma_lines_concat(head: Seq<char>, tail: Seq<char>)
    requires
        ends_lines(head),
    ensures
        lines_of(head + tail) == lines_of(head) + lines_of(tail),
    decreases head.len(),
{
    let whole = head + tail;
    if head.len() == 0 {
        assert(whole =~= tail);
        assert(lines_of(head) + lines_of(tail) =~= lines_of(tail));
    } else {
        let last = head.len() - 1;
        assert(head.subrange(last, last + 1) =~= line_feed());
        assert(matches_at(head, line_feed(), last));
        lemma_first_match(head, line_feed(), 0);
        let end = first_match(head, line_feed(), 0)->0;
        assert(0 <= end <= last);
        assert forall|j: int| 0 <= j < head.len() implies matches_at(whole, line_feed(), j)
            == matches_at(head, line_feed(), j) by {
            assert(whole.subrange(j, j + 1) =~= head.subrange(j, j + 1));
        }
        assert(matches_at(head, line_feed(), end));
        assert(matches_at(whole, line_feed(), end));
        lemma_first_match_unique(whole, line_feed(), 0, end);
        let head_rest = head.subrange(end + 1, head.len() as int);
        assert(whole.subrange(0, end) =~= head.subrange(0, end));
        assert(whole.subrange(end + 1, whole.len() as int) =~= head_rest + tail);
        assert(ends_lines(head_rest));
        lemma_lines_concat(head_rest, tail);
        assert(lines_of(whole) =~= lines_of(head) + lines_of(tail));
    }
}

/// A text without a line feed, with a line feed behind it, is one line.
pub proof fn lemma_one_line(line: Seq<char>)
    requires
        !line.contains('\n'),
    ensures
        lines_of(line + line_feed()) == seq![without_cr(line)],
{
    let whole = line + line_feed();
    let end = line.len() as int;
    assert(whole.subrange(end, end + 1) =~= line_feed());
    assert forall|j: int| 0 <= j < end implies !matches_at(whole, line_feed(), j) by {
        if matches_at(whole, line_feed(), j) {
            assert(whole.subrange(j, j + 1)[0] == line[j]);
            assert(line.contains(line[j]));
        }
    }
    lemma_first_match_unique(whole, line_feed(), 0, end);
    assert(whole.subrange(0, end) =~= line);
    let rest = whole.subrange(end + 1, whole.len() as int);
    assert(rest.len() == 0);
    assert(lines_of(rest) =~= Seq::<Seq<char>>::empty());
    assert(lines_of(whole) =~= seq![without_cr(line)]);
}

/// `String::push` puts one character at the end of the string.
pub assume_specification[ String::push ](s: &mut String, c: char)
    ensures
        final(s)@ == old(s)@.push(c),
;

/// The characters of `s`, in order.
pub fn chars_of(s: &str) -> (out: Vec<char>)
    ensures
        out@ == s@,
{
    let mut out: Vec<char> = Vec::new();
    for c in it: s.chars()
        invariant
            it.seq() == s@,
            out@ == it.seq().take(it.index() as int),
    {
        out.push(c);
    }
    out
}

/// Whether `pat` stands in `s` at index `i`.
pub fn has_at(s: &[char], pat: &[char], i: usize) -> (r: bool)
    ensures
        r == matches_at(s@, pat@, i as int),
{
    if i > s.len() || pat.len() > s.len() - i {
        return false;
    }
    let mut k: usize = 0;
    while k < pat.len()
        invariant
            i + pat.len() <= s.len(),
            k <= pat.len(),
            forall|j: int| 0 <= j < k ==> s@[i + j] == pat@[j],
        decreases pat.len() - k,
    {
        if s[i + k] != pat[k] {
            assert(s@.subrange(i as int, i + pat.len())[k as int] != pat@[k as int]);
            return false;
        }
        k += 1;
    }
    assert(s@.subrange(i as int, i + pat.len()) =~= pat@);
    true
}

/// Searches `s` from index `from` on for the first place where `pat` stands.
pub fn find(s: &[char], pat: &[char], from: usize) -> (r: Option<usize>)
    ensures
        match r {
            Some(i) => first_match(s@, pat@, from as int) == Some(i as int),
            None => first_match(s@, pat@, from as int) is None,
        },
{
    let mut i: usize = from;
    while i <= s.len() && pat.len() <= s.len() - i
        invariant
            from <= i,
            first_match(s@, pat@, from as int) == first_match(s@, pat@, i as int),
        decreases s.len() + 1 - i,
    {
        if has_at(s, pat, i) {
            return Some(i);
        }
        assert(i < s.len()) by {
            if i == s.len() {
                assert(s@.subrange(i as int, i + pat.len()) =~= pat@);
            }
        }
        i += 1;
    }
    None
}

/// The characters of `s` from index `from` up to, not including, index `to`,
/// as a string.
pub fn string_of(s: &[char], from: usize, to: usize) -> (out: String)
    requires
        from <= to <= s.len(),
    ensures
        out@ == s@.subrange(from as int, to as int),
{
    let mut out = String::new();
    let mut i: usize = from;
    while i < to
        invariant
            from <= i <= to <= s.len(),
            out@ == s@.subrange(from as int, i as int),
        decreases to - i,
    {
        out.push(s[i]);
        assert(s@.subrange(from as int, i + 1) =~= s@.subrange(from as int, i as int).push(
            s@[i as int],
        ));
        i += 1;
    }
    out
}

/// What each of the slices holds.
pub open spec fn contents(parts: Seq<&[char]>) -> Seq<Seq<char>> {
    parts.map_values(|part: &[char]| part@)
}

/// Cuts a text into its lines.
pub fn lines<'a>(s: &'a [char]) -> (out: Vec<&'a [char]>)
    ensures
        contents(out@) == lines_of(s@),
{
    let feed: Vec<char> = vec!['\n'];
    assert(feed@ == line_feed());
    let mut out: Vec<&'a [char]> = Vec::new();
    let mut from: usize = 0;
    assert(s@.subrange(0, s@.len() as int) =~= s@);
    assert(contents(out@) =~= Seq::<Seq<char>>::empty());
    while from < s.len()
        invariant
            from <= s.len(),
            feed@ == line_feed(),
            lines_of(s@) == contents(out@) + lines_of(s@.subrange(from as int, s@.len() as int)),
        decreases s.len() - from,
    {
        let ghost rest = s@.subrange(from as int, s@.len() as int);
        let ghost before = contents(out@);
        proof {
            lemma_first_match_suffix(s@, line_feed(), from as int);
            lemma_first_match(s@, line_feed(), from as int);
        }
        match find(s, feed.as_slice(), from) {
            Some(end) => {
                let stop: usize = if end > from && s[end - 1] == '\r' {
                    end - 1
                } else {
                    end
                };
                let line = slice_subrange(s, from, stop);
                proof {
                    assert(rest.subrange(0, end - from) =~= s@.subrange(from as int, end as int));
                    assert(line@ =~= without_cr(s@.subrange(from as int, end as int)));
                    assert(rest.subrange(end - from + 1, rest.len() as int) =~= s@.subrange(
                        end + 1,
                        s@.len() as int,
                    ));
                    assert(contents(out@.push(line)) =~= before.push(line@));
                    assert(before.push(line@) + lines_of(s@.subrange(end + 1, s@.len() as int))
                        =~= before + lines_of(rest));
                }
                out.push(line);
                from = end + 1;
            },
            None => {
                let line = slice_subrange(s, from, s.len());
                proof {
                    assert(s@.subrange(s@.len() as int, s@.len() as int) =~= Seq::<char>::empty());
                    assert(contents(out@.push(line)) =~= before.push(line@));
                    assert(before.push(line@) + Seq::<Seq<char>>::empty() =~= before + lines_of(
                        rest,
                    ));
                }
                out.push(line);
                from = s.len();
            },
        }
    }
    assert(contents(out@) + Seq::<Seq<char>>::empty() =~= contents(out@));
    out
}

} // verus!
