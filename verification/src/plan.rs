//! The quarter plan: a text of paragraphs with blank lines between them, of
//! which the first is the plan of the current quarter.

use crate::text::{chars_of, find, first_match, lemma_first_match, matches_at, string_of};
use vstd::prelude::*;

verus! {

/// Two line feeds, which end a paragraph.
pub open spec fn paragraph_break() -> Seq<char> {
    seq!['\n', '\n']
}

/// What stands before the first paragraph break of a text; the whole text
/// where it has none.
pub open spec fn first_paragraph(content: Seq<char>) -> Seq<char> {
    match first_match(content, paragraph_break(), 0) {
        Some(i) => content.subrange(0, i),
        None => content,
    }
}

/// The first paragraph is the start of the text, holds no paragraph break,
/// and either is the whole text or has a paragraph break right behind it.
pub proof fn lemma_first_paragraph(content: Seq<char>)
    ensures
        first_paragraph(content).is_prefix_of(content),
        forall|j: int| !matches_at(first_paragraph(content), paragraph_break(), j),
        first_paragraph(content) == content || matches_at(
            content,
            paragraph_break(),
            first_paragraph(content).len() as int,
        ),
{
    let first = first_paragraph(content);
    lemma_first_match(content, paragraph_break(), 0);
    assert(paragraph_break().len() == 2);
    assert forall|j: int| !matches_at(first, paragraph_break(), j) by {
        if matches_at(first, paragraph_break(), j) {
            assert(first.subrange(j, j + 2) =~= content.subrange(j, j + 2));
            assert(matches_at(content, paragraph_break(), j));
        }
    }
}

/// The plan of the current quarter: the first paragraph of the plan text.
pub fn quarter_entry(content: &str) -> (r: String)
    ensures
        r@ == first_paragraph(content@),
{
    let chars = chars_of(content);
    let gap: Vec<char> = vec!['\n', '\n'];
    assert(gap@ == paragraph_break());
    let end: usize = chars.len();
    proof {
        lemma_first_match(content@, paragraph_break(), 0);
        assert(content@.subrange(0, end as int) =~= content@);
    }
    match find(chars.as_slice(), gap.as_slice(), 0) {
        Some(i) => string_of(chars.as_slice(), 0, i),
        None => string_of(chars.as_slice(), 0, end),
    }
}

} // verus!
