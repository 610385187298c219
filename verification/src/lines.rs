//! The lines of a text, and what kind of line each one is.

use vstd::prelude::*;
use crate::text::{blank, distance_to, find, is_blank, views};

verus! {

/// The number of characters from position `from` up to the next line feed,
/// or up to the end of the text where none follows.
pub open spec fn line_len(text: Seq<char>, from: int) -> nat {
    distance_to(text, from, '\n')
}

/// A line without the carriage return that stood before its line feed.
pub open spec fn strip_cr(line: Seq<char>) -> Seq<char> {
    if line.len() > 0 && line.last() == '\r' {
        line.drop_last()
    } else {
        line
    }
}

/// The lines of `text` from position `from` on.
pub open spec fn lines_from(text: Seq<char>, from: int) -> Seq<Seq<char>>
    decreases text.len() - from,
{
    if from < 0 || from >= text.len() {
        Seq::empty()
    } else {
        let end = from + line_len(text, from);
        if end >= text.len() {
            seq![text.subrange(from, text.len() as int)]
        } else {
            seq![strip_cr(text.subrange(from, end))] + lines_from(text, end + 1)
        }
    }
}

/// The lines of `text`. A line ends at a line feed, or at a carriage return
/// directly followed by one; neither belongs to the line. What follows the
/// last line feed is a line if it is not empty, and keeps a carriage return
/// at its end.
pub open spec fn lines(text: Seq<char>) -> Seq<Seq<char>> {
    lines_from(text, 0)
}

/// Splits `text` into its lines.
pub fn split_lines(text: &[char]) -> (out: Vec<Vec<char>>)
    ensures
        views(out@) == lines(text@),
{
    let mut out: Vec<Vec<char>> = Vec::new();
    let mut start: usize = 0;
    let n = text.len();
    while start < n
        invariant
            n == text@.len(),
            start <= n,
            lines(text@) == views(out@) + lines_from(text@, start as int),
        decreases n - start,
    {
        let end = find(text, start, '\n');
        let ghost before = views(out@);
        if end >= n {
            let line = vstd::slice::slice_to_vec(vstd::slice::slice_subrange(text, start, n));
            out.push(line);
            assert(views(out@) == before.push(text@.subrange(start as int, n as int)));
            assert(lines_from(text@, n as int) == Seq::<Seq<char>>::empty());
            start = n;
        } else {
            let stop = if end > start && text[end - 1] == '\r' {
                end - 1
            } else {
                end
            };
            let line = vstd::slice::slice_to_vec(vstd::slice::slice_subrange(text, start, stop));
            out.push(line);
            assert(line@ == strip_cr(text@.subrange(start as int, end as int)));
            assert(views(out@) == before.push(line@));
            start = end + 1;
        }
    }
    assert(lines_from(text@, start as int) == Seq::<Seq<char>>::empty());
    out
}

/// What a line of a desktop-entry file is.
#[derive(Debug, Clone, Copy, PartialEq, Eq, Structural)]
pub enum LineKind {
    /// A comment or a blank line: it says nothing.
    Comment,
    /// The header of a section.
    SectionHeader,
    /// Anything else: a key and its value.
    Entry,
}

/// A comment starts with `#`: as a pattern for the whole line, `#.*`.
pub open spec fn is_comment(line: Seq<char>) -> bool {
    line.len() > 0 && line[0] == '#'
}

/// A section header starts with `[` and ends with `]`, the two being
/// different characters of the line: as a pattern for the whole line,
/// `\[.*\]`.
pub open spec fn is_section_header(line: Seq<char>) -> bool {
    line.len() >= 2 && line[0] == '[' && line.last() == ']'
}

/// The kind of `line`: a comment where it starts with `#` or is blank, else
/// a section header where it has the form of one, else an entry.
pub open spec fn kind_of(line: Seq<char>) -> LineKind {
    if is_comment(line) || is_blank(line) {
        LineKind::Comment
    } else if is_section_header(line) {
        LineKind::SectionHeader
    } else {
        LineKind::Entry
    }
}

/// Classifies `line`.
pub fn classify(line: &[char]) -> (kind: LineKind)
    ensures
        kind == kind_of(line@),
{
    let n = line.len();
    if (n > 0 && line[0] == '#') || blank(line) {
        LineKind::Comment
    } else if n >= 2 && line[0] == '[' && line[n - 1] == ']' {
        LineKind::SectionHeader
    } else {
        LineKind::Entry
    }
}

} // verus!
