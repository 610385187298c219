//! Conversions between strings and character sequences, and the character
//! classes that the grammar is made of.

use vstd::prelude::*;

verus! {

/// `String::push` of the standard library, which is taken on trust: it
/// appends the character to the end of the string and changes nothing else.
pub assume_specification[ std::string::String::push ](s: &mut std::string::String, c: char)
    ensures
        final(s)@ == old(s)@.push(c),
;

/// The character sequences that the vectors of `texts` hold.
pub open spec fn views(texts: Seq<Vec<char>>) -> Seq<Seq<char>> {
    Seq::new(texts.len(), |i: int| texts[i]@)
}

/// White space as `char::is_whitespace` has it: the code points with the
/// Unicode property `White_Space`.
pub open spec fn is_whitespace(c: char) -> bool {
    ||| '\u{9}' <= c <= '\u{d}'
    ||| c == ' '
    ||| c == '\u{85}'
    ||| c == '\u{a0}'
    ||| c == '\u{1680}'
    ||| '\u{2000}' <= c <= '\u{200a}'
    ||| c == '\u{2028}'
    ||| c == '\u{2029}'
    ||| c == '\u{202f}'
    ||| c == '\u{205f}'
    ||| c == '\u{3000}'
}

/// A text that holds nothing but white space; the empty text is blank.
pub open spec fn is_blank(s: Seq<char>) -> bool {
    forall|i: int| 0 <= i < s.len() ==> is_whitespace(#[trigger] s[i])
}

/// A lower-case letter of ASCII.
pub open spec fn is_ascii_lowercase(c: char) -> bool {
    'a' <= c <= 'z'
}

/// An upper-case letter of ASCII.
pub open spec fn is_ascii_uppercase(c: char) -> bool {
    'A' <= c <= 'Z'
}

/// A digit of ASCII.
pub open spec fn is_ascii_digit(c: char) -> bool {
    '0' <= c <= '9'
}

/// The pattern of the word class of the regex engine.
pub const WORD_CLASS: &'static str = "\\w";

/// Whether the regex engine of the crate `onig` finds that `pattern`
/// matches the whole of `text`.
pub uninterp spec fn whole_match(pattern: Seq<char>, text: Seq<char>) -> bool;

/// `Regex::new` and, on what it gives, `Regex::is_match` of the crate
/// `onig`, which are taken on trust: what they find depends on the pattern
/// and the text alone. Only the pattern of the word class is let in: it is
/// one that the engine compiles, and one on which no match is given up;
/// where the engine gives a match up, `is_match` panics.
#[verifier::external_body]
fn is_whole_match(pattern: &str, text: &str) -> (r: bool)
    requires
        pattern@ == WORD_CLASS@,
    ensures
        r == whole_match(pattern@, text@),
{
    match onig::Regex::new(pattern) {
        Ok(regex) => regex.is_match(text),
        Err(_) => false,
    }
}

/// A letter or digit of ASCII, or the underscore.
pub open spec fn is_ascii_word_char(c: char) -> bool {
    is_ascii_lowercase(c) || is_ascii_uppercase(c) || is_ascii_digit(c) || c == '_'
}

/// A character of the word class. Within ASCII these are the letters, the
/// digits and the underscore. Beyond ASCII they are what the regex engine
/// has in its class `\w`: by its own account the letters, marks, numbers
/// and connector punctuation of Unicode.
pub open spec fn is_word_char(c: char) -> bool {
    if c <= '\u{7f}' {
        is_ascii_word_char(c)
    } else {
        whole_match(WORD_CLASS@, seq![c])
    }
}

/// The number of characters from position `from` up to the next `mark`, or
/// up to the end of the text where no `mark` follows.
pub open spec fn distance_to(text: Seq<char>, from: int, mark: char) -> nat
    decreases text.len() - from,
{
    if from < 0 || from >= text.len() || text[from] == mark {
        0
    } else {
        1 + distance_to(text, from + 1, mark)
    }
}

/// A stretch without `mark` that ends at one, or at the end of the text, is
/// the whole distance to the next `mark`.
pub proof fn lemma_distance_to(text: Seq<char>, from: int, end: int, mark: char)
    requires
        0 <= from <= end <= text.len(),
        forall|j: int| from <= j < end ==> text[j] != mark,
        end == text.len() || text[end] == mark,
    ensures
        distance_to(text, from, mark) == end - from,
    decreases end - from,
{
    if from < end {
        lemma_distance_to(text, from + 1, end, mark);
    }
}

/// The position of the first `mark` from `from` on, or the length of the
/// text where there is none.
pub fn find(text: &[char], from: usize, mark: char) -> (at: usize)
    requires
        from <= text@.len(),
    ensures
        at == from + distance_to(text@, from as int, mark),
        from <= at <= text@.len(),
        at < text@.len() ==> text@[at as int] == mark,
{
    let mut at: usize = from;
    while at < text.len() && text[at] != mark
        invariant
            from <= at <= text@.len(),
            forall|j: int| from <= j < at ==> text@[j] != mark,
        decreases text@.len() - at,
    {
        at += 1;
    }
    proof {
        lemma_distance_to(text@, from as int, at as int, mark);
    }
    at
}

/// Whether `c` is white space.
pub fn whitespace(c: char) -> (r: bool)
    ensures
        r == is_whitespace(c),
{
    ('\u{9}' <= c && c <= '\u{d}') || c == ' ' || c == '\u{85}' || c == '\u{a0}' || c == '\u{1680}'
        || ('\u{2000}' <= c && c <= '\u{200a}') || c == '\u{2028}' || c == '\u{2029}' || c
        == '\u{202f}' || c == '\u{205f}' || c == '\u{3000}'
}

/// Whether `c` is a lower-case letter of ASCII.
pub fn ascii_lowercase(c: char) -> (r: bool)
    ensures
        r == is_ascii_lowercase(c),
{
    'a' <= c && c <= 'z'
}

/// Whether `c` is an upper-case letter of ASCII.
pub fn ascii_uppercase(c: char) -> (r: bool)
    ensures
        r == is_ascii_uppercase(c),
{
    'A' <= c && c <= 'Z'
}

/// Whether `c` is a digit of ASCII.
pub fn ascii_digit(c: char) -> (r: bool)
    ensures
        r == is_ascii_digit(c),
{
    '0' <= c && c <= '9'
}

/// Whether `c` is a character of the word class.
pub fn word_char(c: char) -> (r: bool)
    ensures
        r == is_word_char(c),
{
    if c <= '\u{7f}' {
        ascii_lowercase(c) || ascii_uppercase(c) || ascii_digit(c) || c == '_'
    } else {
        let mut text = String::new();
        text.push(c);
        assert(text@ == seq![c]);
        is_whole_match(WORD_CLASS, text.as_str())
    }
}

/// Whether `s` holds nothing but white space.
pub fn blank(s: &[char]) -> (r: bool)
    ensures
        r == is_blank(s@),
{
    let mut i: usize = 0;
    while i < s.len()
        invariant
            i <= s.len(),
            forall|j: int| 0 <= j < i ==> is_whitespace(#[trigger] s@[j]),
        decreases s.len() - i,
    {
        if !whitespace(s[i]) {
            return false;
        }
        i += 1;
    }
    true
}

/// The characters of `s`, in order.
pub fn chars_of(s: &str) -> (chars: Vec<char>)
    ensures
        chars@ == s@,
{
    let mut chars: Vec<char> = Vec::new();
    for c in it: s.chars()
        invariant
            it.seq() == s@,
            chars@ == s@.take(it.index()),
    {
        chars.push(c);
    }
    assert(s@.take(s@.len() as int) == s@);
    chars
}

/// The string that is made of `chars`.
pub fn string_of(chars: &[char]) -> (s: String)
    ensures
        s@ == chars@,
{
    let mut s = String::new();
    let mut i: usize = 0;
    while i < chars.len()
        invariant
            i <= chars.len(),
            s@ == chars@.take(i as int),
        decreases chars.len() - i,
    {
        s.push(chars[i]);
        i += 1;
    }
    assert(chars@.take(chars@.len() as int) == chars@);
    s
}

/// The string that is made of the characters of `chars` from `from` up to,
/// not including, `to`.
pub fn string_of_range(chars: &[char], from: usize, to: usize) -> (s: String)
    requires
        from <= to <= chars@.len(),
    ensures
        s@ == chars@.subrange(from as int, to as int),
{
    string_of(vstd::slice::slice_subrange(chars, from, to))
}

/// Whether `chars` spells `text`.
pub fn spells(chars: &[char], text: &str) -> (r: bool)
    ensures
        r == (chars@ == text@),
{
    let mut i: usize = 0;
    for c in it: text.chars()
        invariant
            it.seq() == text@,
            i == it.index(),
            i <= chars@.len(),
            chars@.take(i as int) == text@.take(i as int),
    {
        if i >= chars.len() || chars[i] != c {
            return false;
        }
        assert(chars@.take(i + 1) == chars@.take(i as int).push(chars@[i as int]));
        assert(text@.take(i + 1) == text@.take(i as int).push(text@[i as int]));
        i += 1;
    }
    assert(text@.take(text@.len() as int) == text@);
    assert(chars@.take(chars@.len() as int) == chars@);
    i == chars.len()
}

} // verus!
