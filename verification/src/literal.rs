//! The literals that a value may be: the two booleans, and floating-point
//! numbers in the grammar that `str::parse::<f64>` accepts.

use vstd::prelude::*;
use crate::text::{ascii_digit, is_ascii_digit, spells};

verus! {

/// The boolean that `text` spells: `true` or `false`, in these letters
/// exactly.
pub open spec fn bool_literal(text: Seq<char>) -> Option<bool> {
    if text == "true"@ {
        Some(true)
    } else if text == "false"@ {
        Some(false)
    } else {
        None
    }
}

/// Reads `text` as a boolean.
pub fn parse_bool(text: &[char]) -> (r: Option<bool>)
    ensures
        r == bool_literal(text@),
{
    if spells(text, "true") {
        Some(true)
    } else if spells(text, "false") {
        Some(false)
    } else {
        None
    }
}

/// The number of digits that stand in a row from position `from` on.
pub open spec fn digits_from(text: Seq<char>, from: int) -> nat
    decreases text.len() - from,
{
    if 0 <= from < text.len() && is_ascii_digit(text[from]) {
        1 + digits_from(text, from + 1)
    } else {
        0
    }
}

pub open spec fn is_sign(c: char) -> bool {
    c == '+' || c == '-'
}

/// Whether `text` from position `from` to its end is an exponent: `e` or
/// `E`, a sign or none, and one or more digits.
pub open spec fn is_exponent(text: Seq<char>, from: int) -> bool {
    &&& 0 <= from
    &&& from + 1 < text.len()
    &&& (text[from] == 'e' || text[from] == 'E')
    &&& {
        let digits = if is_sign(text[from + 1]) {
            from + 2
        } else {
            from + 1
        };
        digits < text.len() && digits + digits_from(text, digits) == text.len()
    }
}

/// Whether `text` from position `from` to its end is nothing, or an
/// exponent.
pub open spec fn ends_or_exponent(text: Seq<char>, from: int) -> bool {
    from == text.len() || is_exponent(text, from)
}

/// A decimal number: digits, with a point among, before or after them or
/// with none, and then an exponent or none. A point alone is no number.
pub open spec fn is_number(text: Seq<char>) -> bool {
    let whole: int = digits_from(text, 0) as int;
    if whole < text.len() && text[whole] == '.' {
        let fraction: int = digits_from(text, whole + 1) as int;
        whole + fraction > 0 && ends_or_exponent(text, whole + 1 + fraction)
    } else {
        whole > 0 && ends_or_exponent(text, whole)
    }
}

/// Whether `c` is the letter that is written `lower` or `upper`.
pub open spec fn is_letter(c: char, lower: char, upper: char) -> bool {
    c == lower || c == upper
}

/// `inf`, `infinity` or `nan`, each letter in either case.
pub open spec fn is_special(text: Seq<char>) -> bool {
    ||| {
        &&& text.len() == 3
        &&& is_letter(text[0], 'n', 'N')
        &&& is_letter(text[1], 'a', 'A')
        &&& is_letter(text[2], 'n', 'N')
    }
    ||| {
        &&& text.len() == 3 || text.len() == 8
        &&& is_letter(text[0], 'i', 'I')
        &&& is_letter(text[1], 'n', 'N')
        &&& is_letter(text[2], 'f', 'F')
        &&& text.len() == 8 ==> {
            &&& is_letter(text[3], 'i', 'I')
            &&& is_letter(text[4], 'n', 'N')
            &&& is_letter(text[5], 'i', 'I')
            &&& is_letter(text[6], 't', 'T')
            &&& is_letter(text[7], 'y', 'Y')
        }
    }
}

/// What follows the sign of a floating-point literal.
pub open spec fn is_unsigned_float(text: Seq<char>) -> bool {
    is_special(text) || is_number(text)
}

/// A floating-point literal: a sign or none, and then a decimal number or
/// one of the names of the values that are no numbers. No white space
/// stands in it or around it.
pub open spec fn is_float_literal(text: Seq<char>) -> bool {
    &&& text.len() > 0
    &&& if is_sign(text[0]) {
        is_unsigned_float(text.skip(1))
    } else {
        is_unsigned_float(text)
    }
}

/// Digits in a row that end at a character that is no digit, or at the end
/// of the text, are all the digits from their start on.
pub proof fn lemma_digits_from(text: Seq<char>, from: int, end: int)
    requires
        0 <= from <= end <= text.len(),
        forall|j: int| from <= j < end ==> is_ascii_digit(#[trigger] text[j]),
        end == text.len() || !is_ascii_digit(text[end]),
    ensures
        digits_from(text, from) == end - from,
    decreases end - from,
{
    if from < end {
        lemma_digits_from(text, from + 1, end);
    }
}

/// The position behind the digits that stand in a row from `from` on.
fn skip_digits(text: &[char], from: usize) -> (end: usize)
    requires
        from <= text@.len(),
    ensures
        end == from + digits_from(text@, from as int),
        end <= text@.len(),
{
    let mut end: usize = from;
    while end < text.len() && ascii_digit(text[end])
        invariant
            from <= end <= text@.len(),
            forall|j: int| from <= j < end ==> is_ascii_digit(#[trigger] text@[j]),
        decreases text@.len() - end,
    {
        end += 1;
    }
    proof {
        lemma_digits_from(text@, from as int, end as int);
    }
    end
}

/// Whether `text` from position `from` to its end is nothing, or an
/// exponent.
fn at_end_or_exponent(text: &[char], from: usize) -> (r: bool)
    requires
        from <= text@.len(),
    ensures
        r == ends_or_exponent(text@, from as int),
{
    let n = text.len();
    if from == n {
        return true;
    }
    if from + 1 >= n || (text[from] != 'e' && text[from] != 'E') {
        return false;
    }
    let digits = if text[from + 1] == '+' || text[from + 1] == '-' {
        from + 2
    } else {
        from + 1
    };
    if digits >= n {
        return false;
    }
    skip_digits(text, digits) == n
}

/// Whether `text` is a decimal number.
fn number(text: &[char]) -> (r: bool)
    ensures
        r == is_number(text@),
{
    let n = text.len();
    let whole = skip_digits(text, 0);
    if whole < n && text[whole] == '.' {
        let end = skip_digits(text, whole + 1);
        end - 1 > 0 && at_end_or_exponent(text, end)
    } else {
        whole > 0 && at_end_or_exponent(text, whole)
    }
}

fn letter(c: char, lower: char, upper: char) -> (r: bool)
    ensures
        r == is_letter(c, lower, upper),
{
    c == lower || c == upper
}

/// Whether `text` names a value that is no number.
fn special(text: &[char]) -> (r: bool)
    ensures
        r == is_special(text@),
{
    let n = text.len();
    if n != 3 && n != 8 {
        return false;
    }
    if n == 3 && letter(text[0], 'n', 'N') && letter(text[1], 'a', 'A') && letter(
        text[2],
        'n',
        'N',
    ) {
        return true;
    }
    if !(letter(text[0], 'i', 'I') && letter(text[1], 'n', 'N') && letter(text[2], 'f', 'F')) {
        return false;
    }
    n == 3 || (letter(text[3], 'i', 'I') && letter(text[4], 'n', 'N') && letter(
        text[5],
        'i',
        'I',
    ) && letter(text[6], 't', 'T') && letter(text[7], 'y', 'Y'))
}

/// Whether `text` is a floating-point literal.
pub fn float_literal(text: &[char]) -> (r: bool)
    ensures
        r == is_float_literal(text@),
{
    let n = text.len();
    if n == 0 {
        return false;
    }
    let body = if text[0] == '+' || text[0] == '-' {
        vstd::slice::slice_subrange(text, 1, n)
    } else {
        text
    };
    assert(text@.skip(1) == text@.subrange(1, n as int));
    special(body) || number(body)
}

} // verus!
