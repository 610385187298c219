//! The locale qualifier that a key may end in, as in `Name[de_AT]`.

use vstd::prelude::*;
use crate::text::{
    ascii_lowercase,
    ascii_uppercase,
    is_ascii_lowercase,
    is_ascii_uppercase,
    is_word_char,
    word_char,
};

verus! {

/// Whether `tag` starts with a country: `_` and two upper-case letters.
pub open spec fn has_country(tag: Seq<char>) -> bool {
    tag.len() >= 3 && tag[0] == '_' && is_ascii_uppercase(tag[1]) && is_ascii_uppercase(tag[2])
}

/// A modifier: `@` and one or more characters of the word class.
pub open spec fn is_modifier(tag: Seq<char>) -> bool {
    &&& tag.len() >= 2
    &&& tag[0] == '@'
    &&& forall|i: int| 1 <= i < tag.len() ==> is_word_char(#[trigger] tag[i])
}

/// What a locale qualifier holds between its brackets: a language of two
/// lower-case letters, then a country or none, then a modifier or none. As
/// a pattern, `[a-z]{2}(_[A-Z]{2})?(@\w+)?`.
pub open spec fn is_locale_tag(tag: Seq<char>) -> bool {
    &&& tag.len() >= 2
    &&& is_ascii_lowercase(tag[0])
    &&& is_ascii_lowercase(tag[1])
    &&& {
        let rest = tag.skip(2);
        let last = if has_country(rest) {
            rest.skip(3)
        } else {
            rest
        };
        last.len() == 0 || is_modifier(last)
    }
}

/// Whether `key` ends in a locale qualifier that starts at position `at`.
pub open spec fn is_locale_suffix_at(key: Seq<char>, at: int) -> bool {
    &&& 0 <= at
    &&& at + 2 <= key.len()
    &&& key[at] == '['
    &&& key.last() == ']'
    &&& is_locale_tag(key.subrange(at + 1, key.len() - 1))
}

/// Whether `key` ends in a locale qualifier.
pub open spec fn has_locale_suffix(key: Seq<char>) -> bool {
    exists|at: int| is_locale_suffix_at(key, at)
}

/// The base key: `key` without the locale qualifier that it ends in, or
/// `key` itself where it ends in none.
pub open spec fn base_key(key: Seq<char>) -> Seq<char> {
    if has_locale_suffix(key) {
        key.take(choose|at: int| is_locale_suffix_at(key, at))
    } else {
        key
    }
}

/// Between its brackets, a locale qualifier holds no `[`, `]` or `=`.
pub proof fn lemma_tag_chars(tag: Seq<char>, i: int)
    requires
        is_locale_tag(tag),
        0 <= i < tag.len(),
    ensures
        tag[i] != '[',
        tag[i] != ']',
        tag[i] != '=',
{
    if i >= 2 {
        let rest = tag.skip(2);
        assert(rest[i - 2] == tag[i]);
        if has_country(rest) {
            if i >= 5 {
                let last = rest.skip(3);
                assert(last[i - 5] == tag[i]);
                assert(is_modifier(last));
            }
        } else {
            assert(is_modifier(rest));
        }
    }
}

/// A key ends in one locale qualifier at most: the qualifier starts at the
/// last `[` of the key.
pub proof fn lemma_locale_suffix_unique(key: Seq<char>, at: int, other: int)
    requires
        is_locale_suffix_at(key, at),
        is_locale_suffix_at(key, other),
    ensures
        at == other,
{
    if at < other {
        let tag = key.subrange(at + 1, key.len() - 1);
        lemma_tag_chars(tag, other - at - 1);
    } else if other < at {
        let tag = key.subrange(other + 1, key.len() - 1);
        lemma_tag_chars(tag, at - other - 1);
    }
}

/// Where `key` ends in a locale qualifier that starts at `at`, the base key
/// is what stands before `at`.
pub proof fn lemma_base_key_at(key: Seq<char>, at: int)
    requires
        is_locale_suffix_at(key, at),
    ensures
        base_key(key) == key.take(at),
{
    let chosen = choose|p: int| is_locale_suffix_at(key, p);
    lemma_locale_suffix_unique(key, at, chosen);
}

/// Whether `tag` is what a locale qualifier holds between its brackets.
pub fn locale_tag(tag: &[char]) -> (r: bool)
    ensures
        r == is_locale_tag(tag@),
{
    let n = tag.len();
    if n < 2 || !ascii_lowercase(tag[0]) || !ascii_lowercase(tag[1]) {
        return false;
    }
    let mut i: usize = 2;
    let ghost rest = tag@.skip(2);
    if n >= 5 && tag[2] == '_' && ascii_uppercase(tag[3]) && ascii_uppercase(tag[4]) {
        assert(rest[0] == tag@[2] && rest[1] == tag@[3] && rest[2] == tag@[4]);
        assert(has_country(rest));
        i = 5;
    } else {
        assert(!has_country(rest)) by {
            if rest.len() >= 3 {
                assert(rest[0] == tag@[2] && rest[1] == tag@[3] && rest[2] == tag@[4]);
            }
        }
    }
    let ghost last = if has_country(rest) {
        rest.skip(3)
    } else {
        rest
    };
    assert(last == tag@.skip(i as int));
    if i == n {
        return true;
    }
    assert(last[0] == tag@[i as int]);
    if tag[i] != '@' || i + 1 == n {
        return false;
    }
    let start = i;
    i += 1;
    assert(is_locale_tag(tag@) == is_modifier(last));
    while i < n
        invariant
            start < i <= n,
            n == tag@.len(),
            last == tag@.skip(start as int),
            last[0] == '@',
            is_locale_tag(tag@) == is_modifier(last),
            forall|j: int| 1 <= j < i - start ==> is_word_char(#[trigger] last[j]),
        decreases n - i,
    {
        assert(last[i - start] == tag@[i as int]);
        if !word_char(tag[i]) {
            return false;
        }
        i += 1;
    }
    true
}

/// The length of the base key of `key`.
pub fn base_key_len(key: &[char]) -> (len: usize)
    ensures
        len <= key@.len(),
        key@.take(len as int) == base_key(key@),
{
    let n = key.len();
    if n < 2 || key[n - 1] != ']' {
        assert(!has_locale_suffix(key@));
        return n;
    }
    // The qualifier, if there is one, starts at the last `[` of the key.
    let mut at: usize = n - 1;
    while at > 0 && key[at - 1] != '['
        invariant
            at <= n - 1,
            n == key@.len(),
            forall|j: int| at <= j < n ==> key@[j] != '[',
        decreases at,
    {
        at -= 1;
    }
    if at == 0 {
        assert(!has_locale_suffix(key@));
        return n;
    }
    let start = at - 1;
    let tag = vstd::slice::slice_subrange(key, at, n - 1);
    if locale_tag(tag) {
        assert(is_locale_suffix_at(key@, start as int));
        proof {
            lemma_base_key_at(key@, start as int);
        }
        start
    } else {
        assert(!has_locale_suffix(key@)) by {
            if has_locale_suffix(key@) {
                let other = choose|p: int| is_locale_suffix_at(key@, p);
                if other < start {
                    lemma_tag_chars(key@.subrange(other + 1, n - 1), start - other - 1);
                }
            }
        }
        assert(key@.take(n as int) == key@);
        n
    }
}

} // verus!
