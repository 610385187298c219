//! Values that hold several items, separated by `;`.

use vstd::prelude::*;
use crate::text::views;

verus! {

/// Whether the last character of `value` is a separator: a `;` that no
/// backslash stands directly before. As a pattern, `(?<!\\);`.
pub open spec fn ends_in_separator(value: Seq<char>) -> bool {
    value.len() > 0 && value.last() == ';' && !(value.len() >= 2 && value[value.len() - 2] == '\\')
}

/// The fields of `value`, read from left to right: a separator closes the
/// field that is open and opens an empty one; every other character, an
/// escaped `;` and the backslash before it too, joins the open field.
pub open spec fn fields(value: Seq<char>) -> Seq<Seq<char>>
    decreases value.len(),
{
    if value.len() == 0 {
        seq![Seq::empty()]
    } else {
        let before = fields(value.drop_last());
        if ends_in_separator(value) {
            before.push(Seq::empty())
        } else {
            before.drop_last().push(before.last().push(value.last()))
        }
    }
}

/// The items of `value`: its fields, without the last one where that is
/// empty and not the only one. So a `;` at the end of the value closes the
/// last item and opens no other, and the empty value has one item.
pub open spec fn split_list(value: Seq<char>) -> Seq<Seq<char>> {
    let all = fields(value);
    if all.len() > 1 && all.last().len() == 0 {
        all.drop_last()
    } else {
        all
    }
}

/// A value has at least one field.
pub proof fn lemma_fields_nonempty(value: Seq<char>)
    ensures
        fields(value).len() >= 1,
    decreases value.len(),
{
    if value.len() > 0 {
        lemma_fields_nonempty(value.drop_last());
    }
}

/// A value has at least one item.
pub proof fn lemma_split_list_nonempty(value: Seq<char>)
    ensures
        split_list(value).len() >= 1,
{
    lemma_fields_nonempty(value);
}

/// A value that is not empty has a field that is not empty, or several
/// fields.
pub proof fn lemma_fields_of_nonempty(value: Seq<char>)
    requires
        value.len() > 0,
    ensures
        fields(value).len() > 1 || fields(value).last().len() > 0,
{
    lemma_fields_nonempty(value.drop_last());
}

/// A `;` that no backslash stands directly before splits the value at that
/// point: the fields of the whole are the fields of what stands before the
/// `;`, followed by the fields of what stands after it.
pub proof fn lemma_separator_splits_fields(before: Seq<char>, after: Seq<char>)
    requires
        before.len() == 0 || before.last() != '\\',
    ensures
        fields(before + seq![';'] + after) == fields(before) + fields(after),
    decreases after.len(),
{
    let whole = before + seq![';'] + after;
    lemma_fields_nonempty(before);
    if after.len() == 0 {
        assert(whole.drop_last() == before);
        assert(ends_in_separator(whole));
        assert(fields(after) == seq![Seq::<char>::empty()]);
        assert(fields(before).push(Seq::empty()) == fields(before) + fields(after));
    } else {
        let shorter = after.drop_last();
        lemma_separator_splits_fields(before, shorter);
        lemma_fields_nonempty(shorter);
        assert(whole.drop_last() == before + seq![';'] + shorter);
        assert(whole.last() == after.last());
        assert(ends_in_separator(whole) == ends_in_separator(after)) by {
            if after.len() >= 2 {
                assert(whole[whole.len() - 2] == after[after.len() - 2]);
            } else {
                assert(whole[whole.len() - 2] == ';');
            }
        }
        let fb = fields(before);
        let fs = fields(shorter);
        if ends_in_separator(after) {
            assert((fb + fs).push(Seq::empty()) == fb + fs.push(Seq::empty()));
        } else {
            assert((fb + fs).drop_last() == fb + fs.drop_last());
            assert((fb + fs).last() == fs.last());
            assert((fb + fs.drop_last()).push(fs.last().push(after.last())) == fb
                + fs.drop_last().push(fs.last().push(after.last())));
        }
    }
}

/// A `;` that a backslash stands directly before does not split the value
/// at that point: the last field of what stands before it, the `;` and the
/// first field of what stands after it are one field of the whole.
pub proof fn lemma_escaped_separator_joins_fields(before: Seq<char>, after: Seq<char>)
    requires
        before.len() > 0,
        before.last() == '\\',
    ensures
        fields(before + seq![';'] + after) == fields(before).drop_last() + seq![
            fields(before).last() + seq![';'] + fields(after).first(),
        ] + fields(after).drop_first(),
    decreases after.len(),
{
    let whole = before + seq![';'] + after;
    let fb = fields(before);
    lemma_fields_nonempty(before);
    if after.len() == 0 {
        assert(whole.drop_last() == before);
        assert(whole[whole.len() - 2] == before.last());
        assert(!ends_in_separator(whole));
        assert(fields(after) == seq![Seq::<char>::empty()]);
        assert(fields(after).drop_first() == Seq::<Seq<char>>::empty());
        assert(fb.last().push(';') == fb.last() + seq![';'] + fields(after).first());
        assert(fb.drop_last().push(fb.last().push(';')) == fb.drop_last() + seq![
            fb.last() + seq![';'] + fields(after).first(),
        ] + fields(after).drop_first());
    } else {
        let shorter = after.drop_last();
        lemma_escaped_separator_joins_fields(before, shorter);
        lemma_fields_nonempty(shorter);
        assert(whole.drop_last() == before + seq![';'] + shorter);
        assert(whole.last() == after.last());
        assert(ends_in_separator(whole) == ends_in_separator(after)) by {
            if after.len() >= 2 {
                assert(whole[whole.len() - 2] == after[after.len() - 2]);
            } else {
                assert(whole[whole.len() - 2] == ';');
            }
        }
        let fs = fields(shorter);
        let c = after.last();
        let joined = fb.last() + seq![';'] + fs.first();
        let short_whole = fb.drop_last() + seq![joined] + fs.drop_first();
        assert(fields(whole.drop_last()) == short_whole);
        if ends_in_separator(after) {
            let fa = fs.push(Seq::empty());
            assert(fields(after) == fa);
            assert(fa.first() == fs.first());
            assert(fa.drop_first() == fs.drop_first().push(Seq::empty()));
            assert(short_whole.push(Seq::empty()) == fb.drop_last() + seq![joined]
                + fa.drop_first());
        } else {
            let fa = fs.drop_last().push(fs.last().push(c));
            assert(fields(after) == fa);
            if fs.len() == 1 {
                assert(fa.first() == fs.first().push(c));
                assert(fa.drop_first() == Seq::<Seq<char>>::empty());
                assert(fs.drop_first() == Seq::<Seq<char>>::empty());
                assert(short_whole.last() == joined);
                assert(short_whole.drop_last() == fb.drop_last());
                assert(joined.push(c) == fb.last() + seq![';'] + fa.first());
                assert(short_whole.drop_last().push(short_whole.last().push(c))
                    == fb.drop_last() + seq![fb.last() + seq![';'] + fa.first()]
                    + fa.drop_first());
            } else {
                assert(fa.first() == fs.first());
                assert(short_whole.last() == fs.last());
                assert(fa.drop_first() == fs.drop_first().drop_last().push(fs.last().push(c)));
                assert(short_whole.drop_last() == fb.drop_last() + seq![joined]
                    + fs.drop_first().drop_last());
                assert(short_whole.drop_last().push(short_whole.last().push(c))
                    == fb.drop_last() + seq![joined] + fa.drop_first());
            }
        }
    }
}

/// Splitting at a separator: a `;` that no backslash stands directly before
/// ends an item. The items of the whole are the fields of what stands
/// before the `;`, followed by the items of what stands after it, if
/// anything does.
pub proof fn lemma_separator_splits(before: Seq<char>, after: Seq<char>)
    requires
        before.len() == 0 || before.last() != '\\',
    ensures
        split_list(before + seq![';'] + after) == fields(before) + if after.len() == 0 {
            Seq::<Seq<char>>::empty()
        } else {
            split_list(after)
        },
{
    lemma_separator_splits_fields(before, after);
    lemma_fields_nonempty(before);
    lemma_fields_nonempty(after);
    let fb = fields(before);
    let fa = fields(after);
    if after.len() == 0 {
        assert((fb + fa).drop_last() == fb);
    } else {
        lemma_fields_of_nonempty(after);
        if fa.last().len() == 0 {
            assert((fb + fa).drop_last() == fb + fa.drop_last());
        }
    }
}

/// No splitting at an escaped `;`: where a backslash stands directly before
/// it, the `;` lies inside an item, together with that backslash. The item
/// is made of the last field of what stands before the `;`, the `;` itself
/// and the first item of what stands after it.
pub proof fn lemma_escaped_separator_joins(before: Seq<char>, after: Seq<char>)
    requires
        before.len() > 0,
        before.last() == '\\',
    ensures
        split_list(before + seq![';'] + after) == fields(before).drop_last() + seq![
            fields(before).last() + seq![';'] + split_list(after).first(),
        ] + split_list(after).drop_first(),
{
    lemma_escaped_separator_joins_fields(before, after);
    lemma_fields_nonempty(before);
    lemma_fields_nonempty(after);
    let fb = fields(before);
    let fa = fields(after);
    let joined = fb.last() + seq![';'] + fa.first();
    let whole = fb.drop_last() + seq![joined] + fa.drop_first();
    assert(joined.len() > 0);
    if fa.len() == 1 {
        assert(fa.drop_first() == Seq::<Seq<char>>::empty());
        assert(whole.last() == joined);
    } else {
        assert(whole.last() == fa.last());
        if fa.last().len() == 0 {
            assert(fa.drop_last().first() == fa.first());
            assert(whole.drop_last() == fb.drop_last() + seq![joined]
                + fa.drop_last().drop_first());
        }
    }
}

/// Whether `text` holds no separator.
pub open spec fn holds_no_separator(text: Seq<char>) -> bool {
    forall|i: int| 0 < i <= text.len() ==> !ends_in_separator(#[trigger] text.take(i))
}

/// A text that holds no separator is one field, and one item.
pub proof fn lemma_one_field(text: Seq<char>)
    requires
        holds_no_separator(text),
    ensures
        fields(text) == seq![text],
        split_list(text) == seq![text],
    decreases text.len(),
{
    if text.len() > 0 {
        let shorter = text.drop_last();
        assert forall|i: int| 0 < i <= shorter.len() implies !ends_in_separator(
            #[trigger] shorter.take(i),
        ) by {
            assert(shorter.take(i) == text.take(i));
        }
        lemma_one_field(shorter);
        assert(text.take(text.len() as int) == text);
        assert(shorter.push(text.last()) == text);
        assert(seq![shorter].drop_last() == Seq::<Seq<char>>::empty());
        assert(Seq::<Seq<char>>::empty().push(text) == seq![text]);
    } else {
        assert(text == Seq::<char>::empty());
    }
}

/// What the fields of a value are made of. No field holds a separator. The
/// last field is the end of the value, and what stands directly before it,
/// if anything does, is a `;`.
pub proof fn lemma_fields_hold_no_separator(value: Seq<char>)
    ensures
        forall|k: int|
            0 <= k < fields(value).len() ==> holds_no_separator(#[trigger] fields(value)[k]),
        fields(value).len() >= 1,
        fields(value).last().len() <= value.len(),
        fields(value).last() == value.skip(value.len() - fields(value).last().len()),
        fields(value).last().len() < value.len() ==> value[value.len() - fields(
            value,
        ).last().len() - 1] == ';',
    decreases value.len(),
{
    if value.len() == 0 {
        assert(fields(value).last() == value.skip(0));
    } else {
        let shorter = value.drop_last();
        lemma_fields_hold_no_separator(shorter);
        let before = fields(shorter);
        let last = before.last();
        let c = value.last();
        if ends_in_separator(value) {
            assert(fields(value).last() == value.skip(value.len() as int));
        } else {
            let grown = last.push(c);
            assert(fields(value) == before.drop_last().push(grown));
            assert(grown == value.skip(value.len() - grown.len())) by {
                assert(last == shorter.skip(shorter.len() - last.len()));
                assert(grown =~= value.skip(value.len() - grown.len()));
            }
            assert(holds_no_separator(grown)) by {
                assert forall|i: int| 0 < i <= grown.len() implies !ends_in_separator(
                    #[trigger] grown.take(i),
                ) by {
                    if i <= last.len() {
                        assert(grown.take(i) == last.take(i));
                    } else {
                        assert(grown.take(i) == grown);
                        if c == ';' {
                            assert(value[value.len() - 2] == '\\');
                            if last.len() >= 1 {
                                assert(last.last() == shorter[shorter.len() - 1]);
                                assert(grown[grown.len() - 2] == last.last());
                            }
                        }
                    }
                }
            }
            assert forall|k: int| 0 <= k < fields(value).len() implies holds_no_separator(
                #[trigger] fields(value)[k],
            ) by {
                if k < before.len() - 1 {
                    assert(fields(value)[k] == before[k]);
                }
            }
        }
    }
}

/// Splitting once is enough: each item of a value, taken as a value of its
/// own, is one item.
pub proof fn lemma_item_is_one_item(value: Seq<char>, k: int)
    requires
        0 <= k < split_list(value).len(),
    ensures
        split_list(split_list(value)[k]) == seq![split_list(value)[k]],
{
    lemma_fields_hold_no_separator(value);
    assert(split_list(value)[k] == fields(value)[k]);
    lemma_one_field(split_list(value)[k]);
}

/// Splits `value` into its items.
pub fn split(value: &[char]) -> (items: Vec<Vec<char>>)
    ensures
        views(items@) == split_list(value@),
        items@.len() >= 1,
{
    let mut items: Vec<Vec<char>> = Vec::new();
    let mut field: Vec<char> = Vec::new();
    let mut i: usize = 0;
    while i < value.len()
        invariant
            i <= value.len(),
            fields(value@.take(i as int)) == views(items@).push(field@),
        decreases value.len() - i,
    {
        let ghost read = value@.take(i as int);
        let ghost next = value@.take(i + 1);
        assert(next.drop_last() == read);
        assert(next.last() == value@[i as int]);
        if value[i] == ';' && !(i > 0 && value[i - 1] == '\\') {
            assert(ends_in_separator(next));
            let ghost closed = views(items@);
            items.push(field);
            assert(views(items@) == closed.push(field@));
            field = Vec::new();
        } else {
            assert(!ends_in_separator(next));
            let ghost was = field@;
            field.push(value[i]);
            assert(views(items@).push(was).drop_last() == views(items@));
        }
        i += 1;
    }
    assert(value@.take(value@.len() as int) == value@);
    proof {
        lemma_fields_nonempty(value@);
    }
    if items.len() == 0 || field.len() > 0 {
        let ghost closed = views(items@);
        items.push(field);
        assert(views(items@) == closed.push(field@));
        assert(views(items@) == split_list(value@));
    } else {
        assert(views(items@).push(field@).drop_last() == views(items@));
    }
    items
}

} // verus!
