//! Typed values: what a value is, how a text becomes one, and which
//! conversion the name of a key selects.

use vstd::prelude::*;
use vstd::string::{StrSliceExecFns, StringExecFns};
use crate::list::{split, split_list};
use crate::literal::{bool_literal, float_literal, is_float_literal, parse_bool};
use crate::locale::{base_key, base_key_len};
use crate::text::{chars_of, distance_to, find, spells, string_of, string_of_range, views};
use crate::xdg_parse_error::{FloatErrorKind, XdgParseError, NO_DELIMITER};

verus! {

/// A typed value as a mathematical value: what an `XdgDesktopValue` stands
/// for.
pub enum TypedValue {
    /// Text that means nothing more.
    PlainString(Seq<char>),
    /// Text that may differ from locale to locale.
    LocaleString(Seq<char>),
    /// Text that names an icon.
    IconString(Seq<char>),
    Boolean(bool),
    /// A number, as the floating-point literal that was read.
    Numeric(Seq<char>),
    List(Seq<TypedValue>),
}

impl TypedValue {
    /// A numeric value holds a floating-point literal, and so does every
    /// numeric value in a list.
    pub open spec fn well_formed(self) -> bool
        decreases self,
    {
        match self {
            TypedValue::Numeric(literal) => is_float_literal(literal),
            TypedValue::List(items) => forall|i: int|
                0 <= i < items.len() ==> (#[trigger] items[i]).well_formed(),
            _ => true,
        }
    }

    /// Whether the value is no list.
    pub open spec fn is_scalar(self) -> bool {
        !(self is List)
    }

    /// The value as text. A string is its text, a boolean is `true` or
    /// `false`, a number is its literal. A list is its items, each as text
    /// and each followed by `;`, the last one too.
    pub open spec fn display(self) -> Seq<char>
        decreases self,
    {
        match self {
            TypedValue::PlainString(text) => text,
            TypedValue::LocaleString(text) => text,
            TypedValue::IconString(text) => text,
            TypedValue::Boolean(b) => if b {
                "true"@
            } else {
                "false"@
            },
            TypedValue::Numeric(literal) => literal,
            TypedValue::List(items) => display_first(items, items.len()),
        }
    }
}

/// The first `n` of `items` as text, each followed by `;`.
pub open spec fn display_first(items: Seq<TypedValue>, n: nat) -> Seq<char>
    decreases items, n,
{
    if n == 0 || n > items.len() {
        Seq::empty()
    } else {
        display_first(items, (n - 1) as nat) + items[n - 1].display() + seq![';']
    }
}

/// What a key, or what an item of a list, is read as.
#[derive(Debug, Clone, Copy, PartialEq, Eq, Structural)]
pub enum Scalar {
    PlainString,
    LocaleString,
    IconString,
    Boolean,
    Numeric,
}

/// How the value of a key is read.
#[derive(Debug, Clone, Copy, PartialEq, Eq, Structural)]
pub enum Conversion {
    /// The whole value is one scalar.
    One(Scalar),
    /// The value is a list, and each of its items is a scalar of one kind.
    Each(Scalar),
    /// The key is not known: the value says what it is.
    Probe,
}

/// A typed value.
#[derive(Debug, PartialEq, Eq)]
pub enum XdgDesktopValue {
    /// Text that means nothing more.
    String(String),
    /// Text that may differ from locale to locale. The key says for which
    /// locale it is; the value does not.
    LocaleString(String),
    /// Text that names an icon.
    IconString(String),
    Bool(bool),
    /// A number, as the floating-point literal that was read.
    Numeric(String),
    List(Vec<XdgDesktopValue>),
}

/// What `value` stands for.
pub open spec fn typed(value: XdgDesktopValue) -> TypedValue
    decreases value,
{
    match value {
        XdgDesktopValue::String(text) => TypedValue::PlainString(text@),
        XdgDesktopValue::LocaleString(text) => TypedValue::LocaleString(text@),
        XdgDesktopValue::IconString(text) => TypedValue::IconString(text@),
        XdgDesktopValue::Bool(b) => TypedValue::Boolean(b),
        XdgDesktopValue::Numeric(literal) => TypedValue::Numeric(literal@),
        XdgDesktopValue::List(items) => TypedValue::List(
            Seq::new(
                items.len() as nat,
                |i: int|
                    if 0 <= i < items.len() {
                        typed(items[i])
                    } else {
                        arbitrary()
                    },
            ),
        ),
    }
}

impl View for XdgDesktopValue {
    type V = TypedValue;

    open spec fn view(&self) -> TypedValue {
        typed(*self)
    }
}

impl Clone for XdgDesktopValue {
    fn clone(&self) -> (copy: XdgDesktopValue)
        ensures
            copy@ == self@,
        decreases self,
    {
        match self {
            XdgDesktopValue::String(text) => XdgDesktopValue::String(text.clone()),
            XdgDesktopValue::LocaleString(text) => XdgDesktopValue::LocaleString(text.clone()),
            XdgDesktopValue::IconString(text) => XdgDesktopValue::IconString(text.clone()),
            XdgDesktopValue::Bool(b) => XdgDesktopValue::Bool(*b),
            XdgDesktopValue::Numeric(literal) => XdgDesktopValue::Numeric(literal.clone()),
            XdgDesktopValue::List(items) => {
                let mut copies: Vec<XdgDesktopValue> = Vec::new();
                let mut i: usize = 0;
                while i < items.len()
                    invariant
                        i <= items.len(),
                        *self == XdgDesktopValue::List(*items),
                        copies@.len() == i,
                        forall|j: int| 0 <= j < i ==> copies@[j]@ == items@[j]@,
                    decreases items.len() - i,
                {
                    assert(decreases_to!(*self => (*self)->List_0));
                    copies.push(items[i].clone());
                    i += 1;
                }
                proof {
                    lemma_list_view(copies);
                    lemma_list_view(*items);
                    assert(value_views(copies@) =~= value_views(items@));
                }
                XdgDesktopValue::List(copies)
            },
        }
    }
}

impl From<bool> for XdgDesktopValue {
    fn from(b: bool) -> (value: XdgDesktopValue) {
        XdgDesktopValue::Bool(b)
    }
}

impl vstd::std_specs::convert::FromSpecImpl<bool> for XdgDesktopValue {
    open spec fn obeys_from_spec() -> bool {
        true
    }

    open spec fn from_spec(b: bool) -> XdgDesktopValue {
        XdgDesktopValue::Bool(b)
    }
}

impl From<Vec<XdgDesktopValue>> for XdgDesktopValue {
    fn from(items: Vec<XdgDesktopValue>) -> (value: XdgDesktopValue) {
        XdgDesktopValue::List(items)
    }
}

impl vstd::std_specs::convert::FromSpecImpl<Vec<XdgDesktopValue>> for XdgDesktopValue {
    open spec fn obeys_from_spec() -> bool {
        true
    }

    open spec fn from_spec(items: Vec<XdgDesktopValue>) -> XdgDesktopValue {
        XdgDesktopValue::List(items)
    }
}

/// What the values of `values` stand for.
pub open spec fn value_views(values: Seq<XdgDesktopValue>) -> Seq<TypedValue> {
    Seq::new(values.len(), |i: int| values[i]@)
}

/// The outcome of reading one value: the value, or why it is none.
pub type Outcome = Result<TypedValue, XdgParseError>;

/// What an outcome stands for.
pub open spec fn outcome_view(r: Result<XdgDesktopValue, XdgParseError>) -> Outcome {
    match r {
        Ok(value) => Ok(value@),
        Err(e) => Err(e),
    }
}

/// A list stands for the list of what its items stand for.
pub proof fn lemma_list_view(items: Vec<XdgDesktopValue>)
    ensures
        XdgDesktopValue::List(items)@ == TypedValue::List(value_views(items@)),
{
    assert(XdgDesktopValue::List(items)@->List_0 =~= value_views(items@));
}

/// The conversion that a base key selects.
pub open spec fn conversion_for(base: Seq<char>) -> Conversion {
    if base == "Type"@ || base == "Version"@ || base == "Exec"@ || base == "TryExec"@ || base
        == "Path"@ || base == "StartupWMClass"@ || base == "URL"@ {
        Conversion::One(Scalar::PlainString)
    } else if base == "Name"@ || base == "GenericName"@ || base == "Comment"@ {
        Conversion::One(Scalar::LocaleString)
    } else if base == "NoDisplay"@ || base == "Hidden"@ || base == "Terminal"@ || base
        == "StartupNotify"@ || base == "PrefersNonDefaultGPU"@ || base == "DBusActivatable"@ {
        Conversion::One(Scalar::Boolean)
    } else if base == "Icon"@ {
        Conversion::One(Scalar::IconString)
    } else if base == "Keywords"@ {
        Conversion::Each(Scalar::LocaleString)
    } else if base == "OnlyShowIn"@ || base == "NotShowIn"@ || base == "Actions"@ || base
        == "MimeType"@ || base == "Categories"@ || base == "Implements"@ {
        Conversion::Each(Scalar::PlainString)
    } else {
        Conversion::Probe
    }
}

/// Why `text` is no floating-point literal, where it is none.
pub open spec fn float_error(text: Seq<char>) -> XdgParseError {
    XdgParseError::ParseFloatError(
        if text.len() == 0 {
            FloatErrorKind::Empty
        } else {
            FloatErrorKind::Invalid
        },
    )
}

/// `text` read as one scalar of kind `kind`. A string of any kind is the
/// text as it stands; a boolean and a number have to be literals.
pub open spec fn scalar_outcome(kind: Scalar, text: Seq<char>) -> Outcome {
    match kind {
        Scalar::PlainString => Ok(TypedValue::PlainString(text)),
        Scalar::LocaleString => Ok(TypedValue::LocaleString(text)),
        Scalar::IconString => Ok(TypedValue::IconString(text)),
        Scalar::Boolean => match bool_literal(text) {
            Some(b) => Ok(TypedValue::Boolean(b)),
            None => Err(XdgParseError::ParseBoolError),
        },
        Scalar::Numeric => if is_float_literal(text) {
            Ok(TypedValue::Numeric(text))
        } else {
            Err(float_error(text))
        },
    }
}

/// `items` read one by one as scalars of kind `kind`: the values in the
/// order of the items, or the error of the first item that is none.
pub open spec fn items_outcome(kind: Scalar, items: Seq<Seq<char>>) -> Result<
    Seq<TypedValue>,
    XdgParseError,
>
    decreases items.len(),
{
    if items.len() == 0 {
        Ok(Seq::empty())
    } else {
        match items_outcome(kind, items.drop_last()) {
            Err(e) => Err(e),
            Ok(values) => match scalar_outcome(kind, items.last()) {
                Err(e) => Err(e),
                Ok(value) => Ok(values.push(value)),
            },
        }
    }
}

/// `items` read as a list of scalars of kind `kind`.
pub open spec fn list_outcome(kind: Scalar, items: Seq<Seq<char>>) -> Outcome {
    match items_outcome(kind, items) {
        Ok(values) => Ok(TypedValue::List(values)),
        Err(e) => Err(e),
    }
}

/// The first of the two outcomes that is a value, or the second where
/// neither is.
pub open spec fn or_else(first: Outcome, second: Outcome) -> Outcome {
    if first is Ok {
        first
    } else {
        second
    }
}

/// `value` read for a key that is not known. The value is split into its
/// items. One item alone is a scalar: a boolean if it can be read as one,
/// else a number if it can be read as one, else a plain string. Several
/// items are a list of one kind: of booleans if every item can be read as
/// one, else of numbers if every item can be read as one, else of plain
/// strings.
pub open spec fn probe_outcome(value: Seq<char>) -> Outcome {
    let items = split_list(value);
    if items.len() == 1 {
        or_else(
            scalar_outcome(Scalar::Boolean, items[0]),
            or_else(
                scalar_outcome(Scalar::Numeric, items[0]),
                scalar_outcome(Scalar::PlainString, items[0]),
            ),
        )
    } else {
        or_else(
            list_outcome(Scalar::Boolean, items),
            or_else(
                list_outcome(Scalar::Numeric, items),
                list_outcome(Scalar::PlainString, items),
            ),
        )
    }
}

/// `value` read under `conversion`.
pub open spec fn outcome(conversion: Conversion, value: Seq<char>) -> Outcome {
    match conversion {
        Conversion::One(kind) => scalar_outcome(kind, value),
        Conversion::Each(kind) => list_outcome(kind, split_list(value)),
        Conversion::Probe => probe_outcome(value),
    }
}

/// The key and the outcome of the line `line`. The key is what stands
/// before the first `=`, locale qualifier included, and the value is what
/// stands after it; the base key selects how the value is read. A line
/// without `=` is its own key and has an error for its outcome.
pub open spec fn entry(line: Seq<char>) -> (Seq<char>, Outcome) {
    let at = distance_to(line, 0, '=') as int;
    if at >= line.len() {
        (line, Err(XdgParseError::Other(NO_DELIMITER)))
    } else {
        let key = line.take(at);
        (key, outcome(conversion_for(base_key(key)), line.skip(at + 1)))
    }
}

/// A list is read item by item: where it can be read, each of its values is
/// what the item at its place is read as; where it cannot, its error is the
/// error of an item, and of its first item that cannot be read.
pub proof fn lemma_items_outcome(kind: Scalar, items: Seq<Seq<char>>)
    ensures
        match items_outcome(kind, items) {
            Ok(values) => {
                &&& values.len() == items.len()
                &&& forall|i: int|
                    0 <= i < items.len() ==> scalar_outcome(kind, #[trigger] items[i]) == Ok::<
                        TypedValue,
                        XdgParseError,
                    >(values[i])
            },
            Err(e) => exists|i: int|
                {
                    &&& 0 <= i < items.len()
                    &&& scalar_outcome(kind, #[trigger] items[i]) == Err::<
                        TypedValue,
                        XdgParseError,
                    >(e)
                    &&& forall|j: int| 0 <= j < i ==> scalar_outcome(kind, #[trigger] items[j]) is Ok
                },
        },
    decreases items.len(),
{
    if items.len() > 0 {
        let shorter = items.drop_last();
        lemma_items_outcome(kind, shorter);
        match items_outcome(kind, shorter) {
            Ok(values) => {
                assert forall|j: int| 0 <= j < shorter.len() implies scalar_outcome(
                    kind,
                    #[trigger] items[j],
                ) is Ok by {
                    assert(items[j] == shorter[j]);
                }
                match scalar_outcome(kind, items.last()) {
                    Ok(value) => {
                        assert forall|i: int| 0 <= i < items.len() implies scalar_outcome(
                            kind,
                            #[trigger] items[i],
                        ) == Ok::<TypedValue, XdgParseError>(values.push(value)[i]) by {
                            if i < shorter.len() {
                                assert(items[i] == shorter[i]);
                            }
                        }
                    },
                    Err(e) => {
                        assert(items[items.len() - 1] == items.last());
                    },
                }
            },
            Err(e) => {
                let i = choose|i: int|
                    {
                        &&& 0 <= i < shorter.len()
                        &&& scalar_outcome(kind, #[trigger] shorter[i]) == Err::<
                            TypedValue,
                            XdgParseError,
                        >(e)
                        &&& forall|j: int|
                            0 <= j < i ==> scalar_outcome(kind, #[trigger] shorter[j]) is Ok
                    };
                assert(items[i] == shorter[i]);
                assert forall|j: int| 0 <= j < i implies scalar_outcome(
                    kind,
                    #[trigger] items[j],
                ) is Ok by {
                    assert(items[j] == shorter[j]);
                }
            },
        }
    }
}

/// Every value that is read is well-formed: what it holds as a number is a
/// floating-point literal.
pub proof fn lemma_outcome_well_formed(conversion: Conversion, value: Seq<char>)
    ensures
        outcome(conversion, value) matches Ok(read) ==> read.well_formed(),
{
    let items = split_list(value);
    match conversion {
        Conversion::One(kind) => {},
        Conversion::Each(kind) => {
            lemma_list_well_formed(kind, items);
        },
        Conversion::Probe => {
            lemma_list_well_formed(Scalar::Boolean, items);
            lemma_list_well_formed(Scalar::Numeric, items);
            lemma_list_well_formed(Scalar::PlainString, items);
        },
    }
}

/// Every list that is read is well-formed.
pub proof fn lemma_list_well_formed(kind: Scalar, items: Seq<Seq<char>>)
    ensures
        list_outcome(kind, items) matches Ok(read) ==> read.well_formed(),
{
    lemma_items_outcome(kind, items);
    if let Ok(values) = items_outcome(kind, items) {
        assert forall|i: int| 0 <= i < values.len() implies (#[trigger] values[i]).well_formed() by {
            assert(scalar_outcome(kind, items[i]) == Ok::<TypedValue, XdgParseError>(values[i]));
        }
    }
}

/// A value for a key that is not known can always be read.
pub proof fn lemma_probe_outcome_is_value(value: Seq<char>)
    ensures
        probe_outcome(value) is Ok,
{
    lemma_items_outcome(Scalar::PlainString, split_list(value));
}

/// Reading is stable under display: where a value is read as a scalar, the
/// text that displays the scalar is read, under the same conversion, as the
/// same scalar. Of a list this need not hold: the list without items is
/// displayed as the empty text, which is read as one empty item.
pub proof fn lemma_display_round_trip(conversion: Conversion, value: Seq<char>)
    ensures
        outcome(conversion, value) matches Ok(read) ==> read.is_scalar() ==> outcome(
            conversion,
            read.display(),
        ) == Ok::<TypedValue, XdgParseError>(read),
{
    match conversion {
        Conversion::One(kind) => {},
        Conversion::Each(kind) => {},
        Conversion::Probe => {
            let items = split_list(value);
            crate::list::lemma_split_list_nonempty(value);
            if items.len() == 1 {
                crate::list::lemma_item_is_one_item(value, 0);
                let read = probe_outcome(value)->Ok_0;
                assert(read.display() == items[0]);
            }
        },
    }
}

/// Whether `key` holds no `=`.
pub open spec fn holds_no_delimiter(key: Seq<char>) -> bool {
    forall|i: int| 0 <= i < key.len() ==> key[i] != '='
}

/// A line that is made of a key without `=`, a `=` and a value has that key
/// and, for its outcome, that value read under the conversion that the base
/// key selects.
pub proof fn lemma_entry_of(key: Seq<char>, value: Seq<char>)
    requires
        holds_no_delimiter(key),
    ensures
        entry(key + seq!['='] + value) == (
            key,
            outcome(conversion_for(base_key(key)), value),
        ),
{
    let line = key + seq!['='] + value;
    crate::text::lemma_distance_to(line, 0, key.len() as int, '=');
    assert(line.take(key.len() as int) == key);
    assert(line.skip(key.len() as int + 1) == value);
}

/// The keys whose values are booleans.
pub open spec fn is_boolean_key(base: Seq<char>) -> bool {
    ||| base == "NoDisplay"@
    ||| base == "Hidden"@
    ||| base == "Terminal"@
    ||| base == "StartupNotify"@
    ||| base == "PrefersNonDefaultGPU"@
    ||| base == "DBusActivatable"@
}

/// A boolean key selects the boolean conversion.
pub proof fn lemma_boolean_key_selects(base: Seq<char>)
    requires
        is_boolean_key(base),
    ensures
        conversion_for(base) == Conversion::One(Scalar::Boolean),
{
    reveal_strlit("Type");
    reveal_strlit("Version");
    reveal_strlit("Exec");
    reveal_strlit("TryExec");
    reveal_strlit("Path");
    reveal_strlit("StartupWMClass");
    reveal_strlit("URL");
    reveal_strlit("Name");
    reveal_strlit("GenericName");
    reveal_strlit("Comment");
    reveal_strlit("NoDisplay");
    reveal_strlit("Hidden");
    reveal_strlit("Terminal");
    reveal_strlit("StartupNotify");
    reveal_strlit("PrefersNonDefaultGPU");
    reveal_strlit("DBusActivatable");
    assert(base.len() == 9 || base.len() == 6 || base.len() == 8 || base.len() == 13
        || base.len() == 20 || base.len() == 15);
}

/// A boolean key, with a locale qualifier or without one, holds no `=`.
pub proof fn lemma_boolean_key_holds_no_delimiter(key: Seq<char>)
    requires
        is_boolean_key(base_key(key)),
    ensures
        holds_no_delimiter(key),
{
    reveal_strlit("NoDisplay");
    reveal_strlit("Hidden");
    reveal_strlit("Terminal");
    reveal_strlit("StartupNotify");
    reveal_strlit("PrefersNonDefaultGPU");
    reveal_strlit("DBusActivatable");
    let base = base_key(key);
    assert(holds_no_delimiter(base));
    if crate::locale::has_locale_suffix(key) {
        let at = choose|at: int| crate::locale::is_locale_suffix_at(key, at);
        let tag = key.subrange(at + 1, key.len() - 1);
        assert forall|i: int| 0 <= i < key.len() implies key[i] != '=' by {
            if i < at {
                assert(key[i] == base[i]);
            } else if at < i < key.len() - 1 {
                crate::locale::lemma_tag_chars(tag, i - at - 1);
                assert(tag[i - at - 1] == key[i]);
            }
        }
    }
}

/// For a boolean key, the value `true` is the boolean true, the value
/// `false` is the boolean false, and every other value is an error of its
/// entry.
pub proof fn lemma_boolean_entry(key: Seq<char>, value: Seq<char>)
    requires
        is_boolean_key(base_key(key)),
    ensures
        entry(key + seq!['='] + value).0 == key,
        value == "true"@ ==> entry(key + seq!['='] + value).1 == Ok::<TypedValue, XdgParseError>(
            TypedValue::Boolean(true),
        ),
        value == "false"@ ==> entry(key + seq!['='] + value).1 == Ok::<TypedValue, XdgParseError>(
            TypedValue::Boolean(false),
        ),
        value != "true"@ && value != "false"@ ==> entry(key + seq!['='] + value).1 == Err::<
            TypedValue,
            XdgParseError,
        >(XdgParseError::ParseBoolError),
{
    lemma_boolean_key_selects(base_key(key));
    lemma_boolean_key_holds_no_delimiter(key);
    lemma_entry_of(key, value);
    reveal_strlit("true");
    reveal_strlit("false");
}

/// Selects the conversion for a base key.
pub fn select_conversion(base: &[char]) -> (conversion: Conversion)
    ensures
        conversion == conversion_for(base@),
{
    if spells(base, "Type") || spells(base, "Version") || spells(base, "Exec") || spells(
        base,
        "TryExec",
    ) || spells(base, "Path") || spells(base, "StartupWMClass") || spells(base, "URL") {
        Conversion::One(Scalar::PlainString)
    } else if spells(base, "Name") || spells(base, "GenericName") || spells(base, "Comment") {
        Conversion::One(Scalar::LocaleString)
    } else if spells(base, "NoDisplay") || spells(base, "Hidden") || spells(base, "Terminal")
        || spells(base, "StartupNotify") || spells(base, "PrefersNonDefaultGPU") || spells(
        base,
        "DBusActivatable",
    ) {
        Conversion::One(Scalar::Boolean)
    } else if spells(base, "Icon") {
        Conversion::One(Scalar::IconString)
    } else if spells(base, "Keywords") {
        Conversion::Each(Scalar::LocaleString)
    } else if spells(base, "OnlyShowIn") || spells(base, "NotShowIn") || spells(base, "Actions")
        || spells(base, "MimeType") || spells(base, "Categories") || spells(base, "Implements") {
        Conversion::Each(Scalar::PlainString)
    } else {
        Conversion::Probe
    }
}

/// Reads `text` as one scalar of kind `kind`.
pub fn parse_scalar(kind: Scalar, text: &[char]) -> (r: Result<XdgDesktopValue, XdgParseError>)
    ensures
        outcome_view(r) == scalar_outcome(kind, text@),
{
    match kind {
        Scalar::PlainString => Ok(XdgDesktopValue::String(string_of(text))),
        Scalar::LocaleString => Ok(XdgDesktopValue::LocaleString(string_of(text))),
        Scalar::IconString => Ok(XdgDesktopValue::IconString(string_of(text))),
        Scalar::Boolean => match parse_bool(text) {
            Some(b) => Ok(XdgDesktopValue::Bool(b)),
            None => Err(XdgParseError::ParseBoolError),
        },
        Scalar::Numeric => if float_literal(text) {
            Ok(XdgDesktopValue::Numeric(string_of(text)))
        } else if text.len() == 0 {
            Err(XdgParseError::ParseFloatError(FloatErrorKind::Empty))
        } else {
            Err(XdgParseError::ParseFloatError(FloatErrorKind::Invalid))
        },
    }
}

/// Reads `items` as a list of scalars of kind `kind`.
pub fn parse_items(kind: Scalar, items: &Vec<Vec<char>>) -> (r: Result<
    XdgDesktopValue,
    XdgParseError,
>)
    ensures
        outcome_view(r) == list_outcome(kind, views(items@)),
{
    let mut values: Vec<XdgDesktopValue> = Vec::new();
    let mut i: usize = 0;
    assert(views(items@).take(0).len() == 0);
    assert(value_views(values@) == Seq::<TypedValue>::empty());
    while i < items.len()
        invariant
            i <= items.len(),
            items_outcome(kind, views(items@).take(i as int)) == Ok::<
                Seq<TypedValue>,
                XdgParseError,
            >(value_views(values@)),
        decreases items.len() - i,
    {
        let ghost read = views(items@).take(i as int);
        let ghost next = views(items@).take(i + 1);
        assert(next.drop_last() == read);
        assert(next.last() == items@[i as int]@);
        let ghost before = value_views(values@);
        match parse_scalar(kind, items[i].as_slice()) {
            Ok(value) => {
                values.push(value);
                assert(value_views(values@) == before.push(value@));
            },
            Err(e) => {
                proof {
                    lemma_first_error_stays(kind, views(items@), i + 1);
                }
                return Err(e);
            },
        }
        i += 1;
    }
    assert(views(items@).take(items@.len() as int) == views(items@));
    proof {
        lemma_list_view(values);
    }
    Ok(XdgDesktopValue::List(values))
}

/// Where the first `n` items cannot all be read, the error of the first `n`
/// is the error of all.
pub proof fn lemma_first_error_stays(kind: Scalar, items: Seq<Seq<char>>, n: int)
    requires
        0 <= n <= items.len(),
        items_outcome(kind, items.take(n)) is Err,
    ensures
        items_outcome(kind, items) == items_outcome(kind, items.take(n)),
    decreases items.len() - n,
{
    if n < items.len() {
        assert(items.take(n + 1).drop_last() == items.take(n));
        lemma_first_error_stays(kind, items, n + 1);
    } else {
        assert(items.take(n) == items);
    }
}

/// Reads `value` as a list: splits it, and reads each item as a scalar of
/// kind `kind`.
pub fn parse_plural(kind: Scalar, value: &[char]) -> (r: Result<XdgDesktopValue, XdgParseError>)
    ensures
        outcome_view(r) == outcome(Conversion::Each(kind), value@),
{
    let items = split(value);
    parse_items(kind, &items)
}

/// Reads `value` for a key that is not known. Every value can be read so.
pub fn try_types(value: &[char]) -> (r: Result<XdgDesktopValue, XdgParseError>)
    ensures
        r is Ok,
        outcome_view(r) == probe_outcome(value@),
{
    proof {
        lemma_probe_outcome_is_value(value@);
    }
    let items = split(value);
    if items.len() == 1 {
        let item = items[0].as_slice();
        let as_boolean = parse_scalar(Scalar::Boolean, item);
        if as_boolean.is_ok() {
            return as_boolean;
        }
        let as_number = parse_scalar(Scalar::Numeric, item);
        if as_number.is_ok() {
            return as_number;
        }
        parse_scalar(Scalar::PlainString, item)
    } else {
        let as_booleans = parse_items(Scalar::Boolean, &items);
        if as_booleans.is_ok() {
            return as_booleans;
        }
        let as_numbers = parse_items(Scalar::Numeric, &items);
        if as_numbers.is_ok() {
            return as_numbers;
        }
        parse_items(Scalar::PlainString, &items)
    }
}

/// Reads `value` under `conversion`.
pub fn convert(conversion: Conversion, value: &[char]) -> (r: Result<
    XdgDesktopValue,
    XdgParseError,
>)
    ensures
        outcome_view(r) == outcome(conversion, value@),
{
    match conversion {
        Conversion::One(kind) => parse_scalar(kind, value),
        Conversion::Each(kind) => parse_plural(kind, value),
        Conversion::Probe => try_types(value),
    }
}

/// Reads the line `line`: the length of its key, and its outcome.
pub fn parse_entry(line: &[char]) -> (r: (usize, Result<XdgDesktopValue, XdgParseError>))
    ensures
        r.0 <= line@.len(),
        line@.take(r.0 as int) == entry(line@).0,
        outcome_view(r.1) == entry(line@).1,
{
    let n = line.len();
    let at = find(line, 0, '=');
    if at >= n {
        assert(line@.take(n as int) == line@);
        return (n, Err(XdgParseError::Other(NO_DELIMITER)));
    }
    let key = vstd::slice::slice_subrange(line, 0, at);
    let value = vstd::slice::slice_subrange(line, at + 1, n);
    assert(key@ == line@.take(at as int));
    assert(value@ == line@.skip(at + 1));
    let base = vstd::slice::slice_subrange(key, 0, base_key_len(key));
    (at, convert(select_conversion(base), value))
}

impl XdgDesktopValue {
    /// The value as text.
    pub fn to_string(&self) -> (text: String)
        ensures
            text@ == self@.display(),
        decreases self,
    {
        match self {
            XdgDesktopValue::String(text) => text.clone(),
            XdgDesktopValue::LocaleString(text) => text.clone(),
            XdgDesktopValue::IconString(text) => text.clone(),
            XdgDesktopValue::Bool(b) => if *b {
                String::from_str("true")
            } else {
                String::from_str("false")
            },
            XdgDesktopValue::Numeric(literal) => literal.clone(),
            XdgDesktopValue::List(items) => {
                let mut text = String::new();
                let mut i: usize = 0;
                proof {
                    lemma_list_view(*items);
                }
                while i < items.len()
                    invariant
                        i <= items.len(),
                        *self == XdgDesktopValue::List(*items),
                        text@ == display_first(value_views(items@), i as nat),
                    decreases items.len() - i,
                {
                    assert(decreases_to!(*self => (*self)->List_0));
                    let item = items[i].to_string();
                    text.append(item.as_str());
                    text.push(';');
                    i += 1;
                }
                text
            },
        }
    }

    /// The base key of `key`: the key without the locale qualifier that it
    /// ends in, if it ends in one.
    pub fn strip_locale(key: &str) -> (base: String)
        ensures
            base@ == base_key(key@),
    {
        let chars = chars_of(key);
        let len = base_key_len(chars.as_slice());
        string_of_range(chars.as_slice(), 0, len)
    }

    /// Reads a line of the form `key=value`: the key as it stands in the
    /// line, and the value that the text after the `=` is under the
    /// conversion that the key selects, or why it is none.
    pub fn from_kv(s: &str) -> (r: (&str, Result<XdgDesktopValue, XdgParseError>))
        ensures
            r.0@ == entry(s@).0,
            outcome_view(r.1) == entry(s@).1,
    {
        let chars = chars_of(s);
        let (key_len, value) = parse_entry(chars.as_slice());
        (s.substring_char(0, key_len), value)
    }
}

} // verus!
