use xdg_desktop::xdg_desktop_value::{convert, select_conversion};
use xdg_desktop::{Conversion, FloatErrorKind, Scalar, XdgDesktopValue, XdgParseError};

fn chars(text: &str) -> Vec<char> {
    text.chars().collect()
}

fn read(conversion: Conversion, value: &str) -> Result<XdgDesktopValue, XdgParseError> {
    convert(conversion, &chars(value))
}

fn plain(text: &str) -> XdgDesktopValue {
    XdgDesktopValue::String(text.to_string())
}

fn locale(text: &str) -> XdgDesktopValue {
    XdgDesktopValue::LocaleString(text.to_string())
}

fn number(text: &str) -> XdgDesktopValue {
    XdgDesktopValue::Numeric(text.to_string())
}

#[test]
fn test_localize_strip() {
    let items = ["Name", "Name[es]", "Name[es_CL]", "Name[sr@Latn]"];
    for i in &items {
        assert_eq!("Name", XdgDesktopValue::strip_locale(i), "\nInput: {}\n", i);
    }
}

#[test]
fn test_list() {
    let input = "Keywords=system;process;task";
    assert!(XdgDesktopValue::from_kv(input).1.is_ok())
}

#[test]
fn keywords_are_a_list_of_locale_strings() {
    let (key, value) = XdgDesktopValue::from_kv("Keywords=system;process;task");
    assert_eq!(key, "Keywords");
    assert_eq!(
        value,
        Ok(XdgDesktopValue::List(vec![locale("system"), locale("process"), locale("task")]))
    );
}

#[test]
fn only_a_qualifier_at_the_end_is_stripped() {
    assert_eq!(XdgDesktopValue::strip_locale("Name[es]x"), "Name[es]x");
    assert_eq!(XdgDesktopValue::strip_locale("Name[es][de]"), "Name[es]");
    assert_eq!(XdgDesktopValue::strip_locale("[de]"), "");
    assert_eq!(XdgDesktopValue::strip_locale("Name[ca_ES@valencia]"), "Name");
}

#[test]
fn what_is_no_qualifier_stays() {
    for key in [
        "Name[e]",
        "Name[esp]",
        "Name[ES]",
        "Name[es_cl]",
        "Name[es_C]",
        "Name[es@]",
        "Name[es_CL@]",
        "Name[es@a-b]",
        "Name[es@Latn_CL]x",
        "Name[sr@a→b]",
        "Name[sr@€]",
        "Name[sr@ ]",
        "Name[śr]",
        "Name[]",
        "Name[es",
        "Namees]",
        "]",
        "",
    ] {
        assert_eq!(XdgDesktopValue::strip_locale(key), key);
    }
}

#[test]
fn a_modifier_may_go_beyond_ascii() {
    // Letters, marks, numbers and connector punctuation of Unicode.
    for key in ["Name[sr@é]", "Name[sr@ћирилица]", "Name[sr@latin‿1]", "Name[sr@e\u{301}]", "Name[sr_RS@²]"] {
        assert_eq!(XdgDesktopValue::strip_locale(key), "Name", "{:?}", key);
    }
    assert_eq!(
        XdgDesktopValue::from_kv("Name[sr@é]=x"),
        ("Name[sr@é]", Ok(locale("x")))
    );
    assert_eq!(
        XdgDesktopValue::from_kv("Terminal[sr@ћирилица]=true"),
        ("Terminal[sr@ћирилица]", Ok(XdgDesktopValue::Bool(true)))
    );
    assert_eq!(
        XdgDesktopValue::from_kv("Name[sr@a→b]=true"),
        ("Name[sr@a→b]", Ok(XdgDesktopValue::Bool(true)))
    );
}

#[test]
fn the_key_keeps_its_qualifier() {
    let (key, value) = XdgDesktopValue::from_kv("Name[sr@Latn]=Terminal");
    assert_eq!(key, "Name[sr@Latn]");
    assert_eq!(value, Ok(locale("Terminal")));
}

#[test]
fn the_table_of_keys() {
    let one = |kind| Conversion::One(kind);
    let each = |kind| Conversion::Each(kind);
    for key in ["Type", "Version", "Exec", "TryExec", "Path", "StartupWMClass", "URL"] {
        assert_eq!(select_conversion(&chars(key)), one(Scalar::PlainString), "{}", key);
    }
    for key in ["Name", "GenericName", "Comment"] {
        assert_eq!(select_conversion(&chars(key)), one(Scalar::LocaleString), "{}", key);
    }
    for key in [
        "NoDisplay",
        "Hidden",
        "Terminal",
        "StartupNotify",
        "PrefersNonDefaultGPU",
        "DBusActivatable",
    ] {
        assert_eq!(select_conversion(&chars(key)), one(Scalar::Boolean), "{}", key);
    }
    assert_eq!(select_conversion(&chars("Icon")), one(Scalar::IconString));
    assert_eq!(select_conversion(&chars("Keywords")), each(Scalar::LocaleString));
    for key in ["OnlyShowIn", "NotShowIn", "Actions", "MimeType", "Categories", "Implements"] {
        assert_eq!(select_conversion(&chars(key)), each(Scalar::PlainString), "{}", key);
    }
    for key in ["", "name", "Names", "X-GNOME-Autostart", "Terminal ", "Name[es]"] {
        assert_eq!(select_conversion(&chars(key)), Conversion::Probe, "{}", key);
    }
}

#[test]
fn boolean_keys_take_true_and_false_only() {
    for key in [
        "NoDisplay",
        "Hidden",
        "Terminal",
        "StartupNotify",
        "PrefersNonDefaultGPU",
        "DBusActivatable",
        "Terminal[de]",
        "Hidden[pt_BR]",
    ] {
        let line = format!("{}=true", key);
        assert_eq!(XdgDesktopValue::from_kv(&line), (key, Ok(XdgDesktopValue::Bool(true))));
        let line = format!("{}=false", key);
        assert_eq!(XdgDesktopValue::from_kv(&line), (key, Ok(XdgDesktopValue::Bool(false))));
        for other in ["", "True", "FALSE", "yes", "1", "0", " true", "true ", "true;", "truefalse"]
        {
            let line = format!("{}={}", key, other);
            assert_eq!(
                XdgDesktopValue::from_kv(&line),
                (key, Err(XdgParseError::ParseBoolError)),
                "{:?}",
                line
            );
        }
    }
}

#[test]
fn a_line_without_delimiter_is_its_own_key() {
    assert_eq!(
        XdgDesktopValue::from_kv("Terminal"),
        ("Terminal", Err(XdgParseError::Other("No delimiter found in line")))
    );
    assert_eq!(
        XdgDesktopValue::from_kv(""),
        ("", Err(XdgParseError::Other("No delimiter found in line")))
    );
}

#[test]
fn the_first_delimiter_ends_the_key() {
    assert_eq!(
        XdgDesktopValue::from_kv("Exec=env A=b run --x=1"),
        ("Exec", Ok(plain("env A=b run --x=1")))
    );
    assert_eq!(XdgDesktopValue::from_kv("=x"), ("", Ok(plain("x"))));
    assert_eq!(XdgDesktopValue::from_kv("Icon="), ("Icon", Ok(XdgDesktopValue::IconString(String::new()))));
    assert_eq!(XdgDesktopValue::from_kv("Größe=x"), ("Größe", Ok(plain("x"))));
}

#[test]
fn strings_are_taken_as_they_stand() {
    assert_eq!(XdgDesktopValue::from_kv("Type= Application "), ("Type", Ok(plain(" Application "))));
    assert_eq!(XdgDesktopValue::from_kv("Name=a;b"), ("Name", Ok(locale("a;b"))));
    assert_eq!(
        XdgDesktopValue::from_kv("Icon=utilities-terminal"),
        ("Icon", Ok(XdgDesktopValue::IconString("utilities-terminal".to_string())))
    );
}

#[test]
fn lists_of_plain_strings() {
    assert_eq!(
        XdgDesktopValue::from_kv("Categories=Utility;Development;"),
        ("Categories", Ok(XdgDesktopValue::List(vec![plain("Utility"), plain("Development")])))
    );
    assert_eq!(
        XdgDesktopValue::from_kv("MimeType=text/plain"),
        ("MimeType", Ok(XdgDesktopValue::List(vec![plain("text/plain")])))
    );
    assert_eq!(
        XdgDesktopValue::from_kv("Actions="),
        ("Actions", Ok(XdgDesktopValue::List(vec![plain("")])))
    );
    assert_eq!(
        XdgDesktopValue::from_kv("Actions=a;;b"),
        ("Actions", Ok(XdgDesktopValue::List(vec![plain("a"), plain(""), plain("b")])))
    );
}

#[test]
fn an_escaped_semicolon_does_not_split() {
    assert_eq!(
        XdgDesktopValue::from_kv("Categories=a\\;b;c"),
        ("Categories", Ok(XdgDesktopValue::List(vec![plain("a\\;b"), plain("c")])))
    );
    assert_eq!(
        XdgDesktopValue::from_kv("Categories=a\\\\;b"),
        ("Categories", Ok(XdgDesktopValue::List(vec![plain("a\\\\;b")])))
    );
    assert_eq!(
        XdgDesktopValue::from_kv("Categories=\\;"),
        ("Categories", Ok(XdgDesktopValue::List(vec![plain("\\;")])))
    );
}

#[test]
fn an_unknown_key_with_one_item_is_a_scalar() {
    assert_eq!(XdgDesktopValue::from_kv("X-Flag=true"), ("X-Flag", Ok(XdgDesktopValue::Bool(true))));
    assert_eq!(XdgDesktopValue::from_kv("X-Flag=false"), ("X-Flag", Ok(XdgDesktopValue::Bool(false))));
    assert_eq!(XdgDesktopValue::from_kv("X-Size=1.5"), ("X-Size", Ok(number("1.5"))));
    assert_eq!(XdgDesktopValue::from_kv("X-Size=-2e3"), ("X-Size", Ok(number("-2e3"))));
    assert_eq!(XdgDesktopValue::from_kv("X-Size=inf"), ("X-Size", Ok(number("inf"))));
    assert_eq!(XdgDesktopValue::from_kv("X-Name=True"), ("X-Name", Ok(plain("True"))));
    assert_eq!(XdgDesktopValue::from_kv("X-Name=1.5 kg"), ("X-Name", Ok(plain("1.5 kg"))));
    assert_eq!(XdgDesktopValue::from_kv("X-Name="), ("X-Name", Ok(plain(""))));
    assert_eq!(XdgDesktopValue::from_kv("X-Name=a\\;b"), ("X-Name", Ok(plain("a\\;b"))));
    // One item, closed by a separator: the item is what is read.
    assert_eq!(XdgDesktopValue::from_kv("X-Flag=true;"), ("X-Flag", Ok(XdgDesktopValue::Bool(true))));
    assert_eq!(XdgDesktopValue::from_kv("X-Name=abc;"), ("X-Name", Ok(plain("abc"))));
}

#[test]
fn an_unknown_key_with_several_items_is_a_list_of_one_kind() {
    assert_eq!(
        XdgDesktopValue::from_kv("X-Flags=true;false;true"),
        (
            "X-Flags",
            Ok(XdgDesktopValue::List(vec![
                XdgDesktopValue::Bool(true),
                XdgDesktopValue::Bool(false),
                XdgDesktopValue::Bool(true),
            ]))
        )
    );
    assert_eq!(
        XdgDesktopValue::from_kv("X-Sizes=1;2.5;.5e1;"),
        ("X-Sizes", Ok(XdgDesktopValue::List(vec![number("1"), number("2.5"), number(".5e1")])))
    );
    assert_eq!(
        XdgDesktopValue::from_kv("X-Mixed=true;1"),
        ("X-Mixed", Ok(XdgDesktopValue::List(vec![plain("true"), plain("1")])))
    );
    assert_eq!(
        XdgDesktopValue::from_kv("X-Mixed=1;x"),
        ("X-Mixed", Ok(XdgDesktopValue::List(vec![plain("1"), plain("x")])))
    );
    assert_eq!(
        XdgDesktopValue::from_kv("X-Mixed=;1"),
        ("X-Mixed", Ok(XdgDesktopValue::List(vec![plain(""), plain("1")])))
    );
}

#[test]
fn numbers_have_to_be_literals() {
    let numeric = Conversion::One(Scalar::Numeric);
    assert_eq!(read(numeric, "3.25"), Ok(number("3.25")));
    assert_eq!(read(numeric, "+7"), Ok(number("+7")));
    assert_eq!(read(numeric, "NaN"), Ok(number("NaN")));
    assert_eq!(read(numeric, ""), Err(XdgParseError::ParseFloatError(FloatErrorKind::Empty)));
    assert_eq!(read(numeric, "abc"), Err(XdgParseError::ParseFloatError(FloatErrorKind::Invalid)));
    assert_eq!(read(numeric, "1,5"), Err(XdgParseError::ParseFloatError(FloatErrorKind::Invalid)));
    assert_eq!(read(numeric, " 1"), Err(XdgParseError::ParseFloatError(FloatErrorKind::Invalid)));
}

#[test]
fn the_first_item_that_cannot_be_read_gives_the_error() {
    assert_eq!(
        read(Conversion::Each(Scalar::Numeric), "1;x;;2"),
        Err(XdgParseError::ParseFloatError(FloatErrorKind::Invalid))
    );
    assert_eq!(
        read(Conversion::Each(Scalar::Numeric), "1;;x"),
        Err(XdgParseError::ParseFloatError(FloatErrorKind::Empty))
    );
    assert_eq!(
        read(Conversion::Each(Scalar::Numeric), ";x"),
        Err(XdgParseError::ParseFloatError(FloatErrorKind::Empty))
    );
    assert_eq!(read(Conversion::Each(Scalar::Boolean), "true;no"), Err(XdgParseError::ParseBoolError));
    assert_eq!(
        read(Conversion::Each(Scalar::Boolean), "true;false;"),
        Ok(XdgDesktopValue::List(vec![XdgDesktopValue::Bool(true), XdgDesktopValue::Bool(false)]))
    );
}

#[test]
fn values_as_text() {
    assert_eq!(plain("a b").to_string(), "a b");
    assert_eq!(locale("Grüße").to_string(), "Grüße");
    assert_eq!(XdgDesktopValue::IconString("htop".to_string()).to_string(), "htop");
    assert_eq!(XdgDesktopValue::Bool(true).to_string(), "true");
    assert_eq!(XdgDesktopValue::Bool(false).to_string(), "false");
    assert_eq!(number("1e3").to_string(), "1e3");
    assert_eq!(XdgDesktopValue::List(vec![]).to_string(), "");
    assert_eq!(XdgDesktopValue::List(vec![plain("a")]).to_string(), "a;");
    assert_eq!(
        XdgDesktopValue::List(vec![plain("Utility"), plain("Development")]).to_string(),
        "Utility;Development;"
    );
    assert_eq!(
        XdgDesktopValue::List(vec![
            XdgDesktopValue::List(vec![XdgDesktopValue::Bool(true)]),
            number("2"),
        ])
        .to_string(),
        "true;;2;"
    );
}

#[test]
fn a_scalar_that_is_displayed_is_read_as_itself() {
    let cases = [
        (Conversion::One(Scalar::PlainString), "x;y\\"),
        (Conversion::One(Scalar::LocaleString), " Test App "),
        (Conversion::One(Scalar::IconString), "folder"),
        (Conversion::One(Scalar::Boolean), "true"),
        (Conversion::One(Scalar::Boolean), "false"),
        (Conversion::One(Scalar::Numeric), "-12.5E-3"),
        (Conversion::Probe, "true"),
        (Conversion::Probe, "42"),
        (Conversion::Probe, "forty-two"),
        (Conversion::Probe, "forty-two;"),
        (Conversion::Probe, "a\\;b"),
        (Conversion::Probe, ""),
    ];
    for (conversion, text) in cases {
        let value = read(conversion, text).unwrap();
        assert!(!matches!(value, XdgDesktopValue::List(_)));
        assert_eq!(read(conversion, &value.to_string()), Ok(value), "{:?}", text);
    }
}

#[test]
fn a_list_that_is_displayed_may_be_read_as_another() {
    let strings = Conversion::Each(Scalar::PlainString);
    // The `;` after the last item closes it: such a list is read as itself.
    let list = read(strings, "Utility;Development").unwrap();
    assert_eq!(list.to_string(), "Utility;Development;");
    assert_eq!(read(strings, &list.to_string()), Ok(list));
    // The empty list is displayed as the empty text, which is one empty item.
    let empty = XdgDesktopValue::List(vec![]);
    assert_eq!(empty.to_string(), "");
    assert_eq!(read(strings, &empty.to_string()), Ok(XdgDesktopValue::List(vec![plain("")])));
    // An item that ends in a backslash escapes the `;` that is put after it.
    let escaping = XdgDesktopValue::List(vec![plain("a\\"), plain("b")]);
    assert_eq!(escaping.to_string(), "a\\;b;");
    assert_eq!(read(strings, &escaping.to_string()), Ok(XdgDesktopValue::List(vec![plain("a\\;b")])));
}

#[test]
fn a_copy_is_equal() {
    let value = XdgDesktopValue::List(vec![
        plain("a"),
        locale("b"),
        XdgDesktopValue::IconString("c".to_string()),
        XdgDesktopValue::Bool(true),
        number("1"),
        XdgDesktopValue::List(vec![plain("d")]),
    ]);
    assert_eq!(value.clone(), value);
}

#[test]
fn errors_in_words() {
    assert_eq!(
        XdgParseError::ParseBoolError.to_string(),
        "x".parse::<bool>().unwrap_err().to_string()
    );
    assert_eq!(
        XdgParseError::ParseFloatError(FloatErrorKind::Empty).to_string(),
        "".parse::<f64>().unwrap_err().to_string()
    );
    assert_eq!(
        XdgParseError::ParseFloatError(FloatErrorKind::Invalid).to_string(),
        "x".parse::<f64>().unwrap_err().to_string()
    );
    assert_eq!(XdgParseError::Other("No delimiter found in line").to_string(), "No delimiter found in line");
    assert_eq!(XdgParseError::from("so"), XdgParseError::Other("so"));
}

#[test]
fn values_from_booleans_and_lists() {
    assert_eq!(XdgDesktopValue::from(true), XdgDesktopValue::Bool(true));
    assert_eq!(XdgDesktopValue::from(false), XdgDesktopValue::Bool(false));
    assert_eq!(
        XdgDesktopValue::from(vec![plain("a"), XdgDesktopValue::Bool(true)]),
        XdgDesktopValue::List(vec![plain("a"), XdgDesktopValue::Bool(true)])
    );
}
