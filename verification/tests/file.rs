use xdg_desktop::{XdgDesktopFile, XdgDesktopSection, XdgDesktopValue, XdgParseError};

fn plain(text: &str) -> XdgDesktopValue {
    XdgDesktopValue::String(text.to_string())
}

fn locale(text: &str) -> XdgDesktopValue {
    XdgDesktopValue::LocaleString(text.to_string())
}

fn headers(file: &XdgDesktopFile) -> Vec<&str> {
    file.sections().iter().map(|(header, _)| header.as_str()).collect()
}

fn keys(section: &XdgDesktopSection) -> Vec<&str> {
    section.entries().iter().map(|(key, _)| key.as_str()).collect()
}

const MISSING_HEADER: XdgParseError =
    XdgParseError::Other("File contains keys without section header");

#[test]
fn test_from_str() {
    let test_files = [
        "[Desktop Entry]\nType=Application\nTryExec=alacritty\nExec=alacritty\nIcon=Alacritty\nTerminal=false\nCategories=System;TerminalEmulator;\n\nName=Alacritty\nGenericName=Terminal\nComment=A fast, cross-platform, OpenGL terminal emulator\nStartupNotify=true\nStartupWMClass=Alacritty\nActions=New;\n\n[Desktop Action New]\nName=New Terminal\nExec=alacritty\n",
        "[Desktop Entry]\nType=Application\nVersion=1.0\nName=Htop\nGenericName=Process Viewer\nGenericName[de]=Prozessanzeige\nGenericName[sr@latin]=Prikaz procesa\nGenericName[zh_CN]=进程查看器\nComment=Show System Processes\nComment[pt_BR]=Mostra os Processos do Sistema\nIcon=htop\nExec=htop\nTerminal=true\nCategories=System;Monitor;ConsoleOnly;\nKeywords=system;process;task\n",
        "# zathura\r\n[Desktop Entry]\r\nVersion=1.0\r\nType=Application\r\nName=Zathura\r\nComment=A minimalistic document viewer\r\nComment[de]=Ein minimalistischer Dokumenten-Betrachter\r\nExec=zathura %U\r\nIcon=org.pwmt.zathura\r\nTerminal=false\r\nNoDisplay=true\r\nCategories=Office;Viewer;\r\nKeywords=PDF;PS;PostScript;DjVU;document;presentation;viewer;\r\nMimeType=application/pdf;application/postscript;\r\n",
    ];
    for f in &test_files {
        let parsed = XdgDesktopFile::from_str(f);
        assert!(parsed.is_ok());
        for grp in parsed.unwrap().sections() {
            assert!(!grp.1.entries().is_empty());
            for (_, v) in grp.1.entries().iter() {
                assert!(v.is_ok())
            }
        }
    }
}

#[test]
fn end_to_end_example() {
    let text = "[Desktop Entry]\nName=Test App\nTerminal=false\nCategories=Utility;Development;\n";
    let file = XdgDesktopFile::from_str(text).unwrap();
    assert_eq!(headers(&file), ["[Desktop Entry]"]);
    let section = file.get("[Desktop Entry]").unwrap();
    assert_eq!(keys(section), ["Name", "Terminal", "Categories"]);
    assert_eq!(section.get("Name"), Some(&Ok(locale("Test App"))));
    assert_eq!(section.get("Terminal"), Some(&Ok(XdgDesktopValue::Bool(false))));
    assert_eq!(
        section.get("Categories"),
        Some(&Ok(XdgDesktopValue::List(vec![plain("Utility"), plain("Development")])))
    );
    assert_eq!(section.get("Missing"), None);
    assert!(file.get("Desktop Entry").is_none());
}

#[test]
fn a_file_that_starts_with_a_header_can_be_read() {
    for text in [
        "",
        "\n\n",
        "# only a comment",
        "[Desktop Entry]",
        "[Desktop Entry]\nName=x",
        "# comment\n\n   \n[Desktop Entry]\nName=x\n",
        "[A]\n[B]\nKey=value",
    ] {
        assert!(XdgDesktopFile::from_str(text).is_ok(), "{:?}", text);
    }
}

#[test]
fn an_entry_before_the_first_header_makes_the_file_wrong() {
    for text in [
        "Name=x",
        "Name=x\n[Desktop Entry]\n",
        "# comment\n\nName=x\n[Desktop Entry]\nName=y\n",
        "no delimiter in this line\n[Desktop Entry]\n",
        " # a comment has to start at the start of its line\n[Desktop Entry]\n",
        "[Desktop Entry] \nName=x",
        "[\nName=x",
    ] {
        assert_eq!(XdgDesktopFile::from_str(text).err(), Some(MISSING_HEADER), "{:?}", text);
    }
}

#[test]
fn the_later_of_two_sections_with_one_header_stays() {
    let text = "[Desktop Entry]\nName=First\nExec=first\nIcon=one\n[Other]\nName=Between\n[Desktop Entry]\nName=Second\nExec=second\n";
    let file = XdgDesktopFile::from_str(text).unwrap();
    assert_eq!(headers(&file), ["[Desktop Entry]", "[Other]"]);
    let section = file.get("[Desktop Entry]").unwrap();
    assert_eq!(keys(section), ["Name", "Exec"]);
    assert_eq!(section.get("Name"), Some(&Ok(locale("Second"))));
    assert_eq!(section.get("Exec"), Some(&Ok(plain("second"))));
    assert_eq!(section.get("Icon"), None);
    assert_eq!(file.get("[Other]").unwrap().get("Name"), Some(&Ok(locale("Between"))));
}

#[test]
fn two_sections_with_one_header_that_follow_each_other() {
    let text = "[Desktop Entry]\nName=First\nIcon=one\n[Desktop Entry]\nName=Second\n";
    let file = XdgDesktopFile::from_str(text).unwrap();
    assert_eq!(file.len(), 1);
    let section = file.get("[Desktop Entry]").unwrap();
    assert_eq!(keys(section), ["Name"]);
    assert_eq!(section.get("Name"), Some(&Ok(locale("Second"))));
}

#[test]
fn the_later_of_two_entries_with_one_key_stays() {
    let text = "[Desktop Entry]\nName=First\nExec=run\nName=Second\n";
    let file = XdgDesktopFile::from_str(text).unwrap();
    let section = file.get("[Desktop Entry]").unwrap();
    assert_eq!(keys(section), ["Name", "Exec"]);
    assert_eq!(section.get("Name"), Some(&Ok(locale("Second"))));
}

#[test]
fn a_last_section_without_entries_is_dropped() {
    let file = XdgDesktopFile::from_str("[A]\nKey=1\n[B]\n# nothing\n\n").unwrap();
    assert_eq!(headers(&file), ["[A]"]);
    let file = XdgDesktopFile::from_str("[A]\n").unwrap();
    assert_eq!(file.len(), 0);
    assert!(file.sections().is_empty());
    // What stood under the header of the dropped section stays.
    let file = XdgDesktopFile::from_str("[A]\nKey=1\n[A]\n").unwrap();
    assert_eq!(keys(file.get("[A]").unwrap()), ["Key"]);
}

#[test]
fn a_section_without_entries_that_another_follows_is_kept() {
    let file = XdgDesktopFile::from_str("[A]\n[B]\nKey=1\n").unwrap();
    assert_eq!(headers(&file), ["[A]", "[B]"]);
    assert!(file.get("[A]").unwrap().is_empty());
    assert_eq!(file.get("[A]").unwrap().len(), 0);
    // It takes the place of a section with the same header.
    let file = XdgDesktopFile::from_str("[A]\nKey=1\n[A]\n[B]\nKey=2\n").unwrap();
    assert!(file.get("[A]").unwrap().is_empty());
}

#[test]
fn a_value_that_cannot_be_read_stops_nothing() {
    let text = "[Desktop Entry]\nTerminal=maybe\nno delimiter\nName=App\n[x]y\n";
    let file = XdgDesktopFile::from_str(text).unwrap();
    let section = file.get("[Desktop Entry]").unwrap();
    assert_eq!(keys(section), ["Terminal", "no delimiter", "Name", "[x]y"]);
    assert_eq!(section.get("Terminal"), Some(&Err(XdgParseError::ParseBoolError)));
    assert_eq!(
        section.get("no delimiter"),
        Some(&Err(XdgParseError::Other("No delimiter found in line")))
    );
    assert_eq!(
        section.get("[x]y"),
        Some(&Err(XdgParseError::Other("No delimiter found in line")))
    );
    assert_eq!(section.get("Name"), Some(&Ok(locale("App"))));
}

#[test]
fn a_file_may_have_no_value_that_can_be_read() {
    let file = XdgDesktopFile::from_str("[Desktop Entry]\nTerminal=\nHidden=yes\nbroken\n").unwrap();
    let section = file.get("[Desktop Entry]").unwrap();
    assert_eq!(section.len(), 3);
    assert!(section.entries().iter().all(|(_, outcome)| outcome.is_err()));
}

#[test]
fn headers_are_kept_with_their_brackets() {
    let file = XdgDesktopFile::from_str("[Desktop Action New Window]\nName=x\n[]\nName=y\n[a]b]\nName=z").unwrap();
    assert_eq!(headers(&file), ["[Desktop Action New Window]", "[]", "[a]b]"]);
}

#[test]
fn keys_with_qualifiers_are_entries_of_their_own() {
    let file = XdgDesktopFile::from_str("[Desktop Entry]\nName=Files\nName[de]=Dateien\nName[fr]=Fichiers\n").unwrap();
    let section = file.get("[Desktop Entry]").unwrap();
    assert_eq!(keys(section), ["Name", "Name[de]", "Name[fr]"]);
    assert_eq!(section.get("Name[de]"), Some(&Ok(locale("Dateien"))));
}

#[test]
fn line_ends() {
    let file = XdgDesktopFile::from_str("[Desktop Entry]\r\nName=a\r\nExec=b\rc\nIcon=d\r").unwrap();
    let section = file.get("[Desktop Entry]").unwrap();
    assert_eq!(section.get("Name"), Some(&Ok(locale("a"))));
    assert_eq!(section.get("Exec"), Some(&Ok(plain("b\rc"))));
    assert_eq!(section.get("Icon"), Some(&Ok(XdgDesktopValue::IconString("d\r".to_string()))));
}
