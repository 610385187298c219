//! A desktop-entry file: sections of entries, read from one text.

use vstd::prelude::*;
use crate::lines::{classify, kind_of, lines, split_lines, LineKind};
use crate::table::{
    as_map,
    distinct_keys,
    lemma_map_pairs,
    lemma_map_pairs_with,
    lemma_with,
    map_pairs,
    Table,
};
use crate::text::{chars_of, string_of, string_of_range, views};
use crate::xdg_desktop_value::{entry, outcome_view, parse_entry, Outcome, XdgDesktopValue};
use crate::xdg_parse_error::{XdgParseError, NO_SECTION_HEADER};

verus! {

/// What a section stands for: a map from the keys of its entries to their
/// outcomes.
pub type SectionView = Map<Seq<char>, Outcome>;

/// What a file stands for: a map from the headers of its sections to the
/// sections.
pub type FileView = Map<Seq<char>, SectionView>;

/// The entries of one section. Each key stands once.
pub struct XdgDesktopSection {
    table: Table<Result<XdgDesktopValue, XdgParseError>>,
}

/// The pairs of `entries`: each key as the text that it holds, with what
/// its outcome stands for.
pub open spec fn entry_views(
    entries: Seq<(String, Result<XdgDesktopValue, XdgParseError>)>,
) -> Seq<(Seq<char>, Outcome)> {
    Seq::new(entries.len(), |i: int| (entries[i].0@, outcome_view(entries[i].1)))
}

impl XdgDesktopSection {
    /// The entries of the section, in the order in which their keys first
    /// came.
    pub closed spec fn pairs(&self) -> Seq<(Seq<char>, Outcome)> {
        map_pairs(
            self.table.pairs(),
            |r: Result<XdgDesktopValue, XdgParseError>| outcome_view(r),
        )
    }

    /// No key stands twice.
    pub closed spec fn wf(&self) -> bool {
        self.table.wf()
    }

    /// In a well-formed section no key stands twice.
    pub proof fn lemma_wf(&self)
        requires
            self.wf(),
        ensures
            distinct_keys(self.pairs()),
    {
        lemma_map_pairs(
            self.table.pairs(),
            |r: Result<XdgDesktopValue, XdgParseError>| outcome_view(r),
        );
    }

    /// A section without entries.
    pub(crate) fn new() -> (section: XdgDesktopSection)
        ensures
            section.wf(),
            section@ == Map::<Seq<char>, Outcome>::empty(),
    {
        let section = XdgDesktopSection { table: Table::new() };
        assert(section.pairs() == Seq::<(Seq<char>, Outcome)>::empty());
        assert(section@ =~= Map::<Seq<char>, Outcome>::empty());
        section
    }

    /// Whether the section has no entry.
    pub fn is_empty(&self) -> (r: bool)
        requires
            self.wf(),
        ensures
            r == (self@ == Map::<Seq<char>, Outcome>::empty()),
    {
        proof {
            crate::table::lemma_as_map_empty(self.pairs());
        }
        self.table.is_empty()
    }

    /// The number of entries.
    pub fn len(&self) -> (n: usize)
        requires
            self.wf(),
        ensures
            n == self.pairs().len(),
            n == self@.dom().len(),
    {
        proof {
            self.lemma_wf();
            crate::table::lemma_as_map_len(self.pairs());
        }
        self.table.len()
    }

    /// Puts `outcome` under `key`; what stood under `key` is gone.
    pub(crate) fn insert(&mut self, key: String, outcome: Result<XdgDesktopValue, XdgParseError>)
        requires
            old(self).wf(),
        ensures
            final(self).wf(),
            final(self)@ == old(self)@.insert(key@, outcome_view(outcome)),
    {
        proof {
            let f = |r: Result<XdgDesktopValue, XdgParseError>| outcome_view(r);
            lemma_map_pairs(self.table.pairs(), f);
            lemma_map_pairs_with(self.table.pairs(), f, key@, outcome);
            lemma_with(self.pairs(), key@, outcome_view(outcome));
        }
        self.table.insert(key, outcome);
    }

    /// The outcome of the entry with the key `key`, if there is one.
    pub fn get(&self, key: &str) -> (outcome: Option<&Result<XdgDesktopValue, XdgParseError>>)
        requires
            self.wf(),
        ensures
            outcome is Some == self@.contains_key(key@),
            outcome matches Some(r) ==> outcome_view(*r) == self@[key@],
    {
        proof {
            lemma_map_pairs(
                self.table.pairs(),
                |r: Result<XdgDesktopValue, XdgParseError>| outcome_view(r),
            );
        }
        self.table.get(key)
    }

    /// The entries, each key once.
    pub fn entries(&self) -> (entries: &Vec<(String, Result<XdgDesktopValue, XdgParseError>)>)
        requires
            self.wf(),
        ensures
            distinct_keys(entry_views(entries@)),
            as_map(entry_views(entries@)) == self@,
    {
        let entries = self.table.entries();
        proof {
            self.lemma_wf();
            assert(entry_views(entries@) =~= self.pairs());
        }
        entries
    }
}

impl View for XdgDesktopSection {
    type V = SectionView;

    open spec fn view(&self) -> SectionView {
        as_map(self.pairs())
    }
}

/// How far a file has been read.
pub struct Reading {
    /// The sections that are closed.
    pub sections: FileView,
    /// The header of the section that is open, if one is.
    pub header: Option<Seq<char>>,
    /// The entries that the open section has so far.
    pub entries: SectionView,
}

/// Nothing read yet: no section is closed and none is open.
pub open spec fn start() -> Reading {
    Reading { sections: Map::empty(), header: None, entries: Map::empty() }
}

/// The sections that are closed once the open section is closed too. The
/// open section takes the place of a closed one with the same header.
pub open spec fn all_closed(state: Reading) -> FileView {
    match state.header {
        Some(header) => state.sections.insert(header, state.entries),
        None => state.sections,
    }
}

/// The state after `line` has been read in `state`. A comment changes
/// nothing. A section header closes the open section and opens an empty one
/// under the whole line, brackets included. An entry joins the open
/// section, in the place of an entry with the same key; where no section is
/// open, the file is wrong.
pub open spec fn read_line(state: Reading, line: Seq<char>) -> Result<Reading, XdgParseError> {
    match kind_of(line) {
        LineKind::Comment => Ok(state),
        LineKind::SectionHeader => Ok(
            Reading { sections: all_closed(state), header: Some(line), entries: Map::empty() },
        ),
        LineKind::Entry => if state.header is None {
            Err(XdgParseError::Other(NO_SECTION_HEADER))
        } else {
            Ok(
                Reading {
                    sections: state.sections,
                    header: state.header,
                    entries: state.entries.insert(entry(line).0, entry(line).1),
                },
            )
        },
    }
}

/// The state after `lines` have been read one after the other, or the error
/// of the first line that cannot be read.
pub open spec fn read_lines(lines: Seq<Seq<char>>) -> Result<Reading, XdgParseError>
    decreases lines.len(),
{
    if lines.len() == 0 {
        Ok(start())
    } else {
        match read_lines(lines.drop_last()) {
            Err(e) => Err(e),
            Ok(state) => read_line(state, lines.last()),
        }
    }
}

/// The sections of a file that has been read to its end: the open section
/// is closed if it has an entry, and dropped if it has none.
pub open spec fn finished(state: Reading) -> FileView {
    if state.entries == Map::<Seq<char>, Outcome>::empty() {
        state.sections
    } else {
        all_closed(state)
    }
}

/// What `text` is as a desktop-entry file.
pub open spec fn parsed(text: Seq<char>) -> Result<FileView, XdgParseError> {
    match read_lines(lines(text)) {
        Ok(state) => Ok(finished(state)),
        Err(e) => Err(e),
    }
}

/// Where the first `n` lines cannot be read, their error is the error of
/// all the lines.
pub proof fn lemma_first_error_stays(lines: Seq<Seq<char>>, n: int)
    requires
        0 <= n <= lines.len(),
        read_lines(lines.take(n)) is Err,
    ensures
        read_lines(lines) == read_lines(lines.take(n)),
    decreases lines.len() - n,
{
    if n < lines.len() {
        assert(lines.take(n + 1).drop_last() == lines.take(n));
        lemma_first_error_stays(lines, n + 1);
    } else {
        assert(lines.take(n) == lines);
    }
}

/// Whether the first line of `lines` that is no comment is an entry.
pub open spec fn starts_with_entry(lines: Seq<Seq<char>>) -> bool {
    exists|i: int|
        {
            &&& 0 <= i < lines.len()
            &&& kind_of(#[trigger] lines[i]) == LineKind::Entry
            &&& forall|j: int| 0 <= j < i ==> kind_of(#[trigger] lines[j]) == LineKind::Comment
        }
}

/// Lines can be read if and only if no entry stands before the first
/// section header: the first line that is no comment, if there is one, has
/// to be a section header. Nothing else makes a file wrong, and the error
/// says so.
pub proof fn lemma_structure(lines: Seq<Seq<char>>)
    ensures
        read_lines(lines) is Err <==> starts_with_entry(lines),
        read_lines(lines) matches Err(e) ==> e == XdgParseError::Other(NO_SECTION_HEADER),
        read_lines(lines) matches Ok(state) ==> (state.header is None <==> forall|j: int|
            0 <= j < lines.len() ==> kind_of(#[trigger] lines[j]) == LineKind::Comment),
    decreases lines.len(),
{
    if lines.len() > 0 {
        let shorter = lines.drop_last();
        let n = shorter.len() as int;
        lemma_structure(shorter);
        assert forall|j: int| 0 <= j < n implies lines[j] == shorter[j] by {}
        if starts_with_entry(shorter) {
            let i = choose|i: int|
                {
                    &&& 0 <= i < shorter.len()
                    &&& kind_of(#[trigger] shorter[i]) == LineKind::Entry
                    &&& forall|j: int|
                        0 <= j < i ==> kind_of(#[trigger] shorter[j]) == LineKind::Comment
                };
            assert(kind_of(lines[i]) == LineKind::Entry);
            assert forall|j: int| 0 <= j < i implies kind_of(#[trigger] lines[j])
                == LineKind::Comment by {
                assert(lines[j] == shorter[j]);
            }
            assert(starts_with_entry(lines));
        } else {
            let state = read_lines(shorter)->Ok_0;
            if starts_with_entry(lines) {
                let i = choose|i: int|
                    {
                        &&& 0 <= i < lines.len()
                        &&& kind_of(#[trigger] lines[i]) == LineKind::Entry
                        &&& forall|j: int|
                            0 <= j < i ==> kind_of(#[trigger] lines[j]) == LineKind::Comment
                    };
                if i < n {
                    assert(kind_of(shorter[i]) == LineKind::Entry);
                    assert forall|j: int| 0 <= j < i implies kind_of(#[trigger] shorter[j])
                        == LineKind::Comment by {
                        assert(lines[j] == shorter[j]);
                    }
                    assert(false);
                }
                assert forall|j: int| 0 <= j < n implies kind_of(#[trigger] shorter[j])
                    == LineKind::Comment by {
                    assert(lines[j] == shorter[j]);
                }
                assert(state.header is None);
            }
            if kind_of(lines.last()) == LineKind::Entry && state.header is None {
                assert forall|j: int| 0 <= j < n implies kind_of(#[trigger] lines[j])
                    == LineKind::Comment by {
                    assert(lines[j] == shorter[j]);
                }
                assert(kind_of(lines[n]) == LineKind::Entry);
                assert(starts_with_entry(lines));
            }
            if read_lines(lines) is Ok {
                let after = read_lines(lines)->Ok_0;
                if after.header is None {
                    assert(kind_of(lines.last()) == LineKind::Comment);
                    assert forall|j: int| 0 <= j < lines.len() implies kind_of(
                        #[trigger] lines[j],
                    ) == LineKind::Comment by {
                        if j < n {
                            assert(lines[j] == shorter[j]);
                        }
                    }
                } else if forall|j: int|
                    0 <= j < lines.len() ==> kind_of(#[trigger] lines[j]) == LineKind::Comment {
                    assert(kind_of(lines[n]) == LineKind::Comment);
                    assert forall|j: int| 0 <= j < n implies kind_of(#[trigger] shorter[j])
                        == LineKind::Comment by {
                        assert(lines[j] == shorter[j]);
                    }
                }
            }
        }
    }
}

/// The entries among `lines`, each put under its key in the order of the
/// lines: of two entries with the same key the later one stays.
pub open spec fn entries_of(lines: Seq<Seq<char>>) -> SectionView
    decreases lines.len(),
{
    if lines.len() == 0 {
        Map::empty()
    } else {
        let before = entries_of(lines.drop_last());
        if kind_of(lines.last()) == LineKind::Entry {
            before.insert(entry(lines.last()).0, entry(lines.last()).1)
        } else {
            before
        }
    }
}

/// Whether none of `lines` is a section header.
pub open spec fn holds_no_header(lines: Seq<Seq<char>>) -> bool {
    forall|i: int| 0 <= i < lines.len() ==> kind_of(#[trigger] lines[i]) != LineKind::SectionHeader
}

/// Reading a section: after lines that can be read, a section header and
/// lines without another header leave what came before closed, and the
/// section open with the entries among its lines.
pub proof fn lemma_section(before: Seq<Seq<char>>, header: Seq<char>, body: Seq<Seq<char>>)
    requires
        read_lines(before) is Ok,
        kind_of(header) == LineKind::SectionHeader,
        holds_no_header(body),
    ensures
        read_lines(before + seq![header] + body) == Ok::<Reading, XdgParseError>(
            Reading {
                sections: all_closed(read_lines(before)->Ok_0),
                header: Some(header),
                entries: entries_of(body),
            },
        ),
    decreases body.len(),
{
    let all = before + seq![header] + body;
    if body.len() == 0 {
        assert(all.drop_last() == before);
        assert(all.last() == header);
    } else {
        let shorter = body.drop_last();
        assert(holds_no_header(shorter)) by {
            assert forall|i: int| 0 <= i < shorter.len() implies kind_of(#[trigger] shorter[i])
                != LineKind::SectionHeader by {
                assert(shorter[i] == body[i]);
            }
        }
        lemma_section(before, header, shorter);
        assert(all.drop_last() == before + seq![header] + shorter);
        assert(all.last() == body.last());
        assert(kind_of(body[body.len() - 1]) != LineKind::SectionHeader);
    }
}

/// The later of two sections with one header wins. Where the last section
/// of a file has an entry, the file has, under the header of that section,
/// the entries of that section and no others, whatever stood under the same
/// header before; every other section is as it was closed before. Where the
/// last section has no entry, it is dropped, and what stood under its
/// header before stays.
pub proof fn lemma_later_section_wins(
    before: Seq<Seq<char>>,
    header: Seq<char>,
    body: Seq<Seq<char>>,
)
    requires
        read_lines(before) is Ok,
        kind_of(header) == LineKind::SectionHeader,
        holds_no_header(body),
    ensures
        read_lines(before + seq![header] + body) matches Ok(state) && finished(state) == if entries_of(
            body,
        ) == Map::<Seq<char>, Outcome>::empty() {
            all_closed(read_lines(before)->Ok_0)
        } else {
            all_closed(read_lines(before)->Ok_0).insert(header, entries_of(body))
        },
{
    lemma_section(before, header, body);
}

/// A desktop-entry file: its sections, each under its header. Each header
/// stands once.
pub struct XdgDesktopFile {
    sections: Table<XdgDesktopSection>,
}

/// The pairs of `sections`: each header as the text that it holds, with
/// what its section stands for.
pub open spec fn section_views(sections: Seq<(String, XdgDesktopSection)>) -> Seq<
    (Seq<char>, SectionView),
> {
    Seq::new(sections.len(), |i: int| (sections[i].0@, sections[i].1@))
}

/// What an optional string holds.
pub open spec fn optional_text(text: Option<String>) -> Option<Seq<char>> {
    match text {
        Some(text) => Some(text@),
        None => None,
    }
}

/// Whether each section of `table` is well-formed, and no header stands
/// twice.
spec fn sections_wf(table: Table<XdgDesktopSection>) -> bool {
    &&& table.wf()
    &&& forall|i: int| 0 <= i < table.pairs().len() ==> (#[trigger] table.pairs()[i]).1.wf()
}

/// What the sections of `table` stand for, in their order.
spec fn section_pairs(table: Table<XdgDesktopSection>) -> Seq<(Seq<char>, SectionView)> {
    map_pairs(table.pairs(), |section: XdgDesktopSection| section@)
}

/// Closes `entries` under `header` in `sections`.
fn close(sections: &mut Table<XdgDesktopSection>, header: String, entries: XdgDesktopSection)
    requires
        sections_wf(*old(sections)),
        entries.wf(),
    ensures
        sections_wf(*final(sections)),
        as_map(section_pairs(*final(sections))) == as_map(section_pairs(*old(sections))).insert(
            header@,
            entries@,
        ),
{
    proof {
        let f = |section: XdgDesktopSection| section@;
        lemma_map_pairs(sections.pairs(), f);
        lemma_map_pairs_with(sections.pairs(), f, header@, entries);
        lemma_with(section_pairs(*sections), header@, entries@);
        lemma_with(sections.pairs(), header@, entries);
    }
    let ghost before = sections.pairs();
    sections.insert(header, entries);
    assert forall|i: int| 0 <= i < sections.pairs().len() implies (
    #[trigger] sections.pairs()[i]).1.wf() by {
        if i < before.len() && sections.pairs()[i] == before[i] {
            assert(before[i].1.wf());
        }
    }
}

impl XdgDesktopFile {
    /// The sections of the file, in the order in which their headers first
    /// came.
    pub closed spec fn pairs(&self) -> Seq<(Seq<char>, SectionView)> {
        section_pairs(self.sections)
    }

    /// No header stands twice, and each section is well-formed.
    pub closed spec fn wf(&self) -> bool {
        sections_wf(self.sections)
    }

    /// In a well-formed file no header stands twice.
    pub proof fn lemma_wf(&self)
        requires
            self.wf(),
        ensures
            distinct_keys(self.pairs()),
    {
        lemma_map_pairs(self.sections.pairs(), |section: XdgDesktopSection| section@);
    }

    /// Reads `s` as a desktop-entry file. The text is read line by line.
    /// The file is wrong, and nothing comes of it, where an entry stands
    /// before the first section header; a value that cannot be read is the
    /// outcome of its entry and stops nothing.
    pub fn from_str(s: &str) -> (r: Result<XdgDesktopFile, XdgParseError>)
        ensures
            match r {
                Ok(file) => file.wf() && parsed(s@) == Ok::<FileView, XdgParseError>(file@),
                Err(e) => parsed(s@) == Err::<FileView, XdgParseError>(e),
            },
            r is Err <==> starts_with_entry(lines(s@)),
            r matches Err(e) ==> e == XdgParseError::Other(NO_SECTION_HEADER),
    {
        let text = chars_of(s);
        let lines = split_lines(text.as_slice());
        let mut sections: Table<XdgDesktopSection> = Table::new();
        let mut header: Option<String> = None;
        let mut entries = XdgDesktopSection::new();
        let mut i: usize = 0;
        assert(views(lines@).take(0).len() == 0);
        assert(section_pairs(sections) == Seq::<(Seq<char>, SectionView)>::empty());
        assert(as_map(section_pairs(sections)) =~= Map::<Seq<char>, SectionView>::empty());
        while i < lines.len()
            invariant
                i <= lines.len(),
                views(lines@) == crate::lines::lines(s@),
                sections_wf(sections),
                entries.wf(),
                read_lines(views(lines@).take(i as int)) == Ok::<Reading, XdgParseError>(
                    Reading {
                        sections: as_map(section_pairs(sections)),
                        header: optional_text(header),
                        entries: entries@,
                    },
                ),
            decreases lines.len() - i,
        {
            let line = lines[i].as_slice();
            assert(views(lines@).take(i + 1).drop_last() == views(lines@).take(i as int));
            assert(views(lines@).take(i + 1).last() == line@);
            match classify(line) {
                LineKind::Comment => {},
                LineKind::SectionHeader => {
                    match header {
                        Some(name) => {
                            close(&mut sections, name, entries);
                        },
                        None => {},
                    }
                    entries = XdgDesktopSection::new();
                    header = Some(string_of(line));
                },
                LineKind::Entry => {
                    if header.is_none() {
                        proof {
                            lemma_first_error_stays(views(lines@), i + 1);
                            lemma_structure(views(lines@));
                        }
                        return Err(XdgParseError::Other(NO_SECTION_HEADER));
                    }
                    let (key_len, outcome) = parse_entry(line);
                    entries.insert(string_of_range(line, 0, key_len), outcome);
                },
            }
            i += 1;
        }
        assert(views(lines@).take(lines@.len() as int) == views(lines@));
        proof {
            lemma_structure(views(lines@));
        }
        if !entries.is_empty() {
            match header {
                Some(name) => {
                    close(&mut sections, name, entries);
                },
                None => {},
            }
        }
        Ok(XdgDesktopFile { sections })
    }

    /// The number of sections.
    pub fn len(&self) -> (n: usize)
        requires
            self.wf(),
        ensures
            n == self.pairs().len(),
            n == self@.dom().len(),
    {
        proof {
            self.lemma_wf();
            crate::table::lemma_as_map_len(self.pairs());
        }
        self.sections.len()
    }

    /// The section under the header `header`, if there is one.
    pub fn get(&self, header: &str) -> (section: Option<&XdgDesktopSection>)
        requires
            self.wf(),
        ensures
            section is Some == self@.contains_key(header@),
            section matches Some(found) ==> found.wf() && found@ == self@[header@],
    {
        proof {
            lemma_map_pairs(self.sections.pairs(), |section: XdgDesktopSection| section@);
        }
        let found = self.sections.get(header);
        proof {
            if found is Some {
                let at = crate::table::position_of(self.sections.pairs(), header@);
                crate::table::lemma_as_map_at(self.sections.pairs(), at);
            }
        }
        found
    }

    /// The sections with their headers, each header once.
    pub fn sections(&self) -> (sections: &Vec<(String, XdgDesktopSection)>)
        requires
            self.wf(),
        ensures
            distinct_keys(section_views(sections@)),
            as_map(section_views(sections@)) == self@,
            forall|i: int| 0 <= i < sections@.len() ==> (#[trigger] sections@[i]).1.wf(),
    {
        let sections = self.sections.entries();
        proof {
            self.lemma_wf();
            assert(section_views(sections@) =~= self.pairs());
            assert forall|i: int| 0 <= i < sections@.len() implies (#[trigger] sections@[i]).1.wf() by {
                assert(self.sections.pairs()[i].1 == sections@[i].1);
            }
        }
        sections
    }
}

impl View for XdgDesktopFile {
    type V = FileView;

    open spec fn view(&self) -> FileView {
        as_map(self.pairs())
    }
}

} // verus!
