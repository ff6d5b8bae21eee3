//! The configuration file as an ordered list of lines.
//!
//! A document keeps every line verbatim. Lines are grouped into sections by
//! the headers above them, and only lines of a section that a caller asks
//! about are ever interpreted as settings.
//!
//! There are two ways to write a setting. `set` rewrites the line that
//! decides it, or appends a line at the very end of the document, whatever
//! section is open there. `store` does the same but makes sure that an
//! appended line belongs to the section, by opening the section at the end
//! where it is not open already.

use crate::text::{
    append_bytes, byte_is_space, back_spaces, bytes_eq, CLOSE_BRACKET, copy_range, count_byte, count_of, EQUALS,
    HASH, index_of, join_lines, lemma_count_concat, lemma_count_none, lemma_index_from,
    lemma_join_split, lemma_split_lines, lemma_trim, lemma_trim_tight, lemma_without_none,
    LINE_FEED, line_views, lower_seq, no_byte, NUL, OPEN_BRACKET, position_of, remove_byte,
    SEMICOLON, single_lines, skip_spaces, SPACE, split_into_lines, split_lines, tight, to_lower,
    trim, trim_bounds, trimmed, without,
};
use crate::defaults::{
    credential_key_bytes, endpoint_bytes, minimal_document, minimal_lines, rate_key_bytes,
    rate_value_bytes, settings_header_bytes, url_key_bytes,
};
use vstd::prelude::*;

verus! {

/// What a line is, taken by itself.
#[derive(Clone, Copy, Debug, PartialEq, Eq, Structural)]
pub enum LineKind {
    /// Nothing but whitespace.
    Blank,
    /// The first byte after leading whitespace is `#` or `;`.
    Comment,
    /// `[name]`, with whitespace allowed around it.
    Header,
    /// Exactly one `=`.
    Setting,
    /// Anything else: no `=`, or more than one.
    Malformed,
}

/// The kind of a line.
pub open spec fn line_kind(line: Seq<u8>) -> LineKind {
    let t = trim(line);
    if t.len() == 0 {
        LineKind::Blank
    } else if t[0] == OPEN_BRACKET && t.last() == CLOSE_BRACKET {
        LineKind::Header
    } else if t[0] == HASH || t[0] == SEMICOLON {
        LineKind::Comment
    } else if count_byte(line, EQUALS) == 1 {
        LineKind::Setting
    } else {
        LineKind::Malformed
    }
}

/// The section that a header line opens: what stands between the
/// brackets, lower-cased.
pub open spec fn header_name(line: Seq<u8>) -> Seq<u8> {
    let t = trim(line);
    lower_seq(t.subrange(1, t.len() - 1))
}

/// The key of a setting line: what stands before the `=`, trimmed.
pub open spec fn setting_key(line: Seq<u8>) -> Seq<u8> {
    trim(line.subrange(0, index_of(line, EQUALS)))
}

/// The value of a setting line: what stands after the `=`, trimmed and
/// then freed of NUL bytes.
pub open spec fn setting_value(line: Seq<u8>) -> Seq<u8> {
    if index_of(line, EQUALS) < line.len() {
        without(trim(line.subrange(index_of(line, EQUALS) + 1, line.len() as int)), NUL)
    } else {
        Seq::<u8>::empty()
    }
}

/// The kind of a line.
pub fn classify_line(line: &[u8]) -> (kind: LineKind)
    ensures
        kind == line_kind(line@),
{
    let (lo, hi) = trim_bounds(line);
    if lo == hi {
        LineKind::Blank
    } else if line[lo] == OPEN_BRACKET && line[hi - 1] == CLOSE_BRACKET {
        LineKind::Header
    } else if line[lo] == HASH || line[lo] == SEMICOLON {
        LineKind::Comment
    } else if count_of(line, EQUALS) == 1 {
        LineKind::Setting
    } else {
        LineKind::Malformed
    }
}

/// The section that a header line opens.
pub fn section_name(line: &[u8]) -> (name: Vec<u8>)
    requires
        line_kind(line@) is Header,
    ensures
        name@ == header_name(line@),
{
    let (lo, hi) = trim_bounds(line);
    let inner = copy_range(line, lo + 1, hi - 1);
    to_lower(inner.as_slice())
}

/// The key of a setting line.
pub fn key_of(line: &[u8]) -> (key: Vec<u8>)
    ensures
        key@ == setting_key(line@),
{
    let at = position_of(line, EQUALS);
    let before = copy_range(line, 0, at);
    trimmed(before.as_slice())
}

/// The value of a setting line.
pub fn value_of(line: &[u8]) -> (value: Vec<u8>)
    ensures
        value@ == setting_value(line@),
{
    let at = position_of(line, EQUALS);
    if at < line.len() {
        let after = copy_range(line, at + 1, line.len());
        let inner = trimmed(after.as_slice());
        remove_byte(inner.as_slice(), NUL)
    } else {
        Vec::new()
    }
}

/// The section that line `i` belongs to: the one opened by the nearest
/// header above it. Lines above the first header belong to none.
pub open spec fn section_at(lines: Seq<Seq<u8>>, i: int) -> Option<Seq<u8>>
    decreases i,
{
    if i <= 0 || i > lines.len() {
        None
    } else if line_kind(lines[i - 1]) is Header {
        Some(header_name(lines[i - 1]))
    } else {
        section_at(lines, i - 1)
    }
}

/// Line `i` belongs to `section`; section names are compared without
/// regard to case.
pub open spec fn in_section(lines: Seq<Seq<u8>>, section: Seq<u8>, i: int) -> bool {
    section_at(lines, i) == Some(lower_seq(section))
}

/// Line `i` is a malformed line of `section`.
pub open spec fn malformed_at(lines: Seq<Seq<u8>>, section: Seq<u8>, i: int) -> bool {
    0 <= i < lines.len() && in_section(lines, section, i) && line_kind(lines[i]) is Malformed
}

/// Line `i` is a setting line of `section` for `key`.
pub open spec fn holds_key(lines: Seq<Seq<u8>>, section: Seq<u8>, key: Seq<u8>, i: int) -> bool {
    0 <= i < lines.len() && in_section(lines, section, i) && line_kind(lines[i]) is Setting
        && setting_key(lines[i]) == key
}

/// The malformed lines of `section` among the first `n` lines, in file
/// order.
pub open spec fn malformed_below(lines: Seq<Seq<u8>>, section: Seq<u8>, n: int) -> Seq<int>
    decreases n,
{
    if n <= 0 {
        Seq::<int>::empty()
    } else if malformed_at(lines, section, n - 1) {
        malformed_below(lines, section, n - 1).push(n - 1)
    } else {
        malformed_below(lines, section, n - 1)
    }
}

/// The first malformed line of `section` at or after line `i`.
pub open spec fn malformed_from(lines: Seq<Seq<u8>>, section: Seq<u8>, i: int) -> Option<int>
    decreases lines.len() - i,
{
    if i < 0 || i >= lines.len() {
        None
    } else if malformed_at(lines, section, i) {
        Some(i)
    } else {
        malformed_from(lines, section, i + 1)
    }
}

/// The first malformed line of `section`.
pub open spec fn first_malformed(lines: Seq<Seq<u8>>, section: Seq<u8>) -> Option<int> {
    malformed_from(lines, section, 0)
}

/// The last setting line of `section` for `key` among the first `n` lines.
pub open spec fn last_holding(lines: Seq<Seq<u8>>, section: Seq<u8>, key: Seq<u8>, n: int) -> Option<int>
    decreases n,
{
    if n <= 0 || n > lines.len() {
        None
    } else if holds_key(lines, section, key, n - 1) {
        Some(n - 1)
    } else {
        last_holding(lines, section, key, n - 1)
    }
}

/// The line that decides the setting `key` of `section`: the last one.
pub open spec fn position(lines: Seq<Seq<u8>>, section: Seq<u8>, key: Seq<u8>) -> Option<int> {
    last_holding(lines, section, key, lines.len() as int)
}

/// What `last_holding` picks: the greatest index below `n` that holds the
/// key, and none where no line below `n` holds it.
pub proof fn lemma_last_holding(lines: Seq<Seq<u8>>, section: Seq<u8>, key: Seq<u8>, n: int)
    requires
        0 <= n <= lines.len(),
    ensures
        match last_holding(lines, section, key, n) {
            Some(i) => 0 <= i < n && holds_key(lines, section, key, i) && forall|j: int|
                i < j < n ==> !holds_key(lines, section, key, j),
            None => forall|j: int| 0 <= j < n ==> !holds_key(lines, section, key, j),
        },
    decreases n,
{
    if n > 0 && !holds_key(lines, section, key, n - 1) {
        lemma_last_holding(lines, section, key, n - 1);
    }
}

/// What `malformed_from` picks: the least index from `i` on that is a
/// malformed line of the section, and none where there is no such line.
pub proof fn lemma_malformed_from(lines: Seq<Seq<u8>>, section: Seq<u8>, i: int)
    requires
        0 <= i <= lines.len(),
    ensures
        match malformed_from(lines, section, i) {
            Some(k) => i <= k < lines.len() && malformed_at(lines, section, k) && forall|j: int|
                i <= j < k ==> !malformed_at(lines, section, j),
            None => forall|j: int| i <= j < lines.len() ==> !malformed_at(lines, section, j),
        },
    decreases lines.len() - i,
{
    if i < lines.len() && !malformed_at(lines, section, i) {
        lemma_malformed_from(lines, section, i + 1);
    }
}

/// What a lookup finds.
pub enum Found {
    /// The setting's value.
    Value(Seq<u8>),
    /// The section holds no such setting.
    Absent,
    /// The section holds a malformed line; this is the first.
    Malformed(int),
}

/// The value of setting `key` of `section`. A malformed line anywhere in
/// the section takes precedence over the setting.
pub open spec fn lookup(lines: Seq<Seq<u8>>, section: Seq<u8>, key: Seq<u8>) -> Found {
    match first_malformed(lines, section) {
        Some(i) => Found::Malformed(i),
        None => match position(lines, section, key) {
            Some(i) => Found::Value(setting_value(lines[i])),
            None => Found::Absent,
        },
    }
}

/// The line that `set` writes: `key = value`.
pub open spec fn setting_line(key: Seq<u8>, value: Seq<u8>) -> Seq<u8> {
    key + seq![SPACE, EQUALS, SPACE] + value
}

/// A document as contracts see it.
pub struct DocumentView {
    /// The lines, in file order.
    pub lines: Seq<Seq<u8>>,
    /// A setting was rewritten or appended since the document was made.
    pub dirty: bool,
    /// The document was made from nothing rather than parsed.
    pub created: bool,
}

/// The document that parsing `bytes` gives.
pub open spec fn parsed(bytes: Seq<u8>) -> DocumentView {
    DocumentView { lines: split_lines(bytes), dirty: false, created: false }
}

/// The bytes that a document serializes to.
pub open spec fn serialized(doc: DocumentView) -> Seq<u8> {
    join_lines(doc.lines)
}

/// The bytes to write for a document, if it needs writing at all.
pub open spec fn pending(doc: DocumentView) -> Option<Seq<u8>> {
    if doc.dirty || doc.created {
        Some(serialized(doc))
    } else {
        None
    }
}

/// The document after setting `key` of `section` to `value`. The line that
/// decides the setting is rewritten if its value differs; a setting that is
/// not there is appended as the last line of the document, whatever section
/// is open there.
pub open spec fn after_set(doc: DocumentView, section: Seq<u8>, key: Seq<u8>, value: Seq<u8>) -> DocumentView {
    match position(doc.lines, section, key) {
        Some(i) => if setting_value(doc.lines[i]) == value {
            doc
        } else {
            DocumentView { lines: doc.lines.update(i, setting_line(key, value)), dirty: true, ..doc }
        },
        None => DocumentView { lines: doc.lines.push(setting_line(key, value)), dirty: true, ..doc },
    }
}

/// The header line that opens `section`: `[section]`.
pub open spec fn header_line(section: Seq<u8>) -> Seq<u8> {
    seq![OPEN_BRACKET] + section + seq![CLOSE_BRACKET]
}

/// The document with `section` open at its end: unchanged where a line
/// appended now would belong to the section, else with the section's
/// header appended.
pub open spec fn opened(doc: DocumentView, section: Seq<u8>) -> DocumentView {
    if in_section(doc.lines, section, doc.lines.len() as int) {
        doc
    } else {
        DocumentView { lines: doc.lines.push(header_line(section)), dirty: true, ..doc }
    }
}

/// The document after storing `value` under `key` of `section`. A setting
/// that is there is set as `after_set` says. A setting that is not there
/// is appended inside the section, which is first opened at the end of
/// the document if another section, or none, is open there.
pub open spec fn after_store(doc: DocumentView, section: Seq<u8>, key: Seq<u8>, value: Seq<u8>) -> DocumentView {
    if position(doc.lines, section, key) is Some {
        after_set(doc, section, key, value)
    } else {
        after_set(opened(doc, section), section, key, value)
    }
}

/// What a lookup returns.
#[derive(Debug, PartialEq, Eq)]
pub enum Lookup {
    /// The setting's value.
    Value(Vec<u8>),
    /// The section holds no such setting.
    Absent,
    /// The section holds a malformed line; this is the index of the first.
    Malformed(usize),
}

impl View for Lookup {
    type V = Found;

    open spec fn view(&self) -> Found {
        match self {
            Lookup::Value(v) => Found::Value(v@),
            Lookup::Absent => Found::Absent,
            Lookup::Malformed(i) => Found::Malformed(*i as int),
        }
    }
}

/// A configuration file held in memory, line by line.
pub struct ConfigDocument {
    lines: Vec<Vec<u8>>,
    dirty: bool,
    created: bool,
}

impl View for ConfigDocument {
    type V = DocumentView;

    closed spec fn view(&self) -> DocumentView {
        DocumentView { lines: line_views(self.lines@), dirty: self.dirty, created: self.created }
    }
}

/// Builds the line `key = value`.
pub fn make_line(key: &[u8], value: &[u8]) -> (line: Vec<u8>)
    ensures
        line@ == setting_line(key@, value@),
{
    let mut line: Vec<u8> = Vec::new();
    append_bytes(&mut line, key);
    line.push(SPACE);
    line.push(EQUALS);
    line.push(SPACE);
    append_bytes(&mut line, value);
    line
}

impl ConfigDocument {
    /// The document for a file that does not exist yet: the settings
    /// header, the endpoint, an empty credential and the rate limit. It
    /// counts as created, so it is written even if nothing is set.
    pub fn minimal() -> (doc: ConfigDocument)
        ensures
            doc@ == minimal_document(),
    {
        let empty: Vec<u8> = Vec::new();
        let mut lines: Vec<Vec<u8>> = Vec::new();
        lines.push(settings_header_bytes());
        lines.push(make_line(url_key_bytes().as_slice(), endpoint_bytes().as_slice()));
        lines.push(make_line(credential_key_bytes().as_slice(), empty.as_slice()));
        lines.push(make_line(rate_key_bytes().as_slice(), rate_value_bytes().as_slice()));
        assert(line_views(lines@) =~= minimal_lines());
        ConfigDocument { lines, dirty: false, created: true }
    }

    /// Splits `bytes` into lines. Nothing is rejected: whatever the lines
    /// hold is kept as it is, and serializing gives `bytes` back.
    pub fn parse(bytes: &[u8]) -> (doc: ConfigDocument)
        ensures
            doc@ == parsed(bytes@),
            serialized(doc@) == bytes@,
    {
        let lines = split_into_lines(bytes);
        proof {
            lemma_split_lines(bytes@);
        }
        ConfigDocument { lines, dirty: false, created: false }
    }

    /// Joins the lines with line feeds.
    pub fn serialize(&self) -> (bytes: Vec<u8>)
        ensures
            bytes@ == serialized(self@),
    {
        let mut out: Vec<u8> = Vec::new();
        let mut i: usize = 0;
        while i < self.lines.len()
            invariant
                i <= self.lines@.len(),
                out@ == join_lines(line_views(self.lines@).take(i as int)),
            decreases self.lines@.len() - i,
        {
            let ghost all = line_views(self.lines@);
            assert(all.take(i + 1).drop_last() =~= all.take(i as int));
            if i > 0 {
                out.push(LINE_FEED);
            }
            append_bytes(&mut out, self.lines[i].as_slice());
            i += 1;
        }
        assert(line_views(self.lines@).take(self.lines@.len() as int) =~= line_views(self.lines@));
        out
    }

    /// The first malformed line of `section`, if it has one.
    pub fn first_malformed(&self, section: &[u8]) -> (found: Option<usize>)
        ensures
            match found {
                Some(i) => i < self@.lines.len() && first_malformed(self@.lines, section@) == Some(
                    i as int,
                ),
                None => first_malformed(self@.lines, section@) is None,
            },
    {
        let want = to_lower(section);
        let mut inside = false;
        let mut i: usize = 0;
        while i < self.lines.len()
            invariant
                i <= self.lines@.len(),
                want@ == lower_seq(section@),
                inside == in_section(self@.lines, section@, i as int),
                malformed_from(self@.lines, section@, 0) == malformed_from(
                    self@.lines,
                    section@,
                    i as int,
                ),
            decreases self.lines@.len() - i,
        {
            let line = self.lines[i].as_slice();
            match classify_line(line) {
                LineKind::Malformed => {
                    if inside {
                        return Some(i);
                    }
                },
                LineKind::Header => {
                    let name = section_name(line);
                    inside = bytes_eq(name.as_slice(), want.as_slice());
                },
                _ => {},
            }
            i += 1;
        }
        None
    }

    /// Every malformed line of `section`, in file order.
    pub fn malformed_lines(&self, section: &[u8]) -> (found: Vec<usize>)
        ensures
            found@.len() == malformed_below(self@.lines, section@, self@.lines.len() as int).len(),
            forall|k: int|
                0 <= k < found@.len() ==> found@[k] as int == malformed_below(
                    self@.lines,
                    section@,
                    self@.lines.len() as int,
                )[k],
    {
        let want = to_lower(section);
        let mut inside = false;
        let mut found: Vec<usize> = Vec::new();
        let mut i: usize = 0;
        while i < self.lines.len()
            invariant
                i <= self.lines@.len(),
                want@ == lower_seq(section@),
                inside == in_section(self@.lines, section@, i as int),
                found@.len() == malformed_below(self@.lines, section@, i as int).len(),
                forall|k: int|
                    0 <= k < found@.len() ==> found@[k] as int == malformed_below(
                        self@.lines,
                        section@,
                        i as int,
                    )[k],
            decreases self.lines@.len() - i,
        {
            let line = self.lines[i].as_slice();
            match classify_line(line) {
                LineKind::Malformed => {
                    if inside {
                        found.push(i);
                    }
                },
                LineKind::Header => {
                    let name = section_name(line);
                    inside = bytes_eq(name.as_slice(), want.as_slice());
                },
                _ => {},
            }
            i += 1;
        }
        found
    }

    /// The line that decides setting `key` of `section`, if there is one.
    pub fn locate(&self, section: &[u8], key: &[u8]) -> (found: Option<usize>)
        ensures
            match found {
                Some(i) => i < self@.lines.len() && position(self@.lines, section@, key@) == Some(
                    i as int,
                ),
                None => position(self@.lines, section@, key@) is None,
            },
    {
        proof {
            lemma_last_holding(self@.lines, section@, key@, self@.lines.len() as int);
        }
        let want = to_lower(section);
        let mut inside = false;
        let mut found: Option<usize> = None;
        let mut i: usize = 0;
        while i < self.lines.len()
            invariant
                i <= self.lines@.len(),
                want@ == lower_seq(section@),
                inside == in_section(self@.lines, section@, i as int),
                match found {
                    Some(j) => last_holding(self@.lines, section@, key@, i as int) == Some(j as int),
                    None => last_holding(self@.lines, section@, key@, i as int) is None,
                },
            decreases self.lines@.len() - i,
        {
            let line = self.lines[i].as_slice();
            match classify_line(line) {
                LineKind::Setting => {
                    if inside {
                        let name = key_of(line);
                        if bytes_eq(name.as_slice(), key) {
                            found = Some(i);
                        }
                    }
                },
                LineKind::Header => {
                    let name = section_name(line);
                    inside = bytes_eq(name.as_slice(), want.as_slice());
                },
                _ => {},
            }
            i += 1;
        }
        found
    }

    /// Looks up setting `key` of `section`. The section name is matched
    /// without regard to case, the key exactly. A malformed line anywhere
    /// in the section is reported in place of the value; where there is
    /// none, the last line that sets the key decides.
    pub fn get(&self, section: &[u8], key: &[u8]) -> (found: Lookup)
        ensures
            found@ == lookup(self@.lines, section@, key@),
    {
        match self.first_malformed(section) {
            Some(i) => Lookup::Malformed(i),
            None => match self.locate(section, key) {
                Some(i) => Lookup::Value(value_of(self.lines[i].as_slice())),
                None => Lookup::Absent,
            },
        }
    }

    /// Sets `key` of `section` to `value`. Where a line decides the setting
    /// and already gives `value`, nothing changes. Where it gives another
    /// value, that line alone is rewritten as `key = value`. Where no line
    /// sets the key, `key = value` is appended as the last line of the
    /// document. The document becomes dirty exactly when a line was
    /// rewritten or appended.
    pub fn set(&mut self, section: &[u8], key: &[u8], value: &[u8])
        ensures
            final(self)@ == after_set(old(self)@, section@, key@, value@),
    {
        let line = make_line(key, value);
        match self.locate(section, key) {
            Some(i) => {
                let current = value_of(self.lines[i].as_slice());
                if !bytes_eq(current.as_slice(), value) {
                    self.lines.set(i, line);
                    self.dirty = true;
                    assert(self@.lines =~= old(self)@.lines.update(i as int, setting_line(key@, value@)));
                }
            },
            None => {
                self.lines.push(line);
                self.dirty = true;
                assert(self@.lines =~= old(self)@.lines.push(setting_line(key@, value@)));
            },
        }
    }

    /// Whether a line appended now would belong to `section`.
    pub fn section_open_at_end(&self, section: &[u8]) -> (open: bool)
        ensures
            open == in_section(self@.lines, section@, self@.lines.len() as int),
    {
        let want = to_lower(section);
        let mut inside = false;
        let mut i: usize = 0;
        while i < self.lines.len()
            invariant
                i <= self.lines@.len(),
                want@ == lower_seq(section@),
                inside == in_section(self@.lines, section@, i as int),
            decreases self.lines@.len() - i,
        {
            let line = self.lines[i].as_slice();
            assert(line@ == self@.lines[i as int]);
            match classify_line(line) {
                LineKind::Header => {
                    let name = section_name(line);
                    inside = bytes_eq(name.as_slice(), want.as_slice());
                },
                _ => {},
            }
            i += 1;
        }
        inside
    }

    /// Makes sure that `section` is open at the end of the document, by
    /// appending its header where it is not. Nothing else changes.
    pub fn open_section(&mut self, section: &[u8])
        ensures
            final(self)@ == opened(old(self)@, section@),
    {
        if !self.section_open_at_end(section) {
            let mut header: Vec<u8> = Vec::new();
            header.push(OPEN_BRACKET);
            append_bytes(&mut header, section);
            header.push(CLOSE_BRACKET);
            assert(header@ =~= header_line(section@));
            self.lines.push(header);
            self.dirty = true;
            assert(self@.lines =~= old(self)@.lines.push(header_line(section@)));
        }
    }

    /// Stores `value` under `key` of `section` so that a lookup finds it.
    /// A setting that is there is set as `set` does. A setting that is not
    /// there is appended inside the section: where another section, or
    /// none, is open at the end of the document, the section's header is
    /// appended first. No line that was there is moved or removed.
    pub fn store(&mut self, section: &[u8], key: &[u8], value: &[u8])
        ensures
            final(self)@ == after_store(old(self)@, section@, key@, value@),
    {
        if self.locate(section, key).is_none() {
            self.open_section(section);
        }
        self.set(section, key, value);
    }

    /// How many lines the document has.
    pub fn line_count(&self) -> (n: usize)
        ensures
            n == self@.lines.len(),
    {
        self.lines.len()
    }

    /// A copy of line `i`.
    pub fn line(&self, i: usize) -> (line: Vec<u8>)
        requires
            i < self@.lines.len(),
        ensures
            line@ == self@.lines[i as int],
    {
        let whole = self.lines[i].as_slice();
        let out = copy_range(whole, 0, whole.len());
        out
    }

    /// Whether a setting was rewritten or appended.
    pub fn is_dirty(&self) -> (dirty: bool)
        ensures
            dirty == self@.dirty,
    {
        self.dirty
    }

    /// Whether the document was made from nothing rather than parsed.
    pub fn is_created(&self) -> (created: bool)
        ensures
            created == self@.created,
    {
        self.created
    }

    /// The bytes to write, where the document needs writing: it was changed,
    /// or it was made from nothing.
    pub fn pending_write(&self) -> (bytes: Option<Vec<u8>>)
        ensures
            bytes.is_some() == pending(self@).is_some(),
            bytes matches Some(b) ==> Some(b@) == pending(self@),
    {
        if self.dirty || self.created {
            Some(self.serialize())
        } else {
            None
        }
    }
}

/// A key that reads back as written: not empty, no whitespace at either
/// end, no `=`, and not starting like a header or a comment.
pub open spec fn plain_key(key: Seq<u8>) -> bool {
    &&& key.len() > 0
    &&& tight(key)
    &&& no_byte(key, EQUALS)
    &&& key[0] != OPEN_BRACKET
    &&& key[0] != HASH
    &&& key[0] != SEMICOLON
}

/// A value that reads back as written: no whitespace at either end, no
/// `=` and no NUL byte.
pub open spec fn plain_value(value: Seq<u8>) -> bool {
    &&& tight(value)
    &&& no_byte(value, EQUALS)
    &&& no_byte(value, NUL)
}

/// Whether a value reads back as written.
pub fn is_plain_value(value: &[u8]) -> (plain: bool)
    ensures
        plain == plain_value(value@),
{
    proof {
        lemma_count_none(value@, EQUALS);
        lemma_count_none(value@, NUL);
    }
    let n = value.len();
    if n > 0 && (byte_is_space(value[0]) || byte_is_space(value[n - 1])) {
        return false;
    }
    count_of(value, EQUALS) == 0 && count_of(value, NUL) == 0
}

/// The line written for a plain key and a plain value is a setting line
/// that gives back that key and that value.
pub proof fn lemma_setting_line(key: Seq<u8>, value: Seq<u8>)
    requires
        plain_key(key),
        plain_value(value),
    ensures
        line_kind(setting_line(key, value)) is Setting,
        setting_key(setting_line(key, value)) == key,
        setting_value(setting_line(key, value)) == value,
{
    let sep = seq![SPACE, EQUALS, SPACE];
    let line = setting_line(key, value);
    let n = key.len() as int;
    assert(line[n] == SPACE && line[n + 1] == EQUALS && line[n + 2] == SPACE);

    // exactly one `=`
    lemma_count_concat(key + sep, value, EQUALS);
    lemma_count_concat(key, sep, EQUALS);
    lemma_count_none(key, EQUALS);
    lemma_count_none(value, EQUALS);
    assert(count_byte(sep, EQUALS) == 1) by {
        assert(sep.drop_last() =~= seq![SPACE, EQUALS]);
        assert(sep.drop_last().drop_last() =~= seq![SPACE]);
        assert(seq![SPACE].drop_last() =~= Seq::<u8>::empty());
        assert(count_byte(Seq::<u8>::empty(), EQUALS) == 0);
        assert(count_byte(seq![SPACE], EQUALS) == 0);
        assert(count_byte(seq![SPACE, EQUALS], EQUALS) == 1);
    }

    // it stands right after the key and one space
    lemma_index_from(line, EQUALS, 0);
    let at = index_of(line, EQUALS);
    assert(at == n + 1);

    // the key
    let left = line.subrange(0, at);
    assert(back_spaces(left, 0, n) == n);

    // the value
    let right = line.subrange(at + 1, line.len() as int);
    if value.len() == 0 {
        assert(skip_spaces(right, 1) == 1);
    } else {
        assert(skip_spaces(right, 1) == 1);
        assert(trim(right) =~= value);
    }
    lemma_without_none(value, NUL);

    // neither blank, header nor comment
    lemma_trim(line);
}

/// Rewriting a line that is no header as a line that is no header leaves
/// every line in its section.
pub proof fn lemma_update_keeps_sections(lines: Seq<Seq<u8>>, i: int, line: Seq<u8>, k: int)
    requires
        0 <= i < lines.len(),
        !(line_kind(lines[i]) is Header),
        !(line_kind(line) is Header),
    ensures
        section_at(lines.update(i, line), k) == section_at(lines, k),
    decreases k,
{
    if 0 < k <= lines.len() {
        lemma_update_keeps_sections(lines, i, line, k - 1);
    }
}

/// Appending a line leaves every earlier line in its section.
pub proof fn lemma_push_keeps_sections(lines: Seq<Seq<u8>>, line: Seq<u8>, k: int)
    requires
        k <= lines.len(),
    ensures
        section_at(lines.push(line), k) == section_at(lines, k),
    decreases k,
{
    if 0 < k {
        lemma_push_keeps_sections(lines, line, k - 1);
    }
}

/// Parsing and then serializing gives the bytes back, whatever they are.
pub proof fn parse_then_serialize(bytes: Seq<u8>)
    ensures
        serialized(parsed(bytes)) == bytes,
{
    lemma_split_lines(bytes);
}

/// Serializing and then parsing gives the lines back, provided there is at
/// least one line and no line holds a line feed.
pub proof fn serialize_then_parse(doc: DocumentView)
    requires
        doc.lines.len() >= 1,
        single_lines(doc.lines),
    ensures
        parsed(serialized(doc)).lines == doc.lines,
{
    lemma_join_split(doc.lines);
}

/// Setting a value changes at most the one line that decides the setting:
/// every other line stays where it was, byte for byte, and no line is
/// removed.
pub proof fn set_keeps_other_lines(doc: DocumentView, section: Seq<u8>, key: Seq<u8>, value: Seq<u8>)
    ensures
        after_set(doc, section, key, value).lines.len() >= doc.lines.len(),
        after_set(doc, section, key, value).created == doc.created,
        forall|j: int|
            0 <= j < doc.lines.len() && position(doc.lines, section, key) != Some(j) ==> after_set(
                doc,
                section,
                key,
                value,
            ).lines[j] == doc.lines[j],
{
    lemma_last_holding(doc.lines, section, key, doc.lines.len() as int);
}

/// Setting a value never rewrites a malformed line, in whatever section
/// it stands.
pub proof fn set_spares_malformed_lines(doc: DocumentView, section: Seq<u8>, key: Seq<u8>, value: Seq<u8>)
    ensures
        forall|j: int|
            0 <= j < doc.lines.len() && line_kind(doc.lines[j]) is Malformed ==> after_set(
                doc,
                section,
                key,
                value,
            ).lines[j] == doc.lines[j],
{
    lemma_last_holding(doc.lines, section, key, doc.lines.len() as int);
}

/// A plain value that was set is what a lookup then finds, provided the
/// section held no malformed line and the written line stands in the
/// section: either the setting was there already, or the section is the
/// one open at the end of the document. Setting it once more changes
/// nothing.
pub proof fn get_after_set(doc: DocumentView, section: Seq<u8>, key: Seq<u8>, value: Seq<u8>)
    requires
        plain_key(key),
        plain_value(value),
        first_malformed(doc.lines, section) is None,
        position(doc.lines, section, key) is Some || in_section(
            doc.lines,
            section,
            doc.lines.len() as int,
        ),
    ensures
        lookup(after_set(doc, section, key, value).lines, section, key) == Found::Value(value),
        after_set(after_set(doc, section, key, value), section, key, value) == after_set(
            doc,
            section,
            key,
            value,
        ),
{
    let old_lines = doc.lines;
    let n = old_lines.len() as int;
    let line = setting_line(key, value);
    let new_lines = after_set(doc, section, key, value).lines;
    lemma_setting_line(key, value);
    lemma_last_holding(old_lines, section, key, n);
    lemma_malformed_from(old_lines, section, 0);
    let at: int = match position(old_lines, section, key) {
        Some(i) => i,
        None => n,
    };
    assert(holds_key(new_lines, section, key, at) && setting_value(new_lines[at]) == value
        && (forall|j: int| at < j < new_lines.len() ==> !holds_key(new_lines, section, key, j))
        && (forall|j: int| 0 <= j < new_lines.len() ==> !malformed_at(new_lines, section, j))) by {
        match position(old_lines, section, key) {
            Some(i) => {
                if setting_value(old_lines[i]) != value {
                    assert forall|k: int| section_at(new_lines, k) == section_at(old_lines, k) by {
                        lemma_update_keeps_sections(old_lines, i, line, k);
                    }
                    assert forall|j: int| i < j < new_lines.len() implies !holds_key(
                        new_lines,
                        section,
                        key,
                        j,
                    ) by {
                        assert(!holds_key(old_lines, section, key, j));
                    }
                    assert forall|j: int| 0 <= j < new_lines.len() implies !malformed_at(
                        new_lines,
                        section,
                        j,
                    ) by {
                        assert(!malformed_at(old_lines, section, j));
                    }
                }
            },
            None => {
                assert forall|k: int| k <= n implies section_at(new_lines, k) == section_at(
                    old_lines,
                    k,
                ) by {
                    lemma_push_keeps_sections(old_lines, line, k);
                }
                assert forall|j: int| 0 <= j < new_lines.len() implies !malformed_at(
                    new_lines,
                    section,
                    j,
                ) by {
                    if j < n {
                        assert(!malformed_at(old_lines, section, j));
                    }
                }
            },
        }
    }
    lemma_last_holding(new_lines, section, key, new_lines.len() as int);
    lemma_malformed_from(new_lines, section, 0);
}

/// Setting one key leaves every other setting of the section as it was,
/// provided the key and the value are plain.
pub proof fn set_keeps_other_settings(
    doc: DocumentView,
    section: Seq<u8>,
    key: Seq<u8>,
    value: Seq<u8>,
    other: Seq<u8>,
)
    requires
        plain_key(key),
        plain_value(value),
        other != key,
    ensures
        first_malformed(after_set(doc, section, key, value).lines, section) == first_malformed(
            doc.lines,
            section,
        ),
        position(after_set(doc, section, key, value).lines, section, other) == position(
            doc.lines,
            section,
            other,
        ),
        lookup(after_set(doc, section, key, value).lines, section, other) == lookup(
            doc.lines,
            section,
            other,
        ),
        in_section(doc.lines, section, doc.lines.len() as int) ==> in_section(
            after_set(doc, section, key, value).lines,
            section,
            after_set(doc, section, key, value).lines.len() as int,
        ),
{
    let old_lines = doc.lines;
    let n = old_lines.len() as int;
    let line = setting_line(key, value);
    let new_lines = after_set(doc, section, key, value).lines;
    lemma_setting_line(key, value);
    lemma_last_holding(old_lines, section, key, n);
    if new_lines != old_lines {
        match position(old_lines, section, key) {
            Some(i) => {
                assert forall|k: int| section_at(new_lines, k) == section_at(old_lines, k) by {
                    lemma_update_keeps_sections(old_lines, i, line, k);
                }
            },
            None => {
                assert forall|k: int| k <= n implies section_at(new_lines, k) == section_at(
                    old_lines,
                    k,
                ) by {
                    lemma_push_keeps_sections(old_lines, line, k);
                }
            },
        }
        assert forall|j: int| malformed_at(new_lines, section, j) == malformed_at(
            old_lines,
            section,
            j,
        ) by {}
        assert forall|j: int| holds_key(new_lines, section, other, j) == holds_key(
            old_lines,
            section,
            other,
            j,
        ) by {}
        lemma_last_holding(old_lines, section, other, n);
        lemma_last_holding(new_lines, section, other, new_lines.len() as int);
        lemma_malformed_from(old_lines, section, 0);
        lemma_malformed_from(new_lines, section, 0);
        match position(old_lines, section, other) {
            Some(i) => {
            },
            None => {},
        }
        match first_malformed(old_lines, section) {
            Some(i) => {
            },
            None => {},
        }
    }
}

/// The header line of a section is a header and opens that section.
pub proof fn lemma_header_line(section: Seq<u8>)
    ensures
        line_kind(header_line(section)) is Header,
        header_name(header_line(section)) == lower_seq(section),
{
    let header = header_line(section);
    assert(header[0] == OPEN_BRACKET);
    assert(header.last() == CLOSE_BRACKET);
    lemma_trim_tight(header);
    assert(header.subrange(1, header.len() - 1) =~= section);
}

/// Opening a section at the end leaves every line that was there, and
/// with it every setting and every malformed line of the section; a line
/// appended afterwards belongs to the section.
pub proof fn lemma_opened(doc: DocumentView, section: Seq<u8>, key: Seq<u8>)
    ensures
        in_section(opened(doc, section).lines, section, opened(doc, section).lines.len() as int),
        first_malformed(opened(doc, section).lines, section) == first_malformed(doc.lines, section),
        position(opened(doc, section).lines, section, key) == position(doc.lines, section, key),
        lookup(opened(doc, section).lines, section, key) == lookup(doc.lines, section, key),
        opened(doc, section).lines.len() >= doc.lines.len(),
        opened(doc, section).created == doc.created,
        doc.dirty ==> opened(doc, section).dirty,
        forall|j: int| 0 <= j < doc.lines.len() ==> opened(doc, section).lines[j] == doc.lines[j],
{
    let old_lines = doc.lines;
    let n = old_lines.len() as int;
    let new_lines = opened(doc, section).lines;
    if new_lines != old_lines {
        let header = header_line(section);
        lemma_header_line(section);
        assert(new_lines == old_lines.push(header));
        assert forall|k: int| k <= n implies section_at(new_lines, k) == section_at(old_lines, k) by {
            lemma_push_keeps_sections(old_lines, header, k);
        }
        assert(section_at(new_lines, n + 1) == Some(lower_seq(section)));
        assert forall|j: int| malformed_at(new_lines, section, j) == malformed_at(
            old_lines,
            section,
            j,
        ) by {}
        assert forall|j: int| holds_key(new_lines, section, key, j) == holds_key(
            old_lines,
            section,
            key,
            j,
        ) by {}
        lemma_last_holding(old_lines, section, key, n);
        lemma_last_holding(new_lines, section, key, new_lines.len() as int);
        lemma_malformed_from(old_lines, section, 0);
        lemma_malformed_from(new_lines, section, 0);
        match position(old_lines, section, key) {
            Some(i) => {
                assert(holds_key(new_lines, section, key, i));
            },
            None => {},
        }
        match first_malformed(old_lines, section) {
            Some(i) => {
                assert(malformed_at(new_lines, section, i));
            },
            None => {},
        }
    }
}

/// A plain value that was stored is what a lookup then finds, whatever
/// sections the document has, provided the section held no malformed
/// line. Storing it once more changes nothing.
pub proof fn get_after_store(doc: DocumentView, section: Seq<u8>, key: Seq<u8>, value: Seq<u8>)
    requires
        plain_key(key),
        plain_value(value),
        first_malformed(doc.lines, section) is None,
    ensures
        lookup(after_store(doc, section, key, value).lines, section, key) == Found::Value(value),
        after_store(after_store(doc, section, key, value), section, key, value) == after_store(
            doc,
            section,
            key,
            value,
        ),
{
    if position(doc.lines, section, key) is Some {
        get_after_set(doc, section, key, value);
    } else {
        lemma_opened(doc, section, key);
        get_after_set(opened(doc, section), section, key, value);
    }
}

/// Storing one key leaves every other setting of the section as it was,
/// provided the key and the value are plain.
pub proof fn store_keeps_other_settings(
    doc: DocumentView,
    section: Seq<u8>,
    key: Seq<u8>,
    value: Seq<u8>,
    other: Seq<u8>,
)
    requires
        plain_key(key),
        plain_value(value),
        other != key,
    ensures
        first_malformed(after_store(doc, section, key, value).lines, section) == first_malformed(
            doc.lines,
            section,
        ),
        lookup(after_store(doc, section, key, value).lines, section, other) == lookup(
            doc.lines,
            section,
            other,
        ),
{
    if position(doc.lines, section, key) is Some {
        set_keeps_other_settings(doc, section, key, value, other);
    } else {
        lemma_opened(doc, section, other);
        set_keeps_other_settings(opened(doc, section), section, key, value, other);
    }
}

/// Storing a value changes at most the one line that decides the setting
/// and never a malformed line: every other line stays where it was, byte
/// for byte, no line is removed, and what is added is added at the end.
pub proof fn store_keeps_other_lines(doc: DocumentView, section: Seq<u8>, key: Seq<u8>, value: Seq<u8>)
    ensures
        after_store(doc, section, key, value).lines.len() >= doc.lines.len(),
        after_store(doc, section, key, value).created == doc.created,
        doc.dirty ==> after_store(doc, section, key, value).dirty,
        forall|j: int|
            0 <= j < doc.lines.len() && position(doc.lines, section, key) != Some(j) ==> after_store(
                doc,
                section,
                key,
                value,
            ).lines[j] == doc.lines[j],
        forall|j: int|
            0 <= j < doc.lines.len() && line_kind(doc.lines[j]) is Malformed ==> after_store(
                doc,
                section,
                key,
                value,
            ).lines[j] == doc.lines[j],
{
    lemma_last_holding(doc.lines, section, key, doc.lines.len() as int);
    if position(doc.lines, section, key) is None {
        lemma_opened(doc, section, key);
        let open = opened(doc, section);
        lemma_last_holding(open.lines, section, key, open.lines.len() as int);
    }
}

/// The listed malformed lines are exactly the malformed lines of the
/// section, each once and in rising order; the first of them is what
/// `first_malformed` gives.
pub proof fn malformed_lines_are_complete(lines: Seq<Seq<u8>>, section: Seq<u8>, n: int)
    requires
        0 <= n <= lines.len(),
    ensures
        forall|k: int|
            0 <= k < malformed_below(lines, section, n).len() ==> 0 <= #[trigger] malformed_below(
                lines,
                section,
                n,
            )[k] < n && malformed_at(lines, section, malformed_below(lines, section, n)[k]),
        forall|j: int, k: int|
            0 <= j < k < malformed_below(lines, section, n).len() ==> malformed_below(
                lines,
                section,
                n,
            )[j] < malformed_below(lines, section, n)[k],
        forall|i: int|
            0 <= i < n && malformed_at(lines, section, i) ==> malformed_below(
                lines,
                section,
                n,
            ).contains(i),
        malformed_below(lines, section, n).len() == 0 <==> (forall|i: int|
            0 <= i < n ==> !malformed_at(lines, section, i)),
    decreases n,
{
    if n > 0 {
        malformed_lines_are_complete(lines, section, n - 1);
        let before = malformed_below(lines, section, n - 1);
        let now = malformed_below(lines, section, n);
        if malformed_at(lines, section, n - 1) {
            assert(now[now.len() - 1] == n - 1);
            assert forall|i: int| 0 <= i < n && malformed_at(lines, section, i) implies now.contains(
                i,
            ) by {
                if i < n - 1 {
                    let k = choose|k: int| 0 <= k < before.len() && before[k] == i;
                    assert(now[k] == i);
                }
            }
        } else {
            assert forall|i: int| 0 <= i < n && malformed_at(lines, section, i) implies now.contains(
                i,
            ) by {}
        }
    }
}

} // verus!
