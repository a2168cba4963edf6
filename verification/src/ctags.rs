//! Reader of tag tables: one symbol per line, three tab-separated fields
//! (name, file, address), then `;"` and further fields of which the first
//! names the kind of symbol.
//!
//! The reader holds the table and walks it line by line. Where a symbol's
//! address is a pattern, its line number is found by looking for the
//! pattern's text in the source file, which the caller hands over when the
//! reader asks for it.

use crate::text::{
    chars_of, contains_sub, ends_with, find_byte_from, find_char_from, find_str, find_sub,
    first_index, has_prefix, has_suffix, is_str, lemma_first_index, len_without_trailing_run,
    parse_decimal, parse_u64, same_bytes, starts_with, string_of, subvec, trim_run,
    trimmed_end_of, trimmed_of,
};
use vstd::prelude::*;
use vstd::slice::slice_subrange;
use vstd::string::StringSliceAdditionalSpecFns;
use vstd::utf8::*;

verus! {

/// The kind of a symbol.
#[derive(Debug, Eq, PartialEq, Hash, Clone, Copy, Structural)]
pub enum SymbolType {
    Unknown,
    Function,
    Define,
    Variable,
}

impl SymbolType {
    /// The kind that a one-letter code of a tag table stands for.
    pub open spec fn of_code(code: Seq<char>) -> SymbolType {
        if code == "f"@ {
            SymbolType::Function
        } else if code == "d"@ {
            SymbolType::Define
        } else if code == "v"@ {
            SymbolType::Variable
        } else {
            SymbolType::Unknown
        }
    }

    /// The name of the kind, as the files of the index spell it.
    pub open spec fn spec_name(self) -> Seq<char> {
        match self {
            SymbolType::Unknown => "Unknown"@,
            SymbolType::Function => "Function"@,
            SymbolType::Define => "Define"@,
            SymbolType::Variable => "Variable"@,
        }
    }

    /// The kind that a name stands for; `Unknown` for any other text.
    pub open spec fn of_name(name: Seq<char>) -> SymbolType {
        if name == "Function"@ {
            SymbolType::Function
        } else if name == "Define"@ {
            SymbolType::Define
        } else if name == "Variable"@ {
            SymbolType::Variable
        } else {
            SymbolType::Unknown
        }
    }

    /// The kind that a one-letter code of a tag table stands for.
    pub fn from_code(code: &Vec<char>) -> (r: SymbolType)
        ensures
            r == SymbolType::of_code(code@),
    {
        if is_str(code, "f") {
            SymbolType::Function
        } else if is_str(code, "d") {
            SymbolType::Define
        } else if is_str(code, "v") {
            SymbolType::Variable
        } else {
            SymbolType::Unknown
        }
    }

    /// The kind that a name stands for; `Unknown` for any other text.
    pub fn from_name(name: &Vec<char>) -> (r: SymbolType)
        ensures
            r == SymbolType::of_name(name@),
    {
        if is_str(name, "Function") {
            SymbolType::Function
        } else if is_str(name, "Define") {
            SymbolType::Define
        } else if is_str(name, "Variable") {
            SymbolType::Variable
        } else {
            SymbolType::Unknown
        }
    }

    /// The name of the kind, as the files of the index spell it.
    pub fn name(&self) -> (r: &'static str)
        ensures
            r@ == self.spec_name(),
    {
        match self {
            SymbolType::Unknown => "Unknown",
            SymbolType::Function => "Function",
            SymbolType::Define => "Define",
            SymbolType::Variable => "Variable",
        }
    }
}

/// The four names are different texts, so a name gives its kind back.
pub proof fn lemma_name_gives_kind_back(kind: SymbolType)
    ensures
        SymbolType::of_name(kind.spec_name()) == kind,
{
    reveal_strlit("Unknown");
    reveal_strlit("Function");
    reveal_strlit("Define");
    reveal_strlit("Variable");
    assert("Unknown"@.len() == 7);
    assert("Function"@.len() == 8);
    assert("Define"@.len() == 6);
    assert("Variable"@[0] == 'V');
    assert("Function"@[0] == 'F');
}

/// One symbol of a tag table.
#[derive(Debug, Eq, PartialEq, Clone)]
pub struct Symbol {
    pub name: String,
    pub file: String,
    pub expression: String,
    pub line_num: Option<u64>,
    pub symbol_type: SymbolType,
}

/// What a `Symbol` holds.
pub struct Entry {
    pub name: Seq<char>,
    pub file: Seq<char>,
    pub expression: Seq<char>,
    pub line_num: Option<u64>,
    pub symbol_type: SymbolType,
}

impl View for Symbol {
    type V = Entry;

    open spec fn view(&self) -> Entry {
        Entry {
            name: self.name@,
            file: self.file@,
            expression: self.expression@,
            line_num: self.line_num,
            symbol_type: self.symbol_type,
        }
    }
}

/// What one line of a tag table is.
pub enum Parsed {
    /// A line of the table's header: it begins with `!`.
    Header,
    /// A line without three fields or without `;"` after them.
    Malformed,
    /// A symbol, its line number not yet looked up.
    Entry(Entry),
}

/// One line of a tag table, read.
#[derive(Debug, Eq, PartialEq, Clone)]
pub enum TagLine {
    Header,
    Malformed,
    Entry(Symbol),
}

impl View for TagLine {
    type V = Parsed;

    open spec fn view(&self) -> Parsed {
        match self {
            TagLine::Header => Parsed::Header,
            TagLine::Malformed => Parsed::Malformed,
            TagLine::Entry(s) => Parsed::Entry(s@),
        }
    }
}

/// The code of the kind in what follows `;"`: tabs at both ends and line
/// feeds at the end are dropped, and the code is what stands before the
/// first tab that is left.
pub open spec fn kind_code(extra: Seq<char>) -> Seq<char> {
    let a = trim_run(extra, '\t');
    let b = a.take(len_without_trailing_run(a, '\n'));
    b.take(first_index(b, '\t'))
}

/// What the line `line` of a tag table is. The line is taken with its line
/// feed, if it has one.
pub open spec fn parsed(line: Seq<char>) -> Parsed {
    let t1 = first_index(line, '\t');
    let rest = line.skip(t1 + 1);
    let t2 = first_index(rest, '\t');
    let tail = rest.skip(t2 + 1);
    let k = find_sub(tail, ";\""@);
    if starts_with(line, "!"@) {
        Parsed::Header
    } else if t1 >= line.len() || t2 >= rest.len() || !contains_sub(tail, ";\""@) {
        Parsed::Malformed
    } else {
        Parsed::Entry(
            Entry {
                name: line.take(t1),
                file: rest.take(t2),
                expression: tail.take(k),
                line_num: None,
                symbol_type: SymbolType::of_code(kind_code(tail.skip(k + 2))),
            },
        )
    }
}

/// Reads one line of a tag table.
pub fn parse_line(line: &str) -> (r: TagLine)
    ensures
        r@ == parsed(line@),
        starts_with(line@, "!"@) ==> r == TagLine::Header,
{
    let v = chars_of(line);
    if has_prefix(&v, "!") {
        return TagLine::Header;
    }
    let t1 = find_char_from(&v, 0, '\t');
    assert(v@.skip(0) == v@);
    if t1 == v.len() {
        return TagLine::Malformed;
    }
    let rest = subvec(&v, t1 + 1, v.len());
    assert(rest@ == v@.skip(t1 + 1));
    let t2 = find_char_from(&rest, 0, '\t');
    assert(rest@.skip(0) == rest@);
    if t2 == rest.len() {
        return TagLine::Malformed;
    }
    let tail = subvec(&rest, t2 + 1, rest.len());
    assert(tail@ == rest@.skip(t2 + 1));
    let mark = chars_of(";\"");
    proof {
        reveal_strlit(";\"");
    }
    let k = find_str(&tail, &mark);
    if k + 2 > tail.len() {
        return TagLine::Malformed;
    }
    let extra = subvec(&tail, k + 2, tail.len());
    assert(extra@ == tail@.skip(k + 2));
    let a = trimmed_of(&extra, '\t');
    let b = trimmed_end_of(&a, '\n');
    let c = find_char_from(&b, 0, '\t');
    assert(b@.skip(0) == b@);
    let code = subvec(&b, 0, c);
    assert(code@ == kind_code(extra@));
    let name = subvec(&v, 0, t1);
    let file = subvec(&rest, 0, t2);
    let expression = subvec(&tail, 0, k);
    TagLine::Entry(
        Symbol {
            name: string_of(&name),
            file: string_of(&file),
            expression: string_of(&expression),
            line_num: None,
            symbol_type: SymbolType::from_code(&code),
        },
    )
}

/// Whether an address is a pattern: the text of a whole line between `/^`
/// and `$/`.
pub open spec fn is_pattern(expression: Seq<char>) -> bool {
    starts_with(expression, "/^"@) && ends_with(expression, "$/"@)
}

/// The text of the line that a pattern stands for.
pub open spec fn pattern_text(expression: Seq<char>) -> Seq<char> {
    expression.subrange(2, expression.len() - 2)
}

/// A pattern has at least the four characters of its two ends.
pub proof fn lemma_pattern_len(expression: Seq<char>)
    requires
        is_pattern(expression),
    ensures
        expression.len() >= 4,
{
    reveal_strlit("/^");
    reveal_strlit("$/");
    let n = expression.len() as int;
    assert(expression.take(2)[0] == '/');
    assert(expression.take(2)[1] == '^');
    assert(expression.skip(n - 2)[0] == '$');
    assert(expression.skip(n - 2)[1] == '/');
}

/// The lines of a source file, as they are read one by one: a line ends at a
/// line feed, which is not part of it; what follows the last line feed is a
/// line if it is not empty.
pub open spec fn split_lines(bytes: Seq<u8>) -> Seq<Seq<u8>>
    decreases bytes.len(),
{
    if bytes.len() == 0 {
        Seq::empty()
    } else {
        let k = first_index(bytes, 10u8);
        if 0 <= k < bytes.len() {
            seq![bytes.take(k)] + split_lines(bytes.skip(k + 1))
        } else {
            seq![bytes]
        }
    }
}

/// A source file that is being read.
pub struct SourceView {
    /// The name under which the tag table speaks of the file.
    pub file: Seq<char>,
    /// What has not been read yet.
    pub rest: Seq<u8>,
    /// The number of lines read so far.
    pub lines_read: nat,
}

/// Looks in `source` for the next line equal to `needle`. The result is the
/// number of that line, counted from 1 at the start of the file, and the
/// source after that line; where no line is equal, `None` and the source read
/// to its end.
pub open spec fn scan(source: SourceView, needle: Seq<u8>) -> (Option<nat>, SourceView)
    decreases source.rest.len(),
{
    if source.rest.len() == 0 {
        (None, source)
    } else {
        let k = first_index(source.rest, 10u8);
        let line = if 0 <= k < source.rest.len() {
            source.rest.take(k)
        } else {
            source.rest
        };
        let after = SourceView {
            file: source.file,
            rest: if 0 <= k < source.rest.len() {
                source.rest.skip(k + 1)
            } else {
                Seq::empty()
            },
            lines_read: source.lines_read + 1,
        };
        if line == needle {
            (Some(after.lines_read), after)
        } else {
            scan(after, needle)
        }
    }
}

/// Where `needle` is line `i` of a file (counted from 0) and no earlier line
/// of it, a search from the start of the file gives `i + 1`.
pub proof fn lemma_scan_finds_first(file: Seq<char>, bytes: Seq<u8>, needle: Seq<u8>, i: int)
    requires
        0 <= i < split_lines(bytes).len(),
        split_lines(bytes)[i] == needle,
        forall|j: int| 0 <= j < i ==> split_lines(bytes)[j] != needle,
    ensures
        scan(SourceView { file, rest: bytes, lines_read: 0 }, needle).0 == Some((i + 1) as nat),
{
    lemma_scan_from(SourceView { file, rest: bytes, lines_read: 0 }, needle, i);
}

proof fn lemma_scan_from(source: SourceView, needle: Seq<u8>, i: int)
    requires
        0 <= i < split_lines(source.rest).len(),
        split_lines(source.rest)[i] == needle,
        forall|j: int| 0 <= j < i ==> split_lines(source.rest)[j] != needle,
    ensures
        scan(source, needle).0 == Some((source.lines_read + i + 1) as nat),
    decreases source.rest.len(),
{
    let bytes = source.rest;
    let k = first_index(bytes, 10u8);
    lemma_first_index(bytes, 10u8);
    if 0 <= k < bytes.len() {
        let after = SourceView {
            file: source.file,
            rest: bytes.skip(k + 1),
            lines_read: source.lines_read + 1,
        };
        let tail = split_lines(bytes.skip(k + 1));
        assert(split_lines(bytes) == seq![bytes.take(k)] + tail);
        if i == 0 {
        } else {
            assert(split_lines(bytes)[0] != needle);
            assert forall|j: int| 0 <= j < i - 1 implies tail[j] != needle by {
                assert(split_lines(bytes)[j + 1] == tail[j]);
            }
            assert(split_lines(bytes)[i] == tail[i - 1]);
            lemma_scan_from(after, needle, i - 1);
        }
    } else {
        assert(split_lines(bytes) == seq![bytes]);
    }
}

/// A tag table that is being read.
pub struct CtagsView {
    /// What has not been read yet.
    pub rest: Seq<u8>,
    /// The directory of the source files; without one, patterns are not
    /// looked up.
    pub code_dir: Option<Seq<char>>,
    /// The source file that is open.
    pub source: Option<SourceView>,
}

/// What a step of the reader gives.
pub enum StepView {
    /// The next symbol.
    Entry(Entry),
    /// The next symbol has a pattern in the named file, which is not the file
    /// that is open.
    NeedSource(Seq<char>),
    /// The table is at its end, or at a malformed line.
    End,
}

/// The length of the first line of `bytes`, its line feed counted.
pub open spec fn line_len(bytes: Seq<u8>) -> int {
    let k = first_index(bytes, 10u8);
    if 0 <= k < bytes.len() {
        k + 1
    } else {
        bytes.len() as int
    }
}

/// The line number of a symbol whose address is not a pattern: the address
/// itself where it is a decimal numeral.
pub open spec fn numbered(e: Entry) -> Entry {
    Entry { line_num: parse_decimal(e.expression), ..e }
}

/// One step of the reader: the state after it and what it gives.
///
/// Header lines and lines that are not UTF-8 are passed over. A malformed
/// line ends the table. A symbol whose address is a numeral has that number;
/// one whose address is a pattern has the number of the next line of its
/// source file that equals the pattern's text byte for byte, counted from
/// where the last search in that file ended, and no number where there is
/// none; any other symbol has no number. While the source file of a pattern
/// is not open, the reader stays before the symbol and asks for the file.
pub open spec fn step(c: CtagsView) -> (CtagsView, StepView)
    decreases c.rest.len(),
{
    if c.rest.len() == 0 {
        (c, StepView::End)
    } else {
        let n = line_len(c.rest);
        let raw = c.rest.take(n);
        let after = CtagsView { rest: c.rest.skip(n), ..c };
        proof {
            lemma_first_index(c.rest, 10u8);
        }
        if !valid_utf8(raw) {
            step(after)
        } else {
            match parsed(decode_utf8(raw)) {
                Parsed::Header => step(after),
                Parsed::Malformed => (CtagsView { rest: Seq::empty(), ..c }, StepView::End),
                Parsed::Entry(e) => {
                    if !is_pattern(e.expression) {
                        (after, StepView::Entry(numbered(e)))
                    } else if c.code_dir is None {
                        (after, StepView::Entry(e))
                    } else if c.source is Some && c.source->0.file == e.file {
                        let found = scan(c.source->0, encode_utf8(pattern_text(e.expression)));
                        (
                            CtagsView { source: Some(found.1), ..after },
                            StepView::Entry(
                                Entry {
                                    line_num: match found.0 {
                                        Some(n) => Some(n as u64),
                                        None => None,
                                    },
                                    ..e
                                },
                            ),
                        )
                    } else {
                        (c, StepView::NeedSource(e.file))
                    }
                },
            }
        }
    }
}

/// Where the source file of a pattern has just been opened and the text of
/// the pattern is line `i` of the file (counted from 0) and no earlier line,
/// the symbol has the line number `i + 1`.
pub proof fn lemma_pattern_resolves(c: CtagsView, e: Entry, bytes: Seq<u8>, i: int)
    requires
        c.rest.len() > 0,
        valid_utf8(c.rest.take(line_len(c.rest))),
        parsed(decode_utf8(c.rest.take(line_len(c.rest)))) == Parsed::Entry(e),
        is_pattern(e.expression),
        c.code_dir is Some,
        c.source == Some(SourceView { file: e.file, rest: bytes, lines_read: 0 }),
        0 <= i < split_lines(bytes).len(),
        i < u64::MAX,
        split_lines(bytes)[i] == encode_utf8(pattern_text(e.expression)),
        forall|j: int| 0 <= j < i ==> split_lines(bytes)[j] != encode_utf8(pattern_text(e.expression)),
    ensures
        step(c).1 == StepView::Entry(Entry { line_num: Some((i + 1) as u64), ..e }),
{
    lemma_first_index(c.rest, 10u8);
    lemma_scan_finds_first(e.file, bytes, encode_utf8(pattern_text(e.expression)), i);
}

/// A header line is passed over: the table gives what it gives without it.
pub proof fn lemma_header_is_passed_over(c: CtagsView)
    requires
        c.rest.len() > 0,
        valid_utf8(c.rest.take(line_len(c.rest))),
        starts_with(decode_utf8(c.rest.take(line_len(c.rest))), "!"@),
    ensures
        step(c) == step(CtagsView { rest: c.rest.skip(line_len(c.rest)), ..c }),
{
    lemma_first_index(c.rest, 10u8);
}

/// No step gives a symbol of a header line: the line of a symbol does not
/// begin with `!`.
pub proof fn lemma_no_entry_from_header(line: Seq<char>)
    requires
        starts_with(line, "!"@),
    ensures
        parsed(line) == Parsed::Header,
{
}


/// `core::str::from_utf8`: the text that the bytes spell, where they are
/// UTF-8.
#[verifier::external_body]
pub(crate) fn utf8_text(bytes: &[u8]) -> (r: Option<&str>)
    ensures
        r is Some <==> valid_utf8(bytes@),
        r matches Some(s) ==> s.spec_bytes() == bytes@,
{
    core::str::from_utf8(bytes).ok()
}

/// What a step of the reader gives.
#[derive(Debug, Eq, PartialEq, Clone)]
pub enum Step {
    /// The next symbol.
    Entry(Symbol),
    /// The next symbol has a pattern in the named file, which is not the file
    /// that is open: hand the file over with `Ctags::open` and step again.
    NeedSource(String),
    /// The table is at its end, or at a malformed line.
    End,
}

impl View for Step {
    type V = StepView;

    open spec fn view(&self) -> StepView {
        match self {
            Step::Entry(s) => StepView::Entry(s@),
            Step::NeedSource(file) => StepView::NeedSource(file@),
            Step::End => StepView::End,
        }
    }
}

/// Looks in `content`, from the byte `pos` on, for the next line equal to
/// `needle`: the number of that line, the place after it and the number of
/// lines read by then.
fn find_line(content: &Vec<u8>, pos: usize, lines_read: usize, needle: &[u8], file: Ghost<
    Seq<char>,
>) -> (r: (Option<u64>, usize, usize))
    requires
        lines_read <= pos <= content.len(),
    ensures
        pos <= r.1 <= content.len(),
        r.2 <= r.1,
        scan(
            SourceView { file: file@, rest: content@.skip(pos as int), lines_read: lines_read as nat },
            needle@,
        ) == (
            match r.0 {
                Some(n) => Some(n as nat),
                None => None,
            },
            SourceView { file: file@, rest: content@.skip(r.1 as int), lines_read: r.2 as nat },
        ),
{
    let len = content.len();
    let mut at: usize = pos;
    let mut read: usize = lines_read;
    loop
        invariant
            len == content.len(),
            pos <= at <= len,
            read <= at,
            scan(
                SourceView {
                    file: file@,
                    rest: content@.skip(pos as int),
                    lines_read: lines_read as nat,
                },
                needle@,
            ) == scan(
                SourceView { file: file@, rest: content@.skip(at as int), lines_read: read as nat },
                needle@,
            ),
        decreases len - at,
    {
        if at >= len {
            return (None, at, read);
        }
        let ghost rest = content@.skip(at as int);
        let nl = find_byte_from(content, at, 10);
        let line = slice_subrange(content.as_slice(), at, nl);
        let hit = same_bytes(line, needle);
        assert(rest.take(nl - at) == content@.subrange(at as int, nl as int));
        if nl < len {
            assert(rest.skip(nl - at + 1) == content@.skip(nl + 1));
            at = nl + 1;
        } else {
            assert(rest == content@.subrange(at as int, nl as int));
            assert(content@.skip(len as int) == Seq::<u8>::empty());
            at = len;
        }
        read = read + 1;
        if hit {
            return (Some(read as u64), at, read);
        }
    }
}

/// A tag table that is being read.
pub struct Ctags {
    contents: Vec<u8>,
    pos: usize,
    code_dir: Option<String>,
    /// The name of the source file that is open.
    source: Option<String>,
    /// The bytes of that file, the place of the next search in them, and the
    /// number of lines before that place.
    source_bytes: Vec<u8>,
    source_pos: usize,
    source_lines: usize,
}

impl View for Ctags {
    type V = CtagsView;

    closed spec fn view(&self) -> CtagsView {
        CtagsView {
            rest: self.contents@.skip(self.pos as int),
            code_dir: match self.code_dir {
                Some(d) => Some(d@),
                None => None,
            },
            source: match self.source {
                Some(name) => Some(
                    SourceView {
                        file: name@,
                        rest: self.source_bytes@.skip(self.source_pos as int),
                        lines_read: self.source_lines as nat,
                    },
                ),
                None => None,
            },
        }
    }
}

impl Ctags {
    #[verifier::type_invariant]
    spec fn wf(&self) -> bool {
        &&& self.pos <= self.contents.len()
        &&& self.source_lines <= self.source_pos <= self.source_bytes.len()
    }

    /// A reader at the start of the table `ctags_contents`. With a
    /// `code_dir`, the directory of the source files, patterns are looked up
    /// in them.
    pub fn new(ctags_contents: &[u8], code_dir: Option<&str>) -> (r: Ctags)
        ensures
            r@ == (CtagsView {
                rest: ctags_contents@,
                code_dir: match code_dir {
                    Some(d) => Some(d@),
                    None => None,
                },
                source: None,
            }),
    {
        let contents = vstd::slice::slice_to_vec(ctags_contents);
        assert(contents@.skip(0) == contents@);
        Ctags {
            contents,
            pos: 0,
            code_dir: match code_dir {
                Some(d) => Some(d.to_owned()),
                None => None,
            },
            source: None,
            source_bytes: Vec::new(),
            source_pos: 0,
            source_lines: 0,
        }
    }

    /// The directory of the source files.
    pub fn code_dir(&self) -> (r: Option<&String>)
        ensures
            match r {
                Some(d) => self@.code_dir == Some(d@),
                None => self@.code_dir is None,
            },
    {
        self.code_dir.as_ref()
    }

    /// Opens the source file `file` with the bytes `content`, or as an empty
    /// file where there is no such file. Searches in it start at its first
    /// line.
    pub fn open(&mut self, file: &str, content: Option<&[u8]>)
        ensures
            final(self)@ == (CtagsView {
                source: Some(
                    SourceView {
                        file: file@,
                        rest: match content {
                            Some(bytes) => bytes@,
                            None => Seq::empty(),
                        },
                        lines_read: 0,
                    },
                ),
                ..old(self)@
            }),
    {
        proof {
            use_type_invariant(&*self);
        }
        let bytes = match content {
            Some(b) => vstd::slice::slice_to_vec(b),
            None => Vec::new(),
        };
        assert(bytes@.skip(0) == bytes@);
        self.source_lines = 0;
        self.source_pos = 0;
        self.source_bytes = bytes;
        self.source = Some(file.to_owned());
    }

    /// One step: the next symbol, a request for a source file, or the end.
    pub fn next(&mut self) -> (r: Step)
        ensures
            (final(self)@, r@) == step(old(self)@),
    {
        proof {
            use_type_invariant(&*self);
        }
        loop
            invariant
                self.wf(),
                step(old(self)@) == step(self@),
            decreases self.contents.len() - self.pos,
        {
            let len = self.contents.len();
            if self.pos >= len {
                return Step::End;
            }
            let ghost before = self@;
            let nl = find_byte_from(&self.contents, self.pos, 10);
            let end: usize = if nl < len {
                nl + 1
            } else {
                len
            };
            let raw = slice_subrange(self.contents.as_slice(), self.pos, end);
            proof {
                lemma_first_index(before.rest, 10u8);
                assert(line_len(before.rest) == end - self.pos);
                assert(before.rest.take(end - self.pos) == raw@);
                assert(before.rest.skip(end - self.pos) == self.contents@.skip(end as int));
            }
            let line = match utf8_text(raw) {
                Some(text) => {
                    proof {
                        encode_utf8_decode_utf8(text@);
                    }
                    parse_line(text)
                },
                None => TagLine::Header,
            };
            match line {
                TagLine::Header => {
                    self.pos = end;
                },
                TagLine::Malformed => {
                    assert(self.contents@.skip(len as int) == Seq::<u8>::empty());
                    self.pos = len;
                    return Step::End;
                },
                TagLine::Entry(symbol) => {
                    let expression = chars_of(symbol.expression.as_str());
                    if !(has_prefix(&expression, "/^") && has_suffix(&expression, "$/")) {
                        self.pos = end;
                        let line_num = parse_u64(&expression);
                        return Step::Entry(
                            Symbol {
                                name: symbol.name,
                                file: symbol.file,
                                expression: symbol.expression,
                                line_num,
                                symbol_type: symbol.symbol_type,
                            },
                        );
                    }
                    if self.code_dir.is_none() {
                        self.pos = end;
                        return Step::Entry(symbol);
                    }
                    let open = match &self.source {
                        Some(name) => *name == symbol.file,
                        None => false,
                    };
                    if !open {
                        return Step::NeedSource(symbol.file);
                    }
                    proof {
                        lemma_pattern_len(expression@);
                    }
                    let inner = subvec(&expression, 2, expression.len() - 2);
                    let needle = string_of(&inner);
                    let found = find_line(
                        &self.source_bytes,
                        self.source_pos,
                        self.source_lines,
                        needle.as_str().as_bytes(),
                        Ghost(symbol.file@),
                    );
                    self.source_pos = found.1;
                    self.source_lines = found.2;
                    self.pos = end;
                    return Step::Entry(
                        Symbol {
                            name: symbol.name,
                            file: symbol.file,
                            expression: symbol.expression,
                            line_num: found.0,
                            symbol_type: symbol.symbol_type,
                        },
                    );
                },
            }
        }
    }
}

} // verus!
