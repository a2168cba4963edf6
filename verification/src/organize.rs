//! From one tag table for all objects to one table of symbols for each
//! object.
//!
//! The symbols of the tag table come object after object. The organizer is
//! told each symbol and says what is to be done with it: nothing, open the
//! table of the next object, or write a line. An object whose table is
//! there already is passed over.

use crate::ctags::{Entry, Symbol, SymbolType};
use crate::enrich::{extra_info, get_extra_info_at_line};
use crate::diff::{parsed_tag_line, SymbolId};
use crate::text::{
    append, append_str, chars_of, decimal, decimal_of, is_digit, lemma_decimal_reads_back,
    lemma_first_index_in_the_middle, string_of,
};
use vstd::prelude::*;

verus! {

/// The line number that is written for a symbol: its own, or 0 where it has
/// none.
pub open spec fn written_line(line_num: Option<u64>) -> u64 {
    match line_num {
        Some(n) => n,
        None => 0,
    }
}

/// The line of a table of symbols for the symbol `e` of the object with the
/// text `source`: name, kind, line number and descriptive text, with tabs
/// between them and a line feed at the end.
pub open spec fn tag_line(e: Entry, source: Seq<char>) -> Seq<char> {
    e.name + "\t"@ + e.symbol_type.spec_name() + "\t"@ + decimal(written_line(e.line_num) as nat)
        + "\t"@ + extra_info(e.symbol_type, e.name, source, e.line_num) + "\n"@
}

/// The line of a table of symbols for `symbol`, which stands in the object
/// with the text `source`.
pub fn format_tag_line(symbol: &Symbol, source: &str) -> (r: String)
    ensures
        r@ == tag_line(symbol@, source@),
{
    let mut out = chars_of(symbol.name.as_str());
    append_str(&mut out, "\t");
    append_str(&mut out, symbol.symbol_type.name());
    append_str(&mut out, "\t");
    let line: u64 = match symbol.line_num {
        Some(n) => n,
        None => 0,
    };
    append(&mut out, &decimal_of(line));
    append_str(&mut out, "\t");
    let extra = get_extra_info_at_line(
        symbol.symbol_type,
        symbol.name.as_str(),
        source,
        symbol.line_num,
    );
    append_str(&mut out, extra.as_str());
    append_str(&mut out, "\n");
    string_of(&out)
}

/// The names of the kinds hold no tab.
proof fn lemma_kind_name_has_no_tab(kind: SymbolType)
    ensures
        !kind.spec_name().contains('\t'),
{
    reveal_strlit("Unknown");
    reveal_strlit("Function");
    reveal_strlit("Define");
    reveal_strlit("Variable");
    let s = kind.spec_name();
    if s.contains('\t') {
        let i = choose|i: int| 0 <= i < s.len() && s[i] == '\t';
        assert(i == 0 || i == 1 || i == 2 || i == 3 || i == 4 || i == 5 || i == 6 || i == 7);
    }
}

/// What the organizer writes, the reader of tables of symbols reads back:
/// the line of a symbol whose name holds no tab, taken without its line feed,
/// gives the name and the kind of the symbol, the line number that was
/// written, and the descriptive text.
pub proof fn lemma_written_line_reads_back(e: Entry, source: Seq<char>)
    requires
        !e.name.contains('\t'),
    ensures
        tag_line(e, source).len() > 0,
        tag_line(e, source).last() == '\n',
        parsed_tag_line(tag_line(e, source).drop_last()) == Ok::<
            (SymbolId, u64, Seq<char>),
            crate::diff::TagLineError,
        >(
            (
                SymbolId { name: e.name, kind: e.symbol_type },
                written_line(e.line_num),
                extra_info(e.symbol_type, e.name, source, e.line_num),
            ),
        ),
{
    reveal_strlit("\t");
    reveal_strlit("\n");
    let tab = seq!['\t'];
    assert("\t"@ =~= tab);
    assert("\n"@ =~= seq!['\n']);
    let kind = e.symbol_type.spec_name();
    let number = decimal(written_line(e.line_num) as nat);
    let extra = extra_info(e.symbol_type, e.name, source, e.line_num);
    let line = tag_line(e, source).drop_last();
    let rest2 = number + tab + extra;
    let rest1 = kind + tab + rest2;
    assert(line =~= e.name + tab + rest1);
    lemma_first_index_in_the_middle(e.name, '\t', rest1);
    lemma_kind_name_has_no_tab(e.symbol_type);
    lemma_first_index_in_the_middle(kind, '\t', rest2);
    lemma_decimal_reads_back(written_line(e.line_num) as nat);
    assert(!number.contains('\t')) by {
        if number.contains('\t') {
            let i = choose|i: int| 0 <= i < number.len() && number[i] == '\t';
            assert(is_digit(number[i]));
        }
    }
    lemma_first_index_in_the_middle(number, '\t', extra);
    crate::ctags::lemma_name_gives_kind_back(e.symbol_type);
}

/// What is to be done with a symbol.
#[derive(Debug, Eq, PartialEq, Clone)]
pub enum Action {
    /// Nothing.
    Ignore,
    /// The symbol is the first of the object with this path: look whether
    /// the table of the object is there, call `Organizer::enter`, and hand the
    /// symbol over again.
    Open(String),
    /// Write this line to the table of the object.
    Write(String),
}

/// The view of an `Action`.
pub enum ActionView {
    Ignore,
    Open(Seq<char>),
    Write(Seq<char>),
}

impl View for Action {
    type V = ActionView;

    open spec fn view(&self) -> ActionView {
        match self {
            Action::Ignore => ActionView::Ignore,
            Action::Open(path) => ActionView::Open(path@),
            Action::Write(line) => ActionView::Write(line@),
        }
    }
}

/// What an `Organizer` holds.
pub struct OrganizerView {
    /// The path of the object whose symbols are coming.
    pub current: Option<Seq<char>>,
    /// Whether the table of that object was there already.
    pub skipped: bool,
    /// The text of that object.
    pub source: Seq<char>,
    /// The number of lines written.
    pub symbols: usize,
    /// The number of objects whose tables were written.
    pub opened: usize,
    /// The number of objects whose tables were there already.
    pub passed: usize,
}

/// One more; the count stops at the largest `usize`.
pub open spec fn one_more(n: usize) -> usize {
    if n < usize::MAX {
        (n + 1) as usize
    } else {
        n
    }
}

/// What is to be done with the symbol `e`, and the state after it: a symbol
/// of unknown kind is ignored; the first symbol of another object asks for
/// that object; a symbol of an object that was passed over is ignored; for
/// any other symbol a line is written.
pub open spec fn accepted(st: OrganizerView, e: Entry) -> (OrganizerView, ActionView) {
    if e.symbol_type == SymbolType::Unknown {
        (st, ActionView::Ignore)
    } else if st.current != Some(e.file) {
        (st, ActionView::Open(e.file))
    } else if st.skipped {
        (st, ActionView::Ignore)
    } else {
        (
            OrganizerView { symbols: one_more(st.symbols), ..st },
            ActionView::Write(tag_line(e, st.source)),
        )
    }
}

/// The state after the object with the path `file` was entered. `existing`
/// says whether its table is there already; `source` is its text.
pub open spec fn entered(st: OrganizerView, file: Seq<char>, existing: bool, source: Seq<char>)
    -> OrganizerView {
    if existing {
        OrganizerView { current: Some(file), skipped: true, passed: one_more(st.passed), ..st }
    } else {
        OrganizerView {
            current: Some(file),
            skipped: false,
            source,
            opened: one_more(st.opened),
            ..st
        }
    }
}

/// Sorts the symbols of a tag table into tables of symbols, object by
/// object.
pub struct Organizer {
    current: Option<String>,
    skipped: bool,
    source: String,
    symbols: usize,
    opened: usize,
    passed: usize,
}

impl View for Organizer {
    type V = OrganizerView;

    closed spec fn view(&self) -> OrganizerView {
        OrganizerView {
            current: match self.current {
                Some(s) => Some(s@),
                None => None,
            },
            skipped: self.skipped,
            source: self.source@,
            symbols: self.symbols,
            opened: self.opened,
            passed: self.passed,
        }
    }
}

fn incremented(n: usize) -> (r: usize)
    ensures
        r == one_more(n),
{
    if n < usize::MAX {
        n + 1
    } else {
        n
    }
}

impl Organizer {
    /// Before the first symbol.
    pub fn new() -> (r: Organizer)
        ensures
            r@ == (OrganizerView {
                current: None,
                skipped: false,
                source: Seq::empty(),
                symbols: 0,
                opened: 0,
                passed: 0,
            }),
    {
        Organizer {
            current: None,
            skipped: false,
            source: String::new(),
            symbols: 0,
            opened: 0,
            passed: 0,
        }
    }

    /// The number of lines written.
    pub fn symbols(&self) -> (r: usize)
        ensures
            r == self@.symbols,
    {
        self.symbols
    }

    /// The number of objects whose tables were written.
    pub fn opened(&self) -> (r: usize)
        ensures
            r == self@.opened,
    {
        self.opened
    }

    /// The number of objects whose tables were there already.
    pub fn passed(&self) -> (r: usize)
        ensures
            r == self@.passed,
    {
        self.passed
    }

    /// What is to be done with `symbol`.
    pub fn accept(&mut self, symbol: &Symbol) -> (r: Action)
        ensures
            (final(self)@, r@) == accepted(old(self)@, symbol@),
    {
        if symbol.symbol_type == SymbolType::Unknown {
            return Action::Ignore;
        }
        let same = match &self.current {
            Some(file) => *file == symbol.file,
            None => false,
        };
        if !same {
            return Action::Open(symbol.file.clone());
        }
        if self.skipped {
            return Action::Ignore;
        }
        self.symbols = incremented(self.symbols);
        Action::Write(format_tag_line(symbol, self.source.as_str()))
    }

    /// Enters the object with the path `file`. `existing` says whether its
    /// table is there already, in which case its symbols are passed over;
    /// `source` is its text.
    pub fn enter(&mut self, file: &str, existing: bool, source: String)
        ensures
            final(self)@ == entered(old(self)@, file@, existing, source@),
    {
        self.current = Some(file.to_owned());
        if existing {
            self.skipped = true;
            self.passed = incremented(self.passed);
        } else {
            self.skipped = false;
            self.source = source;
            self.opened = incremented(self.opened);
        }
    }
}

} // verus!
