//! Descriptive text for the symbols of C sources: the arguments and the
//! return type of a function, the initial value of a variable. The text is
//! guessed from a few lines around the line of the symbol; where the guess
//! gives up it says so with `???`.

use crate::ctags::SymbolType;
use crate::pattern::{
    capture_by, captured, captured_by, captures, group_chars, group_len, group_text, groups_view,
    replace_each, replaced_each,
};
use crate::text::{
    append, append_str, chars_of, contains_sub, find_char_from, find_str, first_index,
    has_prefix, last_index, lemma_last_index, lines, lines_of, rfind_char,
    starts_with, string_of, substitute_str, substituted, subvec, trim, trimmed, views,
};
use regex::Regex;
use vstd::prelude::*;
use vstd::utf8::encode_utf8;

verus! {

/// The number of lines in which the end of an argument list or of an
/// initial value is looked for.
pub const LOOK_AHEAD: usize = 20;

/// The number of lines, the line of the function counted, in which the
/// return type is looked for.
pub const CONTEXT_LINES: usize = 10;

/// `src` with every run of blanks and tabs made one blank, and without a
/// blank or tab after `(` or before `)`.
pub open spec fn whitespace_fixed(src: Seq<char>) -> Seq<char> {
    replaced_each(
        "[ \\t]\\)"@,
        replaced_each("\\([ \\t]"@, replaced_each("[ \\t]+"@, src, " "@), "("@),
        ")"@,
    )
}

/// `src` with every run of blanks and tabs made one blank, and without a
/// blank or tab after `(` or before `)`.
pub fn fix_whitespace(src: &str) -> (r: String)
    ensures
        r@ == whitespace_fixed(src@),
{
    let a = replace_each("[ \\t]+", src, " ");
    let b = replace_each("\\([ \\t]", a.as_str(), "(");
    replace_each("[ \\t]\\)", b.as_str(), ")")
}

/// The lines of `ls` one after the other, with nothing between them.
pub open spec fn joined(ls: Seq<Seq<char>>) -> Seq<char>
    decreases ls.len(),
{
    if ls.len() == 0 {
        Seq::empty()
    } else {
        joined(ls.drop_last()) + ls.last()
    }
}

/// The smaller of two numbers.
pub open spec fn least(a: int, b: int) -> int {
    if a <= b {
        a
    } else {
        b
    }
}

/// At most `count` lines of `ls`, from line `line_num` on; lines are counted
/// from 1, and there is no line 0.
pub open spec fn lines_from(ls: Seq<Seq<char>>, line_num: u64, count: int) -> Seq<Seq<char>> {
    if line_num == 0 {
        Seq::empty()
    } else {
        let from = least(line_num - 1, ls.len() as int);
        ls.subrange(from, least(from + count, ls.len() as int))
    }
}

/// The lines `ls[from..to]` one after the other.
fn join_lines(ls: &Vec<Vec<char>>, from: usize, to: usize) -> (r: Vec<char>)
    requires
        from <= to <= ls.len(),
    ensures
        r@ == joined(views(ls@).subrange(from as int, to as int)),
{
    let mut r: Vec<char> = Vec::new();
    let mut i: usize = from;
    assert(views(ls@).subrange(from as int, from as int) =~= Seq::<Seq<char>>::empty());
    while i < to
        invariant
            from <= i <= to <= ls.len(),
            r@ == joined(views(ls@).subrange(from as int, i as int)),
        decreases to - i,
    {
        assert(views(ls@).subrange(from as int, i + 1).drop_last() == views(ls@).subrange(
            from as int,
            i as int,
        ));
        append(&mut r, &ls[i]);
        i += 1;
    }
    r
}

/// The text of at most `count` lines of `ls` from line `line_num` on.
fn text_from(ls: &Vec<Vec<char>>, line_num: u64, count: usize) -> (r: Vec<char>)
    ensures
        r@ == joined(lines_from(views(ls@), line_num, count as int)),
{
    if line_num == 0 {
        return Vec::new();
    }
    let n = ls.len();
    let from: usize = if line_num - 1 >= n as u64 {
        n
    } else {
        (line_num - 1) as usize
    };
    let to: usize = if n - from > count {
        from + count
    } else {
        n
    };
    join_lines(ls, from, to)
}

/// The number of `(` in `s` less the number of `)`.
pub open spec fn balance(s: Seq<char>) -> int
    decreases s.len(),
{
    if s.len() == 0 {
        0
    } else {
        balance(s.drop_last()) + if s.last() == '(' {
            1int
        } else if s.last() == ')' {
            -1int
        } else {
            0int
        }
    }
}

/// Whether `s` holds a `)` at which the balance comes back to zero.
pub open spec fn closed(s: Seq<char>) -> bool
    decreases s.len(),
{
    s.len() > 0 && (closed(s.drop_last()) || (s.last() == ')' && balance(s) == 0))
}

/// The argument list in `s`: the characters at which the balance is not
/// zero, up to the first `)` at which it comes back to zero; that `)` is the
/// last of them.
pub open spec fn inside(s: Seq<char>) -> Seq<char>
    decreases s.len(),
{
    if s.len() == 0 {
        Seq::empty()
    } else if closed(s.drop_last()) {
        inside(s.drop_last())
    } else if balance(s) != 0 || s.last() == ')' {
        inside(s.drop_last()).push(s.last())
    } else {
        inside(s.drop_last())
    }
}

/// What follows the closing `)` adds nothing to the argument list.
proof fn lemma_closed_stays(s: Seq<char>, i: int)
    requires
        0 <= i <= s.len(),
        closed(s.take(i)),
    ensures
        closed(s),
        inside(s) == inside(s.take(i)),
    decreases s.len() - i,
{
    if i == s.len() {
        assert(s.take(i) == s);
    } else {
        assert(s.take(i + 1).drop_last() == s.take(i));
        lemma_closed_stays(s, i + 1);
    }
}

/// The argument list of a function, before its white space is set right:
/// what `inside` finds in at most `LOOK_AHEAD` lines from the line of the
/// function on, and `, ???)` after it where the list does not end there.
pub open spec fn raw_func_args(source: Seq<char>, line_num: u64) -> Seq<char> {
    let s = joined(lines_from(lines(source), line_num, LOOK_AHEAD as int));
    if closed(s) {
        inside(s)
    } else {
        inside(s) + ", ???)"@
    }
}

/// The argument list of the function at line `line_num` of `source`, and
/// `(???)` where the line is not known.
pub open spec fn func_args(source: Seq<char>, line_num: Option<u64>) -> Seq<char> {
    match line_num {
        Some(n) => whitespace_fixed(raw_func_args(source, n)),
        None => "(???)"@,
    }
}

/// The argument list of the function at line `line_num` of `source_code`.
pub fn get_func_args_at_line(source_code: &str, line_num: Option<u64>) -> (r: String)
    ensures
        r@ == func_args(source_code@, line_num),
{
    let line_num = match line_num {
        Some(n) => n,
        None => {
            return "(???)".to_owned();
        },
    };
    let source = chars_of(source_code);
    let ls = lines_of(&source);
    let s = text_from(&ls, line_num, LOOK_AHEAD);
    let mut result: Vec<char> = Vec::new();
    let mut depth: i128 = 0;
    let mut done = false;
    let mut i: usize = 0;
    assert(s@.take(0) =~= Seq::<char>::empty());
    while i < s.len() && !done
        invariant
            i <= s.len(),
            -(i as int) <= depth <= i,
            depth == balance(s@.take(i as int)),
            done == closed(s@.take(i as int)),
            result@ == inside(s@.take(i as int)),
        decreases s.len() - i,
    {
        assert(s@.take(i + 1).drop_last() == s@.take(i as int));
        let c = s[i];
        if c == '(' {
            depth += 1;
        } else if c == ')' {
            depth -= 1;
        }
        if depth != 0 || c == ')' {
            result.push(c);
        }
        if c == ')' && depth == 0 {
            done = true;
        }
        i += 1;
    }
    proof {
        if done {
            lemma_closed_stays(s@, i as int);
        } else {
            assert(s@.take(i as int) == s@);
        }
    }
    if !done {
        append_str(&mut result, ", ???)");
    }
    let raw = string_of(&result);
    fix_whitespace(raw.as_str())
}

/// The initial value in `s`: what stands from the first `=` on, before the
/// first `;`. There is none where no `=` stands before the first `;`.
pub open spec fn initial_value(s: Seq<char>) -> Seq<char> {
    let before = s.take(first_index(s, ';'));
    before.skip(first_index(before, '='))
}

/// The initial value of a variable, before its white space is set right:
/// what `initial_value` finds in at most `LOOK_AHEAD` lines from the line of
/// the variable on, and ` ???` after it where no `;` stands there.
pub open spec fn raw_var_contents(source: Seq<char>, line_num: u64) -> Seq<char> {
    let s = joined(lines_from(lines(source), line_num, LOOK_AHEAD as int));
    if first_index(s, ';') < s.len() {
        initial_value(s)
    } else {
        initial_value(s) + " ???"@
    }
}

/// The initial value of the variable at line `line_num` of `source`, after
/// a blank, and `= ???` where the line is not known.
pub open spec fn var_contents(source: Seq<char>, line_num: Option<u64>) -> Seq<char> {
    match line_num {
        Some(n) => " "@ + whitespace_fixed(trim(raw_var_contents(source, n))),
        None => "= ???"@,
    }
}

/// The initial value of the variable at line `line_num` of `source_code`.
pub fn get_var_contents_at_line(source_code: &str, line_num: Option<u64>) -> (r: String)
    ensures
        r@ == var_contents(source_code@, line_num),
{
    let line_num = match line_num {
        Some(n) => n,
        None => {
            return "= ???".to_owned();
        },
    };
    let source = chars_of(source_code);
    let ls = lines_of(&source);
    let s = text_from(&ls, line_num, LOOK_AHEAD);
    assert(s@.skip(0) == s@);
    let semi = find_char_from(&s, 0, ';');
    let before = subvec(&s, 0, semi);
    assert(before@.skip(0) == before@);
    let eq = find_char_from(&before, 0, '=');
    let mut result = subvec(&before, eq, before.len());
    if semi == s.len() {
        append_str(&mut result, " ???");
    }
    let t = trimmed(&result);
    let text = string_of(&t);
    let fixed = fix_whitespace(text.as_str());
    let mut out = chars_of(" ");
    append_str(&mut out, fixed.as_str());
    string_of(&out)
}


/// A type after `struct`, `enum` or `union`, with `const` before it and
/// stars after it where they are there.
pub const TAGGED_TYPE: &'static str =
    "\\b(const )?(struct|enum|union) ([a-zA-Z$_][a-zA-Z0-9$_]*)\\b[ \t]*(\\**)";

/// A type after `signed` or `unsigned`.
pub const SIGNED_TYPE: &'static str =
    "\\b(const )?(signed|unsigned) ([a-zA-Z$_][a-zA-Z0-9$_]*)\\b[ \t]*(\\**)";

/// A type of one word.
pub const PLAIN_TYPE: &'static str = "\\b(const )?()([a-zA-Z$_][a-zA-Z0-9$_]*)\\b[ \t]*(\\**)";

/// What a `RetvalState` holds: the return type found so far.
pub struct RetvalView {
    pub is_const: bool,
    pub type_text: Seq<char>,
    pub ptr_level: nat,
}

/// The return type of a function, as far as it has been found.
pub struct RetvalState {
    is_const: bool,
    type_text: String,
    ptr_level: usize,
}

impl View for RetvalState {
    type V = RetvalView;

    closed spec fn view(&self) -> RetvalView {
        RetvalView {
            is_const: self.is_const,
            type_text: self.type_text@,
            ptr_level: self.ptr_level as nat,
        }
    }
}

/// `n` stars.
pub open spec fn stars(n: nat) -> Seq<char> {
    Seq::new(n, |i: int| '*')
}

/// The text of a return type: `const` where it is constant, the name of the
/// type or `int` where none was found, and a star for each level of pointer.
pub open spec fn finalized(st: RetvalView) -> Seq<char> {
    (if st.is_const {
        "const "@
    } else {
        Seq::empty()
    }) + (if st.type_text.len() != 0 {
        st.type_text
    } else {
        "int"@
    }) + stars(st.ptr_level)
}

/// The return type that the groups of a match spell: group 1 says whether
/// it is constant, groups 2 and 3 are the two words of its name, of which the
/// first may be empty, and group 4 holds its stars. Without one of the groups
/// 2, 3 and 4 there is none.
pub open spec fn type_of_groups(groups: Seq<Option<Seq<char>>>) -> Option<RetvalView> {
    match (group_text(groups, 2), group_text(groups, 3), group_text(groups, 4)) {
        (Some(prefix), Some(name), Some(level)) => Some(
            RetvalView {
                is_const: match group_text(groups, 1) {
                    Some(c) => c.len() > 0,
                    None => false,
                },
                type_text: if prefix.len() == 0 {
                    name
                } else {
                    prefix + " "@ + name
                },
                ptr_level: encode_utf8(level).len(),
            },
        ),
        _ => None,
    }
}

/// The state after a match `found` was looked at, and whether it gave a
/// type.
pub open spec fn tried(st: RetvalView, found: Option<Seq<Option<Seq<char>>>>) -> (
    RetvalView,
    bool,
) {
    match found {
        Some(groups) => match type_of_groups(groups) {
            Some(t) => (t, true),
            None => (st, false),
        },
        None => (st, false),
    }
}

/// Whether a line ends the search for a return type: it begins, after white
/// space, with `#` or `/`, or it holds `*/`.
pub open spec fn ends_search(line: Seq<char>) -> bool {
    starts_with(trim(line), "#"@) || starts_with(trim(line), "/"@) || contains_sub(
        trim(line),
        "*/"@,
    )
}

/// `line` without the words `static` and `inline`.
pub open spec fn without_storage(line: Seq<char>) -> Seq<char> {
    substituted(substituted(line, "static"@, Seq::empty()), "inline"@, Seq::empty())
}

/// The state after `line` was looked at, and the return type where the line
/// settles it: a line that ends the search settles it as it stands; else the
/// first of the three kinds of type that the line holds, `static` and
/// `inline` left out, settles it.
pub open spec fn fed(st: RetvalView, line: Seq<char>) -> (RetvalView, Option<Seq<char>>) {
    let l = without_storage(line);
    let a = tried(st, captured_by(TAGGED_TYPE@, l));
    let b = tried(st, captured_by(SIGNED_TYPE@, l));
    let c = tried(st, captured_by(PLAIN_TYPE@, l));
    if ends_search(line) {
        (st, Some(finalized(st)))
    } else if a.1 {
        (a.0, Some(finalized(a.0)))
    } else if b.1 {
        (b.0, Some(finalized(b.0)))
    } else if c.1 {
        (c.0, Some(finalized(c.0)))
    } else {
        (st, None)
    }
}

impl RetvalState {
    /// Nothing found yet.
    pub fn new() -> (r: RetvalState)
        ensures
            r@ == (RetvalView { is_const: false, type_text: Seq::empty(), ptr_level: 0 }),
    {
        RetvalState { is_const: false, type_text: String::new(), ptr_level: 0 }
    }

    /// The text of the return type.
    pub fn finalize(&self) -> (r: String)
        ensures
            r@ == finalized(self@),
    {
        let mut result: Vec<char> = Vec::new();
        if self.is_const {
            append_str(&mut result, "const ");
        }
        let name = chars_of(self.type_text.as_str());
        if name.len() != 0 {
            append(&mut result, &name);
        } else {
            append_str(&mut result, "int");
        }
        let ghost head = result@;
        let mut i: usize = 0;
        assert(stars(0) =~= Seq::<char>::empty());
        assert(head + stars(0) =~= head);
        while i < self.ptr_level
            invariant
                i <= self.ptr_level,
                result@ == head + stars(i as nat),
            decreases self.ptr_level - i,
        {
            result.push('*');
            assert(stars((i + 1) as nat) =~= stars(i as nat).push('*'));
            assert(head + stars(i as nat).push('*') =~= (head + stars(i as nat)).push('*'));
            i += 1;
        }
        assert(Seq::<char>::empty() + self@.type_text =~= self@.type_text);
        assert(Seq::<char>::empty() + "int"@ =~= "int"@);
        string_of(&result)
    }

    /// Takes the type that a match spells.
    fn take_groups(&mut self, groups: &Vec<Option<String>>) -> (r: bool)
        ensures
            (final(self)@, r) == tried(old(self)@, Some(groups_view(groups@))),
    {
        let prefix = match group_chars(groups, 2) {
            Some(p) => p,
            None => {
                return false;
            },
        };
        let name = match group_chars(groups, 3) {
            Some(n) => n,
            None => {
                return false;
            },
        };
        let level: usize = match group_len(groups, 4) {
            Some(l) => l,
            None => {
                return false;
            },
        };
        let is_const = match group_chars(groups, 1) {
            Some(c) => c.len() > 0,
            None => false,
        };
        let type_text = if prefix.len() == 0 {
            name
        } else {
            let mut t = prefix;
            append_str(&mut t, " ");
            append(&mut t, &name);
            t
        };
        self.is_const = is_const;
        self.type_text = string_of(&type_text);
        self.ptr_level = level;
        true
    }

    /// Looks for `pattern` in `line` and takes the type that its match
    /// spells.
    pub fn try_regex(&mut self, pattern: Regex, line: &str) -> (r: bool)
        ensures
            (final(self)@, r) == tried(old(self)@, captured(pattern, line@)),
    {
        match captures(&pattern, line) {
            Some(groups) => self.take_groups(&groups),
            None => false,
        }
    }

    /// Looks for the pattern with the text `pattern` in `line`.
    fn try_pattern(&mut self, pattern: &str, line: &str) -> (r: bool)
        ensures
            (final(self)@, r) == tried(old(self)@, captured_by(pattern@, line@)),
    {
        match capture_by(pattern, line) {
            Some(groups) => self.take_groups(&groups),
            None => false,
        }
    }

    /// Looks at one line above a function: the return type, where the line
    /// settles it.
    pub fn feed(&mut self, line: &str) -> (r: Option<String>)
        ensures
            final(self)@ == fed(old(self)@, line@).0,
            match r {
                Some(text) => fed(old(self)@, line@).1 == Some(text@),
                None => fed(old(self)@, line@).1 is None,
            },
    {
        let v = chars_of(line);
        let t = trimmed(&v);
        let mark = chars_of("*/");
        proof {
            reveal_strlit("*/");
            crate::text::lemma_find_sub(t@, "*/"@);
        }
        if has_prefix(&t, "#") || has_prefix(&t, "/") || (t.len() >= 2 && find_str(&t, &mark)
            <= t.len() - 2) {
            return Some(self.finalize());
        }
        let a = substitute_str(&v, "static", "");
        let b = substitute_str(&a, "inline", "");
        let l = string_of(&b);
        proof {
            reveal_strlit("");
            assert(""@ =~= Seq::<char>::empty());
        }
        if self.try_pattern(TAGGED_TYPE, l.as_str()) {
            return Some(self.finalize());
        }
        if self.try_pattern(SIGNED_TYPE, l.as_str()) {
            return Some(self.finalize());
        }
        if self.try_pattern(PLAIN_TYPE, l.as_str()) {
            return Some(self.finalize());
        }
        None
    }
}

/// The pattern that finds what stands before the name of a function and
/// its `(`.
pub open spec fn signature_pattern(name: Seq<char>) -> Seq<char> {
    "(.*)[ \t]*"@ + name + "[ \t]*\\("@
}

/// The return type that the lines `above` a function give, looked at from
/// the last to the first: the first line that settles it gives it; the text
/// from the last `}` of a line on is looked at in place of the line, and
/// nothing above that line; where no line settles it, it is `int`.
pub open spec fn type_above(st: RetvalView, above: Seq<Seq<char>>) -> Seq<char>
    decreases above.len(),
{
    if above.len() == 0 {
        "int"@
    } else {
        let line = above.last();
        let k = last_index(line, '}');
        if k >= 0 {
            match fed(st, line.skip(k)).1 {
                Some(r) => r,
                None => "int"@,
            }
        } else {
            match fed(st, line).1 {
                Some(r) => r,
                None => type_above(fed(st, line).0, above.drop_last()),
            }
        }
    }
}

/// The lines in which the return type of the function at line `line_num` is
/// looked for: that line and the `CONTEXT_LINES - 1` lines above it, as far
/// as `ls` has them.
pub open spec fn context(ls: Seq<Seq<char>>, line_num: u64) -> Seq<Seq<char>> {
    let begin = if line_num >= CONTEXT_LINES {
        line_num - CONTEXT_LINES
    } else {
        0
    };
    ls.subrange(least(begin, ls.len() as int), least(line_num as int, ls.len() as int))
}

/// The return type of the function `name` at line `line_num` of `source`.
///
/// It is `int` where the line is not known or `source` has no such lines.
/// What stands before the name and its `(` in the last line of the context
/// is looked at first, without the white space at its ends; it is
/// `unknown_t` where the name does not stand there before a `(`. Then the
/// lines above are looked at.
pub open spec fn func_ret(name: Seq<char>, source: Seq<char>, line_num: Option<u64>) -> Seq<
    char,
> {
    match line_num {
        None => "int"@,
        Some(n) => {
            let w = context(lines(source), n);
            let st = RetvalView { is_const: false, type_text: Seq::empty(), ptr_level: 0 };
            if w.len() == 0 {
                "int"@
            } else {
                match captured_by(signature_pattern(name), w.last()) {
                    None => "unknown_t"@,
                    Some(groups) => match group_text(groups, 1) {
                        None => "unknown_t"@,
                        Some(chunk) => match fed(st, trim(chunk)).1 {
                            Some(r) => r,
                            None => type_above(fed(st, trim(chunk)).0, w.drop_last()),
                        },
                    },
                }
            }
        },
    }
}

/// The return type of the function `symbol_name` at line `line_num` of
/// `source_code`.
pub fn get_func_ret_at_line(symbol_name: &str, source_code: &str, line_num: Option<u64>) -> (r:
    String)
    ensures
        r@ == func_ret(symbol_name@, source_code@, line_num),
{
    let at = match line_num {
        Some(n) => n,
        None => {
            return "int".to_owned();
        },
    };
    let source = chars_of(source_code);
    let ls = lines_of(&source);
    let n = ls.len();
    let begin: usize = if at >= CONTEXT_LINES as u64 {
        if at - CONTEXT_LINES as u64 >= n as u64 {
            n
        } else {
            (at - CONTEXT_LINES as u64) as usize
        }
    } else {
        0
    };
    let end: usize = if at >= n as u64 {
        n
    } else {
        at as usize
    };
    let ghost w = context(lines(source_code@), at);
    assert(w == views(ls@).subrange(begin as int, end as int));
    if begin >= end {
        return "int".to_owned();
    }
    let mut pattern = chars_of("(.*)[ \t]*");
    append_str(&mut pattern, symbol_name);
    append_str(&mut pattern, "[ \t]*\\(");
    let first_line = string_of(&ls[end - 1]);
    assert(w.last() == first_line@);
    let groups = match capture_by(string_of(&pattern).as_str(), first_line.as_str()) {
        Some(g) => g,
        None => {
            return "unknown_t".to_owned();
        },
    };
    let chunk = match group_chars(&groups, 1) {
        Some(c) => c,
        None => {
            return "unknown_t".to_owned();
        },
    };
    let mut retval = RetvalState::new();
    let initial = string_of(&trimmed(&chunk));
    match retval.feed(initial.as_str()) {
        Some(result) => {
            return result;
        },
        None => {},
    }
    let mut i: usize = end - 1;
    assert(w.drop_last() == views(ls@).subrange(begin as int, i as int));
    while i > begin
        invariant
            begin <= i < end <= ls.len(),
            line_num == Some(at),
            func_ret(symbol_name@, source_code@, line_num) == type_above(
                retval@,
                views(ls@).subrange(begin as int, i as int),
            ),
        decreases i,
    {
        let ghost above = views(ls@).subrange(begin as int, i as int);
        assert(above.last() == ls@[i - 1]@);
        assert(above.drop_last() == views(ls@).subrange(begin as int, i - 1));
        let line = &ls[i - 1];
        let ghost st = retval@;
        proof {
            lemma_last_index(line@, '}');
            assert(func_ret(symbol_name@, source_code@, line_num) == type_above(st, above));
        }
        match rfind_char(line, '}') {
            Some(k) => {
                let tail = subvec(line, k, line.len());
                assert(tail@ == line@.skip(k as int));
                return match retval.feed(string_of(&tail).as_str()) {
                    Some(result) => result,
                    None => "int".to_owned(),
                };
            },
            None => {
                match retval.feed(string_of(line).as_str()) {
                    Some(result) => {
                        return result;
                    },
                    None => {},
                }
            },
        }
        i -= 1;
    }
    assert(views(ls@).subrange(begin as int, begin as int) =~= Seq::<Seq<char>>::empty());
    "int".to_owned()
}

/// The descriptive text of a symbol: for a function its return type, the
/// mark `{name}` where its name goes, and its argument list; for a variable
/// its initial value; for any other symbol nothing.
pub open spec fn extra_info(
    symbol_type: SymbolType,
    name: Seq<char>,
    source: Seq<char>,
    line_num: Option<u64>,
) -> Seq<char> {
    match symbol_type {
        SymbolType::Function => func_ret(name, source, line_num) + " {name}"@ + func_args(
            source,
            line_num,
        ),
        SymbolType::Variable => var_contents(source, line_num),
        _ => Seq::empty(),
    }
}

/// The descriptive text of the symbol `symbol_name` of the kind
/// `symbol_type` at line `line_num` of `source_code`.
pub fn get_extra_info_at_line(
    symbol_type: SymbolType,
    symbol_name: &str,
    source_code: &str,
    line_num: Option<u64>,
) -> (r: String)
    ensures
        r@ == extra_info(symbol_type, symbol_name@, source_code@, line_num),
{
    match symbol_type {
        SymbolType::Function => {
            let ret = get_func_ret_at_line(symbol_name, source_code, line_num);
            let args = get_func_args_at_line(source_code, line_num);
            let mut out = chars_of(ret.as_str());
            append_str(&mut out, " {name}");
            append_str(&mut out, args.as_str());
            string_of(&out)
        },
        SymbolType::Variable => get_var_contents_at_line(source_code, line_num),
        _ => String::new(),
    }
}

} // verus!
