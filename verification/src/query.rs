//! Questions to the index: the search patterns that are handed to the
//! search program, and the pages made from its answers.

use crate::data::{viewer_address, ProjectRepo};
use crate::natural::{indices, is_permutation, natural_order_rev, natural_order_rev_of, permuted,
    texts};
use crate::pattern::{replace_each, replaced_each};
use crate::text::{
    append, append_str, chars_of, find_char_from, first_index, is_str, lemma_first_index,
    lemma_first_index_is, string_of, substitute_str, substituted, subvec, views,
};
use vstd::prelude::*;
use vstd::utf8::encode_utf8;

verus! {

/// Whether `c` is a letter or a digit, as `char::is_alphanumeric` says.
pub uninterp spec fn alphanumeric(c: char) -> bool;

/// `char::is_alphanumeric`.
#[verifier::external_body]
pub(crate) fn is_alphanumeric(c: char) -> (r: bool)
    ensures
        r == alphanumeric(c),
{
    c.is_alphanumeric()
}

/// Whether `s` holds letters, digits and `_` only.
pub open spec fn is_word(s: Seq<char>) -> bool {
    forall|i: int| 0 <= i < s.len() ==> alphanumeric(#[trigger] s[i]) || s[i] == '_'
}

/// Whether `v` holds letters, digits and `_` only.
fn word(v: &Vec<char>) -> (r: bool)
    ensures
        r == is_word(v@),
{
    let mut i: usize = 0;
    while i < v.len()
        invariant
            i <= v.len(),
            forall|j: int| 0 <= j < i ==> alphanumeric(#[trigger] v@[j]) || v@[j] == '_',
        decreases v.len() - i,
    {
        if !(is_alphanumeric(v[i]) || v[i] == '_') {
            return false;
        }
        i += 1;
    }
    true
}

/// Whether a name can be that of a project: it holds no `/`.
pub fn is_project_name(project: &str) -> (r: bool)
    ensures
        r == !project@.contains('/'),
{
    let v = chars_of(project);
    assert(v@.skip(0) == v@);
    let k = find_char_from(&v, 0, '/');
    proof {
        lemma_first_index(v@, '/');
        if k < v.len() {
            assert(v@[k as int] == '/');
        }
    }
    k == v.len()
}

/// The pattern that finds the names which `query` matches as a whole: a
/// query of more than a word stands in parentheses.
pub open spec fn completion_pattern(query: Seq<char>) -> Seq<char> {
    if is_word(query) {
        "^"@ + query + "$"@
    } else {
        "^("@ + query + ")$"@
    }
}

/// The pattern that finds the names which `query` matches as a whole.
pub fn complete_query(query: &str) -> (r: String)
    ensures
        r@ == completion_pattern(query@),
{
    let q = chars_of(query);
    let mut out: Vec<char> = Vec::new();
    if word(&q) {
        append_str(&mut out, "^");
        append(&mut out, &q);
        append_str(&mut out, "$");
    } else {
        append_str(&mut out, "^(");
        append(&mut out, &q);
        append_str(&mut out, ")$");
    }
    assert(Seq::<char>::empty() + "^"@ == "^"@);
    assert(Seq::<char>::empty() + "^("@ == "^("@);
    string_of(&out)
}

/// The part of a search pattern for the actions: any action for `arm`, else
/// one of the letters of `actions`.
pub open spec fn action_class(actions: Seq<char>) -> Seq<char> {
    if actions == "arm"@ {
        "."@
    } else {
        "["@ + actions + "]"@
    }
}

/// The name of the kind that a letter stands for; no name for any other
/// letter.
pub open spec fn kind_name(c: char) -> Seq<char> {
    if c == 'f' {
        "Function"@
    } else if c == 'd' {
        "Define"@
    } else if c == 'v' {
        "Variable"@
    } else {
        Seq::empty()
    }
}

/// The names of the kinds that the letters of `types` stand for, with `|`
/// between them.
pub open spec fn kind_names(types: Seq<char>) -> Seq<char>
    decreases types.len(),
{
    if types.len() == 0 {
        Seq::empty()
    } else if types.len() == 1 {
        kind_name(types[0])
    } else {
        kind_names(types.drop_last()) + "|"@ + kind_name(types.last())
    }
}

/// The part of a search pattern for the kinds: any text where `types` gives
/// no name, else one of the names.
pub open spec fn kind_class(types: Seq<char>) -> Seq<char> {
    if kind_names(types).len() == 0 {
        ".*"@
    } else {
        "("@ + kind_names(types) + ")"@
    }
}

/// `query` with a `.` before each `*` and `+` that does not follow a `.` or
/// a `]`.
pub open spec fn expanded(query: Seq<char>) -> Seq<char> {
    replaced_each("(^|[^.\\]])([*+])"@, query, "$1.$2"@)
}

/// The search pattern for the lines of the files of differences that tell
/// of an action of `actions` on a symbol whose name matches `query` and whose
/// kind is one of `types`. In the whole pattern `.` gives way to a class
/// that matches no tab.
pub open spec fn diff_pattern(query: Seq<char>, actions: Seq<char>, types: Seq<char>) -> Seq<
    char,
> {
    let q = expanded(query);
    let name = if is_word(q) {
        q
    } else {
        "("@ + q + ")"@
    };
    substituted(
        "^"@ + action_class(actions) + "\\t"@ + name + "\\t"@ + kind_class(types),
        "."@,
        "[^\\t]"@,
    )
}

/// The names of the kinds of `types`.
fn kind_names_of(types: &Vec<char>) -> (r: Vec<char>)
    ensures
        r@ == kind_names(types@),
{
    let mut out: Vec<char> = Vec::new();
    let mut i: usize = 0;
    assert(types@.take(0) =~= Seq::<char>::empty());
    while i < types.len()
        invariant
            i <= types.len(),
            out@ == kind_names(types@.take(i as int)),
        decreases types.len() - i,
    {
        let ghost before = out@;
        assert(types@.take(i + 1).drop_last() == types@.take(i as int));
        if i > 0 {
            append_str(&mut out, "|");
        }
        let c = types[i];
        if c == 'f' {
            append_str(&mut out, "Function");
        } else if c == 'd' {
            append_str(&mut out, "Define");
        } else if c == 'v' {
            append_str(&mut out, "Variable");
        }
        assert(out@ =~= kind_names(types@.take(i + 1))) by {
            assert(before + Seq::<char>::empty() =~= before);
            assert(Seq::<char>::empty() + kind_name(c) =~= kind_name(c));
        }
        i += 1;
    }
    assert(types@.take(types@.len() as int) == types@);
    out
}

/// The search pattern for the files of differences.
pub fn diff_query(query: &str, actions: &str, types: &str) -> (r: String)
    ensures
        r@ == diff_pattern(query@, actions@, types@),
{
    let q = chars_of(replace_each("(^|[^.\\]])([*+])", query, "$1.$2").as_str());
    let a = chars_of(actions);
    let mut out = chars_of("^");
    if is_str(&a, "arm") {
        append_str(&mut out, ".");
    } else {
        append_str(&mut out, "[");
        append(&mut out, &a);
        append_str(&mut out, "]");
    }
    assert(out@ =~= "^"@ + action_class(actions@));
    append_str(&mut out, "\\t");
    if word(&q) {
        append(&mut out, &q);
    } else {
        append_str(&mut out, "(");
        append(&mut out, &q);
        append_str(&mut out, ")");
    }
    append_str(&mut out, "\\t");
    let names = kind_names_of(&chars_of(types));
    if names.len() == 0 {
        append_str(&mut out, ".*");
    } else {
        append_str(&mut out, "(");
        append(&mut out, &names);
        append_str(&mut out, ")");
    }
    assert(out@ =~= "^"@ + action_class(actions@) + "\\t"@ + (if is_word(q@) {
        q@
    } else {
        "("@ + q@ + ")"@
    }) + "\\t"@ + kind_class(types@));
    let r = substitute_str(&out, ".", "[^\\t]");
    string_of(&r)
}

/// The fields of a line: what stands between its tabs.
pub open spec fn fields(line: Seq<char>) -> Seq<Seq<char>>
    decreases line.len(),
{
    let k = first_index(line, '\t');
    if 0 <= k < line.len() {
        seq![line.take(k)] + fields(line.skip(k + 1))
    } else {
        seq![line]
    }
}

/// The fields of a line.
fn fields_of(line: &Vec<char>) -> (r: Vec<Vec<char>>)
    ensures
        views(r@) == fields(line@),
{
    let mut out: Vec<Vec<char>> = Vec::new();
    let mut pos: usize = 0;
    assert(line@.skip(0) == line@);
    assert(views(out@) =~= Seq::<Seq<char>>::empty());
    loop
        invariant
            pos <= line.len(),
            fields(line@) == views(out@) + fields(line@.skip(pos as int)),
        decreases line.len() - pos,
    {
        let ghost s = line@.skip(pos as int);
        let ghost before = views(out@);
        let k = find_char_from(line, pos, '\t');
        let field = subvec(line, pos, k);
        assert(s.take(k - pos) == line@.subrange(pos as int, k as int));
        out.push(field);
        assert(views(out@) =~= before.push(field@));
        if k == line.len() {
            assert(field@ == s);
            assert(before + seq![s] =~= before.push(s));
            return out;
        }
        assert(s.skip(k - pos + 1) == line@.skip(k + 1));
        assert(before + (seq![field@] + fields(line@.skip(k + 1))) =~= before.push(field@)
            + fields(line@.skip(k + 1)));
        pos = k + 1;
    }
}

/// The class of a block of a page for an action: its letter, `u` for a
/// letter that is none of `a`, `r` and `m`.
pub open spec fn action_letter(action: Seq<char>) -> Seq<char> {
    if action == "a"@ || action == "r"@ || action == "m"@ {
        action
    } else {
        "u"@
    }
}

/// The sign of an action: `+`, `-` or `~`, and `u` for any other.
pub open spec fn action_sign(action: Seq<char>) -> Seq<char> {
    if action == "a"@ {
        "+"@
    } else if action == "r"@ {
        "-"@
    } else if action == "m"@ {
        "~"@
    } else {
        "u"@
    }
}

/// What stands before the name of a symbol of a kind.
pub open spec fn kind_prefix(kind: Seq<char>) -> Seq<char> {
    if kind == "Function"@ || kind == "Variable"@ {
        "unk_t "@
    } else if kind == "Define"@ {
        "#define "@
    } else {
        Seq::empty()
    }
}

/// The letter of a kind; a kind without a letter stands for itself.
pub open spec fn kind_letter(kind: Seq<char>) -> Seq<char> {
    if kind == "Function"@ {
        "f"@
    } else if kind == "Define"@ {
        "d"@
    } else if kind == "Variable"@ {
        "v"@
    } else {
        kind
    }
}

/// The block of a page for one line of a file of differences of the version
/// `tag`; none for a line with fewer than five fields. The fields are the
/// action, the name, the kind, the file and the line number; a sixth is the
/// descriptive text.
pub open spec fn rendered_line(line: Seq<char>, tag: Seq<char>, viewer: Seq<char>) -> Option<
    Seq<char>,
> {
    let f = fields(line);
    if f.len() < 5 {
        None
    } else {
        let extra = if f.len() > 5 {
            f[5]
        } else {
            Seq::empty()
        };
        Some(
            "<div class="@ + action_letter(f[0]) + "><a href=# class="@ + kind_letter(f[2]) + ">"@
                + kind_letter(f[2]) + "</a><a href=# class="@ + action_letter(f[0]) + ">"@
                + action_sign(f[0]) + "</a><a href=\"diffs?q="@ + f[1] + "\">"@ + kind_prefix(f[2])
                + "<span>"@ + f[1] + "</span>"@ + extra + "</a><hr><a href=\""@ + viewer_address(
                viewer,
                tag,
                f[3],
                f[4],
            ) + "\">"@ + f[3] + ":"@ + f[4] + "</a></div>\n"@,
        )
    }
}

fn action_letter_of(action: &Vec<char>) -> (r: Vec<char>)
    ensures
        r@ == action_letter(action@),
{
    if is_str(action, "a") || is_str(action, "r") || is_str(action, "m") {
        subvec(action, 0, action.len())
    } else {
        chars_of("u")
    }
}

fn action_sign_of(action: &Vec<char>) -> (r: Vec<char>)
    ensures
        r@ == action_sign(action@),
{
    if is_str(action, "a") {
        chars_of("+")
    } else if is_str(action, "r") {
        chars_of("-")
    } else if is_str(action, "m") {
        chars_of("~")
    } else {
        chars_of("u")
    }
}

fn kind_prefix_of(kind: &Vec<char>) -> (r: Vec<char>)
    ensures
        r@ == kind_prefix(kind@),
{
    if is_str(kind, "Function") || is_str(kind, "Variable") {
        chars_of("unk_t ")
    } else if is_str(kind, "Define") {
        chars_of("#define ")
    } else {
        Vec::new()
    }
}

fn kind_letter_of(kind: &Vec<char>) -> (r: Vec<char>)
    ensures
        r@ == kind_letter(kind@),
{
    if is_str(kind, "Function") {
        chars_of("f")
    } else if is_str(kind, "Define") {
        chars_of("d")
    } else if is_str(kind, "Variable") {
        chars_of("v")
    } else {
        subvec(kind, 0, kind.len())
    }
}

/// The block of a page, put together from its parts.
fn block(
    action: &Vec<char>,
    sign: &Vec<char>,
    letter: &Vec<char>,
    prefix: &Vec<char>,
    name: &Vec<char>,
    extra: &Vec<char>,
    address: &str,
    file: &Vec<char>,
    number: &Vec<char>,
) -> (r: Vec<char>)
    ensures
        r@ == "<div class="@ + action@ + "><a href=# class="@ + letter@ + ">"@ + letter@
            + "</a><a href=# class="@ + action@ + ">"@ + sign@ + "</a><a href=\"diffs?q="@ + name@
            + "\">"@ + prefix@ + "<span>"@ + name@ + "</span>"@ + extra@ + "</a><hr><a href=\""@
            + address@ + "\">"@ + file@ + ":"@ + number@ + "</a></div>\n"@,
{
    let mut out = chars_of("<div class=");
    append(&mut out, action);
    append_str(&mut out, "><a href=# class=");
    append(&mut out, letter);
    append_str(&mut out, ">");
    append(&mut out, letter);
    append_str(&mut out, "</a><a href=# class=");
    append(&mut out, action);
    append_str(&mut out, ">");
    append(&mut out, sign);
    append_str(&mut out, "</a><a href=\"diffs?q=");
    append(&mut out, name);
    append_str(&mut out, "\">");
    append(&mut out, prefix);
    append_str(&mut out, "<span>");
    append(&mut out, name);
    append_str(&mut out, "</span>");
    append(&mut out, extra);
    append_str(&mut out, "</a><hr><a href=\"");
    append_str(&mut out, address);
    append_str(&mut out, "\">");
    append(&mut out, file);
    append_str(&mut out, ":");
    append(&mut out, number);
    append_str(&mut out, "</a></div>\n");
    out
}

/// The block of a page for one line of a file of differences.
fn render_chars(line: &Vec<char>, tag: &str, repo: &ProjectRepo) -> (r: Option<Vec<char>>)
    ensures
        match r {
            Some(v) => rendered_line(line@, tag@, repo.source_viewer@) == Some(v@),
            None => rendered_line(line@, tag@, repo.source_viewer@) is None,
        },
{
    let f = fields_of(line);
    if f.len() < 5 {
        return None;
    }
    assert(views(f@)[0] == f@[0]@ && views(f@)[1] == f@[1]@ && views(f@)[2] == f@[2]@ && views(
        f@,
    )[3] == f@[3]@ && views(f@)[4] == f@[4]@);
    let extra: Vec<char> = if f.len() > 5 {
        assert(views(f@)[5] == f@[5]@);
        subvec(&f[5], 0, f[5].len())
    } else {
        Vec::new()
    };
    let action = action_letter_of(&f[0]);
    let sign = action_sign_of(&f[0]);
    let prefix = kind_prefix_of(&f[2]);
    let letter = kind_letter_of(&f[2]);
    let file = string_of(&f[3]);
    let number = string_of(&f[4]);
    let address = repo.source_address(tag, file.as_str(), number.as_str());
    Some(block(&action, &sign, &letter, &prefix, &f[1], &extra, address.as_str(), &f[3], &f[4]))
}

/// The block of a page for one line of a file of differences of the version
/// `tag`.
pub fn render_diff_line(line: &str, tag: &str, repo: &ProjectRepo) -> (r: Option<String>)
    ensures
        match r {
            Some(s) => rendered_line(line@, tag@, repo.source_viewer@) == Some(s@),
            None => rendered_line(line@, tag@, repo.source_viewer@) is None,
        },
{
    match render_chars(&chars_of(line), tag, repo) {
        Some(v) => Some(string_of(&v)),
        None => None,
    }
}


/// What a page of results begins with.
pub const RESULTS_HEAD: &'static str = "<link rel=\"stylesheet\" href=/static/results-inner.css>";

/// The groups of the lines of an answer: what stands between its empty
/// lines.
pub open spec fn groups(ls: Seq<Seq<char>>) -> Seq<Seq<Seq<char>>>
    decreases ls.len(),
{
    let k = first_index(ls, Seq::<char>::empty());
    if 0 <= k < ls.len() {
        seq![ls.take(k)] + groups(ls.skip(k + 1))
    } else {
        seq![ls]
    }
}

/// The blocks of the first `n` lines of `ls`, which are lines of the file of
/// differences of the version `tag`; none where one of the lines has fewer
/// than five fields.
pub open spec fn rendered_lines(ls: Seq<Seq<char>>, tag: Seq<char>, viewer: Seq<char>, n: int)
    -> Option<Seq<char>>
    decreases n,
{
    if n <= 0 {
        Some(Seq::empty())
    } else {
        match (rendered_lines(ls, tag, viewer, n - 1), rendered_line(ls[n - 1], tag, viewer)) {
            (Some(a), Some(b)) => Some(a + b),
            _ => None,
        }
    }
}

/// The part of a page for one group of an answer: the first line of the
/// group is the name of a version and becomes a heading, the others are lines
/// of its file of differences and become blocks.
pub open spec fn rendered_group(g: Seq<Seq<char>>, viewer: Seq<char>) -> Option<Seq<char>> {
    match rendered_lines(g.skip(1), g[0], viewer, g.len() - 1) {
        Some(blocks) => Some("<h2 class=h>"@ + g[0] + "</h2>\n"@ + blocks),
        None => None,
    }
}

/// The names of the entries of `t`.
pub open spec fn names(t: Seq<(Seq<char>, Seq<char>)>) -> Seq<Seq<char>> {
    t.map_values(|e: (Seq<char>, Seq<char>)| e.0)
}

/// `t` with the text `text` under the name `name`, in place of the text
/// that stood under that name, or at the end.
pub open spec fn put(t: Seq<(Seq<char>, Seq<char>)>, name: Seq<char>, text: Seq<char>) -> Seq<
    (Seq<char>, Seq<char>),
> {
    let i = first_index(names(t), name);
    if 0 <= i < t.len() {
        t.update(i, (name, text))
    } else {
        t.push((name, text))
    }
}

/// The parts of a page for the first `n` groups, each under the name of its
/// version: a later group of a version takes the place of an earlier one, and
/// an empty group gives nothing. There are none where a line has fewer than
/// five fields.
pub open spec fn parts(gs: Seq<Seq<Seq<char>>>, viewer: Seq<char>, n: int) -> Option<
    Seq<(Seq<char>, Seq<char>)>,
>
    decreases n,
{
    if n <= 0 {
        Some(Seq::empty())
    } else {
        match parts(gs, viewer, n - 1) {
            None => None,
            Some(t) => if gs[n - 1].len() == 0 {
                Some(t)
            } else {
                match rendered_group(gs[n - 1], viewer) {
                    Some(text) => Some(put(t, gs[n - 1][0], text)),
                    None => None,
                }
            },
        }
    }
}

/// The parts of the page for the answer with the lines `ls`, the versions
/// from the last to the first in their natural order.
pub open spec fn rendered_results(ls: Seq<Seq<char>>, viewer: Seq<char>) -> Option<
    Seq<Seq<char>>,
> {
    match parts(groups(ls), viewer, groups(ls).len() as int) {
        Some(t) => Some(
            permuted(t.map_values(|e: (Seq<char>, Seq<char>)| e.1), natural_order_rev(names(t))),
        ),
        None => None,
    }
}

/// The groups of the lines `ls`.
fn groups_of(ls: &Vec<String>) -> (r: Vec<Vec<Vec<char>>>)
    ensures
        r@.map_values(|g: Vec<Vec<char>>| views(g@)) == groups(texts(ls@)),
{
    let mut out: Vec<Vec<Vec<char>>> = Vec::new();
    let mut group: Vec<Vec<char>> = Vec::new();
    let mut start: usize = 0;
    let mut i: usize = 0;
    let ghost all = texts(ls@);
    assert(all.skip(0) == all);
    assert(out@.map_values(|g: Vec<Vec<char>>| views(g@)) =~= Seq::<Seq<Seq<char>>>::empty());
    assert(views(group@) =~= all.subrange(0, 0));
    while i < ls.len()
        invariant
            start <= i <= ls.len(),
            all == texts(ls@),
            views(group@) == all.subrange(start as int, i as int),
            forall|j: int| start <= j < i ==> all[j] != Seq::<char>::empty(),
            groups(all) == out@.map_values(|g: Vec<Vec<char>>| views(g@)) + groups(
                all.skip(start as int),
            ),
        decreases ls.len() - i,
    {
        let ghost done = out@.map_values(|g: Vec<Vec<char>>| views(g@));
        let ghost held = views(group@);
        let line = chars_of(ls[i].as_str());
        assert(all[i as int] == line@);
        if line.len() == 0 {
            proof {
                let s = all.skip(start as int);
                assert(line@ =~= Seq::<char>::empty());
                lemma_first_index_is(s, Seq::<char>::empty(), i - start);
                assert(s.take(i - start) == all.subrange(start as int, i as int));
                assert(s.skip(i - start + 1) == all.skip(i + 1));
            }
            out.push(group);
            assert(out@.map_values(|g: Vec<Vec<char>>| views(g@)) =~= done.push(held));
            assert(done + (seq![held] + groups(all.skip(i + 1))) =~= done.push(held) + groups(
                all.skip(i + 1),
            ));
            group = Vec::new();
            start = i + 1;
            assert(views(group@) =~= all.subrange(start as int, start as int));
        } else {
            group.push(line);
            assert(views(group@) =~= held.push(line@));
            assert(held.push(all[i as int]) =~= all.subrange(start as int, i + 1));
        }
        i += 1;
    }
    proof {
        let s = all.skip(start as int);
        lemma_first_index_is(s, Seq::<char>::empty(), s.len() as int);
        assert(s == all.subrange(start as int, i as int));
    }
    let ghost done = out@.map_values(|g: Vec<Vec<char>>| views(g@));
    let ghost held = views(group@);
    out.push(group);
    assert(out@.map_values(|g: Vec<Vec<char>>| views(g@)) =~= done.push(held));
    assert(done + seq![held] =~= done.push(held));
    out
}

/// The part of a page for the group `g`.
fn render_group(g: &Vec<Vec<char>>, repo: &ProjectRepo) -> (r: Option<Vec<char>>)
    requires
        g.len() > 0,
    ensures
        match r {
            Some(v) => rendered_group(views(g@), repo.source_viewer@) == Some(v@),
            None => rendered_group(views(g@), repo.source_viewer@) is None,
        },
{
    let tag = string_of(&g[0]);
    let ghost ls = views(g@).skip(1);
    let mut blocks: Vec<char> = Vec::new();
    let mut i: usize = 1;
    assert(views(g@)[0] == g@[0]@);
    while i < g.len()
        invariant
            1 <= i <= g.len(),
            tag@ == views(g@)[0],
            ls == views(g@).skip(1),
            rendered_lines(ls, tag@, repo.source_viewer@, i - 1) == Some(blocks@),
        decreases g.len() - i,
    {
        assert(ls[i - 1] == g@[i as int]@);
        match render_chars(&g[i], tag.as_str(), repo) {
            Some(b) => {
                append(&mut blocks, &b);
            },
            None => {
                proof {
                    lemma_rendered_lines_fail(ls, tag@, repo.source_viewer@, i as int, g.len() - 1);
                }
                return None;
            },
        }
        i += 1;
    }
    let mut out = chars_of("<h2 class=h>");
    append(&mut out, &g[0]);
    append_str(&mut out, "</h2>\n");
    append(&mut out, &blocks);
    Some(out)
}

/// Lines after a line that gives no block change nothing: there are no
/// blocks.
proof fn lemma_rendered_lines_fail(
    ls: Seq<Seq<char>>,
    tag: Seq<char>,
    viewer: Seq<char>,
    k: int,
    n: int,
)
    requires
        0 < k <= n,
        rendered_lines(ls, tag, viewer, k) is None,
    ensures
        rendered_lines(ls, tag, viewer, n) is None,
    decreases n - k,
{
    if k < n {
        lemma_rendered_lines_fail(ls, tag, viewer, k + 1, n);
    }
}

/// The views of the entries of a table of parts.
pub open spec fn part_views(t: Seq<(Vec<char>, Vec<char>)>) -> Seq<(Seq<char>, Seq<char>)> {
    t.map_values(|e: (Vec<char>, Vec<char>)| (e.0@, e.1@))
}

/// Puts `text` under `name`.
fn put_part(t: &mut Vec<(Vec<char>, Vec<char>)>, name: Vec<char>, text: Vec<char>)
    ensures
        part_views(final(t)@) == put(part_views(old(t)@), name@, text@),
{
    let ghost before = part_views(t@);
    let mut i: usize = 0;
    while i < t.len() && !crate::text::same_chars(&t[i].0, &name)
        invariant
            i <= t.len(),
            forall|j: int| 0 <= j < i ==> names(part_views(t@))[j] != name@,
        decreases t.len() - i,
    {
        i += 1;
    }
    proof {
        lemma_first_index_is(names(before), name@, i as int);
    }
    if i < t.len() {
        t[i] = (name, text);
        assert(part_views(t@) =~= before.update(i as int, (name@, text@)));
    } else {
        t.push((name, text));
        assert(part_views(t@) =~= before.push((name@, text@)));
    }
}

/// The parts of the page for the answer with the lines `lines`: one part
/// for each version, the versions from the last to the first in their
/// natural order. There is no result where a line of a file of differences
/// has fewer than five fields.
pub fn render_results(lines: &Vec<String>, repo: &ProjectRepo) -> (r: Option<Vec<String>>)
    ensures
        match r {
            Some(v) => rendered_results(texts(lines@), repo.source_viewer@) == Some(texts(v@)),
            None => rendered_results(texts(lines@), repo.source_viewer@) is None,
        },
{
    let gs = groups_of(lines);
    let ghost all = groups(texts(lines@));
    let ghost viewer = repo.source_viewer@;
    let mut table: Vec<(Vec<char>, Vec<char>)> = Vec::new();
    let mut i: usize = 0;
    assert(part_views(table@) =~= Seq::<(Seq<char>, Seq<char>)>::empty());
    while i < gs.len()
        invariant
            i <= gs.len(),
            viewer == repo.source_viewer@,
            all == groups(texts(lines@)),
            all == gs@.map_values(|g: Vec<Vec<char>>| views(g@)),
            parts(all, viewer, i as int) == Some(part_views(table@)),
        decreases gs.len() - i,
    {
        assert(all[i as int] == views(gs@[i as int]@));
        if gs[i].len() > 0 {
            match render_group(&gs[i], repo) {
                Some(text) => {
                    assert(views(gs@[i as int]@)[0] == gs@[i as int]@[0]@);
                    let name = subvec(&gs[i][0], 0, gs[i][0].len());
                    assert(name@ == gs@[i as int]@[0]@);
                    put_part(&mut table, name, text);
                },
                None => {
                    proof {
                        assert(all[i as int].len() == gs@[i as int]@.len());
                        assert(parts(all, viewer, i + 1) is None);
                        lemma_parts_fail(all, viewer, i + 1, gs@.len() as int);
                    }
                    return None;
                },
            }
        }
        i += 1;
    }
    let mut keys: Vec<String> = Vec::new();
    let mut k: usize = 0;
    while k < table.len()
        invariant
            k <= table.len(),
            keys@.len() == k,
            forall|j: int| 0 <= j < k ==> (#[trigger] keys@[j])@ == table@[j].0@,
        decreases table.len() - k,
    {
        keys.push(string_of(&table[k].0));
        k += 1;
    }
    assert(texts(keys@) =~= names(part_views(table@)));
    let order = natural_order_rev_of(&keys);
    let mut out: Vec<String> = Vec::new();
    let mut p: usize = 0;
    while p < order.len()
        invariant
            p <= order.len(),
            order@.len() == table@.len(),
            is_permutation(indices(order@), table@.len() as nat),
            out@.len() == p,
            forall|q: int| 0 <= q < p ==> (#[trigger] out@[q])@ == table@[indices(order@)[q]].1@,
        decreases order.len() - p,
    {
        assert(0 <= indices(order@)[p as int] < table@.len());
        out.push(string_of(&table[order[p]].1));
        p += 1;
    }
    assert(texts(out@) =~= permuted(
        part_views(table@).map_values(|e: (Seq<char>, Seq<char>)| e.1),
        natural_order_rev(names(part_views(table@))),
    ));
    Some(out)
}

/// Groups after a group that gives no part change nothing: there are no
/// parts.
proof fn lemma_parts_fail(gs: Seq<Seq<Seq<char>>>, viewer: Seq<char>, k: int, n: int)
    requires
        0 < k <= n,
        parts(gs, viewer, k) is None,
    ensures
        parts(gs, viewer, n) is None,
    decreases n - k,
{
    if k < n {
        lemma_parts_fail(gs, viewer, k + 1, n);
    }
}


/// The query of a completion that asks for none.
pub const ANY_NAME: &'static str = ".*";

/// The number of names of a completion that asks for none.
pub const COMPLETION_COUNT: u64 = 100;

/// The actions of a search that asks for none.
pub const ALL_ACTIONS: &'static str = "arm";

/// The kinds of a search that asks for none.
pub const ALL_TYPES: &'static str = "fvd";

/// `name` in title case, as `inflector::cases::titlecase::to_title_case`
/// writes it.
pub uninterp spec fn title_cased(name: Seq<char>) -> Seq<char>;

/// Whether a byte stands for itself in the syntax
/// `application/x-www-form-urlencoded`: a letter or digit of ASCII, or one of
/// `*`, `-`, `.` and `_`.
pub open spec fn stands_for_itself(b: u8) -> bool {
    b == 42 || b == 45 || b == 46 || b == 95 || (48 <= b && b <= 57) || (65 <= b && b <= 90) || (97
        <= b && b <= 122)
}

/// The upper-case hexadecimal digit of a number below 16.
pub open spec fn upper_hex_digit(n: int) -> char {
    if n < 10 {
        ((48 + n) as u8) as char
    } else {
        ((55 + n) as u8) as char
    }
}

/// A byte in the syntax `application/x-www-form-urlencoded`: itself, `+`
/// for a blank, or `%` and its two hexadecimal digits.
pub open spec fn urlencoded_byte(b: u8) -> Seq<char> {
    if stands_for_itself(b) {
        seq![b as char]
    } else if b == 32 {
        seq!['+']
    } else {
        seq!['%', upper_hex_digit(b as int / 16), upper_hex_digit(b as int % 16)]
    }
}

/// Bytes in the syntax `application/x-www-form-urlencoded`.
pub open spec fn urlencoded_bytes(bytes: Seq<u8>) -> Seq<char>
    decreases bytes.len(),
{
    if bytes.len() == 0 {
        Seq::empty()
    } else {
        urlencoded_bytes(bytes.drop_last()) + urlencoded_byte(bytes.last())
    }
}

/// The pairs of names and values as one text in the syntax
/// `application/x-www-form-urlencoded`: name, `=` and value of each pair,
/// each as UTF-8, with `&` between the pairs.
pub open spec fn urlencoded(pairs: Seq<(Seq<char>, Seq<char>)>) -> Seq<char>
    decreases pairs.len(),
{
    if pairs.len() == 0 {
        Seq::empty()
    } else {
        (if pairs.len() == 1 {
            Seq::empty()
        } else {
            urlencoded(pairs.drop_last()) + seq!['&']
        }) + urlencoded_bytes(encode_utf8(pairs.last().0)) + seq!['='] + urlencoded_bytes(
            encode_utf8(pairs.last().1),
        )
    }
}

/// The views of pairs of texts.
pub open spec fn pair_views(pairs: Seq<(String, String)>) -> Seq<(Seq<char>, Seq<char>)> {
    pairs.map_values(|p: (String, String)| (p.0@, p.1@))
}

/// Calls `inflector::cases::titlecase::to_title_case`.
#[verifier::external_body]
pub(crate) fn title_case(name: &str) -> (r: String)
    ensures
        r@ == title_cased(name@),
{
    inflector::cases::titlecase::to_title_case(name)
}

/// Writes the pairs with a `url::form_urlencoded::Serializer` that starts
/// from an empty text: `append_pair` for each pair in order, then `finish`.
/// Each name and value is written byte by byte: a letter or digit of ASCII
/// and `*`, `-`, `.`, `_` as they are, a blank as `+`, any other byte as `%`
/// and two upper-case hexadecimal digits; `=` stands between name and value
/// and `&` between pairs.
#[verifier::external_body]
pub(crate) fn urlencode(pairs: &Vec<(String, String)>) -> (r: String)
    ensures
        r@ == urlencoded(pair_views(pairs@)),
{
    let mut out = url::form_urlencoded::Serializer::new(String::new());
    for (name, value) in pairs {
        out.append_pair(name, value);
    }
    out.finish()
}

/// The parameters of a search that are given, under the names `q`, `a` and
/// `t`, in this order.
pub open spec fn given_params(
    q: Option<Seq<char>>,
    a: Option<Seq<char>>,
    t: Option<Seq<char>>,
) -> Seq<(Seq<char>, Seq<char>)> {
    (match q {
        Some(v) => seq![("q"@, v)],
        None => Seq::empty(),
    }) + (match a {
        Some(v) => seq![("a"@, v)],
        None => Seq::empty(),
    }) + (match t {
        Some(v) => seq![("t"@, v)],
        None => Seq::empty(),
    })
}

/// The text behind an optional reference.
pub open spec fn text_of(s: Option<&str>) -> Option<Seq<char>> {
    match s {
        Some(v) => Some(v@),
        None => None,
    }
}

/// What the page of a project is filled with: the name of the project as it
/// is and in title case, the parameters of the search in the syntax of an
/// address, the query, and the query with a dash after it for the title.
pub open spec fn page_context(
    project: Seq<char>,
    q: Option<Seq<char>>,
    a: Option<Seq<char>>,
    t: Option<Seq<char>>,
) -> Seq<(Seq<char>, Seq<char>)> {
    seq![
        ("project"@, project),
        ("Project"@, title_cased(project)),
        ("diff_params"@, urlencoded(given_params(q, a, t))),
        (
            "q"@,
            match q {
                Some(v) => v,
                None => Seq::empty(),
            },
        ),
        (
            "query_dash"@,
            match q {
                Some(v) => v + " - "@,
                None => Seq::empty(),
            },
        ),
    ]
}

/// What the page of the project `project` is filled with for a search with
/// the parameters `q`, `a` and `t`.
pub fn project_view(project: &str, q: Option<&str>, a: Option<&str>, t: Option<&str>) -> (r: Vec<
    (String, String),
>)
    ensures
        pair_views(r@) == page_context(project@, text_of(q), text_of(a), text_of(t)),
{
    let mut params: Vec<(String, String)> = Vec::new();
    assert(pair_views(params@) =~= Seq::<(Seq<char>, Seq<char>)>::empty());
    match q {
        Some(v) => {
            params.push(("q".to_owned(), v.to_owned()));
        },
        None => {},
    }
    let ghost first = pair_views(params@);
    assert(first =~= match text_of(q) {
        Some(v) => seq![("q"@, v)],
        None => Seq::empty(),
    });
    match a {
        Some(v) => {
            params.push(("a".to_owned(), v.to_owned()));
        },
        None => {},
    }
    let ghost second = pair_views(params@);
    assert(second =~= first + match text_of(a) {
        Some(v) => seq![("a"@, v)],
        None => Seq::empty(),
    });
    match t {
        Some(v) => {
            params.push(("t".to_owned(), v.to_owned()));
        },
        None => {},
    }
    assert(pair_views(params@) =~= second + match text_of(t) {
        Some(v) => seq![("t"@, v)],
        None => Seq::empty(),
    });
    let query = match q {
        Some(v) => v.to_owned(),
        None => String::new(),
    };
    let dash = match q {
        Some(v) => {
            let mut d = chars_of(v);
            append_str(&mut d, " - ");
            string_of(&d)
        },
        None => String::new(),
    };
    let mut out: Vec<(String, String)> = Vec::new();
    out.push(("project".to_owned(), project.to_owned()));
    out.push(("Project".to_owned(), title_case(project)));
    out.push(("diff_params".to_owned(), urlencode(&params)));
    out.push(("q".to_owned(), query));
    out.push(("query_dash".to_owned(), dash));
    assert(pair_views(out@) =~= page_context(project@, text_of(q), text_of(a), text_of(t)));
    out
}


/// The file of a project that holds its names, one in a line.
pub const NAMES_FILE: &'static str = "autocomplete_db";

/// The arguments of the search program for a completion: capitals count
/// where the pattern has one, the pattern, and the file of names.
pub fn complete_args(query: &str) -> (r: Vec<String>)
    ensures
        texts(r@) == seq!["--smart-case"@, completion_pattern(query@), NAMES_FILE@],
{
    let mut r: Vec<String> = Vec::new();
    r.push("--smart-case".to_owned());
    r.push(complete_query(query));
    r.push(NAMES_FILE.to_owned());
    assert(texts(r@) =~= seq!["--smart-case"@, completion_pattern(query@), NAMES_FILE@]);
    r
}

/// The arguments with which the search in the files of differences is run
/// under `timeout`: ten seconds, then the search program, a heading for each
/// file, capitals count where the pattern has one, and the pattern.
pub fn diff_args(query: &str, actions: &str, types: &str) -> (r: Vec<String>)
    ensures
        texts(r@) == seq![
            "10s"@,
            "rg"@,
            "--heading"@,
            "--smart-case"@,
            diff_pattern(query@, actions@, types@),
        ],
{
    let mut r: Vec<String> = Vec::new();
    r.push("10s".to_owned());
    r.push("rg".to_owned());
    r.push("--heading".to_owned());
    r.push("--smart-case".to_owned());
    r.push(diff_query(query, actions, types));
    assert(texts(r@) =~= seq![
        "10s"@,
        "rg"@,
        "--heading"@,
        "--smart-case"@,
        diff_pattern(query@, actions@, types@),
    ]);
    r
}

} // verus!
