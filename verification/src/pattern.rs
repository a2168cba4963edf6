//! Regular expressions. Matching is the work of the `regex` crate; this
//! module gives its results names, so that the functions built on them can
//! say exactly what they return.

use regex::Regex;
use vstd::prelude::*;
use vstd::utf8::encode_utf8;

verus! {

/// `regex::Regex`, a compiled regular expression.
#[verifier::external_type_specification]
#[verifier::external_body]
pub struct ExRegex(Regex);

/// The regular expression that `Regex::new` builds from `pattern`, or `None`
/// where it refuses the pattern.
pub uninterp spec fn compiled(pattern: Seq<char>) -> Option<Regex>;

/// Whether `re` matches anywhere in `text`, as `Regex::is_match` finds it.
pub uninterp spec fn matched(re: Regex, text: Seq<char>) -> bool;

/// The leftmost match of `re` in `text`, as `Regex::captures` finds it:
/// `None` where nothing matches, else the text of each group in the order of
/// their numbers, group 0 being the whole match and `None` standing for a
/// group that took no part.
pub uninterp spec fn captured(re: Regex, text: Seq<char>) -> Option<Seq<Option<Seq<char>>>>;

/// `text` after `Regex::replace_all` has put `with` in place of each match of
/// `re`.
pub uninterp spec fn replaced(re: Regex, text: Seq<char>, with: Seq<char>) -> Seq<char>;

/// The views of the groups of one match.
pub open spec fn groups_view(groups: Seq<Option<String>>) -> Seq<Option<Seq<char>>> {
    groups.map_values(
        |g: Option<String>|
            match g {
                Some(s) => Some(s@),
                None => None,
            },
    )
}

/// The text of group `i` of a match, where that group exists and took part.
pub open spec fn group_text(groups: Seq<Option<Seq<char>>>, i: int) -> Option<Seq<char>> {
    if 0 <= i < groups.len() {
        groups[i]
    } else {
        None
    }
}

/// `text` with each match of `pattern` replaced by `with`; `text` itself
/// where `pattern` is no regular expression.
pub open spec fn replaced_each(pattern: Seq<char>, text: Seq<char>, with: Seq<char>) -> Seq<
    char,
> {
    match compiled(pattern) {
        Some(re) => replaced(re, text, with),
        None => text,
    }
}

/// The match of `pattern` in `text`; `None` also where `pattern` is no
/// regular expression.
pub open spec fn captured_by(pattern: Seq<char>, text: Seq<char>) -> Option<
    Seq<Option<Seq<char>>>,
> {
    match compiled(pattern) {
        Some(re) => captured(re, text),
        None => None,
    }
}

/// Calls `regex::Regex::new`: the result is the compiled pattern, `None`
/// where the crate returns an error. Nothing is claimed about which patterns
/// compile.
#[verifier::external_body]
pub(crate) fn compile(pattern: &str) -> (r: Option<Regex>)
    ensures
        r == compiled(pattern@),
{
    Regex::new(pattern).ok()
}

/// Calls `regex::Regex::is_match`.
#[verifier::external_body]
pub(crate) fn is_match(re: &Regex, text: &str) -> (r: bool)
    ensures
        r == matched(*re, text@),
{
    re.is_match(text)
}

/// Calls `regex::Regex::captures` and copies out, with `Captures::iter` and
/// `Match::as_str`, the text of every group.
#[verifier::external_body]
pub(crate) fn captures(re: &Regex, text: &str) -> (r: Option<Vec<Option<String>>>)
    ensures
        match r {
            Some(groups) => captured(*re, text@) == Some(groups_view(groups@)),
            None => captured(*re, text@) is None,
        },
{
    let found = re.captures(text)?;
    Some(found.iter().map(|m| m.map(|m| m.as_str().to_string())).collect())
}

/// Calls `regex::Regex::replace_all` with a replacement text.
#[verifier::external_body]
pub(crate) fn replace_all(re: &Regex, text: &str, with: &str) -> (r: String)
    ensures
        r@ == replaced(*re, text@, with@),
{
    re.replace_all(text, with).into_owned()
}

/// `text` with each match of `pattern` replaced by `with`.
pub fn replace_each(pattern: &str, text: &str, with: &str) -> (r: String)
    ensures
        r@ == replaced_each(pattern@, text@, with@),
{
    match compile(pattern) {
        Some(re) => replace_all(&re, text, with),
        None => text.to_owned(),
    }
}

/// The match of `pattern` in `text`.
pub fn capture_by(pattern: &str, text: &str) -> (r: Option<Vec<Option<String>>>)
    ensures
        match r {
            Some(groups) => captured_by(pattern@, text@) == Some(groups_view(groups@)),
            None => captured_by(pattern@, text@) is None,
        },
{
    match compile(pattern) {
        Some(re) => captures(&re, text),
        None => None,
    }
}

/// The characters of group `i` of a match.
pub fn group_chars(groups: &Vec<Option<String>>, i: usize) -> (r: Option<Vec<char>>)
    ensures
        match r {
            Some(v) => group_text(groups_view(groups@), i as int) == Some(v@),
            None => group_text(groups_view(groups@), i as int) is None,
        },
{
    if i < groups.len() {
        match &groups[i] {
            Some(s) => Some(crate::text::chars_of(s.as_str())),
            None => None,
        }
    } else {
        None
    }
}


/// The number of bytes of group `i` of a match.
pub fn group_len(groups: &Vec<Option<String>>, i: usize) -> (r: Option<usize>)
    ensures
        match r {
            Some(n) => group_text(groups_view(groups@), i as int) matches Some(t) && n
                == encode_utf8(t).len(),
            None => group_text(groups_view(groups@), i as int) is None,
        },
{
    if i < groups.len() {
        match &groups[i] {
            Some(s) => Some(s.as_str().as_bytes().len()),
            None => None,
        }
    } else {
        None
    }
}

} // verus!
