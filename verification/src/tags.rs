//! Choice of the tags of a repository: which versions are indexed, and in
//! which order.
//!
//! The tags are put in order, by the time of their commits or by the natural
//! order of their names. With a pattern, only the tags that it matches with a
//! first group are kept, and of the tags with the same text in that group
//! only the first.

use crate::natural::{indices, is_permutation, natural_order, natural_order_of, permuted, texts};
use crate::pattern::{captured, captures, group_chars, group_text};
use crate::text::{
    chars_of, last_index, lemma_last_index, lowercase, lowercase_of, rfind_char, same_chars,
    string_of, subvec, views,
};
use regex::Regex;
use vstd::prelude::*;

verus! {

/// A tag: the name of its reference, and the time of the commit that it
/// points to, in seconds.
#[derive(Debug, Eq, PartialEq, Clone)]
pub struct TagRef {
    pub name: String,
    pub time: i64,
}

/// The name of a tag without what stands before its last `/`.
pub open spec fn short_name(name: Seq<char>) -> Seq<char> {
    name.skip(last_index(name, '/') + 1)
}

/// The short names of tags.
pub open spec fn short_names(tags: Seq<TagRef>) -> Seq<Seq<char>> {
    tags.map_values(|t: TagRef| short_name(t.name@))
}

/// The times of tags.
pub open spec fn times(tags: Seq<TagRef>) -> Seq<i64> {
    tags.map_values(|t: TagRef| t.time)
}

/// `order`, which is in order of time, with the index `i` put after the
/// indices whose times are not later than that of `i`.
pub open spec fn insert_index(order: Seq<int>, times: Seq<i64>, i: int) -> Seq<int>
    decreases order.len(),
{
    if order.len() > 0 && times[order.last()] > times[i] {
        insert_index(order.drop_last(), times, i).push(order.last())
    } else {
        order.push(i)
    }
}

/// The first `n` indices of `times` in order of time; indices with the same
/// time keep their order.
pub open spec fn time_order(times: Seq<i64>, n: int) -> Seq<int>
    decreases n,
{
    if n <= 0 {
        Seq::empty()
    } else {
        insert_index(time_order(times, n - 1), times, n - 1)
    }
}

/// Whether `order` goes by time, and by index where the times are the same.
pub open spec fn in_time_order(order: Seq<int>, times: Seq<i64>) -> bool {
    forall|a: int, b: int|
        0 <= a < b < order.len() ==> times[#[trigger] order[a]] < times[#[trigger] order[b]] || (
        times[order[a]] == times[order[b]] && order[a] < order[b])
}

/// Where the index `i` goes in `order`.
proof fn lemma_insert_index(order: Seq<int>, times: Seq<i64>, i: int, p: int)
    requires
        0 <= p <= order.len(),
        forall|q: int| p <= q < order.len() ==> times[#[trigger] order[q]] > times[i],
        p > 0 ==> times[order[p - 1]] <= times[i],
    ensures
        insert_index(order, times, i) == order.insert(p, i),
    decreases order.len(),
{
    if order.len() > 0 && times[order.last()] > times[i] {
        assert(p < order.len());
        let front = order.drop_last();
        assert forall|q: int| p <= q < front.len() implies times[#[trigger] front[q]]
            > times[i] by {
            assert(front[q] == order[q]);
        }
        lemma_insert_index(front, times, i, p);
        assert(front.insert(p, i).push(order.last()) =~= order.insert(p, i));
    } else {
        assert(p == order.len());
        assert(order.push(i) =~= order.insert(p, i));
    }
}

/// The order of time holds each index once, goes by time, and keeps the
/// order of indices with the same time.
pub proof fn lemma_time_order(times: Seq<i64>, n: int)
    requires
        0 <= n <= times.len(),
    ensures
        is_permutation(time_order(times, n), n as nat),
        in_time_order(time_order(times, n), times),
    decreases n,
{
    if n > 0 {
        let i = n - 1;
        let order = time_order(times, i);
        lemma_time_order(times, i);
        let p = choose_place(order, times, i);
        lemma_insert_index(order, times, i, p);
        let r = order.insert(p, i);
        assert(r == time_order(times, n));
        assert forall|a: int| 0 <= a < n implies 0 <= #[trigger] r[a] < n by {
            if a < p {
                assert(r[a] == order[a]);
            } else if a > p {
                assert(r[a] == order[a - 1]);
            }
        }
        assert forall|a: int, b: int| 0 <= a < b < n implies r[a] != r[b] by {
            let x = if a < p {
                order[a]
            } else if a == p {
                i
            } else {
                order[a - 1]
            };
            let y = if b < p {
                order[b]
            } else if b == p {
                i
            } else {
                order[b - 1]
            };
            assert(r[a] == x && r[b] == y);
        }
        assert forall|k: int| 0 <= k < n implies r.contains(k) by {
            if k == i {
                assert(r[p] == i);
            } else {
                assert(order.contains(k));
                let a = choose|a: int| 0 <= a < order.len() && order[a] == k;
                if a < p {
                    assert(r[a] == k);
                } else {
                    assert(r[a + 1] == k);
                }
            }
        }
        assert forall|a: int, b: int| 0 <= a < b < r.len() implies times[#[trigger] r[a]]
            < times[#[trigger] r[b]] || (times[r[a]] == times[r[b]] && r[a] < r[b]) by {
            if b < p {
                assert(r[a] == order[a] && r[b] == order[b]);
            } else if b == p {
                assert(r[a] == order[a]);
                assert(times[order[a]] <= times[i]) by {
                    if a < p - 1 {
                        assert(times[order[a]] < times[order[p - 1]] || times[order[a]]
                            == times[order[p - 1]]);
                    }
                }
            } else if a < p {
                assert(r[a] == order[a] && r[b] == order[b - 1]);
            } else if a == p {
                assert(r[b] == order[b - 1]);
                assert(times[order[b - 1]] > times[i]);
            } else {
                assert(r[a] == order[a - 1] && r[b] == order[b - 1]);
            }
        }
    }
}

/// The place at which `insert_index` puts `i`: behind the last index whose
/// time is not later.
proof fn choose_place(order: Seq<int>, times: Seq<i64>, i: int) -> (p: int)
    requires
        in_time_order(order, times),
    ensures
        0 <= p <= order.len(),
        forall|q: int| p <= q < order.len() ==> times[#[trigger] order[q]] > times[i],
        p > 0 ==> times[order[p - 1]] <= times[i],
    decreases order.len(),
{
    if order.len() > 0 && times[order.last()] > times[i] {
        let front = order.drop_last();
        assert forall|a: int, b: int| 0 <= a < b < front.len() implies times[#[trigger] front[a]]
            < times[#[trigger] front[b]] || (times[front[a]] == times[front[b]] && front[a]
            < front[b]) by {
            assert(front[a] == order[a] && front[b] == order[b]);
        }
        let p = choose_place(front, times, i);
        assert forall|q: int| p <= q < order.len() implies times[#[trigger] order[q]]
            > times[i] by {
            if q < front.len() {
                assert(front[q] == order[q]);
            }
        }
        if p > 0 {
            assert(front[p - 1] == order[p - 1]);
        }
        p
    } else {
        order.len() as int
    }
}

/// The indices of `times` in order of time.
fn time_order_of(times: &Vec<i64>) -> (order: Vec<usize>)
    ensures
        indices(order@) == time_order(times@, times@.len() as int),
        is_permutation(indices(order@), times@.len() as nat),
{
    let mut order: Vec<usize> = Vec::new();
    let mut i: usize = 0;
    assert(indices(order@) =~= time_order(times@, 0));
    while i < times.len()
        invariant
            i <= times.len(),
            indices(order@) == time_order(times@, i as int),
            order@.len() == i,
            forall|a: int| 0 <= a < order@.len() ==> order@[a] < i,
        decreases times.len() - i,
    {
        let ghost before = indices(order@);
        let mut p: usize = order.len();
        while p > 0 && times[order[p - 1]] > times[i]
            invariant
                p <= order.len(),
                i < times.len(),
                forall|a: int| 0 <= a < order@.len() ==> order@[a] < i,
                forall|q: int|
                    p <= q < order@.len() ==> times@[#[trigger] indices(order@)[q]] > times@[i as int],
            decreases p,
        {
            p -= 1;
        }
        order.insert(p, i);
        proof {
            lemma_insert_index(before, times@, i as int, p as int);
            assert(indices(order@) =~= before.insert(p as int, i as int));
        }
        i += 1;
    }
    proof {
        lemma_time_order(times@, times@.len() as int);
    }
    order
}

/// The short names of the tags, in order: by the time of their commits, tags
/// of the same time as they stand in `tags`; or in the natural order of the
/// names, capitals counting as small letters.
pub open spec fn ordered_names(tags: Seq<TagRef>, time_sort: bool) -> Seq<Seq<char>> {
    let names = short_names(tags);
    if time_sort {
        permuted(names, time_order(times(tags), tags.len() as int))
    } else {
        permuted(names, natural_order(names.map_values(|n: Seq<char>| lowercase(n))))
    }
}

/// The text by which a pattern knows a tag: what its first group matches.
pub open spec fn tag_key(re: Regex, tag: Seq<char>) -> Option<Seq<char>> {
    match captured(re, tag) {
        Some(groups) => group_text(groups, 1),
        None => None,
    }
}

/// Whether tag `i` is kept: the pattern knows it, and knows no earlier tag
/// by the same text.
pub open spec fn is_selected(re: Regex, tags: Seq<Seq<char>>, i: int) -> bool {
    tag_key(re, tags[i]) is Some && forall|j: int|
        0 <= j < i ==> tag_key(re, #[trigger] tags[j]) != tag_key(re, tags[i])
}

/// The tags among the first `n` that are kept, in order.
pub open spec fn selected(re: Regex, tags: Seq<Seq<char>>, n: int) -> Seq<Seq<char>>
    decreases n,
{
    if n <= 0 {
        Seq::empty()
    } else if is_selected(re, tags, n - 1) {
        selected(re, tags, n - 1).push(tags[n - 1])
    } else {
        selected(re, tags, n - 1)
    }
}

/// Of two tags that the pattern knows by the same text, the later is not
/// kept.
pub proof fn lemma_same_key_collapses(re: Regex, tags: Seq<Seq<char>>, i: int, j: int)
    requires
        0 <= i < j < tags.len(),
        tag_key(re, tags[i]) is Some,
        tag_key(re, tags[i]) == tag_key(re, tags[j]),
    ensures
        !is_selected(re, tags, j),
{
}

/// For each tag that the pattern knows, the first tag that it knows by the
/// same text is kept.
pub proof fn lemma_first_of_key_is_selected(re: Regex, tags: Seq<Seq<char>>, i: int) -> (f: int)
    requires
        0 <= i < tags.len(),
        tag_key(re, tags[i]) is Some,
    ensures
        0 <= f <= i,
        tag_key(re, tags[f]) == tag_key(re, tags[i]),
        is_selected(re, tags, f),
    decreases i,
{
    if is_selected(re, tags, i) {
        i
    } else {
        let j = choose|j: int| 0 <= j < i && tag_key(re, #[trigger] tags[j]) == tag_key(re, tags[i]);
        lemma_first_of_key_is_selected(re, tags, j)
    }
}

/// The tags that are indexed, in order: the short names of `tags` in the
/// order of `ordered_names`, and of them, where there is a pattern, those
/// that are kept.
pub open spec fn collected(tags: Seq<TagRef>, pattern: Option<Regex>, time_sort: bool) -> Seq<
    Seq<char>,
> {
    let names = ordered_names(tags, time_sort);
    match pattern {
        Some(re) => selected(re, names, names.len() as int),
        None => names,
    }
}

/// Two runs over the same tags, with the same pattern and the same order,
/// choose the same tags: whatever meets the contract of `collect_tags` is
/// the same list.
pub proof fn lemma_two_runs_choose_the_same_tags(
    first: Seq<Seq<char>>,
    second: Seq<Seq<char>>,
    tags: Seq<TagRef>,
    pattern: Option<Regex>,
    time_sort: bool,
)
    requires
        first == collected(tags, pattern, time_sort),
        second == collected(tags, pattern, time_sort),
    ensures
        first == second,
{
}

/// The short name of a tag.
fn short_name_of(name: &str) -> (r: Vec<char>)
    ensures
        r@ == short_name(name@),
{
    let v = chars_of(name);
    proof {
        lemma_last_index(v@, '/');
    }
    match rfind_char(&v, '/') {
        Some(k) => subvec(&v, k + 1, v.len()),
        None => {
            assert(v@.skip(0) == v@);
            v
        },
    }
}

/// The texts by which the pattern knows the first `n` tags, in order.
pub open spec fn keys_upto(re: Regex, tags: Seq<Seq<char>>, n: int) -> Seq<Seq<char>>
    decreases n,
{
    if n <= 0 {
        Seq::empty()
    } else {
        match tag_key(re, tags[n - 1]) {
            Some(k) => keys_upto(re, tags, n - 1).push(k),
            None => keys_upto(re, tags, n - 1),
        }
    }
}

/// `keys_upto` holds the texts of the tags that the pattern knows.
proof fn lemma_keys_upto(re: Regex, tags: Seq<Seq<char>>, n: int, k: Seq<char>)
    ensures
        keys_upto(re, tags, n).contains(k) <==> exists|j: int|
            0 <= j < n && tag_key(re, #[trigger] tags[j]) == Some(k),
    decreases n,
{
    if n > 0 {
        lemma_keys_upto(re, tags, n - 1, k);
        let front = keys_upto(re, tags, n - 1);
        let all = keys_upto(re, tags, n);
        if all.contains(k) {
            let a = choose|a: int| 0 <= a < all.len() && all[a] == k;
            if a < front.len() {
                assert(front[a] == k);
                let j = choose|j: int| 0 <= j < n - 1 && tag_key(re, #[trigger] tags[j]) == Some(k);
                assert(0 <= j < n && tag_key(re, tags[j]) == Some(k));
            } else {
                assert(tag_key(re, tags[n - 1]) == Some(k));
            }
        }
        if exists|j: int| 0 <= j < n && tag_key(re, #[trigger] tags[j]) == Some(k) {
            let j = choose|j: int| 0 <= j < n && tag_key(re, #[trigger] tags[j]) == Some(k);
            if j < n - 1 {
                assert(front.contains(k));
                let a = choose|a: int| 0 <= a < front.len() && front[a] == k;
                assert(all[a] == k);
            } else {
                assert(all[all.len() - 1] == k);
            }
        }
    }
}

/// Tag `i` is kept if and only if the pattern knows it by a text that is
/// not among those of the tags before it.
proof fn lemma_is_selected(re: Regex, tags: Seq<Seq<char>>, i: int)
    requires
        0 <= i,
    ensures
        is_selected(re, tags, i) <==> (tag_key(re, tags[i]) matches Some(k) && !keys_upto(
            re,
            tags,
            i,
        ).contains(k)),
{
    match tag_key(re, tags[i]) {
        Some(k) => {
            lemma_keys_upto(re, tags, i, k);
            if keys_upto(re, tags, i).contains(k) {
                let j = choose|j: int| 0 <= j < i && tag_key(re, #[trigger] tags[j]) == Some(k);
                assert(tag_key(re, tags[j]) == tag_key(re, tags[i]));
            }
        },
        None => {},
    }
}

/// Whether `keys` holds `key`.
fn holds(keys: &Vec<Vec<char>>, key: &Vec<char>) -> (r: bool)
    ensures
        r == views(keys@).contains(key@),
{
    let mut i: usize = 0;
    while i < keys.len()
        invariant
            i <= keys.len(),
            forall|j: int| 0 <= j < i ==> views(keys@)[j] != key@,
        decreases keys.len() - i,
    {
        if same_chars(&keys[i], key) {
            assert(views(keys@)[i as int] == key@);
            return true;
        }
        i += 1;
    }
    false
}

/// The tags of `names` that are kept.
fn select(re: &Regex, names: Vec<String>) -> (r: Vec<String>)
    ensures
        texts(r@) == selected(*re, texts(names@), names@.len() as int),
{
    let mut seen: Vec<Vec<char>> = Vec::new();
    let mut r: Vec<String> = Vec::new();
    let mut i: usize = 0;
    let ghost all = texts(names@);
    assert(texts(r@) =~= selected(*re, all, 0));
    assert(views(seen@) =~= keys_upto(*re, all, 0));
    while i < names.len()
        invariant
            i <= names.len(),
            all == texts(names@),
            texts(r@) == selected(*re, all, i as int),
            views(seen@) == keys_upto(*re, all, i as int),
        decreases names.len() - i,
    {
        let ghost before = texts(r@);
        let ghost seen_before = views(seen@);
        assert(all[i as int] == names@[i as int]@);
        proof {
            lemma_is_selected(*re, all, i as int);
        }
        let key = match captures(re, names[i].as_str()) {
            Some(groups) => group_chars(&groups, 1),
            None => None,
        };
        match key {
            Some(k) => {
                if !holds(&seen, &k) {
                    r.push(names[i].clone());
                    assert(texts(r@) =~= before.push(all[i as int]));
                }
                seen.push(k);
                assert(views(seen@) =~= seen_before.push(k@));
            },
            None => {},
        }
        i += 1;
    }
    r
}

/// The tags that are indexed, in order. `tags` holds the tags of the
/// repository that point to a commit; with `time_sort` they are put in order
/// of time, else in the natural order of their names.
pub fn collect_tags(tags: &Vec<TagRef>, pattern: Option<&Regex>, time_sort: bool) -> (r: Vec<
    String,
>)
    ensures
        texts(r@) == collected(
            tags@,
            match pattern {
                Some(re) => Some(*re),
                None => None,
            },
            time_sort,
        ),
{
    let mut names: Vec<Vec<char>> = Vec::new();
    let mut keys: Vec<String> = Vec::new();
    let mut stamps: Vec<i64> = Vec::new();
    let mut i: usize = 0;
    while i < tags.len()
        invariant
            i <= tags.len(),
            names@.len() == i,
            keys@.len() == i,
            stamps@.len() == i,
            forall|j: int| 0 <= j < i ==> (#[trigger] names@[j])@ == short_name(tags@[j].name@),
            forall|j: int|
                0 <= j < i ==> (#[trigger] keys@[j])@ == lowercase(short_name(tags@[j].name@)),
            forall|j: int| 0 <= j < i ==> #[trigger] stamps@[j] == tags@[j].time,
        decreases tags.len() - i,
    {
        let name = short_name_of(tags[i].name.as_str());
        keys.push(string_of(&lowercase_of(&name)));
        names.push(name);
        stamps.push(tags[i].time);
        i += 1;
    }
    assert(stamps@ =~= times(tags@));
    assert(texts(keys@) =~= short_names(tags@).map_values(|n: Seq<char>| lowercase(n)));
    let order = if time_sort {
        time_order_of(&stamps)
    } else {
        natural_order_of(&keys)
    };
    let mut sorted: Vec<String> = Vec::new();
    let mut p: usize = 0;
    while p < order.len()
        invariant
            p <= order.len(),
            order@.len() == names@.len(),
            names@.len() == tags@.len(),
            is_permutation(indices(order@), names@.len() as nat),
            sorted@.len() == p,
            forall|j: int| 0 <= j < names@.len() ==> (#[trigger] names@[j])@ == short_name(tags@[j].name@),
            forall|q: int|
                0 <= q < p ==> (#[trigger] sorted@[q])@ == short_name(
                    tags@[indices(order@)[q]].name@,
                ),
        decreases order.len() - p,
    {
        assert(0 <= indices(order@)[p as int] < names@.len());
        sorted.push(string_of(&names[order[p]]));
        p += 1;
    }
    assert(texts(sorted@) =~= ordered_names(tags@, time_sort));
    match pattern {
        Some(re) => select(re, sorted),
        None => sorted,
    }
}

} // verus!
