//! Natural order of names: digit sequences count by their value, so that
//! `v2` comes before `v10`. The order itself is the work of the
//! `alphanumeric_sort` crate; here it has a name, and the rearrangement that
//! it calls for is carried out.

use vstd::prelude::*;

verus! {

/// The order into which `alphanumeric_sort::sort_slice_by_str_key` puts
/// `keys`: entry `i` is the index, in `keys`, of the key that comes at place
/// `i`. Equal keys stay in the order in which they stand in `keys`.
pub uninterp spec fn natural_order(keys: Seq<Seq<char>>) -> Seq<int>;

/// Whether `order` holds each of the numbers `0 .. n` once.
pub open spec fn is_permutation(order: Seq<int>, n: nat) -> bool {
    &&& order.len() == n
    &&& forall|i: int| 0 <= i < n ==> 0 <= #[trigger] order[i] < n
    &&& forall|i: int, j: int| 0 <= i < j < n ==> order[i] != order[j]
    &&& forall|k: int| 0 <= k < n ==> order.contains(k)
}

/// The elements of `s` in the order `order`.
pub open spec fn permuted<T>(s: Seq<T>, order: Seq<int>) -> Seq<T> {
    Seq::new(order.len(), |i: int| s[order[i]])
}

/// The views of texts.
pub open spec fn texts(v: Seq<String>) -> Seq<Seq<char>> {
    v.map_values(|s: String| s@)
}

/// The numbers of `v`.
pub open spec fn indices(v: Seq<usize>) -> Seq<int> {
    v.map_values(|i: usize| i as int)
}

/// Sorts the indices of `keys` by their keys with
/// `alphanumeric_sort::sort_slice_by_str_key`, a stable sort that compares
/// with the crate's `compare_str`. The result is the rearrangement that the
/// crate made: every index of `keys` once.
#[verifier::external_body]
pub(crate) fn natural_order_of(keys: &Vec<String>) -> (order: Vec<usize>)
    ensures
        indices(order@) == natural_order(texts(keys@)),
        is_permutation(indices(order@), keys@.len()),
{
    let mut pairs: Vec<(usize, &str)> = keys.iter().map(String::as_str).enumerate().collect();
    alphanumeric_sort::sort_slice_by_str_key(&mut pairs, |p| p.1);
    pairs.into_iter().map(|p| p.0).collect()
}

/// The order into which `alphanumeric_sort::sort_slice_rev_by_str_key` puts
/// `keys`: the natural order from the last to the first. Equal keys stay in
/// the order in which they stand in `keys`.
pub uninterp spec fn natural_order_rev(keys: Seq<Seq<char>>) -> Seq<int>;

/// Sorts the indices of `keys` by their keys with
/// `alphanumeric_sort::sort_slice_rev_by_str_key`, a stable sort that compares
/// with the crate's `compare_str`, its arguments exchanged. The result is the
/// rearrangement that the crate made: every index of `keys` once.
#[verifier::external_body]
pub(crate) fn natural_order_rev_of(keys: &Vec<String>) -> (order: Vec<usize>)
    ensures
        indices(order@) == natural_order_rev(texts(keys@)),
        is_permutation(indices(order@), keys@.len()),
{
    let mut pairs: Vec<(usize, &str)> = keys.iter().map(String::as_str).enumerate().collect();
    alphanumeric_sort::sort_slice_rev_by_str_key(&mut pairs, |p| p.1);
    pairs.into_iter().map(|p| p.0).collect()
}

/// An element of a permuted sequence is an element of the sequence, and the
/// other way round.
pub proof fn lemma_permuted_has_the_same_elements<T>(s: Seq<T>, order: Seq<int>, x: T)
    requires
        is_permutation(order, s.len()),
    ensures
        permuted(s, order).contains(x) <==> s.contains(x),
{
    let p = permuted(s, order);
    if p.contains(x) {
        let i = choose|i: int| 0 <= i < p.len() && p[i] == x;
        assert(s[order[i]] == x);
    }
    if s.contains(x) {
        let k = choose|k: int| 0 <= k < s.len() && s[k] == x;
        assert(order.contains(k));
        let i = choose|i: int| 0 <= i < order.len() && order[i] == k;
        assert(p[i] == x);
    }
}

} // verus!
