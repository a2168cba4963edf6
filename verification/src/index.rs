//! An index of places by hash: where in a list the elements with a given
//! hash stand. A list with such an index is searched by looking through the
//! few places of one hash.

use std::collections::HashMap;
use vstd::prelude::*;
use vstd::std_specs::hash::*;

verus! {

/// The modulus of the hashes: the prime 2^61 - 1.
pub const MODULUS: u64 = 0x1fff_ffff_ffff_ffff;

/// The hash `h` with one more number mixed in.
pub open spec fn mix(h: u64, x: u32) -> u64 {
    ((h as int * 257 + x as int) % (MODULUS as int)) as u64
}

/// The hash `h` with one more number mixed in.
pub fn mixed(h: u64, x: u32) -> (r: u64)
    ensures
        r == mix(h, x),
{
    (((h as u128) * 257 + (x as u128)) % (MODULUS as u128)) as u64
}

/// Whether `index` holds exactly the places of a list whose elements have
/// the hashes `hashes`: each place stands under the hash of its element, and
/// nothing else stands in the index.
pub open spec fn covers(index: Map<u64, Seq<usize>>, hashes: Seq<u64>) -> bool {
    &&& forall|p: int|
        0 <= p < hashes.len() ==> index.contains_key(#[trigger] hashes[p]) && index[hashes[p]].contains(
            p as usize,
        )
    &&& forall|h: u64, q: int|
        index.contains_key(h) && 0 <= q < index[h].len() ==> (#[trigger] index[h][q]) < hashes.len()
            && hashes[index[h][q] as int] == h
}

/// The places under the hash `h`.
pub open spec fn bucket(index: Map<u64, Seq<usize>>, h: u64) -> Seq<usize> {
    if index.contains_key(h) {
        index[h]
    } else {
        Seq::empty()
    }
}

/// `index` with the place `place` under the hash `h`.
pub open spec fn added(index: Map<u64, Seq<usize>>, h: u64, place: usize) -> Map<u64, Seq<usize>> {
    index.insert(h, bucket(index, h).push(place))
}

/// An index that covers a list covers the list with one more element, once
/// the place of that element is added.
pub proof fn lemma_added_covers(index: Map<u64, Seq<usize>>, hashes: Seq<u64>, h: u64)
    requires
        covers(index, hashes),
        hashes.len() <= usize::MAX,
    ensures
        covers(added(index, h, hashes.len() as usize), hashes.push(h)),
{
    let n = hashes.len() as usize;
    let after = added(index, h, n);
    let all = hashes.push(h);
    assert forall|p: int| 0 <= p < all.len() implies after.contains_key(#[trigger] all[p])
        && after[all[p]].contains(p as usize) by {
        if p < hashes.len() {
            assert(index.contains_key(hashes[p]) && index[hashes[p]].contains(p as usize));
            if hashes[p] == h {
                let q = choose|q: int| 0 <= q < index[h].len() && index[h][q] == p as usize;
                assert(after[h][q] == p as usize);
            }
        } else {
            assert(after[h][bucket(index, h).len() as int] == n);
        }
    }
    assert forall|g: u64, q: int| after.contains_key(g) && 0 <= q < after[g].len() implies (
    #[trigger] after[g][q]) < all.len() && all[after[g][q] as int] == g by {
        if g == h {
            if q < bucket(index, h).len() {
                assert(index[h][q] < hashes.len() && hashes[index[h][q] as int] == h);
            }
        } else {
            assert(index[g][q] < hashes.len() && hashes[index[g][q] as int] == g);
        }
    }
}

/// The places of a list by the hashes of its elements.
pub struct PlaceIndex {
    map: HashMap<u64, Vec<usize>>,
}

impl View for PlaceIndex {
    type V = Map<u64, Seq<usize>>;

    closed spec fn view(&self) -> Map<u64, Seq<usize>> {
        self.map@.map_values(|v: Vec<usize>| v@)
    }
}

impl PlaceIndex {
    /// The index of the empty list.
    pub fn new() -> (r: PlaceIndex)
        ensures
            r@ == Map::<u64, Seq<usize>>::empty(),
    {
        let r = PlaceIndex { map: HashMap::new() };
        assert(r@ =~= Map::<u64, Seq<usize>>::empty());
        r
    }

    /// The places under the hash `h`.
    pub fn places(&self, h: u64) -> (r: Option<&Vec<usize>>)
        ensures
            match r {
                Some(v) => self@.contains_key(h) && self@[h] == v@,
                None => !self@.contains_key(h),
            },
    {
        broadcast use group_hash_axioms;

        self.map.get(&h)
    }

    /// Adds the place `place` under the hash `h`.
    pub fn add(&mut self, h: u64, place: usize)
        ensures
            final(self)@ == added(old(self)@, h, place),
    {
        broadcast use group_hash_axioms;

        let ghost before = self@;
        let mut places = match self.map.remove(&h) {
            Some(v) => v,
            None => Vec::new(),
        };
        assert(places@ == bucket(before, h));
        places.push(place);
        self.map.insert(h, places);
        assert(self@ =~= added(before, h, place));
    }
}

} // verus!
