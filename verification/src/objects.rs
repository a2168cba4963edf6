//! The files of the tagged versions, known by the hash of their contents.
//!
//! A file with the same contents in many versions is one object. The objects
//! are written once to a store in which each has a name made from its hash;
//! an object that is in the store is not written again, and only the objects
//! written in a run are handed on to the generator of tag tables.

use crate::index::{covers, lemma_added_covers, mix, mixed, PlaceIndex};
use crate::pattern::{is_match, matched};
use crate::text::{append_str, chars_of, same_bytes, string_of};
use regex::Regex;
use vstd::prelude::*;
use vstd::slice::slice_to_vec;

verus! {

/// The lower-case hexadecimal digit of a number below 16.
pub open spec fn hex_digit(n: int) -> char {
    if n < 10 {
        ((48 + n) as u8) as char
    } else {
        ((87 + n) as u8) as char
    }
}

/// The bytes in hexadecimal: two lower-case digits for each byte, the high
/// half first.
pub open spec fn hex_text(bytes: Seq<u8>) -> Seq<char>
    decreases bytes.len(),
{
    if bytes.len() == 0 {
        Seq::empty()
    } else {
        hex_text(bytes.drop_last()).push(hex_digit(bytes.last() as int / 16)).push(
            hex_digit(bytes.last() as int % 16),
        )
    }
}

/// `hex::encode`: the bytes in hexadecimal, with lower-case digits, two for
/// each byte.
#[verifier::external_body]
pub(crate) fn hex_encode(bytes: &[u8]) -> (r: String)
    ensures
        r@ == hex_text(bytes@),
{
    hex::encode(bytes)
}

/// The hash of the contents of a file.
#[derive(Debug, Eq, PartialEq, Hash, Clone)]
pub struct ObjectId {
    bytes: Vec<u8>,
}

impl View for ObjectId {
    type V = Seq<u8>;

    closed spec fn view(&self) -> Seq<u8> {
        self.bytes@
    }
}

impl ObjectId {
    /// The hash with the bytes `bytes`.
    pub fn new(bytes: &[u8]) -> (r: ObjectId)
        ensures
            r@ == bytes@,
    {
        ObjectId { bytes: slice_to_vec(bytes) }
    }

    /// The bytes of the hash.
    pub fn as_bytes(&self) -> (r: &[u8])
        ensures
            r@ == self@,
    {
        self.bytes.as_slice()
    }

    /// Whether two hashes are the same.
    pub fn same(&self, other: &ObjectId) -> (r: bool)
        ensures
            r == (self@ == other@),
    {
        same_bytes(self.bytes.as_slice(), other.bytes.as_slice())
    }

    /// A copy.
    pub fn copy(&self) -> (r: ObjectId)
        ensures
            r@ == self@,
    {
        ObjectId { bytes: slice_to_vec(self.bytes.as_slice()) }
    }

    /// The name of the object in the store: its hash in hexadecimal.
    pub fn hex(&self) -> (r: String)
        ensures
            r@ == hex_text(self@),
    {
        hex_encode(self.bytes.as_slice())
    }
}

/// One entry of the tree of a version.
#[derive(Debug, Eq, PartialEq, Clone)]
pub struct TreeEntry {
    /// The directory of the entry, with `/` at its end; empty at the root.
    pub dir: String,
    /// The name of the entry in its directory.
    pub name: String,
    /// The hash of the entry.
    pub id: ObjectId,
    /// Whether the entry is a file.
    pub is_blob: bool,
}

/// A file of a version.
#[derive(Debug, Eq, PartialEq, Clone)]
pub struct FileEntry {
    pub tag: String,
    pub path: String,
    pub id: ObjectId,
}

/// What a `FileEntry` holds.
pub struct FileView {
    pub tag: Seq<char>,
    pub path: Seq<char>,
    pub id: Seq<u8>,
}

impl View for FileEntry {
    type V = FileView;

    open spec fn view(&self) -> FileView {
        FileView { tag: self.tag@, path: self.path@, id: self.id@ }
    }
}

/// The views of file entries.
pub open spec fn file_views(v: Seq<FileEntry>) -> Seq<FileView> {
    v.map_values(|f: FileEntry| f@)
}

/// The path of a tree entry from the root of the version.
pub open spec fn path_of(e: TreeEntry) -> Seq<char> {
    e.dir@ + e.name@
}

/// Whether a tree entry is recorded: it is a file, and its path matches the
/// pattern, where there is one.
pub open spec fn is_recorded(e: TreeEntry, pattern: Option<Regex>) -> bool {
    e.is_blob && match pattern {
        Some(re) => matched(re, path_of(e)),
        None => true,
    }
}

/// The files among the first `n` entries of the tree of the version `tag`
/// that are recorded, in the order of the tree.
pub open spec fn recorded(tag: Seq<char>, entries: Seq<TreeEntry>, pattern: Option<Regex>, n: int)
    -> Seq<FileView>
    decreases n,
{
    if n <= 0 {
        Seq::empty()
    } else if is_recorded(entries[n - 1], pattern) {
        recorded(tag, entries, pattern, n - 1).push(
            FileView { tag, path: path_of(entries[n - 1]), id: entries[n - 1].id@ },
        )
    } else {
        recorded(tag, entries, pattern, n - 1)
    }
}

/// The pattern behind a reference.
pub open spec fn pattern_of(pattern: Option<&Regex>) -> Option<Regex> {
    match pattern {
        Some(re) => Some(*re),
        None => None,
    }
}

/// Adds to `out` the files of the tree `entries` of the version `tag` that
/// are recorded.
fn push_file_entries(
    tag: &str,
    entries: &Vec<TreeEntry>,
    file_pattern: Option<&Regex>,
    out: &mut Vec<FileEntry>,
)
    ensures
        file_views(final(out)@) == file_views(old(out)@) + recorded(
            tag@,
            entries@,
            pattern_of(file_pattern),
            entries@.len() as int,
        ),
{
    let ghost start = file_views(out@);
    let ghost pattern = pattern_of(file_pattern);
    let mut i: usize = 0;
    assert(file_views(out@) =~= start + recorded(tag@, entries@, pattern, 0));
    while i < entries.len()
        invariant
            i <= entries.len(),
            pattern == pattern_of(file_pattern),
            file_views(out@) == start + recorded(tag@, entries@, pattern, i as int),
        decreases entries.len() - i,
    {
        let ghost before = file_views(out@);
        let e = &entries[i];
        if e.is_blob {
            let mut path = chars_of(e.dir.as_str());
            append_str(&mut path, e.name.as_str());
            let path = string_of(&path);
            let keep = match file_pattern {
                Some(re) => is_match(re, path.as_str()),
                None => true,
            };
            if keep {
                out.push(FileEntry { tag: tag.to_owned(), path, id: e.id.copy() });
                assert(file_views(out@) =~= before.push(
                    FileView { tag: tag@, path: path_of(entries@[i as int]), id: e.id@ },
                ));
                assert(start + recorded(tag@, entries@, pattern, i as int).push(
                    FileView { tag: tag@, path: path_of(entries@[i as int]), id: e.id@ },
                ) =~= (start + recorded(tag@, entries@, pattern, i as int)).push(
                    FileView { tag: tag@, path: path_of(entries@[i as int]), id: e.id@ },
                ));
            }
        }
        i += 1;
    }
}

/// The files of the tree `entries` of the version `tag` that are recorded:
/// for each entry that is a file and whose path matches `file_pattern`, where
/// there is one, the tag, the path and the hash.
pub fn file_entries(tag: &str, entries: &Vec<TreeEntry>, file_pattern: Option<&Regex>) -> (r: Vec<
    FileEntry,
>)
    ensures
        file_views(r@) == recorded(
            tag@,
            entries@,
            pattern_of(file_pattern),
            entries@.len() as int,
        ),
{
    let mut out: Vec<FileEntry> = Vec::new();
    assert(file_views(out@) =~= Seq::<FileView>::empty());
    push_file_entries(tag, entries, file_pattern, &mut out);
    assert(Seq::<FileView>::empty() + recorded(
        tag@,
        entries@,
        pattern_of(file_pattern),
        entries@.len() as int,
    ) =~= recorded(tag@, entries@, pattern_of(file_pattern), entries@.len() as int));
    out
}

/// The tree of a version, as far as it could be read.
#[derive(Debug, Eq, PartialEq, Clone)]
pub struct TagTree {
    pub tag: String,
    /// The entries of the tree, parents before their children; `None` where
    /// the tag does not lead to a commit.
    pub entries: Option<Vec<TreeEntry>>,
}

/// The files of the first `n` versions that are recorded, version by
/// version. A version whose tree could not be read has none.
pub open spec fn recorded_in(trees: Seq<TagTree>, pattern: Option<Regex>, n: int) -> Seq<FileView>
    decreases n,
{
    if n <= 0 {
        Seq::empty()
    } else {
        recorded_in(trees, pattern, n - 1) + match trees[n - 1].entries {
            Some(entries) => recorded(trees[n - 1].tag@, entries@, pattern, entries@.len() as int),
            None => Seq::empty(),
        }
    }
}

/// The number of entries in the trees of the first `n` versions.
pub open spec fn walked(trees: Seq<TagTree>, n: int) -> nat
    decreases n,
{
    if n <= 0 {
        0
    } else {
        walked(trees, n - 1) + match trees[n - 1].entries {
            Some(entries) => entries@.len(),
            None => 0,
        }
    }
}

/// The files of the versions `trees` that are recorded, and the number of
/// tree entries that were looked at, as far as a `usize` can hold it. A
/// version whose tree could not be read is passed over.
pub fn iter_objects_in_tags(trees: &Vec<TagTree>, file_pattern: Option<&Regex>) -> (r: (
    Vec<FileEntry>,
    usize,
))
    ensures
        file_views(r.0@) == recorded_in(trees@, pattern_of(file_pattern), trees@.len() as int),
        r.1 == if walked(trees@, trees@.len() as int) <= usize::MAX {
            walked(trees@, trees@.len() as int)
        } else {
            usize::MAX as nat
        },
{
    let mut out: Vec<FileEntry> = Vec::new();
    let mut count: usize = 0;
    let mut i: usize = 0;
    let ghost pattern = pattern_of(file_pattern);
    assert(file_views(out@) =~= recorded_in(trees@, pattern, 0));
    while i < trees.len()
        invariant
            i <= trees.len(),
            pattern == pattern_of(file_pattern),
            file_views(out@) == recorded_in(trees@, pattern, i as int),
            count == if walked(trees@, i as int) <= usize::MAX {
                walked(trees@, i as int)
            } else {
                usize::MAX as nat
            },
        decreases trees.len() - i,
    {
        match &trees[i].entries {
            Some(entries) => {
                push_file_entries(trees[i].tag.as_str(), entries, file_pattern, &mut out);
                count = match count.checked_add(entries.len()) {
                    Some(c) => c,
                    None => usize::MAX,
                };
            },
            None => {
                assert(file_views(out@) + Seq::<FileView>::empty() =~= file_views(out@));
            },
        }
        i += 1;
    }
    (out, count)
}

/// The views of hashes.
pub open spec fn id_views(v: Seq<ObjectId>) -> Seq<Seq<u8>> {
    v.map_values(|o: ObjectId| o@)
}

/// Whether no element stands twice in `s`.
pub open spec fn distinct(s: Seq<Seq<u8>>) -> bool {
    forall|i: int, j: int| 0 <= i < j < s.len() ==> s[i] != s[j]
}

/// `s` with `id` at its end, where `s` does not hold it.
pub open spec fn with_id(s: Seq<Seq<u8>>, id: Seq<u8>) -> Seq<Seq<u8>> {
    if s.contains(id) {
        s
    } else {
        s.push(id)
    }
}

/// The hashes of the first `n` files, each once, in the order in which they
/// first come.
pub open spec fn distinct_ids(files: Seq<FileView>, n: int) -> Seq<Seq<u8>>
    decreases n,
{
    if n <= 0 {
        Seq::empty()
    } else {
        with_id(distinct_ids(files, n - 1), files[n - 1].id)
    }
}

/// The hash of the first `n` bytes, for the index of a set.
pub open spec fn bytes_hash(bytes: Seq<u8>, n: int) -> u64
    decreases n,
{
    if n <= 0 {
        0
    } else {
        mix(bytes_hash(bytes, n - 1), bytes[n - 1] as u32)
    }
}

/// The hashes of the elements of `ids`.
pub open spec fn hashes(ids: Seq<Seq<u8>>) -> Seq<u64> {
    ids.map_values(|b: Seq<u8>| bytes_hash(b, b.len() as int))
}

/// Objects in the order in which they came, and where each stands.
struct ObjectList {
    ids: Vec<ObjectId>,
    index: PlaceIndex,
}

impl ObjectList {
    /// Whether no object is twice in the list and the index holds the place
    /// of each.
    spec fn consistent(&self) -> bool {
        distinct(id_views(self.ids@)) && covers(self.index@, hashes(id_views(self.ids@)))
    }

    fn new() -> (r: ObjectList)
        ensures
            r.consistent(),
            r.ids@.len() == 0,
    {
        ObjectList { ids: Vec::new(), index: PlaceIndex::new() }
    }

    /// The hash of an object.
    fn hash(id: &ObjectId) -> (h: u64)
        ensures
            h == bytes_hash(id@, id@.len() as int),
    {
        let mut h: u64 = 0;
        let mut i: usize = 0;
        while i < id.bytes.len()
            invariant
                i <= id.bytes.len(),
                h == bytes_hash(id@, i as int),
            decreases id.bytes.len() - i,
        {
            h = mixed(h, id.bytes[i] as u32);
            i += 1;
        }
        h
    }

    /// Whether the list holds the object.
    fn contains(&self, id: &ObjectId) -> (r: bool)
        requires
            self.consistent(),
        ensures
            r == id_views(self.ids@).contains(id@),
    {
        let ghost all = id_views(self.ids@);
        let h = Self::hash(id);
        assert(all.len() == self.ids@.len());
        match self.index.places(h) {
            None => {
                proof {
                    if all.contains(id@) {
                        let p = choose|p: int| 0 <= p < all.len() && all[p] == id@;
                        assert(hashes(all)[p] == h);
                        assert(self.index@.contains_key(hashes(all)[p]));
                    }
                }
                false
            },
            Some(places) => {
                let mut q: usize = 0;
                while q < places.len()
                    invariant
                        q <= places.len(),
                        self.consistent(),
                        all == id_views(self.ids@),
                        self.index@.contains_key(h),
                        self.index@[h] == places@,
                        forall|j: int| 0 <= j < q ==> all[places@[j] as int] != id@,
                    decreases places.len() - q,
                {
                    assert(self.index@[h][q as int] < hashes(all).len());
                    if self.ids[places[q]].same(id) {
                        assert(all[places@[q as int] as int] == id@);
                        return true;
                    }
                    q += 1;
                }
                proof {
                    if all.contains(id@) {
                        let p = choose|p: int| 0 <= p < all.len() && all[p] == id@;
                        assert(all.len() == self.ids.len());
                        assert(hashes(all)[p] == h);
                        assert(self.index@.contains_key(hashes(all)[p]) && self.index@[hashes(
                            all,
                        )[p]].contains(p as usize));
                        let place = p as usize;
                        assert(self.index@[h].contains(place));
                        let j = choose|j: int| 0 <= j < places@.len() && places@[j] == place;
                        assert(all[places@[j] as int] != id@);
                    }
                }
                false
            },
        }
    }

    /// Adds an object that the list does not hold.
    fn push(&mut self, id: ObjectId)
        requires
            old(self).consistent(),
            !id_views(old(self).ids@).contains(id@),
        ensures
            final(self).consistent(),
            id_views(final(self).ids@) == id_views(old(self).ids@).push(id@),
    {
        let ghost before = id_views(self.ids@);
        let h = Self::hash(&id);
        let place = self.ids.len();
        proof {
            lemma_added_covers(self.index@, hashes(before), h);
        }
        self.index.add(h, place);
        self.ids.push(id);
        assert(id_views(self.ids@) =~= before.push(id@));
        assert(hashes(id_views(self.ids@)) =~= hashes(before).push(h));
    }
}

/// A set of objects, in the order in which they came.
pub struct ObjectSet {
    list: ObjectList,
}

impl View for ObjectSet {
    type V = Seq<Seq<u8>>;

    closed spec fn view(&self) -> Seq<Seq<u8>> {
        id_views(self.list.ids@)
    }
}

impl ObjectSet {
    #[verifier::type_invariant]
    spec fn inv(&self) -> bool {
        self.list.consistent()
    }

    /// The empty set.
    pub fn new() -> (r: ObjectSet)
        ensures
            r@ == Seq::<Seq<u8>>::empty(),
    {
        let r = ObjectSet { list: ObjectList::new() };
        assert(r@ =~= Seq::<Seq<u8>>::empty());
        r
    }

    /// The number of objects.
    pub fn len(&self) -> (r: usize)
        ensures
            r == self@.len(),
    {
        self.list.ids.len()
    }

    /// The objects, in the order in which they came: each once.
    pub fn ids(&self) -> (r: &Vec<ObjectId>)
        ensures
            id_views(r@) == self@,
            distinct(self@),
    {
        proof {
            use_type_invariant(self);
        }
        &self.list.ids
    }

    /// Whether the set holds the object.
    pub fn contains(&self, id: &ObjectId) -> (r: bool)
        ensures
            r == self@.contains(id@),
    {
        proof {
            use_type_invariant(self);
        }
        self.list.contains(id)
    }

    /// Adds the object, and says whether it was new.
    pub fn insert(&mut self, id: ObjectId) -> (r: bool)
        ensures
            r == !old(self)@.contains(id@),
            final(self)@ == with_id(old(self)@, id@),
            distinct(final(self)@),
    {
        proof {
            use_type_invariant(&*self);
        }
        if self.list.contains(&id) {
            false
        } else {
            let mut list = ObjectList::new();
            std::mem::swap(&mut self.list, &mut list);
            list.push(id);
            self.list = list;
            true
        }
    }
}

/// Each hash of `distinct_ids` stands once in it.
pub proof fn lemma_distinct_ids(files: Seq<FileView>, n: int)
    ensures
        distinct(distinct_ids(files, n)),
    decreases n,
{
    if n > 0 {
        lemma_distinct_ids(files, n - 1);
    }
}

/// The objects of the files `files`: each hash once, in the order in which
/// the hashes first come.
pub fn collect_objects(files: &Vec<FileEntry>) -> (r: ObjectSet)
    ensures
        r@ == distinct_ids(file_views(files@), files@.len() as int),
{
    let mut r = ObjectSet::new();
    let mut i: usize = 0;
    while i < files.len()
        invariant
            i <= files.len(),
            r@ == distinct_ids(file_views(files@), i as int),
        decreases files.len() - i,
    {
        r.insert(files[i].id.copy());
        i += 1;
    }
    r
}

/// The objects among the first `n` of `ids` that are to be written: those
/// that are not in the store. `present[i]` says whether `ids[i]` is in the
/// store; an object without such a word counts as not in the store.
pub open spec fn to_write(ids: Seq<Seq<u8>>, present: Seq<bool>, n: int) -> Seq<Seq<u8>>
    decreases n,
{
    if n <= 0 {
        Seq::empty()
    } else if n - 1 < present.len() && present[n - 1] {
        to_write(ids, present, n - 1)
    } else {
        to_write(ids, present, n - 1).push(ids[n - 1])
    }
}

/// The objects that are to be written are objects of `ids` that are not in
/// the store, each once where `ids` holds each once.
pub proof fn lemma_to_write(ids: Seq<Seq<u8>>, present: Seq<bool>, n: int)
    requires
        0 <= n <= ids.len(),
    ensures
        forall|id: Seq<u8>|
            to_write(ids, present, n).contains(id) <==> exists|i: int|
                0 <= i < n && #[trigger] ids[i] == id && !(i < present.len() && present[i]),
        distinct(ids) ==> distinct(to_write(ids, present, n)),
    decreases n,
{
    if n > 0 {
        lemma_to_write(ids, present, n - 1);
        let front = to_write(ids, present, n - 1);
        let all = to_write(ids, present, n);
        let last_in = !(n - 1 < present.len() && present[n - 1]);
        assert forall|id: Seq<u8>| all.contains(id) <==> exists|i: int|
            0 <= i < n && #[trigger] ids[i] == id && !(i < present.len() && present[i]) by {
            if all.contains(id) {
                let a = choose|a: int| 0 <= a < all.len() && all[a] == id;
                if a < front.len() {
                    assert(front[a] == id);
                    assert(front.contains(id));
                    let i = choose|i: int|
                        0 <= i < n - 1 && #[trigger] ids[i] == id && !(i < present.len()
                            && present[i]);
                    assert(0 <= i < n && ids[i] == id);
                } else {
                    assert(ids[n - 1] == id);
                }
            }
            if exists|i: int|
                0 <= i < n && #[trigger] ids[i] == id && !(i < present.len() && present[i]) {
                let i = choose|i: int|
                    0 <= i < n && #[trigger] ids[i] == id && !(i < present.len() && present[i]);
                if i < n - 1 {
                    assert(front.contains(id));
                    let a = choose|a: int| 0 <= a < front.len() && front[a] == id;
                    assert(all[a] == id);
                } else {
                    assert(all[all.len() - 1] == id);
                }
            }
        }
        if distinct(ids) && last_in {
            assert forall|a: int, b: int| 0 <= a < b < all.len() implies all[a] != all[b] by {
                if b == all.len() - 1 {
                    assert(front[a] == all[a]);
                    assert(front.contains(all[a]));
                    let i = choose|i: int|
                        0 <= i < n - 1 && #[trigger] ids[i] == all[a] && !(i < present.len()
                            && present[i]);
                    assert(ids[i] != ids[n - 1]);
                } else {
                    assert(front[a] == all[a] && front[b] == all[b]);
                }
            }
        }
    }
}

/// Once every object is in the store, none is to be written: a second run
/// over the same objects writes nothing.
pub proof fn lemma_second_run_writes_nothing(ids: Seq<Seq<u8>>, present: Seq<bool>, n: int)
    requires
        0 <= n <= present.len(),
        forall|i: int| 0 <= i < n ==> present[i],
    ensures
        to_write(ids, present, n) == Seq::<Seq<u8>>::empty(),
    decreases n,
{
    if n > 0 {
        lemma_second_run_writes_nothing(ids, present, n - 1);
    }
}

/// The objects of `objects` that are to be written to the store: those that
/// are not in it, in the order of `objects`. `present[i]` says whether the
/// `i`-th object is in the store.
pub fn write_objects(objects: &ObjectSet, present: &Vec<bool>) -> (r: ObjectSet)
    ensures
        r@ == to_write(objects@, present@, objects@.len() as int),
{
    let ids = objects.ids();
    let mut r = ObjectSet::new();
    let mut i: usize = 0;
    while i < ids.len()
        invariant
            i <= ids.len(),
            id_views(ids@) == objects@,
            distinct(objects@),
            r@ == to_write(objects@, present@, i as int),
        decreases ids.len() - i,
    {
        if !(i < present.len() && present[i]) {
            proof {
                lemma_to_write(objects@, present@, i as int);
                if r@.contains(objects@[i as int]) {
                    let j = choose|j: int|
                        0 <= j < i && #[trigger] objects@[j] == objects@[i as int] && !(j
                            < present@.len() && present@[j]);
                    assert(objects@[j] != objects@[i as int]);
                }
            }
            r.insert(ids[i].copy());
        }
        i += 1;
    }
    r
}

/// The directory of the objects in the directory of a project.
pub const OBJECTS_DIR: &'static str = "objects";

/// The directory of the tables of symbols, one for each object and under
/// the name of the object.
pub const TAGS_DIR: &'static str = "tags";

/// The directory of the files of differences, one for each version.
pub const DIFFS_DIR: &'static str = "diffs";

/// The name of the tag table that the generator makes of the objects.
pub const TAG_TABLE: &'static str = "ctags";

/// The path of an object from the directory of its project.
pub open spec fn object_path(id: Seq<u8>) -> Seq<char> {
    "objects/"@ + hex_text(id)
}

/// The list of the first `n` objects for the generator of tag tables: the
/// path of each, with a line feed after it.
pub open spec fn object_list(ids: Seq<Seq<u8>>, n: int) -> Seq<char>
    decreases n,
{
    if n <= 0 {
        Seq::empty()
    } else {
        object_list(ids, n - 1) + object_path(ids[n - 1]) + "\n"@
    }
}

/// What the generator of tag tables reads: the paths of the objects, one in
/// a line.
pub fn parse_objects(objects: &ObjectSet) -> (r: String)
    ensures
        r@ == object_list(objects@, objects@.len() as int),
{
    let mut out: Vec<char> = Vec::new();
    let mut i: usize = 0;
    let ids = objects.ids();
    while i < ids.len()
        invariant
            i <= ids.len(),
            id_views(ids@) == objects@,
            out@ == object_list(objects@, i as int),
        decreases ids.len() - i,
    {
        append_str(&mut out, "objects/");
        append_str(&mut out, ids[i].hex().as_str());
        append_str(&mut out, "\n");
        assert(out@ =~= object_list(objects@, i as int) + object_path(objects@[i as int]) + "\n"@);
        i += 1;
    }
    string_of(&out)
}

/// The name of an object in a path of the store: what follows the last `/`.
pub open spec fn object_name(path: Seq<char>) -> Seq<char> {
    path.skip(crate::text::last_index(path, '/') + 1)
}

/// The name of an object in a path of the store.
pub fn object_name_of(path: &str) -> (r: String)
    ensures
        r@ == object_name(path@),
{
    let v = chars_of(path);
    match crate::text::rfind_char(&v, '/') {
        Some(k) => string_of(&crate::text::subvec(&v, k + 1, v.len())),
        None => {
            assert(v@.skip(0) == v@);
            string_of(&v)
        },
    }
}


/// The arguments of the generator of tag tables: paths as they are given,
/// every object read as C, symbols in the order of the objects, the table
/// added to what is there, the table in `TAG_TABLE`, and the list of objects
/// from the standard input.
pub open spec fn generator_flags() -> Seq<Seq<char>> {
    seq![
        "--tag-relative"@,
        "--language-force=c"@,
        "--sort=no"@,
        "--append=yes"@,
        "-f"@,
        "ctags"@,
        "-L"@,
        "-"@,
    ]
}

/// The arguments of the generator of tag tables.
pub fn generator_args() -> (r: Vec<&'static str>)
    ensures
        r@.map_values(|s: &'static str| s@) == generator_flags(),
{
    let mut r: Vec<&'static str> = Vec::new();
    r.push("--tag-relative");
    r.push("--language-force=c");
    r.push("--sort=no");
    r.push("--append=yes");
    r.push("-f");
    r.push(TAG_TABLE);
    r.push("-L");
    r.push("-");
    assert(r@.map_values(|s: &'static str| s@) =~= generator_flags());
    r
}

} // verus!
