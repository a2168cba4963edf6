//! Differences between the symbols of consecutive versions.
//!
//! A symbol is known by its name and kind. The symbols of a version stand in
//! a table, each with the places where it occurs. Going from one version to
//! the next, a symbol that the next version has and the previous has not is
//! added, one that the previous has and the next has not is removed, and a
//! symbol that both have is not looked at any further.

use crate::ctags::SymbolType;
use crate::index::{covers, lemma_added_covers, mix, mixed, PlaceIndex};
use crate::natural::{indices, is_permutation, natural_order, natural_order_of, permuted, texts};
use crate::text::{
    append, append_str, chars_of, decimal, decimal_of, find_char_from, first_index,
    lemma_first_index, lemma_first_index_is, lines, lines_of, lowercase, lowercase_of,
    parse_decimal, parse_u64, string_of, subvec, views,
};
use vstd::prelude::*;

verus! {

/// What happened to a symbol between two versions.
#[derive(Debug, Eq, PartialEq, Clone, Copy, Structural)]
pub enum TagAction {
    Add,
    Remove,
    Modify,
}

impl TagAction {
    /// The letter that stands for the action in a file of differences.
    pub open spec fn spec_code(self) -> char {
        match self {
            TagAction::Add => 'a',
            TagAction::Remove => 'r',
            TagAction::Modify => 'm',
        }
    }

    /// The letter that stands for the action in a file of differences.
    pub fn code(&self) -> (r: char)
        ensures
            r == self.spec_code(),
    {
        match self {
            TagAction::Add => 'a',
            TagAction::Remove => 'r',
            TagAction::Modify => 'm',
        }
    }
}

/// What a `TagID` holds: the name and the kind by which a symbol is known.
pub struct SymbolId {
    pub name: Seq<char>,
    pub kind: SymbolType,
}

/// What a `TagData` holds: one place where a symbol occurs.
pub struct Occurrence {
    pub file: Seq<char>,
    pub line_num: u64,
    pub extra: Seq<char>,
}

/// The name and kind by which a symbol is known across versions.
#[derive(Debug, Eq, PartialEq, Hash, Clone)]
pub struct TagID {
    name: String,
    tag_type: SymbolType,
}

impl View for TagID {
    type V = SymbolId;

    closed spec fn view(&self) -> SymbolId {
        SymbolId { name: self.name@, kind: self.tag_type }
    }
}

impl TagID {
    /// The symbol with the name `name` and the kind `tag_type`.
    pub fn new(name: String, tag_type: SymbolType) -> (r: TagID)
        ensures
            r@ == (SymbolId { name: name@, kind: tag_type }),
    {
        TagID { name, tag_type }
    }

    /// The name of the symbol.
    pub fn name(&self) -> (r: &String)
        ensures
            r@ == self@.name,
    {
        &self.name
    }

    /// The kind of the symbol.
    pub fn tag_type(&self) -> (r: SymbolType)
        ensures
            r == self@.kind,
    {
        self.tag_type
    }

    /// Whether two symbols are the same: the same name, letter for letter,
    /// and the same kind.
    pub fn same(&self, other: &TagID) -> (r: bool)
        ensures
            r == (self@ == other@),
    {
        self.name == other.name && self.tag_type == other.tag_type
    }

    /// A copy.
    pub fn copy(&self) -> (r: TagID)
        ensures
            r@ == self@,
    {
        TagID { name: self.name.clone(), tag_type: self.tag_type }
    }
}

/// One place where a symbol occurs: what may change from version to version.
#[derive(Debug, Eq, PartialEq, Clone)]
pub struct TagData {
    file: String,
    line_num: u64,
    extra_data: String,
}

impl View for TagData {
    type V = Occurrence;

    closed spec fn view(&self) -> Occurrence {
        Occurrence { file: self.file@, line_num: self.line_num, extra: self.extra_data@ }
    }
}

impl TagData {
    /// An occurrence at line `line_num` of `file`, with the descriptive text
    /// `extra_data`.
    pub fn new(file: String, line_num: u64, extra_data: String) -> (r: TagData)
        ensures
            r@ == (Occurrence { file: file@, line_num, extra: extra_data@ }),
    {
        TagData { file, line_num, extra_data }
    }

    /// The path of the file.
    pub fn file(&self) -> (r: &String)
        ensures
            r@ == self@.file,
    {
        &self.file
    }

    /// The number of the line, 0 where it is not known.
    pub fn line_num(&self) -> (r: u64)
        ensures
            r == self@.line_num,
    {
        self.line_num
    }

    /// The descriptive text.
    pub fn extra_data(&self) -> (r: &String)
        ensures
            r@ == self@.extra,
    {
        &self.extra_data
    }

    /// A copy.
    pub fn copy(&self) -> (r: TagData)
        ensures
            r@ == self@,
    {
        TagData {
            file: self.file.clone(),
            line_num: self.line_num,
            extra_data: self.extra_data.clone(),
        }
    }
}

/// What a table holds: its symbols in the order in which they came, each
/// with its occurrences in the order in which they came.
pub type Table = Seq<(SymbolId, Seq<Occurrence>)>;

/// The symbols of a table.
pub open spec fn ids(t: Table) -> Seq<SymbolId> {
    t.map_values(|e: (SymbolId, Seq<Occurrence>)| e.0)
}

/// Whether the table has the symbol.
pub open spec fn has_id(t: Table, id: SymbolId) -> bool {
    ids(t).contains(id)
}

/// Whether a table is in order: no symbol stands twice in it, and each has
/// an occurrence.
pub open spec fn table_wf(t: Table) -> bool {
    &&& forall|i: int, j: int| 0 <= i < j < t.len() ==> t[i].0 != t[j].0
    &&& forall|i: int| 0 <= i < t.len() ==> (#[trigger] t[i]).1.len() > 0
}

/// The table with one more occurrence of a symbol: with the others of that
/// symbol, or with a new symbol at the end.
pub open spec fn inserted(t: Table, id: SymbolId, occurrence: Occurrence) -> Table {
    let i = first_index(ids(t), id);
    if 0 <= i < t.len() {
        t.update(i, (id, t[i].1.push(occurrence)))
    } else {
        t.push((id, seq![occurrence]))
    }
}

/// The views of occurrences.
pub open spec fn occurrences(v: Seq<TagData>) -> Seq<Occurrence> {
    v.map_values(|d: TagData| d@)
}

/// The hash of the first `n` characters, for the index of a table.
pub open spec fn chars_hash(name: Seq<char>, n: int) -> u64
    decreases n,
{
    if n <= 0 {
        0
    } else {
        mix(chars_hash(name, n - 1), name[n - 1] as u32)
    }
}

/// The number of a kind, for the index of a table.
pub open spec fn kind_number(kind: SymbolType) -> u32 {
    match kind {
        SymbolType::Unknown => 0,
        SymbolType::Function => 1,
        SymbolType::Define => 2,
        SymbolType::Variable => 3,
    }
}

/// The hash of a symbol.
pub open spec fn id_hash(id: SymbolId) -> u64 {
    mix(chars_hash(id.name, id.name.len() as int), kind_number(id.kind))
}

/// The hashes of symbols.
pub open spec fn id_hashes(ids: Seq<SymbolId>) -> Seq<u64> {
    ids.map_values(|id: SymbolId| id_hash(id))
}

/// The views of entries.
pub open spec fn entry_views(entries: Seq<(TagID, Vec<TagData>)>) -> Table {
    entries.map_values(|e: (TagID, Vec<TagData>)| (e.0@, occurrences(e.1@)))
}

/// The symbols of a version in the order in which they came, and where each
/// stands.
struct SymbolList {
    entries: Vec<(TagID, Vec<TagData>)>,
    index: PlaceIndex,
}

impl SymbolList {
    /// Whether the table is in order and the index holds the place of each
    /// symbol.
    spec fn consistent(&self) -> bool {
        table_wf(entry_views(self.entries@)) && covers(
            self.index@,
            id_hashes(ids(entry_views(self.entries@))),
        )
    }

    fn new() -> (r: SymbolList)
        ensures
            r.consistent(),
            r.entries@.len() == 0,
    {
        SymbolList { entries: Vec::new(), index: PlaceIndex::new() }
    }

    /// The hash of a symbol.
    fn hash(id: &TagID) -> (h: u64)
        ensures
            h == id_hash(id@),
    {
        let name = chars_of(id.name.as_str());
        let mut h: u64 = 0;
        let mut i: usize = 0;
        while i < name.len()
            invariant
                i <= name.len(),
                h == chars_hash(name@, i as int),
            decreases name.len() - i,
        {
            h = mixed(h, name[i] as u32);
            i += 1;
        }
        let kind: u32 = match id.tag_type {
            SymbolType::Unknown => 0,
            SymbolType::Function => 1,
            SymbolType::Define => 2,
            SymbolType::Variable => 3,
        };
        mixed(h, kind)
    }

    /// The place of a symbol in the table, or the length of the table.
    fn find(&self, id: &TagID) -> (r: usize)
        requires
            self.consistent(),
        ensures
            r == first_index(ids(entry_views(self.entries@)), id@),
            r <= self.entries.len(),
    {
        let ghost all = ids(entry_views(self.entries@));
        let h = Self::hash(id);
        assert(all.len() == self.entries.len());
        match self.index.places(h) {
            None => {
                proof {
                    assert forall|j: int| 0 <= j < all.len() implies all[j] != id@ by {
                        if all[j] == id@ {
                            assert(id_hashes(all)[j] == h);
                            assert(self.index@.contains_key(id_hashes(all)[j]));
                        }
                    }
                    lemma_first_index_is(all, id@, all.len() as int);
                }
                self.entries.len()
            },
            Some(places) => {
                let mut q: usize = 0;
                while q < places.len()
                    invariant
                        q <= places.len(),
                        self.consistent(),
                        all == ids(entry_views(self.entries@)),
                        self.index@.contains_key(h),
                        self.index@[h] == places@,
                        forall|j: int| 0 <= j < q ==> all[places@[j] as int] != id@,
                    decreases places.len() - q,
                {
                    assert(self.index@[h][q as int] < id_hashes(all).len());
                    let p = places[q];
                    if self.entries[p].0.same(id) {
                        proof {
                            assert(all[p as int] == id@);
                            assert forall|j: int| 0 <= j < p implies all[j] != id@ by {
                                assert(entry_views(self.entries@)[j].0 != entry_views(
                                    self.entries@,
                                )[p as int].0);
                            }
                            lemma_first_index_is(all, id@, p as int);
                        }
                        return p;
                    }
                    q += 1;
                }
                proof {
                    assert(all.len() == self.entries.len());
                    assert forall|j: int| 0 <= j < all.len() implies all[j] != id@ by {
                        if all[j] == id@ {
                            assert(id_hashes(all)[j] == h);
                            assert(self.index@.contains_key(id_hashes(all)[j]) && self.index@[id_hashes(
                                all,
                            )[j]].contains(j as usize));
                            let place = j as usize;
                            let k = choose|k: int| 0 <= k < places@.len() && places@[k] == place;
                            assert(all[places@[k] as int] != id@);
                        }
                    }
                    lemma_first_index_is(all, id@, all.len() as int);
                }
                self.entries.len()
            },
        }
    }

    /// Adds an occurrence of a symbol.
    fn insert(&mut self, id: TagID, data: TagData)
        requires
            old(self).consistent(),
        ensures
            final(self).consistent(),
            entry_views(final(self).entries@) == inserted(
                entry_views(old(self).entries@),
                id@,
                data@,
            ),
    {
        let i = self.find(&id);
        let ghost before = entry_views(self.entries@);
        proof {
            lemma_first_index(ids(before), id@);
        }
        if i < self.entries.len() {
            self.entries[i].1.push(data);
            assert(entry_views(self.entries@) =~= inserted(before, id@, data@)) by {
                assert(ids(before)[i as int] == id@);
                assert(occurrences(self.entries@[i as int].1@) =~= before[i as int].1.push(data@));
            }
            assert(ids(entry_views(self.entries@)) =~= ids(before));
        } else {
            let h = Self::hash(&id);
            proof {
                lemma_added_covers(self.index@, id_hashes(ids(before)), h);
            }
            self.index.add(h, i);
            let mut occ: Vec<TagData> = Vec::new();
            occ.push(data);
            assert(occurrences(occ@) =~= seq![data@]);
            self.entries.push((id, occ));
            assert(entry_views(self.entries@) =~= inserted(before, id@, data@));
            assert(id_hashes(ids(entry_views(self.entries@))) =~= id_hashes(ids(before)).push(h));
        }
        proof {
            let after = entry_views(self.entries@);
            assert forall|a: int, b: int| 0 <= a < b < after.len() implies after[a].0
                != after[b].0 by {
                if b < before.len() {
                    assert(before[a].0 != before[b].0);
                    assert(ids(before)[i as int] == id@ || i as int >= before.len());
                } else {
                    assert(ids(before)[a] != id@);
                }
            }
            assert forall|a: int| 0 <= a < after.len() implies (#[trigger] after[a]).1.len()
                > 0 by {
                if a < before.len() {
                    assert(before[a].1.len() > 0);
                }
            }
        }
    }
}

/// The symbols of one version, each with the places where it occurs.
pub struct SymbolTable {
    list: SymbolList,
}

impl View for SymbolTable {
    type V = Table;

    closed spec fn view(&self) -> Table {
        entry_views(self.list.entries@)
    }
}

impl SymbolTable {
    #[verifier::type_invariant]
    spec fn inv(&self) -> bool {
        self.list.consistent()
    }

    /// The empty table.
    pub fn new() -> (r: SymbolTable)
        ensures
            r@ == Seq::<(SymbolId, Seq<Occurrence>)>::empty(),
    {
        let r = SymbolTable { list: SymbolList::new() };
        assert(r@ =~= Seq::<(SymbolId, Seq<Occurrence>)>::empty());
        r
    }

    /// The number of symbols. A table is in order.
    pub fn len(&self) -> (r: usize)
        ensures
            r == self@.len(),
            table_wf(self@),
    {
        proof {
            use_type_invariant(self);
        }
        self.list.entries.len()
    }

    /// Whether the table has the symbol.
    pub fn contains(&self, id: &TagID) -> (r: bool)
        ensures
            r == has_id(self@, id@),
    {
        proof {
            use_type_invariant(self);
        }
        let i = self.list.find(id);
        proof {
            lemma_first_index(ids(self@), id@);
            if i < self.list.entries.len() {
                assert(ids(self@)[i as int] == id@);
            }
        }
        i < self.list.entries.len()
    }

    /// Adds an occurrence of a symbol.
    pub fn insert(&mut self, id: TagID, data: TagData)
        ensures
            final(self)@ == inserted(old(self)@, id@, data@),
            table_wf(final(self)@),
    {
        proof {
            use_type_invariant(&*self);
        }
        let mut list = SymbolList::new();
        std::mem::swap(&mut self.list, &mut list);
        list.insert(id, data);
        self.list = list;
    }
}

/// The entries of `a` whose symbols `b` has not, in the order of `a`.
pub open spec fn only_in(a: Table, b: Table) -> Table
    decreases a.len(),
{
    if a.len() == 0 {
        Seq::empty()
    } else {
        let rest = only_in(a.drop_last(), b);
        if has_id(b, a.last().0) {
            rest
        } else {
            rest.push(a.last())
        }
    }
}

/// The entries of `t` whose symbols are of the kind `kind`, in the order of `t`.
pub open spec fn of_kind(t: Table, kind: SymbolType) -> Table
    decreases t.len(),
{
    if t.len() == 0 {
        Seq::empty()
    } else {
        let rest = of_kind(t.drop_last(), kind);
        if t.last().0.kind == kind {
            rest.push(t.last())
        } else {
            rest
        }
    }
}

/// The entries of `t` kind by kind (unknown, function, define, variable),
/// each kind in the order of `t`.
pub open spec fn by_kind(t: Table) -> Table {
    of_kind(t, SymbolType::Unknown) + of_kind(t, SymbolType::Function) + of_kind(
        t,
        SymbolType::Define,
    ) + of_kind(t, SymbolType::Variable)
}

/// The keys by which the entries of `t` are put in order: their names in
/// lower case.
pub open spec fn sort_keys(t: Table) -> Seq<Seq<char>> {
    t.map_values(|e: (SymbolId, Seq<Occurrence>)| lowercase(e.0.name))
}

/// The entries of `t` in the order of a file of differences: in the natural
/// order of their names, capitals counting as small letters; among equal
/// names kind by kind; within a kind as they stand in `t`.
pub open spec fn ordered(t: Table) -> Table {
    permuted(by_kind(t), natural_order(sort_keys(by_kind(t))))
}

/// What a `DiffRecord` holds.
pub struct Change {
    pub action: TagAction,
    pub id: SymbolId,
    pub occurrence: Occurrence,
}

/// One line of a file of differences: a symbol that was added or removed, at
/// one place where it occurs.
#[derive(Debug, Eq, PartialEq, Clone)]
pub struct DiffRecord {
    pub action: TagAction,
    pub id: TagID,
    pub data: TagData,
}

impl View for DiffRecord {
    type V = Change;

    open spec fn view(&self) -> Change {
        Change { action: self.action, id: self.id@, occurrence: self.data@ }
    }
}

/// The views of records.
pub open spec fn record_views(v: Seq<DiffRecord>) -> Seq<Change> {
    v.map_values(|r: DiffRecord| r@)
}

/// One change for each occurrence of an entry.
pub open spec fn changes_of(action: TagAction, e: (SymbolId, Seq<Occurrence>)) -> Seq<Change> {
    e.1.map_values(|o: Occurrence| Change { action, id: e.0, occurrence: o })
}

/// One change for each occurrence of each entry of `t`, in order.
pub open spec fn changes(action: TagAction, t: Table) -> Seq<Change>
    decreases t.len(),
{
    if t.len() == 0 {
        Seq::empty()
    } else {
        changes(action, t.drop_last()) + changes_of(action, t.last())
    }
}

/// The differences between a version with the table `prev` and the one after
/// it with the table `next`: first what was removed, then what was added.
pub open spec fn diff(prev: Table, next: Table) -> Seq<Change> {
    changes(TagAction::Remove, ordered(only_in(prev, next))) + changes(
        TagAction::Add,
        ordered(only_in(next, prev)),
    )
}

impl SymbolTable {
    /// Whether each number of `idx` is the place of an entry.
    spec fn in_range(&self, idx: Seq<usize>) -> bool {
        forall|i: int| 0 <= i < idx.len() ==> idx[i] < self.list.entries.len()
    }

    /// The places of the entries whose symbols `other` has not.
    fn absent_from(&self, other: &SymbolTable) -> (r: Vec<usize>)
        ensures
            self.in_range(r@),
            permuted(self@, indices(r@)) == only_in(self@, other@),
    {
        let mut r: Vec<usize> = Vec::new();
        let mut i: usize = 0;
        assert(self@.take(0) =~= Seq::<(SymbolId, Seq<Occurrence>)>::empty());
        assert(permuted(self@, indices(r@)) =~= only_in(self@.take(0), other@));
        while i < self.list.entries.len()
            invariant
                i <= self.list.entries.len(),
                self.in_range(r@),
                permuted(self@, indices(r@)) == only_in(self@.take(i as int), other@),
            decreases self.list.entries.len() - i,
        {
            let ghost before = permuted(self@, indices(r@));
            assert(self@.take(i + 1).drop_last() == self@.take(i as int));
            if !other.contains(&self.list.entries[i].0) {
                r.push(i);
                assert(permuted(self@, indices(r@)) =~= before.push(self@[i as int]));
            }
            i += 1;
        }
        assert(self@.take(self@.len() as int) == self@);
        r
    }

    /// Adds to `out` those places of `idx` whose symbols are of the kind `kind`.
    fn push_of_kind(&self, idx: &Vec<usize>, kind: SymbolType, out: &mut Vec<usize>)
        requires
            self.in_range(idx@),
            self.in_range(old(out)@),
        ensures
            self.in_range(final(out)@),
            permuted(self@, indices(final(out)@)) == permuted(self@, indices(old(out)@)) + of_kind(
                permuted(self@, indices(idx@)),
                kind,
            ),
    {
        let ghost start = permuted(self@, indices(out@));
        let ghost all = permuted(self@, indices(idx@));
        let mut i: usize = 0;
        assert(all.take(0) =~= Seq::<(SymbolId, Seq<Occurrence>)>::empty());
        assert(permuted(self@, indices(out@)) =~= start + of_kind(all.take(0), kind));
        while i < idx.len()
            invariant
                i <= idx.len(),
                self.in_range(idx@),
                self.in_range(out@),
                all == permuted(self@, indices(idx@)),
                permuted(self@, indices(out@)) == start + of_kind(all.take(i as int), kind),
            decreases idx.len() - i,
        {
            let ghost before = permuted(self@, indices(out@));
            assert(all.take(i + 1).drop_last() == all.take(i as int));
            assert(all.take(i + 1).last() == self@[idx@[i as int] as int]);
            if self.list.entries[idx[i]].0.tag_type == kind {
                out.push(idx[i]);
                assert(permuted(self@, indices(out@)) =~= before.push(self@[idx@[i as int] as int]));
                assert(start + of_kind(all.take(i as int), kind).push(self@[idx@[i as int] as int])
                    =~= (start + of_kind(all.take(i as int), kind)).push(
                    self@[idx@[i as int] as int],
                ));
            }
            i += 1;
        }
        assert(all.take(all.len() as int) == all);
    }

    /// The places `idx` kind by kind.
    fn arranged_by_kind(&self, idx: &Vec<usize>) -> (r: Vec<usize>)
        requires
            self.in_range(idx@),
        ensures
            self.in_range(r@),
            permuted(self@, indices(r@)) == by_kind(permuted(self@, indices(idx@))),
    {
        let mut r: Vec<usize> = Vec::new();
        assert(permuted(self@, indices(r@)) =~= Seq::<(SymbolId, Seq<Occurrence>)>::empty());
        self.push_of_kind(idx, SymbolType::Unknown, &mut r);
        self.push_of_kind(idx, SymbolType::Function, &mut r);
        self.push_of_kind(idx, SymbolType::Define, &mut r);
        self.push_of_kind(idx, SymbolType::Variable, &mut r);
        assert(permuted(self@, indices(r@)) =~= by_kind(permuted(self@, indices(idx@))));
        r
    }

    /// The names, in lower case, of the entries at the places `idx`.
    fn keys_at(&self, idx: &Vec<usize>) -> (r: Vec<String>)
        requires
            self.in_range(idx@),
        ensures
            r@.len() == idx@.len(),
            texts(r@) == sort_keys(permuted(self@, indices(idx@))),
    {
        let mut r: Vec<String> = Vec::new();
        let mut i: usize = 0;
        while i < idx.len()
            invariant
                i <= idx.len(),
                self.in_range(idx@),
                r@.len() == i,
                forall|j: int|
                    0 <= j < i ==> (#[trigger] r@[j])@ == lowercase(self@[idx@[j] as int].0.name),
            decreases idx.len() - i,
        {
            let name = chars_of(self.list.entries[idx[i]].0.name.as_str());
            let low = lowercase_of(&name);
            r.push(string_of(&low));
            i += 1;
        }
        assert(texts(r@) =~= sort_keys(permuted(self@, indices(idx@))));
        r
    }

    /// Adds to `out`, in the order of a file of differences, one record for
    /// each occurrence of each symbol that `other` has not.
    fn push_changes(&self, other: &SymbolTable, action: TagAction, out: &mut Vec<DiffRecord>)
        ensures
            record_views(final(out)@) == record_views(old(out)@) + changes(
                action,
                ordered(only_in(self@, other@)),
            ),
            rearranges(only_in(self@, other@)),
    {
        let absent = self.absent_from(other);
        let idx = self.arranged_by_kind(&absent);
        let keys = self.keys_at(&idx);
        let order = natural_order_of(&keys);
        let ghost start = record_views(out@);
        let ghost k = by_kind(only_in(self@, other@));
        let ghost t = ordered(only_in(self@, other@));
        assert(k == permuted(self@, indices(idx@)));
        assert(k.len() == idx.len());
        assert(t.len() == order.len());
        let mut p: usize = 0;
        assert(t.take(0) =~= Seq::<(SymbolId, Seq<Occurrence>)>::empty());
        assert(record_views(out@) =~= start + changes(action, t.take(0)));
        while p < order.len()
            invariant
                p <= order.len(),
                self.in_range(idx@),
                k == permuted(self@, indices(idx@)),
                t == permuted(k, indices(order@)),
                is_permutation(indices(order@), idx@.len() as nat),
                record_views(out@) == start + changes(action, t.take(p as int)),
            decreases order.len() - p,
        {
            let ghost done = record_views(out@);
            assert(0 <= indices(order@)[p as int] < idx@.len());
            let at = idx[order[p]];
            assert(t[p as int] == self@[at as int]);
            assert(t.take(p + 1).drop_last() == t.take(p as int));
            let entry = &self.list.entries[at];
            let mut q: usize = 0;
            assert(changes_of(action, t[p as int]).take(0) =~= Seq::<Change>::empty());
            assert(done + Seq::<Change>::empty() =~= done);
            while q < entry.1.len()
                invariant
                    q <= entry.1.len(),
                    t[p as int] == (entry.0@, occurrences(entry.1@)),
                    record_views(out@) == done + changes_of(action, t[p as int]).take(q as int),
                decreases entry.1.len() - q,
            {
                let ghost sofar = record_views(out@);
                out.push(DiffRecord { action, id: entry.0.copy(), data: entry.1[q].copy() });
                assert(record_views(out@) =~= sofar.push(changes_of(action, t[p as int])[q as int]));
                assert(changes_of(action, t[p as int]).take(q + 1) =~= changes_of(
                    action,
                    t[p as int],
                ).take(q as int).push(changes_of(action, t[p as int])[q as int]));
                assert(done + changes_of(action, t[p as int]).take(q as int).push(
                    changes_of(action, t[p as int])[q as int],
                ) =~= (done + changes_of(action, t[p as int]).take(q as int)).push(
                    changes_of(action, t[p as int])[q as int],
                ));
                q += 1;
            }
            assert(changes_of(action, t[p as int]).take(entry.1@.len() as int) =~= changes_of(
                action,
                t[p as int],
            ));
            assert(start + (changes(action, t.take(p as int)) + changes_of(action, t[p as int]))
                =~= (start + changes(action, t.take(p as int))) + changes_of(action, t[p as int]));
            p += 1;
        }
        assert(t.take(t.len() as int) == t);
    }
}

/// Whether `d` holds a change of the symbol `id` with the action `action`.
pub open spec fn mentions(d: Seq<Change>, action: TagAction, id: SymbolId) -> bool {
    exists|i: int| 0 <= i < d.len() && d[i].action == action && d[i].id == id
}

/// The symbols of `t` are those of its entries.
proof fn lemma_has_id(t: Table, id: SymbolId)
    ensures
        has_id(t, id) <==> exists|j: int| 0 <= j < t.len() && (#[trigger] t[j]).0 == id,
{
    if has_id(t, id) {
        let j = choose|j: int| 0 <= j < ids(t).len() && ids(t)[j] == id;
        assert(t[j].0 == id);
    }
    if exists|j: int| 0 <= j < t.len() && (#[trigger] t[j]).0 == id {
        let j = choose|j: int| 0 <= j < t.len() && (#[trigger] t[j]).0 == id;
        assert(ids(t)[j] == id);
    }
}

/// The changes of a table speak of its symbols, and of each that has an
/// occurrence.
proof fn lemma_changes(action: TagAction, t: Table, other: TagAction, id: SymbolId)
    ensures
        mentions(changes(action, t), other, id) <==> (other == action && exists|j: int|
            0 <= j < t.len() && (#[trigger] t[j]).0 == id && t[j].1.len() > 0),
    decreases t.len(),
{
    if t.len() > 0 {
        let front = t.drop_last();
        let a = changes(action, front);
        let b = changes_of(action, t.last());
        let d = changes(action, t);
        lemma_changes(action, front, other, id);
        if mentions(d, other, id) {
            let i = choose|i: int| 0 <= i < d.len() && d[i].action == other && d[i].id == id;
            if i < a.len() {
                assert(a[i] == d[i]);
                assert(mentions(a, other, id));
                let j = choose|j: int|
                    0 <= j < front.len() && (#[trigger] front[j]).0 == id && front[j].1.len() > 0;
                assert(t[j] == front[j]);
            } else {
                assert(d[i] == b[i - a.len()]);
                assert(t[t.len() - 1].0 == id);
            }
        }
        if other == action && exists|j: int|
            0 <= j < t.len() && (#[trigger] t[j]).0 == id && t[j].1.len() > 0 {
            let j = choose|j: int| 0 <= j < t.len() && (#[trigger] t[j]).0 == id && t[j].1.len() > 0;
            if j < front.len() {
                assert(front[j] == t[j]);
                assert(mentions(a, other, id));
                let i = choose|i: int| 0 <= i < a.len() && a[i].action == other && a[i].id == id;
                assert(d[i] == a[i]);
            } else {
                assert(d[a.len() as int] == b[0]);
            }
        }
    }
}

/// The entries of `only_in(a, b)` are those entries of `a` whose symbols `b`
/// has not.
proof fn lemma_only_in(a: Table, b: Table, e: (SymbolId, Seq<Occurrence>))
    ensures
        only_in(a, b).contains(e) <==> (a.contains(e) && !has_id(b, e.0)),
    decreases a.len(),
{
    if a.len() > 0 {
        let front = a.drop_last();
        lemma_only_in(front, b, e);
        let r = only_in(front, b);
        let o = only_in(a, b);
        if o.contains(e) {
            let i = choose|i: int| 0 <= i < o.len() && o[i] == e;
            if i < r.len() {
                assert(r[i] == e);
                let j = choose|j: int| 0 <= j < front.len() && front[j] == e;
                assert(a[j] == e);
            } else {
                assert(a[a.len() - 1] == e);
            }
        }
        if a.contains(e) && !has_id(b, e.0) {
            let j = choose|j: int| 0 <= j < a.len() && a[j] == e;
            if j < front.len() {
                assert(front[j] == e);
                let i = choose|i: int| 0 <= i < r.len() && r[i] == e;
                assert(o[i] == e);
            } else {
                assert(o[o.len() - 1] == e);
            }
        }
    }
}

/// The entries of `of_kind(t, kind)` are the entries of `t` of that kind.
proof fn lemma_of_kind(t: Table, kind: SymbolType, e: (SymbolId, Seq<Occurrence>))
    ensures
        of_kind(t, kind).contains(e) <==> (t.contains(e) && e.0.kind == kind),
    decreases t.len(),
{
    if t.len() > 0 {
        let front = t.drop_last();
        lemma_of_kind(front, kind, e);
        let r = of_kind(front, kind);
        let o = of_kind(t, kind);
        if o.contains(e) {
            let i = choose|i: int| 0 <= i < o.len() && o[i] == e;
            if i < r.len() {
                assert(r[i] == e);
                let j = choose|j: int| 0 <= j < front.len() && front[j] == e;
                assert(t[j] == e);
            } else {
                assert(t[t.len() - 1] == e);
            }
        }
        if t.contains(e) && e.0.kind == kind {
            let j = choose|j: int| 0 <= j < t.len() && t[j] == e;
            if j < front.len() {
                assert(front[j] == e);
                let i = choose|i: int| 0 <= i < r.len() && r[i] == e;
                assert(o[i] == e);
            } else {
                assert(o[o.len() - 1] == e);
            }
        }
    }
}

/// Putting a table kind by kind keeps its entries.
proof fn lemma_by_kind(t: Table, e: (SymbolId, Seq<Occurrence>))
    ensures
        by_kind(t).contains(e) <==> t.contains(e),
{
    let a = of_kind(t, SymbolType::Unknown);
    let b = of_kind(t, SymbolType::Function);
    let c = of_kind(t, SymbolType::Define);
    let d = of_kind(t, SymbolType::Variable);
    lemma_of_kind(t, SymbolType::Unknown, e);
    lemma_of_kind(t, SymbolType::Function, e);
    lemma_of_kind(t, SymbolType::Define, e);
    lemma_of_kind(t, SymbolType::Variable, e);
    let k = by_kind(t);
    if k.contains(e) {
        let i = choose|i: int| 0 <= i < k.len() && k[i] == e;
        if i < a.len() {
            assert(a[i] == e);
        } else if i < a.len() + b.len() {
            assert(b[i - a.len()] == e);
        } else if i < a.len() + b.len() + c.len() {
            assert(c[i - a.len() - b.len()] == e);
        } else {
            assert(d[i - a.len() - b.len() - c.len()] == e);
        }
    }
    if t.contains(e) {
        match e.0.kind {
            SymbolType::Unknown => {
                let i = choose|i: int| 0 <= i < a.len() && a[i] == e;
                assert(k[i] == e);
            },
            SymbolType::Function => {
                let i = choose|i: int| 0 <= i < b.len() && b[i] == e;
                assert(k[a.len() + i] == e);
            },
            SymbolType::Define => {
                let i = choose|i: int| 0 <= i < c.len() && c[i] == e;
                assert(k[a.len() + b.len() + i] == e);
            },
            SymbolType::Variable => {
                let i = choose|i: int| 0 <= i < d.len() && d[i] == e;
                assert(k[a.len() + b.len() + c.len() + i] == e);
            },
        }
    }
}

/// Whether the natural order of the entries of `t`, put kind by kind, is a
/// rearrangement of them.
pub open spec fn rearranges(t: Table) -> bool {
    is_permutation(natural_order(sort_keys(by_kind(t))), by_kind(t).len())
}

/// Where the natural order rearranges, the changes for the symbols that `a`
/// has and `b` has not speak of exactly those symbols.
pub proof fn lemma_changes_of_difference(action: TagAction, a: Table, b: Table)
    requires
        table_wf(a),
        rearranges(only_in(a, b)),
    ensures
        forall|other: TagAction, id: SymbolId|
            mentions(changes(action, ordered(only_in(a, b))), other, id) <==> (other == action
                && has_id(a, id) && !has_id(b, id)),
{
    let o = only_in(a, b);
    let k = by_kind(o);
    let t = ordered(o);
    let d = changes(action, t);
    assert forall|other: TagAction, id: SymbolId| mentions(d, other, id) <==> (other == action
        && has_id(a, id) && !has_id(b, id)) by {
        lemma_changes(action, t, other, id);
        lemma_has_id(a, id);
        if mentions(d, other, id) {
            let j = choose|j: int| 0 <= j < t.len() && (#[trigger] t[j]).0 == id && t[j].1.len() > 0;
            let e = t[j];
            assert(t.contains(e));
            crate::natural::lemma_permuted_has_the_same_elements(k, natural_order(sort_keys(k)), e);
            lemma_by_kind(o, e);
            lemma_only_in(a, b, e);
            let i = choose|i: int| 0 <= i < a.len() && a[i] == e;
            assert(a[i].0 == id);
        }
        if other == action && has_id(a, id) && !has_id(b, id) {
            let i = choose|i: int| 0 <= i < a.len() && (#[trigger] a[i]).0 == id;
            let e = a[i];
            assert(a.contains(e));
            lemma_only_in(a, b, e);
            lemma_by_kind(o, e);
            crate::natural::lemma_permuted_has_the_same_elements(k, natural_order(sort_keys(k)), e);
            let j = choose|j: int| 0 <= j < t.len() && t[j] == e;
            assert(t[j].0 == id && t[j].1.len() > 0);
        }
    }
}

/// Between two tables in order, where the natural order rearranges: the
/// symbols that are added are those that `next` has and `prev` has not, the
/// symbols that are removed are those that `prev` has and `next` has not, and
/// a symbol that both have is in no change. So the symbols of all changes
/// are the symmetric difference of the symbols of the two tables.
pub proof fn lemma_diff_is_symmetric_difference(prev: Table, next: Table)
    requires
        table_wf(prev),
        table_wf(next),
        rearranges(only_in(prev, next)),
        rearranges(only_in(next, prev)),
    ensures
        symmetric_difference(diff(prev, next), prev, next),
{
    let r = changes(TagAction::Remove, ordered(only_in(prev, next)));
    let a = changes(TagAction::Add, ordered(only_in(next, prev)));
    let d = diff(prev, next);
    lemma_changes_of_difference(TagAction::Remove, prev, next);
    lemma_changes_of_difference(TagAction::Add, next, prev);
    assert forall|action: TagAction, id: SymbolId| mentions(d, action, id) <==> (mentions(
        r,
        action,
        id,
    ) || mentions(a, action, id)) by {
        if mentions(d, action, id) {
            let i = choose|i: int| 0 <= i < d.len() && d[i].action == action && d[i].id == id;
            if i < r.len() {
                assert(r[i] == d[i]);
            } else {
                assert(a[i - r.len()] == d[i]);
            }
        }
        if mentions(r, action, id) {
            let i = choose|i: int| 0 <= i < r.len() && r[i].action == action && r[i].id == id;
            assert(d[i] == r[i]);
        }
        if mentions(a, action, id) {
            let i = choose|i: int| 0 <= i < a.len() && a[i].action == action && a[i].id == id;
            assert(d[r.len() + i] == a[i]);
        }
    }
}

/// Whether the changes `d` speak of the symmetric difference of the symbols
/// of `prev` and `next`: a symbol is added if and only if `next` has it and
/// `prev` has not, removed if and only if `prev` has it and `next` has not,
/// and never modified.
pub open spec fn symmetric_difference(d: Seq<Change>, prev: Table, next: Table) -> bool {
    forall|action: TagAction, id: SymbolId|
        #![trigger mentions(d, action, id)]
        mentions(d, action, id) <==> match action {
            TagAction::Add => has_id(next, id) && !has_id(prev, id),
            TagAction::Remove => has_id(prev, id) && !has_id(next, id),
            TagAction::Modify => false,
        }
}

/// The differences between a version with the table `prev` and the one after
/// it with the table `next`.
pub fn diff_tables(prev: &SymbolTable, next: &SymbolTable) -> (r: Vec<DiffRecord>)
    ensures
        record_views(r@) == diff(prev@, next@),
        symmetric_difference(record_views(r@), prev@, next@),
{
    let mut out: Vec<DiffRecord> = Vec::new();
    assert(record_views(out@) =~= Seq::<Change>::empty());
    prev.push_changes(next, TagAction::Remove, &mut out);
    next.push_changes(prev, TagAction::Add, &mut out);
    assert(Seq::<Change>::empty() + changes(TagAction::Remove, ordered(only_in(prev@, next@)))
        =~= changes(TagAction::Remove, ordered(only_in(prev@, next@))));
    let _ = prev.len();
    let _ = next.len();
    proof {
        lemma_diff_is_symmetric_difference(prev@, next@);
    }
    out
}


/// The line of a file of differences for one change: the letter of the
/// action, the name, the kind, the file, the line number and the further
/// text, with tabs between them and a line feed at the end.
pub open spec fn diff_line(c: Change) -> Seq<char> {
    seq![c.action.spec_code()] + "\t"@ + c.id.name + "\t"@ + c.id.kind.spec_name() + "\t"@
        + c.occurrence.file + "\t"@ + decimal(c.occurrence.line_num as nat) + "\t"@
        + c.occurrence.extra + "\n"@
}

/// The text of a file of differences: the lines of its changes.
pub open spec fn diff_text(d: Seq<Change>) -> Seq<char>
    decreases d.len(),
{
    if d.len() == 0 {
        Seq::empty()
    } else {
        diff_text(d.drop_last()) + diff_line(d.last())
    }
}

impl DiffRecord {
    /// Adds the line of the record to `out`.
    fn push_line(&self, out: &mut Vec<char>)
        ensures
            final(out)@ == old(out)@ + diff_line(self@),
    {
        let mut line: Vec<char> = Vec::new();
        line.push(self.action.code());
        append_str(&mut line, "\t");
        append_str(&mut line, self.id.name.as_str());
        append_str(&mut line, "\t");
        append_str(&mut line, self.id.tag_type.name());
        append_str(&mut line, "\t");
        append_str(&mut line, self.data.file.as_str());
        append_str(&mut line, "\t");
        let number = decimal_of(self.data.line_num);
        append(&mut line, &number);
        append_str(&mut line, "\t");
        append_str(&mut line, self.data.extra_data.as_str());
        append_str(&mut line, "\n");
        assert(line@ =~= diff_line(self@));
        append(out, &line);
    }

    /// The line of the record in a file of differences.
    pub fn line(&self) -> (r: String)
        ensures
            r@ == diff_line(self@),
    {
        let mut out: Vec<char> = Vec::new();
        self.push_line(&mut out);
        assert(Seq::<char>::empty() + diff_line(self@) =~= diff_line(self@));
        string_of(&out)
    }
}

/// The text of the file of differences that holds `records`.
pub fn diff_file(records: &Vec<DiffRecord>) -> (r: String)
    ensures
        r@ == diff_text(record_views(records@)),
{
    let mut out: Vec<char> = Vec::new();
    let mut i: usize = 0;
    let ghost all = record_views(records@);
    assert(all.take(0) =~= Seq::<Change>::empty());
    while i < records.len()
        invariant
            i <= records.len(),
            all == record_views(records@),
            out@ == diff_text(all.take(i as int)),
        decreases records.len() - i,
    {
        assert(all.take(i + 1).drop_last() == all.take(i as int));
        assert(all.take(i + 1).last() == records@[i as int]@);
        records[i].push_line(&mut out);
        i += 1;
    }
    assert(all.take(all.len() as int) == all);
    string_of(&out)
}

/// The name of the file of differences of a version: the name of the
/// version's tag with `-` in place of each `/`.
pub open spec fn diff_name(tag: Seq<char>) -> Seq<char> {
    tag.map_values(
        |c: char|
            if c == '/' {
                '-'
            } else {
                c
            },
    )
}

/// The name of the file of differences of a version.
pub fn diff_file_name(tag: &str) -> (r: String)
    ensures
        r@ == diff_name(tag@),
{
    let v = chars_of(tag);
    let mut out: Vec<char> = Vec::new();
    let mut i: usize = 0;
    while i < v.len()
        invariant
            i <= v.len(),
            out@.len() == i,
            forall|j: int| 0 <= j < i ==> out@[j] == diff_name(v@)[j],
        decreases v.len() - i,
    {
        out.push(if v[i] == '/' {
            '-'
        } else {
            v[i]
        });
        i += 1;
    }
    assert(out@ =~= diff_name(v@));
    string_of(&out)
}

/// Why a line of a table of symbols cannot be read.
#[derive(Debug, Eq, PartialEq, Clone, Copy, Structural)]
pub enum TagLineError {
    /// The line has fewer than three fields.
    MissingField,
    /// The third field is no decimal numeral that a `u64` can hold.
    BadLineNumber,
}

/// What a line of a table of symbols says: the symbol, the number of its
/// line, and the further text. The line has the fields name, kind and line
/// number, with tabs between them; what follows a third tab is the further
/// text, tabs and all.
pub open spec fn parsed_tag_line(line: Seq<char>) -> Result<
    (SymbolId, u64, Seq<char>),
    TagLineError,
> {
    let t1 = first_index(line, '\t');
    let rest1 = line.skip(t1 + 1);
    let t2 = first_index(rest1, '\t');
    let rest2 = rest1.skip(t2 + 1);
    let t3 = first_index(rest2, '\t');
    if t1 >= line.len() || t2 >= rest1.len() {
        Err(TagLineError::MissingField)
    } else {
        match parse_decimal(rest2.take(t3)) {
            None => Err(TagLineError::BadLineNumber),
            Some(n) => Ok(
                (
                    SymbolId { name: line.take(t1), kind: SymbolType::of_name(rest1.take(t2)) },
                    n,
                    if t3 < rest2.len() {
                        rest2.skip(t3 + 1)
                    } else {
                        Seq::empty()
                    },
                ),
            ),
        }
    }
}

/// The view of what `parse_tag_line` returns.
pub open spec fn tag_line_view(r: Result<(TagID, u64, String), TagLineError>) -> Result<
    (SymbolId, u64, Seq<char>),
    TagLineError,
> {
    match r {
        Ok(f) => Ok((f.0@, f.1, f.2@)),
        Err(e) => Err(e),
    }
}

fn parse_tag_chars(v: &Vec<char>) -> (r: Result<(TagID, u64, String), TagLineError>)
    ensures
        tag_line_view(r) == parsed_tag_line(v@),
{
    assert(v@.skip(0) == v@);
    let t1 = find_char_from(v, 0, '\t');
    if t1 == v.len() {
        return Err(TagLineError::MissingField);
    }
    let rest1 = subvec(v, t1 + 1, v.len());
    assert(rest1@ == v@.skip(t1 + 1));
    assert(rest1@.skip(0) == rest1@);
    let t2 = find_char_from(&rest1, 0, '\t');
    if t2 == rest1.len() {
        return Err(TagLineError::MissingField);
    }
    let rest2 = subvec(&rest1, t2 + 1, rest1.len());
    assert(rest2@ == rest1@.skip(t2 + 1));
    assert(rest2@.skip(0) == rest2@);
    let t3 = find_char_from(&rest2, 0, '\t');
    let number = subvec(&rest2, 0, t3);
    let line_num = match parse_u64(&number) {
        Some(n) => n,
        None => {
            return Err(TagLineError::BadLineNumber);
        },
    };
    let extra = if t3 < rest2.len() {
        subvec(&rest2, t3 + 1, rest2.len())
    } else {
        Vec::new()
    };
    let name = subvec(v, 0, t1);
    let kind = subvec(&rest1, 0, t2);
    Ok((TagID::new(string_of(&name), SymbolType::from_name(&kind)), line_num, string_of(&extra)))
}

/// Reads a line of a table of symbols. The line is taken without its line
/// feed.
pub fn parse_tag_line(line: &str) -> (r: Result<(TagID, u64, String), TagLineError>)
    ensures
        tag_line_view(r) == parsed_tag_line(line@),
{
    let v = chars_of(line);
    parse_tag_chars(&v)
}

/// The table `t` after the lines `ls` of the table of symbols of the file
/// `file` have been read into it one by one, and the error of the first line
/// that cannot be read, at which the reading stops.
pub open spec fn loaded(t: Table, ls: Seq<Seq<char>>, file: Seq<char>) -> (
    Table,
    Option<TagLineError>,
)
    decreases ls.len(),
{
    if ls.len() == 0 {
        (t, None)
    } else {
        match parsed_tag_line(ls[0]) {
            Err(e) => (t, Some(e)),
            Ok(f) => loaded(
                inserted(t, f.0, Occurrence { file, line_num: f.1, extra: f.2 }),
                ls.drop_first(),
                file,
            ),
        }
    }
}

impl SymbolTable {
    /// Reads the table of symbols `content` of the file `file_path` into
    /// this table: each line is one occurrence of a symbol in that file.
    pub fn load_tags(&mut self, content: &str, file_path: &str) -> (r: Result<(), TagLineError>)
        ensures
            final(self)@ == loaded(old(self)@, lines(content@), file_path@).0,
            match r {
                Ok(_) => loaded(old(self)@, lines(content@), file_path@).1 is None,
                Err(e) => loaded(old(self)@, lines(content@), file_path@).1 == Some(e),
            },
    {
        let text = chars_of(content);
        let ls = lines_of(&text);
        let mut i: usize = 0;
        assert(views(ls@).skip(0) == views(ls@));
        while i < ls.len()
            invariant
                i <= ls.len(),
                views(ls@) == lines(content@),
                loaded(old(self)@, lines(content@), file_path@) == loaded(
                    self@,
                    views(ls@).skip(i as int),
                    file_path@,
                ),
            decreases ls.len() - i,
        {
            assert(views(ls@).skip(i as int)[0] == ls@[i as int]@);
            assert(views(ls@).skip(i as int).drop_first() == views(ls@).skip(i + 1));
            match parse_tag_chars(&ls[i]) {
                Err(e) => {
                    return Err(e);
                },
                Ok(f) => {
                    self.insert(f.0, TagData::new(file_path.to_owned(), f.1, f.2));
                },
            }
            i += 1;
        }
        Ok(())
    }
}

/// Whether the objects of tag `i` are to be read: its own differences or
/// those of the tag after it are not on disk. `done[j]` says whether the
/// differences of tag `j` are on disk.
pub open spec fn needs_walk(done: Seq<bool>, i: int) -> bool {
    !done[i] || (i + 1 < done.len() && !done[i + 1])
}

/// The indices below `n` of the tags that are to be read, in order.
pub open spec fn walk_list(done: Seq<bool>, n: int) -> Seq<int>
    decreases n,
{
    if n <= 0 {
        Seq::empty()
    } else if needs_walk(done, n - 1) {
        walk_list(done, n - 1).push(n - 1)
    } else {
        walk_list(done, n - 1)
    }
}

/// The tags whose objects are to be read so that every set of differences
/// that is not on disk can be made: `done[i]` says whether the differences of
/// `tags[i]` are on disk. The result holds the indices of those tags, in
/// order.
pub fn tags_to_compute(done: &Vec<bool>) -> (r: Vec<usize>)
    ensures
        indices(r@) == walk_list(done@, done@.len() as int),
{
    let mut r: Vec<usize> = Vec::new();
    let mut i: usize = 0;
    assert(indices(r@) =~= walk_list(done@, 0));
    while i < done.len()
        invariant
            i <= done.len(),
            indices(r@) == walk_list(done@, i as int),
        decreases done.len() - i,
    {
        let ghost before = indices(r@);
        if !done[i] || (i + 1 < done.len() && !done[i + 1]) {
            r.push(i);
            assert(indices(r@) =~= before.push(i as int));
        }
        i += 1;
    }
    r
}

/// What a `DiffWindow` holds.
pub struct Window {
    /// The table of the version before the one that is being read.
    pub prev: Table,
    /// The table of the version that is being read.
    pub next: Table,
}

/// The window after the version that is being read has ended, and the
/// differences that are to be written: none where they are on disk already.
/// Either way the version becomes the previous one, and the next starts
/// empty.
pub open spec fn ended(w: Window, exists: bool) -> (Window, Option<Seq<Change>>) {
    (
        Window { prev: w.next, next: Seq::empty() },
        if exists {
            None
        } else {
            Some(diff(w.prev, w.next))
        },
    )
}

/// Differences that are on disk are not made again, and the window moves
/// all the same: the differences of the version `after` are those against
/// the version that was passed over.
pub proof fn lemma_existing_differences_are_passed_over(w: Window, after: Table)
    ensures
        ended(w, true).1 is None,
        ended(w, true).0 == ended(w, false).0,
        ended(Window { next: after, ..ended(w, true).0 }, false).1 == Some(diff(w.next, after)),
{
}

/// Two runs over the same two tables write the same file of differences:
/// whatever meets the contract of `diff_tables` has the same text.
pub proof fn lemma_two_runs_write_the_same_file(
    first: Seq<Change>,
    second: Seq<Change>,
    prev: Table,
    next: Table,
)
    requires
        first == diff(prev, next),
        second == diff(prev, next),
    ensures
        diff_text(first) == diff_text(second),
{
}

/// The tables of two consecutive versions: the version whose objects were
/// read last, and the one that is being read.
pub struct DiffWindow {
    prev: SymbolTable,
    next: SymbolTable,
}

impl View for DiffWindow {
    type V = Window;

    closed spec fn view(&self) -> Window {
        Window { prev: self.prev@, next: self.next@ }
    }
}

impl DiffWindow {
    /// Two empty tables.
    pub fn new() -> (r: DiffWindow)
        ensures
            r@ == (Window { prev: Seq::empty(), next: Seq::empty() }),
    {
        DiffWindow { prev: SymbolTable::new(), next: SymbolTable::new() }
    }

    /// Adds an occurrence of a symbol to the version that is being read.
    pub fn insert(&mut self, id: TagID, data: TagData)
        ensures
            final(self)@ == (Window {
                next: inserted(old(self)@.next, id@, data@),
                ..old(self)@
            }),
    {
        self.next.insert(id, data);
    }

    /// Reads the table of symbols `content` of the file `file_path` into the
    /// version that is being read.
    pub fn load_tags(&mut self, content: &str, file_path: &str) -> (r: Result<(), TagLineError>)
        ensures
            final(self)@ == (Window {
                next: loaded(old(self)@.next, lines(content@), file_path@).0,
                ..old(self)@
            }),
            match r {
                Ok(_) => loaded(old(self)@.next, lines(content@), file_path@).1 is None,
                Err(e) => loaded(old(self)@.next, lines(content@), file_path@).1 == Some(e),
            },
    {
        self.next.load_tags(content, file_path)
    }

    /// Ends the version that is being read. Where its differences are not on
    /// disk (`exists` is false), the result holds them; where they are, there
    /// is no result and nothing is to be written. Either way the version
    /// becomes the previous one, and the next starts empty.
    pub fn create_diff(&mut self, exists: bool) -> (r: Option<Vec<DiffRecord>>)
        ensures
            final(self)@ == ended(old(self)@, exists).0,
            match r {
                Some(d) => ended(old(self)@, exists).1 == Some(record_views(d@)),
                None => ended(old(self)@, exists).1 is None,
            },
            r matches Some(d) ==> symmetric_difference(
                record_views(d@),
                old(self)@.prev,
                old(self)@.next,
            ),
    {
        let r = if exists {
            None
        } else {
            Some(diff_tables(&self.prev, &self.next))
        };
        let mut fresh = SymbolTable::new();
        std::mem::swap(&mut self.next, &mut fresh);
        self.prev = fresh;
        r
    }
}

} // verus!
