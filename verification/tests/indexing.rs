use sourcedigger::ctags::SymbolType;
use sourcedigger::diff::{diff_tables, SymbolTable, TagData, TagID};
use sourcedigger::index::{mixed, PlaceIndex, MODULUS};
use sourcedigger::objects::{ObjectId, ObjectSet};

#[test]
fn hashes_are_mixed_below_the_modulus() {
    assert_eq!(mixed(0, 0), 0);
    assert_eq!(mixed(0, 97), 97);
    assert_eq!(mixed(97, 98), 97 * 257 + 98);
    assert_eq!(mixed(MODULUS - 1, 0), MODULUS - 257);
    assert_eq!(mixed(u64::MAX, u32::MAX), ((u64::MAX as u128 * 257 + u32::MAX as u128) % MODULUS as u128) as u64);
    assert_eq!(MODULUS, (1u64 << 61) - 1);
}

#[test]
fn places_are_kept_by_hash() {
    let mut index = PlaceIndex::new();
    assert_eq!(index.places(7), None);
    index.add(7, 0);
    index.add(9, 1);
    index.add(7, 2);
    assert_eq!(index.places(7), Some(&vec![0, 2]));
    assert_eq!(index.places(9), Some(&vec![1]));
    assert_eq!(index.places(8), None);
}

#[test]
fn symbols_with_the_same_hash_are_told_apart() {
    // Both names have the hash 257.
    let one = TagID::new("\u{0}\u{101}".to_string(), SymbolType::Function);
    let other = TagID::new("\u{1}\u{0}".to_string(), SymbolType::Function);
    let mut table = SymbolTable::new();
    table.insert(one.copy(), TagData::new("a.c".to_string(), 1, String::new()));
    assert!(table.contains(&one));
    assert!(!table.contains(&other));
    table.insert(other.copy(), TagData::new("a.c".to_string(), 2, String::new()));
    table.insert(one.copy(), TagData::new("b.c".to_string(), 3, String::new()));
    assert_eq!(table.len(), 2);
    assert!(table.contains(&other));
    let mut only_one = SymbolTable::new();
    only_one.insert(one.copy(), TagData::new("a.c".to_string(), 1, String::new()));
    let d = diff_tables(&only_one, &table);
    assert_eq!(d.len(), 1);
    assert!(d[0].id.same(&other));
}

#[test]
fn many_symbols_and_objects() {
    let mut prev = SymbolTable::new();
    let mut next = SymbolTable::new();
    for i in 0..3000u64 {
        let id = TagID::new(format!("symbol_{}", i), SymbolType::Function);
        if i % 3 != 0 {
            prev.insert(id.copy(), TagData::new("a.c".to_string(), i, String::new()));
        }
        if i % 3 != 1 {
            next.insert(id.copy(), TagData::new("a.c".to_string(), i, String::new()));
            next.insert(id, TagData::new("b.c".to_string(), i, String::new()));
        }
    }
    assert_eq!((prev.len(), next.len()), (2000, 2000));
    let d = diff_tables(&prev, &next);
    assert_eq!(d.len(), 1000 + 2 * 1000);
    assert_eq!(d[0].id.name(), "symbol_1");
    assert_eq!(d[999].id.name(), "symbol_2998");
    assert_eq!(d[1000].id.name(), "symbol_0");
    assert_eq!(d[1001].data.file(), "b.c");
    assert_eq!(d[2999].id.name(), "symbol_2997");

    let mut objects = ObjectSet::new();
    for round in 0..3 {
        for i in 0..2000u32 {
            let new = objects.insert(ObjectId::new(&i.to_be_bytes().repeat(5)));
            assert_eq!(new, round == 0);
        }
    }
    assert_eq!(objects.len(), 2000);
    assert!(objects.contains(&ObjectId::new(&1999u32.to_be_bytes().repeat(5))));
    assert!(!objects.contains(&ObjectId::new(&2000u32.to_be_bytes().repeat(5))));
}
