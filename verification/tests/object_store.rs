use regex::Regex;
use sourcedigger::objects::{
    collect_objects, file_entries, generator_args, iter_objects_in_tags, object_name_of,
    parse_objects, write_objects, FileEntry, ObjectId, ObjectSet, TagTree, TreeEntry, DIFFS_DIR,
    OBJECTS_DIR, TAGS_DIR, TAG_TABLE,
};

fn id(n: u8) -> ObjectId {
    ObjectId::new(&[n; 20])
}

fn entry(dir: &str, name: &str, n: u8, is_blob: bool) -> TreeEntry {
    TreeEntry { dir: dir.to_string(), name: name.to_string(), id: id(n), is_blob }
}

fn tree() -> Vec<TreeEntry> {
    vec![
        entry("", "README", 1, true),
        entry("", "src", 2, false),
        entry("src/", "main.c", 3, true),
        entry("src/", "main.h", 4, true),
        entry("src/", "lib.c", 5, false),
        entry("src/", "notes.txt", 6, true),
    ]
}

fn paths(files: &[FileEntry]) -> Vec<String> {
    files.iter().map(|f| f.path.clone()).collect()
}

#[test]
fn hashes_in_hexadecimal() {
    assert_eq!(ObjectId::new(&[1, 2, 3, 15, 16]).hex(), "0102030f10");
    assert_eq!(ObjectId::new(&[0x00, 0x9a, 0xff]).hex(), "009aff");
    assert_eq!(ObjectId::new(&[]).hex(), "");
    assert_eq!(ObjectId::new(b"Hello world!").hex(), "48656c6c6f20776f726c6421");
    assert_eq!(id(0xab).as_bytes(), &[0xab; 20]);
    assert!(id(1).same(&id(1)));
    assert!(!id(1).same(&id(2)));
    assert_eq!(id(7).copy(), id(7));
}

#[test]
fn files_that_match_the_pattern_are_recorded() {
    let pattern = Regex::new(r"\.[ch]$").unwrap();
    let files = file_entries("v1", &tree(), Some(&pattern));
    assert_eq!(paths(&files), vec!["src/main.c", "src/main.h"]);
    assert_eq!(files[0], FileEntry { tag: "v1".to_string(), path: "src/main.c".to_string(), id: id(3) });
    assert_eq!(files[1].id, id(4));
}

#[test]
fn without_a_pattern_every_file_is_recorded() {
    let files = file_entries("v1", &tree(), None);
    assert_eq!(paths(&files), vec!["README", "src/main.c", "src/main.h", "src/notes.txt"]);
}

#[test]
fn the_pattern_sees_the_whole_path() {
    let pattern = Regex::new(r"^src/").unwrap();
    let files = file_entries("v1", &tree(), Some(&pattern));
    assert_eq!(paths(&files), vec!["src/main.c", "src/main.h", "src/notes.txt"]);
}

#[test]
fn a_tag_without_a_tree_is_passed_over() {
    let trees = vec![
        TagTree { tag: "v1".to_string(), entries: Some(tree()) },
        TagTree { tag: "broken".to_string(), entries: None },
        TagTree { tag: "v2".to_string(), entries: Some(vec![entry("", "a.c", 9, true)]) },
    ];
    let pattern = Regex::new(r"\.c$").unwrap();
    let (files, walked) = iter_objects_in_tags(&trees, Some(&pattern));
    let found: Vec<(String, String)> = files.iter().map(|f| (f.tag.clone(), f.path.clone())).collect();
    assert_eq!(
        found,
        vec![("v1".to_string(), "src/main.c".to_string()), ("v2".to_string(), "a.c".to_string())]
    );
    assert_eq!(walked, 7);
    let (files, walked) = iter_objects_in_tags(&vec![], None);
    assert!(files.is_empty());
    assert_eq!(walked, 0);
}

#[test]
fn the_same_contents_are_one_object() {
    let files = vec![
        FileEntry { tag: "v1".to_string(), path: "a.c".to_string(), id: id(1) },
        FileEntry { tag: "v1".to_string(), path: "b.c".to_string(), id: id(2) },
        FileEntry { tag: "v2".to_string(), path: "a.c".to_string(), id: id(1) },
        FileEntry { tag: "v2".to_string(), path: "c.c".to_string(), id: id(2) },
        FileEntry { tag: "v3".to_string(), path: "a.c".to_string(), id: id(3) },
    ];
    let objects = collect_objects(&files);
    assert_eq!(objects.ids(), &vec![id(1), id(2), id(3)]);
    assert_eq!(objects.len(), 3);
    assert!(objects.contains(&id(2)));
    assert!(!objects.contains(&id(4)));
    assert_eq!(collect_objects(&vec![]).len(), 0);
}

#[test]
fn a_set_holds_each_object_once() {
    let mut set = ObjectSet::new();
    assert!(set.insert(id(1)));
    assert!(set.insert(id(2)));
    assert!(!set.insert(id(1)));
    assert_eq!(set.ids(), &vec![id(1), id(2)]);
}

#[test]
fn only_objects_that_are_not_in_the_store_are_written() {
    let mut objects = ObjectSet::new();
    for n in 1..=4 {
        objects.insert(id(n));
    }
    let new = write_objects(&objects, &vec![false, true, false, true]);
    assert_eq!(new.ids(), &vec![id(1), id(3)]);
    // An object without a word counts as not in the store.
    let new = write_objects(&objects, &vec![true]);
    assert_eq!(new.ids(), &vec![id(2), id(3), id(4)]);
    let new = write_objects(&objects, &vec![]);
    assert_eq!(new.len(), 4);
}

#[test]
fn a_second_run_writes_nothing() {
    let mut objects = ObjectSet::new();
    for n in 1..=3 {
        objects.insert(id(n));
    }
    let mut present = vec![false, true, false];
    let first = write_objects(&objects, &present);
    assert_eq!(first.ids(), &vec![id(1), id(3)]);
    // The store after the first run holds what was written by it.
    for (i, o) in objects.ids().iter().enumerate() {
        if first.contains(o) {
            present[i] = true;
        }
    }
    assert_eq!(write_objects(&objects, &present).len(), 0);
}

#[test]
fn list_for_the_generator() {
    let mut objects = ObjectSet::new();
    objects.insert(ObjectId::new(&[0xde, 0xad]));
    objects.insert(ObjectId::new(&[0x01]));
    assert_eq!(parse_objects(&objects), "objects/dead\nobjects/01\n");
    assert_eq!(parse_objects(&ObjectSet::new()), "");
}

#[test]
fn names_of_objects_in_paths() {
    assert_eq!(object_name_of("objects/dead"), "dead");
    assert_eq!(object_name_of("dead"), "dead");
    assert_eq!(object_name_of("a/b/c"), "c");
    assert_eq!(object_name_of("a/"), "");
}

#[test]
fn arguments_of_the_generator() {
    assert_eq!(
        generator_args(),
        vec!["--tag-relative", "--language-force=c", "--sort=no", "--append=yes", "-f", "ctags", "-L", "-"]
    );
    assert_eq!((OBJECTS_DIR, TAGS_DIR, DIFFS_DIR, TAG_TABLE), ("objects", "tags", "diffs", "ctags"));
}
