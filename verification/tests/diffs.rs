use sourcedigger::ctags::SymbolType;
use sourcedigger::diff::{
    diff_file, diff_file_name, diff_tables, parse_tag_line, tags_to_compute, DiffRecord,
    DiffWindow, SymbolTable, TagAction, TagData, TagID, TagLineError,
};

fn id(name: &str, kind: SymbolType) -> TagID {
    TagID::new(name.to_string(), kind)
}

fn at(file: &str, line: u64, extra: &str) -> TagData {
    TagData::new(file.to_string(), line, extra.to_string())
}

fn table(symbols: &[(&str, SymbolType, &str, u64)]) -> SymbolTable {
    let mut t = SymbolTable::new();
    for (name, kind, file, line) in symbols {
        t.insert(id(name, *kind), at(file, *line, ""));
    }
    t
}

fn summary(records: &[DiffRecord]) -> Vec<(char, String, SymbolType, String, u64)> {
    records
        .iter()
        .map(|r| {
            (
                r.action.code(),
                r.id.name().clone(),
                r.id.tag_type(),
                r.data.file().clone(),
                r.data.line_num(),
            )
        })
        .collect()
}

#[test]
fn added_and_removed_symbols() {
    let prev = table(&[
        ("keep", SymbolType::Function, "a.c", 1),
        ("gone", SymbolType::Function, "a.c", 2),
    ]);
    let next = table(&[
        ("new", SymbolType::Define, "b.c", 3),
        ("keep", SymbolType::Function, "a.c", 9),
    ]);
    let d = diff_tables(&prev, &next);
    assert_eq!(
        summary(&d),
        vec![
            ('r', "gone".to_string(), SymbolType::Function, "a.c".to_string(), 2),
            ('a', "new".to_string(), SymbolType::Define, "b.c".to_string(), 3),
        ]
    );
}

#[test]
fn symbols_are_told_apart_by_name_and_kind() {
    let prev = table(&[("x", SymbolType::Function, "a.c", 1)]);
    let next = table(&[("x", SymbolType::Variable, "a.c", 1), ("X", SymbolType::Function, "a.c", 2)]);
    let d = diff_tables(&prev, &next);
    assert_eq!(
        summary(&d),
        vec![
            ('r', "x".to_string(), SymbolType::Function, "a.c".to_string(), 1),
            ('a', "X".to_string(), SymbolType::Function, "a.c".to_string(), 2),
            ('a', "x".to_string(), SymbolType::Variable, "a.c".to_string(), 1),
        ]
    );
}

#[test]
fn a_symbol_in_both_versions_is_in_no_difference() {
    let prev = table(&[("same", SymbolType::Function, "a.c", 1)]);
    let next = table(&[("same", SymbolType::Function, "moved.c", 77)]);
    assert!(diff_tables(&prev, &next).is_empty());
    assert!(diff_tables(&next, &prev).is_empty());
}

#[test]
fn one_record_for_each_occurrence() {
    let prev = SymbolTable::new();
    let mut next = SymbolTable::new();
    next.insert(id("f", SymbolType::Function), at("a.c", 1, "int {name}(void)"));
    next.insert(id("g", SymbolType::Function), at("a.c", 5, ""));
    next.insert(id("f", SymbolType::Function), at("b.c", 2, "int {name}(int)"));
    assert_eq!(next.len(), 2);
    assert!(next.contains(&id("f", SymbolType::Function)));
    assert!(!next.contains(&id("f", SymbolType::Define)));
    let d = diff_tables(&prev, &next);
    assert_eq!(
        summary(&d),
        vec![
            ('a', "f".to_string(), SymbolType::Function, "a.c".to_string(), 1),
            ('a', "f".to_string(), SymbolType::Function, "b.c".to_string(), 2),
            ('a', "g".to_string(), SymbolType::Function, "a.c".to_string(), 5),
        ]
    );
    assert_eq!(d[1].data.extra_data(), "int {name}(int)");
}

#[test]
fn differences_stand_in_natural_order() {
    let prev = SymbolTable::new();
    let next = table(&[
        ("item10", SymbolType::Function, "a.c", 1),
        ("Item2", SymbolType::Function, "a.c", 2),
        ("item1", SymbolType::Function, "a.c", 3),
        ("alpha", SymbolType::Variable, "a.c", 4),
        ("ALPHA", SymbolType::Define, "a.c", 5),
        ("alpha", SymbolType::Function, "a.c", 6),
    ]);
    let names: Vec<(String, SymbolType)> =
        diff_tables(&prev, &next).iter().map(|r| (r.id.name().clone(), r.id.tag_type())).collect();
    assert_eq!(
        names,
        vec![
            ("alpha".to_string(), SymbolType::Function),
            ("ALPHA".to_string(), SymbolType::Define),
            ("alpha".to_string(), SymbolType::Variable),
            ("item1".to_string(), SymbolType::Function),
            ("Item2".to_string(), SymbolType::Function),
            ("item10".to_string(), SymbolType::Function),
        ]
    );
}

#[test]
fn symmetric_difference_on_values() {
    let a = table(&[
        ("a", SymbolType::Function, "f", 1),
        ("b", SymbolType::Function, "f", 2),
        ("c", SymbolType::Define, "f", 3),
    ]);
    let b = table(&[
        ("b", SymbolType::Function, "f", 2),
        ("c", SymbolType::Variable, "f", 3),
        ("d", SymbolType::Function, "f", 4),
    ]);
    let d = diff_tables(&a, &b);
    let mut added: Vec<String> =
        d.iter().filter(|r| r.action == TagAction::Add).map(|r| r.id.name().clone()).collect();
    let mut removed: Vec<String> =
        d.iter().filter(|r| r.action == TagAction::Remove).map(|r| r.id.name().clone()).collect();
    added.sort();
    removed.sort();
    assert_eq!(added, vec!["c", "d"]);
    assert_eq!(removed, vec!["a", "c"]);
    assert!(d.iter().all(|r| r.id.name() != "b"));
    assert!(d.iter().all(|r| r.action != TagAction::Modify));
}

#[test]
fn lines_of_a_file_of_differences() {
    let r = DiffRecord {
        action: TagAction::Add,
        id: id("main", SymbolType::Function),
        data: at("src/main.c", 12, "int {name}(int argc, char **argv)"),
    };
    assert_eq!(r.line(), "a\tmain\tFunction\tsrc/main.c\t12\tint {name}(int argc, char **argv)\n");
    let s = DiffRecord {
        action: TagAction::Remove,
        id: id("MAX", SymbolType::Define),
        data: at("a.h", 0, ""),
    };
    assert_eq!(s.line(), "r\tMAX\tDefine\ta.h\t0\t\n");
    let m = DiffRecord {
        action: TagAction::Modify,
        id: id("v", SymbolType::Variable),
        data: at("a.c", 18446744073709551615, " = 1"),
    };
    assert_eq!(m.line(), "m\tv\tVariable\ta.c\t18446744073709551615\t = 1\n");
    assert_eq!(
        diff_file(&vec![r, s]),
        "a\tmain\tFunction\tsrc/main.c\t12\tint {name}(int argc, char **argv)\nr\tMAX\tDefine\ta.h\t0\t\n"
    );
    assert_eq!(diff_file(&vec![]), "");
    assert_eq!(TagAction::Add.code(), 'a');
    assert_eq!(TagAction::Remove.code(), 'r');
    assert_eq!(TagAction::Modify.code(), 'm');
}

#[test]
fn names_of_files_of_differences() {
    assert_eq!(diff_file_name("v1.0"), "v1.0");
    assert_eq!(diff_file_name("release/1.0/rc1"), "release-1.0-rc1");
    assert_eq!(diff_file_name(""), "");
}

#[test]
fn lines_of_a_table_of_symbols() {
    let (i, line, extra) = parse_tag_line("main\tFunction\t12\tint {name}(void)").unwrap();
    assert_eq!(i, id("main", SymbolType::Function));
    assert_eq!(line, 12);
    assert_eq!(extra, "int {name}(void)");
    let (i, line, extra) = parse_tag_line("MAX\tDefine\t3").unwrap();
    assert_eq!(i, id("MAX", SymbolType::Define));
    assert_eq!((line, extra.as_str()), (3, ""));
    let (i, _, extra) = parse_tag_line("v\tVariable\t0\t = {\t1 }").unwrap();
    assert_eq!(i, id("v", SymbolType::Variable));
    assert_eq!(extra, " = {\t1 }");
    let (i, _, _) = parse_tag_line("x\tMacro\t1\t").unwrap();
    assert_eq!(i, id("x", SymbolType::Unknown));
    assert_eq!(parse_tag_line("name only"), Err(TagLineError::MissingField));
    assert_eq!(parse_tag_line("name\tFunction"), Err(TagLineError::MissingField));
    assert_eq!(parse_tag_line(""), Err(TagLineError::MissingField));
    assert_eq!(parse_tag_line("n\tFunction\tx\t"), Err(TagLineError::BadLineNumber));
    assert_eq!(parse_tag_line("n\tFunction\t\t"), Err(TagLineError::BadLineNumber));
    assert_eq!(
        parse_tag_line("n\tFunction\t99999999999999999999\t"),
        Err(TagLineError::BadLineNumber)
    );
}

#[test]
fn loading_a_table_of_symbols() {
    let mut t = SymbolTable::new();
    assert_eq!(t.load_tags("f\tFunction\t1\tint {name}()\r\ng\tDefine\t2\n", "a.c"), Ok(()));
    assert_eq!(t.load_tags("f\tFunction\t7\tint {name}()", "b.c"), Ok(()));
    assert_eq!(t.len(), 2);
    let d = diff_tables(&SymbolTable::new(), &t);
    assert_eq!(
        summary(&d),
        vec![
            ('a', "f".to_string(), SymbolType::Function, "a.c".to_string(), 1),
            ('a', "f".to_string(), SymbolType::Function, "b.c".to_string(), 7),
            ('a', "g".to_string(), SymbolType::Define, "a.c".to_string(), 2),
        ]
    );
    let mut u = SymbolTable::new();
    assert_eq!(u.load_tags("f\tFunction\t1\nbad\ng\tDefine\t2\n", "a.c"), Err(TagLineError::MissingField));
    assert_eq!(u.len(), 1);
    assert_eq!(u.load_tags("", "a.c"), Ok(()));
}

#[test]
fn tags_next_to_missing_differences_are_read() {
    let none: Vec<usize> = vec![];
    assert_eq!(tags_to_compute(&vec![]), none);
    assert_eq!(tags_to_compute(&vec![true, true, true]), none);
    assert_eq!(tags_to_compute(&vec![false, false]), vec![0, 1]);
    assert_eq!(tags_to_compute(&vec![true, true, false]), vec![1, 2]);
    assert_eq!(tags_to_compute(&vec![false, true, true]), vec![0]);
    assert_eq!(
        tags_to_compute(&vec![true, true, false, true, true, true, true, false, true, true]),
        vec![1, 2, 6, 7]
    );
}

#[test]
fn existing_differences_are_not_made_again_but_the_window_moves() {
    let mut w = DiffWindow::new();
    w.insert(id("a", SymbolType::Function), at("f.c", 1, ""));
    // The differences of the first version are on disk.
    assert_eq!(w.create_diff(true), None);
    w.insert(id("a", SymbolType::Function), at("f.c", 1, ""));
    w.insert(id("b", SymbolType::Function), at("f.c", 2, ""));
    // Those of the second are not: they are made against the first.
    let d = w.create_diff(false).unwrap();
    assert_eq!(summary(&d), vec![('a', "b".to_string(), SymbolType::Function, "f.c".to_string(), 2)]);
    w.load_tags("b\tFunction\t2\n", "f.c").unwrap();
    let d = w.create_diff(false).unwrap();
    assert_eq!(summary(&d), vec![('r', "a".to_string(), SymbolType::Function, "f.c".to_string(), 1)]);
    // A version without symbols removes what was there.
    let d = w.create_diff(false).unwrap();
    assert_eq!(summary(&d), vec![('r', "b".to_string(), SymbolType::Function, "f.c".to_string(), 2)]);
    assert_eq!(w.create_diff(false), Some(vec![]));
}

#[test]
fn two_runs_give_the_same_file() {
    let run = || {
        let mut w = DiffWindow::new();
        w.load_tags("z9\tFunction\t1\nz10\tFunction\t2\nA\tDefine\t3\n", "a.c").unwrap();
        w.create_diff(false).unwrap();
        w.load_tags("z10\tFunction\t2\nb\tVariable\t4\t = 1\n", "a.c").unwrap();
        diff_file(&w.create_diff(false).unwrap())
    };
    let first = run();
    assert_eq!(first, "r\tA\tDefine\ta.c\t3\t\nr\tz9\tFunction\ta.c\t1\t\na\tb\tVariable\ta.c\t4\t = 1\n");
    assert_eq!(run(), first);
}
