use sourcedigger::ctags::{Symbol, SymbolType};
use sourcedigger::diff::{parse_tag_line, TagID};
use sourcedigger::organize::{format_tag_line, Action, Organizer};

fn symbol(name: &str, file: &str, line: Option<u64>, kind: SymbolType) -> Symbol {
    Symbol {
        name: name.to_string(),
        file: file.to_string(),
        expression: String::new(),
        line_num: line,
        symbol_type: kind,
    }
}

const SOURCE: &str = "#define MAX 10\nint count = 0;\nstatic int\nadd(int a, int b)\n{\n}\n";

#[test]
fn lines_that_the_organizer_writes() {
    let s = symbol("add", "objects/ab", Some(4), SymbolType::Function);
    assert_eq!(format_tag_line(&s, SOURCE), "add\tFunction\t4\tint {name}(int a, int b)\n");
    let s = symbol("count", "objects/ab", Some(2), SymbolType::Variable);
    assert_eq!(format_tag_line(&s, SOURCE), "count\tVariable\t2\t = 0\n");
    let s = symbol("MAX", "objects/ab", Some(1), SymbolType::Define);
    assert_eq!(format_tag_line(&s, SOURCE), "MAX\tDefine\t1\t\n");
    let s = symbol("add", "objects/ab", None, SymbolType::Function);
    assert_eq!(format_tag_line(&s, SOURCE), "add\tFunction\t0\tint {name}(???)\n");
    let s = symbol("count", "objects/ab", None, SymbolType::Variable);
    assert_eq!(format_tag_line(&s, SOURCE), "count\tVariable\t0\t= ???\n");
    let s = symbol("x", "objects/ab", Some(3), SymbolType::Unknown);
    assert_eq!(format_tag_line(&s, SOURCE), "x\tUnknown\t3\t\n");
}

#[test]
fn a_written_line_is_read_back() {
    let s = symbol("add", "objects/ab", Some(4), SymbolType::Function);
    let line = format_tag_line(&s, SOURCE);
    let (id, line_num, extra) = parse_tag_line(line.trim_end_matches('\n')).unwrap();
    assert_eq!(id, TagID::new("add".to_string(), SymbolType::Function));
    assert_eq!(line_num, 4);
    assert_eq!(extra, "int {name}(int a, int b)");
}

#[test]
fn symbols_are_sorted_object_by_object() {
    let mut o = Organizer::new();
    let a1 = symbol("MAX", "objects/aa", Some(1), SymbolType::Define);
    let a2 = symbol("count", "objects/aa", Some(2), SymbolType::Variable);
    let b1 = symbol("add", "objects/bb", Some(4), SymbolType::Function);
    assert_eq!(o.accept(&a1), Action::Open("objects/aa".to_string()));
    // Nothing happens until the object is entered.
    assert_eq!(o.accept(&a1), Action::Open("objects/aa".to_string()));
    o.enter("objects/aa", false, SOURCE.to_string());
    assert_eq!(o.accept(&a1), Action::Write("MAX\tDefine\t1\t\n".to_string()));
    assert_eq!(o.accept(&a2), Action::Write("count\tVariable\t2\t = 0\n".to_string()));
    assert_eq!(o.accept(&b1), Action::Open("objects/bb".to_string()));
    o.enter("objects/bb", false, SOURCE.to_string());
    assert_eq!(o.accept(&b1), Action::Write("add\tFunction\t4\tint {name}(int a, int b)\n".to_string()));
    assert_eq!((o.symbols(), o.opened(), o.passed()), (3, 2, 0));
}

#[test]
fn an_object_whose_table_is_there_is_passed_over() {
    let mut o = Organizer::new();
    let a1 = symbol("MAX", "objects/aa", Some(1), SymbolType::Define);
    let a2 = symbol("count", "objects/aa", Some(2), SymbolType::Variable);
    let b1 = symbol("MAX", "objects/bb", Some(1), SymbolType::Define);
    assert_eq!(o.accept(&a1), Action::Open("objects/aa".to_string()));
    o.enter("objects/aa", true, String::new());
    assert_eq!(o.accept(&a1), Action::Ignore);
    assert_eq!(o.accept(&a2), Action::Ignore);
    assert_eq!(o.accept(&b1), Action::Open("objects/bb".to_string()));
    o.enter("objects/bb", false, SOURCE.to_string());
    assert_eq!(o.accept(&b1), Action::Write("MAX\tDefine\t1\t\n".to_string()));
    assert_eq!((o.symbols(), o.opened(), o.passed()), (1, 1, 1));
}

#[test]
fn symbols_of_unknown_kind_are_ignored() {
    let mut o = Organizer::new();
    let u = symbol("m", "objects/aa", Some(1), SymbolType::Unknown);
    // Not even the object is opened for them.
    assert_eq!(o.accept(&u), Action::Ignore);
    let a = symbol("MAX", "objects/aa", Some(1), SymbolType::Define);
    assert_eq!(o.accept(&a), Action::Open("objects/aa".to_string()));
    o.enter("objects/aa", false, SOURCE.to_string());
    assert_eq!(o.accept(&u), Action::Ignore);
    let other = symbol("m", "objects/bb", Some(1), SymbolType::Unknown);
    assert_eq!(o.accept(&other), Action::Ignore);
    assert_eq!(o.accept(&a), Action::Write("MAX\tDefine\t1\t\n".to_string()));
    assert_eq!((o.symbols(), o.opened(), o.passed()), (1, 1, 0));
}
