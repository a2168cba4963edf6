use sourcedigger::ctags::{parse_line, Ctags, Step, Symbol, SymbolType, TagLine};

const TABLE: &str = "!_TAG_FILE_FORMAT\t2\t/extended format/\n\
!_TAG_FILE_SORTED\t0\t/0=unsorted/\n\
Hello\texample.c\t/^int Hello() {$/;\"\tf\n\
World\texample.c\t/^int World() {$/;\"\tf\n\
FOOBAR\texample.c\t1;\"\td\n";

const SOURCE: &str = "#define FOOBAR 1\n\nint Hello() {\n    return 1;\n}\nint World() {\n    return 2;\n}\n";

fn symbol(name: &str, expression: &str, line_num: Option<u64>, symbol_type: SymbolType) -> Symbol {
    Symbol {
        name: name.into(),
        file: "example.c".into(),
        expression: expression.into(),
        line_num,
        symbol_type,
    }
}

/// Steps the reader, handing over `SOURCE` for every file that it asks for.
fn next(tags: &mut Ctags) -> Option<Symbol> {
    loop {
        match tags.next() {
            Step::Entry(s) => return Some(s),
            Step::NeedSource(file) => tags.open(&file, Some(SOURCE.as_bytes())),
            Step::End => return None,
        }
    }
}

#[test]
fn smoke() {
    let source = TABLE.as_bytes().to_vec();
    let mut tags = Ctags::new(source.as_slice(), Some("./test_res/smoke"));
    assert_eq!(
        next(&mut tags),
        Some(Symbol {
            name: "Hello".into(),
            file: "example.c".into(),
            expression: "/^int Hello() {$/".into(),
            line_num: Some(3),
            symbol_type: SymbolType::Function
        })
    );
    assert_eq!(
        next(&mut tags),
        Some(Symbol {
            name: "World".into(),
            file: "example.c".into(),
            expression: "/^int World() {$/".into(),
            line_num: Some(6),
            symbol_type: SymbolType::Function
        })
    );
    assert_eq!(
        next(&mut tags),
        Some(Symbol {
            name: "FOOBAR".into(),
            file: "example.c".into(),
            expression: "1".into(),
            line_num: Some(1),
            symbol_type: SymbolType::Define
        })
    );
    assert_eq!(next(&mut tags), None);
}

#[test]
fn reader_asks_for_the_source_before_a_pattern() {
    let mut tags = Ctags::new(TABLE.as_bytes(), Some("dir"));
    assert_eq!(tags.next(), Step::NeedSource("example.c".to_string()));
    // Asking again changes nothing.
    assert_eq!(tags.next(), Step::NeedSource("example.c".to_string()));
    tags.open("other.c", Some(SOURCE.as_bytes()));
    assert_eq!(tags.next(), Step::NeedSource("example.c".to_string()));
    tags.open("example.c", Some(SOURCE.as_bytes()));
    assert_eq!(
        tags.next(),
        Step::Entry(symbol("Hello", "/^int Hello() {$/", Some(3), SymbolType::Function))
    );
}

#[test]
fn numeric_address_needs_no_source() {
    let mut tags = Ctags::new(b"FOOBAR\texample.c\t1;\"\td\n", Some("dir"));
    assert_eq!(tags.next(), Step::Entry(symbol("FOOBAR", "1", Some(1), SymbolType::Define)));
    assert_eq!(tags.next(), Step::End);
    assert_eq!(tags.code_dir(), Some(&"dir".to_string()));
}

#[test]
fn without_a_directory_patterns_have_no_line() {
    let mut tags = Ctags::new(TABLE.as_bytes(), None);
    assert_eq!(
        tags.next(),
        Step::Entry(symbol("Hello", "/^int Hello() {$/", None, SymbolType::Function))
    );
    assert_eq!(
        tags.next(),
        Step::Entry(symbol("World", "/^int World() {$/", None, SymbolType::Function))
    );
    assert_eq!(tags.next(), Step::Entry(symbol("FOOBAR", "1", Some(1), SymbolType::Define)));
    assert_eq!(tags.next(), Step::End);
    assert_eq!(tags.code_dir(), None);
}

#[test]
fn search_does_not_rewind() {
    // World stands after Hello in the source; asked for in the other order,
    // Hello is not found any more.
    let table = "World\texample.c\t/^int World() {$/;\"\tf\n\
Hello\texample.c\t/^int Hello() {$/;\"\tf\n";
    let mut tags = Ctags::new(table.as_bytes(), Some("dir"));
    assert_eq!(
        next(&mut tags),
        Some(symbol("World", "/^int World() {$/", Some(6), SymbolType::Function))
    );
    assert_eq!(
        next(&mut tags),
        Some(symbol("Hello", "/^int Hello() {$/", None, SymbolType::Function))
    );
}

#[test]
fn missing_source_gives_no_line() {
    let mut tags = Ctags::new(TABLE.as_bytes(), Some("dir"));
    assert_eq!(tags.next(), Step::NeedSource("example.c".to_string()));
    tags.open("example.c", None);
    assert_eq!(
        tags.next(),
        Step::Entry(symbol("Hello", "/^int Hello() {$/", None, SymbolType::Function))
    );
}

#[test]
fn text_that_is_not_in_the_source_gives_no_line() {
    let table = "Gone\texample.c\t/^int Gone() {$/;\"\tf\nFOOBAR\texample.c\t7;\"\td\n";
    let mut tags = Ctags::new(table.as_bytes(), Some("dir"));
    assert_eq!(
        next(&mut tags),
        Some(symbol("Gone", "/^int Gone() {$/", None, SymbolType::Function))
    );
    assert_eq!(next(&mut tags), Some(symbol("FOOBAR", "7", Some(7), SymbolType::Define)));
}

#[test]
fn last_source_line_without_line_feed_is_found() {
    let table = "x\ta.c\t/^int x;$/;\"\tv\n";
    let mut tags = Ctags::new(table.as_bytes(), Some("dir"));
    assert_eq!(tags.next(), Step::NeedSource("a.c".to_string()));
    tags.open("a.c", Some(b"int y;\nint x;"));
    match tags.next() {
        Step::Entry(s) => {
            assert_eq!(s.line_num, Some(2));
            assert_eq!(s.symbol_type, SymbolType::Variable);
        }
        other => panic!("{:?}", other),
    }
}

#[test]
fn header_lines_are_never_entries() {
    assert_eq!(parse_line("!_TAG_PROGRAM_NAME\tExuberant Ctags\t//\n"), TagLine::Header);
    assert_eq!(parse_line("!a\tb\t1;\"\tf\n"), TagLine::Header);
    assert_eq!(parse_line("!"), TagLine::Header);
    let mut tags = Ctags::new(b"!a\tb\t1;\"\tf\n!c\td\t2;\"\tf\n", None);
    assert_eq!(tags.next(), Step::End);
}

#[test]
fn malformed_line_ends_the_table() {
    assert_eq!(parse_line("name\tfile\n"), TagLine::Malformed);
    assert_eq!(parse_line("name\n"), TagLine::Malformed);
    assert_eq!(parse_line("\n"), TagLine::Malformed);
    assert_eq!(parse_line("name\tfile\t12\tf\n"), TagLine::Malformed);
    let table = "a\tf.c\t1;\"\tf\nbroken line\nb\tf.c\t2;\"\tf\n";
    let mut tags = Ctags::new(table.as_bytes(), None);
    match tags.next() {
        Step::Entry(s) => assert_eq!(s.name, "a"),
        other => panic!("{:?}", other),
    }
    assert_eq!(tags.next(), Step::End);
    assert_eq!(tags.next(), Step::End);
}

#[test]
fn lines_that_are_not_utf8_are_passed_over() {
    let mut table = b"a\tf.c\t1;\"\tf\n".to_vec();
    table.extend_from_slice(b"b\xff\tf.c\t2;\"\tf\n");
    table.extend_from_slice(b"c\tf.c\t3;\"\td\n");
    let mut tags = Ctags::new(&table, None);
    match tags.next() {
        Step::Entry(s) => assert_eq!(s.name, "a"),
        other => panic!("{:?}", other),
    }
    match tags.next() {
        Step::Entry(s) => assert_eq!((s.name.as_str(), s.line_num), ("c", Some(3))),
        other => panic!("{:?}", other),
    }
    assert_eq!(tags.next(), Step::End);
}

#[test]
fn kinds_of_symbols() {
    let kind = |line: &str| match parse_line(line) {
        TagLine::Entry(s) => s.symbol_type,
        other => panic!("{:?}", other),
    };
    assert_eq!(kind("n\tf\t1;\"\tf\n"), SymbolType::Function);
    assert_eq!(kind("n\tf\t1;\"\td\n"), SymbolType::Define);
    assert_eq!(kind("n\tf\t1;\"\tv\n"), SymbolType::Variable);
    assert_eq!(kind("n\tf\t1;\"\tm\n"), SymbolType::Unknown);
    assert_eq!(kind("n\tf\t1;\"\n"), SymbolType::Unknown);
    assert_eq!(kind("n\tf\t1;\"\tf\tfile:\n"), SymbolType::Function);
    assert_eq!(kind("n\tf\t1;\"\tf"), SymbolType::Function);
    assert_eq!(kind("n\tf\t1;\"\tf\r\n"), SymbolType::Unknown);
    assert_eq!(kind("n\tf\t1;\"\t\tf\t\n"), SymbolType::Function);
    assert_eq!(SymbolType::Function.name(), "Function");
    assert_eq!(SymbolType::Define.name(), "Define");
    assert_eq!(SymbolType::Variable.name(), "Variable");
    assert_eq!(SymbolType::Unknown.name(), "Unknown");
}

#[test]
fn addresses_that_are_no_numerals_have_no_line() {
    let line = |text: &str| {
        let mut tags = Ctags::new(text.as_bytes(), None);
        match tags.next() {
            Step::Entry(s) => s.line_num,
            other => panic!("{:?}", other),
        }
    };
    assert_eq!(line("n\tf\t42;\"\tf\n"), Some(42));
    assert_eq!(line("n\tf\t007;\"\tf\n"), Some(7));
    assert_eq!(line("n\tf\t18446744073709551615;\"\tf\n"), Some(u64::MAX));
    assert_eq!(line("n\tf\t18446744073709551616;\"\tf\n"), None);
    assert_eq!(line("n\tf\t;\"\tf\n"), None);
    assert_eq!(line("n\tf\t12a;\"\tf\n"), None);
    assert_eq!(line("n\tf\t+12;\"\tf\n"), None);
    assert_eq!(line("n\tf\t/^x$;\"\tf\n"), None);
    assert_eq!(line("n\tf\t?^x$?;\"\tf\n"), None);
}

#[test]
fn fields_of_a_line() {
    match parse_line("do it\tsrc/a b.c\t/^void\tdo it(void);$/;\"\tf\tsignature:(void)\n") {
        TagLine::Entry(s) => {
            assert_eq!(s.name, "do it");
            assert_eq!(s.file, "src/a b.c");
            assert_eq!(s.expression, "/^void\tdo it(void);$/");
            assert_eq!(s.line_num, None);
            assert_eq!(s.symbol_type, SymbolType::Function);
        }
        other => panic!("{:?}", other),
    }
}

#[test]
fn empty_pattern_finds_the_first_empty_line() {
    let mut tags = Ctags::new(b"e\ta.c\t/^$/;\"\tv\n", Some("dir"));
    assert_eq!(tags.next(), Step::NeedSource("a.c".to_string()));
    tags.open("a.c", Some(b"one\n\nthree\n"));
    match tags.next() {
        Step::Entry(s) => assert_eq!(s.line_num, Some(2)),
        other => panic!("{:?}", other),
    }
}
