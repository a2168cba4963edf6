use regex::Regex;
use sourcedigger::ctags::SymbolType;
use sourcedigger::enrich::{
    fix_whitespace, get_extra_info_at_line, get_func_args_at_line, get_func_ret_at_line,
    get_var_contents_at_line, RetvalState, PLAIN_TYPE, SIGNED_TYPE, TAGGED_TYPE,
};

const SOURCE: &str = "#include <stdio.h>\n\nstatic int add(int a,\n               int b)\n{\n    return a + b;\n}\nconst char *name = \"x\";\nstruct foo *make_foo( void ) {\n";

#[test]
fn white_space_is_set_right() {
    assert_eq!(fix_whitespace("a  \t b( c )"), "a b(c)");
    assert_eq!(fix_whitespace("(int a,               int b)"), "(int a, int b)");
    assert_eq!(fix_whitespace("f(\ta,\tb\t)"), "f(a, b)");
    assert_eq!(fix_whitespace("no change"), "no change");
    assert_eq!(fix_whitespace(""), "");
    assert_eq!(fix_whitespace("a\n  b"), "a\n b");
}

#[test]
fn arguments_of_a_function() {
    assert_eq!(get_func_args_at_line(SOURCE, Some(3)), "(int a, int b)");
    assert_eq!(get_func_args_at_line(SOURCE, Some(9)), "(void)");
    assert_eq!(get_func_args_at_line("int f(int (*cb)(int), int n) {\n", Some(1)), "(int (*cb)(int), int n)");
    assert_eq!(get_func_args_at_line("f(a)(b)\n", Some(1)), "(a)");
}

#[test]
fn arguments_without_a_known_line() {
    assert_eq!(get_func_args_at_line(SOURCE, None), "(???)");
}

#[test]
fn arguments_that_do_not_end_in_time() {
    let mut source = String::from("void f(a,\n");
    for _ in 0..25 {
        source.push_str("b,\n");
    }
    source.push_str("c)\n");
    let mut expected = String::from("(a,");
    for _ in 0..19 {
        expected.push_str("b,");
    }
    expected.push_str(", ???)");
    assert_eq!(get_func_args_at_line(&source, Some(1)), expected);
    // Twenty lines are enough for a list that ends in the twentieth.
    let mut source = String::from("void f(a,\n");
    for _ in 0..18 {
        source.push_str("b,\n");
    }
    source.push_str("c)\nd)\n");
    let mut expected = String::from("(a,");
    for _ in 0..18 {
        expected.push_str("b,");
    }
    expected.push_str("c)");
    assert_eq!(get_func_args_at_line(&source, Some(1)), expected);
}

#[test]
fn arguments_past_the_end_of_the_source() {
    assert_eq!(get_func_args_at_line("f(a)\n", Some(2)), ", ???)");
    assert_eq!(get_func_args_at_line("f(a)\n", Some(0)), ", ???)");
    assert_eq!(get_func_args_at_line("", Some(1)), ", ???)");
    assert_eq!(get_func_args_at_line("f(a)\n", Some(u64::MAX)), ", ???)");
    assert_eq!(get_func_args_at_line("no list here\n", Some(1)), ", ???)");
}

#[test]
fn a_closing_parenthesis_before_an_opening_one() {
    // The balance goes below zero and comes back at the `(`.
    assert_eq!(get_func_args_at_line("a) b (c)\n", Some(1)), ") b), ???)");
}

#[test]
fn return_type_of_a_function() {
    assert_eq!(get_func_ret_at_line("add", SOURCE, Some(3)), "int");
    assert_eq!(get_func_ret_at_line("make_foo", SOURCE, Some(9)), "struct foo*");
    assert_eq!(get_func_ret_at_line("f", "const int *f(void)\n", Some(1)), "const int*");
    assert_eq!(get_func_ret_at_line("f", "unsigned long **f(void)\n", Some(1)), "unsigned long**");
    assert_eq!(get_func_ret_at_line("f", "static inline size_t f(void)\n", Some(1)), "size_t");
    assert_eq!(get_func_ret_at_line("f", "const union u f(void)\n", Some(1)), "const union u");
}

#[test]
fn return_type_on_the_line_above() {
    assert_eq!(get_func_ret_at_line("foo", "unsigned long\nfoo(void)\n", Some(2)), "unsigned long");
    assert_eq!(get_func_ret_at_line("foo", "char *\nfoo(void)\n", Some(2)), "char*");
    assert_eq!(get_func_ret_at_line("foo", "int x;\n\nstatic\nvoid\nfoo(void)\n", Some(5)), "void");
}

#[test]
fn return_type_that_is_not_there() {
    assert_eq!(get_func_ret_at_line("add", SOURCE, None), "int");
    assert_eq!(get_func_ret_at_line("foo", "/* doc */\nfoo(void)\n", Some(2)), "int");
    assert_eq!(get_func_ret_at_line("foo", "#define X 1\nfoo(void)\n", Some(2)), "int");
    assert_eq!(get_func_ret_at_line("foo", "} static\nfoo(void)\n", Some(2)), "int");
    // Of a line with `}` only what follows the last `}` counts.
    assert_eq!(get_func_ret_at_line("foo", "int bar(void) { } long\nfoo(void)\n", Some(2)), "long");
    assert_eq!(get_func_ret_at_line("foo", "long bar(void) { }\nfoo(void)\n", Some(2)), "int");
    assert_eq!(get_func_ret_at_line("foo", "long\n}\nfoo(void)\n", Some(3)), "int");
    assert_eq!(get_func_ret_at_line("foo", "foo(void)\n", Some(1)), "int");
    assert_eq!(get_func_ret_at_line("foo", "foo(void)\n", Some(0)), "int");
    assert_eq!(get_func_ret_at_line("foo", "", Some(1)), "int");
}

#[test]
fn return_type_where_the_name_is_not_on_the_line() {
    assert_eq!(get_func_ret_at_line("missing", SOURCE, Some(3)), "unknown_t");
    assert_eq!(get_func_ret_at_line("f", "int f;\n", Some(1)), "unknown_t");
    // A name that is no regular expression finds nothing.
    assert_eq!(get_func_ret_at_line("f(", "int f((void)\n", Some(1)), "unknown_t");
}

#[test]
fn return_type_looks_ten_lines_up_and_no_further() {
    let mut source = String::from("long\n");
    for _ in 0..8 {
        source.push('\n');
    }
    source.push_str("foo(void)\n");
    assert_eq!(get_func_ret_at_line("foo", &source, Some(10)), "long");
    let mut source = String::from("long\n");
    for _ in 0..9 {
        source.push('\n');
    }
    source.push_str("foo(void)\n");
    assert_eq!(get_func_ret_at_line("foo", &source, Some(11)), "int");
}

#[test]
fn a_line_past_the_end_takes_the_last_lines_of_the_window() {
    // Line 3 is not there: the last line of the two that are is looked at.
    assert_eq!(get_func_ret_at_line("foo", "char\nlong foo(void)\n", Some(3)), "long");
}

#[test]
fn initial_value_of_a_variable() {
    assert_eq!(get_var_contents_at_line(SOURCE, Some(8)), " = \"x\"");
    assert_eq!(get_var_contents_at_line("int a[] = {\n    1,\n    2 };\n", Some(1)), " = { 1, 2 }");
    assert_eq!(get_var_contents_at_line("int x = a == b;\n", Some(1)), " = a == b");
    assert_eq!(get_var_contents_at_line("int x;\nint y = 2;\n", Some(1)), " ");
    assert_eq!(get_var_contents_at_line("int x = 1", Some(1)), " = 1 ???");
    assert_eq!(get_var_contents_at_line(SOURCE, None), "= ???");
    assert_eq!(get_var_contents_at_line("", Some(1)), " ???");
    assert_eq!(get_var_contents_at_line("int x = 1;\n", Some(0)), " ???");
}

#[test]
fn initial_value_that_does_not_end_in_time() {
    let mut source = String::from("int x = {\n");
    for _ in 0..25 {
        source.push_str("1,\n");
    }
    source.push_str("};\n");
    let mut expected = String::from(" = {");
    for _ in 0..19 {
        expected.push_str("1,");
    }
    expected.push_str(" ???");
    assert_eq!(get_var_contents_at_line(&source, Some(1)), expected);
}

#[test]
fn text_for_each_kind_of_symbol() {
    assert_eq!(
        get_extra_info_at_line(SymbolType::Function, "add", SOURCE, Some(3)),
        "int {name}(int a, int b)"
    );
    assert_eq!(
        get_extra_info_at_line(SymbolType::Function, "make_foo", SOURCE, Some(9)),
        "struct foo* {name}(void)"
    );
    assert_eq!(get_extra_info_at_line(SymbolType::Function, "add", SOURCE, None), "int {name}(???)");
    assert_eq!(get_extra_info_at_line(SymbolType::Variable, "name", SOURCE, Some(8)), " = \"x\"");
    assert_eq!(get_extra_info_at_line(SymbolType::Variable, "name", SOURCE, None), "= ???");
    assert_eq!(get_extra_info_at_line(SymbolType::Define, "X", SOURCE, Some(1)), "");
    assert_eq!(get_extra_info_at_line(SymbolType::Unknown, "X", SOURCE, Some(1)), "");
}

#[test]
fn text_of_a_return_type() {
    let mut state = RetvalState::new();
    assert_eq!(state.finalize(), "int");
    assert!(state.try_regex(Regex::new(TAGGED_TYPE).unwrap(), "const struct list **head"));
    assert_eq!(state.finalize(), "const struct list**");
    assert!(state.try_regex(Regex::new(SIGNED_TYPE).unwrap(), "unsigned char"));
    assert_eq!(state.finalize(), "unsigned char");
    assert!(state.try_regex(Regex::new(PLAIN_TYPE).unwrap(), "  double * "));
    assert_eq!(state.finalize(), "double*");
    // No match leaves the state as it is.
    assert!(!state.try_regex(Regex::new(TAGGED_TYPE).unwrap(), "double"));
    assert_eq!(state.finalize(), "double*");
    // A pattern without the four groups gives no type.
    assert!(!state.try_regex(Regex::new("(d)(o)").unwrap(), "double"));
    assert_eq!(state.finalize(), "double*");
}

#[test]
fn feeding_lines() {
    let mut state = RetvalState::new();
    assert_eq!(state.feed(""), None);
    assert_eq!(state.feed("   "), None);
    assert_eq!(state.feed("static inline"), None);
    assert_eq!(state.feed("  # define X"), Some("int".to_string()));
    assert_eq!(state.feed("// comment"), Some("int".to_string()));
    assert_eq!(state.feed("end of comment */"), Some("int".to_string()));
    assert_eq!(state.feed("static enum color *"), Some("enum color*".to_string()));
    // What was found stays.
    assert_eq!(state.feed("/"), Some("enum color*".to_string()));
    assert_eq!(state.feed("const signed int"), Some("const signed int".to_string()));
    assert_eq!(state.feed("$x"), Some("x".to_string()));
}
