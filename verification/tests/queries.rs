use sourcedigger::data::ProjectRepo;
use sourcedigger::doublelines::DoubleLines;
use sourcedigger::query::{
    complete_args, complete_query, diff_args, diff_query, is_project_name, project_view,
    render_diff_line, render_results, ALL_ACTIONS, ALL_TYPES, ANY_NAME, COMPLETION_COUNT,
    NAMES_FILE, RESULTS_HEAD,
};

fn repo() -> ProjectRepo {
    ProjectRepo {
        name: "demo".to_string(),
        origin: "git@example.org:demo.git".to_string(),
        source_viewer: "http://x/{tag}/{path}#L{line}".to_string(),
    }
}

#[test]
fn names_of_projects() {
    assert!(is_project_name("git"));
    assert!(is_project_name(""));
    assert!(!is_project_name("../etc"));
    assert!(!is_project_name("a/b"));
    assert!(!is_project_name("/"));
}

#[test]
fn patterns_for_completion() {
    assert_eq!(complete_query("foo_bar9"), "^foo_bar9$");
    assert_eq!(complete_query("gr\u{fc}n"), "^gr\u{fc}n$");
    assert_eq!(complete_query(""), "^$");
    assert_eq!(complete_query("foo.*"), "^(foo.*)$");
    assert_eq!(complete_query("a|b"), "^(a|b)$");
    assert_eq!(complete_query("a b"), "^(a b)$");
}

#[test]
fn patterns_for_differences() {
    assert_eq!(diff_query("main", "arm", "fvd"), "^[^\\t]\\tmain\\t(Function|Variable|Define)");
    assert_eq!(diff_query("get*", "arm", "f"), "^[^\\t]\\t(get[^\\t]*)\\t(Function)");
    assert_eq!(diff_query("a.*", "a", "d"), "^[a]\\t(a[^\\t]*)\\t(Define)");
    assert_eq!(diff_query("*x+", "ar", ""), "^[ar]\\t([^\\t]*x[^\\t]+)\\t[^\\t]*");
    assert_eq!(diff_query("[ab]*", "r", "x"), "^[r]\\t([ab]*)\\t[^\\t]*");
    assert_eq!(diff_query("f", "arm", "fx"), "^[^\\t]\\tf\\t(Function|)");
    assert_eq!(diff_query("", "", "xy"), "^[]\\t\\t(|)");
}

#[test]
fn block_of_a_difference() {
    assert_eq!(
        render_diff_line("a\tmain\tFunction\tsrc/main.c\t12\tint {name}(void)", "v1", &repo()),
        Some(
            "<div class=a><a href=# class=f>f</a><a href=# class=a>+</a>\
<a href=\"diffs?q=main\">unk_t <span>main</span>int {name}(void)</a><hr>\
<a href=\"http://x/v1/src/main.c#L12\">src/main.c:12</a></div>\n"
                .to_string()
        )
    );
    assert_eq!(
        render_diff_line("r\tMAX\tDefine\ta.h\t3", "v2", &repo()),
        Some(
            "<div class=r><a href=# class=d>d</a><a href=# class=r>-</a>\
<a href=\"diffs?q=MAX\">#define <span>MAX</span></a><hr>\
<a href=\"http://x/v2/a.h#L3\">a.h:3</a></div>\n"
                .to_string()
        )
    );
    assert_eq!(
        render_diff_line("m\tv\tVariable\ta.c\t4\t = 1\tmore", "t", &repo()),
        Some(
            "<div class=m><a href=# class=v>v</a><a href=# class=m>~</a>\
<a href=\"diffs?q=v\">unk_t <span>v</span> = 1</a><hr>\
<a href=\"http://x/t/a.c#L4\">a.c:4</a></div>\n"
                .to_string()
        )
    );
    assert_eq!(
        render_diff_line("x\tn\tMacro\tf\t1\t", "t", &repo()),
        Some(
            "<div class=u><a href=# class=Macro>Macro</a><a href=# class=u>u</a>\
<a href=\"diffs?q=n\"><span>n</span></a><hr><a href=\"http://x/t/f#L1\">f:1</a></div>\n"
                .to_string()
        )
    );
    assert_eq!(render_diff_line("a\tmain\tFunction\tsrc/main.c", "v1", &repo()), None);
    assert_eq!(render_diff_line("", "v1", &repo()), None);
}

#[test]
fn page_of_results() {
    let lines: Vec<String> = vec![
        "v1",
        "a\tf\tFunction\ta.c\t1\t",
        "",
        "v10",
        "r\tg\tDefine\tb.h\t2",
        "a\th\tVariable\tb.c\t3\t = 0",
        "",
        "",
        "v2",
    ]
    .into_iter()
    .map(String::from)
    .collect();
    let page = render_results(&lines, &repo()).unwrap();
    assert_eq!(page.len(), 3);
    assert_eq!(
        page[0],
        "<h2 class=h>v10</h2>\n\
<div class=r><a href=# class=d>d</a><a href=# class=r>-</a>\
<a href=\"diffs?q=g\">#define <span>g</span></a><hr><a href=\"http://x/v10/b.h#L2\">b.h:2</a></div>\n\
<div class=a><a href=# class=v>v</a><a href=# class=a>+</a>\
<a href=\"diffs?q=h\">unk_t <span>h</span> = 0</a><hr><a href=\"http://x/v10/b.c#L3\">b.c:3</a></div>\n"
    );
    assert_eq!(page[1], "<h2 class=h>v2</h2>\n");
    assert!(page[2].starts_with("<h2 class=h>v1</h2>\n<div class=a>"));
    assert_eq!(RESULTS_HEAD, "<link rel=\"stylesheet\" href=/static/results-inner.css>");
}

#[test]
fn a_later_group_of_a_version_takes_the_place_of_an_earlier_one() {
    let lines: Vec<String> =
        vec!["v1", "a\tf\tFunction\ta.c\t1\t", "", "v1"].into_iter().map(String::from).collect();
    assert_eq!(render_results(&lines, &repo()), Some(vec!["<h2 class=h>v1</h2>\n".to_string()]));
}

#[test]
fn an_answer_without_lines_gives_an_empty_page() {
    assert_eq!(render_results(&vec![], &repo()), Some(vec![]));
    assert_eq!(render_results(&vec![String::new(), String::new()], &repo()), Some(vec![]));
}

#[test]
fn a_line_with_too_few_fields_gives_no_page() {
    let lines: Vec<String> = vec!["v1", "a\tf\tFunction"].into_iter().map(String::from).collect();
    assert_eq!(render_results(&lines, &repo()), None);
}

#[test]
fn a_text_line_by_line() {
    let mut lines = DoubleLines::new("one\r\ntwo\n\nfour\r");
    assert_eq!(lines.next(), Some("one".to_string()));
    assert_eq!(lines.next(), Some("two".to_string()));
    assert_eq!(lines.next(), Some(String::new()));
    assert_eq!(lines.next(), Some("four\r".to_string()));
    assert_eq!(lines.next(), None);
    assert_eq!(lines.next(), None);
    assert_eq!(DoubleLines::new("").next(), None);
    let mut one = DoubleLines::new("\n");
    assert_eq!(one.next(), Some(String::new()));
    assert_eq!(one.next(), None);
    let text = "a\nb\r\r\nc";
    let mut all = Vec::new();
    let mut reader = DoubleLines::new(text);
    while let Some(line) = reader.next() {
        all.push(line);
    }
    let expected: Vec<String> = text.lines().map(String::from).collect();
    assert_eq!(all, expected);
}

#[test]
fn what_a_page_is_filled_with() {
    let text = |a: &str, b: &str| (a.to_string(), b.to_string());
    assert_eq!(
        project_view("linux-kernel", Some("a b&c"), None, Some("f")),
        vec![
            text("project", "linux-kernel"),
            text("Project", "Linux Kernel"),
            text("diff_params", "q=a+b%26c&t=f"),
            text("q", "a b&c"),
            text("query_dash", "a b&c - "),
        ]
    );
    assert_eq!(
        project_view("git", None, Some("ar"), None),
        vec![
            text("project", "git"),
            text("Project", "Git"),
            text("diff_params", "a=ar"),
            text("q", ""),
            text("query_dash", ""),
        ]
    );
    assert_eq!(
        project_view("x", Some("\u{c9}t\u{e9}"), Some("a"), Some("v"))[2],
        text("diff_params", "q=%C3%89t%C3%A9&a=a&t=v")
    );
    assert_eq!(project_view("x", None, None, None)[2], text("diff_params", ""));
    assert_eq!(
        project_view("x", Some("aZ09*-._ ~!\"#%&'()+,/:;<=>?@[\\]^`{|}\u{7f}\n"), None, Some(""))[2],
        text(
            "diff_params",
            "q=aZ09*-._+%7E%21%22%23%25%26%27%28%29%2B%2C%2F%3A%3B%3C%3D%3E%3F%40%5B%5C%5D%5E%60%7B%7C%7D%7F%0A&t="
        )
    );
    assert_eq!((ANY_NAME, COMPLETION_COUNT, ALL_ACTIONS, ALL_TYPES), (".*", 100, "arm", "fvd"));
}

#[test]
fn arguments_of_the_search_program() {
    assert_eq!(complete_args("get.*"), vec!["--smart-case", "^(get.*)$", "autocomplete_db"]);
    assert_eq!(NAMES_FILE, "autocomplete_db");
    assert_eq!(
        diff_args("main", "arm", "f"),
        vec!["10s", "rg", "--heading", "--smart-case", "^[^\\t]\\tmain\\t(Function)"]
    );
}
