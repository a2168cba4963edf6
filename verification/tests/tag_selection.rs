use regex::Regex;
use sourcedigger::tags::{collect_tags, TagRef};

fn tag(name: &str, time: i64) -> TagRef {
    TagRef { name: name.to_string(), time }
}

#[test]
fn tags_in_order_of_time() {
    let tags = vec![tag("refs/tags/c", 30), tag("refs/tags/a", 10), tag("refs/tags/b", 20)];
    assert_eq!(collect_tags(&tags, None, true), vec!["a", "b", "c"]);
}

#[test]
fn tags_of_the_same_time_keep_their_order() {
    let tags = vec![tag("z", 5), tag("y", 7), tag("x", 5), tag("w", -1), tag("v", 5)];
    assert_eq!(collect_tags(&tags, None, true), vec!["w", "z", "x", "v", "y"]);
}

#[test]
fn tags_in_natural_order() {
    let tags = vec![tag("v1.10", 1), tag("v1.2", 2), tag("V1.3", 3), tag("v1.1", 4)];
    assert_eq!(collect_tags(&tags, None, false), vec!["v1.1", "v1.2", "V1.3", "v1.10"]);
    let shots = vec![tag("shot-2", 0), tag("shot-1", 0), tag("shot-11", 0)];
    assert_eq!(collect_tags(&shots, None, false), vec!["shot-1", "shot-2", "shot-11"]);
}

#[test]
fn names_lose_what_stands_before_the_last_slash() {
    let tags = vec![tag("refs/tags/release/2.0", 2), tag("refs/tags/v1", 1), tag("plain", 3)];
    assert_eq!(collect_tags(&tags, None, true), vec!["v1", "2.0", "plain"]);
    let odd = vec![tag("ends/", 1), tag("/", 2), tag("", 3)];
    assert_eq!(collect_tags(&odd, None, true), vec!["", "", ""]);
}

#[test]
fn tags_with_the_same_text_in_the_first_group_collapse() {
    let pattern = Regex::new(r"^v(\d+\.\d+)").unwrap();
    let tags = vec![
        tag("v1.0-rc1", 1),
        tag("v1.0", 2),
        tag("v1.1", 3),
        tag("v1.1.1", 4),
        tag("other", 5),
        tag("v2.0", 6),
    ];
    // By time the release candidate comes first and stands for 1.0.
    assert_eq!(collect_tags(&tags, Some(&pattern), true), vec!["v1.0-rc1", "v1.1", "v2.0"]);
    // By name the release itself comes first.
    assert_eq!(collect_tags(&tags, Some(&pattern), false), vec!["v1.0", "v1.1", "v2.0"]);
}

#[test]
fn a_pattern_without_a_group_keeps_nothing() {
    let pattern = Regex::new(r"^v\d+").unwrap();
    let tags = vec![tag("v1", 1), tag("v2", 2)];
    let none: Vec<String> = vec![];
    assert_eq!(collect_tags(&tags, Some(&pattern), true), none);
}

#[test]
fn a_group_that_takes_no_part_keeps_nothing() {
    let pattern = Regex::new(r"^(?:v(\d+)|w\d+)$").unwrap();
    let tags = vec![tag("w7", 1), tag("v7", 2), tag("v8", 3), tag("w8", 4)];
    assert_eq!(collect_tags(&tags, Some(&pattern), true), vec!["v7", "v8"]);
}

#[test]
fn the_pattern_sees_the_short_name() {
    let pattern = Regex::new(r"^(v\d+)$").unwrap();
    let tags = vec![tag("refs/tags/v2", 2), tag("refs/tags/v1", 1), tag("refs/tags/v2", 3)];
    assert_eq!(collect_tags(&tags, Some(&pattern), true), vec!["v1", "v2"]);
}

#[test]
fn no_tags() {
    let none: Vec<String> = vec![];
    assert_eq!(collect_tags(&vec![], None, true), none);
    assert_eq!(collect_tags(&vec![], None, false), none);
    assert_eq!(collect_tags(&vec![], Some(&Regex::new("(a)").unwrap()), false), none);
}

#[test]
fn two_runs_choose_the_same_tags() {
    let pattern = Regex::new(r"^v(\d+)").unwrap();
    let tags = vec![tag("v10", 3), tag("v9", 3), tag("v9a", 1), tag("V11", 2)];
    for time_sort in [true, false] {
        let first = collect_tags(&tags, Some(&pattern), time_sort);
        assert_eq!(collect_tags(&tags, Some(&pattern), time_sort), first);
    }
    assert_eq!(collect_tags(&tags, Some(&pattern), true), vec!["v9a", "v10"]);
    assert_eq!(collect_tags(&tags, Some(&pattern), false), vec!["v9", "v10"]);
}
