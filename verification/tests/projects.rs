use sourcedigger::data::{AddRepo, Project, ProjectIndex, ProjectRepo, ProjectStats};
use sourcedigger::stream::{Answer, Demand, StreamedStringListResponse, HIGH_WATER};

#[test]
fn address_of_a_source_line() {
    let repo = ProjectRepo {
        name: "git".to_string(),
        origin: "git@github.com:git/git.git".to_string(),
        source_viewer: "https://example.org/{tag}/{path}#L{line} ({tag})".to_string(),
    };
    assert_eq!(
        repo.source_address("v2.9.5", "src/main.c", "12"),
        "https://example.org/v2.9.5/src/main.c#L12 (v2.9.5)"
    );
    // What is put in for the tag is itself looked through for the later marks.
    assert_eq!(repo.source_address("{path}", "p", "{tag}"), "https://example.org/p/p#L{tag} (p)");
    let plain = ProjectRepo { source_viewer: "no marks".to_string(), ..repo.clone() };
    assert_eq!(plain.source_address("a", "b", "c"), "no marks");
    let project = Project {
        repo,
        index: ProjectIndex { initial_ver: "v0.99".to_string(), latest_ver: "v2.9.5".to_string() },
        stats: ProjectStats { searches: 1111, autocompletes: 2222 },
    };
    assert_eq!(project.index.initial_ver, "v0.99");
    assert_eq!(project.stats.searches + project.stats.autocompletes, 3333);
}

#[test]
fn addresses_of_repositories() {
    assert!(AddRepo::new("https://example.org/a.git".to_string()).is_valid());
    assert!(AddRepo::new(".git".to_string()).is_valid());
    assert!(!AddRepo::new("https://example.org/a".to_string()).is_valid());
    assert!(!AddRepo::new("https://example.org/a.git/".to_string()).is_valid());
    assert!(!AddRepo::new("git".to_string()).is_valid());
    assert!(!AddRepo::new(String::new()).is_valid());
    assert_eq!(AddRepo::new("x.git".to_string()).repo_url(), "x.git");
}

#[test]
fn a_stream_gathers_chunks_and_hands_out_bytes() {
    let mut s = StreamedStringListResponse::new();
    assert_eq!(s.demand(), Demand::Poll);
    assert_eq!(s.accept(Answer::Empty), Demand::Wait);
    assert_eq!(s.accept(Answer::Chunk("hello ".to_string())), Demand::Poll);
    assert_eq!(s.accept(Answer::Chunk("w\u{f6}rld".to_string())), Demand::Poll);
    // Something is held: the stream asks on without waiting.
    assert_eq!(s.accept(Answer::Empty), Demand::Poll);
    assert_eq!(s.accept(Answer::Disconnected), Demand::Deliver);
    assert_eq!((s.len(), s.counter()), (12, 0));
    assert_eq!(s.read(4), b"hell");
    assert_eq!((s.len(), s.counter()), (8, 4));
    assert_eq!(s.read(100), "o w\u{f6}rld".as_bytes());
    assert_eq!(s.read(100), b"");
    assert_eq!(s.read(0), b"");
}

#[test]
fn a_full_stream_hands_out_before_it_asks_on() {
    let mut s = StreamedStringListResponse::new();
    let chunk = "x".repeat(HIGH_WATER - 1);
    assert_eq!(s.accept(Answer::Chunk(chunk)), Demand::Poll);
    assert_eq!(s.accept(Answer::Chunk("yz".to_string())), Demand::Deliver);
    assert_eq!(s.demand(), Demand::Deliver);
    assert_eq!(s.read(HIGH_WATER).len(), HIGH_WATER);
    assert_eq!(s.demand(), Demand::Poll);
    assert_eq!(s.read(10), b"z");
    assert_eq!(s.accept(Answer::Disconnected), Demand::Deliver);
    assert_eq!(s.read(10), b"");
}
