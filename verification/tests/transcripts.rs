use sosial_video::transcripts::{
    abs_log_path, decimal, ended_line, log_header, log_rel_path, normalize_transcript,
    transcript_admission, transcript_body, utterance_line,
};

#[test]
fn transcripts_are_collapsed() {
    assert_eq!(normalize_transcript(" hello\t\tworld \u{0}x "), "hello world x");
    assert_eq!(normalize_transcript("a\u{1}b"), "a b");
    assert_eq!(normalize_transcript("a\u{a0}\u{2003}b"), "a b");
    assert_eq!(normalize_transcript("   "), "");
    let long = "word ".repeat(500);
    let t = normalize_transcript(&long);
    assert_eq!(t.chars().count(), 2000);
    assert!(t.starts_with("word word"));
}

#[test]
fn transcript_bodies_and_admission() {
    assert_eq!(transcript_body(" hi  there ").ok().unwrap(), "hi there");
    let e = transcript_body(" \n ").err().unwrap();
    assert_eq!((e.status, e.body.error.as_str()), (400, "transcript is empty"));
    assert!(transcript_admission(true, 19).is_ok());
    let e = transcript_admission(true, 20).err().unwrap();
    assert_eq!((e.status, e.body.error.as_str()), (429, "slow down a little"));
    let e = transcript_admission(false, 0).err().unwrap();
    assert_eq!((e.status, e.body.error.as_str()), (403, "not in this broadcast"));
}

#[test]
fn decimal_numbers() {
    let s = |n| decimal(n).into_iter().collect::<String>();
    assert_eq!(s(0), "0");
    assert_eq!(s(42), "42");
    assert_eq!(s(-7), "-7");
    assert_eq!(s(i32::MIN), "-2147483648");
    assert_eq!(s(i32::MAX), "2147483647");
}

#[test]
fn log_paths() {
    assert_eq!(log_rel_path("2024-05-01", 42), "2024-05-01/broadcast-42.txt");
    assert_eq!(abs_log_path("/var/log", "2024/b.txt"), "/var/log/2024/b.txt");
    assert_eq!(abs_log_path("/var/log/", "2024\\b.txt"), "/var/log/2024/b.txt");
    assert_eq!(abs_log_path("/var/log", "/abs/b.txt"), "/abs/b.txt");
    assert_eq!(abs_log_path("", "b.txt"), "b.txt");
    let std_join = std::path::Path::new("/var/log").join("2024/b.txt");
    assert_eq!(std_join.to_str().unwrap(), abs_log_path("/var/log", "2024/b.txt"));
}

#[test]
fn log_lines() {
    assert_eq!(
        log_header(7, "2024-05-01T10:00:00+00:00", "bob", "Live\nnow"),
        "# Sosial Video speech log\n# broadcast_id: 7\n# started_at: 2024-05-01T10:00:00+00:00\n# host: bob\n# title: Live now\n#\n"
    );
    assert!(log_header(7, "s", "bob", "  ").contains("# title: (untitled)\n"));
    assert_eq!(utterance_line("T", "alice", "hello"), "[T] alice: hello\n");
    assert_eq!(ended_line("T"), "# ended_at: T\n");
}
