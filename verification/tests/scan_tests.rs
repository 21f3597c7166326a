use wordlist_cracker::app_state::App;
use wordlist_cracker::app_state::Focus;
use wordlist_cracker::digest::digest_hex;
use wordlist_cracker::msg::Message;
use wordlist_cracker::scan::run_scan;
use wordlist_cracker::scan::LineRead;
use wordlist_cracker::target::normalize_target;
use wordlist_cracker::text::trim;
use wordlist_cracker::text::usize_to_string;

fn decoded(s: &str) -> LineRead {
    LineRead::Decoded(String::from(s))
}

#[test]
fn digest_known_value() {
    // SHA-1 of "abc" is a classic published test vector.
    assert_eq!(digest_hex("abc"), "a9993e364706816aba3e25717850c26c9cd0d89d");
}

#[test]
fn digest_deterministic() {
    let a = digest_hex("secret123");
    let b = digest_hex("secret123");
    assert_eq!(a, b);
    assert_eq!(a.len(), 40);
}

#[test]
fn scan_finds_match_and_stops() {
    let lines = vec![decoded("apple"), decoded("Banana"), decoded("secret123"), decoded("")];
    let target = digest_hex("secret123");
    let msgs = run_scan(&lines, &target);
    let texts: Vec<String> = msgs.iter().map(|m| format!("{:?}", m)).collect();
    assert_eq!(texts.len(), 7);
    assert_eq!(texts[0], "Log(\"Wordlist has 4 lines\")");
    assert_eq!(texts[1], "Progress { checked: 0, total: 4 }");
    assert_eq!(texts[2], "Progress { checked: 1, total: 4 }");
    assert_eq!(texts[3], "Progress { checked: 2, total: 4 }");
    assert_eq!(texts[4], "Progress { checked: 3, total: 4 }");
    assert_eq!(texts[5], "Found(\"secret123\")");
    assert_eq!(texts[6], "Done");
    // the blank line 4 is never reached: Found is followed only by Done
    assert!(matches!(msgs[6], Message::Done));
}

#[test]
fn scan_exhausts_without_match() {
    let lines = vec![decoded("apple"), decoded("Banana"), decoded("secret123"), decoded("")];
    let target = digest_hex("nomatch");
    let msgs = run_scan(&lines, &target);
    let texts: Vec<String> = msgs.iter().map(|m| format!("{:?}", m)).collect();
    assert_eq!(
        texts,
        vec![
            "Log(\"Wordlist has 4 lines\")".to_string(),
            "Progress { checked: 0, total: 4 }".to_string(),
            "Progress { checked: 1, total: 4 }".to_string(),
            "Progress { checked: 2, total: 4 }".to_string(),
            "Progress { checked: 3, total: 4 }".to_string(),
            "Progress { checked: 4, total: 4 }".to_string(),
            "Log(\"Checked 4 / 4\")".to_string(),
            "Log(\"No password found in wordlist.\")".to_string(),
            "Done".to_string(),
        ]
    );
}

#[test]
fn scan_skips_unreadable_line() {
    let lines = vec![
        LineRead::Unreadable(String::from("invalid utf-8")),
        decoded("secret123"),
    ];
    let target = digest_hex("secret123");
    let msgs = run_scan(&lines, &target);
    let texts: Vec<String> = msgs.iter().map(|m| format!("{:?}", m)).collect();
    assert_eq!(
        texts,
        vec![
            "Log(\"Wordlist has 2 lines\")".to_string(),
            "Progress { checked: 0, total: 2 }".to_string(),
            "Log(\"Error reading line 1: invalid utf-8\")".to_string(),
            "Progress { checked: 1, total: 2 }".to_string(),
            "Progress { checked: 2, total: 2 }".to_string(),
            "Found(\"secret123\")".to_string(),
            "Done".to_string(),
        ]
    );
}

#[test]
fn scan_counts_blank_lines() {
    let lines = vec![decoded(""), decoded("  "), decoded("x")];
    let target = digest_hex("none-of-these");
    let msgs = run_scan(&lines, &target);
    // first Progress reports total 3, blank lines included
    match &msgs[1] {
        Message::Progress { checked, total } => {
            assert_eq!(*checked, 0);
            assert_eq!(*total, 3);
        },
        other => panic!("unexpected: {:?}", other),
    }
}

#[test]
fn scan_trims_candidate_before_hashing() {
    let lines = vec![decoded("  secret123\t")];
    let target = digest_hex("secret123");
    let msgs = run_scan(&lines, &target);
    let texts: Vec<String> = msgs.iter().map(|m| format!("{:?}", m)).collect();
    assert!(texts.contains(&"Found(\"secret123\")".to_string()));
}

#[test]
fn normalize_accepts_mixed_case() {
    let upper = "A9993E364706816ABA3E25717850C26C9CD0D89D";
    let normalized = normalize_target(upper).expect("forty hex digits are valid");
    assert_eq!(normalized, "a9993e364706816aba3e25717850c26c9cd0d89d");
    // a mixed-case target, once normalized, matches the lowercase digest
    assert_eq!(normalized, digest_hex("abc"));
}

#[test]
fn normalize_rejects_wrong_length() {
    assert!(normalize_target("abc123").is_none());
    assert!(normalize_target("").is_none());
}

#[test]
fn normalize_rejects_non_hex() {
    let bad = "z9993e364706816aba3e25717850c26c9cd0d89d";
    assert_eq!(bad.len(), 40);
    assert!(normalize_target(bad).is_none());
}

#[test]
fn normalize_trims_input() {
    let padded = "  a9993e364706816aba3e25717850c26c9cd0d89d\n";
    assert_eq!(
        normalize_target(padded).expect("valid after trimming"),
        "a9993e364706816aba3e25717850c26c9cd0d89d"
    );
}

#[test]
fn trim_removes_surrounding_whitespace() {
    assert_eq!(trim("  hello \t\r\n"), "hello");
    assert_eq!(trim("hello"), "hello");
    assert_eq!(trim("   "), "");
    assert_eq!(trim(""), "");
    assert_eq!(trim(" inner space kept "), "inner space kept");
}

#[test]
fn counter_rendering() {
    assert_eq!(usize_to_string(0), "0");
    assert_eq!(usize_to_string(7), "7");
    assert_eq!(usize_to_string(1000), "1000");
    assert_eq!(usize_to_string(987654), "987654");
}

#[test]
fn app_starts_idle() {
    let a = App::new();
    assert_eq!(a.wordlist, "wordlist.txt");
    assert_eq!(a.hash, "");
    assert_eq!(a.focus, Focus::Wordlist);
    assert!(a.logs.is_empty());
    assert!(!a.running);
    assert_eq!(a.checked, 0);
    assert_eq!(a.total, 0);
    assert!(a.found.is_none());
}

#[test]
fn push_log_keeps_history_bounded() {
    let mut a = App::new();
    for i in 0..201 {
        a.push_log(format!("line {}", i));
    }
    // 201 lines passed the cap of 200, so the oldest 50 were dropped
    assert_eq!(a.logs.len(), 151);
    assert_eq!(a.logs[0].as_str(), "line 50");
    assert_eq!(a.logs[150].as_str(), "line 200");
}

#[test]
fn apply_message_updates_state() {
    let mut a = App::new();
    a.running = true;
    a.apply_message(Message::Progress { checked: 2, total: 9 });
    assert_eq!(a.checked, 2);
    assert_eq!(a.total, 9);
    assert!(a.running);

    a.apply_message(Message::Log(String::from("hello")));
    assert_eq!(a.logs.last().unwrap().as_str(), "hello");

    a.apply_message(Message::Found(String::from("secret123")));
    assert!(!a.running);
    assert_eq!(a.found.as_deref(), Some("secret123"));
    assert_eq!(a.logs.last().unwrap().as_str(), "Password found: secret123");

    a.running = true;
    a.apply_message(Message::Done);
    assert!(!a.running);
    assert_eq!(a.logs.last().unwrap().as_str(), "Done.");
}

#[test]
fn checkpoint_log_every_thousand_lines() {
    let mut lines: Vec<LineRead> = Vec::new();
    for i in 0..1001 {
        lines.push(decoded(&format!("word{}", i)));
    }
    let target = digest_hex("absent");
    let msgs = run_scan(&lines, &target);
    let logs: Vec<String> = msgs
        .iter()
        .filter_map(|m| match m {
            Message::Log(s) => Some(s.clone()),
            _ => None,
        })
        .collect();
    assert!(logs.contains(&"Checked 1000 / 1001".to_string()));
    assert!(logs.contains(&"Checked 1001 / 1001".to_string()));
    assert!(!logs.contains(&"Checked 999 / 1001".to_string()));
}
