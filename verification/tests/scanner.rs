use nexus::scanner::{count_jsonl, pick_new_log, project_dir_name, read_session_entries, read_session_lines, SessionInfo};
use nexus::scanner::{
    quick_scan_done, read_log_line, session_order, ContentBlock, LogEntry, LogLine, MessageContent, SessionBuilder,
};

fn entry(kind: &str) -> LogEntry {
    LogEntry {
        entry_type: Some(kind.to_string()),
        timestamp: None,
        slug: None,
        cwd: None,
        git_branch: None,
        version: None,
        is_meta: None,
        model: None,
        input_tokens: None,
        output_tokens: None,
        content: MessageContent::Other,
    }
}

fn s(x: &str) -> Option<String> {
    Some(x.to_string())
}

#[test]
fn first_wins_and_last_wins() {
    let mut b = SessionBuilder::new("aaa".to_string());
    let mut p = entry("progress");
    p.cwd = s("/one");
    p.git_branch = s("main");
    p.version = s("1.0");
    p.timestamp = s("t1");
    b.process_entry(&p);
    let mut u = entry("user");
    u.cwd = s("/two");
    u.git_branch = s("feature");
    u.version = s("2.0");
    u.timestamp = s("t2");
    u.content = MessageContent::Text("Hello, help me".to_string());
    b.process_entry(&u);
    assert_eq!(b.cwd.as_deref(), Some("/one"));
    assert_eq!(b.version.as_deref(), Some("1.0"));
    assert_eq!(b.git_branch.as_deref(), Some("feature"));
    assert_eq!(b.last_timestamp.as_deref(), Some("t2"));
    assert_eq!(b.first_message.as_deref(), Some("Hello, help me"));
    assert_eq!(b.message_count, 1);
}

#[test]
fn assistant_entries_count_models_and_tokens() {
    let mut b = SessionBuilder::new("x".to_string());
    let mut a = entry("assistant");
    a.model = s("opus-4-6");
    a.slug = s("happy-fox");
    a.input_tokens = Some(100);
    a.output_tokens = Some(50);
    b.process_entry(&a);
    let mut synthetic = entry("assistant");
    synthetic.model = s("<synthetic>");
    synthetic.input_tokens = Some(1);
    b.process_entry(&synthetic);
    assert_eq!(b.model.as_deref(), Some("opus-4-6"));
    assert_eq!(b.slug.as_deref(), Some("happy-fox"));
    assert_eq!(b.message_count, 1);
    assert_eq!(b.token_usage.input_tokens, 101);
    assert_eq!(b.token_usage.output_tokens, 50);
}

#[test]
fn meta_and_command_messages_are_no_first_message() {
    let mut b = SessionBuilder::new("x".to_string());
    let mut meta = entry("user");
    meta.is_meta = Some(true);
    meta.content = MessageContent::Text("meta".to_string());
    b.process_entry(&meta);
    let mut cmd = entry("user");
    cmd.content = MessageContent::Text("<command-message>init</command-message>".to_string());
    b.process_entry(&cmd);
    assert_eq!(b.message_count, 1);
    assert!(b.first_message.is_none());
    assert!(!b.found_first_message);
    let mut blocks = entry("user");
    blocks.content = MessageContent::Blocks(vec![
        ContentBlock { block_type: s("image"), text: None },
        ContentBlock { block_type: s("text"), text: s("from a block") },
        ContentBlock { block_type: s("text"), text: s("second") },
    ]);
    b.process_entry(&blocks);
    assert_eq!(b.first_message.as_deref(), Some("from a block"));
    assert!(b.has_meaningful_data());
}

#[test]
fn first_message_preview_is_truncated() {
    let mut b = SessionBuilder::new("x".to_string());
    let mut u = entry("user");
    u.content = MessageContent::Text("a".repeat(250));
    b.process_entry(&u);
    let m = b.first_message.clone().unwrap();
    assert_eq!(m.len(), 203);
    assert!(m.ends_with("..."));
}

#[test]
fn build_falls_back_to_file_time() {
    let b = SessionBuilder::new("id".to_string());
    assert!(!b.has_meaningful_data());
    assert!(!b.has_all_quick_fields());
    let info = b.build("proj".to_string(), 3, "2026-01-01T00:00:00Z".to_string(), "/p/id.jsonl".to_string(), true);
    assert_eq!(info.last_active, "2026-01-01T00:00:00Z");
    assert_eq!(info.subagent_count, 3);
    assert!(info.is_complete);
    assert_eq!(info.session_id, "id");
}

#[test]
fn quick_scan_limits() {
    let b = SessionBuilder::new("id".to_string());
    assert!(!quick_scan_done(true, 49, &b));
    assert!(quick_scan_done(true, 50, &b));
    assert!(!quick_scan_done(false, 5000, &b));
}

#[test]
fn log_lines_are_classified() {
    assert!(matches!(read_log_line(""), LogLine::Skipped));
    assert!(matches!(read_log_line(r#"{"type":"file-history-snapshot"}"#), LogLine::Skipped));
    assert!(matches!(read_log_line("{not json"), LogLine::Malformed));
    match read_log_line(r#"{"type":"assistant","slug":"s","message":{"model":"m","usage":{"input_tokens":7,"output_tokens":3},"content":[{"type":"text","text":"hi"}]}}"#) {
        LogLine::Entry(e) => {
            assert_eq!(e.entry_type.as_deref(), Some("assistant"));
            assert_eq!(e.model.as_deref(), Some("m"));
            assert_eq!(e.slug.as_deref(), Some("s"));
            assert_eq!(e.input_tokens, Some(7));
            assert_eq!(e.output_tokens, Some(3));
            match e.content {
                MessageContent::Blocks(b) => assert_eq!(b[0].text.as_deref(), Some("hi")),
                _ => panic!("expected blocks"),
            }
        }
        _ => panic!("expected an entry"),
    }
}

#[test]
fn sessions_ordered_most_recent_first() {
    let v = vec!["2026-01-02".to_string(), "2026-03-01".to_string(), "2026-01-02".to_string(), "2025-12-31".to_string()];
    assert_eq!(session_order(&v), vec![1, 0, 2, 3]);
}

#[test]
fn project_dir_name_dashes_slashes_and_dots() {
    assert_eq!(project_dir_name("/Users/dev/my.app"), "-Users-dev-my-app");
    assert_eq!(project_dir_name("plain"), "plain");
}

#[test]
fn new_log_is_the_newest_not_seen_before() {
    let entries = vec![
        ("old".to_string(), 100u128),
        ("newest".to_string(), 300u128),
        ("mid".to_string(), 200u128),
        ("tie".to_string(), 300u128),
    ];
    assert_eq!(pick_new_log(&entries, None), Some("newest".to_string()));
    let before = vec!["newest".to_string(), "tie".to_string()];
    assert_eq!(pick_new_log(&entries, Some(&before)), Some("mid".to_string()));
    let all: Vec<String> = entries.iter().map(|e| e.0.clone()).collect();
    assert_eq!(pick_new_log(&entries, Some(&all)), None);
    assert_eq!(pick_new_log(&Vec::new(), None), None);
}

/// The session read from a log's lines, as a scan lists it: none when the log holds
/// nothing worth listing; also whether a malformed line was seen.
fn scan_lines(session_id: &str, lines: &[&str], quick: bool, subagents: u16) -> (Vec<SessionInfo>, bool) {
    let text = lines.join("\n");
    let owned: Vec<String> = text.lines().map(|l| l.to_string()).collect();
    let reading = read_session_lines(session_id.to_string(), &owned, quick).expect("counters fit");
    let malformed = reading.first_malformed.is_some();
    let sessions = match reading.builder {
        Some(b) => vec![b.build("-Users-test".to_string(), subagents, String::new(), format!("{session_id}.jsonl"), !quick)],
        None => vec![],
    };
    (sessions, malformed)
}

#[test]
fn test_normal_session() {
    let (results, malformed) = scan_lines(
        "aaa-bbb-ccc",
        &[
            r#"{"type":"progress","sessionId":"aaa-bbb-ccc","cwd":"/Users/test/Code/myproject","gitBranch":"main","version":"2.1.50","timestamp":"2026-02-28T10:00:00Z"}"#,
            r#"{"type":"user","sessionId":"aaa-bbb-ccc","cwd":"/Users/test/Code/myproject","gitBranch":"main","version":"2.1.50","message":{"role":"user","content":"Hello, help me with this code"},"timestamp":"2026-02-28T10:00:01Z"}"#,
            r#"{"type":"assistant","sessionId":"aaa-bbb-ccc","slug":"happy-coding-fox","message":{"model":"opus-4-6","role":"assistant","content":[{"type":"text","text":"Sure!"}],"usage":{"input_tokens":100,"output_tokens":50}},"timestamp":"2026-02-28T10:00:02Z"}"#,
        ],
        false,
        0,
    );
    assert!(!malformed);
    assert_eq!(results.len(), 1);
    let s = &results[0];
    assert_eq!(s.session_id, "aaa-bbb-ccc");
    assert_eq!(s.slug.as_deref(), Some("happy-coding-fox"));
    assert_eq!(s.cwd.as_deref(), Some("/Users/test/Code/myproject"));
    assert_eq!(s.git_branch.as_deref(), Some("main"));
    assert_eq!(s.model.as_deref(), Some("opus-4-6"));
    assert_eq!(s.version.as_deref(), Some("2.1.50"));
    assert_eq!(s.first_message.as_deref(), Some("Hello, help me with this code"));
    assert_eq!(s.message_count, 2); // 1 user + 1 assistant
    assert_eq!(s.token_usage.input_tokens, 100);
    assert_eq!(s.token_usage.output_tokens, 50);
    assert_eq!(s.last_active, "2026-02-28T10:00:02Z");
    assert_eq!(s.subagent_count, 0);
}

#[test]
fn test_no_slug_session() {
    let (results, _) = scan_lines(
        "ddd-eee-fff",
        &[
            r#"{"type":"progress","sessionId":"ddd-eee-fff","cwd":"/Users/test/project","gitBranch":"dev","version":"2.1.50","timestamp":"2026-02-28T11:00:00Z"}"#,
            r#"{"type":"user","sessionId":"ddd-eee-fff","cwd":"/Users/test/project","message":{"role":"user","content":"Quick question"},"timestamp":"2026-02-28T11:00:01Z"}"#,
        ],
        true,
        0,
    );
    assert_eq!(results.len(), 1);
    assert!(results[0].slug.is_none());
    assert_eq!(results[0].first_message.as_deref(), Some("Quick question"));
}

#[test]
fn test_is_meta_messages_skipped() {
    let (results, _) = scan_lines(
        "ggg-hhh-iii",
        &[
            r#"{"type":"progress","sessionId":"ggg-hhh-iii","cwd":"/Users/test/meta","gitBranch":"main","version":"2.1.50","timestamp":"2026-02-28T12:00:00Z"}"#,
            r#"{"type":"user","sessionId":"ggg-hhh-iii","isMeta":true,"message":{"role":"user","content":"System injected prompt"},"timestamp":"2026-02-28T12:00:01Z"}"#,
            r#"{"type":"user","sessionId":"ggg-hhh-iii","message":{"role":"user","content":"Real user question"},"timestamp":"2026-02-28T12:00:02Z"}"#,
        ],
        false,
        0,
    );
    assert_eq!(results.len(), 1);
    assert_eq!(results[0].first_message.as_deref(), Some("Real user question"));
    assert_eq!(results[0].message_count, 1); // Only the non-meta user message
}

#[test]
fn test_command_message_skipped() {
    let (results, _) = scan_lines(
        "jjj-kkk-lll",
        &[
            r#"{"type":"progress","sessionId":"jjj-kkk-lll","cwd":"/Users/test/cmd","gitBranch":"main","version":"2.1.50","timestamp":"2026-02-28T13:00:00Z"}"#,
            r#"{"type":"user","sessionId":"jjj-kkk-lll","message":{"role":"user","content":"<command-message>some-skill</command-message>"},"timestamp":"2026-02-28T13:00:01Z"}"#,
            r#"{"type":"user","sessionId":"jjj-kkk-lll","message":{"role":"user","content":"Actual user question after command"},"timestamp":"2026-02-28T13:00:02Z"}"#,
        ],
        false,
        0,
    );
    assert_eq!(results.len(), 1);
    assert_eq!(results[0].first_message.as_deref(), Some("Actual user question after command"));
}

#[test]
fn test_snapshot_only_session_skipped() {
    let (results, _) = scan_lines(
        "mmm-nnn-ooo",
        &[
            r#"{"type":"file-history-snapshot","messageId":"abc","snapshot":{"trackedFileBackups":{},"timestamp":"2026-02-28T14:00:00Z"}}"#,
            r#"{"type":"file-history-snapshot","messageId":"def","snapshot":{"trackedFileBackups":{},"timestamp":"2026-02-28T14:00:01Z"}}"#,
        ],
        false,
        0,
    );
    assert_eq!(results.len(), 0);
}

#[test]
fn test_empty_file() {
    let (results, _) = scan_lines("ppp-qqq-rrr", &[], false, 0);
    assert_eq!(results.len(), 0);
}

#[test]
fn test_malformed_json_skipped() {
    let (results, malformed) = scan_lines(
        "sss-ttt-uuu",
        &[
            r#"{"type":"progress","sessionId":"sss-ttt-uuu","cwd":"/Users/test/bad","gitBranch":"main","version":"2.1.50","timestamp":"2026-02-28T15:00:00Z"}"#,
            r#"NOT VALID JSON AT ALL"#,
            r#"{"type":"user","sessionId":"sss-ttt-uuu","message":{"role":"user","content":"Still works"},"timestamp":"2026-02-28T15:00:02Z"}"#,
        ],
        false,
        0,
    );
    assert!(malformed);
    assert_eq!(results.len(), 1);
    assert_eq!(results[0].first_message.as_deref(), Some("Still works"));
}

#[test]
fn test_subagent_count() {
    let names: Vec<String> =
        ["agent-a001.jsonl", "agent-a002.jsonl", "agent-a003.jsonl"].iter().map(|n| n.to_string()).collect();
    let subagents = count_jsonl(&names);
    let (results, _) = scan_lines(
        "vvv-www-xxx",
        &[
            r#"{"type":"progress","sessionId":"vvv-www-xxx","cwd":"/Users/test/agents","gitBranch":"main","version":"2.1.50","timestamp":"2026-02-28T16:00:00Z"}"#,
            r#"{"type":"user","sessionId":"vvv-www-xxx","message":{"role":"user","content":"Build something"},"timestamp":"2026-02-28T16:00:01Z"}"#,
        ],
        false,
        subagents,
    );
    assert_eq!(results.len(), 1);
    assert_eq!(results[0].subagent_count, 3);
}

#[test]
fn only_jsonl_files_count_as_subagent_logs() {
    let names: Vec<String> =
        ["a.jsonl", "b.json", "notes.txt", "c.jsonl", "jsonl", ".jsonl"].iter().map(|n| n.to_string()).collect();
    assert_eq!(count_jsonl(&names), 2);
    assert_eq!(count_jsonl(&Vec::new()), 0);
}

#[test]
fn test_quick_vs_full_token_usage() {
    let mut lines: Vec<String> = Vec::new();
    lines.push(
        r#"{"type":"progress","sessionId":"yyy-zzz","cwd":"/Users/test/quick","gitBranch":"main","version":"2.1.50","timestamp":"2026-02-28T17:00:00Z"}"#.to_string(),
    );
    lines.push(
        r#"{"type":"user","sessionId":"yyy-zzz","message":{"role":"user","content":"Hello"},"timestamp":"2026-02-28T17:00:01Z"}"#.to_string(),
    );
    // Pad with system entries to push past QUICK_SCAN_MAX_LINES
    for i in 0..55 {
        lines.push(format!(r#"{{"type":"system","timestamp":"2026-02-28T17:00:{:02}Z"}}"#, (i % 60)));
    }
    lines.push(
        r#"{"type":"assistant","sessionId":"yyy-zzz","slug":"test-slug","message":{"model":"opus-4-6","role":"assistant","content":[{"type":"text","text":"response"}],"usage":{"input_tokens":500,"output_tokens":200}},"timestamp":"2026-02-28T17:01:00Z"}"#.to_string(),
    );
    let line_refs: Vec<&str> = lines.iter().map(|s| s.as_str()).collect();

    let (quick, _) = scan_lines("yyy-zzz", &line_refs, true, 0);
    let (full, _) = scan_lines("yyy-zzz", &line_refs, false, 0);

    assert_eq!(quick.len(), 1);
    assert_eq!(full.len(), 1);

    // Quick scan stops at 50 lines — misses the assistant entry with tokens
    assert_eq!(quick[0].token_usage.output_tokens, 0);
    assert_eq!(full[0].token_usage.output_tokens, 200);
    assert_eq!(full[0].token_usage.input_tokens, 500);

    // Quick scan also misses slug (it was on the assistant entry past line 50)
    assert!(quick[0].slug.is_none());
    assert_eq!(full[0].slug.as_deref(), Some("test-slug"));

    // is_complete reflects scan mode
    assert!(!quick[0].is_complete);
    assert!(full[0].is_complete);
}

#[test]
fn test_synthetic_model_not_counted() {
    let (results, _) = scan_lines(
        "syn-test-001",
        &[
            r#"{"type":"progress","sessionId":"syn-test-001","cwd":"/Users/test/syn","gitBranch":"main","version":"2.1.50","timestamp":"2026-02-28T18:00:00Z"}"#,
            r#"{"type":"user","sessionId":"syn-test-001","message":{"role":"user","content":"Hello"},"timestamp":"2026-02-28T18:00:01Z"}"#,
            r#"{"type":"assistant","sessionId":"syn-test-001","message":{"model":"opus-4-6","role":"assistant","content":[{"type":"text","text":"Hi"}],"usage":{"input_tokens":10,"output_tokens":5}},"timestamp":"2026-02-28T18:00:02Z"}"#,
            r#"{"type":"assistant","sessionId":"syn-test-001","message":{"model":"<synthetic>","role":"assistant","content":[{"type":"text","text":"..."}],"usage":{"input_tokens":0,"output_tokens":0}},"timestamp":"2026-02-28T18:00:03Z"}"#,
        ],
        false,
        0,
    );
    assert_eq!(results.len(), 1);
    assert_eq!(results[0].model.as_deref(), Some("opus-4-6"));
    assert_eq!(results[0].message_count, 2); // 1 user + 1 real assistant (synthetic excluded)
}

#[test]
fn test_array_content_first_message() {
    let (results, _) = scan_lines(
        "arr-test-001",
        &[
            r#"{"type":"progress","sessionId":"arr-test-001","cwd":"/Users/test/arr","gitBranch":"main","version":"2.1.50","timestamp":"2026-02-28T19:00:00Z"}"#,
            r#"{"type":"user","sessionId":"arr-test-001","message":{"role":"user","content":[{"type":"text","text":"Fix the login bug"}]},"timestamp":"2026-02-28T19:00:01Z"}"#,
        ],
        false,
        0,
    );
    assert_eq!(results.len(), 1);
    assert_eq!(results[0].first_message.as_deref(), Some("Fix the login bug"));
}

#[test]
fn test_git_branch_uses_last_value() {
    let (results, _) = scan_lines(
        "branch-001",
        &[
            r#"{"type":"progress","sessionId":"branch-001","cwd":"/Users/test/branch","gitBranch":"main","version":"2.1.50","timestamp":"2026-02-28T20:00:00Z"}"#,
            r#"{"type":"user","sessionId":"branch-001","cwd":"/Users/test/branch","gitBranch":"feat/new-feature","message":{"role":"user","content":"Working on feature"},"timestamp":"2026-02-28T20:00:01Z"}"#,
        ],
        false,
        0,
    );
    assert_eq!(results.len(), 1);
    assert_eq!(results[0].git_branch.as_deref(), Some("feat/new-feature"));
}

#[test]
fn first_malformed_line_is_reported_and_overflow_refused() {
    let lines: Vec<LogLine> = vec![LogLine::Skipped, LogLine::Malformed, LogLine::Malformed];
    let reading = read_session_entries("x".to_string(), &lines, false).unwrap();
    assert_eq!(reading.first_malformed, Some(1));
    assert!(reading.builder.is_none());

    let mut a = entry("assistant");
    a.model = s("m");
    a.input_tokens = Some(u64::MAX);
    let mut b = entry("assistant");
    b.model = s("m");
    b.input_tokens = Some(1);
    let lines = vec![LogLine::Entry(a), LogLine::Entry(b)];
    assert!(read_session_entries("x".to_string(), &lines, false).is_none());
}
