use overlay_app::bash::{activity_dedupe_key, describe_bash};
use overlay_app::post::{parse_commit_hash, parse_gh_issue_post, parse_rg_post, should_parse_commit_hash};
use overlay_app::session::{format_parallel_summary, Session};
use overlay_app::post::{parse_git_blame_post, parse_git_log_post, parse_gh_pr_post};
use overlay_app::post::{parse_test_result, strip_ansi};
use overlay_app::session::ActivityKind;
use overlay_app::session::project_basename;
use overlay_app::session::{App, Status};

#[test]
fn describe_bash_gh_issue_view() {
    let cmd = "gh issue view 8737 --repo typescript-eslint/typescript-eslint";
    assert_eq!(describe_bash(cmd), "Viewing issue #8737 · typescript-eslint/typescript-eslint");
}

#[test]
fn describe_bash_heredoc_pipe_node() {
    let cmd = "@'\nconsole.log(1)\n'@ | node";
    let label = describe_bash(cmd);
    assert!(
        label.contains("inline script") || label.contains("Node") || label.contains("Running"),
        "unexpected: {label}"
    );
}

#[test]
fn describe_bash_git_log_s() {
    assert_eq!(describe_bash("git log -S foo --oneline"), "Searching git history");
}

#[test]
fn describe_bash_git_blame_l() {
    assert_eq!(describe_bash("git blame -L 10,20 -- src/foo.ts"), "Blaming lines in foo.ts");
}

#[test]
fn describe_bash_get_content_line_range() {
    assert_eq!(
        describe_bash("Get-Content foo.ts -Skip 680 -First 260"),
        "Reading lines 681–940 of foo.ts"
    );
}

#[test]
fn describe_bash_rg_basename() {
    assert_eq!(
        describe_bash("rg no-unnecessary-type-assertion src/rules/no-unnecessary-type-assertion.ts"),
        "Searching no-unnecessary-type-assertion.ts"
    );
}

#[test]
fn format_parallel_summary_joins_and_caps() {
    let summaries = vec![
        "Searching a.ts".to_string(),
        "Reading lines 1–2 of b.ts".to_string(),
        "Viewing issue #1".to_string(),
        "Listing directory".to_string(),
    ];
    let out = format_parallel_summary(&summaries);
    assert!(out.starts_with("Parallel: "));
    assert!(out.contains(" · "));
    assert!(out.contains("+1 more"));
}

#[test]
fn activity_dedupe_key_normalizes() {
    let a = activity_dedupe_key("  GIT   status  ");
    let b = activity_dedupe_key("git status");
    assert_eq!(a, b);
}

#[test]
fn should_parse_commit_hash_only_for_commit_ops() {
    assert!(should_parse_commit_hash("git commit -m msg"));
    assert!(should_parse_commit_hash("git push origin main"));
    assert!(!should_parse_commit_hash("git log --oneline -5"));
}

#[test]
fn parse_gh_issue_post_pushes_activity() {
    let mut s = Session::new("t".into(), "/tmp".into(), None, 0);
    let json = r#"{"number":8737,"title":"Bug report","state":"closed"}"#;
    parse_gh_issue_post(&mut s, json, 1);
    assert_eq!(s.recent_activity.len(), 1);
    assert!(s.recent_activity[0].summary.contains("Issue #8737"));
    assert!(s.recent_activity[0].summary.contains("closed"));
}

#[test]
fn parse_rg_post_counts_matches() {
    let mut s = Session::new("t".into(), "/tmp".into(), None, 0);
    let out = "src/a.ts:10: match one\nsrc/a.ts:20: match two\n";
    parse_rg_post(&mut s, out, 1);
    assert_eq!(s.recent_activity.len(), 1);
    assert!(s.recent_activity[0].summary.contains("2 matches"));
}

#[test]
fn parse_commit_hash_from_log_output_denied() {
    let log_out = "a1b2c3d Fix something\n";
    assert!(parse_commit_hash(log_out).is_some());
    assert!(!should_parse_commit_hash("git log --oneline"));
}

#[test]
fn format_parallel_summary_exact_text() {
    let summaries = vec![
        "Searching a.ts".to_string(),
        "Reading lines 1–2 of b.ts".to_string(),
        "Viewing issue #1".to_string(),
        "Listing directory".to_string(),
    ];
    assert_eq!(
        format_parallel_summary(&summaries),
        "Parallel: Searching a.ts · Reading lines 1–2 of b.ts · Viewing issue #1 · +1 more"
    );
    assert_eq!(format_parallel_summary(&["A".to_string(), "B".to_string()]), "Parallel: A · B");
}

#[test]
fn format_parallel_summary_caps_at_120_chars() {
    let long = "x".repeat(200);
    let out = format_parallel_summary(&[long.clone(), long]);
    assert_eq!(out.chars().count(), 120);
    assert!(out.ends_with('…'));
}

#[test]
fn activity_dedupe_key_exact() {
    assert_eq!(activity_dedupe_key("  GIT   status  "), "git status");
}

#[test]
fn push_activity_bumps_repeat_in_same_turn() {
    let mut s = Session::new("t".into(), "/tmp".into(), None, 0);
    s.last_turn_id = "turn-1".to_string();
    s.push_activity_with_kind("Reading a.ts".to_string(), 5, ActivityKind::Normal, "turn-1");
    s.push_activity_with_kind("Reading a.ts".to_string(), 6, ActivityKind::Normal, "turn-1");
    assert_eq!(s.recent_activity.len(), 1);
    assert_eq!(s.recent_activity[0].count, 2);
    assert_eq!(s.recent_activity[0].seq, 1);
    // Another turn: the repeat is dropped, not counted.
    s.push_activity_with_kind("Reading a.ts".to_string(), 7, ActivityKind::Normal, "turn-2");
    assert_eq!(s.recent_activity.len(), 1);
    assert_eq!(s.recent_activity[0].count, 2);
}

#[test]
fn push_activity_keeps_eight_newest_first() {
    let mut s = Session::new("t".into(), "/tmp".into(), None, 0);
    for i in 0..10u64 {
        s.push_activity_with_kind(format!("line {i}"), i, ActivityKind::Normal, "");
    }
    assert_eq!(s.recent_activity.len(), 8);
    assert_eq!(s.recent_activity[0].summary, "line 9");
    assert_eq!(s.recent_activity[0].seq, 10);
    assert_eq!(s.recent_activity[7].summary, "line 2");
    // Empty summaries are ignored.
    s.push_activity_with_kind(String::new(), 11, ActivityKind::Normal, "");
    assert_eq!(s.recent_activity[0].summary, "line 9");
}

#[test]
fn session_new_starts_working() {
    let s = Session::new("abc".into(), "/home/me/proj/".into(), Some(7), 42);
    assert_eq!(s.id, "abc");
    assert_eq!(s.project, "proj");
    assert_eq!(s.app, App::Codex);
    assert_eq!(s.status, Status::Working);
    assert_eq!(s.current_action, "Thinking…");
    assert_eq!(s.started_at_ms, 42);
    assert_eq!(s.last_event_at_ms, 42);
    assert_eq!(s.parent_pid, Some(7));
}

#[test]
fn project_basename_cases() {
    assert_eq!(project_basename("/a/b/c"), "c");
    assert_eq!(project_basename("/a/b/./"), "b");
    assert_eq!(project_basename("/a/.."), "/a/..");
    assert_eq!(project_basename(""), "");
    assert_eq!(project_basename("/"), "/");
    assert_eq!(project_basename("C:\\Users\\me\\proj"), "proj");
    assert_eq!(project_basename("C:/work/app/"), "app");
    assert_eq!(project_basename("C:\\"), "C:\\");
    assert_eq!(project_basename("C:"), "C:");
    assert_eq!(project_basename("D:proj"), "proj");
}

#[test]
fn post_parsers_label_outputs() {
    let mut s = Session::new("t".into(), "/tmp".into(), None, 0);
    parse_git_log_post(&mut s, "abc1234 one\ndef5678 two\n", 1);
    assert_eq!(s.recent_activity.len(), 1);
    assert_eq!(s.recent_activity[0].kind, ActivityKind::Normal);
    let mut s2 = Session::new("t".into(), "/tmp".into(), None, 0);
    parse_gh_pr_post(
        &mut s2,
        r#"{"number":12,"headRefOid":"0123456789abcdef","labels":[]}"#,
        1,
    );
    assert!(s2.recent_activity[0].summary.starts_with("PR #12"));
    assert_eq!(s2.last_commit_hash.as_deref(), Some("01234567"));
    let mut s3 = Session::new("t".into(), "/tmp".into(), None, 0);
    parse_git_blame_post(&mut s3, "", 1);
    assert!(s3.recent_activity.is_empty());
}

#[test]
fn test_result_and_ansi() {
    let c: Vec<char> = "\u{1b}[32m12 passed\u{1b}[0m, 3 failed".chars().collect();
    let plain: String = strip_ansi(&c).into_iter().collect();
    assert_eq!(plain, "12 passed, 3 failed");
    assert_eq!(parse_test_result(&c), Some((12, 3)));
    let none: Vec<char> = "no tests here".chars().collect();
    assert_eq!(parse_test_result(&none), None);
}

#[test]
fn stripped_command_is_a_trimmed_piece_of_the_input() {
    let raw = "  cd /repo && timeout 30 bash -c \"npm test\"  ";
    let chars: Vec<char> = raw.chars().collect();
    let out: String = overlay_app::bash::strip_shell_noise(&chars).into_iter().collect();
    assert_eq!(out, "npm test");
    assert!(raw.contains(out.as_str()));
    assert_eq!(out.trim(), out);
}

#[test]
fn commit_hash_is_short_hex_from_the_output() {
    let out = "[main 1a2b3c4d5e]\n 1 file changed";
    let h = parse_commit_hash(out).expect("hash");
    assert_eq!(h, "1a2b3c4d");
    assert!(out.contains(h.as_str()));
    assert!((6..=8).contains(&h.len()) && h.chars().all(|c| c.is_ascii_hexdigit()));
}

#[test]
fn set_location_preamble_is_skipped() {
    assert_eq!(describe_bash("Set-Location C:\\repo; npm test"), describe_bash("npm test"));
    assert_eq!(describe_bash("set-location ..; git status"), describe_bash("git status"));
}
