use overlay_app::apply::{apply, RawEvent};
use overlay_app::events::{extract_done_summary, humanize_tool, truncate_at_word_boundary};
use overlay_app::json::JsonValue;
use overlay_app::layout::{corner_origin, Corner};
use overlay_app::procs::{root_codex_pid, root_cursor_pid, ProcEntry};
use overlay_app::routing::SessionRouting;
use overlay_app::session::{App, Session, Status};
use overlay_app::ui::{acknowledge_done, focus_target, panel_top, remove_session, snapshot_order};

fn proc_entry(pid: u32, parent_pid: u32, name: &str) -> ProcEntry {
    ProcEntry { pid, parent_pid, name: name.to_string() }
}

fn chars(s: &str) -> Vec<char> {
    s.chars().collect()
}

fn text(v: Vec<char>) -> String {
    v.into_iter().collect()
}

#[test]
fn codex_root_walks_up_the_tree() {
    let procs = vec![
        proc_entry(10, 5, "node.exe"),
        proc_entry(5, 3, "CODEX.EXE"),
        proc_entry(3, 0, "explorer.exe"),
        proc_entry(70, 1, "openai-codex-helper.exe"),
    ];
    assert_eq!(root_codex_pid(&procs, 10), Some(5));
    // Missing from the table: no answer at all.
    assert_eq!(root_codex_pid(&procs, 999), None);
    // Reaching the top falls back to any process named like the app.
    assert_eq!(root_codex_pid(&procs, 3), Some(5));
}

#[test]
fn cursor_root_falls_back_to_name_search() {
    let procs = vec![proc_entry(8, 0, "bash.exe"), proc_entry(44, 2, "Cursor Helper (GPU).exe")];
    assert_eq!(root_cursor_pid(&procs, 8), Some(44));
    let with_exe = vec![proc_entry(8, 9, "bash.exe"), proc_entry(9, 0, "cursor.exe")];
    assert_eq!(root_cursor_pid(&with_exe, 8), Some(9));
    assert_eq!(root_cursor_pid(&[proc_entry(1, 0, "init")], 1), None);
}

#[test]
fn corner_positions() {
    assert_eq!(Corner::default(), Corner::Tr);
    assert_eq!(corner_origin(Corner::Tl, 0, 0, 1920, 1080, 380, 52, 24), (24, 24));
    assert_eq!(corner_origin(Corner::Tr, 0, 0, 1920, 1080, 380, 52, 24), (1516, 24));
    assert_eq!(corner_origin(Corner::Bl, -1920, 0, 1920, 1080, 380, 52, 24), (-1896, 1004));
    assert_eq!(corner_origin(Corner::Br, 0, 0, 1920, 1080, 380, 52, 24), (1516, 1004));
}

#[test]
fn panel_top_anchors_bottom() {
    assert_eq!(panel_top(true, 100, 60, 300), -140);
    assert_eq!(panel_top(false, 100, 60, 300), 100);
}

fn session(id: &str, app: App, pid: Option<u32>, ts: u64) -> Session {
    let mut s = Session::new(id.into(), "/w".into(), pid, ts);
    s.app = app;
    s
}

#[test]
fn focus_target_picks_named_or_latest() {
    let map = vec![
        session("a", App::Codex, Some(11), 5),
        session("b", App::Cursor, Some(22), 9),
        session("c", App::Codex, None, 50),
        session("d", App::Cursor, Some(33), 7),
    ];
    assert_eq!(focus_target(&map, Some("a"), false), Some(11));
    assert_eq!(focus_target(&map, Some("c"), false), None);
    assert_eq!(focus_target(&map, Some("zz"), false), None);
    assert_eq!(focus_target(&map, None, false), Some(22));
    assert_eq!(focus_target(&map, None, true), Some(22));
    let codex_only = vec![session("a", App::Codex, Some(11), 5)];
    assert_eq!(focus_target(&codex_only, None, true), None);
}

#[test]
fn acknowledge_only_done_sessions() {
    let mut map = vec![session("a", App::Codex, None, 1), session("b", App::Codex, None, 2)];
    map[1].status = Status::Done;
    acknowledge_done(&mut map, "a");
    assert!(!map[0].acknowledged_done);
    acknowledge_done(&mut map, "b");
    assert!(map[1].acknowledged_done);
}

#[test]
fn remove_session_drops_session_and_link() {
    let mut map = vec![session("a", App::Codex, None, 1), session("b", App::Codex, None, 2)];
    let mut routing = SessionRouting::default();
    routing.link_child("a", "b");
    remove_session(&mut map, &mut routing, "a");
    assert_eq!(map.len(), 1);
    assert_eq!(map[0].id, "b");
    assert!(routing.child_to_parent.is_empty());
    remove_session(&mut map, &mut routing, "missing");
    assert_eq!(map.len(), 1);
}

#[test]
fn snapshot_order_most_recent_first() {
    let map = vec![
        session("a", App::Codex, None, 5),
        session("b", App::Codex, None, 9),
        session("c", App::Codex, None, 1),
        session("d", App::Codex, None, 9),
    ];
    let order = snapshot_order(&map);
    let ts: Vec<u64> = order.iter().map(|&i| map[i].last_event_at_ms).collect();
    assert_eq!(ts, vec![9, 9, 5, 1]);
    let mut sorted = order.clone();
    sorted.sort();
    assert_eq!(sorted, vec![0, 1, 2, 3]);
}

#[test]
fn done_summary_is_cut_at_a_word() {
    let msg = format!("{} tail", "word ".repeat(30));
    let out = text(extract_done_summary(&chars(&msg)));
    assert!(out.ends_with('…'));
    assert!(out.chars().count() <= 101);
    assert_eq!(text(extract_done_summary(&chars("   \n  "))), "");
    assert_eq!(text(truncate_at_word_boundary(&chars("short"), 100)), "short");
    assert_eq!(text(truncate_at_word_boundary(&chars("abcdefghij"), 5)), "abcd…");
}

#[test]
fn mcp_tool_names_are_humanized() {
    assert_eq!(text(humanize_tool(&chars("mcp__github__create_issue"))), "github · create_issue");
    assert_eq!(text(humanize_tool(&chars("Read"))), "Read");
}

#[test]
fn apply_then_acknowledge_flow() {
    let mut map: Vec<Session> = Vec::new();
    let p = JsonValue::Object(vec![("session_id".to_string(), JsonValue::Str("s".to_string()))]);
    apply(&mut map, RawEvent { event: "Stop".into(), payload: p, ts: 3, hook_pid: None, parent_pid: None });
    acknowledge_done(&mut map, "s");
    assert!(map[0].acknowledged_done);
}
