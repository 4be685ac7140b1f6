use overlay_app::apply::{apply, RawEvent};
use overlay_app::json::JsonValue;
use overlay_app::session::{ActivityKind, DiffStat, Session, Status};

fn s(v: &str) -> JsonValue {
    JsonValue::Str(v.to_string())
}

fn obj(pairs: Vec<(&str, JsonValue)>) -> JsonValue {
    JsonValue::Object(pairs.into_iter().map(|(k, v)| (k.to_string(), v)).collect())
}

fn event(name: &str, payload: JsonValue, ts: u64) -> RawEvent {
    RawEvent { event: name.to_string(), payload, ts, hook_pid: None, parent_pid: Some(99) }
}

fn find<'a>(map: &'a [Session], id: &str) -> &'a Session {
    map.iter().find(|x| x.id == id).expect("session")
}

#[test]
fn event_without_session_id_changes_nothing() {
    let mut map: Vec<Session> = Vec::new();
    let r = apply(&mut map, event("SessionStart", obj(vec![("cwd", s("/p"))]), 1));
    assert_eq!(r, None);
    assert!(map.is_empty());
    let r = apply(&mut map, event("SessionStart", obj(vec![("session_id", s(""))]), 1));
    assert_eq!(r, None);
    assert!(map.is_empty());
}

#[test]
fn session_start_creates_session() {
    let mut map: Vec<Session> = Vec::new();
    let r = apply(
        &mut map,
        event("SessionStart", obj(vec![("session_id", s("a")), ("cwd", s("/work/app")), ("model", s("gpt"))]), 10),
    );
    assert_eq!(r.as_deref(), Some("a"));
    assert_eq!(map.len(), 1);
    let x = &map[0];
    assert_eq!(x.id, "a");
    assert_eq!(x.project, "app");
    assert_eq!(x.cwd, "/work/app");
    assert_eq!(x.model, "gpt");
    assert_eq!(x.status, Status::Working);
    assert_eq!(x.current_action, "Thinking…");
    assert_eq!(x.parent_pid, Some(99));
    assert_eq!(x.started_at_ms, 10);
}

#[test]
fn prompt_is_trimmed_and_kept() {
    let mut map: Vec<Session> = Vec::new();
    apply(&mut map, event("UserPromptSubmit", obj(vec![("session_id", s("a")), ("prompt", s("  fix the bug  "))]), 5));
    assert_eq!(map[0].last_prompt, "fix the bug");
    let long = "y".repeat(5000);
    apply(&mut map, event("UserPromptSubmit", obj(vec![("session_id", s("a")), ("prompt", s(&long))]), 6));
    assert_eq!(map[0].last_prompt.chars().count(), 4000);
    assert!(map[0].last_prompt.ends_with('…'));
}

#[test]
fn prompt_from_nested_object_and_fallback() {
    let mut map: Vec<Session> = Vec::new();
    apply(
        &mut map,
        event("UserPromptSubmit", obj(vec![("session_id", s("a")), ("input", obj(vec![("text", s("nested"))]))]), 5),
    );
    assert_eq!(map[0].last_prompt, "nested");
    apply(
        &mut map,
        event("UserPromptSubmit", obj(vec![("session_id", s("a")), ("cwd", s("/a/very/long/dir")), ("body", s("hello there"))]), 6),
    );
    assert_eq!(map[0].last_prompt, "hello there");
}

#[test]
fn pre_tool_use_labels_and_buffers() {
    let mut map: Vec<Session> = Vec::new();
    let pre = |cmd: &str, turn: &str| {
        obj(vec![
            ("session_id", s("a")),
            ("tool_name", s("Bash")),
            ("tool_input", obj(vec![("command", s(cmd))])),
            ("turn_id", s(turn)),
        ])
    };
    apply(&mut map, event("PreToolUse", pre("git log -S foo --oneline", "t1"), 1));
    assert_eq!(map[0].current_action, "Searching git history");
    assert_eq!(map[0].last_bash_command, "git log -S foo --oneline");
    assert_eq!(map[0].turn_activity_entries.len(), 1);
    // Same command again in the turn: deduplicated.
    apply(&mut map, event("PreToolUse", pre("git   log -S foo --oneline", "t1"), 2));
    assert_eq!(map[0].turn_activity_entries.len(), 1);
    // A call of another turn flushes the buffer into the feed.
    apply(&mut map, event("PreToolUse", pre("ls", "t2"), 3));
    assert_eq!(map[0].recent_activity.len(), 1);
    assert_eq!(map[0].recent_activity[0].summary, "Searching git history");
    assert_eq!(map[0].turn_activity_turn_id, "t2");
}

#[test]
fn parallel_calls_flush_as_one_line() {
    let mut map: Vec<Session> = Vec::new();
    for (i, tool) in ["mcp__github__search", "mcp__fs__read"].iter().enumerate() {
        apply(
            &mut map,
            event("PreToolUse", obj(vec![("session_id", s("a")), ("tool_name", s(tool)), ("turn_id", s("t"))]), i as u64),
        );
    }
    assert_eq!(map[0].current_action, "Calling tool: fs · read");
    apply(&mut map, event("PostToolUse", obj(vec![("session_id", s("a")), ("tool_name", s("mcp__fs__read"))]), 9));
    assert_eq!(
        map[0].recent_activity[0].summary,
        "Parallel: Calling tool: github · search · Calling tool: fs · read"
    );
    assert_eq!(map[0].current_action, "Thinking…");
    assert!(map[0].turn_activity_entries.is_empty());
}

#[test]
fn post_tool_use_reads_test_results_and_commit() {
    let mut map: Vec<Session> = Vec::new();
    apply(
        &mut map,
        event(
            "PreToolUse",
            obj(vec![("session_id", s("a")), ("tool_name", s("Bash")), ("tool_input", obj(vec![("command", s("git commit -m x"))]))]),
            1,
        ),
    );
    apply(
        &mut map,
        event(
            "PostToolUse",
            obj(vec![("session_id", s("a")), ("tool_name", s("Bash")), ("tool_response", s("[main 1a2b3c4d]\n 3 passed"))]),
            2,
        ),
    );
    let x = &map[0];
    assert_eq!(x.last_commit_hash.as_deref(), Some("1a2b3c4d"));
    assert_eq!(x.recent_activity[0].summary, "3 tests passed");
    assert_eq!(x.recent_activity[0].kind, ActivityKind::Success);
}

#[test]
fn failed_tests_are_marked_failure() {
    let mut map: Vec<Session> = Vec::new();
    apply(
        &mut map,
        event(
            "PostToolUse",
            obj(vec![("session_id", s("a")), ("tool_name", s("Bash")), ("tool_response", s("10 passed, 2 failed"))]),
            2,
        ),
    );
    assert_eq!(map[0].recent_activity[0].summary, "2 tests failed");
    assert_eq!(map[0].recent_activity[0].kind, ActivityKind::Failure);
}

#[test]
fn apply_patch_counts_lines_per_file() {
    let mut map: Vec<Session> = Vec::new();
    let patch = "*** Begin Patch\n*** Update File: src/b.rs\n+x\n+y\n-z\n*** Add File: src/a.rs\n+new\n+++ not counted\n*** End Patch";
    let p = || obj(vec![("session_id", s("a")), ("tool_name", s("apply_patch")), ("tool_input", obj(vec![("command", s(patch))]))]);
    apply(&mut map, event("PreToolUse", p(), 1));
    assert_eq!(map[0].current_action, "Editing src/b.rs");
    apply(&mut map, event("PostToolUse", p(), 2));
    let files = &map[0].files_edited;
    assert_eq!(files.len(), 2);
    assert_eq!(files[0].0, "src/a.rs");
    assert_eq!(files[0].1, DiffStat { adds: 1, dels: 0 });
    assert_eq!(files[1].0, "src/b.rs");
    assert_eq!(files[1].1, DiffStat { adds: 2, dels: 1 });
}

#[test]
fn stop_marks_done_with_summary() {
    let mut map: Vec<Session> = Vec::new();
    apply(&mut map, event("SessionStart", obj(vec![("session_id", s("a"))]), 1));
    apply(
        &mut map,
        event(
            "Stop",
            obj(vec![("session_id", s("a")), ("last_assistant_message", s("\n\n  Fixed the parser.  \nMore details here."))]),
            5,
        ),
    );
    let x = &map[0];
    assert_eq!(x.status, Status::Done);
    assert_eq!(x.done_summary.as_deref(), Some("Fixed the parser."));
    assert_eq!(x.current_action, "Fixed the parser.");
    apply(&mut map, event("Stop", obj(vec![("session_id", s("a"))]), 6));
    assert_eq!(map[0].current_action, "Done");
}

#[test]
fn only_the_named_session_changes() {
    let mut map: Vec<Session> = Vec::new();
    apply(&mut map, event("SessionStart", obj(vec![("session_id", s("a"))]), 1));
    apply(&mut map, event("SessionStart", obj(vec![("session_id", s("b"))]), 2));
    apply(&mut map, event("Stop", obj(vec![("session_id", s("b"))]), 3));
    assert_eq!(map.len(), 2);
    assert_eq!(find(&map, "a").status, Status::Working);
    assert_eq!(find(&map, "a").last_event_at_ms, 1);
    assert_eq!(find(&map, "b").status, Status::Done);
    // The unknown event is a heartbeat for its session.
    apply(&mut map, event("Whatever", obj(vec![("session_id", s("a"))]), 9));
    assert_eq!(find(&map, "a").last_event_at_ms, 9);
    assert_eq!(map.len(), 2);
}

#[test]
fn cursor_stop_uses_conversation_id() {
    let mut map: Vec<Session> = Vec::new();
    let r = apply(
        &mut map,
        event("stop", obj(vec![("conversation_id", s("c1")), ("hook_event_name", s("stop")), ("status", s("completed"))]), 7),
    );
    assert_eq!(r.as_deref(), Some("c1"));
    assert_eq!(find(&map, "c1").status, Status::Done);
}

#[test]
fn cursor_payload_fields_are_read() {
    let mut map: Vec<Session> = Vec::new();
    let roots = JsonValue::Array(vec![s("C:\\code\\shop")]);
    apply(&mut map, event("sessionStart", obj(vec![("conversation_id", s("c2")), ("workspace_roots", roots)]), 1));
    let x = find(&map, "c2");
    assert_eq!(x.project, "shop");
    assert_eq!(x.status, Status::Working);
    apply(
        &mut map,
        event("beforeSubmitPrompt", obj(vec![("conversation_id", s("c2")), ("prompt", s("add tests"))]), 2),
    );
    assert_eq!(find(&map, "c2").last_prompt, "add tests");
    let input = obj(vec![("command", s("git status"))]);
    apply(
        &mut map,
        event(
            "preToolUse",
            obj(vec![
                ("conversation_id", s("c2")),
                ("tool_name", s("Shell")),
                ("tool_input", input),
                ("generation_id", s("g1")),
            ]),
            3,
        ),
    );
    let x = find(&map, "c2");
    assert_eq!(x.last_bash_command, "git status");
    assert_eq!(x.last_turn_id, "g1");
    apply(
        &mut map,
        event(
            "postToolUse",
            obj(vec![
                ("conversation_id", s("c2")),
                ("tool_name", s("Shell")),
                ("tool_output", s(" 3 passed")),
            ]),
            4,
        ),
    );
    let x = find(&map, "c2");
    assert!(x.recent_activity.iter().any(|a| a.summary == "3 tests passed"));
    apply(&mut map, event("sessionEnd", obj(vec![("conversation_id", s("c2"))]), 5));
    assert_eq!(find(&map, "c2").status, Status::Done);
}

#[test]
fn cursor_after_file_edit_counts_lines() {
    let mut map: Vec<Session> = Vec::new();
    let edit = obj(vec![("old_string", s("a\nb")), ("new_string", s("a\nb\nc"))]);
    apply(
        &mut map,
        event(
            "afterFileEdit",
            obj(vec![("conversation_id", s("c3")), ("file_path", s("src/a.ts")), ("edits", JsonValue::Array(vec![edit]))]),
            1,
        ),
    );
    let x = find(&map, "c3");
    assert_eq!(x.files_edited.len(), 1);
    assert_eq!(x.files_edited[0].0, "src/a.ts");
    assert_eq!(x.files_edited[0].1, DiffStat { adds: 3, dels: 2 });
}

#[test]
fn subagents_keep_the_parent_working() {
    let mut map: Vec<Session> = Vec::new();
    apply(&mut map, event("PreToolUse", obj(vec![("session_id", s("p")), ("tool_name", s("Task"))]), 1));
    apply(&mut map, event("subagentStart", obj(vec![("conversation_id", s("p"))]), 2));
    assert_eq!(find(&map, "p").status, Status::Working);
    apply(&mut map, event("subagentStop", obj(vec![("conversation_id", s("p"))]), 3));
    assert_eq!(find(&map, "p").status, Status::Working);
    apply(&mut map, event("stop", obj(vec![("conversation_id", s("p"))]), 4));
    assert_eq!(find(&map, "p").status, Status::Done);
}
