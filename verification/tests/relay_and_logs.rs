use overlay_app::json::JsonValue;
use overlay_app::log_lines::{
    activity_kind_str, app_str, extract_ai_tool, extract_post_tool_result, logging_enabled,
    normalize_event_name, session_line, status_str, trunc,
};
use overlay_app::relay::{envelope, event_name, hook_payload, strip_hook_stdin};
use overlay_app::session::{ActivityKind, App, Session, Status};

fn s(v: &str) -> JsonValue {
    JsonValue::Str(v.to_string())
}

fn obj(pairs: Vec<(&str, JsonValue)>) -> JsonValue {
    JsonValue::Object(pairs.into_iter().map(|(k, v)| (k.to_string(), v)).collect())
}

fn text<'a>(v: &'a JsonValue, key: &str) -> Option<&'a str> {
    v.get(key).and_then(|x| x.as_str()).map(|x| x.as_str())
}

#[test]
fn strips_utf8_bom_before_parse() {
    let raw = "\u{FEFF}{\"hook_event_name\":\"preToolUse\",\"conversation_id\":\"x\"}";
    let v: serde_json::Value = serde_json::from_str(&strip_hook_stdin(raw)).expect("parse");
    assert_eq!(v.get("hook_event_name").and_then(|x| x.as_str()), Some("preToolUse"));
}

#[test]
fn strip_hook_stdin_cases() {
    assert_eq!(strip_hook_stdin("  {}\n"), "{}");
    assert_eq!(strip_hook_stdin("\u{FEFF}\u{FEFF}{}"), "{}");
    assert_eq!(strip_hook_stdin(" \u{FEFF} {}"), " {}");
    assert_eq!(strip_hook_stdin(""), "");
}

#[test]
fn event_name_prefers_argument() {
    let doc = obj(vec![("hook_event_name", s("stop"))]);
    assert_eq!(event_name(Some("Stop".to_string()), Some(&doc)), "Stop");
    assert_eq!(event_name(Some(String::new()), Some(&doc)), "stop");
    assert_eq!(event_name(None, None), "unknown");
    assert_eq!(event_name(None, Some(&obj(vec![("hook_event_name", JsonValue::Bool(true))]))), "unknown");
}

#[test]
fn hook_payload_cases() {
    assert!(matches!(hook_payload("", None), JsonValue::Null));
    assert!(matches!(hook_payload("not json", None), JsonValue::Str(t) if t == "not json"));
    assert!(matches!(hook_payload("{}", Some(obj(vec![]))), JsonValue::Object(f) if f.is_empty()));
}

#[test]
fn envelope_fields() {
    let e = envelope("Stop", JsonValue::Null, 1700000000123, 42, 7);
    assert_eq!(text(&e, "event"), Some("Stop"));
    assert!(matches!(e.get("ts"), Some(JsonValue::Number(n)) if n == "1700000000123"));
    assert!(matches!(e.get("hook_pid"), Some(JsonValue::Number(n)) if n == "42"));
    assert!(matches!(e.get("parent_pid"), Some(JsonValue::Number(n)) if n == "7"));
    assert!(matches!(e.get("payload"), Some(JsonValue::Null)));
}

#[test]
fn enabled_defaults_on_opt_out_with_zero() {
    assert!(logging_enabled(None));
    assert!(!logging_enabled(Some("0")));
    assert!(!logging_enabled(Some("false")));
}

#[test]
fn logging_enabled_defaults_on() {
    assert!(logging_enabled(None));
    assert!(logging_enabled(Some("")));
    assert!(logging_enabled(Some("1")));
    assert!(!logging_enabled(Some("0")));
    assert!(!logging_enabled(Some("FaLsE")));
}

#[test]
fn trunc_appends_ellipsis() {
    assert_eq!(trunc("abc", 3), "abc");
    assert_eq!(trunc("abcd", 3), "abc…");
}

#[test]
fn normalize_event_name_cases() {
    let p = obj(vec![("hook_event_name", s("preToolUse"))]);
    assert_eq!(normalize_event_name("UNKNOWN", &p), "preToolUse");
    assert_eq!(normalize_event_name("unknown", &obj(vec![])), "unknown");
    assert_eq!(normalize_event_name("stop", &p), "stop");
}

#[test]
fn extract_ai_tool_shell() {
    let p = obj(vec![
        ("tool_name", s("Shell")),
        ("tool_input", obj(vec![("command", s("git status")), ("cwd", s("/proj"))])),
    ]);
    let v = extract_ai_tool(&p);
    assert_eq!(text(&v, "tool"), Some("Shell"));
    assert_eq!(text(&v, "command"), Some("git status"));
}

#[test]
fn extract_ai_tool_powershell() {
    let p = obj(vec![
        ("tool_name", s("PowerShell")),
        ("tool_input", obj(vec![("command", s("Get-ChildItem -Recurse")), ("cwd", s("C:\\proj"))])),
    ]);
    let v = extract_ai_tool(&p);
    assert_eq!(text(&v, "tool"), Some("PowerShell"));
    assert_eq!(text(&v, "command"), Some("Get-ChildItem -Recurse"));
    assert_eq!(text(&v, "cwd"), Some("C:\\proj"));
}

#[test]
fn extract_ai_tool_other_kinds() {
    let read = obj(vec![("tool_name", s("Read")), ("tool_input", obj(vec![("path", s("a.rs"))]))]);
    assert_eq!(text(&extract_ai_tool(&read), "path"), Some("a.rs"));
    let task = obj(vec![
        ("tool_name", s("Task")),
        ("tool_input", obj(vec![("prompt", s(&"p".repeat(250))), ("run_in_background", JsonValue::Bool(true))])),
    ]);
    let t = extract_ai_tool(&task);
    assert_eq!(text(&t, "tool"), Some("Task"));
    assert_eq!(text(&t, "prompt_preview").map(|x| x.chars().count()), Some(201));
    assert!(matches!(t.get("run_in_background"), Some(JsonValue::Bool(true))));
    assert!(matches!(t.get("description"), Some(JsonValue::Null)));
    let other = obj(vec![("tool_name", s("Mystery"))]);
    assert_eq!(text(&extract_ai_tool(&other), "tool"), Some("Mystery"));
    assert!(matches!(extract_ai_tool(&obj(vec![])), JsonValue::Null));
}

#[test]
fn post_tool_result_reads_exit_code() {
    let p = obj(vec![("tool_name", s("Shell")), ("tool_response", s("{\"exitCode\":-2}"))]);
    let parsed = obj(vec![("exitCode", JsonValue::Number("-2".to_string()))]);
    let v = extract_post_tool_result(&p, Some(&parsed));
    assert!(matches!(v.get("exit_code"), Some(JsonValue::Number(n)) if n == "-2"));
    assert_eq!(text(&v, "response_preview"), Some("{\"exitCode\":-2}"));
    let float = obj(vec![("exitCode", JsonValue::Number("1.5".to_string()))]);
    assert!(extract_post_tool_result(&p, Some(&float)).get("exit_code").is_none());
    assert!(matches!(extract_post_tool_result(&obj(vec![]), None), JsonValue::Null));
}

#[test]
fn session_line_keeps_five_newest() {
    let mut sess = Session::new("id1".into(), "/w/proj".into(), None, 0);
    for i in 0..7u64 {
        sess.push_activity_with_kind(format!("step {i}"), i, ActivityKind::Success, "");
    }
    let line = session_line(&sess);
    assert_eq!(line.id, "id1");
    assert_eq!(line.app, "codex");
    assert_eq!(line.project, "proj");
    assert_eq!(line.status, "working");
    assert_eq!(line.recent_activity.len(), 5);
    assert_eq!(line.recent_activity[0].summary, "step 6");
    assert_eq!(line.recent_activity[0].kind, "success");
    assert_eq!(status_str(Status::Errored), "errored");
    assert_eq!(activity_kind_str(ActivityKind::Failure), "failure");
    assert_eq!(app_str(App::Claude), "claude_code");
}
