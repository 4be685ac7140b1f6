use overlay_app::claude_hooks;
use overlay_app::codex_hooks;
use overlay_app::cursor_hooks;
use overlay_app::hook_config::{build_command, is_managed_entry};
use overlay_app::json::JsonValue;

fn s(v: &str) -> JsonValue {
    JsonValue::Str(v.to_string())
}

fn obj(pairs: Vec<(&str, JsonValue)>) -> JsonValue {
    JsonValue::Object(pairs.into_iter().map(|(k, v)| (k.to_string(), v)).collect())
}

fn arr(items: Vec<JsonValue>) -> JsonValue {
    JsonValue::Array(items)
}

fn member<'a>(v: &'a JsonValue, key: &str) -> &'a JsonValue {
    v.get(key).unwrap_or_else(|| panic!("missing {key}"))
}

fn items(v: &JsonValue) -> &Vec<JsonValue> {
    match v {
        JsonValue::Array(a) => a,
        other => panic!("not an array: {other:?}"),
    }
}

#[test]
fn build_command_uses_forward_slashes() {
    assert_eq!(build_command("C:\\tools\\overlay-hook.exe"), "C:/tools/overlay-hook.exe");
    assert_eq!(build_command("/usr/bin/overlay-hook"), "/usr/bin/overlay-hook");
}

#[test]
fn claude_install_remove_roundtrip() {
    let doc = claude_hooks::install(claude_hooks::default_config(), "C:/tools/overlay-hook.exe");
    assert!(claude_hooks::is_installed(&doc));
    let hooks = member(&doc, "hooks");
    for ev in ["SessionStart", "StopFailure", "SubagentStop"] {
        let groups = items(member(hooks, ev));
        assert_eq!(groups.len(), 1);
        let handler = &items(member(&groups[0], "hooks"))[0];
        assert_eq!(member(handler, "command").as_str().map(|x| x.as_str()), Some("C:/tools/overlay-hook.exe"));
        assert!(matches!(member(handler, "async"), JsonValue::Bool(true)));
        assert!(is_managed_entry(handler));
    }
    let removed = claude_hooks::remove(doc).expect("has hooks");
    assert!(!claude_hooks::is_installed(&removed));
    match member(&removed, "hooks") {
        JsonValue::Object(f) => assert!(f.is_empty()),
        other => panic!("hooks: {other:?}"),
    }
}

#[test]
fn claude_preserves_user_hooks() {
    let user = || {
        obj(vec![(
            "hooks",
            obj(vec![(
                "Stop",
                arr(vec![obj(vec![
                    ("matcher", s(".*")),
                    ("hooks", arr(vec![obj(vec![("type", s("command")), ("command", s("./my-audit.sh"))])])),
                ])]),
            )]),
        )])
    };
    let doc = claude_hooks::install(user(), "C:/overlay-hook.exe");
    let stop = items(member(member(&doc, "hooks"), "Stop"));
    assert_eq!(stop.len(), 2);
    let user_hooks = items(member(&stop[0], "hooks"));
    assert_eq!(user_hooks.len(), 1);
    assert!(!is_managed_entry(&user_hooks[0]));
    assert!(is_managed_entry(&items(member(&stop[1], "hooks"))[0]));
    // Installing again does not add a second group of ours.
    let again = claude_hooks::install(doc, "C:/overlay-hook.exe");
    assert_eq!(items(member(member(&again, "hooks"), "Stop")).len(), 2);
    let removed = claude_hooks::remove(again).expect("has hooks");
    let stop = items(member(member(&removed, "hooks"), "Stop"));
    assert_eq!(stop.len(), 1);
    assert!(!is_managed_entry(&items(member(&stop[0], "hooks"))[0]));
    assert!(member(&removed, "hooks").get("SessionStart").is_none());
}

#[test]
fn claude_remove_without_hooks_writes_nothing() {
    assert!(claude_hooks::remove(obj(vec![("model", s("x"))])).is_none());
    assert!(claude_hooks::remove(JsonValue::Null).is_none());
    assert!(!claude_hooks::is_installed(&JsonValue::Null));
}

#[test]
fn claude_install_on_malformed_hooks_starts_over() {
    let doc = claude_hooks::install(obj(vec![("hooks", s("oops")), ("theme", s("dark"))]), "h");
    assert!(claude_hooks::is_installed(&doc));
    assert_eq!(member(&doc, "theme").as_str().map(|x| x.as_str()), Some("dark"));
    let from_null = claude_hooks::install(JsonValue::Null, "h");
    assert!(claude_hooks::is_installed(&from_null));
}

#[test]
fn cursor_install_remove_roundtrip() {
    let doc = cursor_hooks::install(cursor_hooks::default_config(), "C:/tools/overlay-hook.exe");
    assert!(cursor_hooks::is_installed(&doc));
    let hooks = member(&doc, "hooks");
    for ev in ["sessionStart", "afterFileEdit"] {
        let entries = items(member(hooks, ev));
        assert_eq!(entries.len(), 1);
        assert!(is_managed_entry(&entries[0]));
    }
    match member(&doc, "version") {
        JsonValue::Number(n) => assert_eq!(n, "1"),
        other => panic!("version: {other:?}"),
    }
    let removed = cursor_hooks::remove(doc).expect("has hooks");
    assert!(!cursor_hooks::is_installed(&removed));
}

#[test]
fn cursor_installs_every_listed_event() {
    let doc = cursor_hooks::install(cursor_hooks::default_config(), "h");
    let hooks = member(&doc, "hooks");
    let names = [
        "sessionStart",
        "sessionEnd",
        "stop",
        "preToolUse",
        "postToolUse",
        "beforeSubmitPrompt",
        "afterFileEdit",
        "subagentStart",
        "subagentStop",
    ];
    for ev in names {
        let entries = items(member(hooks, ev));
        assert_eq!(entries.len(), 1, "{ev}");
        assert!(is_managed_entry(&entries[0]));
    }
    match hooks {
        JsonValue::Object(fields) => assert_eq!(fields.len(), names.len()),
        other => panic!("hooks: {other:?}"),
    }
}

#[test]
fn cursor_preserves_user_hooks() {
    let user = obj(vec![
        ("version", JsonValue::Number("1".to_string())),
        ("hooks", obj(vec![("stop", arr(vec![obj(vec![("command", s("./my-audit.sh"))])]))])),
    ]);
    let doc = cursor_hooks::install(user, "C:/overlay-hook.exe");
    let stop = items(member(member(&doc, "hooks"), "stop"));
    assert_eq!(stop.len(), 2);
    assert!(!is_managed_entry(&stop[0]));
    assert!(is_managed_entry(&stop[1]));
    let removed = cursor_hooks::remove(doc).expect("has hooks");
    let stop = items(member(member(&removed, "hooks"), "stop"));
    assert_eq!(stop.len(), 1);
    assert!(!is_managed_entry(&stop[0]));
}

#[test]
fn cursor_adds_version_when_missing() {
    let doc = cursor_hooks::install(obj(vec![]), "h");
    assert!(matches!(member(&doc, "version"), JsonValue::Number(n) if n == "1"));
    let kept = cursor_hooks::install(obj(vec![("version", JsonValue::Number("2".to_string()))]), "h");
    assert!(matches!(member(&kept, "version"), JsonValue::Number(n) if n == "2"));
}

#[test]
fn managed_entries_are_recognised() {
    assert!(is_managed_entry(&obj(vec![("overlay_managed", JsonValue::Bool(true))])));
    assert!(!is_managed_entry(&obj(vec![("overlay_managed", JsonValue::Bool(false))])));
    assert!(is_managed_entry(&obj(vec![("command", s("D:/x/overlay-hook.exe --v"))])));
    assert!(!is_managed_entry(&obj(vec![("command", s("./audit.sh"))])));
    assert!(!is_managed_entry(&s("overlay-hook")));
}

#[test]
fn codex_install_remove_roundtrip() {
    let mut doc: toml_edit::DocumentMut = "model = \"o3\"\n".parse().unwrap();
    codex_hooks::install(&mut doc, "C:/tools/overlay-hook.exe");
    assert!(codex_hooks::is_installed(&doc));
    let text = doc.to_string();
    assert!(text.contains("overlay-hook"));
    assert!(text.contains("codex_hooks = true"));
    assert!(text.contains("model = \"o3\""));
    codex_hooks::remove(&mut doc);
    assert!(!codex_hooks::is_installed(&doc));
    assert!(!doc.to_string().contains("overlay-hook"));
}

#[test]
fn codex_preserves_user_hooks() {
    let user = "[[hooks.Stop]]\n[[hooks.Stop.hooks]]\ntype = \"command\"\ncommand = \"./my-audit.sh\"\n";
    let mut doc: toml_edit::DocumentMut = user.parse().unwrap();
    codex_hooks::install(&mut doc, "C:/overlay-hook.exe");
    codex_hooks::install(&mut doc, "C:/overlay-hook.exe");
    let stop = doc["hooks"]["Stop"].as_array_of_tables().unwrap();
    assert_eq!(stop.len(), 2);
    codex_hooks::remove(&mut doc);
    let stop = doc["hooks"]["Stop"].as_array_of_tables().unwrap();
    assert_eq!(stop.len(), 1);
    assert!(doc.to_string().contains("./my-audit.sh"));
    assert!(doc["hooks"].get("SessionStart").is_none());
}

#[test]
fn reinstalling_keeps_one_entry_per_event() {
    let once = claude_hooks::install(claude_hooks::default_config(), "C:/a/overlay-hook.exe");
    let twice = claude_hooks::install(once, "C:/b/overlay-hook.exe");
    let stop = items(member(member(&twice, "hooks"), "Stop"));
    assert_eq!(stop.len(), 1);
    let handlers = items(member(&stop[0], "hooks"));
    assert_eq!(handlers.len(), 1);
    assert!(matches!(member(&handlers[0], "command"), JsonValue::Str(c) if c == "C:/b/overlay-hook.exe"));

    let once = cursor_hooks::install(cursor_hooks::default_config(), "C:/a/overlay-hook.exe");
    let twice = cursor_hooks::install(once, "C:/b/overlay-hook.exe");
    let stop = items(member(member(&twice, "hooks"), "stop"));
    assert_eq!(stop.len(), 1);
    assert!(matches!(member(&stop[0], "command"), JsonValue::Str(c) if c == "C:/b/overlay-hook.exe"));
}

#[test]
fn removal_takes_only_marked_entries() {
    let unmarked = || obj(vec![("command", s("D:/old/overlay-hook.exe"))]);
    let doc = obj(vec![(
        "hooks",
        obj(vec![(
            "Stop",
            arr(vec![
                obj(vec![("matcher", s("plain"))]),
                obj(vec![("hooks", arr(vec![unmarked(), obj(vec![("overlay_managed", JsonValue::Bool(true))])]))]),
            ]),
        )]),
    )]);
    let removed = claude_hooks::remove(doc).expect("has hooks");
    let stop = items(member(member(&removed, "hooks"), "Stop"));
    assert_eq!(stop.len(), 2);
    assert!(stop[0].get("hooks").is_none());
    let left = items(member(&stop[1], "hooks"));
    assert_eq!(left.len(), 1);
    assert!(matches!(member(&left[0], "command"), JsonValue::Str(c) if c == "D:/old/overlay-hook.exe"));

    let cdoc = obj(vec![(
        "hooks",
        obj(vec![("stop", arr(vec![unmarked(), obj(vec![("overlay_managed", JsonValue::Bool(true))])]))]),
    )]);
    let removed = cursor_hooks::remove(cdoc).expect("has hooks");
    let stop = items(member(member(&removed, "hooks"), "stop"));
    assert_eq!(stop.len(), 1);
    assert!(matches!(member(&stop[0], "command"), JsonValue::Str(c) if c == "D:/old/overlay-hook.exe"));
}

#[test]
fn codex_install_writes_the_command() {
    let mut doc: toml_edit::DocumentMut = "[features]\nother = 1\n".parse().unwrap();
    codex_hooks::install(&mut doc, "C:/tools/overlay-hook.exe");
    for ev in ["SessionStart", "PreToolUse", "PostToolUse", "UserPromptSubmit", "Stop"] {
        let tables = doc["hooks"][ev].as_array_of_tables().unwrap();
        assert_eq!(tables.len(), 1);
        let t = tables.get(0).unwrap();
        assert_eq!(t.get("overlay_managed").and_then(|v| v.as_bool()), Some(true));
        let handlers = t.get("hooks").and_then(|v| v.as_array_of_tables()).unwrap();
        let h = handlers.get(0).unwrap();
        assert_eq!(h.get("type").and_then(|v| v.as_str()), Some("command"));
        assert_eq!(h.get("command").and_then(|v| v.as_str()), Some("C:/tools/overlay-hook.exe"));
    }
    assert_eq!(doc["features"]["codex_hooks"].as_bool(), Some(true));
    assert_eq!(doc["features"]["other"].as_integer(), Some(1));
}

#[test]
fn codex_config_text_round_trip() {
    let doc = codex_hooks::install_text("model = \"o3\"\n", "h").expect("valid toml");
    let text = doc.to_string();
    assert!(text.contains("model = \"o3\""));
    assert!(codex_hooks::is_installed_text(&text));
    let removed = codex_hooks::remove_text(&text).expect("valid toml");
    assert!(!codex_hooks::is_installed_text(&removed.to_string()));
    assert!(codex_hooks::install_text("not = = toml", "h").is_none());
    assert!(codex_hooks::remove_text("[[[").is_none());
    assert!(!codex_hooks::is_installed_text("[[["));
    let fresh = codex_hooks::install_text("", "h").expect("empty text");
    assert!(codex_hooks::is_installed(&fresh));
}
