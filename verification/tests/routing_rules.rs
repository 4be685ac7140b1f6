use overlay_app::json::JsonValue;
use overlay_app::routing::SessionRouting;
use overlay_app::session::Session;

fn routing() -> SessionRouting {
    SessionRouting::default()
}

fn parent_of(r: &SessionRouting, child: &str) -> Option<String> {
    r.child_to_parent.iter().find(|(c, _)| c == child).map(|(_, p)| p.clone())
}

#[test]
fn link_child_ignores_degenerate_links() {
    let mut r = routing();
    r.link_child("", "p");
    r.link_child("c", "");
    r.link_child("c", "c");
    assert!(r.child_to_parent.is_empty());
    r.link_child("c", "p");
    assert_eq!(parent_of(&r, "c").as_deref(), Some("p"));
    r.link_child("c", "q");
    assert_eq!(parent_of(&r, "c").as_deref(), Some("q"));
    assert_eq!(r.child_to_parent.len(), 1);
}

#[test]
fn resolve_root_follows_links() {
    let mut r = routing();
    r.link_child("c", "b");
    r.link_child("b", "a");
    assert_eq!(r.resolve_root("c"), "a");
    assert_eq!(r.resolve_root("b"), "a");
    assert_eq!(r.resolve_root("a"), "a");
    assert_eq!(r.resolve_root("zzz"), "zzz");
}

#[test]
fn resolve_root_stops_after_thirty_two_hops() {
    let mut r = routing();
    for i in 0..40 {
        r.link_child(&format!("n{}", i + 1), &format!("n{i}"));
    }
    assert_eq!(r.resolve_root("n40"), "n8");
    // A cycle ends where the hop budget runs out.
    let mut c = routing();
    c.link_child("x", "y");
    c.link_child("y", "x");
    assert_eq!(c.resolve_root("x"), "x");
}

#[test]
fn remove_child_undoes_link() {
    let mut r = routing();
    r.link_child("c", "p");
    r.remove_child("c");
    assert!(r.child_to_parent.is_empty());
    assert_eq!(r.resolve_root("c"), "c");
}

#[test]
fn spawn_window_and_orphan_link() {
    let mut r = routing();
    r.link_child("sub", "root");
    r.note_task_spawn("sub", 1_000);
    assert_eq!(r.spawn_window_until_ms, vec![("root".to_string(), 121_000)]);
    r.note_task_spawn("other", 5_000);
    assert_eq!(r.try_link_orphan_child("x", 100_000).as_deref(), Some("other"));
    assert_eq!(r.try_link_orphan_child("x", 122_000).as_deref(), Some("other"));
    assert_eq!(r.try_link_orphan_child("x", 126_000), None);
    r.note_task_spawn("late", u64::MAX - 5);
    assert_eq!(r.spawn_window_until_ms[2], ("late".to_string(), u64::MAX));
}

#[test]
fn prune_drops_quiet_children() {
    let mut r = routing();
    let mut parent = Session::new("p".into(), "/w".into(), None, 0);
    parent.active_child_conversations = vec!["fresh".into(), "quiet".into(), "never".into()];
    r.link_child("fresh", "p");
    r.link_child("quiet", "p");
    r.link_child("never", "p");
    r.touch_child("fresh", 95_000);
    r.touch_child("quiet", 70_000);
    assert!(r.prune_stale_children(&mut parent, 100_000));
    assert_eq!(parent.active_child_conversations, vec!["fresh".to_string()]);
    assert_eq!(parent_of(&r, "fresh").as_deref(), Some("p"));
    assert_eq!(parent_of(&r, "quiet"), None);
    assert_eq!(parent_of(&r, "never"), None);
    assert_eq!(r.child_last_event_ms, vec![("fresh".to_string(), 95_000)]);
    assert!(!r.prune_stale_children(&mut parent, 100_001));
}

#[test]
fn prune_keeps_child_at_exact_quiet_limit() {
    let mut r = routing();
    let mut parent = Session::new("p".into(), "/w".into(), None, 0);
    parent.active_child_conversations = vec!["c".into()];
    r.touch_child("c", 80_000);
    assert!(!r.prune_stale_children(&mut parent, 100_000));
    assert!(r.prune_stale_children(&mut parent, 100_001));
}

#[test]
fn resolve_parent_prefers_recorded_link() {
    let mut r = routing();
    r.link_child("child", "parent");
    let p = JsonValue::Object(vec![(
        "parent_conversation_id".to_string(),
        JsonValue::Str("other".to_string()),
    )]);
    assert_eq!(r.resolve_parent("child", &p), "parent");
    assert_eq!(r.resolve_parent("solo", &p), "other");
    let self_parent = JsonValue::Object(vec![(
        "parent_conversation_id".to_string(),
        JsonValue::Str("solo".to_string()),
    )]);
    assert_eq!(r.resolve_parent("solo", &self_parent), "solo");
    let by_session = JsonValue::Object(vec![("session_id".to_string(), JsonValue::Str("s1".to_string()))]);
    assert_eq!(r.resolve_parent("", &by_session), "s1");
}

#[test]
fn active_children_counts_live_sessions() {
    let mut r = routing();
    r.link_child("a", "p");
    r.link_child("b", "p");
    r.link_child("c", "q");
    let sessions = vec![
        Session::new("a".into(), "/w".into(), None, 0),
        Session::new("c".into(), "/w".into(), None, 0),
        Session::new("p".into(), "/w".into(), None, 0),
    ];
    assert_eq!(r.active_children("p", &sessions), 1);
    assert_eq!(r.active_children("q", &sessions), 1);
    assert_eq!(r.active_children("z", &sessions), 0);
}
