//! Overlay hook entries in the `settings.json` of the agent whose hooks
//! nest: `hooks → EventName → [matcher groups] → { hooks: [...] }`. Only
//! entries we wrote are replaced or removed.
use vstd::prelude::*;
use crate::json::{
    Json, JsonValue, jv, jv_items, jv_fields, jget, jfield_index, lemma_jv_array, lemma_jv_object,
    lemma_jfield_index_bounds,
};
use crate::hook_config::{
    is_managed, is_managed_entry, is_marked, is_ours, unmanaged, not_ours, drop_ours, find_member, build_command,
    spec_build_command, json_text, jfind, lemma_jfield_index, lemma_jfield_first, lemma_jfind_update,
    lemma_jfind_push, lemma_jfind_remove, lemma_not_ours_none, lemma_not_ours_keeps_unmanaged, lemma_not_ours_all_kept, lemma_unique_update,
    lemma_unique_push,
};
use crate::assoc::keys_unique;

verus! {

broadcast use vstd::string::group_string_axioms;

/// Number of hook events the overlay listens to in this agent.
pub const CLAUDE_EVENT_COUNT: usize = 9;

/// The hook events the overlay listens to, in the order it installs them.
pub open spec fn claude_events() -> Seq<Seq<char>> {
    seq![
        "SessionStart"@,
        "SessionEnd"@,
        "UserPromptSubmit"@,
        "PreToolUse"@,
        "PostToolUse"@,
        "Stop"@,
        "StopFailure"@,
        "SubagentStart"@,
        "SubagentStop"@,
    ]
}

fn claude_event(i: usize) -> (r: &'static str)
    requires
        i < CLAUDE_EVENT_COUNT,
    ensures
        r@ == claude_events()[i as int],
{
    match i {
        0 => "SessionStart",
        1 => "SessionEnd",
        2 => "UserPromptSubmit",
        3 => "PreToolUse",
        4 => "PostToolUse",
        5 => "Stop",
        6 => "StopFailure",
        7 => "SubagentStart",
        _ => "SubagentStop",
    }
}

// ───────────────────────── reading ─────────────────────────

/// A matcher group that runs one of our handlers.
pub open spec fn group_has_managed(g: Json) -> bool {
    match jget(g, "hooks"@) {
        Some(Json::Array(hs)) => exists|i: int| 0 <= i < hs.len() && is_managed(#[trigger] hs[i]),
        _ => false,
    }
}

/// `hooks.<event>` is a list with one of our groups.
pub open spec fn has_managed_group(doc: Json, event: Seq<char>) -> bool {
    match jget(doc, "hooks"@) {
        Some(h) => match jget(h, event) {
            Some(Json::Array(gs)) => exists|i: int|
                0 <= i < gs.len() && group_has_managed(#[trigger] gs[i]),
            _ => false,
        },
        None => false,
    }
}

/// A matcher group with a handler marked as ours.
pub open spec fn group_has_marked(g: Json) -> bool {
    match jget(g, "hooks"@) {
        Some(Json::Array(hs)) => exists|i: int| 0 <= i < hs.len() && is_marked(#[trigger] hs[i]),
        _ => false,
    }
}

/// `hooks.<event>` is a list with a group that has a handler marked as ours.
pub open spec fn has_marked_group(doc: Json, event: Seq<char>) -> bool {
    match jget(doc, "hooks"@) {
        Some(h) => match jget(h, event) {
            Some(Json::Array(gs)) => exists|i: int|
                0 <= i < gs.len() && group_has_marked(#[trigger] gs[i]),
            _ => false,
        },
        None => false,
    }
}

/// Every event the overlay listens to has one of our groups.
pub open spec fn spec_is_installed(doc: Json) -> bool {
    forall|i: int| 0 <= i < claude_events().len() ==> has_managed_group(doc, #[trigger] claude_events()[i])
}

proof fn lemma_group_has_managed(g: Json, hs: Seq<Json>, j: int)
    requires
        jget(g, "hooks"@) == Some(Json::Array(hs)),
        0 <= j < hs.len(),
        is_managed(hs[j]),
    ensures
        group_has_managed(g),
{
    assert(match jget(g, "hooks"@) {
        Some(Json::Array(x)) => x == hs,
        _ => false,
    });
    assert(is_managed(hs[j]));
}

proof fn lemma_has_managed_group(doc: Json, h: Json, event: Seq<char>, gs: Seq<Json>, j: int)
    requires
        jget(doc, "hooks"@) == Some(h),
        jget(h, event) == Some(Json::Array(gs)),
        0 <= j < gs.len(),
        group_has_managed(gs[j]),
    ensures
        has_managed_group(doc, event),
{
    assert(match jget(h, event) {
        Some(Json::Array(x)) => x == gs,
        _ => false,
    });
    assert(group_has_managed(gs[j]));
}

fn group_has_managed_exec(g: &JsonValue) -> (r: bool)
    ensures
        r == group_has_managed(jv(*g)),
{
    match g.get("hooks") {
        Some(JsonValue::Array(hs)) => {
            proof {
                lemma_jv_array(*hs);
            }
            let mut i: usize = 0;
            while i < hs.len()
                invariant
                    i <= hs@.len(),
                    jget(jv(*g), "hooks"@) == Some(Json::Array(jv_items(hs@))),
                    forall|j: int| 0 <= j < i ==> !is_managed(#[trigger] jv_items(hs@)[j]),
                decreases hs.len() - i,
            {
                if is_managed_entry(&hs[i]) {
                    proof {
                        lemma_group_has_managed(jv(*g), jv_items(hs@), i as int);
                    }
                    return true;
                }
                i += 1;
            }
            false
        },
        Some(x) => {
            assert(!(jv(*x) is Array));
            false
        },
        None => false,
    }
}

fn has_managed_group_exec(doc: &JsonValue, event: &str) -> (r: bool)
    ensures
        r == has_managed_group(jv(*doc), event@),
{
    match doc.get("hooks") {
        Some(h) => match h.get(event) {
            Some(JsonValue::Array(gs)) => {
                proof {
                    lemma_jv_array(*gs);
                }
                let mut i: usize = 0;
                while i < gs.len()
                    invariant
                        i <= gs@.len(),
                        jget(jv(*doc), "hooks"@) == Some(jv(*h)),
                        jget(jv(*h), event@) == Some(Json::Array(jv_items(gs@))),
                        forall|j: int| 0 <= j < i ==> !group_has_managed(#[trigger] jv_items(gs@)[j]),
                    decreases gs.len() - i,
                {
                    if group_has_managed_exec(&gs[i]) {
                        proof {
                            lemma_has_managed_group(jv(*doc), jv(*h), event@, jv_items(gs@), i as int);
                        }
                        return true;
                    }
                    i += 1;
                }
                false
            },
            Some(x) => {
                assert(!(jv(*x) is Array));
                false
            },
            None => false,
        },
        None => false,
    }
}

/// Whether the overlay's hooks are in the settings document: every event
/// it listens to has one of our groups.
pub fn is_installed(doc: &JsonValue) -> (r: bool)
    ensures
        r == spec_is_installed(jv(*doc)),
{
    let mut i: usize = 0;
    while i < CLAUDE_EVENT_COUNT
        invariant
            i <= CLAUDE_EVENT_COUNT,
            forall|j: int| 0 <= j < i ==> has_managed_group(jv(*doc), #[trigger] claude_events()[j]),
        decreases CLAUDE_EVENT_COUNT - i,
    {
        if !has_managed_group_exec(doc, claude_event(i)) {
            return false;
        }
        i += 1;
    }
    true
}

// ───────────────────────── editing ─────────────────────────

/// A matcher group without our handlers (any managed one when `wide`, else
/// the marked ones); other values as they are.
pub open spec fn strip_group(g: Json, wide: bool) -> Json {
    match g {
        Json::Object(fs) => {
            let h = jfield_index(fs, "hooks"@, 0);
            if h >= 0 {
                match fs[h].1 {
                    Json::Array(hs) => Json::Object(
                        fs.update(h, ("hooks"@, Json::Array(not_ours(hs, wide)))),
                    ),
                    _ => g,
                }
            } else {
                g
            }
        },
        _ => g,
    }
}

/// The groups with our handlers (in the `wide` or the marked sense) taken
/// out; a group left with an empty handler list goes, and one without a
/// handler list stays.
pub open spec fn cleaned_groups(gs: Seq<Json>, wide: bool) -> Seq<Json>
    decreases gs.len(),
{
    if gs.len() == 0 {
        seq![]
    } else {
        let r = cleaned_groups(gs.drop_last(), wide);
        let g = strip_group(gs.last(), wide);
        let keep = match jget(g, "hooks"@) {
            Some(Json::Array(hs)) => hs.len() > 0,
            _ => true,
        };
        if keep {
            r.push(g)
        } else {
            r
        }
    }
}

/// Our matcher group: one asynchronous command handler, marked as ours.
pub open spec fn managed_group(cmd: Seq<char>) -> Json {
    Json::Object(
        seq![
            (
                "hooks"@,
                Json::Array(
                    seq![
                        Json::Object(
                            seq![
                                ("async"@, Json::Bool(true)),
                                ("command"@, Json::Str(cmd)),
                                ("overlay_managed"@, Json::Bool(true)),
                                ("type"@, Json::Str("command"@)),
                            ],
                        ),
                    ],
                ),
            ),
        ],
    )
}

/// `hooks.<event>` after install: the user's groups, then ours.
pub open spec fn upsert_event(hooks: Seq<(Seq<char>, Json)>, event: Seq<char>, cmd: Seq<char>) -> Seq<
    (Seq<char>, Json),
> {
    let k = jfield_index(hooks, event, 0);
    if k < 0 {
        hooks.push((event, Json::Array(seq![managed_group(cmd)])))
    } else {
        match hooks[k].1 {
            Json::Array(gs) => hooks.update(
                k,
                (event, Json::Array(cleaned_groups(gs, true).push(managed_group(cmd)))),
            ),
            _ => hooks.update(k, (event, Json::Array(seq![managed_group(cmd)]))),
        }
    }
}

pub open spec fn upsert_from(hooks: Seq<(Seq<char>, Json)>, i: int, cmd: Seq<char>) -> Seq<
    (Seq<char>, Json),
>
    decreases claude_events().len() - i,
{
    if i < 0 || i >= claude_events().len() {
        hooks
    } else {
        upsert_from(upsert_event(hooks, claude_events()[i], cmd), i + 1, cmd)
    }
}

/// `hooks.<event>` after uninstall: the groups without the handlers marked
/// as ours (groups left with no handler go), the event gone when no group
/// is left.
pub open spec fn remove_event(hooks: Seq<(Seq<char>, Json)>, event: Seq<char>) -> Seq<
    (Seq<char>, Json),
> {
    let k = jfield_index(hooks, event, 0);
    if k < 0 {
        hooks
    } else {
        match hooks[k].1 {
            Json::Array(gs) => {
                let kept = cleaned_groups(gs, false);
                if kept.len() == 0 {
                    hooks.remove(k)
                } else {
                    hooks.update(k, (event, Json::Array(kept)))
                }
            },
            _ => hooks,
        }
    }
}

pub open spec fn remove_from(hooks: Seq<(Seq<char>, Json)>, i: int) -> Seq<(Seq<char>, Json)>
    decreases claude_events().len() - i,
{
    if i < 0 || i >= claude_events().len() {
        hooks
    } else {
        remove_from(remove_event(hooks, claude_events()[i]), i + 1)
    }
}

/// The settings with our groups (running `cmd`) installed for every event;
/// a missing or malformed `hooks` member starts empty.
pub open spec fn spec_install(doc: Json, cmd: Seq<char>) -> Json {
    let fs = match doc {
        Json::Object(f) => f,
        _ => seq![],
    };
    let k = jfield_index(fs, "hooks"@, 0);
    let h0 = if k >= 0 {
        match fs[k].1 {
            Json::Object(h) => h,
            _ => seq![],
        }
    } else {
        seq![]
    };
    let h1 = upsert_from(h0, 0, cmd);
    Json::Object(
        if k >= 0 {
            fs.update(k, ("hooks"@, Json::Object(h1)))
        } else {
            fs.push(("hooks"@, Json::Object(h1)))
        },
    )
}

/// The settings with our groups removed from every event, when it has a
/// `hooks` object (else there is nothing to change).
pub open spec fn spec_remove(doc: Json) -> Option<Json> {
    match doc {
        Json::Object(fs) => {
            let k = jfield_index(fs, "hooks"@, 0);
            if k >= 0 {
                match fs[k].1 {
                    Json::Object(h) => Some(
                        Json::Object(fs.update(k, ("hooks"@, Json::Object(remove_from(h, 0))))),
                    ),
                    _ => None,
                }
            } else {
                None
            }
        },
        _ => None,
    }
}

fn strip_group_exec(g: JsonValue, wide: bool) -> (r: JsonValue)
    ensures
        jv(r) == strip_group(jv(g), wide),
{
    match g {
        JsonValue::Object(fs) => {
            proof {
                lemma_jv_object(fs);
            }
            let ghost f0 = jv_fields(fs@);
            let mut fs = fs;
            match find_member(&fs, "hooks") {
                Some(h) => {
                    proof {
                        lemma_jfield_index_bounds(f0, "hooks"@, 0);
                    }
                    let (name, val) = fs.remove(h);
                    match val {
                        JsonValue::Array(hs) => {
                            proof {
                                lemma_jv_array(hs);
                            }
                            let kept = drop_ours(hs, wide);
                            proof {
                                lemma_jv_array(kept);
                            }
                            fs.insert(h, (name, JsonValue::Array(kept)));
                            proof {
                                lemma_jv_object(fs);
                            }
                            assert(jv_fields(fs@) =~= f0.update(
                                h as int,
                                ("hooks"@, Json::Array(not_ours(jv_items(hs@), wide))),
                            ));
                            JsonValue::Object(fs)
                        },
                        other => {
                            fs.insert(h, (name, other));
                            proof {
                                lemma_jv_object(fs);
                            }
                            assert(jv_fields(fs@) =~= f0);
                            JsonValue::Object(fs)
                        },
                    }
                },
                None => JsonValue::Object(fs),
            }
        },
        other => other,
    }
}

fn handler_list_nonempty(g: &JsonValue, keep_plain: bool) -> (r: bool)
    ensures
        r == match jget(jv(*g), "hooks"@) {
            Some(Json::Array(hs)) => hs.len() > 0,
            _ => keep_plain,
        },
{
    match g.get("hooks") {
        Some(JsonValue::Array(hs)) => {
            proof {
                lemma_jv_array(*hs);
            }
            hs.len() > 0
        },
        Some(x) => {
            assert(!(jv(*x) is Array));
            keep_plain
        },
        None => keep_plain,
    }
}

fn clean_groups(gs: Vec<JsonValue>, wide: bool) -> (r: Vec<JsonValue>)
    ensures
        jv_items(r@) == cleaned_groups(jv_items(gs@), wide),
{
    let ghost orig = jv_items(gs@);
    let mut rest = gs;
    let mut out: Vec<JsonValue> = Vec::new();
    let ghost mut i: int = 0;
    assert(orig.take(0) =~= Seq::<Json>::empty());
    assert(jv_items(out@) =~= Seq::<Json>::empty());
    while rest.len() > 0
        invariant
            0 <= i <= orig.len(),
            rest@.len() + i == orig.len(),
            jv_items(rest@) == orig.skip(i),
            jv_items(out@) == cleaned_groups(orig.take(i), wide),
        decreases rest.len(),
    {
        let ghost before = out@;
        assert(jv_items(rest@)[0] == orig[i]);
        let ghost rb = rest@;
        let x = rest.remove(0);
        assert(rest@ =~= rb.skip(1));
        assert(jv_items(rest@) =~= jv_items(rb).skip(1));
        assert(orig.take(i + 1).drop_last() =~= orig.take(i));
        assert(orig.take(i + 1).last() == orig[i]);
        let g = strip_group_exec(x, wide);
        if handler_list_nonempty(&g, true) {
            out.push(g);
            assert(jv_items(out@) =~= jv_items(before).push(jv(g)));
        }
        proof {
            i = i + 1;
        }
        assert(jv_items(rest@) =~= orig.skip(i));
    }
    assert(orig.take(i) =~= orig);
    out
}

fn managed_group_exec(cmd: &str) -> (r: JsonValue)
    ensures
        jv(r) == managed_group(cmd@),
{
    let mut handler: Vec<(String, JsonValue)> = Vec::new();
    handler.push(("async".to_string(), JsonValue::Bool(true)));
    handler.push(("command".to_string(), json_text(cmd)));
    handler.push(("overlay_managed".to_string(), JsonValue::Bool(true)));
    handler.push(("type".to_string(), json_text("command")));
    let mut handlers: Vec<JsonValue> = Vec::new();
    handlers.push(JsonValue::Object(handler));
    let mut group: Vec<(String, JsonValue)> = Vec::new();
    group.push(("hooks".to_string(), JsonValue::Array(handlers)));
    proof {
        lemma_jv_object(handler);
        assert(jv_fields(handler@) =~= seq![
            ("async"@, Json::Bool(true)),
            ("command"@, Json::Str(cmd@)),
            ("overlay_managed"@, Json::Bool(true)),
            ("type"@, Json::Str("command"@)),
        ]);
        lemma_jv_array(handlers);
        assert(jv_items(handlers@) =~= seq![jv(JsonValue::Object(handler))]);
        lemma_jv_object(group);
        assert(jv_fields(group@) =~= seq![("hooks"@, jv(JsonValue::Array(handlers)))]);
    }
    JsonValue::Object(group)
}

fn one_group(cmd: &str) -> (r: JsonValue)
    ensures
        jv(r) == Json::Array(seq![managed_group(cmd@)]),
{
    let mut v: Vec<JsonValue> = Vec::new();
    v.push(managed_group_exec(cmd));
    proof {
        lemma_jv_array(v);
        assert(jv_items(v@) =~= seq![managed_group(cmd@)]);
    }
    JsonValue::Array(v)
}

fn upsert_event_exec(hooks: Vec<(String, JsonValue)>, event: &str, cmd: &str) -> (r: Vec<
    (String, JsonValue),
>)
    ensures
        jv_fields(r@) == upsert_event(jv_fields(hooks@), event@, cmd@),
{
    let ghost h0 = jv_fields(hooks@);
    let mut hooks = hooks;
    match find_member(&hooks, event) {
        None => {
            hooks.push((event.to_string(), one_group(cmd)));
            assert(jv_fields(hooks@) =~= h0.push((event@, Json::Array(seq![managed_group(cmd@)]))));
        },
        Some(k) => {
            proof {
                lemma_jfield_index_bounds(h0, event@, 0);
            }
            let (name, val) = hooks.remove(k);
            let nv = match val {
                JsonValue::Array(gs) => {
                    proof {
                        lemma_jv_array(gs);
                    }
                    let mut kept = clean_groups(gs, true);
                    let ghost kb = kept@;
                    kept.push(managed_group_exec(cmd));
                    proof {
                        lemma_jv_array(kept);
                        assert(jv_items(kept@) =~= jv_items(kb).push(managed_group(cmd@)));
                    }
                    JsonValue::Array(kept)
                },
                _ => one_group(cmd),
            };
            hooks.insert(k, (name, nv));
            assert(jv_fields(hooks@) =~= upsert_event(h0, event@, cmd@));
        },
    }
    hooks
}

fn remove_event_exec(hooks: Vec<(String, JsonValue)>, event: &str) -> (r: Vec<(String, JsonValue)>)
    ensures
        jv_fields(r@) == remove_event(jv_fields(hooks@), event@),
{
    let ghost h0 = jv_fields(hooks@);
    let mut hooks = hooks;
    match find_member(&hooks, event) {
        None => {},
        Some(k) => {
            proof {
                lemma_jfield_index_bounds(h0, event@, 0);
            }
            let (name, val) = hooks.remove(k);
            match val {
                JsonValue::Array(gs) => {
                    proof {
                        lemma_jv_array(gs);
                    }
                    let kept = clean_groups(gs, false);
                    if kept.len() > 0 {
                        proof {
                            lemma_jv_array(kept);
                        }
                        hooks.insert(k, (name, JsonValue::Array(kept)));
                        assert(jv_fields(hooks@) =~= remove_event(h0, event@));
                    } else {
                        assert(jv_fields(hooks@) =~= remove_event(h0, event@));
                    }
                },
                other => {
                    hooks.insert(k, (name, other));
                    assert(jv_fields(hooks@) =~= h0);
                },
            }
        },
    }
    hooks
}

/// The settings document for a missing or empty `settings.json`.
pub fn default_config() -> (r: JsonValue)
    ensures
        jv(r) == Json::Object(seq![("hooks"@, Json::Object(seq![]))]),
{
    let hooks: Vec<(String, JsonValue)> = Vec::new();
    let mut fields: Vec<(String, JsonValue)> = Vec::new();
    fields.push(("hooks".to_string(), JsonValue::Object(hooks)));
    proof {
        lemma_jv_object(hooks);
        assert(jv_fields(hooks@) =~= seq![]);
        lemma_jv_object(fields);
        assert(jv_fields(fields@) =~= seq![("hooks"@, Json::Object(seq![]))]);
    }
    JsonValue::Object(fields)
}

/// Installs our groups, running the hook binary at `hook_exe`, for every
/// event; the user's own groups stay, in order, before ours.
pub fn install(doc: JsonValue, hook_exe: &str) -> (r: JsonValue)
    requires
        jv(doc) is Object || jv(doc) is Null,
    ensures
        jv(r) == spec_install(jv(doc), spec_build_command(hook_exe@)),
{
    let cmd = build_command(hook_exe);
    let ghost d = jv(doc);
    let mut fields: Vec<(String, JsonValue)> = match doc {
        JsonValue::Object(f) => {
            proof {
                lemma_jv_object(f);
            }
            f
        },
        _ => Vec::new(),
    };
    assert(jv_fields(fields@) =~= match d {
        Json::Object(f) => f,
        _ => seq![],
    });
    let ghost fs = jv_fields(fields@);
    let k = find_member(&fields, "hooks");
    let (slot, h0) = match k {
        Some(k) => {
            proof {
                lemma_jfield_index_bounds(fs, "hooks"@, 0);
            }
            let (name, val) = fields.remove(k);
            let h0 = match val {
                JsonValue::Object(h) => {
                    proof {
                        lemma_jv_object(h);
                    }
                    h
                },
                _ => Vec::new(),
            };
            (Some((k, name)), h0)
        },
        None => (None, Vec::new()),
    };
    assert(jv_fields(h0@) =~= if k.is_some() {
        match fs[k.unwrap() as int].1 {
            Json::Object(h) => h,
            _ => seq![],
        }
    } else {
        seq![]
    });
    let ghost hs0 = jv_fields(h0@);
    let mut hooks = h0;
    let mut i: usize = 0;
    while i < CLAUDE_EVENT_COUNT
        invariant
            i <= CLAUDE_EVENT_COUNT,
            cmd@ == spec_build_command(hook_exe@),
            upsert_from(jv_fields(hooks@), i as int, cmd@) == upsert_from(hs0, 0, cmd@),
        decreases CLAUDE_EVENT_COUNT - i,
    {
        hooks = upsert_event_exec(hooks, claude_event(i), cmd.as_str());
        i += 1;
    }
    let ghost h1 = jv_fields(hooks@);
    let hv = JsonValue::Object(hooks);
    proof {
        lemma_jv_object(hooks);
    }
    match slot {
        Some((k, name)) => {
            fields.insert(k, (name, hv));
            assert(jv_fields(fields@) =~= fs.update(k as int, ("hooks"@, Json::Object(h1))));
        },
        None => {
            fields.push(("hooks".to_string(), hv));
            assert(jv_fields(fields@) =~= fs.push(("hooks"@, Json::Object(h1))));
        },
    }
    proof {
        lemma_jv_object(fields);
    }
    JsonValue::Object(fields)
}

/// Removes our groups from every event. `None` when the document has no
/// `hooks` object, so there is nothing to write back.
pub fn remove(doc: JsonValue) -> (r: Option<JsonValue>)
    ensures
        match r {
            Some(x) => spec_remove(jv(doc)) == Some(jv(x)),
            None => spec_remove(jv(doc)) is None,
        },
{
    let ghost d = jv(doc);
    match doc {
        JsonValue::Object(f) => {
            proof {
                lemma_jv_object(f);
            }
            let ghost fs = jv_fields(f@);
            let mut fields = f;
            match find_member(&fields, "hooks") {
                None => None,
                Some(k) => {
                    proof {
                        lemma_jfield_index_bounds(fs, "hooks"@, 0);
                    }
                    let (name, val) = fields.remove(k);
                    match val {
                        JsonValue::Object(h) => {
                            proof {
                                lemma_jv_object(h);
                            }
                            let ghost hs0 = jv_fields(h@);
                            let mut hooks = h;
                            let mut i: usize = 0;
                            while i < CLAUDE_EVENT_COUNT
                                invariant
                                    i <= CLAUDE_EVENT_COUNT,
                                    remove_from(jv_fields(hooks@), i as int) == remove_from(hs0, 0),
                                decreases CLAUDE_EVENT_COUNT - i,
                            {
                                hooks = remove_event_exec(hooks, claude_event(i));
                                i += 1;
                            }
                            let ghost h1 = jv_fields(hooks@);
                            proof {
                                lemma_jv_object(hooks);
                            }
                            fields.insert(k, (name, JsonValue::Object(hooks)));
                            assert(jv_fields(fields@) =~= fs.update(
                                k as int,
                                ("hooks"@, Json::Object(h1)),
                            ));
                            proof {
                                lemma_jv_object(fields);
                            }
                            Some(JsonValue::Object(fields))
                        },
                        _ => None,
                    }
                },
            }
        },
        _ => None,
    }
}

// ───────────────────────── laws ─────────────────────────

/// `hooks.<event>` is a list whose last group is ours, running `cmd`, and
/// no group before it has a handler of ours.
pub open spec fn ours_once(o: Option<Json>, cmd: Seq<char>) -> bool {
    match o {
        Some(Json::Array(gs)) => {
            &&& gs.len() > 0
            &&& gs.last() == managed_group(cmd)
            &&& forall|i: int| 0 <= i < gs.len() - 1 ==> !group_has_managed(#[trigger] gs[i])
        },
        _ => false,
    }
}

/// The groups of a `hooks.<event>` item (none when it is missing or not a
/// list).
pub open spec fn listed(o: Option<Json>) -> Seq<Json> {
    match o {
        Some(Json::Array(gs)) => gs,
        _ => seq![],
    }
}

/// A `hooks.<event>` item after removal: its groups without the handlers
/// marked as ours, gone when no group is left.
pub open spec fn after_remove(o: Option<Json>) -> Option<Json> {
    match o {
        Some(Json::Array(gs)) => if cleaned_groups(gs, false).len() == 0 {
            None
        } else {
            Some(Json::Array(cleaned_groups(gs, false)))
        },
        _ => o,
    }
}

/// The user's groups under `hooks.<event>` of a settings document.
pub open spec fn user_groups(doc: Json, event: Seq<char>) -> Seq<Json> {
    match jget(doc, "hooks"@) {
        Some(Json::Object(h)) => listed(jfind(h, event)),
        _ => seq![],
    }
}

/// `hooks.<event>` holds no group with a handler marked as ours.
pub open spec fn none_marked(o: Option<Json>) -> bool {
    match o {
        Some(Json::Array(gs)) => forall|i: int| 0 <= i < gs.len() ==> !group_has_marked(#[trigger] gs[i]),
        _ => true,
    }
}

/// `hooks.<event>` holds no group of ours.
pub open spec fn none_ours(o: Option<Json>) -> bool {
    match o {
        Some(Json::Array(gs)) => forall|i: int| 0 <= i < gs.len() ==> !group_has_managed(#[trigger] gs[i]),
        _ => true,
    }
}

/// The settings' `hooks` object has no name twice (as any parsed JSON
/// object).
pub open spec fn hooks_names_unique(doc: Json) -> bool {
    match jget(doc, "hooks"@) {
        Some(Json::Object(h)) => keys_unique(h),
        _ => true,
    }
}

proof fn lemma_events_distinct()
    ensures
        forall|i: int, j: int|
            0 <= i < j < claude_events().len() ==> claude_events()[i] != claude_events()[j],
{
    reveal_strlit("SessionStart");
    reveal_strlit("SessionEnd");
    reveal_strlit("UserPromptSubmit");
    reveal_strlit("PreToolUse");
    reveal_strlit("PostToolUse");
    reveal_strlit("Stop");
    reveal_strlit("StopFailure");
    reveal_strlit("SubagentStart");
    reveal_strlit("SubagentStop");
    let e = claude_events();
    assert(e[0].len() == 12 && e[1].len() == 10 && e[2].len() == 16);
    assert(e[3].len() == 10 && e[4].len() == 11 && e[5].len() == 4);
    assert(e[6].len() == 11 && e[7].len() == 13 && e[8].len() == 12);
    assert(e[0][1] == 'e' && e[8][1] == 'u');
    assert(e[1][0] == 'S' && e[3][0] == 'P');
    assert(e[4][0] == 'P' && e[6][0] == 'S');
}

proof fn lemma_managed_group_is_ours(cmd: Seq<char>)
    ensures
        group_has_managed(managed_group(cmd)),
{
    reveal_strlit("async");
    reveal_strlit("command");
    reveal_strlit("overlay_managed");
    let fs: Seq<(Seq<char>, Json)> = seq![
        ("async"@, Json::Bool(true)),
        ("command"@, Json::Str(cmd)),
        ("overlay_managed"@, Json::Bool(true)),
        ("type"@, Json::Str("command"@)),
    ];
    assert("async"@.len() == 5 && "command"@.len() == 7 && "overlay_managed"@.len() == 15);
    assert forall|j: int| 0 <= j < 2 implies (#[trigger] fs[j]).0 != "overlay_managed"@ by {}
    lemma_jfield_first(fs, "overlay_managed"@, 2);
    let h = Json::Object(fs);
    assert(is_managed(h));
    let hs = seq![h];
    assert(jget(managed_group(cmd), "hooks"@) == Some(Json::Array(hs)));
    lemma_group_has_managed(managed_group(cmd), hs, 0);
}

proof fn lemma_strip_group(g: Json, wide: bool)
    ensures
        wide ==> !group_has_managed(strip_group(g, wide)),
        !wide ==> !group_has_marked(strip_group(g, wide)),
        !group_has_managed(g) ==> !group_has_managed(strip_group(g, wide)),
{
    match g {
        Json::Object(fs) => {
            let h = jfield_index(fs, "hooks"@, 0);
            lemma_jfield_index(fs, "hooks"@);
            if h >= 0 {
                match fs[h].1 {
                    Json::Array(hs) => {
                        let u = not_ours(hs, wide);
                        lemma_jfind_update(fs, "hooks"@, Json::Array(u), "hooks"@);
                        lemma_not_ours_none(hs, wide);
                        let sg = strip_group(g, wide);
                        assert(jget(sg, "hooks"@) == Some(Json::Array(u)));
                        assert(jget(g, "hooks"@) == Some(Json::Array(hs)));
                        if !group_has_managed(g) {
                            assert forall|k: int| 0 <= k < hs.len() implies !is_managed(#[trigger] hs[k]) by {
                                if is_managed(hs[k]) {
                                    lemma_group_has_managed(g, hs, k);
                                }
                            }
                            lemma_not_ours_keeps_unmanaged(hs, wide);
                        }
                        if group_has_managed(sg) && (wide || !group_has_managed(g)) {
                            assert(match jget(sg, "hooks"@) {
                                Some(Json::Array(x)) => x == u,
                                _ => false,
                            });
                            let k = choose|k: int| 0 <= k < u.len() && is_managed(#[trigger] u[k]);
                            assert(!is_ours(u[k], wide));
                            assert(false);
                        }
                        if !wide && group_has_marked(sg) {
                            assert(match jget(sg, "hooks"@) {
                                Some(Json::Array(x)) => x == u,
                                _ => false,
                            });
                            let k = choose|k: int| 0 <= k < u.len() && is_marked(#[trigger] u[k]);
                            assert(!is_ours(u[k], wide));
                            assert(false);
                        }
                    },
                    _ => {},
                }
            }
        },
        _ => {},
    }
}

proof fn lemma_cleaned_none_ours(gs: Seq<Json>, wide: bool)
    ensures
        forall|i: int|
            0 <= i < cleaned_groups(gs, wide).len() ==> {
                &&& wide ==> !group_has_managed(#[trigger] cleaned_groups(gs, wide)[i])
                &&& !wide ==> !group_has_marked(cleaned_groups(gs, wide)[i])
            },
        (forall|i: int| 0 <= i < gs.len() ==> !group_has_managed(#[trigger] gs[i])) ==> forall|i: int|
            0 <= i < cleaned_groups(gs, wide).len() ==> !group_has_managed(
                #[trigger] cleaned_groups(gs, wide)[i],
            ),
    decreases gs.len(),
{
    if gs.len() > 0 {
        lemma_cleaned_none_ours(gs.drop_last(), wide);
        lemma_strip_group(gs.last(), wide);
        let r = cleaned_groups(gs.drop_last(), wide);
        if forall|i: int| 0 <= i < gs.len() ==> !group_has_managed(#[trigger] gs[i]) {
            assert forall|i: int| 0 <= i < gs.drop_last().len() implies !group_has_managed(
                #[trigger] gs.drop_last()[i],
            ) by {
                assert(gs.drop_last()[i] == gs[i]);
            }
            assert(!group_has_managed(gs[gs.len() - 1]));
        }
        assert forall|i: int| 0 <= i < cleaned_groups(gs, wide).len() implies {
            &&& wide ==> !group_has_managed(#[trigger] cleaned_groups(gs, wide)[i])
            &&& !wide ==> !group_has_marked(cleaned_groups(gs, wide)[i])
        } by {
            if i < r.len() {
                assert(cleaned_groups(gs, wide)[i] == r[i]);
            }
        }
        assert forall|i: int|
            0 <= i < cleaned_groups(gs, wide).len() && (forall|i: int|
                0 <= i < gs.len() ==> !group_has_managed(#[trigger] gs[i])) implies !group_has_managed(
            #[trigger] cleaned_groups(gs, wide)[i],
        ) by {
            if i < r.len() {
                assert(cleaned_groups(gs, wide)[i] == r[i]);
            }
        }
    }
}

/// Taking the marked handlers out of our group leaves it no handler.
proof fn lemma_managed_group_strips(cmd: Seq<char>)
    ensures
        jget(strip_group(managed_group(cmd), false), "hooks"@) == Some(Json::Array(seq![])),
{
    reveal_strlit("async");
    reveal_strlit("command");
    reveal_strlit("overlay_managed");
    let fs: Seq<(Seq<char>, Json)> = seq![
        ("async"@, Json::Bool(true)),
        ("command"@, Json::Str(cmd)),
        ("overlay_managed"@, Json::Bool(true)),
        ("type"@, Json::Str("command"@)),
    ];
    assert("async"@.len() == 5 && "command"@.len() == 7 && "overlay_managed"@.len() == 15);
    assert forall|j: int| 0 <= j < 2 implies (#[trigger] fs[j]).0 != "overlay_managed"@ by {}
    lemma_jfield_first(fs, "overlay_managed"@, 2);
    let h = Json::Object(fs);
    assert(is_marked(h));
    let hs = seq![h];
    assert(hs.drop_last() =~= Seq::<Json>::empty());
    assert(hs.last() == h);
    assert(is_ours(h, false));
    assert(not_ours(hs.drop_last(), false) =~= Seq::<Json>::empty());
    assert(not_ours(hs, false) =~= Seq::<Json>::empty());
    let gf = seq![("hooks"@, Json::Array(hs))];
    lemma_jfield_first(gf, "hooks"@, 0);
    lemma_jfind_update(gf, "hooks"@, Json::Array(not_ours(hs, false)), "hooks"@);
}

proof fn lemma_upsert_event(h: Seq<(Seq<char>, Json)>, e: Seq<char>, cmd: Seq<char>, other: Seq<char>)
    ensures
        ours_once(jfind(upsert_event(h, e, cmd), e), cmd),
        jfind(upsert_event(h, e, cmd), e) == Some(
            Json::Array(cleaned_groups(listed(jfind(h, e)), true).push(managed_group(cmd))),
        ),
        other != e ==> jfind(upsert_event(h, e, cmd), other) == jfind(h, other),
        keys_unique(h) ==> keys_unique(upsert_event(h, e, cmd)),
{
    let k = jfield_index(h, e, 0);
    lemma_jfield_index(h, e);
    if k < 0 {
        let v = Json::Array(seq![managed_group(cmd)]);
        assert(cleaned_groups(listed(jfind(h, e)), true) =~= Seq::<Json>::empty());
        assert(v == Json::Array(cleaned_groups(listed(jfind(h, e)), true).push(managed_group(cmd))));
        lemma_jfind_push(h, e, v, other);
        if keys_unique(h) {
            lemma_unique_push(h, e, v);
        }
    } else {
        let v = match h[k].1 {
            Json::Array(gs) => Json::Array(cleaned_groups(gs, true).push(managed_group(cmd))),
            _ => Json::Array(seq![managed_group(cmd)]),
        };
        assert(jfind(h, e) == Some(h[k].1));
        assert(cleaned_groups(Seq::<Json>::empty(), true) =~= Seq::<Json>::empty());
        assert(v == Json::Array(cleaned_groups(listed(jfind(h, e)), true).push(managed_group(cmd))));
        assert(upsert_event(h, e, cmd) == h.update(k, (e, v)));
        lemma_jfind_update(h, e, v, other);
        if keys_unique(h) {
            lemma_unique_update(h, k, e, v);
        }
        match h[k].1 {
            Json::Array(gs) => {
                let c = cleaned_groups(gs, true);
                lemma_cleaned_none_ours(gs, true);
                let x = c.push(managed_group(cmd));
                assert forall|i: int| 0 <= i < x.len() - 1 implies !group_has_managed(#[trigger] x[i]) by {
                    assert(x[i] == c[i]);
                }
            },
            _ => {},
        }
    }
}

proof fn lemma_upsert_from(h: Seq<(Seq<char>, Json)>, i: int, cmd: Seq<char>)
    requires
        0 <= i <= claude_events().len(),
    ensures
        forall|j: int|
            i <= j < claude_events().len() ==> ours_once(
                jfind(upsert_from(h, i, cmd), #[trigger] claude_events()[j]),
                cmd,
            ),
        forall|j: int|
            i <= j < claude_events().len() ==> jfind(upsert_from(h, i, cmd), #[trigger] claude_events()[j])
                == Some(Json::Array(cleaned_groups(listed(jfind(h, claude_events()[j])), true).push(managed_group(cmd)))),
        forall|key: Seq<char>|
            (forall|j: int| i <= j < claude_events().len() ==> key != #[trigger] claude_events()[j])
                ==> jfind(#[trigger] upsert_from(h, i, cmd), key) == jfind(h, key),
        keys_unique(h) ==> keys_unique(upsert_from(h, i, cmd)),
    decreases claude_events().len() - i,
{
    if i < claude_events().len() {
        let e = claude_events()[i];
        let h1 = upsert_event(h, e, cmd);
        lemma_upsert_from(h1, i + 1, cmd);
        lemma_events_distinct();
        lemma_upsert_event(h, e, cmd, e);
        assert(upsert_from(h, i, cmd) == upsert_from(h1, i + 1, cmd));
        assert forall|key: Seq<char>|
            (forall|j: int| i <= j < claude_events().len() ==> key != #[trigger] claude_events()[j])
                implies jfind(#[trigger] upsert_from(h, i, cmd), key) == jfind(h, key) by {
            lemma_upsert_event(h, e, cmd, key);
            assert(key != claude_events()[i]);
            assert forall|j: int| i + 1 <= j < claude_events().len() implies key != #[trigger] claude_events()[j] by {}
        }
        assert forall|j: int| i <= j < claude_events().len() implies ours_once(
            jfind(upsert_from(h, i, cmd), #[trigger] claude_events()[j]),
            cmd,
        ) by {
            if j == i {
                assert forall|jj: int| i + 1 <= jj < claude_events().len() implies e != #[trigger] claude_events()[jj] by {}
            }
        }
        assert forall|j: int| i <= j < claude_events().len() implies jfind(
            upsert_from(h, i, cmd),
            #[trigger] claude_events()[j],
        ) == Some(Json::Array(cleaned_groups(listed(jfind(h, claude_events()[j])), true).push(managed_group(cmd)))) by {
            if j == i {
                assert forall|jj: int| i + 1 <= jj < claude_events().len() implies e != #[trigger] claude_events()[jj] by {}
            } else {
                lemma_upsert_event(h, e, cmd, claude_events()[j]);
            }
        }
    }
}

/// Installing gives every event the overlay listens to exactly one group of
/// ours, last in its list: the settings then read as installed.
pub proof fn lemma_install_is_installed(doc: Json, cmd: Seq<char>)
    ensures
        spec_is_installed(spec_install(doc, cmd)),
        forall|i: int|
            0 <= i < claude_events().len() ==> ours_once(
                jget(jget(spec_install(doc, cmd), "hooks"@).unwrap(), #[trigger] claude_events()[i]),
                cmd,
            ),
{
    let fs = match doc {
        Json::Object(f) => f,
        _ => seq![],
    };
    let k = jfield_index(fs, "hooks"@, 0);
    lemma_jfield_index(fs, "hooks"@);
    let h0 = if k >= 0 {
        match fs[k].1 {
            Json::Object(h) => h,
            _ => seq![],
        }
    } else {
        seq![]
    };
    let h1 = upsert_from(h0, 0, cmd);
    let hv = Json::Object(h1);
    if k >= 0 {
        lemma_jfind_update(fs, "hooks"@, hv, "hooks"@);
    } else {
        lemma_jfind_push(fs, "hooks"@, hv, "hooks"@);
    }
    let d = spec_install(doc, cmd);
    assert(jget(d, "hooks"@) == Some(hv));
    lemma_upsert_from(h0, 0, cmd);
    lemma_managed_group_is_ours(cmd);
    assert forall|i: int| 0 <= i < claude_events().len() implies has_managed_group(
        d,
        #[trigger] claude_events()[i],
    ) by {
        let e = claude_events()[i];
        assert(ours_once(jfind(h1, e), cmd));
        assert(jget(hv, e) == jfind(h1, e));
        match jfind(h1, e) {
            Some(Json::Array(gs)) => {
                lemma_has_managed_group(d, hv, e, gs, gs.len() - 1);
            },
            _ => {},
        }
    }
}

proof fn lemma_remove_event(h: Seq<(Seq<char>, Json)>, e: Seq<char>, other: Seq<char>, cmd: Seq<char>)
    requires
        keys_unique(h),
    ensures
        none_marked(jfind(remove_event(h, e), e)),
        ours_once(jfind(h, e), cmd) ==> none_ours(jfind(remove_event(h, e), e)),
        jfind(remove_event(h, e), e) == after_remove(jfind(h, e)),
        other != e ==> jfind(remove_event(h, e), other) == jfind(h, other),
        keys_unique(remove_event(h, e)),
{
    let k = jfield_index(h, e, 0);
    lemma_jfield_index(h, e);
    if k >= 0 {
        assert(jfind(h, e) == Some(h[k].1));
        match h[k].1 {
            Json::Array(gs) => {
                let kept = cleaned_groups(gs, false);
                lemma_cleaned_none_ours(gs, false);
                if ours_once(jfind(h, e), cmd) {
                    let c = gs.drop_last();
                    assert forall|i: int| 0 <= i < c.len() implies !group_has_managed(#[trigger] c[i]) by {
                        assert(c[i] == gs[i]);
                    }
                    lemma_cleaned_none_ours(c, false);
                    lemma_managed_group_strips(cmd);
                    assert(kept == cleaned_groups(c, false));
                }
                if kept.len() == 0 {
                    lemma_jfind_remove(h, e, other);
                } else {
                    lemma_jfind_update(h, e, Json::Array(kept), other);
                    lemma_unique_update(h, k, e, Json::Array(kept));
                }
            },
            _ => {},
        }
    }
}

proof fn lemma_remove_from(h: Seq<(Seq<char>, Json)>, i: int, cmd: Seq<char>)
    requires
        0 <= i <= claude_events().len(),
        keys_unique(h),
    ensures
        forall|j: int|
            i <= j < claude_events().len() ==> none_marked(
                jfind(remove_from(h, i), #[trigger] claude_events()[j]),
            ),
        (forall|j: int|
            i <= j < claude_events().len() ==> ours_once(jfind(h, #[trigger] claude_events()[j]), cmd))
            ==> forall|j: int|
            i <= j < claude_events().len() ==> none_ours(
                jfind(remove_from(h, i), #[trigger] claude_events()[j]),
            ),
        forall|key: Seq<char>|
            (forall|j: int| i <= j < claude_events().len() ==> key != #[trigger] claude_events()[j])
                ==> jfind(#[trigger] remove_from(h, i), key) == jfind(h, key),
        forall|j: int|
            i <= j < claude_events().len() ==> jfind(remove_from(h, i), #[trigger] claude_events()[j])
                == after_remove(jfind(h, claude_events()[j])),
        keys_unique(remove_from(h, i)),
    decreases claude_events().len() - i,
{
    if i < claude_events().len() {
        let e = claude_events()[i];
        let h1 = remove_event(h, e);
        lemma_remove_event(h, e, e, cmd);
        lemma_remove_from(h1, i + 1, cmd);
        lemma_events_distinct();
        assert(remove_from(h, i) == remove_from(h1, i + 1));
        assert forall|key: Seq<char>|
            (forall|j: int| i <= j < claude_events().len() ==> key != #[trigger] claude_events()[j])
                implies jfind(#[trigger] remove_from(h, i), key) == jfind(h, key) by {
            lemma_remove_event(h, e, key, cmd);
            assert(key != claude_events()[i]);
            assert forall|j: int| i + 1 <= j < claude_events().len() implies key != #[trigger] claude_events()[j] by {}
        }
        assert forall|jj: int| i + 1 <= jj < claude_events().len() implies e != #[trigger] claude_events()[jj] by {}
        assert forall|j: int| i <= j < claude_events().len() implies none_marked(
            jfind(remove_from(h, i), #[trigger] claude_events()[j]),
        ) by {}
        assert forall|j: int| i <= j < claude_events().len() implies jfind(
            remove_from(h, i),
            #[trigger] claude_events()[j],
        ) == after_remove(jfind(h, claude_events()[j])) by {
            if j > i {
                lemma_remove_event(h, e, claude_events()[j], cmd);
            }
        }
        if forall|j: int|
            i <= j < claude_events().len() ==> ours_once(jfind(h, #[trigger] claude_events()[j]), cmd) {
            assert forall|j: int| i + 1 <= j < claude_events().len() implies ours_once(
                jfind(h1, #[trigger] claude_events()[j]),
                cmd,
            ) by {
                lemma_remove_event(h, e, claude_events()[j], cmd);
            }
            assert(ours_once(jfind(h, claude_events()[i]), cmd));
            assert forall|j: int| i <= j < claude_events().len() implies none_ours(
                jfind(remove_from(h, i), #[trigger] claude_events()[j]),
            ) by {}
        }
    }
}

/// After removal no event the overlay listens to has a handler marked as
/// ours; a document with nothing to remove has none either.
pub proof fn lemma_remove_leaves_none(doc: Json)
    requires
        hooks_names_unique(doc),
    ensures
        forall|i: int|
            0 <= i < claude_events().len() ==> !has_marked_group(
                match spec_remove(doc) {
                    Some(d) => d,
                    None => doc,
                },
                #[trigger] claude_events()[i],
            ),
{
    match spec_remove(doc) {
        Some(d) => {
            let fs = doc->Object_0;
            let k = jfield_index(fs, "hooks"@, 0);
            lemma_jfield_index(fs, "hooks"@);
            let h = fs[k].1->Object_0;
            assert(jget(doc, "hooks"@) == Some(Json::Object(h)));
            let h1 = remove_from(h, 0);
            lemma_remove_from(h, 0, seq![]);
            lemma_jfind_update(fs, "hooks"@, Json::Object(h1), "hooks"@);
            assert(jget(d, "hooks"@) == Some(Json::Object(h1)));
            assert forall|i: int| 0 <= i < claude_events().len() implies !has_marked_group(
                d,
                #[trigger] claude_events()[i],
            ) by {
                let e = claude_events()[i];
                assert(none_marked(jfind(h1, e)));
                assert(jget(Json::Object(h1), e) == jfind(h1, e));
            }
        },
        None => {
            assert forall|i: int| 0 <= i < claude_events().len() implies !has_marked_group(
                doc,
                #[trigger] claude_events()[i],
            ) by {
                match jget(doc, "hooks"@) {
                    Some(hv) => {
                        assert(!(hv is Object));
                        assert(jget(hv, claude_events()[i]) is None);
                    },
                    None => {},
                }
            }
        },
    }
}

/// Installing and then removing leaves settings that do not read as
/// installed, whatever they held before: install replaced every handler of
/// ours with one marked group per event, and removal takes those out.
pub proof fn lemma_install_then_remove(doc: Json, cmd: Seq<char>)
    requires
        hooks_names_unique(doc),
    ensures
        spec_remove(spec_install(doc, cmd)) is Some,
        !spec_is_installed(spec_remove(spec_install(doc, cmd)).unwrap()),
{
    let fs = match doc {
        Json::Object(f) => f,
        _ => seq![],
    };
    let k = jfield_index(fs, "hooks"@, 0);
    lemma_jfield_index(fs, "hooks"@);
    let h0 = if k >= 0 {
        match fs[k].1 {
            Json::Object(h) => h,
            _ => seq![],
        }
    } else {
        seq![]
    };
    assert(keys_unique(h0)) by {
        if k >= 0 {
            match fs[k].1 {
                Json::Object(h) => {
                    assert(jget(doc, "hooks"@) == Some(Json::Object(h)));
                },
                _ => {},
            }
        }
    }
    let h1 = upsert_from(h0, 0, cmd);
    lemma_upsert_from(h0, 0, cmd);
    let hv = Json::Object(h1);
    if k >= 0 {
        lemma_jfind_update(fs, "hooks"@, hv, "hooks"@);
    } else {
        lemma_jfind_push(fs, "hooks"@, hv, "hooks"@);
    }
    let d = spec_install(doc, cmd);
    assert(jget(d, "hooks"@) == Some(hv));
    let fd = d->Object_0;
    lemma_jfield_index(fd, "hooks"@);
    let h2 = remove_from(h1, 0);
    lemma_remove_from(h1, 0, cmd);
    lemma_jfind_update(fd, "hooks"@, Json::Object(h2), "hooks"@);
    let r = spec_remove(d).unwrap();
    assert(jget(r, "hooks"@) == Some(Json::Object(h2)));
    let e = claude_events()[0];
    assert(none_ours(jfind(h2, e)));
    assert(jget(Json::Object(h2), e) == jfind(h2, e));
    assert(!has_managed_group(r, e));
}

/// A group with no handler of ours is left as it is when marked handlers
/// are taken out.
proof fn lemma_strip_keeps_clean_group(g: Json)
    requires
        !group_has_managed(g),
    ensures
        strip_group(g, false) == g,
{
    match g {
        Json::Object(fs) => {
            let h = jfield_index(fs, "hooks"@, 0);
            lemma_jfield_index(fs, "hooks"@);
            if h >= 0 {
                match fs[h].1 {
                    Json::Array(hs) => {
                        assert(jget(g, "hooks"@) == Some(Json::Array(hs)));
                        assert forall|k: int| 0 <= k < hs.len() implies !is_managed(#[trigger] hs[k]) by {
                            if is_managed(hs[k]) {
                                lemma_group_has_managed(g, hs, k);
                            }
                        }
                        lemma_not_ours_all_kept(hs);
                        assert(fs.update(h, ("hooks"@, Json::Array(hs))) =~= fs);
                    },
                    _ => {},
                }
            }
        },
        _ => {},
    }
}

/// Taking marked handlers out of groups already cleaned of ours changes
/// nothing.
proof fn lemma_cleaned_twice(gs: Seq<Json>)
    ensures
        cleaned_groups(cleaned_groups(gs, true), false) == cleaned_groups(gs, true),
    decreases gs.len(),
{
    if gs.len() > 0 {
        lemma_cleaned_twice(gs.drop_last());
        let r = cleaned_groups(gs.drop_last(), true);
        let g = strip_group(gs.last(), true);
        lemma_strip_group(gs.last(), true);
        lemma_strip_keeps_clean_group(g);
        let keep = match jget(g, "hooks"@) {
            Some(Json::Array(hs)) => hs.len() > 0,
            _ => true,
        };
        if keep {
            let c = r.push(g);
            assert(c.drop_last() =~= r);
            assert(c.last() == g);
        }
    }
}

/// Installing and then removing gives back, under every event the overlay
/// listens to, the user's own groups without any handler of ours, in their
/// order (a group left with no handler goes); the event is gone when no
/// group is left.
pub proof fn lemma_install_then_remove_keeps_user_groups(doc: Json, cmd: Seq<char>)
    requires
        hooks_names_unique(doc),
    ensures
        forall|i: int|
            0 <= i < claude_events().len() ==> jget(
                jget(spec_remove(spec_install(doc, cmd)).unwrap(), "hooks"@).unwrap(),
                #[trigger] claude_events()[i],
            ) == if cleaned_groups(user_groups(doc, claude_events()[i]), true).len() == 0 {
                None
            } else {
                Some(Json::Array(cleaned_groups(user_groups(doc, claude_events()[i]), true)))
            },
{
    let fs = match doc {
        Json::Object(f) => f,
        _ => seq![],
    };
    let k = jfield_index(fs, "hooks"@, 0);
    lemma_jfield_index(fs, "hooks"@);
    let h0 = if k >= 0 {
        match fs[k].1 {
            Json::Object(h) => h,
            _ => seq![],
        }
    } else {
        seq![]
    };
    assert(keys_unique(h0)) by {
        if k >= 0 {
            match fs[k].1 {
                Json::Object(h) => {
                    assert(jget(doc, "hooks"@) == Some(Json::Object(h)));
                },
                _ => {},
            }
        }
    }
    assert forall|i: int| 0 <= i < claude_events().len() implies listed(jfind(h0, #[trigger] claude_events()[i]))
        == user_groups(doc, claude_events()[i]) by {
        let e = claude_events()[i];
        if k >= 0 {
            match fs[k].1 {
                Json::Object(h) => {
                    assert(jget(doc, "hooks"@) == Some(Json::Object(h)));
                },
                _ => {
                    lemma_jfield_index(h0, e);
                },
            }
        } else {
            lemma_jfield_index(h0, e);
        }
    }
    let h1 = upsert_from(h0, 0, cmd);
    lemma_upsert_from(h0, 0, cmd);
    let hv = Json::Object(h1);
    if k >= 0 {
        lemma_jfind_update(fs, "hooks"@, hv, "hooks"@);
    } else {
        lemma_jfind_push(fs, "hooks"@, hv, "hooks"@);
    }
    let d = spec_install(doc, cmd);
    assert(jget(d, "hooks"@) == Some(hv));
    let fd = d->Object_0;
    lemma_jfield_index(fd, "hooks"@);
    let h2 = remove_from(h1, 0);
    lemma_remove_from(h1, 0, cmd);
    lemma_jfind_update(fd, "hooks"@, Json::Object(h2), "hooks"@);
    let r = spec_remove(d).unwrap();
    assert(jget(r, "hooks"@) == Some(Json::Object(h2)));
    lemma_managed_group_strips(cmd);
    assert forall|i: int| 0 <= i < claude_events().len() implies jget(
        jget(r, "hooks"@).unwrap(),
        #[trigger] claude_events()[i],
    ) == if cleaned_groups(user_groups(doc, claude_events()[i]), true).len() == 0 {
        None
    } else {
        Some(Json::Array(cleaned_groups(user_groups(doc, claude_events()[i]), true)))
    } by {
        let e = claude_events()[i];
        let u = user_groups(doc, e);
        let c = cleaned_groups(u, true);
        assert(listed(jfind(h0, e)) == u);
        let x = c.push(managed_group(cmd));
        assert(jfind(h1, e) == Some(Json::Array(x)));
        assert(jfind(h2, e) == after_remove(Some(Json::Array(x))));
        assert(x.drop_last() =~= c);
        assert(x.last() == managed_group(cmd));
        assert(cleaned_groups(x, false) == cleaned_groups(c, false));
        lemma_cleaned_twice(u);
        assert(jget(Json::Object(h2), e) == jfind(h2, e));
    }
}

} // verus!
