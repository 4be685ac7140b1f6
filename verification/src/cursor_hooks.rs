//! Overlay hook entries in Cursor's `hooks.json`.
//!
//! Cursor lists hooks flat: `hooks → eventName → [entries]`. Only entries
//! we wrote are replaced or removed.
use vstd::prelude::*;
use crate::json::{
    Json, JsonValue, jv, jv_items, jv_fields, jget, jfield_index, lemma_jv_array, lemma_jv_object,
    lemma_jfield_index_bounds,
};
use crate::hook_config::{
    is_managed, is_managed_entry, is_marked, unmanaged, not_ours, drop_ours, find_member, build_command,
    spec_build_command, json_text, jfind, lemma_jfield_index, lemma_jfield_first, lemma_jfind_update,
    lemma_jfind_push, lemma_jfind_remove, lemma_unmanaged_none_managed, lemma_not_ours_none,
    lemma_not_ours_keeps_unmanaged, lemma_not_ours_all_kept, is_ours, lemma_unique_update,
    lemma_unique_push,
};
use crate::assoc::keys_unique;

verus! {

broadcast use vstd::string::group_string_axioms;

/// Number of hook events the overlay listens to in Cursor.
pub const CURSOR_EVENT_COUNT: usize = 9;

/// The hook events the overlay listens to, in the order it installs them.
pub open spec fn cursor_events() -> Seq<Seq<char>> {
    seq![
        "sessionStart"@,
        "sessionEnd"@,
        "stop"@,
        "preToolUse"@,
        "postToolUse"@,
        "beforeSubmitPrompt"@,
        "afterFileEdit"@,
        "subagentStart"@,
        "subagentStop"@,
    ]
}

fn cursor_event(i: usize) -> (r: &'static str)
    requires
        i < CURSOR_EVENT_COUNT,
    ensures
        r@ == cursor_events()[i as int],
{
    match i {
        0 => "sessionStart",
        1 => "sessionEnd",
        2 => "stop",
        3 => "preToolUse",
        4 => "postToolUse",
        5 => "beforeSubmitPrompt",
        6 => "afterFileEdit",
        7 => "subagentStart",
        _ => "subagentStop",
    }
}

// ───────────────────────── reading ─────────────────────────

/// `hooks.<event>` is a list with one of our entries.
pub open spec fn has_managed_entry(doc: Json, event: Seq<char>) -> bool {
    match jget(doc, "hooks"@) {
        Some(h) => match jget(h, event) {
            Some(Json::Array(es)) => exists|i: int| 0 <= i < es.len() && is_managed(#[trigger] es[i]),
            _ => false,
        },
        None => false,
    }
}

/// Every event the overlay listens to has one of our entries.
pub open spec fn spec_is_installed(doc: Json) -> bool {
    forall|i: int| 0 <= i < cursor_events().len() ==> has_managed_entry(doc, #[trigger] cursor_events()[i])
}

proof fn lemma_has_managed_entry(doc: Json, h: Json, event: Seq<char>, es: Seq<Json>, j: int)
    requires
        jget(doc, "hooks"@) == Some(h),
        jget(h, event) == Some(Json::Array(es)),
        0 <= j < es.len(),
        is_managed(es[j]),
    ensures
        has_managed_entry(doc, event),
{
    assert(match jget(h, event) {
        Some(Json::Array(x)) => x == es,
        _ => false,
    });
    assert(is_managed(es[j]));
}

fn has_managed_entry_exec(doc: &JsonValue, event: &str) -> (r: bool)
    ensures
        r == has_managed_entry(jv(*doc), event@),
{
    match doc.get("hooks") {
        Some(h) => match h.get(event) {
            Some(JsonValue::Array(es)) => {
                proof {
                    lemma_jv_array(*es);
                }
                let mut i: usize = 0;
                while i < es.len()
                    invariant
                        i <= es@.len(),
                        jget(jv(*doc), "hooks"@) == Some(jv(*h)),
                        jget(jv(*h), event@) == Some(Json::Array(jv_items(es@))),
                        forall|j: int| 0 <= j < i ==> !is_managed(#[trigger] jv_items(es@)[j]),
                    decreases es.len() - i,
                {
                    if is_managed_entry(&es[i]) {
                        proof {
                            lemma_has_managed_entry(jv(*doc), jv(*h), event@, jv_items(es@), i as int);
                        }
                        return true;
                    }
                    i += 1;
                }
                false
            },
            Some(x) => {
                assert(!(jv(*x) is Array));
                false
            },
            None => false,
        },
        None => false,
    }
}

/// Whether the overlay's hooks are in the hooks document: every event it
/// listens to has one of our entries.
pub fn is_installed(doc: &JsonValue) -> (r: bool)
    ensures
        r == spec_is_installed(jv(*doc)),
{
    let mut i: usize = 0;
    while i < CURSOR_EVENT_COUNT
        invariant
            i <= CURSOR_EVENT_COUNT,
            forall|j: int| 0 <= j < i ==> has_managed_entry(jv(*doc), #[trigger] cursor_events()[j]),
        decreases CURSOR_EVENT_COUNT - i,
    {
        if !has_managed_entry_exec(doc, cursor_event(i)) {
            return false;
        }
        i += 1;
    }
    true
}

// ───────────────────────── editing ─────────────────────────

/// Our entry: the command, marked as ours.
pub open spec fn managed_entry(cmd: Seq<char>) -> Json {
    Json::Object(seq![("command"@, Json::Str(cmd)), ("overlay_managed"@, Json::Bool(true))])
}

/// `hooks.<event>` after install: the user's entries, then ours.
pub open spec fn upsert_event(hooks: Seq<(Seq<char>, Json)>, event: Seq<char>, cmd: Seq<char>) -> Seq<
    (Seq<char>, Json),
> {
    let k = jfield_index(hooks, event, 0);
    if k < 0 {
        hooks.push((event, Json::Array(seq![managed_entry(cmd)])))
    } else {
        match hooks[k].1 {
            Json::Array(es) => hooks.update(
                k,
                (event, Json::Array(unmanaged(es).push(managed_entry(cmd)))),
            ),
            _ => hooks.update(k, (event, Json::Array(seq![managed_entry(cmd)]))),
        }
    }
}

pub open spec fn upsert_from(hooks: Seq<(Seq<char>, Json)>, i: int, cmd: Seq<char>) -> Seq<
    (Seq<char>, Json),
>
    decreases cursor_events().len() - i,
{
    if i < 0 || i >= cursor_events().len() {
        hooks
    } else {
        upsert_from(upsert_event(hooks, cursor_events()[i], cmd), i + 1, cmd)
    }
}

/// `hooks.<event>` after uninstall: the entries not marked as ours, the
/// event gone when none is left.
pub open spec fn remove_event(hooks: Seq<(Seq<char>, Json)>, event: Seq<char>) -> Seq<
    (Seq<char>, Json),
> {
    let k = jfield_index(hooks, event, 0);
    if k < 0 {
        hooks
    } else {
        match hooks[k].1 {
            Json::Array(es) => {
                let kept = not_ours(es, false);
                if kept.len() == 0 {
                    hooks.remove(k)
                } else {
                    hooks.update(k, (event, Json::Array(kept)))
                }
            },
            _ => hooks,
        }
    }
}

pub open spec fn remove_from(hooks: Seq<(Seq<char>, Json)>, i: int) -> Seq<(Seq<char>, Json)>
    decreases cursor_events().len() - i,
{
    if i < 0 || i >= cursor_events().len() {
        hooks
    } else {
        remove_from(remove_event(hooks, cursor_events()[i]), i + 1)
    }
}

/// The members with a `version` of 1 added when there is none.
pub open spec fn with_version(fs: Seq<(Seq<char>, Json)>) -> Seq<(Seq<char>, Json)> {
    if jfield_index(fs, "version"@, 0) >= 0 {
        fs
    } else {
        fs.push(("version"@, Json::Number("1"@)))
    }
}

/// The hooks document with a version and our entries (running `cmd`) for
/// every event; a missing or malformed `hooks` member starts empty.
pub open spec fn spec_install(doc: Json, cmd: Seq<char>) -> Json {
    let fs = with_version(
        match doc {
            Json::Object(f) => f,
            _ => seq![],
        },
    );
    let k = jfield_index(fs, "hooks"@, 0);
    let h0 = if k >= 0 {
        match fs[k].1 {
            Json::Object(h) => h,
            _ => seq![],
        }
    } else {
        seq![]
    };
    let h1 = upsert_from(h0, 0, cmd);
    Json::Object(
        if k >= 0 {
            fs.update(k, ("hooks"@, Json::Object(h1)))
        } else {
            fs.push(("hooks"@, Json::Object(h1)))
        },
    )
}

/// The hooks document with our entries removed from every event, when it
/// has a `hooks` object (else there is nothing to change).
pub open spec fn spec_remove(doc: Json) -> Option<Json> {
    match doc {
        Json::Object(fs) => {
            let k = jfield_index(fs, "hooks"@, 0);
            if k >= 0 {
                match fs[k].1 {
                    Json::Object(h) => Some(
                        Json::Object(fs.update(k, ("hooks"@, Json::Object(remove_from(h, 0))))),
                    ),
                    _ => None,
                }
            } else {
                None
            }
        },
        _ => None,
    }
}

fn managed_entry_exec(cmd: &str) -> (r: JsonValue)
    ensures
        jv(r) == managed_entry(cmd@),
{
    let mut entry: Vec<(String, JsonValue)> = Vec::new();
    entry.push(("command".to_string(), json_text(cmd)));
    entry.push(("overlay_managed".to_string(), JsonValue::Bool(true)));
    proof {
        lemma_jv_object(entry);
        assert(jv_fields(entry@) =~= seq![
            ("command"@, Json::Str(cmd@)),
            ("overlay_managed"@, Json::Bool(true)),
        ]);
    }
    JsonValue::Object(entry)
}

fn one_entry(cmd: &str) -> (r: JsonValue)
    ensures
        jv(r) == Json::Array(seq![managed_entry(cmd@)]),
{
    let mut v: Vec<JsonValue> = Vec::new();
    v.push(managed_entry_exec(cmd));
    proof {
        lemma_jv_array(v);
        assert(jv_items(v@) =~= seq![managed_entry(cmd@)]);
    }
    JsonValue::Array(v)
}

fn upsert_event_exec(hooks: Vec<(String, JsonValue)>, event: &str, cmd: &str) -> (r: Vec<
    (String, JsonValue),
>)
    ensures
        jv_fields(r@) == upsert_event(jv_fields(hooks@), event@, cmd@),
{
    let ghost h0 = jv_fields(hooks@);
    let mut hooks = hooks;
    match find_member(&hooks, event) {
        None => {
            hooks.push((event.to_string(), one_entry(cmd)));
            assert(jv_fields(hooks@) =~= h0.push((event@, Json::Array(seq![managed_entry(cmd@)]))));
        },
        Some(k) => {
            proof {
                lemma_jfield_index_bounds(h0, event@, 0);
            }
            let (name, val) = hooks.remove(k);
            let nv = match val {
                JsonValue::Array(es) => {
                    proof {
                        lemma_jv_array(es);
                    }
                    let mut kept = drop_ours(es, true);
                    let ghost kb = kept@;
                    kept.push(managed_entry_exec(cmd));
                    proof {
                        lemma_jv_array(kept);
                        assert(jv_items(kept@) =~= jv_items(kb).push(managed_entry(cmd@)));
                    }
                    JsonValue::Array(kept)
                },
                _ => one_entry(cmd),
            };
            hooks.insert(k, (name, nv));
            assert(jv_fields(hooks@) =~= upsert_event(h0, event@, cmd@));
        },
    }
    hooks
}

fn remove_event_exec(hooks: Vec<(String, JsonValue)>, event: &str) -> (r: Vec<(String, JsonValue)>)
    ensures
        jv_fields(r@) == remove_event(jv_fields(hooks@), event@),
{
    let ghost h0 = jv_fields(hooks@);
    let mut hooks = hooks;
    match find_member(&hooks, event) {
        None => {},
        Some(k) => {
            proof {
                lemma_jfield_index_bounds(h0, event@, 0);
            }
            let (name, val) = hooks.remove(k);
            match val {
                JsonValue::Array(es) => {
                    proof {
                        lemma_jv_array(es);
                    }
                    let kept = drop_ours(es, false);
                    if kept.len() > 0 {
                        proof {
                            lemma_jv_array(kept);
                        }
                        hooks.insert(k, (name, JsonValue::Array(kept)));
                        assert(jv_fields(hooks@) =~= remove_event(h0, event@));
                    } else {
                        assert(jv_fields(hooks@) =~= remove_event(h0, event@));
                    }
                },
                other => {
                    hooks.insert(k, (name, other));
                    assert(jv_fields(hooks@) =~= h0);
                },
            }
        },
    }
    hooks
}

/// The hooks document for a missing or empty `hooks.json`.
pub fn default_config() -> (r: JsonValue)
    ensures
        jv(r) == Json::Object(
            seq![("version"@, Json::Number("1"@)), ("hooks"@, Json::Object(seq![]))],
        ),
{
    let hooks: Vec<(String, JsonValue)> = Vec::new();
    let mut fields: Vec<(String, JsonValue)> = Vec::new();
    fields.push(("version".to_string(), JsonValue::Number("1".to_string())));
    fields.push(("hooks".to_string(), JsonValue::Object(hooks)));
    proof {
        lemma_jv_object(hooks);
        assert(jv_fields(hooks@) =~= seq![]);
        lemma_jv_object(fields);
        assert(jv_fields(fields@) =~= seq![
            ("version"@, Json::Number("1"@)),
            ("hooks"@, Json::Object(seq![])),
        ]);
    }
    JsonValue::Object(fields)
}

/// Installs our entries, running the hook binary at `hook_exe`, for every
/// event (adding a `version` when there is none); the user's own entries
/// stay, in order, before ours.
pub fn install(doc: JsonValue, hook_exe: &str) -> (r: JsonValue)
    requires
        jv(doc) is Object || jv(doc) is Null,
    ensures
        jv(r) == spec_install(jv(doc), spec_build_command(hook_exe@)),
{
    let cmd = build_command(hook_exe);
    let ghost d = jv(doc);
    let mut fields: Vec<(String, JsonValue)> = match doc {
        JsonValue::Object(f) => {
            proof {
                lemma_jv_object(f);
            }
            f
        },
        _ => Vec::new(),
    };
    assert(jv_fields(fields@) =~= match d {
        Json::Object(f) => f,
        _ => seq![],
    });
    let ghost f0 = jv_fields(fields@);
    if find_member(&fields, "version").is_none() {
        fields.push(("version".to_string(), JsonValue::Number("1".to_string())));
        assert(jv_fields(fields@) =~= f0.push(("version"@, Json::Number("1"@))));
    }
    let ghost fs = jv_fields(fields@);
    assert(fs == with_version(f0));
    let k = find_member(&fields, "hooks");
    let (slot, h0) = match k {
        Some(k) => {
            proof {
                lemma_jfield_index_bounds(fs, "hooks"@, 0);
            }
            let (name, val) = fields.remove(k);
            let h0 = match val {
                JsonValue::Object(h) => {
                    proof {
                        lemma_jv_object(h);
                    }
                    h
                },
                _ => Vec::new(),
            };
            (Some((k, name)), h0)
        },
        None => (None, Vec::new()),
    };
    assert(jv_fields(h0@) =~= if k.is_some() {
        match fs[k.unwrap() as int].1 {
            Json::Object(h) => h,
            _ => seq![],
        }
    } else {
        seq![]
    });
    let ghost hs0 = jv_fields(h0@);
    let mut hooks = h0;
    let mut i: usize = 0;
    while i < CURSOR_EVENT_COUNT
        invariant
            i <= CURSOR_EVENT_COUNT,
            cmd@ == spec_build_command(hook_exe@),
            upsert_from(jv_fields(hooks@), i as int, cmd@) == upsert_from(hs0, 0, cmd@),
        decreases CURSOR_EVENT_COUNT - i,
    {
        hooks = upsert_event_exec(hooks, cursor_event(i), cmd.as_str());
        i += 1;
    }
    let ghost h1 = jv_fields(hooks@);
    let hv = JsonValue::Object(hooks);
    proof {
        lemma_jv_object(hooks);
    }
    match slot {
        Some((k, name)) => {
            fields.insert(k, (name, hv));
            assert(jv_fields(fields@) =~= fs.update(k as int, ("hooks"@, Json::Object(h1))));
        },
        None => {
            fields.push(("hooks".to_string(), hv));
            assert(jv_fields(fields@) =~= fs.push(("hooks"@, Json::Object(h1))));
        },
    }
    proof {
        lemma_jv_object(fields);
    }
    JsonValue::Object(fields)
}

/// Removes our entries from every event. `None` when the document has no
/// `hooks` object, so there is nothing to write back.
pub fn remove(doc: JsonValue) -> (r: Option<JsonValue>)
    ensures
        match r {
            Some(x) => spec_remove(jv(doc)) == Some(jv(x)),
            None => spec_remove(jv(doc)) is None,
        },
{
    let ghost d = jv(doc);
    match doc {
        JsonValue::Object(f) => {
            proof {
                lemma_jv_object(f);
            }
            let ghost fs = jv_fields(f@);
            let mut fields = f;
            match find_member(&fields, "hooks") {
                None => None,
                Some(k) => {
                    proof {
                        lemma_jfield_index_bounds(fs, "hooks"@, 0);
                    }
                    let (name, val) = fields.remove(k);
                    match val {
                        JsonValue::Object(h) => {
                            proof {
                                lemma_jv_object(h);
                            }
                            let ghost hs0 = jv_fields(h@);
                            let mut hooks = h;
                            let mut i: usize = 0;
                            while i < CURSOR_EVENT_COUNT
                                invariant
                                    i <= CURSOR_EVENT_COUNT,
                                    remove_from(jv_fields(hooks@), i as int) == remove_from(hs0, 0),
                                decreases CURSOR_EVENT_COUNT - i,
                            {
                                hooks = remove_event_exec(hooks, cursor_event(i));
                                i += 1;
                            }
                            let ghost h1 = jv_fields(hooks@);
                            proof {
                                lemma_jv_object(hooks);
                            }
                            fields.insert(k, (name, JsonValue::Object(hooks)));
                            assert(jv_fields(fields@) =~= fs.update(
                                k as int,
                                ("hooks"@, Json::Object(h1)),
                            ));
                            proof {
                                lemma_jv_object(fields);
                            }
                            Some(JsonValue::Object(fields))
                        },
                        _ => None,
                    }
                },
            }
        },
        _ => None,
    }
}

// ───────────────────────── laws ─────────────────────────

/// `hooks.<event>` is a list whose last entry is ours, running `cmd`, and
/// no entry before it is ours.
pub open spec fn ours_once(o: Option<Json>, cmd: Seq<char>) -> bool {
    match o {
        Some(Json::Array(gs)) => {
            &&& gs.len() > 0
            &&& gs.last() == managed_entry(cmd)
            &&& forall|i: int| 0 <= i < gs.len() - 1 ==> !is_managed(#[trigger] gs[i])
        },
        _ => false,
    }
}

/// The entries of a `hooks.<event>` item (none when it is missing or not a
/// list).
pub open spec fn listed(o: Option<Json>) -> Seq<Json> {
    match o {
        Some(Json::Array(es)) => es,
        _ => seq![],
    }
}

/// A `hooks.<event>` item after removal: its entries not marked as ours,
/// gone when none is left.
pub open spec fn after_remove(o: Option<Json>) -> Option<Json> {
    match o {
        Some(Json::Array(es)) => if not_ours(es, false).len() == 0 {
            None
        } else {
            Some(Json::Array(not_ours(es, false)))
        },
        _ => o,
    }
}

/// The user's entries under `hooks.<event>` of a hooks document.
pub open spec fn user_entries(doc: Json, event: Seq<char>) -> Seq<Json> {
    match jget(doc, "hooks"@) {
        Some(Json::Object(h)) => listed(jfind(h, event)),
        _ => seq![],
    }
}

/// `hooks.<event>` is a list with an entry marked as ours.
pub open spec fn has_marked_entry(doc: Json, event: Seq<char>) -> bool {
    match jget(doc, "hooks"@) {
        Some(h) => match jget(h, event) {
            Some(Json::Array(es)) => exists|i: int| 0 <= i < es.len() && is_marked(#[trigger] es[i]),
            _ => false,
        },
        None => false,
    }
}

/// `hooks.<event>` holds no entry marked as ours.
pub open spec fn none_marked(o: Option<Json>) -> bool {
    match o {
        Some(Json::Array(es)) => forall|i: int| 0 <= i < es.len() ==> !is_marked(#[trigger] es[i]),
        _ => true,
    }
}

/// `hooks.<event>` holds no entry of ours.
pub open spec fn none_ours(o: Option<Json>) -> bool {
    match o {
        Some(Json::Array(gs)) => forall|i: int| 0 <= i < gs.len() ==> !is_managed(#[trigger] gs[i]),
        _ => true,
    }
}

/// The document's `hooks` object has no name twice (as any parsed JSON
/// object).
pub open spec fn hooks_names_unique(doc: Json) -> bool {
    match jget(doc, "hooks"@) {
        Some(Json::Object(h)) => keys_unique(h),
        _ => true,
    }
}

proof fn lemma_events_distinct()
    ensures
        forall|i: int, j: int|
            0 <= i < j < cursor_events().len() ==> cursor_events()[i] != cursor_events()[j],
{
    reveal_strlit("sessionStart");
    reveal_strlit("sessionEnd");
    reveal_strlit("stop");
    reveal_strlit("preToolUse");
    reveal_strlit("postToolUse");
    reveal_strlit("beforeSubmitPrompt");
    reveal_strlit("afterFileEdit");
    reveal_strlit("subagentStart");
    reveal_strlit("subagentStop");
    let e = cursor_events();
    assert(e[0].len() == 12 && e[1].len() == 10 && e[2].len() == 4);
    assert(e[3].len() == 10 && e[4].len() == 11 && e[5].len() == 18);
    assert(e[6].len() == 13 && e[7].len() == 13 && e[8].len() == 12);
    assert(e[0][1] == 'e' && e[8][1] == 'u');
    assert(e[1][0] == 's' && e[3][0] == 'p' && e[3][1] == 'r');
    assert(e[6][0] == 'a' && e[7][0] == 's');
}

proof fn lemma_managed_entry_is_ours(cmd: Seq<char>)
    ensures
        is_managed(managed_entry(cmd)),
        is_marked(managed_entry(cmd)),
{
    reveal_strlit("command");
    reveal_strlit("overlay_managed");
    let fs: Seq<(Seq<char>, Json)> = seq![
        ("command"@, Json::Str(cmd)),
        ("overlay_managed"@, Json::Bool(true)),
    ];
    assert("command"@.len() == 7 && "overlay_managed"@.len() == 15);
    assert forall|j: int| 0 <= j < 1 implies (#[trigger] fs[j]).0 != "overlay_managed"@ by {}
    lemma_jfield_first(fs, "overlay_managed"@, 1);
}

proof fn lemma_version_keeps_hooks(f0: Seq<(Seq<char>, Json)>)
    ensures
        jfind(with_version(f0), "hooks"@) == jfind(f0, "hooks"@),
{
    if jfield_index(f0, "version"@, 0) < 0 {
        lemma_jfield_index(f0, "version"@);
        reveal_strlit("version");
        reveal_strlit("hooks");
        assert("version"@.len() == 7 && "hooks"@.len() == 5);
        lemma_jfind_push(f0, "version"@, Json::Number("1"@), "hooks"@);
    }
}

proof fn lemma_upsert_event(h: Seq<(Seq<char>, Json)>, e: Seq<char>, cmd: Seq<char>, other: Seq<char>)
    ensures
        ours_once(jfind(upsert_event(h, e, cmd), e), cmd),
        jfind(upsert_event(h, e, cmd), e) == Some(
            Json::Array(unmanaged(listed(jfind(h, e))).push(managed_entry(cmd))),
        ),
        other != e ==> jfind(upsert_event(h, e, cmd), other) == jfind(h, other),
        keys_unique(h) ==> keys_unique(upsert_event(h, e, cmd)),
{
    let k = jfield_index(h, e, 0);
    lemma_jfield_index(h, e);
    if k < 0 {
        let v = Json::Array(seq![managed_entry(cmd)]);
        assert(unmanaged(listed(jfind(h, e))) =~= Seq::<Json>::empty());
        assert(v == Json::Array(unmanaged(listed(jfind(h, e))).push(managed_entry(cmd))));
        lemma_jfind_push(h, e, v, other);
        if keys_unique(h) {
            lemma_unique_push(h, e, v);
        }
    } else {
        let v = match h[k].1 {
            Json::Array(gs) => Json::Array(unmanaged(gs).push(managed_entry(cmd))),
            _ => Json::Array(seq![managed_entry(cmd)]),
        };
        assert(jfind(h, e) == Some(h[k].1));
        assert(unmanaged(Seq::<Json>::empty()) =~= Seq::<Json>::empty());
        assert(v == Json::Array(unmanaged(listed(jfind(h, e))).push(managed_entry(cmd))));
        assert(upsert_event(h, e, cmd) == h.update(k, (e, v)));
        lemma_jfind_update(h, e, v, other);
        if keys_unique(h) {
            lemma_unique_update(h, k, e, v);
        }
        match h[k].1 {
            Json::Array(gs) => {
                let c = unmanaged(gs);
                lemma_unmanaged_none_managed(gs);
                let x = c.push(managed_entry(cmd));
                assert forall|i: int| 0 <= i < x.len() - 1 implies !is_managed(#[trigger] x[i]) by {
                    assert(x[i] == c[i]);
                }
            },
            _ => {},
        }
    }
}

proof fn lemma_upsert_from(h: Seq<(Seq<char>, Json)>, i: int, cmd: Seq<char>)
    requires
        0 <= i <= cursor_events().len(),
    ensures
        forall|j: int|
            i <= j < cursor_events().len() ==> ours_once(
                jfind(upsert_from(h, i, cmd), #[trigger] cursor_events()[j]),
                cmd,
            ),
        forall|j: int|
            i <= j < cursor_events().len() ==> jfind(upsert_from(h, i, cmd), #[trigger] cursor_events()[j])
                == Some(Json::Array(unmanaged(listed(jfind(h, cursor_events()[j]))).push(managed_entry(cmd)))),
        forall|key: Seq<char>|
            (forall|j: int| i <= j < cursor_events().len() ==> key != #[trigger] cursor_events()[j])
                ==> jfind(#[trigger] upsert_from(h, i, cmd), key) == jfind(h, key),
        keys_unique(h) ==> keys_unique(upsert_from(h, i, cmd)),
    decreases cursor_events().len() - i,
{
    if i < cursor_events().len() {
        let e = cursor_events()[i];
        let h1 = upsert_event(h, e, cmd);
        lemma_upsert_from(h1, i + 1, cmd);
        lemma_events_distinct();
        lemma_upsert_event(h, e, cmd, e);
        assert(upsert_from(h, i, cmd) == upsert_from(h1, i + 1, cmd));
        assert forall|key: Seq<char>|
            (forall|j: int| i <= j < cursor_events().len() ==> key != #[trigger] cursor_events()[j])
                implies jfind(#[trigger] upsert_from(h, i, cmd), key) == jfind(h, key) by {
            lemma_upsert_event(h, e, cmd, key);
            assert(key != cursor_events()[i]);
            assert forall|j: int| i + 1 <= j < cursor_events().len() implies key != #[trigger] cursor_events()[j] by {}
        }
        assert forall|j: int| i <= j < cursor_events().len() implies ours_once(
            jfind(upsert_from(h, i, cmd), #[trigger] cursor_events()[j]),
            cmd,
        ) by {
            if j == i {
                assert forall|jj: int| i + 1 <= jj < cursor_events().len() implies e != #[trigger] cursor_events()[jj] by {}
            }
        }
        assert forall|j: int| i <= j < cursor_events().len() implies jfind(
            upsert_from(h, i, cmd),
            #[trigger] cursor_events()[j],
        ) == Some(Json::Array(unmanaged(listed(jfind(h, cursor_events()[j]))).push(managed_entry(cmd)))) by {
            if j == i {
                assert forall|jj: int| i + 1 <= jj < cursor_events().len() implies e != #[trigger] cursor_events()[jj] by {}
            } else {
                lemma_upsert_event(h, e, cmd, cursor_events()[j]);
            }
        }
    }
}

/// Installing gives every event the overlay listens to exactly one entry of
/// ours, last in its list: the settings then read as installed.
pub proof fn lemma_install_is_installed(doc: Json, cmd: Seq<char>)
    ensures
        spec_is_installed(spec_install(doc, cmd)),
        forall|i: int|
            0 <= i < cursor_events().len() ==> ours_once(
                jget(jget(spec_install(doc, cmd), "hooks"@).unwrap(), #[trigger] cursor_events()[i]),
                cmd,
            ),
{
    let f0 = match doc {
        Json::Object(f) => f,
        _ => seq![],
    };
    let fs = with_version(f0);
    lemma_version_keeps_hooks(f0);
    let k = jfield_index(fs, "hooks"@, 0);
    lemma_jfield_index(fs, "hooks"@);
    let h0 = if k >= 0 {
        match fs[k].1 {
            Json::Object(h) => h,
            _ => seq![],
        }
    } else {
        seq![]
    };
    let h1 = upsert_from(h0, 0, cmd);
    let hv = Json::Object(h1);
    if k >= 0 {
        lemma_jfind_update(fs, "hooks"@, hv, "hooks"@);
    } else {
        lemma_jfind_push(fs, "hooks"@, hv, "hooks"@);
    }
    let d = spec_install(doc, cmd);
    assert(jget(d, "hooks"@) == Some(hv));
    lemma_upsert_from(h0, 0, cmd);
    lemma_managed_entry_is_ours(cmd);
    assert forall|i: int| 0 <= i < cursor_events().len() implies has_managed_entry(
        d,
        #[trigger] cursor_events()[i],
    ) by {
        let e = cursor_events()[i];
        assert(ours_once(jfind(h1, e), cmd));
        assert(jget(hv, e) == jfind(h1, e));
        match jfind(h1, e) {
            Some(Json::Array(gs)) => {
                lemma_has_managed_entry(d, hv, e, gs, gs.len() - 1);
            },
            _ => {},
        }
    }
}

proof fn lemma_remove_event(h: Seq<(Seq<char>, Json)>, e: Seq<char>, other: Seq<char>, cmd: Seq<char>)
    requires
        keys_unique(h),
    ensures
        none_marked(jfind(remove_event(h, e), e)),
        ours_once(jfind(h, e), cmd) ==> none_ours(jfind(remove_event(h, e), e)),
        jfind(remove_event(h, e), e) == after_remove(jfind(h, e)),
        other != e ==> jfind(remove_event(h, e), other) == jfind(h, other),
        keys_unique(remove_event(h, e)),
{
    let k = jfield_index(h, e, 0);
    lemma_jfield_index(h, e);
    if k >= 0 {
        assert(jfind(h, e) == Some(h[k].1));
        match h[k].1 {
            Json::Array(gs) => {
                let kept = not_ours(gs, false);
                lemma_not_ours_none(gs, false);
                if ours_once(jfind(h, e), cmd) {
                    let c = gs.drop_last();
                    assert forall|i: int| 0 <= i < c.len() implies !is_managed(#[trigger] c[i]) by {
                        assert(c[i] == gs[i]);
                    }
                    lemma_not_ours_keeps_unmanaged(c, false);
                    lemma_managed_entry_is_ours(cmd);
                    assert(is_ours(gs.last(), false));
                    assert(kept == not_ours(c, false));
                }
                if kept.len() == 0 {
                    lemma_jfind_remove(h, e, other);
                } else {
                    lemma_jfind_update(h, e, Json::Array(kept), other);
                    lemma_unique_update(h, k, e, Json::Array(kept));
                }
            },
            _ => {},
        }
    }
}

proof fn lemma_remove_from(h: Seq<(Seq<char>, Json)>, i: int, cmd: Seq<char>)
    requires
        0 <= i <= cursor_events().len(),
        keys_unique(h),
    ensures
        forall|j: int|
            i <= j < cursor_events().len() ==> none_marked(
                jfind(remove_from(h, i), #[trigger] cursor_events()[j]),
            ),
        (forall|j: int|
            i <= j < cursor_events().len() ==> ours_once(jfind(h, #[trigger] cursor_events()[j]), cmd))
            ==> forall|j: int|
            i <= j < cursor_events().len() ==> none_ours(
                jfind(remove_from(h, i), #[trigger] cursor_events()[j]),
            ),
        forall|key: Seq<char>|
            (forall|j: int| i <= j < cursor_events().len() ==> key != #[trigger] cursor_events()[j])
                ==> jfind(#[trigger] remove_from(h, i), key) == jfind(h, key),
        forall|j: int|
            i <= j < cursor_events().len() ==> jfind(remove_from(h, i), #[trigger] cursor_events()[j])
                == after_remove(jfind(h, cursor_events()[j])),
        keys_unique(remove_from(h, i)),
    decreases cursor_events().len() - i,
{
    if i < cursor_events().len() {
        let e = cursor_events()[i];
        let h1 = remove_event(h, e);
        lemma_remove_event(h, e, e, cmd);
        lemma_remove_from(h1, i + 1, cmd);
        lemma_events_distinct();
        assert(remove_from(h, i) == remove_from(h1, i + 1));
        assert forall|key: Seq<char>|
            (forall|j: int| i <= j < cursor_events().len() ==> key != #[trigger] cursor_events()[j])
                implies jfind(#[trigger] remove_from(h, i), key) == jfind(h, key) by {
            lemma_remove_event(h, e, key, cmd);
            assert(key != cursor_events()[i]);
            assert forall|j: int| i + 1 <= j < cursor_events().len() implies key != #[trigger] cursor_events()[j] by {}
        }
        assert forall|jj: int| i + 1 <= jj < cursor_events().len() implies e != #[trigger] cursor_events()[jj] by {}
        assert forall|j: int| i <= j < cursor_events().len() implies none_marked(
            jfind(remove_from(h, i), #[trigger] cursor_events()[j]),
        ) by {}
        assert forall|j: int| i <= j < cursor_events().len() implies jfind(
            remove_from(h, i),
            #[trigger] cursor_events()[j],
        ) == after_remove(jfind(h, cursor_events()[j])) by {
            if j > i {
                lemma_remove_event(h, e, cursor_events()[j], cmd);
            }
        }
        if forall|j: int|
            i <= j < cursor_events().len() ==> ours_once(jfind(h, #[trigger] cursor_events()[j]), cmd) {
            assert forall|j: int| i + 1 <= j < cursor_events().len() implies ours_once(
                jfind(h1, #[trigger] cursor_events()[j]),
                cmd,
            ) by {
                lemma_remove_event(h, e, cursor_events()[j], cmd);
            }
            assert(ours_once(jfind(h, cursor_events()[i]), cmd));
            assert forall|j: int| i <= j < cursor_events().len() implies none_ours(
                jfind(remove_from(h, i), #[trigger] cursor_events()[j]),
            ) by {}
        }
    }
}

/// After removal no event the overlay listens to has an entry marked as
/// ours; a document with nothing to remove has none either.
pub proof fn lemma_remove_leaves_none(doc: Json)
    requires
        hooks_names_unique(doc),
    ensures
        forall|i: int|
            0 <= i < cursor_events().len() ==> !has_marked_entry(
                match spec_remove(doc) {
                    Some(d) => d,
                    None => doc,
                },
                #[trigger] cursor_events()[i],
            ),
{
    match spec_remove(doc) {
        Some(d) => {
            let fs = doc->Object_0;
            let k = jfield_index(fs, "hooks"@, 0);
            lemma_jfield_index(fs, "hooks"@);
            let h = fs[k].1->Object_0;
            assert(jget(doc, "hooks"@) == Some(Json::Object(h)));
            let h1 = remove_from(h, 0);
            lemma_remove_from(h, 0, seq![]);
            lemma_jfind_update(fs, "hooks"@, Json::Object(h1), "hooks"@);
            assert(jget(d, "hooks"@) == Some(Json::Object(h1)));
            assert forall|i: int| 0 <= i < cursor_events().len() implies !has_marked_entry(
                d,
                #[trigger] cursor_events()[i],
            ) by {
                let e = cursor_events()[i];
                assert(none_marked(jfind(h1, e)));
                assert(jget(Json::Object(h1), e) == jfind(h1, e));
            }
        },
        None => {
            assert forall|i: int| 0 <= i < cursor_events().len() implies !has_marked_entry(
                doc,
                #[trigger] cursor_events()[i],
            ) by {
                match jget(doc, "hooks"@) {
                    Some(hv) => {
                        assert(!(hv is Object));
                        assert(jget(hv, cursor_events()[i]) is None);
                    },
                    None => {},
                }
            }
        },
    }
}

/// Installing and then removing leaves settings that do not read as
/// installed, whatever they held before: install replaced every entry of
/// ours with one marked entry per event, and removal takes those out.
pub proof fn lemma_install_then_remove(doc: Json, cmd: Seq<char>)
    requires
        hooks_names_unique(doc),
    ensures
        spec_remove(spec_install(doc, cmd)) is Some,
        !spec_is_installed(spec_remove(spec_install(doc, cmd)).unwrap()),
{
    let f0 = match doc {
        Json::Object(f) => f,
        _ => seq![],
    };
    let fs = with_version(f0);
    lemma_version_keeps_hooks(f0);
    let k = jfield_index(fs, "hooks"@, 0);
    lemma_jfield_index(fs, "hooks"@);
    let h0 = if k >= 0 {
        match fs[k].1 {
            Json::Object(h) => h,
            _ => seq![],
        }
    } else {
        seq![]
    };
    assert(keys_unique(h0)) by {
        if k >= 0 {
            assert(jfind(fs, "hooks"@) == jfind(f0, "hooks"@));
            match fs[k].1 {
                Json::Object(h) => {
                    assert(jget(doc, "hooks"@) == Some(Json::Object(h)));
                },
                _ => {},
            }
        }
    }
    let h1 = upsert_from(h0, 0, cmd);
    lemma_upsert_from(h0, 0, cmd);
    let hv = Json::Object(h1);
    if k >= 0 {
        lemma_jfind_update(fs, "hooks"@, hv, "hooks"@);
    } else {
        lemma_jfind_push(fs, "hooks"@, hv, "hooks"@);
    }
    let d = spec_install(doc, cmd);
    assert(jget(d, "hooks"@) == Some(hv));
    let fd = d->Object_0;
    lemma_jfield_index(fd, "hooks"@);
    let h2 = remove_from(h1, 0);
    lemma_remove_from(h1, 0, cmd);
    lemma_jfind_update(fd, "hooks"@, Json::Object(h2), "hooks"@);
    let r = spec_remove(d).unwrap();
    assert(jget(r, "hooks"@) == Some(Json::Object(h2)));
    let e = cursor_events()[0];
    assert(none_ours(jfind(h2, e)));
    assert(jget(Json::Object(h2), e) == jfind(h2, e));
    assert(!has_managed_entry(r, e));
}

/// Entries none of which is managed stay as they are when marked entries
/// are taken out.
proof fn lemma_not_ours_of_unmanaged(u: Seq<Json>)
    ensures
        not_ours(unmanaged(u), false) == unmanaged(u),
{
    lemma_unmanaged_none_managed(u);
    lemma_not_ours_all_kept(unmanaged(u));
}

/// Installing and then removing gives back, under every event the overlay
/// listens to, the user's own entries that are not managed, in their order;
/// the event is gone when there were none.
pub proof fn lemma_install_then_remove_keeps_user_entries(doc: Json, cmd: Seq<char>)
    requires
        hooks_names_unique(doc),
    ensures
        forall|i: int|
            0 <= i < cursor_events().len() ==> jget(
                jget(spec_remove(spec_install(doc, cmd)).unwrap(), "hooks"@).unwrap(),
                #[trigger] cursor_events()[i],
            ) == if unmanaged(user_entries(doc, cursor_events()[i])).len() == 0 {
                None
            } else {
                Some(Json::Array(unmanaged(user_entries(doc, cursor_events()[i]))))
            },
{
    let f0 = match doc {
        Json::Object(f) => f,
        _ => seq![],
    };
    let fs = with_version(f0);
    lemma_version_keeps_hooks(f0);
    let k = jfield_index(fs, "hooks"@, 0);
    lemma_jfield_index(fs, "hooks"@);
    let h0 = if k >= 0 {
        match fs[k].1 {
            Json::Object(h) => h,
            _ => seq![],
        }
    } else {
        seq![]
    };
    assert(keys_unique(h0)) by {
        if k >= 0 {
            assert(jfind(fs, "hooks"@) == jfind(f0, "hooks"@));
            match fs[k].1 {
                Json::Object(h) => {
                    assert(jget(doc, "hooks"@) == Some(Json::Object(h)));
                },
                _ => {},
            }
        }
    }
    assert forall|i: int| 0 <= i < cursor_events().len() implies listed(jfind(h0, #[trigger] cursor_events()[i]))
        == user_entries(doc, cursor_events()[i]) by {
        let e = cursor_events()[i];
        assert(jfind(fs, "hooks"@) == jfind(f0, "hooks"@));
        if k >= 0 {
            match fs[k].1 {
                Json::Object(h) => {
                    assert(jget(doc, "hooks"@) == Some(Json::Object(h)));
                },
                _ => {
                    lemma_jfield_index(h0, e);
                },
            }
        } else {
            lemma_jfield_index(h0, e);
        }
    }
    let h1 = upsert_from(h0, 0, cmd);
    lemma_upsert_from(h0, 0, cmd);
    let hv = Json::Object(h1);
    if k >= 0 {
        lemma_jfind_update(fs, "hooks"@, hv, "hooks"@);
    } else {
        lemma_jfind_push(fs, "hooks"@, hv, "hooks"@);
    }
    let d = spec_install(doc, cmd);
    assert(jget(d, "hooks"@) == Some(hv));
    let fd = d->Object_0;
    lemma_jfield_index(fd, "hooks"@);
    let h2 = remove_from(h1, 0);
    lemma_remove_from(h1, 0, cmd);
    lemma_jfind_update(fd, "hooks"@, Json::Object(h2), "hooks"@);
    let r = spec_remove(d).unwrap();
    assert(jget(r, "hooks"@) == Some(Json::Object(h2)));
    lemma_managed_entry_is_ours(cmd);
    assert forall|i: int| 0 <= i < cursor_events().len() implies jget(
        jget(r, "hooks"@).unwrap(),
        #[trigger] cursor_events()[i],
    ) == if unmanaged(user_entries(doc, cursor_events()[i])).len() == 0 {
        None
    } else {
        Some(Json::Array(unmanaged(user_entries(doc, cursor_events()[i]))))
    } by {
        let e = cursor_events()[i];
        let u = user_entries(doc, e);
        assert(listed(jfind(h0, e)) == u);
        let x = unmanaged(u).push(managed_entry(cmd));
        assert(jfind(h1, e) == Some(Json::Array(x)));
        assert(jfind(h2, e) == after_remove(Some(Json::Array(x))));
        assert(x.drop_last() =~= unmanaged(u));
        assert(is_ours(x.last(), false));
        lemma_not_ours_of_unmanaged(u);
        assert(not_ours(x, false) == unmanaged(u));
        assert(jget(Json::Object(h2), e) == jfind(h2, e));
    }
}

} // verus!
