//! What the session log records: event names, the tool an agent invoked,
//! tool results, and a compact view of each session.
use vstd::prelude::*;
use crate::text::{
    chars_of, string_of, copy_range, eq_ic, eq_ignore_case_lit, is_digit, is_ascii_digit,
    all_digits, digits_val, lemma_digits_val_nonneg, eq_lit,
};
use crate::json::{Json, JsonValue, jv, jv_fields, jget, json_get, get_str, get_str_or, lemma_jv_object};
use crate::hook_config::json_text;
use crate::events::{get_str_exec, get_str_or_exec};
use crate::session::{App, Status, ActivityKind, Session, SessionView, ActivityView};
use crate::routing::{SessionRouting, RoutingView, resolve_parent_spec};
use crate::apply::{sessions_view, session_index};
use crate::ui::find_session_by_id;
use crate::events::{spec_describe_pre_tool, describe_pre_tool};
use crate::assoc::assoc_get;

verus! {

broadcast use vstd::string::group_string_axioms;

/// Longest text kept for a logged string.
pub const MAX_LOG_STR: usize = 800;

/// Longest prompt preview kept for a Task call.
pub const MAX_PROMPT_PREVIEW: usize = 200;

/// Logging is on unless the setting is `0` or `false` (any case).
pub open spec fn spec_logging_enabled(setting: Option<Seq<char>>) -> bool {
    match setting {
        None => true,
        Some(v) => !(v == "0"@ || eq_ic(v, "false"@)),
    }
}

/// Whether session logging is on, given the value of its environment
/// setting (if set).
pub fn logging_enabled(setting: Option<&str>) -> (r: bool)
    ensures
        r == spec_logging_enabled(
            match setting {
                Some(v) => Some(v@),
                None => None,
            },
        ),
{
    match setting {
        None => true,
        Some(v) => {
            let c = chars_of(v);
            !(eq_lit(c.as_slice(), "0") || eq_ignore_case_lit(c.as_slice(), "false"))
        },
    }
}

/// At most `max` characters; a longer text keeps `max` and gains `…`.
pub open spec fn spec_trunc(s: Seq<char>, max: int) -> Seq<char> {
    if s.len() <= max {
        s
    } else {
        s.take(max).push('\u{2026}')
    }
}

pub fn trunc(s: &str, max: usize) -> (r: String)
    ensures
        r@ == spec_trunc(s@, max as int),
{
    let c = chars_of(s);
    if c.len() <= max {
        return string_of(c.as_slice());
    }
    let mut out = copy_range(c.as_slice(), 0, max);
    out.push('\u{2026}');
    string_of(out.as_slice())
}

/// The event name to log: an `unknown` event (any case) is named by the
/// payload's `hook_event_name` when it has one.
pub open spec fn spec_normalize_event_name(raw: Seq<char>, p: JsonValue) -> Seq<char> {
    if eq_ic(raw, "unknown"@) {
        get_str_or(p, "hook_event_name"@, raw)
    } else {
        raw
    }
}

pub fn normalize_event_name(raw: &str, p: &JsonValue) -> (r: String)
    ensures
        r@ == spec_normalize_event_name(raw@, *p),
{
    let c = chars_of(raw);
    if eq_ignore_case_lit(c.as_slice(), "unknown") {
        match get_str_exec(p, "hook_event_name") {
            Some(n) => string_of(n.as_slice()),
            None => string_of(c.as_slice()),
        }
    } else {
        string_of(c.as_slice())
    }
}

// ───────────────────────── the invoked tool ─────────────────────────

/// A text member or null.
pub open spec fn opt_text(s: Option<Seq<char>>) -> Json {
    match s {
        Some(t) => Json::Str(t),
        None => Json::Null,
    }
}

/// `input.<key>` as text.
pub open spec fn input_str(p: JsonValue, key: Seq<char>) -> Option<Seq<char>> {
    match json_get(p, "tool_input"@) {
        Some(i) => get_str(i, key),
        None => None,
    }
}

/// `input.file_path`, or `input.path` when there is no `file_path` member,
/// as text.
pub open spec fn input_path(p: JsonValue) -> Option<Seq<char>> {
    match json_get(p, "tool_input"@) {
        Some(i) => match json_get(i, "file_path"@) {
            Some(x) => match x {
                JsonValue::Str(s) => Some(s@),
                _ => None,
            },
            None => get_str(i, "path"@),
        },
        None => None,
    }
}

pub open spec fn trunc_opt(s: Option<Seq<char>>, max: int) -> Option<Seq<char>> {
    match s {
        Some(t) => Some(spec_trunc(t, max)),
        None => None,
    }
}

pub open spec fn is_shell_tool(tool: Seq<char>) -> bool {
    tool == "Shell"@ || tool == "Bash"@ || tool == "PowerShell"@
}

pub open spec fn is_file_tool(tool: Seq<char>) -> bool {
    tool == "Read"@ || tool == "Write"@ || tool == "StrReplace"@ || tool == "Delete"@
}

pub open spec fn is_search_tool(tool: Seq<char>) -> bool {
    tool == "Grep"@ || tool == "Glob"@ || tool == "SemanticSearch"@
}

/// What the agent invoked, from a `preToolUse` payload: the tool and the
/// arguments worth logging for it.
pub open spec fn spec_extract_ai_tool(p: JsonValue) -> Json {
    let tool = get_str_or(p, "tool_name"@, ""@);
    if is_shell_tool(tool) {
        Json::Object(
            seq![
                (
                    "command"@,
                    Json::Str(
                        spec_trunc(
                            match input_str(p, "command"@) {
                                Some(c) => c,
                                None => seq![],
                            },
                            MAX_LOG_STR as int,
                        ),
                    ),
                ),
                ("cwd"@, opt_text(input_str(p, "cwd"@))),
                ("tool"@, Json::Str(tool)),
            ],
        )
    } else if is_file_tool(tool) {
        Json::Object(
            seq![
                ("path"@, opt_text(trunc_opt(input_path(p), MAX_LOG_STR as int))),
                ("tool"@, Json::Str(tool)),
            ],
        )
    } else if tool == "Task"@ {
        Json::Object(
            seq![
                ("description"@, opt_text(input_str(p, "description"@))),
                (
                    "prompt_preview"@,
                    opt_text(trunc_opt(input_str(p, "prompt"@), MAX_PROMPT_PREVIEW as int)),
                ),
                (
                    "run_in_background"@,
                    match json_get(p, "tool_input"@) {
                        Some(i) => match json_get(i, "run_in_background"@) {
                            Some(JsonValue::Bool(b)) => Json::Bool(b),
                            _ => Json::Null,
                        },
                        None => Json::Null,
                    },
                ),
                ("subagent_type"@, opt_text(input_str(p, "subagent_type"@))),
                ("tool"@, Json::Str("Task"@)),
            ],
        )
    } else if is_search_tool(tool) {
        Json::Object(
            seq![
                ("glob"@, opt_text(input_str(p, "glob"@))),
                ("path"@, opt_text(trunc_opt(input_path(p), MAX_LOG_STR as int))),
                ("pattern"@, opt_text(input_str(p, "pattern"@))),
                ("tool"@, Json::Str(tool)),
            ],
        )
    } else if tool.len() > 0 {
        Json::Object(seq![("tool"@, Json::Str(tool))])
    } else {
        Json::Null
    }
}

fn input_str_exec(p: &JsonValue, key: &str) -> (r: Option<Vec<char>>)
    ensures
        match r {
            Some(s) => input_str(*p, key@) == Some(s@),
            None => input_str(*p, key@) is None,
        },
{
    match p.get("tool_input") {
        Some(i) => get_str_exec(i, key),
        None => None,
    }
}

fn input_path_exec(p: &JsonValue) -> (r: Option<Vec<char>>)
    ensures
        match r {
            Some(s) => input_path(*p) == Some(s@),
            None => input_path(*p) is None,
        },
{
    match p.get("tool_input") {
        Some(i) => match i.get("file_path") {
            Some(x) => match x {
                JsonValue::Str(s) => Some(chars_of(s.as_str())),
                _ => None,
            },
            None => get_str_exec(i, "path"),
        },
        None => None,
    }
}

fn opt_text_exec(s: Option<Vec<char>>) -> (r: JsonValue)
    ensures
        jv(r) == opt_text(
            match s {
                Some(t) => Some(t@),
                None => None,
            },
        ),
{
    match s {
        Some(t) => JsonValue::Str(string_of(t.as_slice())),
        None => JsonValue::Null,
    }
}

fn trunc_opt_exec(s: Option<Vec<char>>, max: usize) -> (r: Option<Vec<char>>)
    ensures
        match r {
            Some(t) => trunc_opt(
                match s {
                    Some(x) => Some(x@),
                    None => None,
                },
                max as int,
            ) == Some(t@),
            None => s is None,
        },
{
    match s {
        Some(t) => Some(chars_of(trunc(string_of(t.as_slice()).as_str(), max).as_str())),
        None => None,
    }
}

fn text_member(key: &str, s: &[char]) -> (r: (String, JsonValue))
    ensures
        r.0@ == key@,
        jv(r.1) == Json::Str(s@),
{
    (key.to_string(), JsonValue::Str(string_of(s)))
}

/// What the agent invoked (see [`spec_extract_ai_tool`]).
pub fn extract_ai_tool(p: &JsonValue) -> (r: JsonValue)
    ensures
        jv(r) == spec_extract_ai_tool(*p),
{
    let tool = get_str_or_exec(p, "tool_name", "");
    proof {
        reveal_strlit("");
    }
    let t = tool.as_slice();
    let mut f: Vec<(String, JsonValue)> = Vec::new();
    if eq_lit(t, "Shell") || eq_lit(t, "Bash") || eq_lit(t, "PowerShell") {
        let cmd = match input_str_exec(p, "command") {
            Some(c) => c,
            None => Vec::new(),
        };
        let tc = chars_of(trunc(string_of(cmd.as_slice()).as_str(), MAX_LOG_STR).as_str());
        f.push(text_member("command", tc.as_slice()));
        f.push(("cwd".to_string(), opt_text_exec(input_str_exec(p, "cwd"))));
        f.push(text_member("tool", t));
    } else if eq_lit(t, "Read") || eq_lit(t, "Write") || eq_lit(t, "StrReplace") || eq_lit(
        t,
        "Delete",
    ) {
        f.push(
            ("path".to_string(), opt_text_exec(trunc_opt_exec(input_path_exec(p), MAX_LOG_STR))),
        );
        f.push(text_member("tool", t));
    } else if eq_lit(t, "Task") {
        f.push(("description".to_string(), opt_text_exec(input_str_exec(p, "description"))));
        f.push(
            (
                "prompt_preview".to_string(),
                opt_text_exec(trunc_opt_exec(input_str_exec(p, "prompt"), MAX_PROMPT_PREVIEW)),
            ),
        );
        let bg = match p.get("tool_input") {
            Some(i) => match i.get("run_in_background") {
                Some(JsonValue::Bool(b)) => JsonValue::Bool(*b),
                _ => JsonValue::Null,
            },
            None => JsonValue::Null,
        };
        f.push(("run_in_background".to_string(), bg));
        f.push(("subagent_type".to_string(), opt_text_exec(input_str_exec(p, "subagent_type"))));
        f.push(("tool".to_string(), json_text("Task")));
    } else if eq_lit(t, "Grep") || eq_lit(t, "Glob") || eq_lit(t, "SemanticSearch") {
        f.push(("glob".to_string(), opt_text_exec(input_str_exec(p, "glob"))));
        f.push(
            ("path".to_string(), opt_text_exec(trunc_opt_exec(input_path_exec(p), MAX_LOG_STR))),
        );
        f.push(("pattern".to_string(), opt_text_exec(input_str_exec(p, "pattern"))));
        f.push(text_member("tool", t));
    } else if t.len() > 0 {
        f.push(text_member("tool", t));
    } else {
        return JsonValue::Null;
    }
    proof {
        lemma_jv_object(f);
        assert(jv_fields(f@) =~= match spec_extract_ai_tool(*p) {
            Json::Object(fs) => fs,
            _ => seq![],
        });
    }
    JsonValue::Object(f)
}

// ───────────────────────── tool results ─────────────────────────

/// A JSON number's text as a 64-bit signed integer, when it is one (an
/// optional `-`, then decimal digits, in range; negative zero is not one).
pub open spec fn spec_number_i64(t: Seq<char>) -> Option<i64> {
    let neg = t.len() > 0 && t[0] == '-';
    let d = if neg {
        t.drop_first()
    } else {
        t
    };
    if d.len() == 0 || !all_digits(d) {
        None
    } else if neg {
        if 1 <= digits_val(d) <= 0x8000_0000_0000_0000 {
            Some((0 - digits_val(d)) as i64)
        } else {
            None
        }
    } else if digits_val(d) <= i64::MAX {
        Some(digits_val(d) as i64)
    } else {
        None
    }
}

fn number_i64(t: &[char]) -> (r: Option<i64>)
    ensures
        r == spec_number_i64(t@),
{
    let neg = t.len() > 0 && t[0] == '-';
    let start: usize = if neg {
        1
    } else {
        0
    };
    let d = copy_range(t, start, t.len());
    proof {
        if neg {
            assert(d@ == t@.drop_first());
        } else {
            assert(d@ == t@);
        }
    }
    if d.len() == 0 {
        return None;
    }
    let big: u128 = 0x8000_0000_0000_0001;
    let mut acc: u128 = 0;
    let mut k: usize = 0;
    while k < d.len()
        invariant
            k <= d@.len(),
            d@.len() > 0,
            neg == (t@.len() > 0 && t@[0] == '-'),
            d@ == (if neg {
                t@.drop_first()
            } else {
                t@
            }),
            all_digits(d@.take(k as int)),
            acc <= big,
            big == 0x8000_0000_0000_0001,
            acc == if digits_val(d@.take(k as int)) < big {
                digits_val(d@.take(k as int))
            } else {
                big as int
            },
        decreases d.len() - k,
    {
        let c = d[k];
        if !is_ascii_digit(c) {
            assert(!all_digits(d@)) by {
                assert(!is_digit(d@[k as int]));
            }
            return None;
        }
        let ghost pre = d@.take(k as int);
        assert(d@.take(k + 1).drop_last() == pre);
        assert(d@.take(k + 1).last() == c);
        proof {
            lemma_digits_val_nonneg(pre);
        }
        let dv = (c as u32 - 48) as u128;
        if acc >= big {
            acc = big;
        } else {
            let nv = acc * 10 + dv;
            acc = if nv < big {
                nv
            } else {
                big
            };
        }
        assert(all_digits(d@.take(k + 1))) by {
            assert forall|i: int| 0 <= i < k + 1 implies is_digit(#[trigger] d@.take(k + 1)[i]) by {
                if i < k {
                    assert(d@.take(k + 1)[i] == pre[i]);
                }
            }
        }
        k += 1;
    }
    assert(d@.take(d@.len() as int) == d@);
    if neg {
        if 1 <= acc && acc <= 0x8000_0000_0000_0000 {
            Some((0i128 - acc as i128) as i64)
        } else {
            None
        }
    } else if acc <= 0x7fff_ffff_ffff_ffff {
        Some(acc as i64)
    } else {
        None
    }
}

/// The decimal text of a signed number.
pub open spec fn signed_text(n: i64) -> Seq<char> {
    if n < 0 {
        seq!['-'] + crate::text::dec((0 - n) as nat)
    } else {
        crate::text::dec(n as nat)
    }
}

fn signed_text_exec(n: i64) -> (r: Vec<char>)
    ensures
        r@ == signed_text(n),
{
    if n < 0 {
        let m: u64 = (0i128 - n as i128) as u64;
        let mut v: Vec<char> = Vec::new();
        v.push('-');
        let d = crate::text::dec_exec(m);
        crate::text::push_all(&mut v, d.as_slice());
        assert(v@ =~= seq!['-'] + d@);
        v
    } else {
        crate::text::dec_exec(n as u64)
    }
}

/// The `exitCode` a shell tool's (JSON) output reports, if it is an
/// integer.
pub open spec fn exit_code(parsed: Option<Json>) -> Option<i64> {
    match parsed {
        Some(v) => match jget(v, "exitCode"@) {
            Some(Json::Number(t)) => spec_number_i64(t),
            _ => None,
        },
        None => None,
    }
}

/// What a `postToolUse` payload reports: the tool and a preview of its
/// output (null when there is no output), with the exit code of a shell
/// tool whose output is JSON with an integer `exitCode`. `parsed` is the
/// output read as JSON, when it is JSON.
pub open spec fn spec_extract_post_tool_result(p: JsonValue, parsed: Option<Json>) -> Json {
    let tool = get_str_or(p, "tool_name"@, ""@);
    let response = get_str_or(p, "tool_response"@, ""@);
    if response.len() == 0 {
        Json::Null
    } else {
        let rest = seq![
            ("response_preview"@, Json::Str(spec_trunc(response, MAX_LOG_STR as int))),
            ("tool"@, Json::Str(tool)),
        ];
        match exit_code(parsed) {
            Some(code) => if is_shell_tool(tool) {
                Json::Object(seq![("exit_code"@, Json::Number(signed_text(code)))] + rest)
            } else {
                Json::Object(rest)
            },
            None => Json::Object(rest),
        }
    }
}

pub fn extract_post_tool_result(p: &JsonValue, parsed: Option<&JsonValue>) -> (r: JsonValue)
    ensures
        jv(r) == spec_extract_post_tool_result(
            *p,
            match parsed {
                Some(v) => Some(jv(*v)),
                None => None,
            },
        ),
{
    let tool = get_str_or_exec(p, "tool_name", "");
    let response = get_str_or_exec(p, "tool_response", "");
    proof {
        reveal_strlit("");
    }
    if response.len() == 0 {
        return JsonValue::Null;
    }
    let t = tool.as_slice();
    let shell = eq_lit(t, "Shell") || eq_lit(t, "Bash") || eq_lit(t, "PowerShell");
    let code: Option<i64> = match parsed {
        Some(v) => match v.get("exitCode") {
            Some(JsonValue::Number(n)) => number_i64(chars_of(n.as_str()).as_slice()),
            _ => None,
        },
        None => None,
    };
    let mut f: Vec<(String, JsonValue)> = Vec::new();
    match code {
        Some(c) => {
            if shell {
                f.push(("exit_code".to_string(), JsonValue::Number(string_of(signed_text_exec(c).as_slice()))));
            }
        },
        None => {},
    }
    let preview = chars_of(trunc(string_of(response.as_slice()).as_str(), MAX_LOG_STR).as_str());
    f.push(text_member("response_preview", preview.as_slice()));
    f.push(text_member("tool", t));
    proof {
        lemma_jv_object(f);
        assert(jv_fields(f@) =~= match spec_extract_post_tool_result(
            *p,
            match parsed {
                Some(v) => Some(jv(*v)),
                None => None,
            },
        ) {
            Json::Object(fs) => fs,
            _ => seq![],
        });
    }
    JsonValue::Object(f)
}

// ───────────────────────── session lines ─────────────────────────

pub open spec fn spec_status_str(s: Status) -> Seq<char> {
    match s {
        Status::Idle => "idle"@,
        Status::Working => "working"@,
        Status::Done => "done"@,
        Status::Errored => "errored"@,
    }
}

pub fn status_str(s: Status) -> (r: &'static str)
    ensures
        r@ == spec_status_str(s),
{
    match s {
        Status::Idle => "idle",
        Status::Working => "working",
        Status::Done => "done",
        Status::Errored => "errored",
    }
}

pub open spec fn spec_activity_kind_str(k: ActivityKind) -> Seq<char> {
    match k {
        ActivityKind::Normal => "normal"@,
        ActivityKind::Success => "success"@,
        ActivityKind::Failure => "failure"@,
    }
}

pub fn activity_kind_str(k: ActivityKind) -> (r: &'static str)
    ensures
        r@ == spec_activity_kind_str(k),
{
    match k {
        ActivityKind::Normal => "normal",
        ActivityKind::Success => "success",
        ActivityKind::Failure => "failure",
    }
}

pub open spec fn spec_app_str(a: App) -> Seq<char> {
    match a {
        App::Codex => "codex"@,
        App::Cursor => "cursor"@,
        App::Claude => "claude_code"@,
    }
}

pub fn app_str(a: App) -> (r: &'static str)
    ensures
        r@ == spec_app_str(a),
{
    match a {
        App::Codex => "codex",
        App::Cursor => "cursor",
        App::Claude => "claude_code",
    }
}

/// Most activity lines logged per session.
pub const LOGGED_ACTIVITY: usize = 5;

/// An activity line as logged.
pub struct ActivityLine {
    pub summary: String,
    pub at_ms: u64,
    pub kind: String,
}

/// A session as logged with each snapshot.
pub struct SessionLine {
    pub id: String,
    pub app: String,
    pub project: String,
    pub status: String,
    pub current_action: String,
    pub acknowledged_done: bool,
    pub recent_activity: Vec<ActivityLine>,
}

pub open spec fn activity_line_ok(l: ActivityLine, a: ActivityView) -> bool {
    &&& l.summary@ == a.summary
    &&& l.at_ms == a.at_ms
    &&& l.kind@ == spec_activity_kind_str(a.kind)
}

/// The logged view of a session: its names and state, and its newest five
/// activity lines.
pub fn session_line(s: &Session) -> (r: SessionLine)
    ensures
        r.id@ == s@.id,
        r.app@ == spec_app_str(s@.app),
        r.project@ == s@.project,
        r.status@ == spec_status_str(s@.status),
        r.current_action@ == s@.current_action,
        r.acknowledged_done == s@.acknowledged_done,
        r.recent_activity@.len() == if s@.recent_activity.len() < LOGGED_ACTIVITY {
            s@.recent_activity.len()
        } else {
            LOGGED_ACTIVITY as nat
        },
        forall|i: int|
            0 <= i < r.recent_activity@.len() ==> activity_line_ok(
                #[trigger] r.recent_activity@[i],
                s@.recent_activity[i],
            ),
{
    let n = if s.recent_activity.len() < LOGGED_ACTIVITY {
        s.recent_activity.len()
    } else {
        LOGGED_ACTIVITY
    };
    let mut lines: Vec<ActivityLine> = Vec::new();
    let mut i: usize = 0;
    while i < n
        invariant
            n <= s.recent_activity@.len(),
            i <= n,
            lines@.len() == i,
            forall|j: int|
                0 <= j < i ==> activity_line_ok(#[trigger] lines@[j], s@.recent_activity[j]),
        decreases n - i,
    {
        let a = &s.recent_activity[i];
        lines.push(
            ActivityLine {
                summary: a.summary.clone(),
                at_ms: a.at_ms,
                kind: activity_kind_str(a.kind).to_string(),
            },
        );
        i += 1;
    }
    SessionLine {
        id: s.id.clone(),
        app: app_str(s.app).to_string(),
        project: s.project.clone(),
        status: status_str(s.status).to_string(),
        current_action: s.current_action.clone(),
        acknowledged_done: s.acknowledged_done,
        recent_activity: lines,
    }
}

// ───────────────────────── hook event lines ─────────────────────────

/// The parent a conversation rolls up into, as far as the event shows it:
/// the recorded link, else the payload's `parent_conversation_id` when it
/// names another conversation.
pub open spec fn rollup_parent(r: RoutingView, conv: Seq<char>, p: JsonValue) -> Option<Seq<char>> {
    if r.child_to_parent.contains_key(conv) {
        Some(r.child_to_parent[conv])
    } else {
        match get_str(p, "parent_conversation_id"@) {
            Some(x) => if x.len() > 0 && x != conv {
                Some(x)
            } else {
                None
            },
            None => None,
        }
    }
}

/// What the overlay shows for session `sid`: status, current action and the
/// newest feed line (all empty when there is no such session).
pub open spec fn shown_state(ss: Seq<SessionView>, sid: Seq<char>) -> (Seq<char>, Seq<char>, Seq<char>) {
    let k = session_index(ss, sid, 0);
    if k >= 0 {
        (
            spec_status_str(ss[k].status),
            ss[k].current_action,
            if ss[k].recent_activity.len() > 0 {
                ss[k].recent_activity[0].summary
            } else {
                seq![]
            },
        )
    } else {
        (seq![], seq![], seq![])
    }
}

/// The log line for a hook event: the event and its normalized name, the
/// conversation and the session it went to, what the overlay shows for that
/// session, what the agent invoked, whether the shown action matches the
/// label the hook gives, and the payload itself. `parsed` is the tool
/// response read as JSON, when it is JSON.
pub open spec fn spec_hook_event_line(
    event: Seq<char>,
    ts: u64,
    p: JsonValue,
    conv: Seq<char>,
    touched: Option<Seq<char>>,
    r: RoutingView,
    ss: Seq<SessionView>,
    parsed: Option<Json>,
) -> Json {
    let sid = match touched {
        Some(t) => t,
        None => resolve_parent_spec(r, conv, p),
    };
    let shown = shown_state(ss, sid);
    let norm = spec_normalize_event_name(event, p);
    let pre = eq_ic(norm, "preToolUse"@);
    let label = if pre {
        Some(spec_describe_pre_tool(p))
    } else {
        None
    };
    let tool = if pre {
        spec_extract_ai_tool(p)
    } else if eq_ic(norm, "postToolUse"@) {
        spec_extract_post_tool_result(p, parsed)
    } else {
        Json::Null
    };
    Json::Object(
        seq![
            ("ai"@, Json::Object(seq![("label_from_hook"@, opt_text(label)), ("tool"@, tool)])),
            ("conversation_id"@, Json::Str(conv)),
            ("event"@, Json::Str(event)),
            ("event_norm"@, Json::Str(norm)),
            ("hook_ts"@, Json::Number(crate::text::dec(ts as nat))),
            ("payload"@, jv(p)),
            (
                "pill_matches_ai_label"@,
                Json::Bool(
                    match label {
                        Some(l) => l == shown.1,
                        None => true,
                    },
                ),
            ),
            ("rollup_parent"@, opt_text(rollup_parent(r, conv, p))),
            ("session_id"@, Json::Str(sid)),
            ("type"@, Json::Str("hook_event"@)),
            (
                "ui_shown"@,
                Json::Object(
                    seq![
                        ("hover_top_activity"@, Json::Str(shown.2)),
                        ("pill"@, Json::Str(shown.1)),
                        ("status"@, Json::Str(shown.0)),
                    ],
                ),
            ),
        ],
    )
}

fn text_value(s: &[char]) -> (r: JsonValue)
    ensures
        jv(r) == Json::Str(s@),
{
    JsonValue::Str(string_of(s))
}

/// The log line for a hook event (see [`spec_hook_event_line`]).
pub fn hook_event_line(
    event: &str,
    ts: u64,
    p: JsonValue,
    conv: &str,
    touched: Option<&String>,
    routing: &SessionRouting,
    sessions: &Vec<Session>,
    parsed: Option<&JsonValue>,
) -> (r: JsonValue)
    requires
        routing.wf(),
    ensures
        jv(r) == spec_hook_event_line(
            event@,
            ts,
            p,
            conv@,
            match touched {
                Some(t) => Some(t@),
                None => None,
            },
            routing@,
            sessions_view(sessions@),
            match parsed {
                Some(v) => Some(jv(*v)),
                None => None,
            },
        ),
{
    let ghost pj = jv(p);
    let ghost pv = p;
    let sid: String = match touched {
        Some(t) => t.clone(),
        None => routing.resolve_parent(conv, &p),
    };
    let k = find_session_by_id(sessions, sid.as_str());
    let (status, action, top): (Vec<char>, Vec<char>, Vec<char>) = if k < sessions.len() {
        let s = &sessions[k];
        let top = if s.recent_activity.len() > 0 {
            chars_of(s.recent_activity[0].summary.as_str())
        } else {
            Vec::new()
        };
        (chars_of(status_str(s.status)), chars_of(s.current_action.as_str()), top)
    } else {
        (Vec::new(), Vec::new(), Vec::new())
    };
    let norm = normalize_event_name(event, &p);
    let nc = chars_of(norm.as_str());
    let pre = eq_ignore_case_lit(nc.as_slice(), "preToolUse");
    let label: Option<Vec<char>> = if pre {
        Some(describe_pre_tool(&p))
    } else {
        None
    };
    let tool = if pre {
        extract_ai_tool(&p)
    } else if eq_ignore_case_lit(nc.as_slice(), "postToolUse") {
        extract_post_tool_result(&p, parsed)
    } else {
        JsonValue::Null
    };
    let matches = match &label {
        Some(l) => crate::text::seq_eq(l.as_slice(), action.as_slice()),
        None => true,
    };
    let conv_c = chars_of(conv);
    let rollup: Option<Vec<char>> = match assoc_get(&routing.child_to_parent, conv_c.as_slice()) {
        Some(x) => Some(chars_of(x.as_str())),
        None => match get_str_exec(&p, "parent_conversation_id") {
            Some(x) => if x.len() > 0 && !crate::text::seq_eq(x.as_slice(), conv_c.as_slice()) {
                Some(x)
            } else {
                None
            },
            None => None,
        },
    };
    let ghost ss = sessions_view(sessions@);
    let ghost ssid = match touched {
        Some(t) => t@,
        None => resolve_parent_spec(routing@, conv@, pv),
    };
    assert(sid@ == ssid);
    assert(status@ == shown_state(ss, ssid).0);
    assert(action@ == shown_state(ss, ssid).1);
    assert(top@ == shown_state(ss, ssid).2);
    assert(nc@ == spec_normalize_event_name(event@, pv));
    assert(match rollup {
        Some(x) => rollup_parent(routing@, conv@, pv) == Some(x@),
        None => rollup_parent(routing@, conv@, pv) is None,
    });
    let mut ai: Vec<(String, JsonValue)> = Vec::new();
    ai.push(("label_from_hook".to_string(), opt_text_exec(label)));
    ai.push(("tool".to_string(), tool));
    let mut shown: Vec<(String, JsonValue)> = Vec::new();
    shown.push(("hover_top_activity".to_string(), text_value(top.as_slice())));
    shown.push(("pill".to_string(), text_value(action.as_slice())));
    shown.push(("status".to_string(), text_value(status.as_slice())));
    proof {
        lemma_jv_object(ai);
        lemma_jv_object(shown);
    }
    let ghost aiv = jv(JsonValue::Object(ai));
    let ghost shownv = jv(JsonValue::Object(shown));
    let mut f: Vec<(String, JsonValue)> = Vec::new();
    f.push(("ai".to_string(), JsonValue::Object(ai)));
    f.push(("conversation_id".to_string(), json_text(conv)));
    f.push(("event".to_string(), json_text(event)));
    f.push(("event_norm".to_string(), text_value(nc.as_slice())));
    f.push(("hook_ts".to_string(), JsonValue::Number(string_of(crate::text::dec_exec(ts).as_slice()))));
    f.push(("payload".to_string(), p));
    f.push(("pill_matches_ai_label".to_string(), JsonValue::Bool(matches)));
    f.push(("rollup_parent".to_string(), opt_text_exec(rollup)));
    f.push(("session_id".to_string(), JsonValue::Str(sid)));
    f.push(("type".to_string(), json_text("hook_event")));
    f.push(("ui_shown".to_string(), JsonValue::Object(shown)));
    proof {
        lemma_jv_object(f);
        let ghost norm_s = spec_normalize_event_name(event@, pv);
        let ghost label_s = if eq_ic(norm_s, "preToolUse"@) {
            Some(spec_describe_pre_tool(pv))
        } else {
            None
        };
        let ghost tool_s = if eq_ic(norm_s, "preToolUse"@) {
            spec_extract_ai_tool(pv)
        } else if eq_ic(norm_s, "postToolUse"@) {
            spec_extract_post_tool_result(
                pv,
                match parsed {
                    Some(v) => Some(jv(*v)),
                    None => None,
                },
            )
        } else {
            Json::Null
        };
        assert(jv(ai@[1].1) == tool_s);
        assert(jv_fields(ai@) =~= seq![("label_from_hook"@, opt_text(label_s)), ("tool"@, tool_s)]);
        assert(jv_fields(shown@) =~= seq![
            ("hover_top_activity"@, Json::Str(shown_state(ss, ssid).2)),
            ("pill"@, Json::Str(shown_state(ss, ssid).1)),
            ("status"@, Json::Str(shown_state(ss, ssid).0)),
        ]);
        assert(matches == match label_s {
            Some(l) => l == shown_state(ss, ssid).1,
            None => true,
        });
        assert(jv_fields(f@) =~= match spec_hook_event_line(
            event@,
            ts,
            pv,
            conv@,
            match touched {
                Some(t) => Some(t@),
                None => None,
            },
            routing@,
            sessions_view(sessions@),
            match parsed {
                Some(v) => Some(jv(*v)),
                None => None,
            },
        ) {
            Json::Object(fs) => fs,
            _ => seq![],
        });
    }
    JsonValue::Object(f)
}

} // verus!
