//! The session state machine: one hook event applied to the sessions.
use vstd::prelude::*;
use crate::text::{
    chars_of, string_of, copy_all, push_str, str_eq, eq_lit, trim, trim_exec, dec, dec_exec,
};
use crate::json::{JsonValue, get_str, get_str_or};
use crate::bash::{spec_activity_dedupe_key, activity_dedupe_key_chars};
use crate::session::{
    Session, SessionView, Status, ActivityKind, BufferedActivity, buffered_view, flush_spec,
    push_activity_spec, new_session_view, spec_project_basename, project_basename,
    spec_format_parallel_summary, buffered_summaries,
    MAX_ACTIVITY_ENTRIES,
};
use crate::post::{
    gh_pr_post_spec, push_opt, gh_issue_summary, rg_summary, git_log_summary, git_blame_summary,
    node_probe_summary, spec_parse_test_result, spec_should_parse_commit_hash,
    spec_parse_commit_hash, parse_gh_pr_post, parse_gh_issue_post, parse_rg_post,
    parse_git_log_post, parse_git_blame_post, parse_node_probe_post, parse_test_result,
    should_parse_commit_hash, parse_commit_hash,
};
use crate::events::{
    spec_describe_pre_tool, describe_pre_tool, spec_extract_user_prompt, extract_user_prompt,
    spec_truncate_prompt, truncate_prompt, spec_extract_done_summary, extract_done_summary,
    tool_command, tool_command_exec, get_str_exec, get_str_or_exec, is_shell_tool,
    is_shell_tool_exec, str_or_alias, str_or_alias_exec, event_cwd, event_cwd_exec, internal_event,
    internal_event_exec,
};
use crate::files::{
    sorted_entries, spec_track_files, track_files_from_post, spec_track_file_edit, track_file_edit,
};

verus! {

broadcast use vstd::string::group_string_axioms;

/// Most tool calls kept in the per-turn buffer.
pub const MAX_TURN_BUFFER: usize = 8;

/// A hook event as the relay hands it over.
#[derive(Debug)]
pub struct RawEvent {
    pub event: String,
    pub payload: JsonValue,
    pub ts: u64,
    pub hook_pid: Option<u32>,
    pub parent_pid: Option<u32>,
}

// ───────────────────────── per-event transitions ─────────────────────────

/// Fields every event refreshes: the working directory (first time only),
/// the parent process (first time only), the last event time and the model.
pub open spec fn touch_spec(
    s: SessionView,
    p: JsonValue,
    cwd: Seq<char>,
    parent_pid: Option<u32>,
    ts: u64,
) -> SessionView {
    let s1 = if s.cwd.len() == 0 && cwd.len() > 0 {
        SessionView { cwd, project: spec_project_basename(cwd), ..s }
    } else {
        s
    };
    let s2 = if s1.parent_pid is None {
        SessionView { parent_pid, ..s1 }
    } else {
        s1
    };
    let s3 = SessionView { last_event_at_ms: ts, ..s2 };
    match get_str(p, "model"@) {
        Some(m) => SessionView { model: m, ..s3 },
        None => s3,
    }
}

/// A new turn: working and thinking, with an empty feed, buffer and prompt.
pub open spec fn reset_turn_spec(s: SessionView, ts: u64) -> SessionView {
    SessionView {
        status: Status::Working,
        current_action: "Thinking\u{2026}"@,
        acknowledged_done: false,
        started_at_ms: ts,
        last_prompt: seq![],
        recent_activity: seq![],
        next_activity_seq: 0,
        turn_activity_entries: seq![],
        turn_activity_turn_id: seq![],
        done_summary: None,
        ..s
    }
}

/// `UserPromptSubmit`: a new turn that remembers the (trimmed, truncated)
/// prompt when there is one.
pub open spec fn prompt_spec(s: SessionView, p: JsonValue, ts: u64) -> SessionView {
    let r = reset_turn_spec(s, ts);
    match spec_extract_user_prompt(p) {
        Some(pr) => if trim(pr).len() > 0 {
            SessionView { last_prompt: spec_truncate_prompt(trim(pr)), ..r }
        } else {
            r
        },
        None => r,
    }
}

/// The turn buffer with one more tool call, unless one with the same key is
/// there already; the oldest calls leave beyond eight.
pub open spec fn buffer_spec(
    b: Seq<(Seq<char>, Seq<char>)>,
    summary: Seq<char>,
    key: Seq<char>,
) -> Seq<(Seq<char>, Seq<char>)> {
    if exists|i: int| 0 <= i < b.len() && (#[trigger] b[i]).1 == key {
        b
    } else {
        let c = b.push((summary, key));
        if c.len() > MAX_TURN_BUFFER {
            c.skip(c.len() - MAX_TURN_BUFFER)
        } else {
            c
        }
    }
}

/// `PreToolUse`: the call becomes the current action and joins the turn
/// buffer; a call of another turn first flushes the buffer into the feed.
pub open spec fn pre_tool_spec(s: SessionView, p: JsonValue, ts: u64) -> SessionView {
    let tool = get_str_or(p, "tool_name"@, ""@);
    let s1 = SessionView {
        status: Status::Working,
        last_bash_command: if is_shell_tool(tool) {
            tool_command(p)
        } else {
            s.last_bash_command
        },
        ..s
    };
    let action = spec_describe_pre_tool(p);
    let turn_id = str_or_alias(p, "turn_id"@, "generation_id"@);
    let s2 = if s1.turn_activity_turn_id.len() > 0 && turn_id != s1.turn_activity_turn_id {
        flush_spec(s1, ts, s1.turn_activity_turn_id)
    } else {
        s1
    };
    let s3 = if action.len() > 0 {
        let key = if is_shell_tool(tool) {
            spec_activity_dedupe_key(s2.last_bash_command)
        } else {
            action
        };
        SessionView { turn_activity_entries: buffer_spec(s2.turn_activity_entries, action, key), ..s2 }
    } else {
        s2
    };
    SessionView {
        turn_activity_turn_id: if turn_id.len() > 0 {
            turn_id
        } else {
            s3.turn_activity_turn_id
        },
        current_action: action,
        last_turn_id: turn_id,
        ..s3
    }
}

/// Feed line for a test run: `N tests passed` or `N tests failed`.
pub open spec fn test_summary(passed: u32, failed: u32) -> Seq<char> {
    if failed == 0 {
        dec(passed as nat) + " tests passed"@
    } else {
        dec(failed as nat) + " tests failed"@
    }
}

/// What a Bash call's output adds: PR, issue, search, log, blame and probe
/// lines, the test tally, and the commit hash after a commit-making command.
pub open spec fn bash_post_spec(s: SessionView, r: Seq<char>, ts: u64) -> SessionView {
    let a = gh_pr_post_spec(s, r, ts);
    let b = push_opt(a, gh_issue_summary(r), ts, ActivityKind::Normal);
    let c = push_opt(b, rg_summary(r), ts, ActivityKind::Normal);
    let d = push_opt(c, git_log_summary(r), ts, ActivityKind::Normal);
    let e = push_opt(d, git_blame_summary(r), ts, ActivityKind::Normal);
    let f = push_opt(e, node_probe_summary(r), ts, ActivityKind::Success);
    let g = match spec_parse_test_result(r) {
        Some((passed, failed)) => push_activity_spec(
            f,
            test_summary(passed, failed),
            ts,
            if failed == 0 {
                ActivityKind::Success
            } else {
                ActivityKind::Failure
            },
            seq![],
        ),
        None => f,
    };
    if spec_should_parse_commit_hash(g.last_bash_command) {
        match spec_parse_commit_hash(r) {
            Some(h) => SessionView { last_commit_hash: Some(h), ..g },
            None => g,
        }
    } else {
        g
    }
}

/// `PostToolUse`: flush the turn buffer, count patch lines, read a Bash
/// call's output, and go back to thinking.
pub open spec fn post_tool_spec(s: SessionView, p: JsonValue, ts: u64) -> SessionView {
    let s1 = flush_spec(s, ts, s.turn_activity_turn_id);
    let s2 = spec_track_files(s1, p);
    let s3 = if is_shell_tool(get_str_or(p, "tool_name"@, ""@)) {
        bash_post_spec(s2, str_or_alias(p, "tool_response"@, "tool_output"@), ts)
    } else {
        s2
    };
    SessionView { current_action: "Thinking\u{2026}"@, ..s3 }
}

/// `Stop`: flush the turn buffer, mark the session done with a one-line
/// summary of the last message (or `Done`), and list the edited files.
pub open spec fn stop_spec(s: SessionView, p: JsonValue, ts: u64) -> SessionView {
    let s1 = flush_spec(s, ts, s.turn_activity_turn_id);
    let s2 = SessionView { status: Status::Done, ..s1 };
    let s3 = match get_str(p, "last_assistant_message"@) {
        Some(msg) => {
            let sum = spec_extract_done_summary(msg);
            if sum.len() > 0 {
                SessionView { done_summary: Some(sum), current_action: sum, ..s2 }
            } else {
                SessionView { current_action: "Done"@, ..s2 }
            }
        },
        None => SessionView { current_action: "Done"@, ..s2 },
    };
    SessionView { files_edited: sorted_entries(s3.files_edited_map), ..s3 }
}

/// The session after one event; `SessionEnd` finishes a session not yet
/// done, `AfterFileEdit` (Cursor) counts the edited lines, a subagent that
/// starts keeps its parent working, and other events only refresh it.
#[verifier::opaque]
pub open spec fn event_spec(
    s: SessionView,
    event: Seq<char>,
    p: JsonValue,
    ts: u64,
    parent_pid: Option<u32>,
) -> SessionView {
    let t = touch_spec(s, p, event_cwd(p), parent_pid, ts);
    if event == "SessionStart"@ {
        reset_turn_spec(t, ts)
    } else if event == "UserPromptSubmit"@ {
        prompt_spec(t, p, ts)
    } else if event == "PreToolUse"@ {
        pre_tool_spec(t, p, ts)
    } else if event == "PostToolUse"@ {
        post_tool_spec(t, p, ts)
    } else if event == "Stop"@ {
        stop_spec(t, p, ts)
    } else if event == "SessionEnd"@ {
        if t.status == Status::Done {
            t
        } else {
            stop_spec(t, p, ts)
        }
    } else if event == "AfterFileEdit"@ {
        spec_track_file_edit(t, p)
    } else if event == "SubagentStart"@ {
        SessionView { status: Status::Working, ..t }
    } else {
        t
    }
}

fn touch(s: &mut Session, p: &JsonValue, cwd: &[char], parent_pid: Option<u32>, ts: u64)
    requires
        old(s).wf(),
    ensures
        final(s).wf(),
        final(s)@ == touch_spec(old(s)@, *p, cwd@, parent_pid, ts),
{
    if s.cwd.as_str().is_empty() && cwd.len() > 0 {
        let c = string_of(cwd);
        s.project = project_basename(c.as_str());
        s.cwd = c;
    }
    if s.parent_pid.is_none() {
        s.parent_pid = parent_pid;
    }
    s.last_event_at_ms = ts;
    match get_str_exec(p, "model") {
        Some(m) => {
            s.model = string_of(m.as_slice());
        },
        None => {},
    }
}

fn reset_turn(s: &mut Session, ts: u64)
    requires
        old(s).wf(),
    ensures
        final(s).wf(),
        final(s)@ == reset_turn_spec(old(s)@, ts),
{
    s.status = Status::Working;
    s.current_action = string_of(chars_of("Thinking\u{2026}").as_slice());
    s.acknowledged_done = false;
    s.started_at_ms = ts;
    s.last_prompt = String::new();
    s.recent_activity = Vec::new();
    s.next_activity_seq = 0;
    s.turn_activity_entries = Vec::new();
    s.turn_activity_turn_id = String::new();
    s.done_summary = None;
    assert(crate::session::activity_view(s.recent_activity@) =~= seq![]);
    assert(buffered_view(s.turn_activity_entries@) =~= seq![]);
}

fn on_prompt(s: &mut Session, p: &JsonValue, ts: u64)
    requires
        old(s).wf(),
    ensures
        final(s).wf(),
        final(s)@ == prompt_spec(old(s)@, *p, ts),
{
    reset_turn(s, ts);
    match extract_user_prompt(p) {
        Some(pr) => {
            let t = trim_exec(pr.as_slice());
            if t.len() > 0 {
                let kept = truncate_prompt(t.as_slice());
                s.last_prompt = string_of(kept.as_slice());
            }
        },
        None => {},
    }
}

/// Adds a tool call to the turn buffer (see [`buffer_spec`]).
fn buffer_call(b: &mut Vec<BufferedActivity>, summary: &[char], key: &[char])
    ensures
        buffered_view(final(b)@) == buffer_spec(buffered_view(old(b)@), summary@, key@),
{
    let ghost v = buffered_view(b@);
    let mut i: usize = 0;
    while i < b.len()
        invariant
            v == buffered_view(b@),
            v == buffered_view(old(b)@),
            i <= b@.len(),
            forall|j: int| 0 <= j < i ==> (#[trigger] v[j]).1 != key@,
        decreases b.len() - i,
    {
        if crate::text::seq_eq(chars_of(b[i].dedupe_key.as_str()).as_slice(), key) {
            assert(v[i as int].1 == key@);
            return;
        }
        i += 1;
    }
    b.push(BufferedActivity { summary: string_of(summary), dedupe_key: string_of(key) });
    let ghost c = v.push((summary@, key@));
    assert(buffered_view(b@) =~= c);
    assert(c.len() == b.len());
    let mut dropped: usize = 0;
    while b.len() > MAX_TURN_BUFFER
        invariant
            c.len() == v.len() + 1,
            dropped <= c.len(),
            b@.len() + dropped == c.len(),
            c.len() <= usize::MAX,
            buffered_view(b@) == c.skip(dropped as int),
            c.len() > MAX_TURN_BUFFER ==> dropped <= c.len() - MAX_TURN_BUFFER,
            c.len() <= MAX_TURN_BUFFER ==> dropped == 0,
        decreases b.len(),
    {
        let ghost bb = buffered_view(b@);
        b.remove(0);
        assert(buffered_view(b@) =~= bb.remove(0));
        assert(bb.remove(0) =~= c.skip(dropped + 1));
        dropped += 1;
    }
    assert(c.skip(0) =~= c);
}

fn on_pre_tool(s: &mut Session, p: &JsonValue, ts: u64)
    requires
        old(s).wf(),
    ensures
        final(s).wf(),
        final(s)@ == pre_tool_spec(old(s)@, *p, ts),
{
    s.status = Status::Working;
    let tool = get_str_or_exec(p, "tool_name", "");
    proof {
        reveal_strlit("");
    }
    let is_bash = is_shell_tool_exec(tool.as_slice());
    if is_bash {
        let cmd = tool_command_exec(p);
        s.last_bash_command = string_of(cmd.as_slice());
    }
    let action = describe_pre_tool(p);
    let turn_id = str_or_alias_exec(p, "turn_id", "generation_id");
    let tid = chars_of(s.turn_activity_turn_id.as_str());
    if tid.len() > 0 && !crate::text::seq_eq(turn_id.as_slice(), tid.as_slice()) {
        let flush_tid = string_of(tid.as_slice());
        s.flush_turn_activity(ts, flush_tid.as_str());
    }
    if action.len() > 0 {
        let key = if is_bash {
            activity_dedupe_key_chars(chars_of(s.last_bash_command.as_str()).as_slice())
        } else {
            copy_all(action.as_slice())
        };
        buffer_call(&mut s.turn_activity_entries, action.as_slice(), key.as_slice());
    }
    if turn_id.len() > 0 {
        s.turn_activity_turn_id = string_of(turn_id.as_slice());
    }
    s.current_action = string_of(action.as_slice());
    s.last_turn_id = string_of(turn_id.as_slice());
}

fn on_bash_output(s: &mut Session, response: &str, ts: u64)
    requires
        old(s).wf(),
    ensures
        final(s).wf(),
        final(s)@ == bash_post_spec(old(s)@, response@, ts),
{
    parse_gh_pr_post(s, response, ts);
    parse_gh_issue_post(s, response, ts);
    parse_rg_post(s, response, ts);
    parse_git_log_post(s, response, ts);
    parse_git_blame_post(s, response, ts);
    parse_node_probe_post(s, response, ts);
    let rc = chars_of(response);
    match parse_test_result(rc.as_slice()) {
        Some((passed, failed)) => {
            let (n, text, kind) = if failed == 0 {
                (passed, " tests passed", ActivityKind::Success)
            } else {
                (failed, " tests failed", ActivityKind::Failure)
            };
            let mut summary = dec_exec(n as u64);
            push_str(&mut summary, text);
            proof {
                reveal_strlit("");
            }
            assert(summary@ == test_summary(passed, failed));
            s.push_activity_with_kind(string_of(summary.as_slice()), ts, kind, "");
        },
        None => {},
    }
    if should_parse_commit_hash(s.last_bash_command.as_str()) {
        match parse_commit_hash(response) {
            Some(h) => {
                s.last_commit_hash = Some(h);
            },
            None => {},
        }
    }
}

fn on_post_tool(s: &mut Session, p: &JsonValue, ts: u64)
    requires
        old(s).wf(),
    ensures
        final(s).wf(),
        final(s)@ == post_tool_spec(old(s)@, *p, ts),
{
    let flush_tid = s.turn_activity_turn_id.clone();
    s.flush_turn_activity(ts, flush_tid.as_str());
    track_files_from_post(s, p);
    let tool = get_str_or_exec(p, "tool_name", "");
    proof {
        reveal_strlit("");
    }
    if is_shell_tool_exec(tool.as_slice()) {
        let response = str_or_alias_exec(p, "tool_response", "tool_output");
        let r = string_of(response.as_slice());
        on_bash_output(s, r.as_str(), ts);
    }
    s.current_action = string_of(chars_of("Thinking\u{2026}").as_slice());
}

fn on_stop(s: &mut Session, p: &JsonValue, ts: u64)
    requires
        old(s).wf(),
    ensures
        final(s).wf(),
        final(s)@ == stop_spec(old(s)@, *p, ts),
{
    let flush_tid = s.turn_activity_turn_id.clone();
    s.flush_turn_activity(ts, flush_tid.as_str());
    s.status = Status::Done;
    match get_str_exec(p, "last_assistant_message") {
        Some(msg) => {
            let sum = extract_done_summary(msg.as_slice());
            if sum.len() > 0 {
                s.done_summary = Some(string_of(sum.as_slice()));
                s.current_action = string_of(sum.as_slice());
            } else {
                s.current_action = string_of(chars_of("Done").as_slice());
            }
        },
        None => {
            s.current_action = string_of(chars_of("Done").as_slice());
        },
    }
    s.flatten_files();
}

/// Applies one event to a session (see [`event_spec`]).
pub fn apply_event(s: &mut Session, event: &str, p: &JsonValue, ts: u64, parent_pid: Option<u32>)
    requires
        old(s).wf(),
    ensures
        final(s).wf(),
        final(s)@ == event_spec(old(s)@, event@, *p, ts, parent_pid),
{
    proof {
        reveal(event_spec);
    }
    let cwd = event_cwd_exec(p);
    touch(s, p, cwd.as_slice(), parent_pid, ts);
    let ev = chars_of(event);
    let e = ev.as_slice();
    if eq_lit(e, "SessionStart") {
        reset_turn(s, ts);
    } else if eq_lit(e, "UserPromptSubmit") {
        on_prompt(s, p, ts);
    } else if eq_lit(e, "PreToolUse") {
        on_pre_tool(s, p, ts);
    } else if eq_lit(e, "PostToolUse") {
        on_post_tool(s, p, ts);
    } else if eq_lit(e, "Stop") {
        on_stop(s, p, ts);
    } else if eq_lit(e, "SessionEnd") {
        if s.status != Status::Done {
            on_stop(s, p, ts);
        }
    } else if eq_lit(e, "AfterFileEdit") {
        track_file_edit(s, p);
    } else if eq_lit(e, "SubagentStart") {
        s.status = Status::Working;
    }
}

// ───────────────────────── the session table ─────────────────────────

pub open spec fn sessions_view(m: Seq<Session>) -> Seq<SessionView> {
    Seq::new(m.len(), |i: int| m[i]@)
}

/// No id twice, every session well-formed.
pub open spec fn sessions_wf(m: Seq<Session>) -> bool {
    &&& forall|i: int, j: int|
        0 <= i < j < m.len() ==> (#[trigger] m[i])@.id != (#[trigger] m[j])@.id
    &&& forall|i: int| 0 <= i < m.len() ==> (#[trigger] m[i]).wf()
}

/// Position of the session with id `id` from `i` on, or -1.
pub open spec fn session_index(m: Seq<SessionView>, id: Seq<char>, i: int) -> int
    decreases m.len() - i,
{
    if i < 0 || i >= m.len() {
        -1
    } else if m[i].id == id {
        i
    } else {
        session_index(m, id, i + 1)
    }
}

/// The id an event is for: its payload's `session_id`, or Cursor's
/// `conversation_id` when that is missing or empty; `None` when both are.
pub open spec fn event_session_id(p: JsonValue) -> Option<Seq<char>> {
    let sid = str_or_alias(p, "session_id"@, "conversation_id"@);
    if sid.len() == 0 {
        None
    } else {
        Some(sid)
    }
}

/// The sessions after one event (Cursor's event names read as the internal
/// ones): the session it names is updated in place, or created (from the
/// event's project root, parent process and time) and added last when it is
/// new. Events without a session id change nothing.
pub open spec fn apply_spec(
    m: Seq<SessionView>,
    event: Seq<char>,
    p: JsonValue,
    ts: u64,
    parent_pid: Option<u32>,
) -> Seq<SessionView> {
    match event_session_id(p) {
        None => m,
        Some(sid) => {
            let k = session_index(m, sid, 0);
            if k >= 0 {
                m.update(k, event_spec(m[k], internal_event(event), p, ts, parent_pid))
            } else {
                m.push(
                    event_spec(
                        new_session_view(sid, event_cwd(p), parent_pid, ts),
                        internal_event(event),
                        p,
                        ts,
                        parent_pid,
                    ),
                )
            }
        },
    }
}

/// Applies a hook event to the sessions; returns the id of the session it
/// was for.
pub fn apply(map: &mut Vec<Session>, raw: RawEvent) -> (r: Option<String>)
    requires
        sessions_wf(old(map)@),
    ensures
        sessions_wf(final(map)@),
        sessions_view(final(map)@) == apply_spec(
            sessions_view(old(map)@),
            raw.event@,
            raw.payload,
            raw.ts,
            raw.parent_pid,
        ),
        match r {
            Some(id) => event_session_id(raw.payload) == Some(id@),
            None => event_session_id(raw.payload) is None,
        },
{
    let p = &raw.payload;
    let sid = str_or_alias_exec(p, "session_id", "conversation_id");
    proof {
        reveal_strlit("");
    }
    if sid.len() == 0 {
        return None;
    }
    let ev = internal_event_exec(raw.event.as_str());
    let ghost mv = sessions_view(map@);
    let k = find_session(map, sid.as_slice());
    proof {
        lemma_event_keeps_id(
            if k < map.len() {
                mv[k as int]
            } else {
                new_session_view(sid@, event_cwd(*p), raw.parent_pid, raw.ts)
            },
            ev@,
            *p,
            raw.ts,
            raw.parent_pid,
        );
    }
    if k == map.len() {
        let cwd = event_cwd_exec(p);
        let mut s = Session::new(string_of(sid.as_slice()), string_of(cwd.as_slice()), raw.parent_pid, raw.ts);
        apply_event(&mut s, ev.as_str(), p, raw.ts, raw.parent_pid);
        proof {
            assert forall|j: int| 0 <= j < map@.len() implies (#[trigger] map@[j])@.id != sid@ by {
                lemma_session_index_absent(mv, sid@, 0, j);
            }
        }
        map.push(s);
        assert(sessions_view(map@) =~= mv.push(s@));
    } else {
        let mut s = map.remove(k);
        apply_event(&mut s, ev.as_str(), p, raw.ts, raw.parent_pid);
        map.insert(k, s);
        assert(sessions_view(map@) =~= mv.update(k as int, s@));
    }
    Some(string_of(sid.as_slice()))
}

/// Finds the position of the session with id `sid` (the length when none).
fn find_session(map: &Vec<Session>, sid: &[char]) -> (k: usize)
    ensures
        k <= map@.len(),
        k < map@.len() ==> session_index(sessions_view(map@), sid@, 0) == k,
        k == map@.len() ==> session_index(sessions_view(map@), sid@, 0) == -1,
{
    let ghost mv = sessions_view(map@);
    let mut k: usize = 0;
    while k < map.len()
        invariant
            k <= map@.len(),
            mv == sessions_view(map@),
            session_index(mv, sid@, k as int) == session_index(mv, sid@, 0),
        decreases map.len() - k,
    {
        if crate::text::seq_eq(chars_of(map[k].id.as_str()).as_slice(), sid) {
            return k;
        }
        k += 1;
    }
    k
}

/// An event never changes which session it is: the id stays.
pub proof fn lemma_event_keeps_id(
    s: SessionView,
    event: Seq<char>,
    p: JsonValue,
    ts: u64,
    parent_pid: Option<u32>,
)
    ensures
        event_spec(s, event, p, ts, parent_pid).id == s.id,
{
    reveal(event_spec);
}

// ───────────────────────── laws ─────────────────────────
/// Status and last activity time of a session are the same in both views.
spec fn same_status(a: SessionView, b: SessionView) -> bool {
    a.status == b.status && a.last_event_at_ms == b.last_event_at_ms && a.id == b.id && a.parent_pid
        == b.parent_pid
}

proof fn lemma_push_keeps_status(
    s: SessionView,
    summary: Seq<char>,
    at_ms: u64,
    kind: ActivityKind,
    turn_id: Seq<char>,
)
    ensures
        same_status(push_activity_spec(s, summary, at_ms, kind, turn_id), s),
{
}

proof fn lemma_flush_keeps_status(s: SessionView, at_ms: u64, turn_id: Seq<char>)
    ensures
        same_status(flush_spec(s, at_ms, turn_id), s),
{
    let b = s.turn_activity_entries;
    if b.len() > 0 {
        let summary = if b.len() == 1 {
            b[0].0
        } else {
            spec_format_parallel_summary(buffered_summaries(b))
        };
        lemma_push_keeps_status(s, summary, at_ms, ActivityKind::Normal, turn_id);
    }
}

proof fn lemma_bash_post_keeps_status(s: SessionView, r: Seq<char>, ts: u64)
    ensures
        same_status(bash_post_spec(s, r, ts), s),
{
    let a = gh_pr_post_spec(s, r, ts);
    assert(same_status(a, s));
    let b = push_opt(a, gh_issue_summary(r), ts, ActivityKind::Normal);
    let c = push_opt(b, rg_summary(r), ts, ActivityKind::Normal);
    let d = push_opt(c, git_log_summary(r), ts, ActivityKind::Normal);
    let e = push_opt(d, git_blame_summary(r), ts, ActivityKind::Normal);
    let f = push_opt(e, node_probe_summary(r), ts, ActivityKind::Success);
    lemma_push_opt_keeps_status(a, gh_issue_summary(r), ts, ActivityKind::Normal);
    lemma_push_opt_keeps_status(b, rg_summary(r), ts, ActivityKind::Normal);
    lemma_push_opt_keeps_status(c, git_log_summary(r), ts, ActivityKind::Normal);
    lemma_push_opt_keeps_status(d, git_blame_summary(r), ts, ActivityKind::Normal);
    lemma_push_opt_keeps_status(e, node_probe_summary(r), ts, ActivityKind::Success);
    match spec_parse_test_result(r) {
        Some((passed, failed)) => {
            lemma_push_keeps_status(
                f,
                test_summary(passed, failed),
                ts,
                if failed == 0 {
                    ActivityKind::Success
                } else {
                    ActivityKind::Failure
                },
                seq![],
            );
        },
        None => {},
    }
}

proof fn lemma_push_opt_keeps_status(s: SessionView, x: Option<Seq<char>>, ts: u64, kind: ActivityKind)
    ensures
        same_status(push_opt(s, x, ts, kind), s),
{
    match x {
        Some(v) => lemma_push_keeps_status(s, v, ts, kind, seq![]),
        None => {},
    }
}

proof fn lemma_post_tool_keeps_status(s: SessionView, p: JsonValue, ts: u64)
    ensures
        same_status(post_tool_spec(s, p, ts), s),
{
    let s1 = flush_spec(s, ts, s.turn_activity_turn_id);
    lemma_flush_keeps_status(s, ts, s.turn_activity_turn_id);
    let s2 = spec_track_files(s1, p);
    assert(same_status(s2, s1));
    lemma_bash_post_keeps_status(s2, str_or_alias(p, "tool_response"@, "tool_output"@), ts);
}

proof fn lemma_pre_tool_status(s: SessionView, p: JsonValue, ts: u64)
    ensures
        pre_tool_spec(s, p, ts).status == Status::Working,
        pre_tool_spec(s, p, ts).last_event_at_ms == s.last_event_at_ms,
        pre_tool_spec(s, p, ts).parent_pid == s.parent_pid,
{
    let tool = get_str_or(p, "tool_name"@, ""@);
    let s1 = SessionView {
        status: Status::Working,
        last_bash_command: if is_shell_tool(tool) {
            tool_command(p)
        } else {
            s.last_bash_command
        },
        ..s
    };
    lemma_flush_keeps_status(s1, ts, s1.turn_activity_turn_id);
}

proof fn lemma_stop_status(s: SessionView, p: JsonValue, ts: u64)
    ensures
        stop_spec(s, p, ts).status == Status::Done,
        stop_spec(s, p, ts).last_event_at_ms == s.last_event_at_ms,
        stop_spec(s, p, ts).parent_pid == s.parent_pid,
{
    lemma_flush_keeps_status(s, ts, s.turn_activity_turn_id);
}

/// What an event does to a session's status: `SessionStart`,
/// `UserPromptSubmit`, `PreToolUse` and `SubagentStart` make it working,
/// `Stop` and `SessionEnd` make it done, and any other event (`PostToolUse`
/// and `SubagentStop` among them) leaves it. Every event counts as activity at
/// its time, and a parent process already known is kept (an unknown one is
/// taken from the event).
pub proof fn lemma_event_status(
    s: SessionView,
    event: Seq<char>,
    p: JsonValue,
    ts: u64,
    parent_pid: Option<u32>,
)
    ensures
        ({
            let r = event_spec(s, event, p, ts, parent_pid);
            &&& (event == "SessionStart"@ || event == "UserPromptSubmit"@ || event == "PreToolUse"@
                || event == "SubagentStart"@) ==> r.status == Status::Working
            &&& (event == "Stop"@ || event == "SessionEnd"@) ==> r.status == Status::Done
            &&& !(event == "SessionStart"@ || event == "UserPromptSubmit"@ || event == "PreToolUse"@
                || event == "SubagentStart"@ || event == "Stop"@ || event == "SessionEnd"@)
                ==> r.status == s.status
            &&& r.last_event_at_ms == ts
            &&& r.parent_pid == if s.parent_pid is None {
                parent_pid
            } else {
                s.parent_pid
            }
        }),
{
    reveal(event_spec);
    reveal_strlit("SessionStart");
    reveal_strlit("UserPromptSubmit");
    reveal_strlit("PreToolUse");
    reveal_strlit("PostToolUse");
    reveal_strlit("Stop");
    reveal_strlit("SessionEnd");
    reveal_strlit("SubagentStart");
    reveal_strlit("AfterFileEdit");
    assert("SubagentStart"@.len() == 13 && "AfterFileEdit"@.len() == 13 && "SubagentStart"@[0] == 'S'
        && "AfterFileEdit"@[0] == 'A');
    assert("SessionStart"@.len() == 12 && "UserPromptSubmit"@.len() == 16);
    assert("PreToolUse"@.len() == 10 && "PostToolUse"@.len() == 11 && "Stop"@.len() == 4);
    assert("SessionEnd"@.len() == 10 && "SessionEnd"@[0] == 'S' && "PreToolUse"@[0] == 'P');
    let t = touch_spec(s, p, event_cwd(p), parent_pid, ts);
    assert(t.status == s.status && t.last_event_at_ms == ts);
    assert(t.parent_pid == if s.parent_pid is None {
        parent_pid
    } else {
        s.parent_pid
    });
    let r = event_spec(s, event, p, ts, parent_pid);
    if event == "SessionStart"@ {
        assert(r == reset_turn_spec(t, ts));
    } else if event == "UserPromptSubmit"@ {
        assert(r == prompt_spec(t, p, ts));
    } else if event == "PreToolUse"@ {
        assert(r == pre_tool_spec(t, p, ts));
        lemma_pre_tool_status(t, p, ts);
    } else if event == "PostToolUse"@ {
        assert(r == post_tool_spec(t, p, ts));
        lemma_post_tool_keeps_status(t, p, ts);
    } else if event == "Stop"@ {
        assert(r == stop_spec(t, p, ts));
        lemma_stop_status(t, p, ts);
    } else if event == "SessionEnd"@ {
        lemma_stop_status(t, p, ts);
    } else if event == "AfterFileEdit"@ {
        assert(r == spec_track_file_edit(t, p));
        assert(same_status(r, t));
    } else if event == "SubagentStart"@ {
    } else {
        assert(r == t);
    }
}


/// The feed holds at most eight lines, and the turn buffer at most eight
/// tool calls, no two with the same key.
pub open spec fn bounded(s: SessionView) -> bool {
    &&& s.recent_activity.len() <= MAX_ACTIVITY_ENTRIES
    &&& s.turn_activity_entries.len() <= MAX_TURN_BUFFER
    &&& forall|i: int, j: int|
        0 <= i < j < s.turn_activity_entries.len() ==> (#[trigger] s.turn_activity_entries[i]).1
            != (#[trigger] s.turn_activity_entries[j]).1
}

proof fn lemma_push_bounded(
    s: SessionView,
    summary: Seq<char>,
    at_ms: u64,
    kind: ActivityKind,
    turn_id: Seq<char>,
)
    requires
        bounded(s),
    ensures
        bounded(push_activity_spec(s, summary, at_ms, kind, turn_id)),
{
}

proof fn lemma_push_opt_bounded(s: SessionView, summary: Option<Seq<char>>, at_ms: u64, kind: ActivityKind)
    requires
        bounded(s),
    ensures
        bounded(push_opt(s, summary, at_ms, kind)),
{
    if let Some(x) = summary {
        lemma_push_bounded(s, x, at_ms, kind, seq![]);
    }
}

proof fn lemma_flush_bounded(s: SessionView, at_ms: u64, turn_id: Seq<char>)
    requires
        bounded(s),
    ensures
        bounded(flush_spec(s, at_ms, turn_id)),
{
    if s.turn_activity_entries.len() > 0 {
        let b = s.turn_activity_entries;
        let summary = if b.len() == 1 {
            b[0].0
        } else {
            crate::session::spec_format_parallel_summary(crate::session::buffered_summaries(b))
        };
        lemma_push_bounded(s, summary, at_ms, ActivityKind::Normal, turn_id);
    }
}

proof fn lemma_buffer_bounded(b: Seq<(Seq<char>, Seq<char>)>, summary: Seq<char>, key: Seq<char>)
    requires
        b.len() <= MAX_TURN_BUFFER,
        forall|i: int, j: int| 0 <= i < j < b.len() ==> (#[trigger] b[i]).1 != (#[trigger] b[j]).1,
    ensures
        buffer_spec(b, summary, key).len() <= MAX_TURN_BUFFER,
        forall|i: int, j: int|
            0 <= i < j < buffer_spec(b, summary, key).len() ==> (#[trigger] buffer_spec(
                b,
                summary,
                key,
            )[i]).1 != (#[trigger] buffer_spec(b, summary, key)[j]).1,
{
    if !(exists|i: int| 0 <= i < b.len() && (#[trigger] b[i]).1 == key) {
        let c = b.push((summary, key));
        assert forall|i: int, j: int| 0 <= i < j < c.len() implies (#[trigger] c[i]).1 != (
        #[trigger] c[j]).1 by {
            if j == b.len() {
                assert(c[i] == b[i]);
            } else {
                assert(c[i] == b[i] && c[j] == b[j]);
            }
        }
        if c.len() > MAX_TURN_BUFFER {
            let d = c.skip(c.len() - MAX_TURN_BUFFER);
            assert forall|i: int, j: int| 0 <= i < j < d.len() implies (#[trigger] d[i]).1 != (
            #[trigger] d[j]).1 by {
                let o = c.len() - MAX_TURN_BUFFER;
                assert(d[i] == c[i + o] && d[j] == c[j + o]);
            }
        }
    }
}

proof fn lemma_bash_post_bounded(s: SessionView, r: Seq<char>, ts: u64)
    requires
        bounded(s),
    ensures
        bounded(bash_post_spec(s, r, ts)),
{
    let t = crate::text::trim(r);
    let a = gh_pr_post_spec(s, r, ts);
    assert(bounded(a)) by {
        if crate::text::contains(t, "\"number\":"@) && crate::text::contains(t, "\"headRefOid\":"@) {
            match crate::post::spec_extract_json_u32(t, "\"number\":"@) {
                Some(n) => {
                    let s1 = match crate::post::spec_extract_json_string(t, "\"headRefOid\":"@) {
                        Some(oid) => {
                            let short = crate::post::take_upto(crate::post::hex_filter(oid), 8);
                            if short.len() >= 7 && s.last_commit_hash is None {
                                SessionView { last_commit_hash: Some(short), ..s }
                            } else {
                                s
                            }
                        },
                        None => s,
                    };
                    let summary = match crate::post::spec_extract_first_label_name(t) {
                        Some(label) => "PR #"@ + dec(n as nat) + " \u{b7} "@ + label,
                        None => "PR #"@ + dec(n as nat),
                    };
                    lemma_push_bounded(s1, summary, ts, ActivityKind::Normal, seq![]);
                },
                None => {},
            }
        }
    }
    let b = push_opt(a, gh_issue_summary(r), ts, ActivityKind::Normal);
    lemma_push_opt_bounded(a, gh_issue_summary(r), ts, ActivityKind::Normal);
    let c = push_opt(b, rg_summary(r), ts, ActivityKind::Normal);
    lemma_push_opt_bounded(b, rg_summary(r), ts, ActivityKind::Normal);
    let d = push_opt(c, git_log_summary(r), ts, ActivityKind::Normal);
    lemma_push_opt_bounded(c, git_log_summary(r), ts, ActivityKind::Normal);
    let e = push_opt(d, git_blame_summary(r), ts, ActivityKind::Normal);
    lemma_push_opt_bounded(d, git_blame_summary(r), ts, ActivityKind::Normal);
    let f = push_opt(e, node_probe_summary(r), ts, ActivityKind::Success);
    lemma_push_opt_bounded(e, node_probe_summary(r), ts, ActivityKind::Success);
    if let Some((passed, failed)) = spec_parse_test_result(r) {
        lemma_push_bounded(
            f,
            test_summary(passed, failed),
            ts,
            if failed == 0 {
                ActivityKind::Success
            } else {
                ActivityKind::Failure
            },
            seq![],
        );
    }
}

/// Whatever event arrives, a session's feed keeps at most eight lines and
/// its turn buffer at most eight tool calls with distinct keys.
pub proof fn lemma_event_keeps_bounds(
    s: SessionView,
    event: Seq<char>,
    p: JsonValue,
    ts: u64,
    parent_pid: Option<u32>,
)
    requires
        bounded(s),
    ensures
        bounded(event_spec(s, event, p, ts, parent_pid)),
{
    reveal(event_spec);
    let t = touch_spec(s, p, event_cwd(p), parent_pid, ts);
    assert(bounded(t));
    if event == "PreToolUse"@ {
        let tool = get_str_or(p, "tool_name"@, ""@);
        let s1 = SessionView {
            status: Status::Working,
            last_bash_command: if is_shell_tool(tool) {
                tool_command(p)
            } else {
                t.last_bash_command
            },
            ..t
        };
        let turn_id = str_or_alias(p, "turn_id"@, "generation_id"@);
        if s1.turn_activity_turn_id.len() > 0 && turn_id != s1.turn_activity_turn_id {
            lemma_flush_bounded(s1, ts, s1.turn_activity_turn_id);
        }
        let s2 = if s1.turn_activity_turn_id.len() > 0 && turn_id != s1.turn_activity_turn_id {
            flush_spec(s1, ts, s1.turn_activity_turn_id)
        } else {
            s1
        };
        let action = spec_describe_pre_tool(p);
        let key = if is_shell_tool(tool) {
            spec_activity_dedupe_key(s2.last_bash_command)
        } else {
            action
        };
        lemma_buffer_bounded(s2.turn_activity_entries, action, key);
    } else if event == "PostToolUse"@ {
        lemma_flush_bounded(t, ts, t.turn_activity_turn_id);
        let s1 = flush_spec(t, ts, t.turn_activity_turn_id);
        let s2 = spec_track_files(s1, p);
        assert(bounded(s2));
        lemma_bash_post_bounded(s2, str_or_alias(p, "tool_response"@, "tool_output"@), ts);
    } else if event == "Stop"@ || event == "SessionEnd"@ {
        lemma_flush_bounded(t, ts, t.turn_activity_turn_id);
    }
}

/// An event changes only the session it names: every other session stays
/// as it was, the named one is then present, and the table grows by one
/// only when that session is new. An event without a session id changes
/// nothing.
pub proof fn lemma_apply_touches_only_its_session(
    m: Seq<SessionView>,
    event: Seq<char>,
    p: JsonValue,
    ts: u64,
    parent_pid: Option<u32>,
)
    ensures
        ({
            let r = apply_spec(m, event, p, ts, parent_pid);
            match event_session_id(p) {
                None => r == m,
                Some(sid) => {
                    &&& r.len() == if session_index(m, sid, 0) >= 0 {
                        m.len()
                    } else {
                        m.len() + 1
                    }
                    &&& forall|j: int| 0 <= j < m.len() && m[j].id != sid ==> #[trigger] r[j] == m[j]
                    &&& exists|j: int| 0 <= j < r.len() && (#[trigger] r[j]).id == sid
                }
            }
        }),
{
    if let Some(sid) = event_session_id(p) {
        let k = session_index(m, sid, 0);
        lemma_session_index_found(m, sid, 0);
        let r = apply_spec(m, event, p, ts, parent_pid);
        if k >= 0 {
            lemma_event_keeps_id(m[k], internal_event(event), p, ts, parent_pid);
            assert(r[k].id == sid);
        } else {
            let n = new_session_view(sid, event_cwd(p), parent_pid, ts);
            lemma_event_keeps_id(n, internal_event(event), p, ts, parent_pid);
            assert(r[m.len() as int].id == sid);
        }
    }
}

/// After an event for a session, that session (updated in place, or added
/// last) shows it: `SessionStart`, `UserPromptSubmit` and `PreToolUse` (or
/// Cursor's names for them) leave it working, `Stop` and `SessionEnd` leave
/// it done, and its last activity is the event's time. A session that knew
/// its parent process keeps it; a new one has the event's id and parent
/// process.
pub proof fn lemma_apply_sets_status(
    m: Seq<SessionView>,
    event: Seq<char>,
    p: JsonValue,
    ts: u64,
    parent_pid: Option<u32>,
    sid: Seq<char>,
)
    requires
        event_session_id(p) == Some(sid),
    ensures
        ({
            let r = apply_spec(m, event, p, ts, parent_pid);
            let k = session_index(m, sid, 0);
            let j = if k >= 0 {
                k
            } else {
                m.len() as int
            };
            &&& 0 <= j < r.len()
            &&& r[j].id == sid
            &&& r[j].last_event_at_ms == ts
            &&& k >= 0 && m[k].parent_pid is Some ==> r[j].parent_pid == m[k].parent_pid
            &&& k < 0 ==> r[j].parent_pid == parent_pid
            &&& (internal_event(event) == "SessionStart"@ || internal_event(event) == "UserPromptSubmit"@
                || internal_event(event) == "PreToolUse"@ || internal_event(event) == "SubagentStart"@)
                ==> r[j].status == Status::Working
            &&& (internal_event(event) == "Stop"@ || internal_event(event) == "SessionEnd"@)
                ==> r[j].status == Status::Done
        }),
{
    let k = session_index(m, sid, 0);
    lemma_session_index_found(m, sid, 0);
    if k >= 0 {
        lemma_event_keeps_id(m[k], internal_event(event), p, ts, parent_pid);
        lemma_event_status(m[k], internal_event(event), p, ts, parent_pid);
    } else {
        let n = new_session_view(sid, event_cwd(p), parent_pid, ts);
        lemma_event_keeps_id(n, internal_event(event), p, ts, parent_pid);
        lemma_event_status(n, internal_event(event), p, ts, parent_pid);
    }
}

proof fn lemma_session_index_found(m: Seq<SessionView>, id: Seq<char>, i: int)
    requires
        0 <= i,
    ensures
        session_index(m, id, i) == -1 || (i <= session_index(m, id, i) < m.len() && m[session_index(
            m,
            id,
            i,
        )].id == id),
    decreases m.len() - i,
{
    if i < m.len() && m[i].id != id {
        lemma_session_index_found(m, id, i + 1);
    }
}

/// Whatever event arrives, every session's feed and turn buffer stay within
/// their bounds.
pub proof fn lemma_apply_keeps_bounds(
    m: Seq<SessionView>,
    event: Seq<char>,
    p: JsonValue,
    ts: u64,
    parent_pid: Option<u32>,
)
    requires
        forall|i: int| 0 <= i < m.len() ==> bounded(#[trigger] m[i]),
    ensures
        ({
            let r = apply_spec(m, event, p, ts, parent_pid);
            forall|i: int| 0 <= i < r.len() ==> bounded(#[trigger] r[i])
        }),
{
    if let Some(sid) = event_session_id(p) {
        let k = session_index(m, sid, 0);
        lemma_session_index_found(m, sid, 0);
        if k >= 0 {
            lemma_event_keeps_bounds(m[k], internal_event(event), p, ts, parent_pid);
        } else {
            let n = new_session_view(sid, event_cwd(p), parent_pid, ts);
            lemma_event_keeps_bounds(n, internal_event(event), p, ts, parent_pid);
        }
    }
}

proof fn lemma_session_index_absent(m: Seq<SessionView>, id: Seq<char>, i: int, j: int)
    requires
        0 <= i <= j < m.len(),
        session_index(m, id, i) == -1,
    ensures
        m[j].id != id,
    decreases j - i,
{
    if i < j {
        lemma_session_index_absent(m, id, i + 1, j);
    }
}

} // verus!
