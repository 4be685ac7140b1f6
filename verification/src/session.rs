//! Session model and state machine for hook events.
//!
//! Raw hook events from the coding agents are mapped into a small, stable
//! shape the overlay consumes. The mapping is intentionally lossy: everything
//! the compact view does not need is dropped.
use vstd::prelude::*;
use crate::text::{
    chars_of, string_of, copy_range, copy_all, push_all, push_str, lit_then, seq_eq, str_eq, eq_lit, trim,
    trim_exec, truncate, truncate_exec, join, join_exec, vv, dec, dec_exec, rfind_char_before,
    lemma_rfind_bounds,
};
use crate::assoc::{assoc_map, keys_unique};

verus! {

broadcast use vstd::string::group_string_axioms;

pub const MAX_ACTIVITY_ENTRIES: usize = 8;

pub const PARALLEL_MAX_ITEMS: usize = 3;

pub const PARALLEL_MAX_CHARS: usize = 120;

pub const MAX_PROMPT_CHARS: usize = 4000;

#[derive(Clone, Copy, Debug, PartialEq, Eq, Structural)]
pub enum App {
    Codex,
    Cursor,
    Claude,
}

#[derive(Clone, Copy, Debug, PartialEq, Eq, Structural)]
pub enum Status {
    Idle,
    Working,
    Done,
    Errored,
}

#[derive(Clone, Copy, Debug, PartialEq, Eq, Structural)]
pub struct DiffStat {
    pub adds: u32,
    pub dels: u32,
}

impl Default for DiffStat {
    fn default() -> (r: Self)
        ensures
            r == (DiffStat { adds: 0, dels: 0 }),
    {
        DiffStat { adds: 0, dels: 0 }
    }
}

#[derive(Clone, Copy, Debug, PartialEq, Eq, Structural)]
pub enum ActivityKind {
    Normal,
    Success,
    Failure,
}

impl Default for ActivityKind {
    fn default() -> (r: Self)
        ensures
            r == ActivityKind::Normal,
    {
        ActivityKind::Normal
    }
}

/// Repeat count of an activity line read without one.
pub fn default_activity_count() -> (r: u32)
    ensures
        r == 1,
{
    1
}

#[derive(Debug)]
pub struct ActivityEntry {
    pub seq: u64,
    pub at_ms: u64,
    pub summary: String,
    pub count: u32,
    pub kind: ActivityKind,
}

pub ghost struct ActivityView {
    pub seq: u64,
    pub at_ms: u64,
    pub summary: Seq<char>,
    pub count: u32,
    pub kind: ActivityKind,
}

impl View for ActivityEntry {
    type V = ActivityView;

    open spec fn view(&self) -> ActivityView {
        ActivityView {
            seq: self.seq,
            at_ms: self.at_ms,
            summary: self.summary@,
            count: self.count,
            kind: self.kind,
        }
    }
}

/// A tool call buffered within the current turn.
#[derive(Debug)]
pub struct BufferedActivity {
    pub summary: String,
    pub dedupe_key: String,
}

#[derive(Debug)]
pub struct Session {
    pub id: String,
    pub app: App,
    pub project: String,
    pub cwd: String,
    pub status: Status,
    pub current_action: String,
    pub started_at_ms: u64,
    pub last_event_at_ms: u64,
    pub acknowledged_done: bool,
    pub last_prompt: String,
    pub files_edited: Vec<(String, DiffStat)>,
    pub recent_activity: Vec<ActivityEntry>,
    pub model: String,
    pub last_commit_hash: Option<String>,
    pub done_summary: Option<String>,
    pub last_turn_id: String,
    pub turn_activity_turn_id: String,
    pub turn_activity_entries: Vec<BufferedActivity>,
    pub last_bash_command: String,
    pub next_activity_seq: u64,
    pub parent_pid: Option<u32>,
    /// Diff totals per file, no path twice (see [`Session::wf`]).
    pub files_edited_map: Vec<(String, DiffStat)>,
    /// Child conversations rolled up into this session.
    pub active_child_conversations: Vec<String>,
}

pub ghost struct SessionView {
    pub id: Seq<char>,
    pub app: App,
    pub project: Seq<char>,
    pub cwd: Seq<char>,
    pub status: Status,
    pub current_action: Seq<char>,
    pub started_at_ms: u64,
    pub last_event_at_ms: u64,
    pub acknowledged_done: bool,
    pub last_prompt: Seq<char>,
    pub files_edited: Seq<(Seq<char>, DiffStat)>,
    pub recent_activity: Seq<ActivityView>,
    pub model: Seq<char>,
    pub last_commit_hash: Option<Seq<char>>,
    pub done_summary: Option<Seq<char>>,
    pub last_turn_id: Seq<char>,
    pub turn_activity_turn_id: Seq<char>,
    pub turn_activity_entries: Seq<(Seq<char>, Seq<char>)>,
    pub last_bash_command: Seq<char>,
    pub next_activity_seq: u64,
    pub parent_pid: Option<u32>,
    pub files_edited_map: Map<Seq<char>, DiffStat>,
    pub active_child_conversations: Seq<Seq<char>>,
}

pub open spec fn opt_view(o: Option<String>) -> Option<Seq<char>> {
    match o {
        Some(s) => Some(s@),
        None => None,
    }
}

pub open spec fn files_view(v: Seq<(String, DiffStat)>) -> Seq<(Seq<char>, DiffStat)> {
    Seq::new(v.len(), |i: int| (v[i].0@, v[i].1))
}

pub open spec fn activity_view(v: Seq<ActivityEntry>) -> Seq<ActivityView> {
    Seq::new(v.len(), |i: int| v[i]@)
}

pub open spec fn buffered_view(v: Seq<BufferedActivity>) -> Seq<(Seq<char>, Seq<char>)> {
    Seq::new(v.len(), |i: int| (v[i].summary@, v[i].dedupe_key@))
}

pub open spec fn strings_view(v: Seq<String>) -> Seq<Seq<char>> {
    Seq::new(v.len(), |i: int| v[i]@)
}

impl Session {
    /// Well-formed: no path has two diff totals.
    pub open spec fn wf(&self) -> bool {
        keys_unique(files_view(self.files_edited_map@))
    }
}

impl View for Session {
    type V = SessionView;

    open spec fn view(&self) -> SessionView {
        SessionView {
            id: self.id@,
            app: self.app,
            project: self.project@,
            cwd: self.cwd@,
            status: self.status,
            current_action: self.current_action@,
            started_at_ms: self.started_at_ms,
            last_event_at_ms: self.last_event_at_ms,
            acknowledged_done: self.acknowledged_done,
            last_prompt: self.last_prompt@,
            files_edited: files_view(self.files_edited@),
            recent_activity: activity_view(self.recent_activity@),
            model: self.model@,
            last_commit_hash: opt_view(self.last_commit_hash),
            done_summary: opt_view(self.done_summary),
            last_turn_id: self.last_turn_id@,
            turn_activity_turn_id: self.turn_activity_turn_id@,
            turn_activity_entries: buffered_view(self.turn_activity_entries@),
            last_bash_command: self.last_bash_command@,
            next_activity_seq: self.next_activity_seq,
            parent_pid: self.parent_pid,
            files_edited_map: assoc_map(files_view(self.files_edited_map@)),
            active_child_conversations: strings_view(self.active_child_conversations@),
        }
    }
}

// ───────────────────────── project name ─────────────────────────

/// A path separator: `/` or `\\` (both separate on Windows, where the
/// overlay runs).
pub open spec fn is_sep(c: char) -> bool {
    c == '/' || c == '\\'
}

/// Length of a drive prefix such as `C:` at the start of a path (0 when
/// there is none).
pub open spec fn drive_len(p: Seq<char>) -> int {
    if p.len() >= 2 && p[1] == ':' && (('a' <= p[0] && p[0] <= 'z') || ('A' <= p[0] && p[0] <= 'Z')) {
        2
    } else {
        0
    }
}

/// Position of the last separator before position `j` (-1 when none).
pub open spec fn rfind_sep_before(p: Seq<char>, j: int) -> int
    decreases j,
{
    if j <= 0 || j > p.len() {
        -1
    } else if is_sep(p[j - 1]) {
        j - 1
    } else {
        rfind_sep_before(p, j - 1)
    }
}

pub proof fn lemma_rfind_sep_bounds(p: Seq<char>, j: int)
    ensures
        rfind_sep_before(p, j) == -1 || 0 <= rfind_sep_before(p, j) < j,
        rfind_sep_before(p, j) >= 0 ==> is_sep(p[rfind_sep_before(p, j)]),
    decreases j,
{
    if 0 < j <= p.len() && !is_sep(p[j - 1]) {
        lemma_rfind_sep_bounds(p, j - 1);
    }
}

/// Where the path component that ends at `j` starts: after the last
/// separator, and never inside a drive prefix.
pub open spec fn segment_start(p: Seq<char>, j: int) -> int {
    let k = rfind_sep_before(p, j) + 1;
    if k < drive_len(p) {
        drive_len(p)
    } else {
        k
    }
}

/// The last normal component of the path before position `j`, as
/// `Path::file_name` gives it on Windows: a drive prefix is no component,
/// empty and `.` components are skipped, and a final `..` has no name.
pub open spec fn file_name_before(p: Seq<char>, j: int) -> Option<Seq<char>>
    decreases j + 1,
{
    if j <= drive_len(p) || j > p.len() {
        None
    } else {
        let k = segment_start(p, j);
        let seg = p.subrange(k, j);
        if seg.len() == 0 || seg == "."@ {
            proof {
                lemma_rfind_sep_bounds(p, j);
            }
            file_name_before(p, k - 1)
        } else if seg == ".."@ {
            None
        } else {
            Some(seg)
        }
    }
}

/// Project name shown for a working directory: its last path component, or
/// the whole directory when it has none.
pub open spec fn spec_project_basename(cwd: Seq<char>) -> Seq<char> {
    match file_name_before(cwd, cwd.len() as int) {
        Some(name) => name,
        None => cwd,
    }
}

fn drive_len_exec(p: &[char]) -> (r: usize)
    ensures
        r == drive_len(p@),
{
    if p.len() >= 2 && p[1] == ':' && (('a' <= p[0] && p[0] <= 'z') || ('A' <= p[0] && p[0] <= 'Z')) {
        2
    } else {
        0
    }
}

pub fn project_basename_chars(cwd: &[char]) -> (r: Vec<char>)
    ensures
        r@ == spec_project_basename(cwd@),
{
    let d = drive_len_exec(cwd);
    let mut j = cwd.len();
    assert(cwd@.subrange(0, cwd@.len() as int) == cwd@);
    loop
        invariant
            j <= cwd@.len(),
            d == drive_len(cwd@),
            d <= 2,
            file_name_before(cwd@, j as int) == file_name_before(cwd@, cwd@.len() as int),
            cwd@.subrange(0, cwd@.len() as int) == cwd@,
        decreases j,
    {
        if j <= d {
            return copy_range(cwd, 0, cwd.len());
        }
        let mut k = j;
        while k > 0 && cwd[k - 1] != '/' && cwd[k - 1] != '\\'
            invariant
                k <= j <= cwd@.len(),
                j > 0,
                rfind_sep_before(cwd@, k as int) == rfind_sep_before(cwd@, j as int),
            decreases k,
        {
            k -= 1;
        }
        proof {
            lemma_rfind_sep_bounds(cwd@, j as int);
        }
        if k < d {
            k = d;
        }
        assert(k == segment_start(cwd@, j as int));
        let seg = copy_range(cwd, k, j);
        if seg.len() == 0 || eq_lit(seg.as_slice(), ".") {
            if k == 0 {
                assert(file_name_before(cwd@, j as int) == file_name_before(cwd@, -1));
                return copy_range(cwd, 0, cwd.len());
            }
            j = k - 1;
        } else if eq_lit(seg.as_slice(), "..") {
            return copy_range(cwd, 0, cwd.len());
        } else {
            return seg;
        }
    }
}

pub fn project_basename(cwd: &str) -> (r: String)
    ensures
        r@ == spec_project_basename(cwd@),
{
    let c = chars_of(cwd);
    let p = project_basename_chars(c.as_slice());
    string_of(p.as_slice())
}

// ───────────────────────── activity feed ─────────────────────────

pub open spec fn wrap_inc64(x: u64) -> u64 {
    if x == u64::MAX {
        0
    } else {
        (x + 1) as u64
    }
}

pub open spec fn sat_inc32(x: u32) -> u32 {
    if x == u32::MAX {
        x
    } else {
        (x + 1) as u32
    }
}

/// The feed after one summary is pushed: a repeat of the newest line in the
/// same turn bumps its counter, a repeat in another turn is dropped, anything
/// else goes on top with the next sequence number and the feed keeps at most
/// eight lines, newest first.
pub open spec fn push_activity_spec(
    s: SessionView,
    summary: Seq<char>,
    at_ms: u64,
    kind: ActivityKind,
    turn_id: Seq<char>,
) -> SessionView {
    if summary.len() == 0 {
        s
    } else if s.recent_activity.len() > 0 && s.recent_activity[0].summary == summary {
        if turn_id.len() > 0 && turn_id == s.last_turn_id {
            SessionView {
                recent_activity: s.recent_activity.update(
                    0,
                    ActivityView { count: sat_inc32(s.recent_activity[0].count), ..s.recent_activity[0] },
                ),
                ..s
            }
        } else {
            s
        }
    } else {
        let seq = wrap_inc64(s.next_activity_seq);
        let all = seq![ActivityView { seq, at_ms, summary, count: 1, kind }] + s.recent_activity;
        SessionView {
            next_activity_seq: seq,
            recent_activity: if all.len() > MAX_ACTIVITY_ENTRIES {
                all.take(MAX_ACTIVITY_ENTRIES as int)
            } else {
                all
            },
            ..s
        }
    }
}

/// Neighbouring lines `i` and `i + 1` of the feed: the newer one has the
/// higher sequence number and another summary.
pub open spec fn feed_pair_ok(a: Seq<ActivityView>, i: int) -> bool {
    a[i].seq > a[i + 1].seq && a[i].summary != a[i + 1].summary
}

/// One feed line: nonempty, counted at least once, numbered at most `next`.
pub open spec fn feed_line_ok(x: ActivityView, next: u64) -> bool {
    x.summary.len() > 0 && x.count >= 1 && x.seq <= next
}

/// The activity feed's invariant: at most eight lines, newest first (the
/// sequence numbers fall, none above the session's counter), no two
/// neighbours alike, every line nonempty and counted at least once.
pub open spec fn feed_inv(s: SessionView) -> bool {
    let a = s.recent_activity;
    &&& a.len() <= MAX_ACTIVITY_ENTRIES
    &&& forall|i: int| 0 <= i < a.len() ==> feed_line_ok(#[trigger] a[i], s.next_activity_seq)
    &&& forall|i: int| 0 <= i < a.len() - 1 ==> #[trigger] feed_pair_ok(a, i)
}

proof fn lemma_bump_keeps_feed(s: SessionView, r: SessionView)
    requires
        feed_inv(s),
        s.recent_activity.len() > 0,
        r == (SessionView {
            recent_activity: s.recent_activity.update(
                0,
                ActivityView { count: sat_inc32(s.recent_activity[0].count), ..s.recent_activity[0] },
            ),
            ..s
        }),
    ensures
        feed_inv(r),
{
    let a = s.recent_activity;
    let b = r.recent_activity;
    assert forall|i: int| 0 <= i < b.len() implies feed_line_ok(#[trigger] b[i], r.next_activity_seq) by {
        assert(feed_line_ok(a[i], s.next_activity_seq));
    }
    assert forall|i: int| 0 <= i < b.len() - 1 implies #[trigger] feed_pair_ok(b, i) by {
        assert(feed_pair_ok(a, i));
    }
}

proof fn lemma_new_line_keeps_feed(s: SessionView, n: ActivityView, r: SessionView)
    requires
        feed_inv(s),
        s.next_activity_seq < u64::MAX,
        n.seq == s.next_activity_seq + 1,
        n.summary.len() > 0,
        n.count == 1,
        s.recent_activity.len() > 0 ==> s.recent_activity[0].summary != n.summary,
        r == (SessionView {
            next_activity_seq: n.seq,
            recent_activity: if (seq![n] + s.recent_activity).len() > MAX_ACTIVITY_ENTRIES {
                (seq![n] + s.recent_activity).take(MAX_ACTIVITY_ENTRIES as int)
            } else {
                seq![n] + s.recent_activity
            },
            ..s
        }),
    ensures
        feed_inv(r),
{
    let a = s.recent_activity;
    let all = seq![n] + a;
    let b = r.recent_activity;
    assert forall|i: int| 0 <= i < b.len() implies feed_line_ok(#[trigger] b[i], r.next_activity_seq) by {
        assert(b[i] == all[i]);
        if i > 0 {
            assert(all[i] == a[i - 1]);
            assert(feed_line_ok(a[i - 1], s.next_activity_seq));
        }
    }
    assert forall|i: int| 0 <= i < b.len() - 1 implies #[trigger] feed_pair_ok(b, i) by {
        assert(b[i] == all[i] && b[i + 1] == all[i + 1]);
        if i > 0 {
            assert(all[i] == a[i - 1] && all[i + 1] == a[i]);
            assert(feed_pair_ok(a, i - 1));
        } else {
            assert(all[1] == a[0]);
            assert(feed_line_ok(a[0], s.next_activity_seq));
        }
    }
}

/// Adding a line keeps the feed's invariant (while the sequence counter has
/// room).
pub proof fn lemma_push_activity_keeps_feed(
    s: SessionView,
    summary: Seq<char>,
    at_ms: u64,
    kind: ActivityKind,
    turn_id: Seq<char>,
)
    requires
        feed_inv(s),
        s.next_activity_seq < u64::MAX,
    ensures
        feed_inv(push_activity_spec(s, summary, at_ms, kind, turn_id)),
{
    let a = s.recent_activity;
    let r = push_activity_spec(s, summary, at_ms, kind, turn_id);
    if summary.len() > 0 {
        if a.len() > 0 && a[0].summary == summary {
            if turn_id.len() > 0 && turn_id == s.last_turn_id {
                lemma_bump_keeps_feed(s, r);
            }
        } else {
            let seq = wrap_inc64(s.next_activity_seq);
            let n = ActivityView { seq, at_ms, summary, count: 1, kind };
            lemma_new_line_keeps_feed(s, n, r);
        }
    }
}

/// The newest summary of each buffered tool call.
pub open spec fn buffered_summaries(b: Seq<(Seq<char>, Seq<char>)>) -> Seq<Seq<char>> {
    Seq::new(b.len(), |i: int| b[i].0)
}

/// `Parallel: A · B · C` (at most three names, then `+N more`), at most 120
/// characters.
pub open spec fn spec_format_parallel_summary(ss: Seq<Seq<char>>) -> Seq<char> {
    let n = ss.len();
    let show = if n < PARALLEL_MAX_ITEMS {
        n
    } else {
        PARALLEL_MAX_ITEMS as nat
    };
    let out0 = "Parallel: "@ + join(ss.take(show as int), " \u{b7} "@);
    let out = if n > PARALLEL_MAX_ITEMS {
        out0 + " \u{b7} +"@ + dec((n - PARALLEL_MAX_ITEMS) as nat) + " more"@
    } else {
        out0
    };
    truncate(out, PARALLEL_MAX_CHARS as int)
}

/// The turn buffer flushed into the feed as one line.
pub open spec fn flush_spec(s: SessionView, at_ms: u64, turn_id: Seq<char>) -> SessionView {
    let b = s.turn_activity_entries;
    if b.len() == 0 {
        s
    } else {
        let summary = if b.len() == 1 {
            b[0].0
        } else {
            spec_format_parallel_summary(buffered_summaries(b))
        };
        let s2 = push_activity_spec(s, summary, at_ms, ActivityKind::Normal, turn_id);
        SessionView { turn_activity_entries: seq![], turn_activity_turn_id: seq![], ..s2 }
    }
}

/// The parallel summary never exceeds 120 characters.
pub proof fn lemma_parallel_summary_capped(ss: Seq<Seq<char>>)
    ensures
        spec_format_parallel_summary(ss).len() <= PARALLEL_MAX_CHARS,
{
}

pub fn format_parallel_summary_chars(ss: &[Vec<char>]) -> (r: Vec<char>)
    ensures
        r@ == spec_format_parallel_summary(vv(ss@)),
{
    let n = ss.len();
    let show = if n < PARALLEL_MAX_ITEMS {
        n
    } else {
        PARALLEL_MAX_ITEMS
    };
    let mut shown: Vec<Vec<char>> = Vec::new();
    let mut i: usize = 0;
    while i < show
        invariant
            show <= ss@.len(),
            i <= show,
            vv(shown@) == vv(ss@).take(i as int),
        decreases show - i,
    {
        let ghost before = shown@;
        shown.push(copy_all(ss[i].as_slice()));
        assert(vv(shown@) =~= vv(before).push(ss@[i as int]@));
        assert(vv(ss@).take(i + 1) =~= vv(ss@).take(i as int).push(ss@[i as int]@));
        i += 1;
    }
    let sep = chars_of(" \u{b7} ");
    let joined = join_exec(shown.as_slice(), sep.as_slice());
    let mut out = lit_then("Parallel: ", joined.as_slice());
    if n > PARALLEL_MAX_ITEMS {
        push_str(&mut out, " \u{b7} +");
        let d = dec_exec((n - PARALLEL_MAX_ITEMS) as u64);
        push_all(&mut out, d.as_slice());
        push_str(&mut out, " more");
    }
    truncate_exec(out.as_slice(), PARALLEL_MAX_CHARS)
}

/// `Parallel: A · B · C` for tool calls that ran in one turn.
pub fn format_parallel_summary(summaries: &[String]) -> (r: String)
    ensures
        r@ == spec_format_parallel_summary(strings_view(summaries@)),
{
    let mut ss: Vec<Vec<char>> = Vec::new();
    let mut i: usize = 0;
    while i < summaries.len()
        invariant
            i <= summaries@.len(),
            vv(ss@) == strings_view(summaries@).take(i as int),
        decreases summaries.len() - i,
    {
        let ghost before = ss@;
        ss.push(chars_of(summaries[i].as_str()));
        assert(vv(ss@) =~= vv(before).push(summaries@[i as int]@));
        assert(strings_view(summaries@).take(i + 1) =~= strings_view(summaries@).take(i as int).push(summaries@[i as int]@));
        i += 1;
    }
    assert(strings_view(summaries@).take(summaries@.len() as int) == strings_view(summaries@));
    let out = format_parallel_summary_chars(ss.as_slice());
    string_of(out.as_slice())
}

/// A session first seen in an event: working, with nothing recorded yet.
pub open spec fn new_session_view(
    id: Seq<char>,
    cwd: Seq<char>,
    parent_pid: Option<u32>,
    ts_ms: u64,
) -> SessionView {
    SessionView {
        id,
        app: App::Codex,
        project: spec_project_basename(cwd),
        cwd,
        status: Status::Working,
        current_action: "Thinking\u{2026}"@,
        started_at_ms: ts_ms,
        last_event_at_ms: ts_ms,
        acknowledged_done: false,
        last_prompt: seq![],
        files_edited: seq![],
        recent_activity: seq![],
        model: seq![],
        last_commit_hash: None,
        done_summary: None,
        last_turn_id: seq![],
        turn_activity_turn_id: seq![],
        turn_activity_entries: seq![],
        last_bash_command: seq![],
        next_activity_seq: 0,
        parent_pid,
        files_edited_map: Map::empty(),
        active_child_conversations: seq![],
    }
}

impl Session {
    pub fn new(id: String, cwd: String, parent_pid: Option<u32>, ts_ms: u64) -> (r: Session)
        ensures
            r.wf(),
            r@ == new_session_view(id@, cwd@, parent_pid, ts_ms),
    {
        let project = project_basename(cwd.as_str());
        let r = Session {
            id,
            app: App::Codex,
            project,
            cwd,
            status: Status::Working,
            current_action: "Thinking\u{2026}".to_string(),
            started_at_ms: ts_ms,
            last_event_at_ms: ts_ms,
            acknowledged_done: false,
            last_prompt: String::new(),
            files_edited: Vec::new(),
            recent_activity: Vec::new(),
            model: String::new(),
            last_commit_hash: None,
            done_summary: None,
            last_turn_id: String::new(),
            turn_activity_turn_id: String::new(),
            turn_activity_entries: Vec::new(),
            last_bash_command: String::new(),
            next_activity_seq: 0,
            parent_pid,
            files_edited_map: Vec::new(),
            active_child_conversations: Vec::new(),
        };
        assert(files_view(r.files_edited@) == Seq::<(Seq<char>, DiffStat)>::empty());
        assert(activity_view(r.recent_activity@) == Seq::<ActivityView>::empty());
        assert(buffered_view(r.turn_activity_entries@) == Seq::<(Seq<char>, Seq<char>)>::empty());
        assert(files_view(r.files_edited_map@) == Seq::<(Seq<char>, DiffStat)>::empty());
        assert(assoc_map(files_view(r.files_edited_map@)) == Map::<Seq<char>, DiffStat>::empty());
        assert(strings_view(r.active_child_conversations@) == Seq::<Seq<char>>::empty());
        r
    }

    /// Pushes one line on the activity feed (see [`push_activity_spec`]).
    pub fn push_activity_with_kind(
        &mut self,
        summary: String,
        at_ms: u64,
        kind: ActivityKind,
        turn_id: &str,
    )
        ensures
            final(self)@ == push_activity_spec(old(self)@, summary@, at_ms, kind, turn_id@),
            old(self).wf() ==> final(self).wf(),
    {
        if summary.as_str().is_empty() {
            return;
        }
        if self.recent_activity.len() > 0 {
            if self.recent_activity[0].summary == summary {
                if !turn_id.is_empty() && str_eq(turn_id, self.last_turn_id.as_str()) {
                    let ghost old_view = self@;
                    let mut first = self.recent_activity.remove(0);
                    first.count = if first.count == u32::MAX {
                        first.count
                    } else {
                        first.count + 1
                    };
                    self.recent_activity.insert(0, first);
                    assert(activity_view(self.recent_activity@) == old_view.recent_activity.update(
                        0,
                        ActivityView { count: sat_inc32(old_view.recent_activity[0].count), ..old_view.recent_activity[0] },
                    ));
                }
                return;
            }
        }
        let ghost old_view = self@;
        self.next_activity_seq = if self.next_activity_seq == u64::MAX {
            0
        } else {
            self.next_activity_seq + 1
        };
        let entry = ActivityEntry {
            seq: self.next_activity_seq,
            at_ms,
            summary,
            count: 1,
            kind,
        };
        self.recent_activity.insert(0, entry);
        assert(activity_view(self.recent_activity@) == seq![entry@] + old_view.recent_activity);
        if self.recent_activity.len() > MAX_ACTIVITY_ENTRIES {
            self.recent_activity.truncate(MAX_ACTIVITY_ENTRIES);
            assert(activity_view(self.recent_activity@) == (seq![entry@]
                + old_view.recent_activity).take(MAX_ACTIVITY_ENTRIES as int));
        }
    }

    /// Flushes the per-turn buffer into the feed as one line.
    pub fn flush_turn_activity(&mut self, at_ms: u64, turn_id: &str)
        ensures
            final(self)@ == flush_spec(old(self)@, at_ms, turn_id@),
            old(self).wf() ==> final(self).wf(),
    {
        if self.turn_activity_entries.len() == 0 {
            return;
        }
        let ghost old_view = self@;
        let summary = if self.turn_activity_entries.len() == 1 {
            self.turn_activity_entries[0].summary.clone()
        } else {
            let mut ss: Vec<Vec<char>> = Vec::new();
            let mut i: usize = 0;
            while i < self.turn_activity_entries.len()
                invariant
                    i <= self.turn_activity_entries@.len(),
                    vv(ss@) == buffered_summaries(buffered_view(self.turn_activity_entries@)).take(
                        i as int,
                    ),
                decreases self.turn_activity_entries.len() - i,
            {
                let ghost before = ss@;
                ss.push(chars_of(self.turn_activity_entries[i].summary.as_str()));
                assert(vv(ss@) =~= vv(before).push(self.turn_activity_entries@[i as int].summary@));
                assert(buffered_summaries(buffered_view(self.turn_activity_entries@)).take(i + 1)
                    =~= buffered_summaries(buffered_view(self.turn_activity_entries@)).take(i as int).push(
                    self.turn_activity_entries@[i as int].summary@));
                i += 1;
            }
            assert(buffered_summaries(buffered_view(self.turn_activity_entries@)).take(
                self.turn_activity_entries@.len() as int,
            ) == buffered_summaries(buffered_view(self.turn_activity_entries@)));
            let out = format_parallel_summary_chars(ss.as_slice());
            string_of(out.as_slice())
        };
        self.push_activity_with_kind(summary, at_ms, ActivityKind::Normal, turn_id);
        self.turn_activity_entries = Vec::new();
        self.turn_activity_turn_id = String::new();
        assert(buffered_view(self.turn_activity_entries@) == Seq::<(Seq<char>, Seq<char>)>::empty());
    }
}

} // verus!
