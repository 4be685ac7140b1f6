//! Finding the desktop app behind a hook: a walk up the process tree.
use vstd::prelude::*;
use crate::text::{chars_of, eq_ic, eq_ignore_case_lit, lower_seq, lower_all, contains, contains_lit};

verus! {

broadcast use vstd::string::group_string_axioms;

/// Most parent links followed before falling back to a name search.
pub const MAX_TREE_HOPS: usize = 16;

/// One process of a process table snapshot.
pub struct ProcEntry {
    pub pid: u32,
    pub parent_pid: u32,
    pub name: String,
}

pub ghost struct ProcView {
    pub pid: u32,
    pub parent_pid: u32,
    pub name: Seq<char>,
}

impl View for ProcEntry {
    type V = ProcView;

    open spec fn view(&self) -> ProcView {
        ProcView { pid: self.pid, parent_pid: self.parent_pid, name: self.name@ }
    }
}

pub open spec fn procs_view(ps: Seq<ProcEntry>) -> Seq<ProcView> {
    Seq::new(ps.len(), |i: int| ps[i]@)
}

/// The desktop apps whose process the walk looks for.
#[derive(Clone, Copy, Debug, PartialEq, Eq, Structural)]
pub enum DesktopApp {
    Codex,
    Cursor,
}

/// Known executable names of the app (ASCII case ignored).
pub open spec fn is_app_exe(app: DesktopApp, name: Seq<char>) -> bool {
    match app {
        DesktopApp::Codex => eq_ic(name, "Codex.exe"@) || eq_ic(name, "codex.exe"@) || eq_ic(
            name,
            "Codex Desktop.exe"@,
        ) || eq_ic(name, "openai-codex.exe"@) || eq_ic(name, "openai.codex.exe"@),
        DesktopApp::Cursor => eq_ic(name, "Cursor.exe"@) || eq_ic(name, "cursor.exe"@) || eq_ic(
            name,
            "Cursor Helper.exe"@,
        ) || eq_ic(name, "Cursor Helper (Renderer).exe"@),
    }
}

/// The word a process name must contain for the fallback search.
pub open spec fn app_word(app: DesktopApp) -> Seq<char> {
    match app {
        DesktopApp::Codex => "codex"@,
        DesktopApp::Cursor => "cursor"@,
    }
}

/// Position of the first process with id `pid` from `i` on, or -1.
pub open spec fn proc_index(ps: Seq<ProcView>, pid: u32, i: int) -> int
    decreases ps.len() - i,
{
    if i < 0 || i >= ps.len() {
        -1
    } else if ps[i].pid == pid {
        i
    } else {
        proc_index(ps, pid, i + 1)
    }
}

/// The walk up from `pid`: `Some(Some(p))` when an app process is met,
/// `Some(None)` when a process on the way is missing from the table, `None`
/// when the walk reaches the top (parent 0) or runs out of hops.
pub open spec fn walk_up(ps: Seq<ProcView>, app: DesktopApp, pid: u32, hops: nat) -> Option<
    Option<u32>,
>
    decreases hops,
{
    if hops == 0 {
        None
    } else {
        let i = proc_index(ps, pid, 0);
        if i < 0 {
            Some(None)
        } else if is_app_exe(app, ps[i].name) {
            Some(Some(ps[i].pid))
        } else if ps[i].parent_pid == 0 {
            None
        } else {
            walk_up(ps, app, ps[i].parent_pid, (hops - 1) as nat)
        }
    }
}

/// The first process (from `i` on) whose lowercased name contains the
/// app's word.
pub open spec fn first_named(ps: Seq<ProcView>, app: DesktopApp, i: int) -> Option<u32>
    decreases ps.len() - i,
{
    if i < 0 || i >= ps.len() {
        None
    } else if contains(lower_seq(ps[i].name), app_word(app)) {
        Some(ps[i].pid)
    } else {
        first_named(ps, app, i + 1)
    }
}

/// The app's process for a hook whose parent is `pid`: the first app
/// process up the tree, else (when the walk ends without a missing
/// process) any process named like the app.
pub open spec fn spec_root_pid(ps: Seq<ProcView>, app: DesktopApp, pid: u32) -> Option<u32> {
    match walk_up(ps, app, pid, MAX_TREE_HOPS as nat) {
        Some(r) => r,
        None => first_named(ps, app, 0),
    }
}

fn is_app_exe_exec(app: DesktopApp, name: &[char]) -> (r: bool)
    ensures
        r == is_app_exe(app, name@),
{
    match app {
        DesktopApp::Codex => eq_ignore_case_lit(name, "Codex.exe") || eq_ignore_case_lit(
            name,
            "codex.exe",
        ) || eq_ignore_case_lit(name, "Codex Desktop.exe") || eq_ignore_case_lit(
            name,
            "openai-codex.exe",
        ) || eq_ignore_case_lit(name, "openai.codex.exe"),
        DesktopApp::Cursor => eq_ignore_case_lit(name, "Cursor.exe") || eq_ignore_case_lit(
            name,
            "cursor.exe",
        ) || eq_ignore_case_lit(name, "Cursor Helper.exe") || eq_ignore_case_lit(
            name,
            "Cursor Helper (Renderer).exe",
        ),
    }
}

fn find_proc(procs: &[ProcEntry], pid: u32) -> (r: Option<usize>)
    ensures
        match r {
            Some(i) => i == proc_index(procs_view(procs@), pid, 0) && i < procs@.len(),
            None => proc_index(procs_view(procs@), pid, 0) == -1,
        },
{
    let ghost ps = procs_view(procs@);
    let mut i: usize = 0;
    while i < procs.len()
        invariant
            ps == procs_view(procs@),
            i <= procs@.len(),
            proc_index(ps, pid, i as int) == proc_index(ps, pid, 0),
        decreases procs.len() - i,
    {
        if procs[i].pid == pid {
            return Some(i);
        }
        i += 1;
    }
    None
}

/// Process of `app` for a hook whose parent process is `pid`, looked up in a
/// process table snapshot (see [`spec_root_pid`]).
///
/// The fallback matches names folded to lower case in ASCII only; for the
/// words looked for this agrees with full Unicode lowercasing, since no
/// other character lowercases to one of their letters.
pub fn root_pid(procs: &[ProcEntry], app: DesktopApp, pid: u32) -> (r: Option<u32>)
    ensures
        r == spec_root_pid(procs_view(procs@), app, pid),
{
    let ghost ps = procs_view(procs@);
    let mut current = pid;
    let mut n: usize = 0;
    let mut fall_back = false;
    while n < MAX_TREE_HOPS && !fall_back
        invariant
            ps == procs_view(procs@),
            n <= MAX_TREE_HOPS,
            !fall_back ==> walk_up(ps, app, current, (MAX_TREE_HOPS - n) as nat) == walk_up(
                ps,
                app,
                pid,
                MAX_TREE_HOPS as nat,
            ),
            fall_back ==> walk_up(ps, app, pid, MAX_TREE_HOPS as nat) is None,
        decreases MAX_TREE_HOPS - n,
    {
        match find_proc(procs, current) {
            None => {
                return None;
            },
            Some(i) => {
                let name = chars_of(procs[i].name.as_str());
                if is_app_exe_exec(app, name.as_slice()) {
                    return Some(procs[i].pid);
                }
                current = procs[i].parent_pid;
                if current == 0 {
                    fall_back = true;
                }
            },
        }
        n += 1;
    }
    assert(walk_up(ps, app, pid, MAX_TREE_HOPS as nat) is None);
    let mut j: usize = 0;
    while j < procs.len()
        invariant
            ps == procs_view(procs@),
            walk_up(ps, app, pid, MAX_TREE_HOPS as nat) is None,
            j <= procs@.len(),
            first_named(ps, app, j as int) == first_named(ps, app, 0),
        decreases procs.len() - j,
    {
        let lowered = lower_all(chars_of(procs[j].name.as_str()).as_slice());
        let hit = match app {
            DesktopApp::Codex => contains_lit(lowered.as_slice(), "codex"),
            DesktopApp::Cursor => contains_lit(lowered.as_slice(), "cursor"),
        };
        if hit {
            return Some(procs[j].pid);
        }
        j += 1;
    }
    None
}

/// The Codex Desktop process for a hook whose parent process is `pid`.
pub fn root_codex_pid(procs: &[ProcEntry], pid: u32) -> (r: Option<u32>)
    ensures
        r == spec_root_pid(procs_view(procs@), DesktopApp::Codex, pid),
{
    root_pid(procs, DesktopApp::Codex, pid)
}

/// The Cursor process for a hook whose parent process is `pid`.
pub fn root_cursor_pid(procs: &[ProcEntry], pid: u32) -> (r: Option<u32>)
    ensures
        r == spec_root_pid(procs_view(procs@), DesktopApp::Cursor, pid),
{
    root_pid(procs, DesktopApp::Cursor, pid)
}

} // verus!
