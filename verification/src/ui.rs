//! What the overlay's commands decide: which window to focus, which
//! session to acknowledge or drop, and the order sessions are shown in.
use vstd::prelude::*;
use crate::text::{chars_of, seq_eq};
use crate::session::{App, Status, Session, SessionView};
use crate::apply::{sessions_view, sessions_wf, session_index};
use crate::routing::{SessionRouting, RoutingView};

verus! {

broadcast use vstd::string::group_string_axioms;

/// Finds the session with id `id` (the length when none).
pub fn find_session_by_id(map: &Vec<Session>, id: &str) -> (k: usize)
    ensures
        k <= map@.len(),
        k < map@.len() ==> session_index(sessions_view(map@), id@, 0) == k,
        k == map@.len() ==> session_index(sessions_view(map@), id@, 0) == -1,
{
    let ghost mv = sessions_view(map@);
    let ic = chars_of(id);
    let mut k: usize = 0;
    while k < map.len()
        invariant
            k <= map@.len(),
            mv == sessions_view(map@),
            ic@ == id@,
            session_index(mv, id@, k as int) == session_index(mv, id@, 0),
        decreases map.len() - k,
    {
        if seq_eq(chars_of(map[k].id.as_str()).as_slice(), ic.as_slice()) {
            return k;
        }
        k += 1;
    }
    k
}

/// A session whose process can be focused, of the wanted app.
pub open spec fn focusable(s: SessionView, cursor_only: bool) -> bool {
    s.parent_pid is Some && (!cursor_only || s.app == App::Cursor)
}

/// The process to bring forward: the named session's parent process, or
/// (with no id) that of the most recently active focusable session.
/// Between sessions active at the same time the table order decides.
pub fn focus_target(map: &Vec<Session>, id: Option<&str>, cursor_only: bool) -> (r: Option<u32>)
    ensures
        ({
            let ss = sessions_view(map@);
            match id {
                Some(sid) => {
                    let k = session_index(ss, sid@, 0);
                    r == if k >= 0 {
                        ss[k].parent_pid
                    } else {
                        None
                    }
                },
                None => match r {
                    None => forall|j: int| 0 <= j < ss.len() ==> !focusable(#[trigger] ss[j], cursor_only),
                    Some(p) => exists|j: int|
                        {
                            &&& 0 <= j < ss.len()
                            &&& focusable(#[trigger] ss[j], cursor_only)
                            &&& ss[j].parent_pid == Some(p)
                            &&& forall|i: int|
                                0 <= i < ss.len() && focusable(#[trigger] ss[i], cursor_only)
                                    ==> ss[i].last_event_at_ms <= ss[j].last_event_at_ms
                        },
                },
            }
        }),
{
    let ghost ss = sessions_view(map@);
    match id {
        Some(sid) => {
            let k = find_session_by_id(map, sid);
            if k < map.len() {
                map[k].parent_pid
            } else {
                None
            }
        },
        None => {
            let mut best: Option<usize> = None;
            let mut i: usize = 0;
            while i < map.len()
                invariant
                    ss == sessions_view(map@),
                    i <= map@.len(),
                    match best {
                        None => forall|j: int| 0 <= j < i ==> !focusable(#[trigger] ss[j], cursor_only),
                        Some(b) => b < i && focusable(ss[b as int], cursor_only) && forall|j: int|
                            0 <= j < i && focusable(#[trigger] ss[j], cursor_only)
                                ==> ss[j].last_event_at_ms <= ss[b as int].last_event_at_ms,
                    },
                decreases map.len() - i,
            {
                let s = &map[i];
                let eligible = s.parent_pid.is_some() && (!cursor_only || s.app == App::Cursor);
                if eligible {
                    let better = match best {
                        None => true,
                        Some(b) => s.last_event_at_ms > map[b].last_event_at_ms,
                    };
                    if better {
                        best = Some(i);
                    }
                }
                i += 1;
            }
            match best {
                None => None,
                Some(b) => {
                    assert(focusable(ss[b as int], cursor_only));
                    map[b].parent_pid
                },
            }
        },
    }
}

/// Marks a finished session as seen (other states are left alone).
pub fn acknowledge_done(map: &mut Vec<Session>, id: &str)
    requires
        sessions_wf(old(map)@),
    ensures
        sessions_wf(final(map)@),
        ({
            let m = sessions_view(old(map)@);
            let k = session_index(m, id@, 0);
            sessions_view(final(map)@) == if k >= 0 && m[k].status == Status::Done {
                m.update(k, SessionView { acknowledged_done: true, ..m[k] })
            } else {
                m
            }
        }),
{
    let ghost m = sessions_view(map@);
    let k = find_session_by_id(map, id);
    if k < map.len() && map[k].status == Status::Done {
        let mut s = map.remove(k);
        s.acknowledged_done = true;
        map.insert(k, s);
        assert(sessions_view(map@) =~= m.update(k as int, SessionView { acknowledged_done: true, ..m[k as int] }));
    }
}

/// Forgets a session, and any parent link it had as a child conversation.
pub fn remove_session(map: &mut Vec<Session>, routing: &mut SessionRouting, id: &str)
    requires
        sessions_wf(old(map)@),
        old(routing).wf(),
    ensures
        sessions_wf(final(map)@),
        final(routing).wf(),
        ({
            let m = sessions_view(old(map)@);
            let k = session_index(m, id@, 0);
            sessions_view(final(map)@) == if k >= 0 {
                m.remove(k)
            } else {
                m
            }
        }),
        final(routing)@ == (RoutingView {
            child_to_parent: old(routing)@.child_to_parent.remove(id@),
            ..old(routing)@
        }),
{
    let ghost m = sessions_view(map@);
    let k = find_session_by_id(map, id);
    if k < map.len() {
        let _ = map.remove(k);
        assert(sessions_view(map@) =~= m.remove(k as int));
        assert(sessions_wf(map@)) by {
            assert forall|i: int, j: int|
                0 <= i < j < map@.len() implies (#[trigger] map@[i])@.id != (#[trigger] map@[j])@.id by {
                let oi = if i < k {
                    i
                } else {
                    i + 1
                };
                let oj = if j < k {
                    j
                } else {
                    j + 1
                };
                assert(map@[i] == old(map)@[oi]);
                assert(map@[j] == old(map)@[oj]);
            }
            assert forall|i: int| 0 <= i < map@.len() implies (#[trigger] map@[i]).wf() by {
                let oi = if i < k {
                    i
                } else {
                    i + 1
                };
                assert(map@[i] == old(map)@[oi]);
            }
        }
    }
    routing.remove_child(id);
}

/// Session positions, most recently active first.
pub fn snapshot_order(map: &Vec<Session>) -> (order: Vec<usize>)
    ensures
        order@.len() == map@.len(),
        forall|i: int| 0 <= i < order@.len() ==> (#[trigger] order@[i]) < map@.len(),
        forall|i: int, j: int| 0 <= i < j < order@.len() ==> order@[i] != order@[j],
        forall|i: int, j: int|
            0 <= i < j < order@.len() ==> map@[order@[i] as int].last_event_at_ms
                >= map@[order@[j] as int].last_event_at_ms,
{
    let n = map.len();
    let mut order: Vec<usize> = Vec::new();
    let mut i: usize = 0;
    while i < n
        invariant
            n == map@.len(),
            i <= n,
            order@.len() == i,
            forall|a: int| 0 <= a < order@.len() ==> (#[trigger] order@[a]) < i,
            forall|a: int, b: int| 0 <= a < b < order@.len() ==> order@[a] != order@[b],
            forall|a: int, b: int|
                0 <= a < b < order@.len() ==> map@[order@[a] as int].last_event_at_ms
                    >= map@[order@[b] as int].last_event_at_ms,
        decreases n - i,
    {
        let t = map[i].last_event_at_ms;
        let mut p: usize = 0;
        while p < order.len() && map[order[p]].last_event_at_ms >= t
            invariant
                n == map@.len(),
                i < n,
                p <= order@.len(),
                t == map@[i as int].last_event_at_ms,
                forall|a: int| 0 <= a < order@.len() ==> (#[trigger] order@[a]) < i,
                forall|a: int| 0 <= a < p ==> map@[(#[trigger] order@[a]) as int].last_event_at_ms >= t,
            decreases order.len() - p,
        {
            p += 1;
        }
        let ghost before = order@;
        order.insert(p, i);
        assert(order@ =~= before.insert(p as int, i));
        assert forall|a: int, b: int| 0 <= a < b < order@.len() implies map@[order@[a] as int].last_event_at_ms
            >= map@[order@[b] as int].last_event_at_ms by {
            if b < p {
                assert(order@[a] == before[a] && order@[b] == before[b]);
            } else if b == p {
                assert(order@[a] == before[a]);
            } else if a == p {
                assert(order@[b] == before[b - 1]);
                assert(p < before.len());
                assert(map@[before[p as int] as int].last_event_at_ms < t);
                if b - 1 > p {
                    assert(map@[before[p as int] as int].last_event_at_ms >= map@[before[b
                        - 1] as int].last_event_at_ms);
                }
            } else if a < p {
                assert(order@[a] == before[a] && order@[b] == before[b - 1]);
            } else {
                assert(order@[a] == before[a - 1] && order@[b] == before[b - 1]);
            }
        }
        assert forall|a: int, b: int| 0 <= a < b < order@.len() implies order@[a] != order@[b] by {
            if a == p {
                assert(order@[b] == before[b - 1]);
            } else if b == p {
                assert(order@[a] == before[a]);
            } else {
                let oa = if a < p {
                    a
                } else {
                    a - 1
                };
                let ob = if b < p {
                    b
                } else {
                    b - 1
                };
                assert(order@[a] == before[oa] && order@[b] == before[ob]);
            }
        }
        assert forall|a: int| 0 <= a < order@.len() implies (#[trigger] order@[a]) < i + 1 by {
            if a != p {
                let oa = if a < p {
                    a
                } else {
                    a - 1
                };
                assert(order@[a] == before[oa]);
            }
        }
        i += 1;
    }
    order
}

/// Top edge of the overlay after a resize to `new_height`: kept, or moved so
/// the bottom edge stays put when `anchor_bottom`.
pub fn panel_top(anchor_bottom: bool, top: i32, old_height: i32, new_height: i32) -> (r: i32)
    requires
        anchor_bottom ==> i32::MIN <= top + old_height <= i32::MAX,
        anchor_bottom ==> i32::MIN <= top + old_height - new_height <= i32::MAX,
    ensures
        r == if anchor_bottom {
            top + old_height - new_height
        } else {
            top as int
        },
{
    if anchor_bottom {
        let bottom = top + old_height;
        bottom - new_height
    } else {
        top
    }
}

} // verus!
