//! Routing of child conversations (sub-agents) to the session they roll up
//! into.
use vstd::prelude::*;
use crate::text::{chars_of, string_of, seq_eq, copy_all};
use crate::json::{JsonValue, get_str, get_str_or};
use crate::events::{get_str_exec, get_str_or_exec};
use crate::session::{Session, SessionView, strings_view};
use crate::apply::sessions_view;
use crate::assoc::{
    assoc_map, keys_unique, kv_view, assoc_get, assoc_put, assoc_del, lemma_assoc_at,
    lemma_assoc_dom,
};

verus! {

broadcast use vstd::string::group_string_axioms;

/// How long after a Task spawn an unlinked child conversation may attach to
/// its parent.
pub const SPAWN_LINK_WINDOW_MS: u64 = 120_000;

/// Drop child conversations with no rollup events for this long.
pub const CHILD_QUIESCE_MS: u64 = 20_000;

/// Most parent links followed when looking for a root session.
pub const MAX_ROOT_HOPS: usize = 32;

/// Maps child conversation ids to parent sessions for multitask rollup.
pub struct SessionRouting {
    /// Child conversation id -> parent session id.
    pub child_to_parent: Vec<(String, String)>,
    /// Parent session id -> timestamp ms until which orphan children may link.
    pub spawn_window_until_ms: Vec<(String, u64)>,
    /// Last rollup event timestamp per child conversation id.
    pub child_last_event_ms: Vec<(String, u64)>,
}

pub ghost struct RoutingView {
    pub child_to_parent: Map<Seq<char>, Seq<char>>,
    pub spawn_window_until_ms: Map<Seq<char>, u64>,
    pub child_last_event_ms: Map<Seq<char>, u64>,
}

impl View for SessionRouting {
    type V = RoutingView;

    open spec fn view(&self) -> RoutingView {
        RoutingView {
            child_to_parent: assoc_map(kv_view(self.child_to_parent@)),
            spawn_window_until_ms: assoc_map(kv_view(self.spawn_window_until_ms@)),
            child_last_event_ms: assoc_map(kv_view(self.child_last_event_ms@)),
        }
    }
}

/// The session a conversation rolls up into: parent links followed from
/// `id` (a link to an empty id or to itself ends the walk), at most `hops`
/// of them.
pub open spec fn root_walk(m: Map<Seq<char>, Seq<char>>, id: Seq<char>, hops: nat) -> Seq<char>
    decreases hops,
{
    if hops > 0 && m.contains_key(id) && m[id].len() > 0 && m[id] != id {
        root_walk(m, m[id], (hops - 1) as nat)
    } else {
        id
    }
}

pub open spec fn sat_add64(a: u64, b: u64) -> u64 {
    if a + b > u64::MAX {
        u64::MAX
    } else {
        (a + b) as u64
    }
}

pub open spec fn sat_sub64(a: u64, b: u64) -> u64 {
    if a >= b {
        (a - b) as u64
    } else {
        0
    }
}

/// A child is stale when it has no rollup event on record, or none for
/// longer than [`CHILD_QUIESCE_MS`].
pub open spec fn is_stale(last: Map<Seq<char>, u64>, child: Seq<char>, ts: u64) -> bool {
    !last.contains_key(child) || sat_sub64(ts, last[child]) > CHILD_QUIESCE_MS
}

/// The session an event of conversation `raw` rolls up into: the recorded
/// parent, else the payload's `parent_conversation_id` (when it names
/// another conversation), else the conversation itself (or the payload's
/// `session_id` when the conversation id is empty), then up to its root.
pub open spec fn resolve_parent_spec(r: RoutingView, raw: Seq<char>, p: JsonValue) -> Seq<char> {
    let id0 = if r.child_to_parent.contains_key(raw) {
        r.child_to_parent[raw]
    } else {
        match get_str(p, "parent_conversation_id"@) {
            Some(par) => if par.len() > 0 && par != raw {
                par
            } else {
                seq![]
            },
            None => seq![],
        }
    };
    let id = if id0.len() > 0 {
        id0
    } else if raw.len() > 0 {
        raw
    } else {
        get_str_or(p, "session_id"@, ""@)
    };
    root_walk(r.child_to_parent, id, MAX_ROOT_HOPS as nat)
}

pub open spec fn has_session(ss: Seq<SessionView>, id: Seq<char>) -> bool {
    exists|j: int| 0 <= j < ss.len() && (#[trigger] ss[j]).id == id
}

/// Children linked to `parent` that have a session of their own.
pub open spec fn children_of(
    m: Map<Seq<char>, Seq<char>>,
    parent: Seq<char>,
    ss: Seq<SessionView>,
) -> Set<Seq<char>> {
    m.dom().filter(|c: Seq<char>| m[c] == parent && has_session(ss, c))
}

/// Children among the first `i` links that point at `parent` and have a
/// session of their own.
pub open spec fn linked_prefix(
    links: Seq<(Seq<char>, Seq<char>)>,
    i: int,
    parent: Seq<char>,
    ss: Seq<SessionView>,
) -> Set<Seq<char>>
    decreases i,
{
    if i <= 0 || i > links.len() {
        Set::empty()
    } else {
        let prev = linked_prefix(links, i - 1, parent, ss);
        let kv = links[i - 1];
        if kv.1 == parent && has_session(ss, kv.0) {
            prev.insert(kv.0)
        } else {
            prev
        }
    }
}

proof fn lemma_linked_prefix(
    links: Seq<(Seq<char>, Seq<char>)>,
    i: int,
    parent: Seq<char>,
    ss: Seq<SessionView>,
)
    requires
        0 <= i <= links.len(),
    ensures
        linked_prefix(links, i, parent, ss).finite(),
        forall|c: Seq<char>| #[trigger]
            linked_prefix(links, i, parent, ss).contains(c) <==> exists|j: int|
                0 <= j < i && (#[trigger] links[j]).0 == c && links[j].1 == parent && has_session(
                    ss,
                    c,
                ),
    decreases i,
{
    if i > 0 {
        lemma_linked_prefix(links, i - 1, parent, ss);
        assert forall|c: Seq<char>| #[trigger]
            linked_prefix(links, i, parent, ss).contains(c) <==> exists|j: int|
                0 <= j < i && (#[trigger] links[j]).0 == c && links[j].1 == parent && has_session(
                    ss,
                    c,
                ) by {
            if exists|j: int|
                0 <= j < i && (#[trigger] links[j]).0 == c && links[j].1 == parent && has_session(
                    ss,
                    c,
                ) {
                let j = choose|j: int|
                    0 <= j < i && (#[trigger] links[j]).0 == c && links[j].1 == parent
                        && has_session(ss, c);
                if j < i - 1 {
                    assert(linked_prefix(links, i - 1, parent, ss).contains(c));
                }
            }
        }
    }
}

impl Default for SessionRouting {
    fn default() -> (r: Self)
        ensures
            r.wf(),
            r@.child_to_parent == Map::<Seq<char>, Seq<char>>::empty(),
            r@.spawn_window_until_ms == Map::<Seq<char>, u64>::empty(),
            r@.child_last_event_ms == Map::<Seq<char>, u64>::empty(),
    {
        let r = SessionRouting {
            child_to_parent: Vec::new(),
            spawn_window_until_ms: Vec::new(),
            child_last_event_ms: Vec::new(),
        };
        assert(kv_view(r.child_to_parent@) =~= Seq::<(Seq<char>, Seq<char>)>::empty());
        assert(kv_view(r.spawn_window_until_ms@) =~= Seq::<(Seq<char>, u64)>::empty());
        assert(kv_view(r.child_last_event_ms@) =~= Seq::<(Seq<char>, u64)>::empty());
        r
    }
}

impl SessionRouting {
    /// Well-formed: no key twice in any of the three tables.
    pub open spec fn wf(&self) -> bool {
        &&& keys_unique(kv_view(self.child_to_parent@))
        &&& keys_unique(kv_view(self.spawn_window_until_ms@))
        &&& keys_unique(kv_view(self.child_last_event_ms@))
    }

    /// Records that `child` rolls up into `parent` (ignored for empty ids and
    /// for a conversation that would be its own parent).
    pub fn link_child(&mut self, child: &str, parent: &str)
        requires
            old(self).wf(),
        ensures
            final(self).wf(),
            final(self)@ == if child@.len() == 0 || parent@.len() == 0 || child@ == parent@ {
                old(self)@
            } else {
                RoutingView {
                    child_to_parent: old(self)@.child_to_parent.insert(child@, parent@),
                    ..old(self)@
                }
            },
    {
        let c = chars_of(child);
        let p = chars_of(parent);
        if c.len() == 0 || p.len() == 0 || seq_eq(c.as_slice(), p.as_slice()) {
            return;
        }
        assoc_put(&mut self.child_to_parent, c.as_slice(), string_of(p.as_slice()));
    }

    /// Forgets the parent of `child`.
    pub fn remove_child(&mut self, child: &str)
        requires
            old(self).wf(),
        ensures
            final(self).wf(),
            final(self)@ == (RoutingView {
                child_to_parent: old(self)@.child_to_parent.remove(child@),
                ..old(self)@
            }),
    {
        let c = chars_of(child);
        assoc_del(&mut self.child_to_parent, c.as_slice());
    }

    /// Opens a link window for the root of `session_id`: children that show
    /// up without a known parent until then may attach to it.
    pub fn note_task_spawn(&mut self, session_id: &str, ts: u64)
        requires
            old(self).wf(),
        ensures
            final(self).wf(),
            ({
                let root = root_walk(old(self)@.child_to_parent, session_id@, MAX_ROOT_HOPS as nat);
                final(self)@ == if root.len() == 0 {
                    old(self)@
                } else {
                    RoutingView {
                        spawn_window_until_ms: old(self)@.spawn_window_until_ms.insert(
                            root,
                            sat_add64(ts, SPAWN_LINK_WINDOW_MS),
                        ),
                        ..old(self)@
                    }
                }
            }),
    {
        let parent_id = self.resolve_root(session_id);
        if parent_id.as_str().is_empty() {
            return;
        }
        let until = if ts > u64::MAX - SPAWN_LINK_WINDOW_MS {
            u64::MAX
        } else {
            ts + SPAWN_LINK_WINDOW_MS
        };
        let pc = chars_of(parent_id.as_str());
        assoc_put(&mut self.spawn_window_until_ms, pc.as_slice(), until);
    }

    /// The root session of conversation `id` (see [`root_walk`]).
    pub fn resolve_root(&self, id: &str) -> (r: String)
        requires
            self.wf(),
        ensures
            r@ == root_walk(self@.child_to_parent, id@, MAX_ROOT_HOPS as nat),
    {
        let ghost m = self@.child_to_parent;
        let mut current = chars_of(id);
        let mut n: usize = 0;
        while n < MAX_ROOT_HOPS
            invariant
                self.wf(),
                m == self@.child_to_parent,
                n <= MAX_ROOT_HOPS,
                root_walk(m, current@, (MAX_ROOT_HOPS - n) as nat) == root_walk(
                    m,
                    id@,
                    MAX_ROOT_HOPS as nat,
                ),
            decreases MAX_ROOT_HOPS - n,
        {
            match assoc_get(&self.child_to_parent, current.as_slice()) {
                Some(p) => {
                    let pc = chars_of(p.as_str());
                    if pc.len() == 0 || seq_eq(pc.as_slice(), current.as_slice()) {
                        return string_of(current.as_slice());
                    }
                    current = pc;
                },
                None => {
                    return string_of(current.as_slice());
                },
            }
            n += 1;
        }
        string_of(current.as_slice())
    }

    /// Unlinks child conversations with no rollup activity for
    /// [`CHILD_QUIESCE_MS`]; returns whether any child was unlinked from
    /// the parent session.
    pub fn prune_stale_children(&mut self, entry: &mut Session, ts: u64) -> (changed: bool)
        requires
            old(self).wf(),
        ensures
            final(self).wf(),
            old(entry).wf() ==> final(entry).wf(),
            ({
                let act = old(entry)@.active_child_conversations;
                let last = old(self)@.child_last_event_ms;
                let stale = act.filter(|c: Seq<char>| is_stale(last, c, ts));
                &&& final(entry)@ == (SessionView {
                    active_child_conversations: act.filter(|c: Seq<char>| !is_stale(last, c, ts)),
                    ..old(entry)@
                })
                &&& final(self)@ == (RoutingView {
                    child_to_parent: old(self)@.child_to_parent.remove_keys(stale.to_set()),
                    child_last_event_ms: last.remove_keys(stale.to_set()),
                    ..old(self)@
                })
                &&& changed == (stale.len() > 0)
            }),
    {
        let ghost act = entry@.active_child_conversations;
        let ghost last = self@.child_last_event_ms;
        let ghost stale_p = |c: Seq<char>| is_stale(last, c, ts);
        let ghost keep_p = |c: Seq<char>| !is_stale(last, c, ts);
        let n = entry.active_child_conversations.len();
        let mut kept: Vec<String> = Vec::new();
        let mut stale: Vec<String> = Vec::new();
        let mut i: usize = 0;
        assert(act.take(0) =~= Seq::<Seq<char>>::empty());
        while i < n
            invariant
                self.wf(),
                last == self@.child_last_event_ms,
                act == strings_view(entry.active_child_conversations@),
                n == act.len(),
                i <= n,
                forall|c: Seq<char>| #[trigger] stale_p(c) == is_stale(last, c, ts),
                forall|c: Seq<char>| #[trigger] keep_p(c) == !is_stale(last, c, ts),
                strings_view(kept@) == act.take(i as int).filter(keep_p),
                strings_view(stale@) == act.take(i as int).filter(stale_p),
            decreases n - i,
        {
            let c = entry.active_child_conversations[i].clone();
            let cc = chars_of(c.as_str());
            let is_old = match assoc_get(&self.child_last_event_ms, cc.as_slice()) {
                Some(l) => {
                    let age = if ts >= *l {
                        ts - *l
                    } else {
                        0
                    };
                    age > CHILD_QUIESCE_MS
                },
                None => true,
            };
            assert(cc@ == act[i as int]);
            assert(is_old == is_stale(last, act[i as int], ts));
            assert(stale_p(act[i as int]) == is_old);
            assert(keep_p(act[i as int]) == !is_old);
            proof {
                assert(act.take(i + 1) =~= act.take(i as int).push(act[i as int]));
                act.take(i as int).lemma_filter_push(act[i as int], keep_p);
                act.take(i as int).lemma_filter_push(act[i as int], stale_p);
            }
            let ghost kb = kept@;
            let ghost sb = stale@;
            if is_old {
                stale.push(c);
                assert(strings_view(stale@) =~= strings_view(sb).push(cc@));
            } else {
                kept.push(c);
                assert(strings_view(kept@) =~= strings_view(kb).push(cc@));
            }
            i += 1;
        }
        assert(act.take(n as int) =~= act);
        let changed = stale.len() > 0;
        let ghost entry_before = entry@;
        entry.active_child_conversations = kept;
        assert(entry@ == (SessionView { active_child_conversations: act.filter(keep_p), ..entry_before }));
        let ghost sv = strings_view(stale@);
        let ghost c2p = self@.child_to_parent;
        let mut j: usize = 0;
        assert(sv.take(0).to_set() =~= Set::<Seq<char>>::empty());
        assert(c2p.remove_keys(Set::empty()) =~= c2p);
        assert(last.remove_keys(Set::empty()) =~= last);
        while j < stale.len()
            invariant
                self.wf(),
                sv == strings_view(stale@),
                j <= sv.len(),
                self@.spawn_window_until_ms == old(self)@.spawn_window_until_ms,
                self@.child_to_parent == c2p.remove_keys(sv.take(j as int).to_set()),
                self@.child_last_event_ms == last.remove_keys(sv.take(j as int).to_set()),
            decreases stale.len() - j,
        {
            let sc = chars_of(stale[j].as_str());
            assoc_del(&mut self.child_to_parent, sc.as_slice());
            assoc_del(&mut self.child_last_event_ms, sc.as_slice());
            proof {
                assert(sv.take(j + 1) =~= sv.take(j as int).push(sv[j as int]));
                sv.take(j as int).lemma_push_to_set_commute(sv[j as int]);
                assert(c2p.remove_keys(sv.take(j + 1).to_set()) =~= c2p.remove_keys(
                    sv.take(j as int).to_set(),
                ).remove(sc@));
                assert(last.remove_keys(sv.take(j + 1).to_set()) =~= last.remove_keys(
                    sv.take(j as int).to_set(),
                ).remove(sc@));
            }
            j += 1;
        }
        assert(sv.take(sv.len() as int) =~= sv);
        changed
    }

    /// The root of the parent with the latest open spawn window (one still
    /// open at `ts`), if any; between windows that close at the same time
    /// the table order decides.
    pub fn try_link_orphan_child(&self, raw_conv: &str, ts: u64) -> (r: Option<String>)
        requires
            self.wf(),
        ensures
            ({
                let w = self@.spawn_window_until_ms;
                match r {
                    None => forall|k: Seq<char>| #[trigger] w.contains_key(k) ==> w[k] < ts,
                    Some(x) => exists|k: Seq<char>|
                        {
                            &&& #[trigger] w.contains_key(k)
                            &&& w[k] >= ts
                            &&& forall|k2: Seq<char>| #[trigger]
                                w.contains_key(k2) && w[k2] >= ts ==> w[k2] <= w[k]
                            &&& x@ == root_walk(self@.child_to_parent, k, MAX_ROOT_HOPS as nat)
                        },
                }
            }),
    {
        let ghost wv = kv_view(self.spawn_window_until_ms@);
        let n = self.spawn_window_until_ms.len();
        let mut best: Option<usize> = None;
        let mut i: usize = 0;
        while i < n
            invariant
                n == wv.len(),
                wv == kv_view(self.spawn_window_until_ms@),
                i <= n,
                match best {
                    None => forall|j: int| 0 <= j < i ==> (#[trigger] wv[j]).1 < ts,
                    Some(b) => b < i && wv[b as int].1 >= ts && forall|j: int|
                        0 <= j < i && (#[trigger] wv[j]).1 >= ts ==> wv[j].1 <= wv[b as int].1,
                },
            decreases n - i,
        {
            let until = self.spawn_window_until_ms[i].1;
            if until >= ts {
                let better = match best {
                    None => true,
                    Some(b) => until > self.spawn_window_until_ms[b].1,
                };
                if better {
                    best = Some(i);
                }
            }
            i += 1;
        }
        let ghost w = self@.spawn_window_until_ms;
        match best {
            None => {
                proof {
                    assert forall|k: Seq<char>| #[trigger] w.contains_key(k) implies w[k] < ts by {
                        lemma_assoc_dom(wv, k);
                        let j = choose|j: int| 0 <= j < wv.len() && (#[trigger] wv[j]).0 == k;
                        lemma_assoc_at(wv, j);
                    }
                }
                None
            },
            Some(b) => {
                let parent = self.spawn_window_until_ms[b].0.clone();
                let root = self.resolve_root(parent.as_str());
                proof {
                    lemma_assoc_at(wv, b as int);
                    let k = wv[b as int].0;
                    assert forall|k2: Seq<char>| #[trigger]
                        w.contains_key(k2) && w[k2] >= ts implies w[k2] <= w[k] by {
                        lemma_assoc_dom(wv, k2);
                        let j = choose|j: int| 0 <= j < wv.len() && (#[trigger] wv[j]).0 == k2;
                        lemma_assoc_at(wv, j);
                    }
                    assert(w.contains_key(k));
                }
                Some(root)
            },
        }
    }

    /// The root session that an event of conversation `raw_conv` rolls up
    /// into (see [`resolve_parent_spec`]).
    pub fn resolve_parent(&self, raw_conv: &str, p: &JsonValue) -> (r: String)
        requires
            self.wf(),
        ensures
            r@ == resolve_parent_spec(self@, raw_conv@, *p),
    {
        let raw = chars_of(raw_conv);
        let mut id: Vec<char> = match assoc_get(&self.child_to_parent, raw.as_slice()) {
            Some(parent) => chars_of(parent.as_str()),
            None => match get_str_exec(p, "parent_conversation_id") {
                Some(par) => if par.len() > 0 && !seq_eq(par.as_slice(), raw.as_slice()) {
                    par
                } else {
                    Vec::new()
                },
                None => Vec::new(),
            },
        };
        if id.len() == 0 {
            if raw.len() > 0 {
                id = copy_all(raw.as_slice());
            } else {
                id = get_str_or_exec(p, "session_id", "");
                proof {
                    reveal_strlit("");
                }
            }
        }
        self.resolve_root(string_of(id.as_slice()).as_str())
    }

    /// How many children linked to `parent_id` have a session of their own.
    pub fn active_children(&self, parent_id: &str, sessions: &Vec<Session>) -> (n: usize)
        requires
            self.wf(),
        ensures
            n == children_of(self@.child_to_parent, parent_id@, sessions_view(sessions@)).len(),
    {
        let ghost links = kv_view(self.child_to_parent@);
        let ghost ss = sessions_view(sessions@);
        let pc = chars_of(parent_id);
        let len = self.child_to_parent.len();
        let mut count: usize = 0;
        let mut i: usize = 0;
        proof {
            lemma_linked_prefix(links, 0, parent_id@, ss);
        }
        while i < len
            invariant
                self.wf(),
                links == kv_view(self.child_to_parent@),
                ss == sessions_view(sessions@),
                pc@ == parent_id@,
                len == links.len(),
                i <= len,
                count <= i,
                count == linked_prefix(links, i as int, parent_id@, ss).len(),
            decreases len - i,
        {
            let child = chars_of(self.child_to_parent[i].0.as_str());
            let to_parent = seq_eq(chars_of(self.child_to_parent[i].1.as_str()).as_slice(), pc.as_slice());
            let mut found = false;
            if to_parent {
                let mut j: usize = 0;
                while j < sessions.len() && !found
                    invariant
                        ss == sessions_view(sessions@),
                        j <= ss.len(),
                        !found ==> forall|x: int| 0 <= x < j ==> (#[trigger] ss[x]).id != child@,
                        found ==> has_session(ss, child@),
                    decreases sessions.len() - j,
                {
                    if seq_eq(chars_of(sessions[j].id.as_str()).as_slice(), child.as_slice()) {
                        assert(ss[j as int].id == child@);
                        found = true;
                    }
                    j += 1;
                }
            }
            assert(to_parent == (links[i as int].1 == parent_id@));
            assert(found == (to_parent && has_session(ss, child@)));
            proof {
                lemma_linked_prefix(links, i as int, parent_id@, ss);
                lemma_linked_prefix(links, i + 1, parent_id@, ss);
                assert(links[i as int].0 == child@);
                if found {
                    assert forall|j: int| 0 <= j < i implies (#[trigger] links[j]).0 != child@ by {
                        assert(links[j].0 != links[i as int].0);
                    }
                    assert(!linked_prefix(links, i as int, parent_id@, ss).contains(child@));
                }
            }
            if found {
                count += 1;
            }
            i += 1;
        }
        proof {
            lemma_linked_prefix(links, len as int, parent_id@, ss);
            let m = self@.child_to_parent;
            assert forall|c: Seq<char>| #[trigger]
                linked_prefix(links, len as int, parent_id@, ss).contains(c) <==> children_of(
                    m,
                    parent_id@,
                    ss,
                ).contains(c) by {
                lemma_assoc_dom(links, c);
                if m.contains_key(c) {
                    let j = choose|j: int| 0 <= j < links.len() && (#[trigger] links[j]).0 == c;
                    lemma_assoc_at(links, j);
                }
                if exists|j: int|
                    0 <= j < len && (#[trigger] links[j]).0 == c && links[j].1 == parent_id@
                        && has_session(ss, c) {
                    let j = choose|j: int|
                        0 <= j < len && (#[trigger] links[j]).0 == c && links[j].1 == parent_id@
                            && has_session(ss, c);
                    lemma_assoc_at(links, j);
                }
            }
            assert(linked_prefix(links, len as int, parent_id@, ss) =~= children_of(
                m,
                parent_id@,
                ss,
            ));
        }
        count
    }

    /// Records a rollup event of `child` at `ts`.
    pub fn touch_child(&mut self, child: &str, ts: u64)
        requires
            old(self).wf(),
        ensures
            final(self).wf(),
            final(self)@ == if child@.len() == 0 {
                old(self)@
            } else {
                RoutingView {
                    child_last_event_ms: old(self)@.child_last_event_ms.insert(child@, ts),
                    ..old(self)@
                }
            },
    {
        let c = chars_of(child);
        if c.len() > 0 {
            assoc_put(&mut self.child_last_event_ms, c.as_slice(), ts);
        }
    }
}

// ───────────────────────── laws ─────────────────────────

/// A conversation with no recorded parent is its own root.
pub proof fn lemma_unlinked_is_own_root(m: Map<Seq<char>, Seq<char>>, id: Seq<char>, hops: nat)
    requires
        !m.contains_key(id),
    ensures
        root_walk(m, id, hops) == id,
{
}

/// Once `child` is linked to `parent`, the child's root is the parent's
/// root (one hop further up).
pub proof fn lemma_linked_child_shares_root(
    m: Map<Seq<char>, Seq<char>>,
    child: Seq<char>,
    parent: Seq<char>,
    hops: nat,
)
    requires
        child.len() > 0,
        parent.len() > 0,
        child != parent,
    ensures
        root_walk(m.insert(child, parent), child, hops + 1) == root_walk(
            m.insert(child, parent),
            parent,
            hops,
        ),
{
}

/// Removing a child undoes linking it: link then remove leaves the
/// routing as removing alone would.
pub proof fn lemma_remove_undoes_link(r: RoutingView, child: Seq<char>, parent: Seq<char>)
    ensures
        ({
            let linked = if child.len() == 0 || parent.len() == 0 || child == parent {
                r
            } else {
                RoutingView { child_to_parent: r.child_to_parent.insert(child, parent), ..r }
            };
            RoutingView { child_to_parent: linked.child_to_parent.remove(child), ..linked }
                == RoutingView { child_to_parent: r.child_to_parent.remove(child), ..r }
        }),
{
    assert(r.child_to_parent.insert(child, parent).remove(child) =~= r.child_to_parent.remove(
        child,
    ));
}

/// After pruning, every child left on the session is fresh, and no pruned
/// child keeps a parent link or an event time.
pub proof fn lemma_prune_leaves_only_fresh(
    act: Seq<Seq<char>>,
    links: Map<Seq<char>, Seq<char>>,
    last: Map<Seq<char>, u64>,
    ts: u64,
)
    ensures
        ({
            let kept = act.filter(|c: Seq<char>| !is_stale(last, c, ts));
            let stale = act.filter(|c: Seq<char>| is_stale(last, c, ts)).to_set();
            &&& forall|i: int| 0 <= i < kept.len() ==> !is_stale(last, #[trigger] kept[i], ts)
            &&& forall|c: Seq<char>|
                act.contains(c) && is_stale(last, c, ts) ==> !(#[trigger] links.remove_keys(
                    stale,
                ).contains_key(c)) && !last.remove_keys(stale).contains_key(c)
        }),
{
    let keep_p = |c: Seq<char>| !is_stale(last, c, ts);
    let stale_p = |c: Seq<char>| is_stale(last, c, ts);
    let kept = act.filter(keep_p);
    let stale = act.filter(stale_p);
    assert forall|i: int| 0 <= i < kept.len() implies !is_stale(last, #[trigger] kept[i], ts) by {
        broadcast use vstd::seq_lib::group_filter_ensures;

        assert(keep_p(kept[i]));
    }
    assert forall|c: Seq<char>| act.contains(c) && is_stale(last, c, ts) implies !(
    #[trigger] links.remove_keys(stale.to_set()).contains_key(c)) && !last.remove_keys(
        stale.to_set(),
    ).contains_key(c) by {
        let i = choose|i: int| 0 <= i < act.len() && act[i] == c;
        act.lemma_filter_contains(stale_p, i);
        assert(stale.to_set().contains(c));
    }
}

} // verus!
