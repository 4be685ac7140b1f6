//! Per-file diff totals: counting `+` / `-` lines of `apply_patch` calls and
//! the sorted list the overlay shows.
use vstd::prelude::*;
use crate::text::{
    chars_of, string_of, seq_eq, starts_with, starts_with_char, starts_with_ch, starts_with_lit,
    lines, lines_exec, vv,
};
use crate::json::{JsonValue, get_str_or, get_str, json_get};
use crate::session::{Session, SessionView, DiffStat, files_view};
use crate::assoc::{
    assoc_map, keys_unique, lemma_assoc_dom, lemma_assoc_insert, lemma_assoc_absent, lemma_assoc_at,
    lemma_assoc_update,
};
use crate::events::{
    spec_parse_patch_header, parse_patch_header, tool_command, tool_command_exec, after_prefix,
    get_str_or_exec, get_str_exec,
};

verus! {

broadcast use vstd::string::group_string_axioms;

// ───────────────────────── path order ─────────────────────────

/// `a` sorts before `b`: code point by code point, a proper prefix first.
/// (For UTF-8 strings this is the byte order that `String` compares by.)
pub open spec fn lex_lt(a: Seq<char>, b: Seq<char>) -> bool
    decreases a.len(),
{
    if a.len() == 0 {
        b.len() > 0
    } else if b.len() == 0 {
        false
    } else if a[0] != b[0] {
        (a[0] as int) < (b[0] as int)
    } else {
        lex_lt(a.skip(1), b.skip(1))
    }
}

pub proof fn lemma_lex_irreflexive(a: Seq<char>)
    ensures
        !lex_lt(a, a),
    decreases a.len(),
{
    if a.len() > 0 {
        lemma_lex_irreflexive(a.skip(1));
    }
}

pub proof fn lemma_lex_transitive(a: Seq<char>, b: Seq<char>, c: Seq<char>)
    requires
        lex_lt(a, b),
        lex_lt(b, c),
    ensures
        lex_lt(a, c),
    decreases a.len(),
{
    if a.len() > 0 && b.len() > 0 && c.len() > 0 && a[0] == b[0] && b[0] == c[0] {
        lemma_lex_transitive(a.skip(1), b.skip(1), c.skip(1));
    }
}

pub proof fn lemma_lex_total(a: Seq<char>, b: Seq<char>)
    requires
        a != b,
    ensures
        lex_lt(a, b) || lex_lt(b, a),
    decreases a.len(),
{
    if a.len() > 0 && b.len() > 0 && a[0] == b[0] {
        if a.skip(1) == b.skip(1) {
            assert(a =~= seq![a[0]] + a.skip(1));
            assert(b =~= seq![b[0]] + b.skip(1));
        }
        lemma_lex_total(a.skip(1), b.skip(1));
    } else if a.len() == 0 && b.len() == 0 {
        assert(a =~= b);
    }
}

pub proof fn lemma_lex_asymmetric(a: Seq<char>, b: Seq<char>)
    requires
        lex_lt(a, b),
    ensures
        !lex_lt(b, a),
{
    if lex_lt(b, a) {
        lemma_lex_transitive(a, b, a);
        lemma_lex_irreflexive(a);
    }
}

pub fn lex_lt_exec(a: &[char], b: &[char]) -> (r: bool)
    ensures
        r == lex_lt(a@, b@),
{
    let mut i: usize = 0;
    assert(a@.skip(0) =~= a@);
    assert(b@.skip(0) =~= b@);
    while i < a.len() && i < b.len() && a[i] == b[i]
        invariant
            i <= a@.len(),
            i <= b@.len(),
            lex_lt(a@.skip(i as int), b@.skip(i as int)) == lex_lt(a@, b@),
        decreases a.len() - i,
    {
        assert(a@.skip(i as int).skip(1) =~= a@.skip(i + 1));
        assert(b@.skip(i as int).skip(1) =~= b@.skip(i + 1));
        i += 1;
    }
    if i == a.len() {
        i < b.len()
    } else if i == b.len() {
        false
    } else {
        assert(a@.skip(i as int)[0] == a@[i as int]);
        assert(b@.skip(i as int)[0] == b@[i as int]);
        let ca = a[i];
        let cb = b[i];
        assert((ca < cb) == ((ca as int) < (cb as int)));
        ca < cb
    }
}

/// Entries in strictly increasing path order.
pub open spec fn sorted_by_path(v: Seq<(Seq<char>, DiffStat)>) -> bool {
    forall|i: int, j: int| 0 <= i < j < v.len() ==> lex_lt(#[trigger] v[i].0, #[trigger] v[j].0)
}

/// The map's entries as a list in path order.
pub open spec fn sorted_entries(m: Map<Seq<char>, DiffStat>) -> Seq<(Seq<char>, DiffStat)> {
    choose|v: Seq<(Seq<char>, DiffStat)>| sorted_by_path(v) && assoc_map(v) == m
}

pub proof fn lemma_sorted_keys_unique(v: Seq<(Seq<char>, DiffStat)>)
    requires
        sorted_by_path(v),
    ensures
        keys_unique(v),
{
    assert forall|i: int, j: int| 0 <= i < j < v.len() implies #[trigger] v[i].0 != #[trigger] v[j].0 by {
        if v[i].0 == v[j].0 {
            lemma_lex_irreflexive(v[i].0);
        }
    }
}

/// Two lists in path order that hold the same totals are the same list.
pub proof fn lemma_sorted_unique(a: Seq<(Seq<char>, DiffStat)>, b: Seq<(Seq<char>, DiffStat)>)
    requires
        sorted_by_path(a),
        sorted_by_path(b),
        assoc_map(a) == assoc_map(b),
    ensures
        a == b,
    decreases a.len() + b.len(),
{
    lemma_sorted_keys_unique(a);
    lemma_sorted_keys_unique(b);
    if a.len() == 0 || b.len() == 0 {
        if a.len() > 0 {
            lemma_assoc_at(a, a.len() - 1);
            lemma_assoc_dom(b, a[a.len() - 1].0);
        }
        if b.len() > 0 {
            lemma_assoc_at(b, b.len() - 1);
            lemma_assoc_dom(a, b[b.len() - 1].0);
        }
        assert(a =~= b);
    } else {
        let la = a.len() - 1;
        let lb = b.len() - 1;
        let ka = a[la].0;
        let kb = b[lb].0;
        lemma_assoc_at(a, la);
        lemma_assoc_at(b, lb);
        lemma_assoc_dom(b, ka);
        lemma_assoc_dom(a, kb);
        let j = choose|j: int| 0 <= j < b.len() && (#[trigger] b[j]).0 == ka;
        let i = choose|i: int| 0 <= i < a.len() && (#[trigger] a[i]).0 == kb;
        if ka != kb {
            assert(j != lb);
            assert(i != la);
            assert(lex_lt(b[j].0, b[lb].0));
            assert(lex_lt(a[i].0, a[la].0));
            lemma_lex_asymmetric(ka, kb);
        }
        assert(a[la] == b[lb]);
        let da = a.drop_last();
        let db = b.drop_last();
        assert forall|x: int| 0 <= x < da.len() implies (#[trigger] da[x]).0 != ka by {
            assert(da[x] == a[x]);
        }
        assert forall|x: int| 0 <= x < db.len() implies (#[trigger] db[x]).0 != ka by {
            assert(db[x] == b[x]);
        }
        lemma_assoc_dom(da, ka);
        lemma_assoc_dom(db, ka);
        assert(assoc_map(da) =~= assoc_map(a).remove(ka));
        assert(assoc_map(db) =~= assoc_map(b).remove(ka));
        assert(sorted_by_path(da)) by {
            assert forall|x: int, y: int| 0 <= x < y < da.len() implies lex_lt(
                #[trigger] da[x].0,
                #[trigger] da[y].0,
            ) by {
                assert(da[x] == a[x] && da[y] == a[y]);
            }
        }
        assert(sorted_by_path(db)) by {
            assert forall|x: int, y: int| 0 <= x < y < db.len() implies lex_lt(
                #[trigger] db[x].0,
                #[trigger] db[y].0,
            ) by {
                assert(db[x] == b[x] && db[y] == b[y]);
            }
        }
        lemma_sorted_unique(da, db);
        assert(a =~= da.push(a[la]));
        assert(b =~= db.push(b[lb]));
    }
}

/// A list in path order is the sorted listing of its own totals.
pub proof fn lemma_sorted_entries_of(v: Seq<(Seq<char>, DiffStat)>)
    requires
        sorted_by_path(v),
    ensures
        sorted_entries(assoc_map(v)) == v,
{
    let w = sorted_entries(assoc_map(v));
    assert(sorted_by_path(w) && assoc_map(w) == assoc_map(v));
    lemma_sorted_unique(w, v);
}

impl Session {
    /// Lists the diff totals by path, in path order.
    pub fn flatten_files(&mut self)
        requires
            old(self).wf(),
        ensures
            final(self).wf(),
            final(self)@ == (SessionView {
                files_edited: sorted_entries(old(self)@.files_edited_map),
                ..old(self)@
            }),
            sorted_by_path(final(self)@.files_edited),
            assoc_map(final(self)@.files_edited) == final(self)@.files_edited_map,
    {
        let n = self.files_edited_map.len();
        let mut r: Vec<(String, DiffStat)> = Vec::new();
        let mut i: usize = 0;
        assert(files_view(self.files_edited_map@).take(0) =~= Seq::<(Seq<char>, DiffStat)>::empty());
        assert(files_view(r@) =~= Seq::<(Seq<char>, DiffStat)>::empty());
        while i < n
            invariant
                n == self.files_edited_map@.len(),
                i <= n,
                keys_unique(files_view(self.files_edited_map@)),
                sorted_by_path(files_view(r@)),
                assoc_map(files_view(r@)) == assoc_map(
                    files_view(self.files_edited_map@).take(i as int),
                ),
            decreases n - i,
        {
            let ghost m = files_view(self.files_edited_map@);
            let key = self.files_edited_map[i].0.clone();
            let st = self.files_edited_map[i].1;
            let kc = chars_of(key.as_str());
            let mut k: usize = 0;
            while k < r.len() && !lex_lt_exec(kc.as_slice(), chars_of(r[k].0.as_str()).as_slice())
                invariant
                    k <= r@.len(),
                    kc@ == m[i as int].0,
                    forall|j: int| 0 <= j < k ==> !lex_lt(kc@, #[trigger] files_view(r@)[j].0),
                decreases r.len() - k,
            {
                k += 1;
            }
            proof {
                let fr = files_view(r@);
                let mi = m.take(i as int);
                assert forall|j: int| 0 <= j < mi.len() implies (#[trigger] mi[j]).0 != kc@ by {
                    assert(mi[j] == m[j]);
                }
                lemma_assoc_dom(mi, kc@);
                lemma_assoc_dom(fr, kc@);
                assert forall|j: int| 0 <= j < fr.len() implies (#[trigger] fr[j]).0 != kc@ by {
                    if fr[j].0 == kc@ {
                        assert(assoc_map(fr).contains_key(kc@));
                    }
                }
                assert forall|j: int| 0 <= j < k implies lex_lt(#[trigger] fr[j].0, kc@) by {
                    lemma_lex_total(fr[j].0, kc@);
                }
                if k < fr.len() {
                    assert forall|j: int| k <= j < fr.len() implies lex_lt(kc@, #[trigger] fr[j].0) by {
                        if j > k {
                            lemma_lex_transitive(kc@, fr[k as int].0, fr[j].0);
                        }
                    }
                }
                lemma_assoc_insert(fr, k as int, (kc@, st));
                assert(m.take(i + 1).drop_last() =~= mi);
                assert(m.take(i + 1).last() == m[i as int]);
            }
            let ghost before = r@;
            r.insert(k, (key, st));
            proof {
                let fb = files_view(before);
                assert(files_view(r@) =~= fb.insert(k as int, (kc@, st)));
                let fr = files_view(r@);
                assert forall|a: int, b: int| 0 <= a < b < fr.len() implies lex_lt(
                    #[trigger] fr[a].0,
                    #[trigger] fr[b].0,
                ) by {
                    if b < k {
                        assert(fr[a] == fb[a] && fr[b] == fb[b]);
                    } else if b == k {
                        assert(fr[a] == fb[a]);
                    } else if a == k {
                        assert(fr[b] == fb[b - 1]);
                    } else if a < k {
                        assert(fr[a] == fb[a] && fr[b] == fb[b - 1]);
                    } else {
                        assert(fr[a] == fb[a - 1] && fr[b] == fb[b - 1]);
                    }
                }
            }
            i += 1;
        }
        assert(files_view(self.files_edited_map@).take(n as int) =~= files_view(
            self.files_edited_map@,
        ));
        proof {
            lemma_sorted_entries_of(files_view(r@));
        }
        self.files_edited = r;
    }
}

// ───────────────────────── counting patch lines ─────────────────────────

pub open spec fn wrap_inc32(x: u32) -> u32 {
    if x == u32::MAX {
        0
    } else {
        (x + 1) as u32
    }
}

/// Totals of `path` in `m`, zero when it has none yet.
pub open spec fn stat_of(m: Map<Seq<char>, DiffStat>, path: Seq<char>) -> DiffStat {
    if m.contains_key(path) {
        m[path]
    } else {
        DiffStat { adds: 0, dels: 0 }
    }
}

/// One more added (or deleted) line for `path`.
pub open spec fn bump_spec(m: Map<Seq<char>, DiffStat>, path: Seq<char>, add: bool) -> Map<
    Seq<char>,
    DiffStat,
> {
    let st = stat_of(m, path);
    if add {
        m.insert(path, DiffStat { adds: wrap_inc32(st.adds), dels: st.dels })
    } else {
        m.insert(path, DiffStat { adds: st.adds, dels: wrap_inc32(st.dels) })
    }
}

pub open spec fn is_added_line(line: Seq<char>) -> bool {
    starts_with_char(line, '+') && !starts_with(line, "+++"@)
}

pub open spec fn is_deleted_line(line: Seq<char>) -> bool {
    starts_with_char(line, '-') && !starts_with(line, "---"@)
}

/// Totals after the patch lines from `i` on, `current` being the file that
/// the last `*** ` header named (none before the first).
pub open spec fn patch_counts(
    ls: Seq<Seq<char>>,
    i: int,
    current: Option<Seq<char>>,
    m: Map<Seq<char>, DiffStat>,
) -> Map<Seq<char>, DiffStat>
    decreases ls.len() - i,
{
    if i < 0 || i >= ls.len() {
        m
    } else if starts_with(ls[i], "*** "@) {
        patch_counts(ls, i + 1, spec_parse_patch_header(ls[i].skip(4)), m)
    } else {
        match current {
            Some(path) => if is_added_line(ls[i]) {
                patch_counts(ls, i + 1, current, bump_spec(m, path, true))
            } else if is_deleted_line(ls[i]) {
                patch_counts(ls, i + 1, current, bump_spec(m, path, false))
            } else {
                patch_counts(ls, i + 1, current, m)
            },
            None => patch_counts(ls, i + 1, current, m),
        }
    }
}

/// Number of the lines of `ls` from `i` on that start with `first` but not
/// with `not_prefix`.
pub open spec fn count_marked(ls: Seq<Seq<char>>, i: int, first: char, not_prefix: Seq<char>) -> nat
    decreases ls.len() - i,
{
    if i < 0 || i >= ls.len() {
        0
    } else {
        (if starts_with_char(ls[i], first) && !starts_with(ls[i], not_prefix) {
            1nat
        } else {
            0nat
        }) + count_marked(ls, i + 1, first, not_prefix)
    }
}

proof fn lemma_count_marked_bound(ls: Seq<Seq<char>>, i: int, first: char, not_prefix: Seq<char>)
    requires
        0 <= i <= ls.len(),
    ensures
        count_marked(ls, i, first, not_prefix) <= ls.len() - i,
    decreases ls.len() - i,
{
    if i < ls.len() {
        lemma_count_marked_bound(ls, i + 1, first, not_prefix);
    }
}

proof fn lemma_patch_counts_body(ls: Seq<Seq<char>>, i: int, path: Seq<char>, m: Map<Seq<char>, DiffStat>)
    requires
        1 <= i <= ls.len(),
        forall|k: int| 1 <= k < ls.len() ==> !starts_with(#[trigger] ls[k], "*** "@),
        stat_of(m, path).adds + (ls.len() - i) < u32::MAX,
        stat_of(m, path).dels + (ls.len() - i) < u32::MAX,
    ensures
        ({
            let r = patch_counts(ls, i, Some(path), m);
            &&& stat_of(r, path).adds == stat_of(m, path).adds + count_marked(ls, i, '+', "+++"@)
            &&& stat_of(r, path).dels == stat_of(m, path).dels + count_marked(ls, i, '-', "---"@)
            &&& r.remove(path) == m.remove(path)
        }),
    decreases ls.len() - i,
{
    if i < ls.len() {
        let l = ls[i];
        let st = stat_of(m, path);
        let m2 = if is_added_line(l) {
            bump_spec(m, path, true)
        } else if is_deleted_line(l) {
            bump_spec(m, path, false)
        } else {
            m
        };
        assert(m2.remove(path) =~= m.remove(path));
        lemma_patch_counts_body(ls, i + 1, path, m2);
        if is_added_line(l) {
            assert(!(starts_with_char(l, '-') && !starts_with(l, "---"@)));
        }
    }
}

/// Counting a one-file patch: after the `*** ` header that names `path`,
/// every line that starts with `+` but not `+++` adds one added line to
/// `path`, every line that starts with `-` but not `---` one deleted line,
/// and no other file's totals change.
pub proof fn lemma_patch_counts_one_file(ls: Seq<Seq<char>>, path: Seq<char>, m: Map<Seq<char>, DiffStat>)
    requires
        ls.len() > 0,
        starts_with(ls[0], "*** "@),
        spec_parse_patch_header(ls[0].skip(4)) == Some(path),
        forall|k: int| 1 <= k < ls.len() ==> !starts_with(#[trigger] ls[k], "*** "@),
        stat_of(m, path).adds + ls.len() < u32::MAX,
        stat_of(m, path).dels + ls.len() < u32::MAX,
    ensures
        ({
            let r = patch_counts(ls, 0, None, m);
            &&& stat_of(r, path).adds == stat_of(m, path).adds + count_marked(ls, 1, '+', "+++"@)
            &&& stat_of(r, path).dels == stat_of(m, path).dels + count_marked(ls, 1, '-', "---"@)
            &&& r.remove(path) == m.remove(path)
        }),
{
    lemma_patch_counts_body(ls, 1, path, m);
}

/// Adds one line to the totals of `path`.
fn bump(m: &mut Vec<(String, DiffStat)>, path: &[char], add: bool)
    requires
        keys_unique(files_view(old(m)@)),
    ensures
        keys_unique(files_view(final(m)@)),
        assoc_map(files_view(final(m)@)) == bump_spec(assoc_map(files_view(old(m)@)), path@, add),
{
    let ghost v = files_view(m@);
    let mut i: usize = 0;
    while i < m.len()
        invariant
            v == files_view(m@),
            v == files_view(old(m)@),
            keys_unique(v),
            i <= m@.len(),
            forall|j: int| 0 <= j < i ==> (#[trigger] v[j]).0 != path@,
        decreases m.len() - i,
    {
        let k = chars_of(m[i].0.as_str());
        if seq_eq(k.as_slice(), path) {
            proof {
                lemma_assoc_at(v, i as int);
            }
            let st = m[i].1;
            let nst = if add {
                DiffStat {
                    adds: if st.adds == u32::MAX {
                        0
                    } else {
                        st.adds + 1
                    },
                    dels: st.dels,
                }
            } else {
                DiffStat {
                    adds: st.adds,
                    dels: if st.dels == u32::MAX {
                        0
                    } else {
                        st.dels + 1
                    },
                }
            };
            let key = m[i].0.clone();
            m.set(i, (key, nst));
            proof {
                lemma_assoc_update(v, i as int, nst);
                assert(files_view(m@) =~= v.update(i as int, (v[i as int].0, nst)));
                assert(v[i as int].0 == path@);
                assert(stat_of(assoc_map(v), path@) == st);
                assert(assoc_map(files_view(m@)) == assoc_map(v).insert(path@, nst));
                if add {
                    assert(nst == DiffStat { adds: wrap_inc32(st.adds), dels: st.dels });
                } else {
                    assert(nst == DiffStat { adds: st.adds, dels: wrap_inc32(st.dels) });
                }
                assert(assoc_map(files_view(m@)) == bump_spec(assoc_map(v), path@, add));
            }
            return;
        }
        i += 1;
    }
    proof {
        lemma_assoc_absent(v, path@);
    }
    let st = if add {
        DiffStat { adds: 1, dels: 0 }
    } else {
        DiffStat { adds: 0, dels: 1 }
    };
    m.push((string_of(path), st));
    assert(files_view(m@) =~= v.push((path@, st)));
    assert(files_view(m@).drop_last() =~= v);
}

/// The session after an `apply_patch` call's `+` / `-` lines are counted
/// per file it touches and the totals listed by path; other calls leave it
/// as it is.
pub open spec fn spec_track_files(s: SessionView, p: JsonValue) -> SessionView {
    let patch = tool_command(p);
    if get_str_or(p, "tool_name"@, ""@) != "apply_patch"@ || patch.len() == 0 {
        s
    } else {
        let m = patch_counts(lines(patch), 0, None, s.files_edited_map);
        SessionView { files_edited_map: m, files_edited: sorted_entries(m), ..s }
    }
}

/// Counts the `+` / `-` lines of an `apply_patch` call per file it touches,
/// then lists the totals by path.
pub fn track_files_from_post(s: &mut Session, p: &JsonValue)
    requires
        old(s).wf(),
    ensures
        final(s).wf(),
        final(s)@ == spec_track_files(old(s)@, *p),
{
    let tool = get_str_or_exec(p, "tool_name", "");
    proof {
        reveal_strlit("");
    }
    if !seq_eq(tool.as_slice(), chars_of("apply_patch").as_slice()) {
        return;
    }
    let patch = tool_command_exec(p);
    if patch.len() == 0 {
        return;
    }
    let ls = lines_exec(patch.as_slice());
    let mut current: Option<Vec<char>> = None;
    let mut i: usize = 0;
    while i < ls.len()
        invariant
            vv(ls@) == lines(tool_command(*p)),
            i <= ls@.len(),
            s.wf(),
            s@ == (SessionView { files_edited_map: s@.files_edited_map, ..old(s)@ }),
            patch_counts(
                vv(ls@),
                i as int,
                match current {
                    Some(c) => Some(c@),
                    None => None,
                },
                s@.files_edited_map,
            ) == patch_counts(vv(ls@), 0, None, old(s)@.files_edited_map),
        decreases ls.len() - i,
    {
        let line = ls[i].as_slice();
        proof {
            reveal_strlit("*** ");
        }
        match after_prefix(line, "*** ") {
            Some(rest) => {
                assert(ls@[i as int]@.skip(4) == rest@);
                current = parse_patch_header(rest.as_slice());
            },
            None => {
                match &current {
                    Some(path) => {
                        if starts_with_ch(line, '+') && !starts_with_lit(line, "+++") {
                            bump(&mut s.files_edited_map, path.as_slice(), true);
                        } else if starts_with_ch(line, '-') && !starts_with_lit(line, "---") {
                            bump(&mut s.files_edited_map, path.as_slice(), false);
                        }
                    },
                    None => {},
                }
            },
        }
        i += 1;
    }
    s.flatten_files();
}

// ───────────────────────── Cursor file edits ─────────────────────────

/// The totals of `path` with `n` more lines added (or removed).
pub open spec fn bump_n(m: Map<Seq<char>, DiffStat>, path: Seq<char>, n: nat, add: bool) -> Map<
    Seq<char>,
    DiffStat,
>
    decreases n,
{
    if n == 0 {
        m
    } else {
        bump_spec(bump_n(m, path, (n - 1) as nat, add), path, add)
    }
}

/// Number of lines of the string member `key` of an edit (0 without one).
pub open spec fn text_lines(e: JsonValue, key: Seq<char>) -> nat {
    match get_str(e, key) {
        Some(t) => lines(t).len(),
        None => 0,
    }
}

/// The totals of `path` after the edits from `i` on: each edit's new text
/// counts as added lines and its old text as removed lines.
pub open spec fn edit_counts(es: Seq<JsonValue>, i: int, path: Seq<char>, m: Map<Seq<char>, DiffStat>) -> Map<
    Seq<char>,
    DiffStat,
>
    decreases es.len() - i,
{
    if i < 0 || i >= es.len() {
        m
    } else {
        edit_counts(
            es,
            i + 1,
            path,
            bump_n(bump_n(m, path, text_lines(es[i], "new_string"@), true), path, text_lines(es[i], "old_string"@), false),
        )
    }
}

/// The session after Cursor's `afterFileEdit`: the edits to `file_path`
/// counted into its totals and the totals listed by path; a payload without
/// a file path or an `edits` list leaves it as it is.
pub open spec fn spec_track_file_edit(s: SessionView, p: JsonValue) -> SessionView {
    let path = get_str_or(p, "file_path"@, ""@);
    match json_get(p, "edits"@) {
        Some(JsonValue::Array(es)) => if path.len() > 0 {
            let m = edit_counts(es@, 0, path, s.files_edited_map);
            SessionView { files_edited_map: m, files_edited: sorted_entries(m), ..s }
        } else {
            s
        },
        _ => s,
    }
}

fn bump_lines(m: &mut Vec<(String, DiffStat)>, path: &[char], n: usize, add: bool)
    requires
        keys_unique(files_view(old(m)@)),
    ensures
        keys_unique(files_view(final(m)@)),
        assoc_map(files_view(final(m)@)) == bump_n(assoc_map(files_view(old(m)@)), path@, n as nat, add),
{
    let mut k: usize = 0;
    while k < n
        invariant
            k <= n,
            keys_unique(files_view(m@)),
            assoc_map(files_view(m@)) == bump_n(assoc_map(files_view(old(m)@)), path@, k as nat, add),
        decreases n - k,
    {
        bump(m, path, add);
        k += 1;
    }
}

fn text_lines_exec(e: &JsonValue, key: &str) -> (r: usize)
    ensures
        r == text_lines(*e, key@),
{
    match get_str_exec(e, key) {
        Some(t) => lines_exec(t.as_slice()).len(),
        None => 0,
    }
}

/// Counts a Cursor `afterFileEdit` payload's edits into the session's
/// per-file totals (see [`spec_track_file_edit`]).
pub fn track_file_edit(s: &mut Session, p: &JsonValue)
    requires
        old(s).wf(),
    ensures
        final(s).wf(),
        final(s)@ == spec_track_file_edit(old(s)@, *p),
{
    proof {
        reveal_strlit("");
    }
    let path = get_str_or_exec(p, "file_path", "");
    if path.len() == 0 {
        return;
    }
    match p.get("edits") {
        Some(JsonValue::Array(es)) => {
            let mut i: usize = 0;
            while i < es.len()
                invariant
                    i <= es@.len(),
                    s.wf(),
                    s@ == (SessionView { files_edited_map: s@.files_edited_map, ..old(s)@ }),
                    edit_counts(es@, i as int, path@, s@.files_edited_map) == edit_counts(
                        es@,
                        0,
                        path@,
                        old(s)@.files_edited_map,
                    ),
                decreases es.len() - i,
            {
                let adds = text_lines_exec(&es[i], "new_string");
                let dels = text_lines_exec(&es[i], "old_string");
                bump_lines(&mut s.files_edited_map, path.as_slice(), adds, true);
                bump_lines(&mut s.files_edited_map, path.as_slice(), dels, false);
                i += 1;
            }
            s.flatten_files();
        },
        _ => {},
    }
}

} // verus!
