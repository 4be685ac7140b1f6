//! What the agents' JSON hook configurations have in common: which entries
//! are ours, and list editing that keeps everything else.
use vstd::prelude::*;
use crate::text::{chars_of, string_of, contains, contains_lit};
use crate::json::{
    Json, JsonValue, jv, jv_items, jv_fields, jget, jfield_index, lemma_jv_array, lemma_jv_object,
};
use crate::assoc::find_key;

verus! {

broadcast use vstd::string::group_string_axioms;

/// An entry the overlay wrote: marked `overlay_managed = true`, or running
/// an `overlay-hook` command.
pub open spec fn is_managed(h: Json) -> bool {
    jget(h, "overlay_managed"@) == Some(Json::Bool(true)) || match jget(h, "command"@) {
        Some(Json::Str(c)) => contains(c, "overlay-hook"@),
        _ => false,
    }
}

pub fn is_managed_entry(h: &JsonValue) -> (r: bool)
    ensures
        r == is_managed(jv(*h)),
{
    let marked = match h.get("overlay_managed") {
        Some(JsonValue::Bool(b)) => *b,
        _ => false,
    };
    if marked {
        return true;
    }
    match h.get("command") {
        Some(x) => match x.as_str() {
            Some(c) => contains_lit(chars_of(c.as_str()).as_slice(), "overlay-hook"),
            None => false,
        },
        None => false,
    }
}

/// An entry marked as ours: `overlay_managed = true`. Only these are
/// removed on disconnect.
pub open spec fn is_marked(h: Json) -> bool {
    jget(h, "overlay_managed"@) == Some(Json::Bool(true))
}

pub fn is_marked_entry(h: &JsonValue) -> (r: bool)
    ensures
        r == is_marked(jv(*h)),
{
    match h.get("overlay_managed") {
        Some(JsonValue::Bool(b)) => *b,
        _ => false,
    }
}

/// The entries that count as ours: any managed one when `wide` (install
/// replaces those), else only the marked ones (disconnect removes those).
pub open spec fn is_ours(h: Json, wide: bool) -> bool {
    if wide {
        is_managed(h)
    } else {
        is_marked(h)
    }
}

pub fn is_ours_entry(h: &JsonValue, wide: bool) -> (r: bool)
    ensures
        r == is_ours(jv(*h), wide),
{
    if wide {
        is_managed_entry(h)
    } else {
        is_marked_entry(h)
    }
}

/// The command line for the hook binary: its path with forward slashes.
pub open spec fn spec_build_command(path: Seq<char>) -> Seq<char> {
    Seq::new(
        path.len(),
        |i: int|
            if path[i] == '\\' {
                '/'
            } else {
                path[i]
            },
    )
}

/// The command for the hook binary at `hook_exe`: forward slashes only, no
/// quoting (agents on Windows run it as written).
pub fn build_command(hook_exe: &str) -> (r: String)
    ensures
        r@ == spec_build_command(hook_exe@),
{
    let p = chars_of(hook_exe);
    let mut out: Vec<char> = Vec::new();
    let mut i: usize = 0;
    while i < p.len()
        invariant
            i <= p@.len(),
            out@ == spec_build_command(p@).take(i as int),
            p@ == hook_exe@,
        decreases p.len() - i,
    {
        let c = p[i];
        out.push(
            if c == '\\' {
                '/'
            } else {
                c
            },
        );
        assert(out@ =~= spec_build_command(p@).take(i + 1));
        i += 1;
    }
    assert(spec_build_command(p@).take(p@.len() as int) =~= spec_build_command(p@));
    string_of(out.as_slice())
}

/// The items that are not ours (in the `wide` or the marked sense), in
/// order.
pub open spec fn not_ours(s: Seq<Json>, wide: bool) -> Seq<Json>
    decreases s.len(),
{
    if s.len() == 0 {
        seq![]
    } else if is_ours(s.last(), wide) {
        not_ours(s.drop_last(), wide)
    } else {
        not_ours(s.drop_last(), wide).push(s.last())
    }
}

/// The items that are not managed, in order.
pub open spec fn unmanaged(s: Seq<Json>) -> Seq<Json> {
    not_ours(s, true)
}

/// The items that are not marked as ours, in order.
pub open spec fn unmarked(s: Seq<Json>) -> Seq<Json> {
    not_ours(s, false)
}

/// Drops our entries (in the `wide` or the marked sense) from a list.
pub fn drop_ours(items: Vec<JsonValue>, wide: bool) -> (r: Vec<JsonValue>)
    ensures
        jv_items(r@) == not_ours(jv_items(items@), wide),
{
    let ghost orig = jv_items(items@);
    let mut rest = items;
    let mut out: Vec<JsonValue> = Vec::new();
    let ghost mut i: int = 0;
    assert(orig.take(0) =~= Seq::<Json>::empty());
    assert(jv_items(out@) =~= Seq::<Json>::empty());
    while rest.len() > 0
        invariant
            0 <= i <= orig.len(),
            rest@.len() + i == orig.len(),
            jv_items(rest@) == orig.skip(i),
            jv_items(out@) == not_ours(orig.take(i), wide),
        decreases rest.len(),
    {
        let ghost before = out@;
        assert(jv_items(rest@)[0] == orig[i]);
        let ghost rb = rest@;
        let x = rest.remove(0);
        assert(rest@ =~= rb.skip(1));
        assert(jv_items(rest@) =~= jv_items(rb).skip(1));
        assert(jv(x) == orig[i]);
        assert(orig.take(i + 1).drop_last() =~= orig.take(i));
        assert(orig.take(i + 1).last() == orig[i]);
        if !is_ours_entry(&x, wide) {
            out.push(x);
            assert(jv_items(out@) =~= jv_items(before).push(jv(x)));
        }
        proof {
            i = i + 1;
        }
        assert(jv_items(rest@) =~= orig.skip(i));
    }
    assert(orig.take(i) =~= orig);
    out
}

proof fn lemma_jfield_from(fs: Seq<(Seq<char>, Json)>, key: Seq<char>, k: int, i: int)
    requires
        0 <= i <= k <= fs.len(),
        k < fs.len() ==> fs[k].0 == key,
        forall|j: int| 0 <= j < k ==> (#[trigger] fs[j]).0 != key,
    ensures
        jfield_index(fs, key, i) == if k < fs.len() {
            k
        } else {
            -1
        },
    decreases k - i,
{
    if i < k {
        lemma_jfield_from(fs, key, k, i + 1);
    }
}

pub proof fn lemma_jfield_first(fs: Seq<(Seq<char>, Json)>, key: Seq<char>, k: int)
    requires
        0 <= k <= fs.len(),
        k < fs.len() ==> fs[k].0 == key,
        forall|j: int| 0 <= j < k ==> (#[trigger] fs[j]).0 != key,
    ensures
        jfield_index(fs, key, 0) == if k < fs.len() {
            k
        } else {
            -1
        },
{
    lemma_jfield_from(fs, key, k, 0);
}

/// Finds the member named `key` (the first one, as a JSON reader sees it).
pub fn find_member(fields: &Vec<(String, JsonValue)>, key: &str) -> (r: Option<usize>)
    ensures
        match r {
            Some(k) => k < fields@.len() && jfield_index(jv_fields(fields@), key@, 0) == k,
            None => jfield_index(jv_fields(fields@), key@, 0) == -1,
        },
{
    let kc = chars_of(key);
    let r = find_key(fields, kc.as_slice());
    proof {
        let fs = jv_fields(fields@);
        match r {
            Some(k) => {
                assert forall|j: int| 0 <= j < k implies (#[trigger] fs[j]).0 != key@ by {
                    assert(fs[j].0 == fields@[j].0@);
                }
                lemma_jfield_first(fs, key@, k as int);
            },
            None => {
                assert forall|j: int| 0 <= j < fs.len() implies (#[trigger] fs[j]).0 != key@ by {
                    assert(fs[j].0 == fields@[j].0@);
                }
                lemma_jfield_first(fs, key@, fs.len() as int);
            },
        }
    }
    r
}

/// A string as a JSON value.
pub fn json_text(s: &str) -> (r: JsonValue)
    ensures
        jv(r) == Json::Str(s@),
{
    JsonValue::Str(s.to_string())
}

} // verus!

verus! {

// ───────────────────────── member lookup facts ─────────────────────────

/// The value of the first member named `key`, if any.
pub open spec fn jfind(fs: Seq<(Seq<char>, Json)>, key: Seq<char>) -> Option<Json> {
    let k = jfield_index(fs, key, 0);
    if k >= 0 {
        Some(fs[k].1)
    } else {
        None
    }
}

proof fn lemma_jfield_index_from(fs: Seq<(Seq<char>, Json)>, key: Seq<char>, i: int)
    requires
        0 <= i <= fs.len(),
    ensures
        ({
            let r = jfield_index(fs, key, i);
            &&& r == -1 || r >= 0
            &&& r == -1 <==> forall|j: int| i <= j < fs.len() ==> (#[trigger] fs[j]).0 != key
            &&& r >= 0 ==> i <= r < fs.len() && fs[r].0 == key && forall|j: int|
                i <= j < r ==> (#[trigger] fs[j]).0 != key
        }),
    decreases fs.len() - i,
{
    if i < fs.len() {
        lemma_jfield_index_from(fs, key, i + 1);
    }
}

/// Where the first member named `key` is: -1 when there is none.
pub proof fn lemma_jfield_index(fs: Seq<(Seq<char>, Json)>, key: Seq<char>)
    ensures
        ({
            let r = jfield_index(fs, key, 0);
            &&& r == -1 || r >= 0
            &&& r == -1 <==> forall|j: int| 0 <= j < fs.len() ==> (#[trigger] fs[j]).0 != key
            &&& r >= 0 ==> r < fs.len() && fs[r].0 == key && forall|j: int|
                0 <= j < r ==> (#[trigger] fs[j]).0 != key
        }),
{
    lemma_jfield_index_from(fs, key, 0);
}

/// Replacing the value of the first member named `key` changes what that
/// name finds, and nothing else.
pub proof fn lemma_jfind_update(fs: Seq<(Seq<char>, Json)>, key: Seq<char>, v: Json, other: Seq<char>)
    requires
        jfield_index(fs, key, 0) >= 0,
    ensures
        ({
            let k = jfield_index(fs, key, 0);
            let g = fs.update(k, (key, v));
            &&& jfind(g, key) == Some(v)
            &&& jfield_index(g, key, 0) == k
            &&& other != key ==> jfind(g, other) == jfind(fs, other)
            &&& other != key ==> jfield_index(g, other, 0) == jfield_index(fs, other, 0)
        }),
{
    let k = jfield_index(fs, key, 0);
    let g = fs.update(k, (key, v));
    lemma_jfield_index(fs, key);
    lemma_jfield_index(fs, other);
    assert forall|j: int| 0 <= j < fs.len() implies (#[trigger] g[j]).0 == fs[j].0 by {}
    lemma_jfield_first(g, key, k);
    let r = jfield_index(fs, other, 0);
    if other != key {
        if r >= 0 {
            assert forall|j: int| 0 <= j < r implies (#[trigger] g[j]).0 != other by {
                assert(g[j].0 == fs[j].0);
            }
            lemma_jfield_first(g, other, r);
        } else {
            assert forall|j: int| 0 <= j < g.len() implies (#[trigger] g[j]).0 != other by {
                assert(g[j].0 == fs[j].0);
            }
            lemma_jfield_first(g, other, g.len() as int);
        }
    }
}

/// Adding a member with a new name makes the name find it, and changes
/// nothing else.
pub proof fn lemma_jfind_push(fs: Seq<(Seq<char>, Json)>, key: Seq<char>, v: Json, other: Seq<char>)
    requires
        jfield_index(fs, key, 0) == -1,
    ensures
        ({
            let g = fs.push((key, v));
            &&& jfind(g, key) == Some(v)
            &&& jfield_index(g, key, 0) == fs.len()
            &&& other != key ==> jfind(g, other) == jfind(fs, other)
            &&& other != key ==> jfield_index(g, other, 0) == jfield_index(fs, other, 0)
        }),
{
    let g = fs.push((key, v));
    lemma_jfield_index(fs, key);
    lemma_jfield_index(fs, other);
    assert forall|j: int| 0 <= j < fs.len() implies (#[trigger] g[j]).0 != key by {
        assert(g[j] == fs[j]);
    }
    lemma_jfield_first(g, key, fs.len() as int);
    let r = jfield_index(fs, other, 0);
    if other != key {
        if r >= 0 {
            assert forall|j: int| 0 <= j < r implies (#[trigger] g[j]).0 != other by {
                assert(g[j] == fs[j]);
            }
            lemma_jfield_first(g, other, r);
        } else {
            assert forall|j: int| 0 <= j < g.len() implies (#[trigger] g[j]).0 != other by {
                if j < fs.len() {
                    assert(g[j] == fs[j]);
                }
            }
            lemma_jfield_first(g, other, g.len() as int);
        }
    }
}

/// With no name twice, removing the member named `key` leaves no member of
/// that name, and changes nothing else.
pub proof fn lemma_jfind_remove(fs: Seq<(Seq<char>, Json)>, key: Seq<char>, other: Seq<char>)
    requires
        jfield_index(fs, key, 0) >= 0,
        crate::assoc::keys_unique(fs),
    ensures
        ({
            let g = fs.remove(jfield_index(fs, key, 0));
            &&& jfind(g, key) is None
            &&& crate::assoc::keys_unique(g)
            &&& other != key ==> jfind(g, other) == jfind(fs, other)
        }),
{
    let k = jfield_index(fs, key, 0);
    lemma_jfield_index(fs, key);
    let g = fs.remove(k);
    lemma_jfield_index(fs, other);
    assert forall|j: int| 0 <= j < g.len() implies (#[trigger] g[j]).0 != key by {
        if j < k {
            assert(g[j] == fs[j]);
        } else {
            assert(g[j] == fs[j + 1]);
        }
    }
    lemma_jfield_first(g, key, g.len() as int);
    assert forall|i: int, j: int| 0 <= i < j < g.len() implies #[trigger] g[i].0 != #[trigger] g[j].0 by {
        let oi = if i < k {
            i
        } else {
            i + 1
        };
        let oj = if j < k {
            j
        } else {
            j + 1
        };
        assert(g[i] == fs[oi] && g[j] == fs[oj]);
    }
    let r = jfield_index(fs, other, 0);
    if other != key {
        if r >= 0 {
            if r < k {
                assert forall|j: int| 0 <= j < r implies (#[trigger] g[j]).0 != other by {
                    assert(g[j] == fs[j]);
                }
                assert(g[r] == fs[r]);
                lemma_jfield_first(g, other, r);
            } else {
                assert(r != k);
                assert forall|j: int| 0 <= j < r - 1 implies (#[trigger] g[j]).0 != other by {
                    if j < k {
                        assert(g[j] == fs[j]);
                    } else {
                        assert(g[j] == fs[j + 1]);
                    }
                }
                assert(g[r - 1] == fs[r]);
                lemma_jfield_first(g, other, r - 1);
            }
        } else {
            assert forall|j: int| 0 <= j < g.len() implies (#[trigger] g[j]).0 != other by {
                if j < k {
                    assert(g[j] == fs[j]);
                } else {
                    assert(g[j] == fs[j + 1]);
                }
            }
            lemma_jfield_first(g, other, g.len() as int);
        }
    }
}

/// What `not_ours` keeps is none of ours.
pub proof fn lemma_not_ours_none(s: Seq<Json>, wide: bool)
    ensures
        forall|i: int| 0 <= i < not_ours(s, wide).len() ==> !is_ours(#[trigger] not_ours(s, wide)[i], wide),
    decreases s.len(),
{
    if s.len() > 0 {
        lemma_not_ours_none(s.drop_last(), wide);
        let u = not_ours(s.drop_last(), wide);
        if !is_ours(s.last(), wide) {
            assert forall|i: int| 0 <= i < not_ours(s, wide).len() implies !is_ours(
                #[trigger] not_ours(s, wide)[i],
                wide,
            ) by {
                if i < u.len() {
                    assert(not_ours(s, wide)[i] == u[i]);
                }
            }
        }
    }
}

/// What `unmanaged` keeps is none of ours.
pub proof fn lemma_unmanaged_none_managed(s: Seq<Json>)
    ensures
        forall|i: int| 0 <= i < unmanaged(s).len() ==> !is_managed(#[trigger] unmanaged(s)[i]),
{
    lemma_not_ours_none(s, true);
}

/// Removing marked items keeps a list free of managed items free of them.
pub proof fn lemma_not_ours_keeps_unmanaged(s: Seq<Json>, wide: bool)
    requires
        forall|i: int| 0 <= i < s.len() ==> !is_managed(#[trigger] s[i]),
    ensures
        forall|i: int| 0 <= i < not_ours(s, wide).len() ==> !is_managed(#[trigger] not_ours(s, wide)[i]),
    decreases s.len(),
{
    if s.len() > 0 {
        assert forall|i: int| 0 <= i < s.drop_last().len() implies !is_managed(#[trigger] s.drop_last()[i]) by {
            assert(s.drop_last()[i] == s[i]);
        }
        lemma_not_ours_keeps_unmanaged(s.drop_last(), wide);
        let u = not_ours(s.drop_last(), wide);
        assert(!is_managed(s[s.len() - 1]));
        assert forall|i: int| 0 <= i < not_ours(s, wide).len() implies !is_managed(
            #[trigger] not_ours(s, wide)[i],
        ) by {
            if i < u.len() {
                assert(not_ours(s, wide)[i] == u[i]);
            }
        }
    }
}


/// Giving the member at `k` a new value keeps the names unique.
pub proof fn lemma_unique_update(fs: Seq<(Seq<char>, Json)>, k: int, key: Seq<char>, v: Json)
    requires
        0 <= k < fs.len(),
        fs[k].0 == key,
        crate::assoc::keys_unique(fs),
    ensures
        crate::assoc::keys_unique(fs.update(k, (key, v))),
{
    let g = fs.update(k, (key, v));
    assert forall|i: int, j: int| 0 <= i < j < g.len() implies #[trigger] g[i].0 != #[trigger] g[j].0 by {
        assert(g[i].0 == fs[i].0 && g[j].0 == fs[j].0);
    }
}

/// Adding a member under a name not yet there keeps the names unique.
pub proof fn lemma_unique_push(fs: Seq<(Seq<char>, Json)>, key: Seq<char>, v: Json)
    requires
        jfield_index(fs, key, 0) == -1,
        crate::assoc::keys_unique(fs),
    ensures
        crate::assoc::keys_unique(fs.push((key, v))),
{
    let g = fs.push((key, v));
    lemma_jfield_index(fs, key);
    assert forall|i: int, j: int| 0 <= i < j < g.len() implies #[trigger] g[i].0 != #[trigger] g[j].0 by {
        assert(g[i] == fs[i]);
        if j < fs.len() {
            assert(g[j] == fs[j]);
        }
    }
}

/// With no managed item, taking out the marked ones keeps the list.
pub proof fn lemma_not_ours_all_kept(s: Seq<Json>)
    requires
        forall|i: int| 0 <= i < s.len() ==> !is_managed(#[trigger] s[i]),
    ensures
        not_ours(s, false) == s,
    decreases s.len(),
{
    if s.len() > 0 {
        assert forall|i: int| 0 <= i < s.drop_last().len() implies !is_managed(#[trigger] s.drop_last()[i]) by {
            assert(s.drop_last()[i] == s[i]);
        }
        lemma_not_ours_all_kept(s.drop_last());
        assert(!is_managed(s[s.len() - 1]));
        assert(s.drop_last().push(s.last()) =~= s);
    }
}

} // verus!
