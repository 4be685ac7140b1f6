//! Association lists: pairs keyed by text, read as maps.
use vstd::prelude::*;
use crate::text::{chars_of, string_of, seq_eq};

verus! {

broadcast use vstd::string::group_string_axioms;

/// No key occurs twice.
pub open spec fn keys_unique<V>(v: Seq<(Seq<char>, V)>) -> bool {
    forall|i: int, j: int| 0 <= i < j < v.len() ==> #[trigger] v[i].0 != #[trigger] v[j].0
}

/// The pairs as a map (a later pair for a key wins).
pub open spec fn assoc_map<V>(v: Seq<(Seq<char>, V)>) -> Map<Seq<char>, V>
    decreases v.len(),
{
    if v.len() == 0 {
        Map::empty()
    } else {
        assoc_map(v.drop_last()).insert(v.last().0, v.last().1)
    }
}

pub proof fn lemma_assoc_dom<V>(v: Seq<(Seq<char>, V)>, key: Seq<char>)
    ensures
        assoc_map(v).contains_key(key) <==> exists|i: int| 0 <= i < v.len() && (#[trigger] v[i]).0 == key,
    decreases v.len(),
{
    if v.len() > 0 {
        lemma_assoc_dom(v.drop_last(), key);
        if assoc_map(v.drop_last()).contains_key(key) {
            let i = choose|i: int| 0 <= i < v.drop_last().len() && (#[trigger] v.drop_last()[i]).0 == key;
            assert(v[i] == v.drop_last()[i]);
        }
        if exists|i: int| 0 <= i < v.len() && (#[trigger] v[i]).0 == key {
            let i = choose|i: int| 0 <= i < v.len() && (#[trigger] v[i]).0 == key;
            if i < v.len() - 1 {
                assert(v.drop_last()[i] == v[i]);
            }
        }
    }
}

pub proof fn lemma_assoc_insert<V>(
    v: Seq<(Seq<char>, V)>,
    k: int,
    x: (Seq<char>, V),
)
    requires
        0 <= k <= v.len(),
        forall|j: int| 0 <= j < v.len() ==> (#[trigger] v[j]).0 != x.0,
    ensures
        assoc_map(v.insert(k, x)) =~= assoc_map(v).insert(x.0, x.1),
    decreases v.len(),
{
    let u = v.insert(k, x);
    if k == v.len() {
        assert(u.drop_last() =~= v);
    } else {
        assert(u.drop_last() =~= v.drop_last().insert(k, x));
        assert(u.last() == v.last());
        assert forall|j: int| 0 <= j < v.drop_last().len() implies (#[trigger] v.drop_last()[j]).0
            != x.0 by {
            assert(v.drop_last()[j] == v[j]);
        }
        lemma_assoc_insert(v.drop_last(), k, x);
        assert(v.last() == v[v.len() - 1]);
    }
}

pub proof fn lemma_assoc_absent<V>(v: Seq<(Seq<char>, V)>, key: Seq<char>)
    requires
        forall|i: int| 0 <= i < v.len() ==> (#[trigger] v[i]).0 != key,
    ensures
        !assoc_map(v).contains_key(key),
    decreases v.len(),
{
    if v.len() > 0 {
        lemma_assoc_absent(v.drop_last(), key);
    }
}

pub proof fn lemma_assoc_at<V>(v: Seq<(Seq<char>, V)>, i: int)
    requires
        keys_unique(v),
        0 <= i < v.len(),
    ensures
        assoc_map(v).contains_key(v[i].0),
        assoc_map(v)[v[i].0] == v[i].1,
    decreases v.len(),
{
    if i < v.len() - 1 {
        assert(v[i].0 != v[v.len() - 1].0);
        assert(v.drop_last()[i] == v[i]);
        lemma_assoc_at(v.drop_last(), i);
    }
}

pub proof fn lemma_assoc_update<V>(v: Seq<(Seq<char>, V)>, i: int, val: V)
    requires
        keys_unique(v),
        0 <= i < v.len(),
    ensures
        assoc_map(v.update(i, (v[i].0, val))) =~= assoc_map(v).insert(v[i].0, val),
    decreases v.len(),
{
    let u = v.update(i, (v[i].0, val));
    if i == v.len() - 1 {
        assert(u.drop_last() =~= v.drop_last());
    } else {
        assert(u.drop_last() =~= v.drop_last().update(i, (v[i].0, val)));
        assert(v.drop_last()[i] == v[i]);
        lemma_assoc_update(v.drop_last(), i, val);
        assert(v[i].0 != v.last().0);
    }
}


pub proof fn lemma_assoc_remove<V>(v: Seq<(Seq<char>, V)>, i: int)
    requires
        keys_unique(v),
        0 <= i < v.len(),
    ensures
        assoc_map(v.remove(i)) =~= assoc_map(v).remove(v[i].0),
        keys_unique(v.remove(i)),
    decreases v.len(),
{
    let u = v.remove(i);
    if i == v.len() - 1 {
        assert(u =~= v.drop_last());
        assert forall|j: int| 0 <= j < u.len() implies (#[trigger] u[j]).0 != v[i].0 by {
            assert(u[j] == v[j]);
        }
        lemma_assoc_absent(u, v[i].0);
    } else {
        assert(u.drop_last() =~= v.drop_last().remove(i));
        assert(u.last() == v.last());
        assert(v.drop_last()[i] == v[i]);
        lemma_assoc_remove(v.drop_last(), i);
        assert(v[i].0 != v.last().0);
    }
}

/// Position of the pair with key `key`, if any.
pub fn find_key<V>(v: &Vec<(String, V)>, key: &[char]) -> (r: Option<usize>)
    ensures
        match r {
            Some(i) => i < v@.len() && v@[i as int].0@ == key@ && forall|j: int|
                0 <= j < i ==> (#[trigger] v@[j]).0@ != key@,
            None => forall|j: int| 0 <= j < v@.len() ==> (#[trigger] v@[j]).0@ != key@,
        },
{
    let mut i: usize = 0;
    while i < v.len()
        invariant
            i <= v@.len(),
            forall|j: int| 0 <= j < i ==> (#[trigger] v@[j]).0@ != key@,
        decreases v.len() - i,
    {
        if seq_eq(chars_of(v[i].0.as_str()).as_slice(), key) {
            return Some(i);
        }
        i += 1;
    }
    None
}

/// Pairs with their keys (and values) taken by their views.
pub open spec fn kv_view<V: View>(v: Seq<(String, V)>) -> Seq<(Seq<char>, V::V)> {
    Seq::new(v.len(), |i: int| (v[i].0@, v[i].1@))
}

/// The value stored for `key`.
pub fn assoc_get<'a, V: View>(v: &'a Vec<(String, V)>, key: &[char]) -> (r: Option<&'a V>)
    requires
        keys_unique(kv_view(v@)),
    ensures
        match r {
            Some(x) => assoc_map(kv_view(v@)).contains_key(key@) && assoc_map(kv_view(v@))[key@]
                == x@,
            None => !assoc_map(kv_view(v@)).contains_key(key@),
        },
{
    match find_key(v, key) {
        Some(i) => {
            proof {
                lemma_assoc_at(kv_view(v@), i as int);
            }
            Some(&v[i].1)
        },
        None => {
            proof {
                assert forall|j: int| 0 <= j < kv_view(v@).len() implies (#[trigger] kv_view(
                    v@,
                )[j]).0 != key@ by {
                    assert(kv_view(v@)[j].0 == v@[j].0@);
                }
                lemma_assoc_absent(kv_view(v@), key@);
            }
            None
        },
    }
}

/// Stores `val` for `key`, replacing what was there.
pub fn assoc_put<V: View>(v: &mut Vec<(String, V)>, key: &[char], val: V)
    requires
        keys_unique(kv_view(old(v)@)),
    ensures
        keys_unique(kv_view(final(v)@)),
        assoc_map(kv_view(final(v)@)) == assoc_map(kv_view(old(v)@)).insert(key@, val@),
{
    let ghost w = kv_view(v@);
    match find_key(v, key) {
        Some(i) => {
            let k = v[i].0.clone();
            proof {
                lemma_assoc_update(w, i as int, val@);
            }
            v.set(i, (k, val));
            assert(kv_view(v@) =~= w.update(i as int, (w[i as int].0, val@)));
        },
        None => {
            proof {
                assert forall|j: int| 0 <= j < w.len() implies (#[trigger] w[j]).0 != key@ by {
                    assert(w[j].0 == v@[j].0@);
                }
                lemma_assoc_insert(w, w.len() as int, (key@, val@));
            }
            v.push((string_of(key), val));
            assert(kv_view(v@) =~= w.insert(w.len() as int, (key@, val@)));
        },
    }
}

/// Removes what is stored for `key`.
pub fn assoc_del<V: View>(v: &mut Vec<(String, V)>, key: &[char])
    requires
        keys_unique(kv_view(old(v)@)),
    ensures
        keys_unique(kv_view(final(v)@)),
        assoc_map(kv_view(final(v)@)) == assoc_map(kv_view(old(v)@)).remove(key@),
{
    let ghost w = kv_view(v@);
    match find_key(v, key) {
        Some(i) => {
            proof {
                lemma_assoc_remove(w, i as int);
            }
            v.remove(i);
            assert(kv_view(v@) =~= w.remove(i as int));
        },
        None => {
            proof {
                assert forall|j: int| 0 <= j < w.len() implies (#[trigger] w[j]).0 != key@ by {
                    assert(w[j].0 == v@[j].0@);
                }
                lemma_assoc_absent(w, key@);
                assert(assoc_map(w).remove(key@) =~= assoc_map(w));
            }
        },
    }
}

} // verus!
