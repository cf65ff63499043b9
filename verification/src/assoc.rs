//! Association lists with unique keys: the specification view of every
//! key-to-value table this library keeps (event names, value names, thread
//! ordinals, span ids), together with the lemmas that say how lookup behaves
//! under insertion and in-place update.

use vstd::prelude::*;
use vstd::string::StringExecFns;

verus! {

/// Text equality of two string slices (string keys compare by their text).
pub fn str_eq(a: &str, b: &str) -> (r: bool)
    ensures
        r == (a@ == b@),
{
    let sa = a.to_owned();
    let sb = b.to_owned();
    sa == sb
}

/// Whether some pair carries the key.
pub open spec fn spec_has_key<K, T>(s: Seq<(K, T)>, key: K) -> bool {
    exists|i: int| 0 <= i < s.len() && s[i].0 == key
}

/// The position of the key (meaningful only when the key is there and keys
/// are unique).
pub open spec fn spec_key_index<K, T>(s: Seq<(K, T)>, key: K) -> int {
    choose|i: int| 0 <= i < s.len() && s[i].0 == key
}

/// The value stored under the key, if any.
pub open spec fn spec_lookup<K, T>(s: Seq<(K, T)>, key: K) -> Option<T> {
    if spec_has_key(s, key) {
        Some(s[spec_key_index(s, key)].1)
    } else {
        None
    }
}

/// No key occurs twice.
pub open spec fn spec_unique_keys<K, T>(s: Seq<(K, T)>) -> bool {
    forall|i: int, j: int| 0 <= i < j < s.len() ==> s[i].0 != s[j].0
}

/// Lookup at a known position.
pub proof fn lemma_lookup_at<K, T>(s: Seq<(K, T)>, i: int)
    requires
        spec_unique_keys(s),
        0 <= i < s.len(),
    ensures
        spec_lookup(s, s[i].0) == Some(s[i].1),
{
    assert(spec_has_key(s, s[i].0));
    let w = spec_key_index(s, s[i].0);
    assert(0 <= w < s.len() && s[w].0 == s[i].0);
    if w != i {
        if w < i {
            assert(s[w].0 != s[i].0);
        } else {
            assert(s[i].0 != s[w].0);
        }
    }
}

/// A key nowhere in the list is not found.
pub proof fn lemma_lookup_none<K, T>(s: Seq<(K, T)>, key: K)
    requires
        forall|i: int| 0 <= i < s.len() ==> s[i].0 != key,
    ensures
        spec_lookup(s, key) is None,
{
}

/// How lookup behaves when a fresh key is inserted at any position: the new
/// key maps to the new value and every other key keeps its binding.
pub proof fn lemma_insert_lookup<K, T>(s: Seq<(K, T)>, i: int, key: K, v: T)
    requires
        0 <= i <= s.len(),
        spec_unique_keys(s),
        !spec_has_key(s, key),
    ensures
        spec_unique_keys(s.insert(i, (key, v))),
        spec_lookup(s.insert(i, (key, v)), key) == Some(v),
        forall|k: K| k != key ==> spec_lookup(s.insert(i, (key, v)), k) == spec_lookup(s, k),
        forall|k: K|
            spec_has_key(s.insert(i, (key, v)), k) <==> (spec_has_key(s, k) || k == key),
    decreases s.len(),
{
    let t = s.insert(i, (key, v));
    assert forall|j: int| 0 <= j < s.len() implies s[j].0 != key by {
        if s[j].0 == key {
            assert(spec_has_key(s, key));
        }
    }
    assert(forall|j: int| 0 <= j < i ==> t[j] == s[j]);
    assert(t[i] == (key, v));
    assert(forall|j: int| i < j < t.len() ==> t[j] == s[j - 1]);
    assert forall|a: int, b: int| 0 <= a < b < t.len() implies t[a].0 != t[b].0 by {
        if a != i && b != i {
            let a0 = if a < i { a } else { a - 1 };
            let b0 = if b < i { b } else { b - 1 };
            assert(t[a] == s[a0] && t[b] == s[b0]);
            assert(a0 < b0);
        }
    }
    assert(spec_has_key(t, key));
    let w = spec_key_index(t, key);
    assert(0 <= w < t.len() && t[w].0 == key);
    assert(w == i) by {
        if w < i {
            assert(t[w] == s[w]);
        } else if w > i {
            assert(t[w] == s[w - 1]);
        }
    }
    assert(spec_lookup(t, key) == Some(v));
    assert forall|k: K| k != key implies spec_lookup(t, k) == spec_lookup(s, k) by {
        if spec_has_key(s, k) {
            let a = spec_key_index(s, k);
            assert(0 <= a < s.len() && s[a].0 == k);
            let a2 = if a < i { a } else { a + 1 };
            assert(t[a2] == s[a]);
            assert(spec_has_key(t, k));
            let b = spec_key_index(t, k);
            assert(0 <= b < t.len() && t[b].0 == k);
            assert(b != i);
            let b0 = if b < i { b } else { b - 1 };
            assert(t[b] == s[b0]);
            assert(b0 == a) by {
                if b0 != a {
                    if b0 < a {
                        assert(s[b0].0 != s[a].0);
                    } else {
                        assert(s[a].0 != s[b0].0);
                    }
                }
            }
        } else {
            if spec_has_key(t, k) {
                let b = spec_key_index(t, k);
                assert(0 <= b < t.len() && t[b].0 == k);
                assert(b != i);
                let b0 = if b < i { b } else { b - 1 };
                assert(t[b] == s[b0]);
                assert(spec_has_key(s, k));
            }
        }
    }
    assert forall|k: K| spec_has_key(t, k) <==> (spec_has_key(s, k) || k == key) by {
        if spec_has_key(s, k) {
            let a = spec_key_index(s, k);
            let a2 = if a < i { a } else { a + 1 };
            assert(t[a2] == s[a]);
            assert(spec_has_key(t, k));
        }
        if k == key {
            assert(spec_has_key(t, k));
        }
        if spec_has_key(t, k) && k != key {
            let b = spec_key_index(t, k);
            assert(b != i);
            let b0 = if b < i { b } else { b - 1 };
            assert(t[b] == s[b0]);
            assert(spec_has_key(s, k));
        }
    }
}

/// How lookup behaves when the value under one existing key is replaced in
/// place: that key maps to the new value and every other key keeps its
/// binding.
pub proof fn lemma_update_lookup<K, T>(s: Seq<(K, T)>, i: int, v: T)
    requires
        spec_unique_keys(s),
        0 <= i < s.len(),
    ensures
        spec_unique_keys(s.update(i, (s[i].0, v))),
        spec_lookup(s.update(i, (s[i].0, v)), s[i].0) == Some(v),
        forall|k: K|
            k != s[i].0 ==> spec_lookup(s.update(i, (s[i].0, v)), k) == spec_lookup(s, k),
        forall|k: K| spec_has_key(s.update(i, (s[i].0, v)), k) <==> spec_has_key(s, k),
{
    let key = s[i].0;
    let t = s.update(i, (key, v));
    assert(t.len() == s.len());
    assert(forall|j: int| 0 <= j < t.len() ==> t[j].0 == s[j].0);
    assert(forall|j: int| 0 <= j < t.len() && j != i ==> t[j] == s[j]);
    assert(spec_has_key(t, key));
    let w = spec_key_index(t, key);
    assert(0 <= w < t.len() && t[w].0 == key);
    assert(w == i) by {
        if w != i {
            if w < i {
                assert(s[w].0 != s[i].0);
            } else {
                assert(s[i].0 != s[w].0);
            }
        }
    }
    assert forall|k: K| k != key implies spec_lookup(t, k) == spec_lookup(s, k) by {
        if spec_has_key(s, k) {
            let a = spec_key_index(s, k);
            assert(t[a].0 == k);
            assert(spec_has_key(t, k));
            let b = spec_key_index(t, k);
            assert(b == a) by {
                if b != a {
                    if b < a {
                        assert(s[b].0 != s[a].0);
                    } else {
                        assert(s[a].0 != s[b].0);
                    }
                }
            }
            assert(a != i);
        } else {
            if spec_has_key(t, k) {
                let b = spec_key_index(t, k);
                assert(s[b].0 == k);
                assert(spec_has_key(s, k));
            }
        }
    }
    assert forall|k: K| spec_has_key(t, k) <==> spec_has_key(s, k) by {
        if spec_has_key(s, k) {
            let a = spec_key_index(s, k);
            assert(t[a].0 == k);
        }
        if spec_has_key(t, k) {
            let b = spec_key_index(t, k);
            assert(s[b].0 == k);
        }
    }
}

} // verus!
