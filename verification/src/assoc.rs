//! Keyed sequences.
//!
//! Queues in a namespace and messages in a pending index are held as
//! vectors of `(String, value)` pairs with pairwise-distinct keys. This
//! module gives such sequences their mathematical reading — a sequence of
//! `(Seq<char>, view)` pairs — together with key lookup and the lemmas
//! that carry vector edits over to the reading.

use vstd::prelude::*;

verus! {

/// The reading of a keyed vector: each key as its character sequence,
/// each value as its view.
pub open spec fn map_pairs<T: View>(s: Seq<(String, T)>) -> Seq<(Seq<char>, T::V)> {
    s.map_values(|p: (String, T)| (p.0@, p.1@))
}

/// Index of the first pair carrying key `k`, or `-1`.
pub open spec fn find_key<V>(s: Seq<(Seq<char>, V)>, k: Seq<char>) -> int
    decreases s.len(),
{
    if s.len() == 0 {
        -1
    } else if s[0].0 == k {
        0
    } else {
        let r = find_key(s.drop_first(), k);
        if r < 0 {
            -1
        } else {
            r + 1
        }
    }
}

pub open spec fn has_key<V>(s: Seq<(Seq<char>, V)>, k: Seq<char>) -> bool {
    find_key(s, k) >= 0
}

/// No two pairs carry the same key.
pub open spec fn distinct_keys<V>(s: Seq<(Seq<char>, V)>) -> bool {
    forall|i: int, j: int| 0 <= i < j < s.len() ==> s[i].0 != s[j].0
}

/// What a successful or failed lookup says about the sequence.
pub proof fn lemma_find_key_props<V>(s: Seq<(Seq<char>, V)>, k: Seq<char>)
    ensures
        find_key(s, k) >= 0 ==> find_key(s, k) < s.len() && s[find_key(s, k)].0 == k,
        find_key(s, k) < 0 ==> find_key(s, k) == -1 && (forall|i: int|
            0 <= i < s.len() ==> s[i].0 != k),
    decreases s.len(),
{
    if s.len() > 0 && s[0].0 != k {
        lemma_find_key_props(s.drop_first(), k);
        assert forall|i: int| 1 <= i < s.len() implies s[i].0 == s.drop_first()[i - 1].0 by {}
    }
}

/// A key found at `i` with no earlier occurrence is what lookup returns.
pub proof fn lemma_find_key_is<V>(s: Seq<(Seq<char>, V)>, k: Seq<char>, i: int)
    requires
        0 <= i < s.len(),
        s[i].0 == k,
        forall|j: int| 0 <= j < i ==> s[j].0 != k,
    ensures
        find_key(s, k) == i,
    decreases s.len(),
{
    if i > 0 {
        assert forall|j: int| 0 <= j < i - 1 implies s.drop_first()[j].0 != k by {
            assert(s.drop_first()[j].0 == s[j + 1].0);
        }
        assert(s.drop_first()[i - 1].0 == s[i].0);
        lemma_find_key_is(s.drop_first(), k, i - 1);
    }
}

/// Under distinct keys, any occurrence is the one lookup returns.
pub proof fn lemma_find_key_distinct<V>(s: Seq<(Seq<char>, V)>, k: Seq<char>, i: int)
    requires
        distinct_keys(s),
        0 <= i < s.len(),
        s[i].0 == k,
    ensures
        find_key(s, k) == i,
{
    assert forall|j: int| 0 <= j < i implies s[j].0 != k by {
        assert(s[j].0 != s[i].0);
    }
    lemma_find_key_is(s, k, i);
}

/// A lookup that misses everywhere returns `-1`.
pub proof fn lemma_find_key_none<V>(s: Seq<(Seq<char>, V)>, k: Seq<char>)
    requires
        forall|i: int| 0 <= i < s.len() ==> s[i].0 != k,
    ensures
        find_key(s, k) == -1,
{
    lemma_find_key_props(s, k);
}

pub proof fn lemma_map_pairs_push<T: View>(s: Seq<(String, T)>, p: (String, T))
    ensures
        map_pairs(s.push(p)) =~= map_pairs(s).push((p.0@, p.1@)),
{
}

pub proof fn lemma_map_pairs_update<T: View>(s: Seq<(String, T)>, i: int, p: (String, T))
    requires
        0 <= i < s.len(),
    ensures
        map_pairs(s.update(i, p)) =~= map_pairs(s).update(i, (p.0@, p.1@)),
{
}

pub proof fn lemma_map_pairs_remove<T: View>(s: Seq<(String, T)>, i: int)
    requires
        0 <= i < s.len(),
    ensures
        map_pairs(s.remove(i)) =~= map_pairs(s).remove(i),
{
}

pub proof fn lemma_map_pairs_insert<T: View>(s: Seq<(String, T)>, i: int, p: (String, T))
    requires
        0 <= i <= s.len(),
    ensures
        map_pairs(s.insert(i, p)) =~= map_pairs(s).insert(i, (p.0@, p.1@)),
{
}

/// Store semantics of writing under a key: a fresh key is appended, a
/// known key overwritten in place.
pub open spec fn upsert<V>(s: Seq<(Seq<char>, V)>, k: Seq<char>, v: V) -> Seq<(Seq<char>, V)> {
    let i = find_key(s, k);
    if i < 0 {
        s.push((k, v))
    } else {
        s.update(i, (k, v))
    }
}

pub proof fn lemma_distinct_upsert<V>(s: Seq<(Seq<char>, V)>, k: Seq<char>, v: V)
    requires
        distinct_keys(s),
    ensures
        distinct_keys(upsert(s, k, v)),
        has_key(upsert(s, k, v), k),
        find_key(upsert(s, k, v), k) == if find_key(s, k) < 0 {
            s.len() as int
        } else {
            find_key(s, k)
        },
{
    lemma_find_key_props(s, k);
    let i = find_key(s, k);
    let t = upsert(s, k, v);
    if i < 0 {
        lemma_distinct_push(s, (k, v));
        lemma_find_key_distinct(t, k, s.len() as int);
    } else {
        lemma_distinct_update(s, i, (k, v));
        lemma_find_key_distinct(t, k, i);
    }
}

/// Removing the one occurrence of a key removes the key.
pub proof fn lemma_remove_key_gone<V>(s: Seq<(Seq<char>, V)>, k: Seq<char>)
    requires
        distinct_keys(s),
        has_key(s, k),
    ensures
        !has_key(s.remove(find_key(s, k)), k),
{
    lemma_find_key_props(s, k);
    let i = find_key(s, k);
    let t = s.remove(i);
    assert forall|j: int| 0 <= j < t.len() implies t[j].0 != k by {
        let j0 = if j < i {
            j
        } else {
            j + 1
        };
        assert(t[j] == s[j0]);
        assert(s[j0].0 != s[i].0);
    }
    lemma_find_key_none(t, k);
}

pub proof fn lemma_distinct_remove<V>(s: Seq<(Seq<char>, V)>, i: int)
    requires
        distinct_keys(s),
        0 <= i < s.len(),
    ensures
        distinct_keys(s.remove(i)),
{
    let t = s.remove(i);
    assert forall|a: int, b: int| 0 <= a < b < t.len() implies t[a].0 != t[b].0 by {
        let a0 = if a < i {
            a
        } else {
            a + 1
        };
        let b0 = if b < i {
            b
        } else {
            b + 1
        };
        assert(t[a] == s[a0]);
        assert(t[b] == s[b0]);
        assert(s[a0].0 != s[b0].0);
    }
}

pub proof fn lemma_distinct_update<V>(s: Seq<(Seq<char>, V)>, i: int, p: (Seq<char>, V))
    requires
        distinct_keys(s),
        0 <= i < s.len(),
        p.0 == s[i].0,
    ensures
        distinct_keys(s.update(i, p)),
{
}

pub proof fn lemma_distinct_push<V>(s: Seq<(Seq<char>, V)>, p: (Seq<char>, V))
    requires
        distinct_keys(s),
        forall|i: int| 0 <= i < s.len() ==> s[i].0 != p.0,
    ensures
        distinct_keys(s.push(p)),
{
}

/// Taking a pair out and putting another back at the same place is an
/// update.
pub proof fn lemma_remove_insert_is_update<A>(s: Seq<A>, i: int, v: A)
    requires
        0 <= i < s.len(),
    ensures
        s.remove(i).insert(i, v) =~= s.update(i, v),
{
}

/// Finds the pair carrying `key` in a keyed vector.
pub fn find_by_key<T: View>(v: &Vec<(String, T)>, key: &str) -> (r: Option<usize>)
    ensures
        match r {
            Option::Some(i) => i < v@.len() && find_key(map_pairs(v@), key@) == i as int,
            Option::None => find_key(map_pairs(v@), key@) == -1,
        },
{
    let k: String = key.to_owned();
    let mut i: usize = 0;
    while i < v.len()
        invariant
            i <= v@.len(),
            k@ == key@,
            forall|j: int| 0 <= j < i ==> map_pairs(v@)[j].0 != key@,
        decreases v@.len() - i,
    {
        let p = &v[i];
        if p.0 == k {
            proof {
                lemma_find_key_is(map_pairs(v@), key@, i as int);
            }
            return Some(i);
        }
        i = i + 1;
    }
    proof {
        lemma_find_key_none(map_pairs(v@), key@);
    }
    None
}

} // verus!
