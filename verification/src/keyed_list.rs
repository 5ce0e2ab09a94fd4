//! A small keyed table: a list of `(key, value)` pairs whose keys are
//! distinct, seen as the map from each key to its value.
use vstd::prelude::*;

use crate::text::str_eq;

verus! {

/// The map a list of `(key, value)` pairs stands for; a later pair for a key
/// replaces an earlier one.
pub open spec fn keyed_map<V>(s: Seq<(String, V)>) -> Map<Seq<char>, V>
    decreases s.len(),
{
    if s.len() == 0 {
        Map::empty()
    } else {
        keyed_map(s.drop_last()).insert(s.last().0@, s.last().1)
    }
}

/// No key occurs twice.
pub open spec fn distinct_keys<V>(s: Seq<(String, V)>) -> bool {
    forall|i: int, j: int| 0 <= i < j < s.len() ==> s[i].0@ != s[j].0@
}

/// The value of the pair at `i` is what the map gives for its key.
pub proof fn lemma_keyed_at<V>(s: Seq<(String, V)>, i: int)
    requires
        distinct_keys(s),
        0 <= i < s.len(),
    ensures
        keyed_map(s).contains_key(s[i].0@),
        keyed_map(s)[s[i].0@] == s[i].1,
    decreases s.len(),
{
    if i < s.len() - 1 {
        lemma_keyed_at(s.drop_last(), i);
    }
}

/// A key that no pair has is not in the map.
pub proof fn lemma_keyed_absent<V>(s: Seq<(String, V)>, k: Seq<char>)
    requires
        forall|i: int| 0 <= i < s.len() ==> s[i].0@ != k,
    ensures
        !keyed_map(s).contains_key(k),
    decreases s.len(),
{
    if s.len() > 0 {
        lemma_keyed_absent(s.drop_last(), k);
    }
}

/// Removing the pair at `i` removes its key from the map.
pub proof fn lemma_keyed_remove<V>(s: Seq<(String, V)>, i: int)
    requires
        distinct_keys(s),
        0 <= i < s.len(),
    ensures
        keyed_map(s.remove(i)) == keyed_map(s).remove(s[i].0@),
        distinct_keys(s.remove(i)),
    decreases s.len(),
{
    let t = s.remove(i);
    if i == s.len() - 1 {
        assert(t =~= s.drop_last());
        lemma_keyed_absent(s.drop_last(), s[i].0@);
        assert(keyed_map(t) =~= keyed_map(s).remove(s[i].0@));
    } else {
        lemma_keyed_remove(s.drop_last(), i);
        assert(t.drop_last() =~= s.drop_last().remove(i));
        assert(t.last() == s.last());
        assert(s.last().0@ != s[i].0@);
        assert(keyed_map(t) =~= keyed_map(s).remove(s[i].0@));
    }
}

/// Replacing the pair at `i` by one with the same key sets that key.
pub proof fn lemma_keyed_update<V>(s: Seq<(String, V)>, i: int, p: (String, V))
    requires
        distinct_keys(s),
        0 <= i < s.len(),
        s[i].0@ == p.0@,
    ensures
        keyed_map(s.update(i, p)) == keyed_map(s).insert(p.0@, p.1),
        distinct_keys(s.update(i, p)),
    decreases s.len(),
{
    let t = s.update(i, p);
    if i == s.len() - 1 {
        assert(t.drop_last() =~= s.drop_last());
        assert(keyed_map(t) =~= keyed_map(s).insert(p.0@, p.1));
    } else {
        lemma_keyed_update(s.drop_last(), i, p);
        assert(t.drop_last() =~= s.drop_last().update(i, p));
        assert(s.last().0@ != p.0@);
        assert(keyed_map(t) =~= keyed_map(s).insert(p.0@, p.1));
    }
}

/// The position of the pair with this key, if there is one.
pub fn find_key<V>(s: &Vec<(String, V)>, key: &str) -> (r: Option<usize>)
    ensures
        match r {
            Some(i) => i < s@.len() && s@[i as int].0@ == key@,
            None => forall|i: int| 0 <= i < s@.len() ==> s@[i].0@ != key@,
        },
{
    let mut i: usize = 0;
    while i < s.len()
        invariant
            i <= s@.len(),
            forall|j: int| 0 <= j < i ==> s@[j].0@ != key@,
        decreases s@.len() - i,
    {
        if str_eq(s[i].0.as_str(), key) {
            return Some(i);
        }
        i = i + 1;
    }
    None
}

/// Sets the value of a key, replacing the pair it had.
pub fn set_key<V>(s: &mut Vec<(String, V)>, key: String, value: V)
    requires
        distinct_keys(old(s)@),
    ensures
        distinct_keys(final(s)@),
        keyed_map(final(s)@) == keyed_map(old(s)@).insert(key@, value),
{
    let ghost s0 = s@;
    match find_key(s, key.as_str()) {
        Some(i) => {
            let p = (key, value);
            proof {
                lemma_keyed_update(s0, i as int, p);
            }
            s.set(i, p);
        },
        None => {
            let p = (key, value);
            s.push(p);
            proof {
                assert(s@.drop_last() =~= s0);
                assert forall|a: int, b: int| 0 <= a < b < s@.len() implies s@[a].0@ != s@[b].0@ by {
                    if b == s0.len() {
                        assert(s0[a].0@ != p.0@);
                    } else {
                        assert(s0[a].0@ != s0[b].0@);
                    }
                }
            }
        },
    }
}

/// Takes the pair of a key out: its value, or `None` when the key has none.
pub fn take_key<V>(s: &mut Vec<(String, V)>, key: &str) -> (r: Option<V>)
    requires
        distinct_keys(old(s)@),
    ensures
        distinct_keys(final(s)@),
        keyed_map(final(s)@) == keyed_map(old(s)@).remove(key@),
        r == if keyed_map(old(s)@).contains_key(key@) {
            Some(keyed_map(old(s)@)[key@])
        } else {
            None::<V>
        },
{
    let ghost s0 = s@;
    match find_key(s, key) {
        Some(i) => {
            proof {
                lemma_keyed_at(s0, i as int);
                lemma_keyed_remove(s0, i as int);
            }
            let (_, v) = s.remove(i);
            Some(v)
        },
        None => {
            proof {
                lemma_keyed_absent(s0, key@);
                assert(keyed_map(s0).remove(key@) =~= keyed_map(s0));
            }
            None
        },
    }
}

} // verus!
