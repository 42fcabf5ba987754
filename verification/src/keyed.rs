//! A small string-keyed table that keeps one entry per key, in the order in
//! which keys were first set.
use vstd::prelude::*;
use crate::text::str_eq;

verus! {

/// The position of the entry for key `k`, if there is one.
pub open spec fn key_index<V>(entries: Seq<(String, V)>, k: Seq<char>) -> Option<int>
    decreases entries.len(),
{
    if entries.len() == 0 {
        None
    } else if entries.last().0@ == k {
        Some((entries.len() - 1) as int)
    } else {
        key_index(entries.drop_last(), k)
    }
}

/// The value stored under key `k`, if there is one.
pub open spec fn lookup<V>(entries: Seq<(String, V)>, k: Seq<char>) -> Option<V> {
    match key_index(entries, k) {
        Some(i) => Some(entries[i].1),
        None => None,
    }
}

/// No key occurs twice.
pub open spec fn keys_unique<V>(entries: Seq<(String, V)>) -> bool {
    forall|i: int, j: int|
        0 <= i < entries.len() && 0 <= j < entries.len() && i != j ==> entries[i].0@
            != entries[j].0@
}

/// The table after setting key `k` to `v`: the entry for `k` takes the new value
/// in place, or a new entry is added at the end.
pub open spec fn inserted<V>(entries: Seq<(String, V)>, k: String, v: V) -> Seq<(String, V)> {
    match key_index(entries, k@) {
        Some(i) => entries.update(i, (entries[i].0, v)),
        None => entries.push((k, v)),
    }
}

pub proof fn lemma_key_index<V>(entries: Seq<(String, V)>, k: Seq<char>)
    ensures
        key_index(entries, k) matches Some(i) ==> 0 <= i < entries.len() && entries[i].0@ == k,
        key_index(entries, k) is None ==> forall|j: int|
            0 <= j < entries.len() ==> entries[j].0@ != k,
    decreases entries.len(),
{
    if entries.len() > 0 && entries.last().0@ != k {
        lemma_key_index(entries.drop_last(), k);
        assert forall|j: int| 0 <= j < entries.len() - 1 implies entries[j] == entries.drop_last()[j] by {}
    }
}

pub proof fn lemma_key_index_unique<V>(entries: Seq<(String, V)>, k: Seq<char>, i: int)
    requires
        keys_unique(entries),
        0 <= i < entries.len(),
        entries[i].0@ == k,
    ensures
        key_index(entries, k) == Some(i),
{
    lemma_key_index(entries, k);
}

/// Reading back a key after setting it gives the value just set, and every other
/// key keeps its value; keys stay unique.
pub proof fn lemma_inserted<V>(entries: Seq<(String, V)>, k: String, v: V, other: Seq<char>)
    requires
        keys_unique(entries),
    ensures
        keys_unique(inserted(entries, k, v)),
        lookup(inserted(entries, k, v), k@) == Some(v),
        other != k@ ==> lookup(inserted(entries, k, v), other) == lookup(entries, other),
{
    lemma_key_index(entries, k@);
    let e2 = inserted(entries, k, v);
    assert(keys_unique(e2));
    lemma_key_index(e2, k@);
    lemma_key_index(e2, other);
    lemma_key_index(entries, other);
    match key_index(entries, k@) {
        Some(i) => {
            lemma_key_index_unique(e2, k@, i);
            if other != k@ {
                match key_index(entries, other) {
                    Some(j) => {
                        lemma_key_index_unique(e2, other, j);
                    },
                    None => {},
                }
            }
        },
        None => {
            lemma_key_index_unique(e2, k@, entries.len() as int);
            if other != k@ {
                match key_index(entries, other) {
                    Some(j) => {
                        lemma_key_index_unique(e2, other, j);
                    },
                    None => {
                        assert(e2[entries.len() as int].0@ != other);
                    },
                }
            }
        },
    }
}

/// Finds the position of the entry for `k`.
pub fn find_key<V>(entries: &Vec<(String, V)>, k: &str) -> (r: Option<usize>)
    ensures
        r matches Some(i) ==> key_index(entries@, k@) == Some(i as int) && i < entries@.len()
            && entries@[i as int].0@ == k@,
        r is None ==> key_index(entries@, k@) is None,
{
    proof {
        lemma_key_index(entries@, k@);
    }
    assert(entries@.subrange(0, entries@.len() as int) =~= entries@);
    let mut i = entries.len();
    while i > 0
        invariant
            i <= entries@.len(),
            key_index(entries@, k@) == key_index(entries@.subrange(0, i as int), k@),
        decreases i,
    {
        let ghost prefix = entries@.subrange(0, i as int);
        if str_eq(entries[i - 1].0.as_str(), k) {
            return Some(i - 1);
        }
        assert(prefix.drop_last() =~= entries@.subrange(0, i - 1));
        i = i - 1;
    }
    None
}

/// Sets `k` to `v`.
pub fn insert_entry<V>(entries: &mut Vec<(String, V)>, k: String, v: V)
    ensures
        final(entries)@ == inserted(old(entries)@, k, v),
{
    assert(entries@.subrange(0, entries@.len() as int) =~= entries@);
    match find_key(entries, k.as_str()) {
        Some(i) => {
            let old_key = entries[i].0.clone();
            entries.set(i, (old_key, v));
        },
        None => {
            entries.push((k, v));
        },
    }
}

/// The value stored under `k`.
pub fn get_entry<'a, V>(entries: &'a Vec<(String, V)>, k: &str) -> (r: Option<&'a V>)
    ensures
        r matches Some(x) ==> lookup(entries@, k@) == Some(*x),
        r is None ==> lookup(entries@, k@) is None,
{
    assert(entries@.subrange(0, entries@.len() as int) =~= entries@);
    match find_key(entries, k) {
        Some(i) => Some(&entries[i].1),
        None => None,
    }
}

} // verus!

verus! {

/// The entries with each key taken by its characters.
pub open spec fn keyed_view<V>(e: Seq<(String, V)>) -> Seq<(Seq<char>, V)> {
    e.map_values(|p: (String, V)| (p.0@, p.1))
}

/// The position of key `k` in a viewed table.
pub open spec fn key_pos<V>(kvs: Seq<(Seq<char>, V)>, k: Seq<char>) -> Option<int>
    decreases kvs.len(),
{
    if kvs.len() == 0 {
        None
    } else if kvs.last().0 == k {
        Some((kvs.len() - 1) as int)
    } else {
        key_pos(kvs.drop_last(), k)
    }
}

/// A viewed table after setting `k` to `v`: updated in place, or appended.
pub open spec fn set_key<V>(kvs: Seq<(Seq<char>, V)>, k: Seq<char>, v: V) -> Seq<(Seq<char>, V)> {
    match key_pos(kvs, k) {
        Some(i) => kvs.update(i, (k, v)),
        None => kvs.push((k, v)),
    }
}

/// The value under `k` in a viewed table.
pub open spec fn value_of<V>(kvs: Seq<(Seq<char>, V)>, k: Seq<char>) -> Option<V> {
    match key_pos(kvs, k) {
        Some(i) => Some(kvs[i].1),
        None => None,
    }
}

pub proof fn lemma_key_pos_view<V>(e: Seq<(String, V)>, k: Seq<char>)
    ensures
        key_index(e, k) == key_pos(keyed_view(e), k),
    decreases e.len(),
{
    if e.len() > 0 {
        assert(keyed_view(e.drop_last()) =~= keyed_view(e).drop_last());
        lemma_key_pos_view(e.drop_last(), k);
    }
}

pub proof fn lemma_inserted_view<V>(e: Seq<(String, V)>, k: String, v: V)
    ensures
        keyed_view(inserted(e, k, v)) == set_key(keyed_view(e), k@, v),
        lookup(e, k@) == value_of(keyed_view(e), k@),
{
    lemma_key_pos_view(e, k@);
    lemma_key_index(e, k@);
    assert(keyed_view(inserted(e, k, v)) =~= set_key(keyed_view(e), k@, v));
}

pub proof fn lemma_key_pos<V>(kvs: Seq<(Seq<char>, V)>, k: Seq<char>)
    ensures
        key_pos(kvs, k) matches Some(i) ==> 0 <= i < kvs.len() && kvs[i].0 == k,
        key_pos(kvs, k) is None ==> forall|j: int| 0 <= j < kvs.len() ==> kvs[j].0 != k,
    decreases kvs.len(),
{
    if kvs.len() > 0 && kvs.last().0 != k {
        lemma_key_pos(kvs.drop_last(), k);
        assert forall|j: int| 0 <= j < kvs.len() - 1 implies kvs[j] == kvs.drop_last()[j] by {}
    }
}

proof fn lemma_key_pos_same_keys<V>(a: Seq<(Seq<char>, V)>, b: Seq<(Seq<char>, V)>, x: Seq<char>)
    requires
        a.len() == b.len(),
        forall|j: int| 0 <= j < a.len() ==> a[j].0 == b[j].0,
    ensures
        key_pos(a, x) == key_pos(b, x),
    decreases a.len(),
{
    if a.len() > 0 {
        lemma_key_pos_same_keys(a.drop_last(), b.drop_last(), x);
    }
}

/// Setting a key in a viewed table and reading it back gives the value set; other
/// keys read as before.
pub proof fn lemma_set_key_read<V>(kvs: Seq<(Seq<char>, V)>, k: Seq<char>, v: V, other: Seq<char>)
    ensures
        value_of(set_key(kvs, k, v), k) == Some(v),
        other != k ==> value_of(set_key(kvs, k, v), other) == value_of(kvs, other),
{
    lemma_key_pos(kvs, k);
    lemma_key_pos(kvs, other);
    let s = set_key(kvs, k, v);
    match key_pos(kvs, k) {
        Some(i) => {
            lemma_key_pos_same_keys(s, kvs, k);
            lemma_key_pos_same_keys(s, kvs, other);
        },
        None => {
            assert(s.drop_last() =~= kvs);
        },
    }
}

} // verus!
