//! The entries of an object: looking a key up and binding it, on the
//! mathematical value and on the document.

use vstd::prelude::*;
use crate::document::Document;
use crate::document::Tree;
use crate::document::distinct_keys;
use crate::document::entries_view;

verus! {

/// The entries of an object: keys with their values, in insertion order.
pub type Entries = Seq<(Seq<char>, Tree)>;

/// The first position at or after `from` whose key is `key`.
pub open spec fn key_index_from(entries: Entries, key: Seq<char>, from: int) -> Option<int>
    decreases entries.len() - from,
{
    if from < 0 || from >= entries.len() {
        None
    } else if entries[from].0 == key {
        Some(from)
    } else {
        key_index_from(entries, key, from + 1)
    }
}

/// The first position of `key` among `entries`.
pub open spec fn key_index(entries: Entries, key: Seq<char>) -> Option<int> {
    key_index_from(entries, key, 0)
}

/// What is bound to `key` among `entries`, if anything.
pub open spec fn lookup(entries: Entries, key: Seq<char>) -> Option<Tree> {
    match key_index(entries, key) {
        Some(i) => Some(entries[i].1),
        None => None,
    }
}

/// `entries` with `key` bound to `value`: in place where the key is present,
/// as a new last entry where it is not.
pub open spec fn put(entries: Entries, key: Seq<char>, value: Tree) -> Entries {
    match key_index(entries, key) {
        Some(i) => entries.update(i, (key, value)),
        None => entries.push((key, value)),
    }
}

/// The first position of a key at or after `from` is the first position of
/// all, where no earlier entry has that key.
proof fn lemma_key_index_from(entries: Entries, key: Seq<char>, from: int)
    requires
        0 <= from <= entries.len(),
        forall|j: int| 0 <= j < from ==> (#[trigger] entries[j]).0 != key,
    ensures
        key_index(entries, key) == key_index_from(entries, key, from),
    decreases from,
{
    if from > 0 {
        lemma_key_index_from(entries, key, from - 1);
    }
}

/// What a scan from `from` on returns: the first position at or after it
/// whose entry has the key.
proof fn lemma_key_index_scan(entries: Entries, key: Seq<char>, from: int)
    requires
        0 <= from <= entries.len(),
    ensures
        match key_index_from(entries, key, from) {
            Some(i) => {
                &&& from <= i < entries.len()
                &&& entries[i].0 == key
                &&& forall|j: int| from <= j < i ==> (#[trigger] entries[j]).0 != key
            },
            None => forall|j: int| from <= j < entries.len() ==> (#[trigger] entries[j]).0 != key,
        },
    decreases entries.len() - from,
{
    if from < entries.len() && entries[from].0 != key {
        lemma_key_index_scan(entries, key, from + 1);
    }
}

/// What `key_index` returns: the position of an entry with that key before
/// which no entry has it, or nothing where no entry has it.
pub proof fn lemma_key_index(entries: Entries, key: Seq<char>)
    ensures
        match key_index(entries, key) {
            Some(i) => {
                &&& 0 <= i < entries.len()
                &&& entries[i].0 == key
                &&& forall|j: int| 0 <= j < i ==> (#[trigger] entries[j]).0 != key
            },
            None => forall|j: int| 0 <= j < entries.len() ==> (#[trigger] entries[j]).0 != key,
        },
{
    lemma_key_index_scan(entries, key, 0);
}

/// A position is the first of its key where no earlier entry has that key.
pub proof fn lemma_key_index_is(entries: Entries, key: Seq<char>, i: int)
    requires
        0 <= i < entries.len(),
        entries[i].0 == key,
        forall|j: int| 0 <= j < i ==> (#[trigger] entries[j]).0 != key,
    ensures
        key_index(entries, key) == Some(i),
{
    lemma_key_index_from(entries, key, i);
}

/// After `put`, the key is found where it was, or at the new last position,
/// and holds the value.
pub proof fn lemma_put_then_lookup(entries: Entries, key: Seq<char>, value: Tree)
    ensures
        key_index(put(entries, key, value), key) == Some(
            match key_index(entries, key) {
                Some(i) => i,
                None => entries.len() as int,
            },
        ),
        lookup(put(entries, key, value), key) == Some(value),
{
    lemma_key_index(entries, key);
    let after = put(entries, key, value);
    let at = match key_index(entries, key) {
        Some(i) => i,
        None => entries.len() as int,
    };
    lemma_key_index_is(after, key, at);
}

/// Binding a key twice leaves what binding it to the second value leaves.
pub proof fn lemma_put_twice(entries: Entries, key: Seq<char>, first: Tree, second: Tree)
    ensures
        put(put(entries, key, first), key, second) == put(entries, key, second),
{
    lemma_put_then_lookup(entries, key, first);
    lemma_key_index(entries, key);
}

/// Binding one key leaves every other key where it was, with what it held.
pub proof fn lemma_put_other(entries: Entries, key: Seq<char>, value: Tree, other: Seq<char>)
    requires
        key != other,
    ensures
        key_index(put(entries, key, value), other) == key_index(entries, other),
        lookup(put(entries, key, value), other) == lookup(entries, other),
        key_index(entries, other) matches Some(i) ==> put(entries, key, value)[i] == entries[i],
{
    let after = put(entries, key, value);
    lemma_key_index(entries, key);
    lemma_key_index(entries, other);
    match key_index(entries, other) {
        Some(i) => {
            lemma_key_index_is(after, other, i);
        },
        None => {
            lemma_key_index(after, other);
        },
    }
}

/// Binding a key keeps the keys unique and the values well formed.
pub proof fn lemma_put_keeps_wf(entries: Entries, key: Seq<char>, value: Tree)
    requires
        Tree::Object(entries).wf(),
        value.wf(),
    ensures
        Tree::Object(put(entries, key, value)).wf(),
{
    lemma_key_index(entries, key);
}

/// The first position of `key` among the entries of an object.
pub fn find_key(entries: &Vec<(String, Document)>, key: &String) -> (r: Option<usize>)
    ensures
        match r {
            Some(i) => i < entries.len() && key_index(entries_view(entries@), key@) == Some(
                i as int,
            ),
            None => key_index(entries_view(entries@), key@) is None,
        },
{
    let mut i: usize = 0;
    while i < entries.len()
        invariant
            i <= entries.len(),
            key_index(entries_view(entries@), key@) == key_index_from(
                entries_view(entries@),
                key@,
                i as int,
            ),
        decreases entries.len() - i,
    {
        if entries[i].0 == *key {
            return Some(i);
        }
        i += 1;
    }
    None
}

/// Binds `key` to `value` among the entries of an object.
pub fn put_entry(entries: &mut Vec<(String, Document)>, key: String, value: Document)
    ensures
        entries_view(final(entries)@) == put(entries_view(old(entries)@), key@, value@),
{
    match find_key(entries, &key) {
        Some(i) => {
            entries[i] = (key, value);
        },
        None => {
            entries.push((key, value));
        },
    }
}

/// Whether no two entries of an object have the same key.
pub fn keys_distinct(entries: &Vec<(String, Document)>) -> (distinct: bool)
    ensures
        distinct == distinct_keys(entries_view(entries@)),
{
    let ghost all = entries_view(entries@);
    let mut j: usize = 0;
    while j < entries.len()
        invariant
            j <= entries.len(),
            all == entries_view(entries@),
            forall|a: int, b: int| 0 <= a < b < j ==> (#[trigger] all[a]).0 != (#[trigger] all[b]).0,
        decreases entries.len() - j,
    {
        proof {
            lemma_key_index(all, entries[j as int].0@);
            assert(all[j as int].0 == entries[j as int].0@);
        }
        match find_key(entries, &entries[j].0) {
            Some(first) => {
                if first != j {
                    assert(all[first as int].0 == all[j as int].0);
                    return false;
                }
            },
            None => {
                return false;
            },
        }
        j += 1;
    }
    true
}

} // verus!
