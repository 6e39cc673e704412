//! Writing a value at a path of a document.

use vstd::prelude::*;
use crate::document::Document;
use crate::document::Tree;
use crate::document::entries_view;
use crate::document::items_view;
use crate::document::lemma_array_view;
use crate::document::lemma_object_view;
use crate::entries::find_key;
use crate::entries::key_index;
use crate::entries::lemma_key_index;
use crate::entries::lemma_put_keeps_wf;
use crate::entries::lemma_put_then_lookup;
use crate::entries::lemma_put_twice;
use crate::entries::lookup;
use crate::entries::put;
use crate::entries::put_entry;
use crate::marker::is_append_marker;
use crate::marker::is_marker;

verus! {

/// The container that a key must hold before the walk proceeds into it: an
/// array if the segment that follows is an append marker, an object if not.
/// What the key holds is kept if it has that kind, and gives way to an empty
/// container of that kind if not.
pub open spec fn container_for(append: bool, existing: Option<Tree>) -> Tree {
    if append {
        match existing {
            Some(Tree::Array(items)) => Tree::Array(items),
            _ => Tree::Array(Seq::empty()),
        }
    } else {
        match existing {
            Some(Tree::Object(entries)) => Tree::Object(entries),
            _ => Tree::Object(Seq::empty()),
        }
    }
}

/// `tree` after `value` is written at the last segment of a path: pushed
/// onto an array for an append marker, bound to the segment in an object,
/// and dropped where the container is neither.
pub open spec fn written(tree: Tree, segment: Seq<char>, value: Tree) -> Tree {
    match tree {
        Tree::Array(items) => if is_append_marker(segment) {
            Tree::Array(items.push(value))
        } else {
            tree
        },
        Tree::Object(entries) => Tree::Object(put(entries, segment, value)),
        _ => tree,
    }
}

/// `tree` after `value` is written at `path`.
///
/// Each segment but the last names a key of the object reached so far. That
/// key is made to hold an array if the next segment is an append marker and
/// an object if not, replacing a value of another kind, and the walk goes on
/// inside it. A value that is no object cannot be entered by key: the
/// segment is passed over. The empty path names no place and changes nothing.
pub open spec fn inserted(tree: Tree, path: Seq<Seq<char>>, value: Tree) -> Tree
    decreases path.len(),
{
    if path.len() == 0 {
        tree
    } else if path.len() == 1 {
        written(tree, path[0], value)
    } else {
        match tree {
            Tree::Object(entries) => {
                let child = container_for(is_append_marker(path[1]), lookup(entries, path[0]));
                Tree::Object(put(entries, path[0], inserted(child, path.skip(1), value)))
            },
            _ => inserted(tree, path.skip(1), value),
        }
    }
}

/// The segments of a path, each as the text it holds.
pub open spec fn segments(path: Seq<String>) -> Seq<Seq<char>> {
    Seq::new(path.len(), |i: int| path[i]@)
}

/// A write of a well-formed value leaves a well-formed document well formed.
pub proof fn lemma_insert_keeps_wf(tree: Tree, path: Seq<Seq<char>>, value: Tree)
    requires
        tree.wf(),
        value.wf(),
    ensures
        inserted(tree, path, value).wf(),
    decreases path.len(),
{
    if path.len() == 1 {
        if let Tree::Object(entries) = tree {
            lemma_put_keeps_wf(entries, path[0], value);
        }
    } else if path.len() >= 2 {
        match tree {
            Tree::Object(entries) => {
                lemma_key_index(entries, path[0]);
                let child = container_for(is_append_marker(path[1]), lookup(entries, path[0]));
                lemma_insert_keeps_wf(child, path.skip(1), value);
            },
            _ => {
                lemma_insert_keeps_wf(tree, path.skip(1), value);
            },
        }
    }
}

/// Writes `value` at the last segment of a path, into the container `doc`.
pub fn write_last(doc: &mut Document, segment: &String, value: Document)
    ensures
        final(doc)@ == written(old(doc)@, segment@, value@),
{
    broadcast use lemma_array_view, lemma_object_view;

    match doc {
        Document::Array(items) => {
            if is_marker(segment.as_str()) {
                items.push(value);
                assert(items_view(items@) =~= items_view(old(doc)->Array_0@).push(value@));
            }
        },
        Document::Object(entries) => {
            put_entry(entries, segment.clone(), value);
        },
        _ => {},
    }
}

/// An empty container: an array where the walk is to append, an object
/// where it is to go on by key.
fn empty_container(append: bool) -> (fresh: Document)
    ensures
        fresh@ == container_for(append, None),
{
    broadcast use lemma_array_view, lemma_object_view;

    assert(items_view(Seq::<Document>::empty()) =~= Seq::<Tree>::empty());
    assert(entries_view(Seq::<(String, Document)>::empty()) =~= Seq::<(Seq<char>, Tree)>::empty());
    if append {
        Document::Array(Vec::new())
    } else {
        Document::Object(Vec::new())
    }
}

/// Makes `key` hold the container that the walk needs and returns where
/// that container stands among the entries.
fn prepare_container(entries: &mut Vec<(String, Document)>, key: &String, append: bool) -> (at: usize)
    ensures
        at < final(entries).len(),
        key_index(entries_view(final(entries)@), key@) == Some(at as int),
        final(entries)[at as int].1@ == container_for(append, lookup(entries_view(old(entries)@), key@)),
        entries_view(final(entries)@) == put(
            entries_view(old(entries)@),
            key@,
            container_for(append, lookup(entries_view(old(entries)@), key@)),
        ),
{
    broadcast use lemma_array_view, lemma_object_view;

    let ghost before = entries_view(entries@);
    let ghost target = container_for(append, lookup(before, key@));
    proof {
        lemma_key_index(before, key@);
        lemma_put_then_lookup(before, key@, target);
    }
    match find_key(entries, key) {
        Some(i) => {
            let keep = match &entries[i].1 {
                Document::Array(_) => append,
                Document::Object(_) => !append,
                _ => false,
            };
            if !keep {
                entries[i] = (key.clone(), empty_container(append));
            }
            assert(entries_view(entries@) =~= put(before, key@, target));
            i
        },
        None => {
            entries.push((key.clone(), empty_container(append)));
            assert(entries_view(entries@) =~= put(before, key@, target));
            entries.len() - 1
        },
    }
}

/// Writes `value` at what is left of `path` from segment `start` on.
fn insert_from(doc: &mut Document, path: &Vec<String>, start: usize, value: Document)
    requires
        start <= path.len(),
    ensures
        final(doc)@ == inserted(old(doc)@, segments(path@).skip(start as int), value@),
    decreases path.len() - start,
{
    broadcast use lemma_array_view, lemma_object_view;

    let ghost rest = segments(path@).skip(start as int);
    let left = path.len() - start;
    if left == 0 {
        return;
    }
    if left == 1 {
        write_last(doc, &path[start], value);
        return;
    }
    assert(rest.skip(1) =~= segments(path@).skip(start + 1));
    match doc {
        Document::Object(entries) => {
            let ghost before = entries_view(entries@);
            let append = is_marker(path[start + 1].as_str());
            let at = prepare_container(entries, &path[start], append);
            let ghost prepared = entries_view(entries@);
            let ghost child = entries[at as int].1@;
            insert_from(&mut entries[at].1, path, start + 1, value);
            proof {
                let filled = inserted(child, rest.skip(1), value@);
                lemma_put_twice(before, rest[0], child, filled);
                lemma_key_index(prepared, rest[0]);
                assert(entries_view(entries@) =~= put(prepared, rest[0], filled));
            }
        },
        _ => {
            insert_from(doc, path, start + 1, value);
        },
    }
}

/// Writes `value` into `doc` at `path`. Unique keys stay unique.
pub fn insert(doc: &mut Document, path: Vec<String>, value: Document)
    ensures
        final(doc)@ == inserted(old(doc)@, segments(path@), value@),
        old(doc)@.wf() && value@.wf() ==> final(doc)@.wf(),
{
    assert(segments(path@).skip(0) =~= segments(path@));
    proof {
        if doc@.wf() && value@.wf() {
            lemma_insert_keeps_wf(doc@, segments(path@), value@);
        }
    }
    insert_from(doc, &path, 0, value);
}

} // verus!
