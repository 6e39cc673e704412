//! What holds of every merge: an overlay of objects and scalars can be
//! merged again without effect, and an overlay with an array appends again.

use vstd::prelude::*;
use crate::document::Tree;
use crate::document::distinct_keys;
use crate::entries::Entries;
use crate::entries::key_index;
use crate::entries::lemma_key_index;
use crate::entries::lemma_put_other;
use crate::entries::lemma_put_then_lookup;
use crate::entries::lemma_put_twice;
use crate::entries::lookup;
use crate::entries::put;
use crate::insert::container_for;
use crate::insert::inserted;
use crate::marker::is_append_marker;
use crate::marker::lemma_marker_text;
use crate::marker::marker_text;
use crate::merge::Write;
use crate::merge::appends;
use crate::merge::apply_all;
use crate::merge::children;
use crate::merge::lemma_step_decreases;
use crate::merge::merged;
use crate::merge::queue_writes;
use crate::merge::sum;
use crate::merge::weights;

verus! {

/// No segment of the path is an append marker.
pub open spec fn plain_path(path: Seq<Seq<char>>) -> bool {
    forall|i: int| 0 <= i < path.len() ==> !is_append_marker(#[trigger] path[i])
}

/// A value of objects and scalars alone: it holds no array, and no key of
/// its objects is an append marker or stands twice in one object.
pub open spec fn plain(tree: Tree) -> bool
    decreases tree,
{
    match tree {
        Tree::Array(_) => false,
        Tree::Object(entries) => {
            &&& distinct_keys(entries)
            &&& forall|i: int|
                0 <= i < entries.len() ==> !is_append_marker((#[trigger] entries[i]).0) && plain(
                    entries[i].1,
                )
        },
        _ => true,
    }
}

/// Writing `value` at `path` changes nothing: it is there already.
pub open spec fn settled(tree: Tree, path: Seq<Seq<char>>, value: Tree) -> bool {
    inserted(tree, path, value) == tree
}

/// The two paths part: at some position that both have, their segments
/// differ.
pub open spec fn parted(p: Seq<Seq<char>>, q: Seq<Seq<char>>) -> bool {
    exists|k: int| 0 <= k < p.len() && k < q.len() && #[trigger] p[k] != q[k]
}

/// `p` is the beginning of `q`.
pub open spec fn begins(p: Seq<Seq<char>>, q: Seq<Seq<char>>) -> bool {
    p.len() <= q.len() && forall|i: int| 0 <= i < p.len() ==> #[trigger] p[i] == q[i]
}

/// Writing into an object leaves an object.
pub proof fn lemma_object_stays(tree: Tree, path: Seq<Seq<char>>, value: Tree)
    requires
        tree is Object,
    ensures
        inserted(tree, path, value) is Object,
{
}

/// A plain path writes nothing into a value that is no object.
pub proof fn lemma_plain_path_needs_object(tree: Tree, path: Seq<Seq<char>>, value: Tree)
    requires
        !(tree is Object),
        plain_path(path),
    ensures
        inserted(tree, path, value) == tree,
    decreases path.len(),
{
    if path.len() >= 2 {
        lemma_plain_path_needs_object(tree, path.skip(1), value);
    }
}

/// A write at a plain path is settled once it is made.
pub proof fn lemma_write_settles(tree: Tree, path: Seq<Seq<char>>, value: Tree)
    requires
        plain_path(path),
    ensures
        settled(inserted(tree, path, value), path, value),
    decreases path.len(),
{
    match tree {
        Tree::Object(entries) => {
            if path.len() == 1 {
                lemma_put_twice(entries, path[0], value, value);
            } else if path.len() >= 2 {
                let child = container_for(false, lookup(entries, path[0]));
                let filled = inserted(child, path.skip(1), value);
                lemma_write_settles(child, path.skip(1), value);
                lemma_put_then_lookup(entries, path[0], filled);
                lemma_put_twice(entries, path[0], filled, filled);
            }
        },
        _ => {
            lemma_plain_path_needs_object(tree, path, value);
        },
    }
}

/// A settled write into an object finds its first key, and under it what
/// the write leaves there.
proof fn lemma_settled_entry(entries: Entries, path: Seq<Seq<char>>, value: Tree)
    requires
        path.len() >= 1,
        plain_path(path),
        settled(Tree::Object(entries), path, value),
    ensures
        key_index(entries, path[0]) is Some,
        ({
            let at = key_index(entries, path[0])->Some_0;
            &&& 0 <= at < entries.len()
            &&& entries[at].0 == path[0]
            &&& path.len() == 1 ==> entries[at].1 == value
            &&& path.len() >= 2 ==> entries[at].1 is Object && settled(
                entries[at].1,
                path.skip(1),
                value,
            )
        }),
{
    lemma_key_index(entries, path[0]);
    if path.len() >= 2 {
        let child = container_for(false, lookup(entries, path[0]));
        lemma_object_stays(child, path.skip(1), value);
    }
}

/// A settled write stays settled when another write is made at a path
/// that parts from its own.
pub proof fn lemma_settled_survives(
    tree: Tree,
    p: Seq<Seq<char>>,
    v: Tree,
    q: Seq<Seq<char>>,
    u: Tree,
)
    requires
        plain_path(p),
        plain_path(q),
        parted(p, q),
        settled(tree, p, v),
    ensures
        settled(inserted(tree, q, u), p, v),
    decreases p.len(),
{
    if !(tree is Object) {
        lemma_plain_path_needs_object(tree, q, u);
    } else {
        let entries = tree->Object_0;
        lemma_settled_entry(entries, p, v);
        let at = key_index(entries, p[0])->Some_0;
        if p[0] != q[0] {
            let bound = if q.len() == 1 {
                u
            } else {
                inserted(
                    container_for(is_append_marker(q[1]), lookup(entries, q[0])),
                    q.skip(1),
                    u,
                )
            };
            let after = put(entries, q[0], bound);
            lemma_put_other(entries, q[0], bound, p[0]);
            lemma_key_index(entries, q[0]);
            if p.len() == 1 {
                assert(after.update(at, (p[0], v)) =~= after);
            } else {
                let child = container_for(false, lookup(after, p[0]));
                assert(after.update(at, (p[0], child)) =~= after);
            }
        } else {
            let k = choose|k: int| 0 <= k < p.len() && k < q.len() && #[trigger] p[k] != q[k];
            let held = entries[at].1;
            let filled = inserted(held, q.skip(1), u);
            assert(parted(p.skip(1), q.skip(1))) by {
                assert(p.skip(1)[k - 1] == p[k]);
            }
            lemma_settled_survives(held, p.skip(1), v, q.skip(1), u);
            lemma_put_then_lookup(entries, q[0], filled);
            lemma_put_twice(entries, q[0], filled, filled);
        }
    }
}

/// The paths of the writes are plain and part from each other.
pub open spec fn separate(writes: Seq<Write>) -> bool {
    &&& forall|i: int| 0 <= i < writes.len() ==> plain_path((#[trigger] writes[i]).path)
    &&& forall|i: int, j: int|
        0 <= i < j < writes.len() ==> parted(
            (#[trigger] writes[i]).path,
            (#[trigger] writes[j]).path,
        )
}

/// After writes that are separate were made, each of them is settled.
pub proof fn lemma_separate_writes_settle(base: Tree, writes: Seq<Write>)
    requires
        separate(writes),
    ensures
        forall|i: int|
            0 <= i < writes.len() ==> settled(
                apply_all(base, writes),
                (#[trigger] writes[i]).path,
                writes[i].value,
            ),
    decreases writes.len(),
{
    if writes.len() > 0 {
        let earlier = writes.drop_last();
        let last = writes.last();
        lemma_separate_writes_settle(base, earlier);
        let before = apply_all(base, earlier);
        assert forall|i: int| 0 <= i < writes.len() implies settled(
            apply_all(base, writes),
            (#[trigger] writes[i]).path,
            writes[i].value,
        ) by {
            if i < writes.len() - 1 {
                assert(earlier[i] == writes[i]);
                lemma_settled_survives(before, writes[i].path, writes[i].value, last.path, last.value);
            } else {
                lemma_write_settles(before, last.path, last.value);
            }
        }
    }
}

/// Writes that are all settled change nothing.
pub proof fn lemma_settled_writes_keep(tree: Tree, writes: Seq<Write>)
    requires
        forall|i: int|
            0 <= i < writes.len() ==> settled(tree, (#[trigger] writes[i]).path, writes[i].value),
    ensures
        apply_all(tree, writes) == tree,
    decreases writes.len(),
{
    if writes.len() > 0 {
        let earlier = writes.drop_last();
        lemma_settled_writes_keep(tree, earlier);
    }
}

/// A worklist whose paths are separate and whose values are plain.
pub open spec fn plain_queue(queue: Seq<Write>) -> bool {
    &&& separate(queue)
    &&& forall|i: int| 0 <= i < queue.len() ==> plain((#[trigger] queue[i]).value)
}

/// Every write stems from an item of the worklist: its path begins with
/// the path of that item.
pub open spec fn stem_from(writes: Seq<Write>, queue: Seq<Write>) -> bool {
    forall|a: int|
        0 <= a < writes.len() ==> exists|i: int|
            0 <= i < queue.len() && begins((#[trigger] queue[i]).path, (#[trigger] writes[a]).path)
}

/// The entries of a plain object give a plain worklist, next to the items
/// that stood beside the object.
proof fn lemma_children_plain(queue: Seq<Write>)
    requires
        plain_queue(queue),
        queue.len() > 0,
        queue[0].value is Object,
    ensures
        plain_queue(queue.skip(1) + children(queue[0].path, queue[0].value->Object_0)),
{
    let head = queue[0];
    let entries = head.value->Object_0;
    let rest = queue.skip(1);
    let kids = children(head.path, entries);
    let next = rest + kids;
    assert forall|i: int, j: int| 0 <= i < j < next.len() implies parted(
        (#[trigger] next[i]).path,
        (#[trigger] next[j]).path,
    ) by {
        if i >= rest.len() {
            let e = i - rest.len();
            let at = head.path.len() as int;
            assert(kids[e].path[at] == entries[e].0);
        }
    }
}

/// The writes of a plain worklist are separate, and each stems from an
/// item of the worklist.
pub proof fn lemma_plain_queue_writes(queue: Seq<Write>)
    requires
        plain_queue(queue),
    ensures
        separate(queue_writes(queue)),
        stem_from(queue_writes(queue), queue),
    decreases sum(weights(queue)),
{
    if queue.len() > 0 {
        lemma_step_decreases(queue);
        let head = queue[0];
        let rest = queue.skip(1);
        let writes = queue_writes(queue);
        match head.value {
            Tree::Object(entries) => {
                let kids = children(head.path, entries);
                let next = rest + kids;
                lemma_children_plain(queue);
                lemma_plain_queue_writes(next);
                assert forall|a: int| 0 <= a < writes.len() implies exists|i: int|
                    0 <= i < queue.len() && begins(
                        (#[trigger] queue[i]).path,
                        (#[trigger] writes[a]).path,
                    ) by {
                    let n = choose|n: int|
                        0 <= n < next.len() && begins((#[trigger] next[n]).path, writes[a].path);
                    if n >= rest.len() {
                        let kid = kids[n - rest.len()];
                        assert forall|s: int| 0 <= s < head.path.len() implies
                            #[trigger] head.path[s] == writes[a].path[s] by {
                            assert(kid.path[s] == writes[a].path[s]);
                        }
                    }
                }
            },
            Tree::Array(_) => {},
            _ => {
                lemma_plain_queue_writes(rest);
            },
        }
    }
}

/// Merging the same overlay a second time changes nothing, where the
/// overlay is plain: made of objects and scalars, with no key that is an
/// append marker.
pub proof fn lemma_merge_again_changes_nothing(base: Tree, overlay: Tree)
    requires
        plain(overlay),
    ensures
        merged(merged(base, overlay), overlay) == merged(base, overlay),
{
    let root = Write { path: Seq::empty(), value: overlay };
    let queue = seq![root];
    let writes = queue_writes(queue);
    lemma_plain_queue_writes(queue);
    lemma_separate_writes_settle(base, writes);
    lemma_settled_writes_keep(apply_all(base, writes), writes);
}

/// An overlay without entries changes nothing.
pub proof fn lemma_merge_empty_overlay(base: Tree)
    ensures
        merged(base, Tree::Object(Seq::empty())) == base,
{
    let root = Write { path: Seq::empty(), value: Tree::Object(Seq::empty()) };
    let queue = seq![root];
    let next = queue.skip(1) + children(root.path, Seq::empty());
    assert(queue_writes(queue) == queue_writes(next));
}

/// The elements of the array under `key`, none where the key holds no array.
pub open spec fn items_at(entries: Entries, key: Seq<char>) -> Seq<Tree> {
    match lookup(entries, key) {
        Some(Tree::Array(items)) => items,
        _ => Seq::empty(),
    }
}

/// The overlay that binds `key` to the array of `items`, and nothing else.
pub open spec fn array_overlay(key: Seq<char>, items: Seq<Tree>) -> Tree {
    Tree::Object(seq![(key, Tree::Array(items))])
}

/// The first `n` elements of an array overlay, once written, stand behind
/// what the key held before.
proof fn lemma_appends_prefix(entries: Entries, key: Seq<char>, items: Seq<Tree>, n: int)
    requires
        1 <= n <= items.len(),
    ensures
        apply_all(Tree::Object(entries), appends(seq![key], items).take(n)) == Tree::Object(
            put(entries, key, Tree::Array(items_at(entries, key) + items.take(n))),
        ),
    decreases n,
{
    let all = appends(seq![key], items);
    let writes = all.take(n);
    let last = writes.last();
    let path = seq![key].push(marker_text((n - 1) as nat));
    assert(writes.drop_last() =~= all.take(n - 1));
    lemma_marker_text((n - 1) as nat);
    let held = items_at(entries, key);
    if n == 1 {
        let child = container_for(true, lookup(entries, key));
        assert(inserted(child, path.skip(1), last.value) == Tree::Array(held.push(items[0])));
        assert(held.push(items[0]) =~= held + items.take(1));
    } else {
        lemma_appends_prefix(entries, key, items, n - 1);
        let so_far = Tree::Array(held + items.take(n - 1));
        let before = put(entries, key, so_far);
        lemma_put_then_lookup(entries, key, so_far);
        let child = container_for(true, lookup(before, key));
        assert(inserted(child, path.skip(1), last.value) == Tree::Array(
            (held + items.take(n - 1)).push(items[n - 1]),
        ));
        assert((held + items.take(n - 1)).push(items[n - 1]) =~= held + items.take(n));
        lemma_put_twice(entries, key, so_far, Tree::Array(held + items.take(n)));
    }
}

/// An overlay that binds a key to an array appends the elements of that
/// array, in order, to what the key holds in the base: to the array that is
/// there, or to an empty one where the key held none. An empty array writes
/// nothing.
pub proof fn lemma_array_overlay_appends(entries: Entries, key: Seq<char>, items: Seq<Tree>)
    ensures
        merged(Tree::Object(entries), array_overlay(key, items)) == if items.len() == 0 {
            Tree::Object(entries)
        } else {
            Tree::Object(put(entries, key, Tree::Array(items_at(entries, key) + items)))
        },
{
    let inner = seq![(key, Tree::Array(items))];
    let root = Write { path: Seq::empty(), value: array_overlay(key, items) };
    let queue = seq![root];
    let next = queue.skip(1) + children(root.path, inner);
    assert(queue_writes(next) == appends(seq![key], items) + queue_writes(next.skip(1)));
    let writes = appends(seq![key], items);
    if items.len() > 0 {
        lemma_appends_prefix(entries, key, items, items.len() as int);
        assert(writes.take(items.len() as int) =~= writes);
        assert(items.take(items.len() as int) =~= items);
    }
}

/// Merging an array overlay a second time appends its elements a second
/// time: the array under the key grows by as many elements again, so the
/// second merge never leaves the document as the first left it.
pub proof fn lemma_merge_array_again_appends(entries: Entries, key: Seq<char>, items: Seq<Tree>)
    requires
        items.len() > 0,
    ensures
        merged(merged(Tree::Object(entries), array_overlay(key, items)), array_overlay(key, items))
            == Tree::Object(
            put(entries, key, Tree::Array(items_at(entries, key) + items + items)),
        ),
        merged(merged(Tree::Object(entries), array_overlay(key, items)), array_overlay(key, items))
            != merged(Tree::Object(entries), array_overlay(key, items)),
{
    let held = items_at(entries, key);
    let once = put(entries, key, Tree::Array(held + items));
    lemma_array_overlay_appends(entries, key, items);
    lemma_array_overlay_appends(once, key, items);
    lemma_put_then_lookup(entries, key, Tree::Array(held + items));
    lemma_put_twice(entries, key, Tree::Array(held + items), Tree::Array(held + items + items));
    lemma_put_then_lookup(entries, key, Tree::Array(held + items + items));
}

} // verus!
