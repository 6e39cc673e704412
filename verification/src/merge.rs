//! Merging an overlay into a base document: a worklist over the overlay,
//! objects breadth first and each array at once, and a write for each leaf.

use vstd::prelude::*;
use crate::document::Document;
use crate::document::Tree;
use crate::document::entries_view;
use crate::document::items_view;
use crate::document::lemma_array_view;
use crate::document::lemma_object_view;
use crate::entries::Entries;
use crate::insert::insert;
use crate::insert::inserted;
use crate::insert::lemma_insert_keeps_wf;
use crate::insert::segments;
use crate::marker::marker_for;
use crate::marker::marker_text;

verus! {

/// One pending step of a merge: a value and the path that leads to it.
pub struct Write {
    pub path: Seq<Seq<char>>,
    pub value: Tree,
}

/// The pending steps for the entries of an object reached by `path`.
pub open spec fn children(path: Seq<Seq<char>>, entries: Entries) -> Seq<Write> {
    Seq::new(entries.len(), |i: int| Write { path: path.push(entries[i].0), value: entries[i].1 })
}

/// The writes for the elements of an array reached by `path`: each element
/// whole, at the append marker of its index.
pub open spec fn appends(path: Seq<Seq<char>>, items: Seq<Tree>) -> Seq<Write> {
    Seq::new(
        items.len(),
        |j: int| Write { path: path.push(marker_text(j as nat)), value: items[j] },
    )
}

/// The sum of a sequence of numbers.
pub open spec fn sum(numbers: Seq<nat>) -> nat
    decreases numbers.len(),
{
    if numbers.len() == 0 {
        0
    } else {
        sum(numbers.drop_last()) + numbers.last()
    }
}

/// The number of worklist steps that a value stands for: one for itself and,
/// for an object, those of the values of its entries.
pub open spec fn weight(tree: Tree) -> nat
    decreases tree,
{
    match tree {
        Tree::Object(entries) => 1 + sum(entry_weights(entries)),
        _ => 1,
    }
}

/// The weights of the values of the entries of an object.
pub open spec fn entry_weights(entries: Entries) -> Seq<nat>
    decreases entries,
{
    Seq::new(
        entries.len(),
        |i: int|
            if 0 <= i < entries.len() {
                weight(entries[i].1)
            } else {
                0
            },
    )
}

/// The weights of the values of a worklist.
pub open spec fn weights(queue: Seq<Write>) -> Seq<nat> {
    Seq::new(queue.len(), |i: int| weight(queue[i].value))
}

/// The writes that a worklist leads to, in the order in which they are made.
///
/// The head of the worklist is taken. An object puts its entries at the end
/// of the worklist, in their order, and writes nothing itself. An array is
/// written at once, element by element. A scalar is written at its path.
pub open spec fn queue_writes(queue: Seq<Write>) -> Seq<Write>
    decreases sum(weights(queue)),
    via queue_writes_decreases
{
    if queue.len() == 0 {
        Seq::empty()
    } else {
        let head = queue[0];
        match head.value {
            Tree::Object(entries) => queue_writes(queue.skip(1) + children(head.path, entries)),
            Tree::Array(items) => appends(head.path, items) + queue_writes(queue.skip(1)),
            _ => seq![head] + queue_writes(queue.skip(1)),
        }
    }
}

#[via_fn]
proof fn queue_writes_decreases(queue: Seq<Write>) {
    if queue.len() > 0 {
        lemma_step_decreases(queue);
    }
}

/// The sum of a concatenation is the sum of the sums.
proof fn lemma_sum_concat(a: Seq<nat>, b: Seq<nat>)
    ensures
        sum(a + b) == sum(a) + sum(b),
    decreases b.len(),
{
    if b.len() > 0 {
        lemma_sum_concat(a, b.drop_last());
        assert((a + b).drop_last() =~= a + b.drop_last());
    }
}

/// Each step of the worklist takes weight off it.
pub proof fn lemma_step_decreases(queue: Seq<Write>)
    requires
        queue.len() > 0,
    ensures
        sum(weights(queue.skip(1))) < sum(weights(queue)),
        queue[0].value matches Tree::Object(entries) ==> sum(
            weights(queue.skip(1) + children(queue[0].path, entries)),
        ) < sum(weights(queue)),
{
    let head = queue[0];
    let rest = queue.skip(1);
    assert(weights(queue) =~= seq![weight(head.value)] + weights(rest));
    lemma_sum_concat(seq![weight(head.value)], weights(rest));
    if let Tree::Object(entries) = head.value {
        let kids = children(head.path, entries);
        assert(weights(rest + kids) =~= weights(rest) + weights(kids));
        lemma_sum_concat(weights(rest), weights(kids));
        assert(weights(kids) =~= entry_weights(entries));
    }
}

/// `tree` after each of `writes` is made, first to last.
pub open spec fn apply_all(tree: Tree, writes: Seq<Write>) -> Tree
    decreases writes.len(),
{
    if writes.len() == 0 {
        tree
    } else {
        inserted(apply_all(tree, writes.drop_last()), writes.last().path, writes.last().value)
    }
}

/// `base` after `overlay` is merged into it: every write that the worklist
/// of the overlay leads to, made in order.
pub open spec fn merged(base: Tree, overlay: Tree) -> Tree {
    apply_all(base, queue_writes(seq![Write { path: Seq::empty(), value: overlay }]))
}

/// Making the writes of a concatenation is making those of its first part
/// and then those of its second.
pub proof fn lemma_apply_concat(tree: Tree, first: Seq<Write>, second: Seq<Write>)
    ensures
        apply_all(tree, first + second) == apply_all(apply_all(tree, first), second),
    decreases second.len(),
{
    if second.len() > 0 {
        lemma_apply_concat(tree, first, second.drop_last());
        assert((first + second).drop_last() =~= first + second.drop_last());
    }
}

/// The values of the writes are well formed.
pub open spec fn wf_values(writes: Seq<Write>) -> bool {
    forall|i: int| 0 <= i < writes.len() ==> (#[trigger] writes[i]).value.wf()
}

/// Writes of well-formed values leave a well-formed document well formed.
pub proof fn lemma_writes_keep_wf(tree: Tree, writes: Seq<Write>)
    requires
        tree.wf(),
        wf_values(writes),
    ensures
        apply_all(tree, writes).wf(),
    decreases writes.len(),
{
    if writes.len() > 0 {
        let earlier = writes.drop_last();
        lemma_writes_keep_wf(tree, earlier);
        lemma_insert_keeps_wf(apply_all(tree, earlier), writes.last().path, writes.last().value);
    }
}

/// A worklist of well-formed values leads to writes of well-formed values.
pub proof fn lemma_queue_writes_wf(queue: Seq<Write>)
    requires
        wf_values(queue),
    ensures
        wf_values(queue_writes(queue)),
    decreases sum(weights(queue)),
{
    if queue.len() > 0 {
        lemma_step_decreases(queue);
        let head = queue[0];
        let rest = queue.skip(1);
        match head.value {
            Tree::Object(entries) => {
                lemma_queue_writes_wf(rest + children(head.path, entries));
            },
            _ => {
                lemma_queue_writes_wf(rest);
            },
        }
    }
}

/// A merge of well-formed documents is well formed.
pub proof fn lemma_merge_keeps_wf(base: Tree, overlay: Tree)
    requires
        base.wf(),
        overlay.wf(),
    ensures
        merged(base, overlay).wf(),
{
    let queue = seq![Write { path: Seq::empty(), value: overlay }];
    lemma_queue_writes_wf(queue);
    lemma_writes_keep_wf(base, queue_writes(queue));
}

/// One item of the worklist of a merge: a value of the overlay and the path
/// that leads to it.
pub struct WorkItem {
    pub path: Vec<String>,
    pub value: Document,
}

/// The mathematical value of a worklist item.
pub open spec fn item_view(item: WorkItem) -> Write {
    Write { path: segments(item.path@), value: item.value@ }
}

/// The mathematical value of a worklist.
pub open spec fn queue_view(items: Seq<WorkItem>) -> Seq<Write> {
    Seq::new(items.len(), |i: int| item_view(items[i]))
}

/// A copy of a path.
fn copy_path(path: &Vec<String>) -> (copy: Vec<String>)
    ensures
        copy@ == path@,
{
    let mut copy: Vec<String> = Vec::new();
    let mut i: usize = 0;
    while i < path.len()
        invariant
            i <= path.len(),
            copy@ == path@.take(i as int),
        decreases path.len() - i,
    {
        copy.push(path[i].clone());
        i += 1;
    }
    copy
}

/// `path` with one more segment.
fn extended(path: &Vec<String>, segment: String) -> (longer: Vec<String>)
    ensures
        segments(longer@) == segments(path@).push(segment@),
{
    let mut longer = copy_path(path);
    longer.push(segment);
    longer
}

/// The worklist items for the entries of an object reached by `path`.
fn object_steps(path: &Vec<String>, entries: &Vec<(String, Document)>) -> (steps: Vec<WorkItem>)
    ensures
        queue_view(steps@) == children(segments(path@), entries_view(entries@)),
{
    let mut steps: Vec<WorkItem> = Vec::new();
    let mut i: usize = 0;
    while i < entries.len()
        invariant
            i <= entries.len(),
            queue_view(steps@) == children(segments(path@), entries_view(entries@)).take(i as int),
        decreases entries.len() - i,
    {
        let ghost done = steps@;
        let step = WorkItem { path: extended(path, entries[i].0.clone()), value: entries[i].1.clone() };
        steps.push(step);
        assert(queue_view(steps@) =~= queue_view(done).push(item_view(step)));
        i += 1;
    }
    steps
}

/// Writes the elements of an array reached by `path`, each at the append
/// marker of its index.
fn write_array(doc: &mut Document, path: &Vec<String>, items: &Vec<Document>)
    ensures
        final(doc)@ == apply_all(old(doc)@, appends(segments(path@), items_view(items@))),
{
    let ghost all = appends(segments(path@), items_view(items@));
    let mut j: usize = 0;
    while j < items.len()
        invariant
            j <= items.len(),
            all == appends(segments(path@), items_view(items@)),
            doc@ == apply_all(old(doc)@, all.take(j as int)),
        decreases items.len() - j,
    {
        let target = extended(path, marker_for(j));
        insert(doc, target, items[j].clone());
        assert(all.take(j + 1).drop_last() =~= all.take(j as int));
        j += 1;
    }
    assert(all.take(items.len() as int) =~= all);
}

/// Merges `overlay` into `base`: every leaf of the overlay is written at its
/// path in the base, objects breadth first and each array at once. Unique
/// keys stay unique.
pub fn merge(base: &mut Document, overlay: Document)
    ensures
        final(base)@ == merged(old(base)@, overlay@),
        old(base)@.wf() && overlay@.wf() ==> final(base)@.wf(),
{
    broadcast use lemma_array_view, lemma_object_view;

    let ghost goal = merged(base@, overlay@);
    proof {
        if base@.wf() && overlay@.wf() {
            lemma_merge_keeps_wf(base@, overlay@);
        }
    }
    let mut stack: Vec<WorkItem> = Vec::new();
    stack.push(WorkItem { path: Vec::new(), value: overlay });
    assert(queue_view(stack@).skip(0) =~= seq![Write { path: Seq::empty(), value: overlay@ }]) by {
        assert(segments(Seq::<String>::empty()) =~= Seq::<Seq<char>>::empty());
    }
    let mut i: usize = 0;
    while i < stack.len()
        invariant
            i <= stack.len(),
            apply_all(base@, queue_writes(queue_view(stack@).skip(i as int))) == goal,
        decreases sum(weights(queue_view(stack@).skip(i as int))),
    {
        let ghost queue = queue_view(stack@).skip(i as int);
        let ghost before = base@;
        proof {
            lemma_step_decreases(queue);
        }
        let mut more: Vec<WorkItem> = Vec::new();
        match &stack[i].value {
            Document::Object(entries) => {
                more = object_steps(&stack[i].path, entries);
                proof {
                    lemma_object_view(*entries);
                }
            },
            Document::Array(items) => {
                write_array(base, &stack[i].path, items);
                proof {
                    lemma_array_view(*items);
                    lemma_apply_concat(
                        before,
                        appends(queue[0].path, items_view(items@)),
                        queue_writes(queue.skip(1)),
                    );
                }
            },
            _ => {
                insert(base, copy_path(&stack[i].path), stack[i].value.clone());
                proof {
                    lemma_apply_concat(before, seq![queue[0]], queue_writes(queue.skip(1)));
                    assert(apply_all(before, seq![queue[0]]) == inserted(
                        before,
                        queue[0].path,
                        queue[0].value,
                    )) by {
                        reveal_with_fuel(apply_all, 2);
                    }
                }
            },
        }
        let ghost grown = more@;
        stack.append(&mut more);
        assert(queue_view(stack@).skip(i + 1) =~= queue.skip(1) + queue_view(grown));
        i += 1;
    }
}

} // verus!
