//! What holds of the conversion between documents and markup nodes: a
//! document whose numbers are written as they print comes back from its
//! node unchanged.

use vstd::prelude::*;
use crate::codec::real_number_text;
use crate::document::Tree;
use crate::entries::Entries;
use crate::entries::key_index;
use crate::entries::lemma_key_index;
use crate::entries::put;
use crate::error::ParseFault;
use crate::yaml::document_of;
use crate::yaml::entries_of;
use crate::yaml::items_of;
use crate::yaml::yaml_of;

verus! {

/// Every number of the document is written as it prints: the text of each
/// float is the text that prints its number.
pub open spec fn faithful(tree: Tree) -> bool
    decreases tree,
{
    match tree {
        Tree::Float(text) => real_number_text(text) == Some(text),
        Tree::Array(items) => forall|i: int|
            0 <= i < items.len() ==> faithful(#[trigger] items[i]),
        Tree::Object(entries) => forall|i: int|
            0 <= i < entries.len() ==> faithful((#[trigger] entries[i]).1),
        _ => true,
    }
}

/// A well-formed and faithful document is the document of its own node.
pub proof fn lemma_node_round_trip(tree: Tree)
    requires
        tree.wf(),
        faithful(tree),
    ensures
        document_of(yaml_of(tree)) == Ok::<Tree, ParseFault>(tree),
    decreases tree, 0nat,
{
    match tree {
        Tree::Array(items) => {
            lemma_items_round_trip(items, items.len());
            assert(items.take(items.len() as int) =~= items);
        },
        Tree::Object(entries) => {
            lemma_entries_round_trip(entries, entries.len());
            assert(entries.take(entries.len() as int) =~= entries);
        },
        _ => {},
    }
}

/// The first items of a faithful array come back from their nodes.
proof fn lemma_items_round_trip(items: Seq<Tree>, n: nat)
    requires
        Tree::Array(items).wf(),
        faithful(Tree::Array(items)),
        n <= items.len(),
    ensures
        items_of(yaml_of(Tree::Array(items))->Array_0, n) == Ok::<Seq<Tree>, ParseFault>(
            items.take(n as int),
        ),
    decreases items, n,
{
    if n == 0 {
        assert(items.take(0) =~= Seq::<Tree>::empty());
    } else {
        lemma_items_round_trip(items, (n - 1) as nat);
        lemma_node_round_trip(items[n - 1]);
        assert(items.take(n - 1).push(items[n - 1]) =~= items.take(n as int));
    }
}

/// The first entries of a faithful object come back from their pairs.
proof fn lemma_entries_round_trip(entries: Entries, n: nat)
    requires
        Tree::Object(entries).wf(),
        faithful(Tree::Object(entries)),
        n <= entries.len(),
    ensures
        entries_of(yaml_of(Tree::Object(entries))->Hash_0, n) == Ok::<Entries, ParseFault>(
            entries.take(n as int),
        ),
    decreases entries, n,
{
    if n == 0 {
        assert(entries.take(0) =~= Seq::<(Seq<char>, Tree)>::empty());
    } else {
        lemma_entries_round_trip(entries, (n - 1) as nat);
        let entry = entries[n - 1];
        lemma_node_round_trip(entry.1);
        let done = entries.take(n - 1);
        lemma_key_index(done, entry.0);
        assert(put(done, entry.0, entry.1) =~= entries.take(n as int));
    }
}

} // verus!
