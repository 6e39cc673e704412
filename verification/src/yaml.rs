//! The nodes of the structured-markup format, and the conversion between
//! them and the canonical document.

use vstd::prelude::*;
use crate::codec::number_text;
use crate::codec::real_number_text;
use crate::document::Document;
use crate::document::Tree;
use crate::document::entries_view;
use crate::document::items_view;
use crate::document::lemma_array_view;
use crate::document::lemma_object_view;
use crate::error::ParseError;
use crate::error::ParseFault;
use crate::entries::lemma_put_keeps_wf;
use crate::yaml_laws::faithful;
use crate::yaml_laws::lemma_node_round_trip;
use crate::entries::put;
use crate::entries::put_entry;

verus! {

/// A node of a markup document.
///
/// A `Real` holds the text of a number as it was written. An `Alias` and a
/// `BadValue` stand for what the canonical document cannot express.
#[derive(Debug, PartialEq, Eq)]
pub enum YamlNode {
    Real(String),
    Integer(i64),
    String(String),
    Boolean(bool),
    Array(Vec<YamlNode>),
    Hash(Vec<(YamlNode, YamlNode)>),
    Alias(usize),
    Null,
    BadValue,
}

/// The mathematical value of a [`YamlNode`].
pub enum YamlTree {
    Real(Seq<char>),
    Integer(int),
    Text(Seq<char>),
    Boolean(bool),
    Array(Seq<YamlTree>),
    Hash(Seq<(YamlTree, YamlTree)>),
    Alias(nat),
    Null,
    BadValue,
}

/// The mathematical value of `node`.
pub open spec fn yaml_tree_of(node: YamlNode) -> YamlTree
    decreases node,
{
    match node {
        YamlNode::Real(text) => YamlTree::Real(text@),
        YamlNode::Integer(i) => YamlTree::Integer(i as int),
        YamlNode::String(text) => YamlTree::Text(text@),
        YamlNode::Boolean(b) => YamlTree::Boolean(b),
        YamlNode::Array(items) => YamlTree::Array(
            Seq::new(
                items@.len(),
                |i: int|
                    if 0 <= i < items@.len() {
                        yaml_tree_of(items@[i])
                    } else {
                        YamlTree::Null
                    },
            ),
        ),
        YamlNode::Hash(pairs) => YamlTree::Hash(
            Seq::new(
                pairs@.len(),
                |i: int|
                    if 0 <= i < pairs@.len() {
                        (yaml_tree_of(pairs@[i].0), yaml_tree_of(pairs@[i].1))
                    } else {
                        (YamlTree::Null, YamlTree::Null)
                    },
            ),
        ),
        YamlNode::Alias(id) => YamlTree::Alias(id as nat),
        YamlNode::Null => YamlTree::Null,
        YamlNode::BadValue => YamlTree::BadValue,
    }
}

impl View for YamlNode {
    type V = YamlTree;

    open spec fn view(&self) -> YamlTree {
        yaml_tree_of(*self)
    }
}

/// The mathematical values of a list of nodes.
pub open spec fn nodes_view(nodes: Seq<YamlNode>) -> Seq<YamlTree> {
    Seq::new(nodes.len(), |i: int| nodes[i]@)
}

/// The mathematical values of the pairs of a hash.
pub open spec fn pairs_view(pairs: Seq<(YamlNode, YamlNode)>) -> Seq<(YamlTree, YamlTree)> {
    Seq::new(pairs.len(), |i: int| (pairs[i].0@, pairs[i].1@))
}

/// The value of an array node is the sequence of the values of its items.
pub broadcast proof fn lemma_yaml_array_view(items: Vec<YamlNode>)
    ensures
        #[trigger] YamlNode::Array(items)@ == YamlTree::Array(nodes_view(items@)),
{
    assert(YamlNode::Array(items)@->Array_0 =~= nodes_view(items@));
}

/// The value of a hash node is the sequence of the values of its pairs.
pub broadcast proof fn lemma_yaml_hash_view(pairs: Vec<(YamlNode, YamlNode)>)
    ensures
        #[trigger] YamlNode::Hash(pairs)@ == YamlTree::Hash(pairs_view(pairs@)),
{
    assert(YamlNode::Hash(pairs)@->Hash_0 =~= pairs_view(pairs@));
}

/// A markup node, where a conversion is asked for.
#[derive(Debug, PartialEq, Eq)]
pub struct YamlType(pub YamlNode);

/// A canonical document, where a conversion is asked for.
#[derive(Debug, PartialEq, Eq)]
pub struct JsonType(pub Document);

/// The markup node that stands for a document.
///
/// Scalars keep their kind, and a float is the real of the same text. The
/// key of an object entry becomes a string node of the same text.
pub open spec fn yaml_of(tree: Tree) -> YamlTree
    decreases tree,
{
    match tree {
        Tree::Null => YamlTree::Null,
        Tree::Bool(b) => YamlTree::Boolean(b),
        Tree::Integer(i) => YamlTree::Integer(i),
        Tree::Float(text) => YamlTree::Real(text),
        Tree::Text(text) => YamlTree::Text(text),
        Tree::Array(items) => YamlTree::Array(
            Seq::new(
                items.len(),
                |i: int|
                    if 0 <= i < items.len() {
                        yaml_of(items[i])
                    } else {
                        YamlTree::Null
                    },
            ),
        ),
        Tree::Object(entries) => YamlTree::Hash(
            Seq::new(
                entries.len(),
                |i: int|
                    if 0 <= i < entries.len() {
                        (YamlTree::Text(entries[i].0), yaml_of(entries[i].1))
                    } else {
                        (YamlTree::Null, YamlTree::Null)
                    },
            ),
        ),
    }
}

/// The document that a markup node stands for.
///
/// Scalars keep their kind. A real becomes a float of the text that prints
/// its number, and is an error where it has no finite value. An alias and a
/// bad value become null. Of a hash, the pairs whose key is a string are
/// kept, a later pair replacing an earlier one of the same key.
pub open spec fn document_of(node: YamlTree) -> Result<Tree, ParseFault>
    decreases node, 0nat,
{
    match node {
        YamlTree::Null => Ok(Tree::Null),
        YamlTree::Text(text) => Ok(Tree::Text(text)),
        YamlTree::Boolean(b) => Ok(Tree::Bool(b)),
        YamlTree::Integer(i) => Ok(Tree::Integer(i)),
        YamlTree::Real(text) => match real_number_text(text) {
            Some(printed) => Ok(Tree::Float(printed)),
            None => Err(ParseFault::Number(text)),
        },
        YamlTree::Array(items) => match items_of(items, items.len()) {
            Ok(converted) => Ok(Tree::Array(converted)),
            Err(fault) => Err(fault),
        },
        YamlTree::Hash(pairs) => match entries_of(pairs, pairs.len()) {
            Ok(converted) => Ok(Tree::Object(converted)),
            Err(fault) => Err(fault),
        },
        YamlTree::Alias(_) => Ok(Tree::Null),
        YamlTree::BadValue => Ok(Tree::Null),
    }
}

/// The documents of the first `n` of `nodes`, or the first error among them.
pub open spec fn items_of(nodes: Seq<YamlTree>, n: nat) -> Result<Seq<Tree>, ParseFault>
    decreases nodes, n,
{
    if n == 0 || n > nodes.len() {
        Ok(Seq::empty())
    } else {
        match items_of(nodes, (n - 1) as nat) {
            Err(fault) => Err(fault),
            Ok(done) => match document_of(nodes[n - 1]) {
                Err(fault) => Err(fault),
                Ok(tree) => Ok(done.push(tree)),
            },
        }
    }
}

/// The object entries of the first `n` of `pairs`, or the first error among
/// the values of those whose key is a string.
pub open spec fn entries_of(pairs: Seq<(YamlTree, YamlTree)>, n: nat) -> Result<
    Seq<(Seq<char>, Tree)>,
    ParseFault,
>
    decreases pairs, n,
{
    if n == 0 || n > pairs.len() {
        Ok(Seq::empty())
    } else {
        match entries_of(pairs, (n - 1) as nat) {
            Err(fault) => Err(fault),
            Ok(done) => match pairs[n - 1].0 {
                YamlTree::Text(key) => match document_of(pairs[n - 1].1) {
                    Err(fault) => Err(fault),
                    Ok(tree) => Ok(put(done, key, tree)),
                },
                _ => Ok(done),
            },
        }
    }
}

/// An error among the first nodes is the error of all of them.
proof fn lemma_items_error(nodes: Seq<YamlTree>, k: nat, n: nat)
    requires
        k <= n <= nodes.len(),
        items_of(nodes, k) is Err,
    ensures
        items_of(nodes, n) == items_of(nodes, k),
    decreases n - k,
{
    if k < n {
        lemma_items_error(nodes, k, (n - 1) as nat);
    }
}

/// An error among the first pairs is the error of all of them.
proof fn lemma_entries_error(pairs: Seq<(YamlTree, YamlTree)>, k: nat, n: nat)
    requires
        k <= n <= pairs.len(),
        entries_of(pairs, k) is Err,
    ensures
        entries_of(pairs, n) == entries_of(pairs, k),
    decreases n - k,
{
    if k < n {
        lemma_entries_error(pairs, k, (n - 1) as nat);
    }
}

/// Every document that a node stands for has unique keys.
pub proof fn lemma_document_of_wf(node: YamlTree)
    ensures
        document_of(node) matches Ok(tree) ==> tree.wf(),
    decreases node, 0nat,
{
    match node {
        YamlTree::Array(items) => {
            lemma_items_of_wf(items, items.len());
        },
        YamlTree::Hash(pairs) => {
            lemma_entries_of_wf(pairs, pairs.len());
        },
        _ => {},
    }
}

/// The documents of the first nodes have unique keys.
proof fn lemma_items_of_wf(nodes: Seq<YamlTree>, n: nat)
    ensures
        items_of(nodes, n) matches Ok(items) ==> Tree::Array(items).wf(),
    decreases nodes, n,
{
    if n != 0 && n <= nodes.len() {
        lemma_items_of_wf(nodes, (n - 1) as nat);
        lemma_document_of_wf(nodes[n - 1]);
        if let Ok(done) = items_of(nodes, (n - 1) as nat) {
            assert(Tree::Array(done)->Array_0 == done);
        }
    }
}

/// The entries of the first pairs have unique keys, among them and within.
proof fn lemma_entries_of_wf(pairs: Seq<(YamlTree, YamlTree)>, n: nat)
    ensures
        entries_of(pairs, n) matches Ok(entries) ==> Tree::Object(entries).wf(),
    decreases pairs, n,
{
    if n != 0 && n <= pairs.len() {
        lemma_entries_of_wf(pairs, (n - 1) as nat);
        lemma_document_of_wf(pairs[n - 1].1);
        if let Ok(done) = entries_of(pairs, (n - 1) as nat) {
            if let YamlTree::Text(key) = pairs[n - 1].0 {
                if let Ok(tree) = document_of(pairs[n - 1].1) {
                    lemma_put_keeps_wf(done, key, tree);
                }
            }
        }
    }
}

/// What a conversion returned, as the mathematical result that it stands for.
pub open spec fn converted(result: Result<Document, ParseError>) -> Result<Tree, ParseFault> {
    match result {
        Ok(document) => Ok(document@),
        Err(error) => Err(error@),
    }
}

/// The document that a markup node stands for. Its keys are unique.
pub fn document_of_node(node: &YamlNode) -> (result: Result<Document, ParseError>)
    ensures
        converted(result) == document_of(node@),
        result matches Ok(document) ==> document@.wf(),
    decreases node,
{
    broadcast use lemma_array_view, lemma_object_view, lemma_yaml_array_view, lemma_yaml_hash_view;

    proof {
        lemma_document_of_wf(node@);
    }

    match node {
        YamlNode::Null => Ok(Document::Null),
        YamlNode::String(text) => Ok(Document::String(text.clone())),
        YamlNode::Boolean(b) => Ok(Document::Bool(*b)),
        YamlNode::Integer(i) => Ok(Document::Integer(*i)),
        YamlNode::Real(text) => match number_text(text.as_str()) {
            Some(printed) => Ok(Document::Float(printed)),
            None => Err(ParseError::Number(text.clone())),
        },
        YamlNode::Array(items) => {
            let ghost nodes = nodes_view(items@);
            let mut done: Vec<Document> = Vec::new();
            let mut i: usize = 0;
            assert(items_view(done@) =~= Seq::<Tree>::empty());
            while i < items.len()
                invariant
                    i <= items.len(),
                    *node == YamlNode::Array(*items),
                    nodes == nodes_view(items@),
                    items_of(nodes, i as nat) == Ok::<Seq<Tree>, ParseFault>(items_view(done@)),
                decreases items.len() - i,
            {
                let ghost before = items_view(done@);
                match document_of_node(&items[i]) {
                    Ok(document) => {
                        done.push(document);
                        assert(items_view(done@) =~= before.push(document@));
                    },
                    Err(error) => {
                        proof {
                            lemma_items_error(nodes, (i + 1) as nat, items.len() as nat);
                            lemma_yaml_array_view(*items);
                        }
                        return Err(error);
                    },
                }
                i += 1;
            }
            Ok(Document::Array(done))
        },
        YamlNode::Hash(pairs) => {
            let ghost all = pairs_view(pairs@);
            let mut done: Vec<(String, Document)> = Vec::new();
            let mut i: usize = 0;
            assert(entries_view(done@) =~= Seq::<(Seq<char>, Tree)>::empty());
            while i < pairs.len()
                invariant
                    i <= pairs.len(),
                    *node == YamlNode::Hash(*pairs),
                    all == pairs_view(pairs@),
                    entries_of(all, i as nat) == Ok::<Seq<(Seq<char>, Tree)>, ParseFault>(
                        entries_view(done@),
                    ),
                decreases pairs.len() - i,
            {
                if let YamlNode::String(key) = &pairs[i].0 {
                    match document_of_node(&pairs[i].1) {
                        Ok(document) => {
                            put_entry(&mut done, key.clone(), document);
                        },
                        Err(error) => {
                            proof {
                                lemma_entries_error(all, (i + 1) as nat, pairs.len() as nat);
                                lemma_yaml_hash_view(*pairs);
                            }
                            return Err(error);
                        },
                    }
                }
                i += 1;
            }
            Ok(Document::Object(done))
        },
        YamlNode::Alias(_) => Ok(Document::Null),
        YamlNode::BadValue => Ok(Document::Null),
    }
}

/// The markup node that stands for a document.
pub fn node_of_document(document: &Document) -> (node: YamlNode)
    ensures
        node@ == yaml_of(document@),
    decreases document,
{
    broadcast use lemma_array_view, lemma_object_view, lemma_yaml_array_view, lemma_yaml_hash_view;

    match document {
        Document::Null => YamlNode::Null,
        Document::Bool(b) => YamlNode::Boolean(*b),
        Document::Integer(i) => YamlNode::Integer(*i),
        Document::Float(text) => YamlNode::Real(text.clone()),
        Document::String(text) => YamlNode::String(text.clone()),
        Document::Array(items) => {
            let mut nodes: Vec<YamlNode> = Vec::new();
            let mut i: usize = 0;
            while i < items.len()
                invariant
                    i <= items.len(),
                    nodes.len() == i,
                    *document == Document::Array(*items),
                    forall|j: int| 0 <= j < i ==> (#[trigger] nodes[j])@ == yaml_of(items[j]@),
                decreases items.len() - i,
            {
                assert(decreases_to!(*document => document->Array_0@[i as int]));
                nodes.push(node_of_document(&items[i]));
                i += 1;
            }
            assert(nodes_view(nodes@) =~= yaml_of(document@)->Array_0);
            YamlNode::Array(nodes)
        },
        Document::Object(entries) => {
            let mut pairs: Vec<(YamlNode, YamlNode)> = Vec::new();
            let mut i: usize = 0;
            while i < entries.len()
                invariant
                    i <= entries.len(),
                    pairs.len() == i,
                    *document == Document::Object(*entries),
                    forall|j: int|
                        0 <= j < i ==> (#[trigger] pairs[j]).0@ == YamlTree::Text(entries[j].0@)
                            && pairs[j].1@ == yaml_of(entries[j].1@),
                decreases entries.len() - i,
            {
                assert(decreases_to!(*document => document->Object_0@[i as int].1));
                let key = YamlNode::String(entries[i].0.clone());
                pairs.push((key, node_of_document(&entries[i].1)));
                i += 1;
            }
            assert(pairs_view(pairs@) =~= yaml_of(document@)->Hash_0);
            YamlNode::Hash(pairs)
        },
    }
}

/// Whether every number of the document is written as it prints.
pub fn is_faithful(document: &Document) -> (faith: bool)
    ensures
        faith == faithful(document@),
    decreases document,
{
    broadcast use lemma_array_view, lemma_object_view;

    match document {
        Document::Float(text) => match number_text(text.as_str()) {
            Some(printed) => printed == *text,
            None => false,
        },
        Document::Array(items) => {
            let mut i: usize = 0;
            while i < items.len()
                invariant
                    i <= items.len(),
                    *document == Document::Array(*items),
                    forall|j: int| 0 <= j < i ==> faithful(#[trigger] items_view(items@)[j]),
                decreases items.len() - i,
            {
                assert(decreases_to!(*document => document->Array_0@[i as int]));
                if !is_faithful(&items[i]) {
                    proof {
                        lemma_array_view(*items);
                        let whole = items_view(items@);
                        assert(Tree::Array(whole)->Array_0 == whole);
                        assert(!faithful(whole[i as int]));
                    }
                    return false;
                }
                i += 1;
            }
            true
        },
        Document::Object(entries) => {
            let mut i: usize = 0;
            while i < entries.len()
                invariant
                    i <= entries.len(),
                    *document == Document::Object(*entries),
                    forall|j: int| 0 <= j < i ==> faithful((#[trigger] entries_view(entries@)[j]).1),
                decreases entries.len() - i,
            {
                assert(decreases_to!(*document => document->Object_0@[i as int].1));
                if !is_faithful(&entries[i].1) {
                    proof {
                        lemma_object_view(*entries);
                        let whole = entries_view(entries@);
                        assert(Tree::Object(whole)->Object_0 == whole);
                        assert(!faithful(whole[i as int].1));
                    }
                    return false;
                }
                i += 1;
            }
            true
        },
        _ => true,
    }
}

/// Whether the document is sure to come back from its markup node as it
/// is: its keys are unique and its numbers are written as they print.
pub fn comes_back(document: &Document) -> (sure: bool)
    ensures
        sure == (document@.wf() && faithful(document@)),
        sure ==> document_of(yaml_of(document@)) == Ok::<Tree, ParseFault>(document@),
{
    let sure = document.is_well_formed() && is_faithful(document);
    proof {
        if sure {
            lemma_node_round_trip(document@);
        }
    }
    sure
}

impl JsonType {
    /// The document that a markup node stands for.
    pub fn from(value: YamlType) -> (result: Result<JsonType, ParseError>)
        ensures
            match result {
                Ok(json) => document_of(value.0@) == Ok::<Tree, ParseFault>(json.0@) && json.0@.wf(),
                Err(error) => document_of(value.0@) == Err::<Tree, ParseFault>(error@),
            },
    {
        match document_of_node(&value.0) {
            Ok(document) => Ok(JsonType(document)),
            Err(error) => Err(error),
        }
    }
}

impl YamlType {
    /// The markup node that stands for a document.
    pub fn from(value: JsonType) -> (yaml: YamlType)
        ensures
            yaml.0@ == yaml_of(value.0@),
    {
        YamlType(node_of_document(&value.0))
    }
}

} // verus!
