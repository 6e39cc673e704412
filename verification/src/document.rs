//! The canonical document: a tree of scalars, arrays and objects, together
//! with the mathematical value that every contract in this crate speaks of.

use vstd::prelude::*;

verus! {

/// A semi-structured value, as both supported text formats describe it.
///
/// A `Float` holds the decimal text of a number that is no 64-bit signed
/// integer. An `Object` lists its entries in insertion order.
#[derive(Debug, PartialEq, Eq)]
pub enum Document {
    Null,
    Bool(bool),
    Integer(i64),
    Float(String),
    String(String),
    Array(Vec<Document>),
    Object(Vec<(String, Document)>),
}

/// The mathematical value of a [`Document`].
pub enum Tree {
    Null,
    Bool(bool),
    Integer(int),
    Float(Seq<char>),
    Text(Seq<char>),
    Array(Seq<Tree>),
    Object(Seq<(Seq<char>, Tree)>),
}

/// No two entries have the same key.
pub open spec fn distinct_keys(entries: Seq<(Seq<char>, Tree)>) -> bool {
    forall|i: int, j: int|
        0 <= i < j < entries.len() ==> (#[trigger] entries[i]).0 != (#[trigger] entries[j]).0
}

impl Tree {
    /// The keys of every object in the tree are unique.
    pub open spec fn wf(self) -> bool
        decreases self,
    {
        match self {
            Tree::Array(items) => forall|i: int| 0 <= i < items.len() ==> (#[trigger] items[i]).wf(),
            Tree::Object(entries) => {
                &&& distinct_keys(entries)
                &&& forall|i: int| 0 <= i < entries.len() ==> (#[trigger] entries[i]).1.wf()
            },
            _ => true,
        }
    }
}

/// The mathematical value of `doc`.
pub open spec fn tree_of(doc: Document) -> Tree
    decreases doc,
{
    match doc {
        Document::Null => Tree::Null,
        Document::Bool(b) => Tree::Bool(b),
        Document::Integer(i) => Tree::Integer(i as int),
        Document::Float(text) => Tree::Float(text@),
        Document::String(text) => Tree::Text(text@),
        Document::Array(items) => Tree::Array(
            Seq::new(
                items@.len(),
                |i: int|
                    if 0 <= i < items@.len() {
                        tree_of(items@[i])
                    } else {
                        Tree::Null
                    },
            ),
        ),
        Document::Object(entries) => Tree::Object(
            Seq::new(
                entries@.len(),
                |i: int|
                    if 0 <= i < entries@.len() {
                        (entries@[i].0@, tree_of(entries@[i].1))
                    } else {
                        (Seq::empty(), Tree::Null)
                    },
            ),
        ),
    }
}

impl View for Document {
    type V = Tree;

    open spec fn view(&self) -> Tree {
        tree_of(*self)
    }
}

/// The mathematical values of the items of an array.
pub open spec fn items_view(items: Seq<Document>) -> Seq<Tree> {
    Seq::new(items.len(), |i: int| items[i]@)
}

/// The mathematical value of the entries of an object.
pub open spec fn entries_view(entries: Seq<(String, Document)>) -> Seq<(Seq<char>, Tree)> {
    Seq::new(entries.len(), |i: int| (entries[i].0@, entries[i].1@))
}

/// The value of an array is the sequence of the values of its items.
pub broadcast proof fn lemma_array_view(items: Vec<Document>)
    ensures
        #[trigger] Document::Array(items)@ == Tree::Array(items_view(items@)),
{
    assert(Document::Array(items)@->Array_0 =~= items_view(items@));
}

/// The value of an object is the sequence of its keys, each with the value
/// of what it is bound to.
pub broadcast proof fn lemma_object_view(entries: Vec<(String, Document)>)
    ensures
        #[trigger] Document::Object(entries)@ == Tree::Object(entries_view(entries@)),
{
    assert(Document::Object(entries)@->Object_0 =~= entries_view(entries@));
}

impl Document {
    /// A copy of this document: another value with the same contents.
    pub fn duplicate(&self) -> (copy: Document)
        ensures
            copy@ == self@,
        decreases self,
    {
        broadcast use lemma_array_view, lemma_object_view;

        match self {
            Document::Null => Document::Null,
            Document::Bool(b) => Document::Bool(*b),
            Document::Integer(i) => Document::Integer(*i),
            Document::Float(text) => Document::Float(text.clone()),
            Document::String(text) => Document::String(text.clone()),
            Document::Array(items) => {
                let mut copies: Vec<Document> = Vec::new();
                let mut i: usize = 0;
                while i < items.len()
                    invariant
                        i <= items.len(),
                        copies.len() == i,
                        *self == Document::Array(*items),
                        forall|j: int| 0 <= j < i ==> (#[trigger] copies[j])@ == items[j]@,
                    decreases items.len() - i,
                {
                    assert(decreases_to!(*self => self->Array_0@[i as int]));
                    copies.push(items[i].duplicate());
                    i += 1;
                }
                assert(items_view(copies@) =~= items_view(items@));
                Document::Array(copies)
            },
            Document::Object(entries) => {
                let mut copies: Vec<(String, Document)> = Vec::new();
                let mut i: usize = 0;
                while i < entries.len()
                    invariant
                        i <= entries.len(),
                        copies.len() == i,
                        *self == Document::Object(*entries),
                        forall|j: int|
                            0 <= j < i ==> (#[trigger] copies[j]).0@ == entries[j].0@ && copies[j].1@
                                == entries[j].1@,
                    decreases entries.len() - i,
                {
                    assert(decreases_to!(*self => self->Object_0@[i as int].1));
                    copies.push((entries[i].0.clone(), entries[i].1.duplicate()));
                    i += 1;
                }
                assert(entries_view(copies@) =~= entries_view(entries@));
                Document::Object(copies)
            },
        }
    }

    /// Whether the keys of every object in the document are unique.
    pub fn is_well_formed(&self) -> (well: bool)
        ensures
            well == self@.wf(),
        decreases self,
    {
        broadcast use lemma_array_view, lemma_object_view;

        match self {
            Document::Array(items) => {
                let mut i: usize = 0;
                while i < items.len()
                    invariant
                        i <= items.len(),
                        *self == Document::Array(*items),
                        forall|j: int| 0 <= j < i ==> (#[trigger] items_view(items@)[j]).wf(),
                    decreases items.len() - i,
                {
                    assert(decreases_to!(*self => self->Array_0@[i as int]));
                    if !items[i].is_well_formed() {
                        proof {
                            lemma_array_view(*items);
                            let whole = items_view(items@);
                            assert(Tree::Array(whole)->Array_0 == whole);
                            assert(!whole[i as int].wf());
                        }
                        return false;
                    }
                    i += 1;
                }
                true
            },
            Document::Object(entries) => {
                if !crate::entries::keys_distinct(entries) {
                    return false;
                }
                let mut i: usize = 0;
                while i < entries.len()
                    invariant
                        i <= entries.len(),
                        *self == Document::Object(*entries),
                        distinct_keys(entries_view(entries@)),
                        forall|j: int| 0 <= j < i ==> (#[trigger] entries_view(entries@)[j]).1.wf(),
                    decreases entries.len() - i,
                {
                    assert(decreases_to!(*self => self->Object_0@[i as int].1));
                    if !entries[i].1.is_well_formed() {
                        proof {
                            lemma_object_view(*entries);
                            let whole = entries_view(entries@);
                            assert(Tree::Object(whole)->Object_0 == whole);
                            assert(!whole[i as int].1.wf());
                        }
                        return false;
                    }
                    i += 1;
                }
                true
            },
            _ => true,
        }
    }

    /// Whether two documents are the same: of one kind, with the same
    /// scalar, the same items in the same order, or the same entries in the
    /// same order.
    pub fn same_as(&self, other: &Document) -> (same: bool)
        ensures
            same == (self@ == other@),
        decreases self,
    {
        broadcast use lemma_array_view, lemma_object_view;

        match self {
            Document::Null => match other {
                Document::Null => true,
                _ => false,
            },
            Document::Bool(a) => match other {
                Document::Bool(b) => *a == *b,
                _ => false,
            },
            Document::Integer(a) => match other {
                Document::Integer(b) => *a == *b,
                _ => false,
            },
            Document::Float(a) => match other {
                Document::Float(b) => *a == *b,
                _ => false,
            },
            Document::String(a) => match other {
                Document::String(b) => *a == *b,
                _ => false,
            },
            Document::Array(items) => match other {
                Document::Array(others) => {
                    if items.len() != others.len() {
                        assert(items_view(items@).len() != items_view(others@).len());
                        return false;
                    }
                    let mut i: usize = 0;
                    while i < items.len()
                        invariant
                            i <= items.len(),
                            items.len() == others.len(),
                            *self == Document::Array(*items),
                            *other == Document::Array(*others),
                            forall|j: int| 0 <= j < i ==> (#[trigger] items[j])@ == others[j]@,
                        decreases items.len() - i,
                    {
                        assert(decreases_to!(*self => self->Array_0@[i as int]));
                        if !items[i].same_as(&others[i]) {
                            proof {
                                lemma_array_view(*items);
                                lemma_array_view(*others);
                                assert(items_view(items@)[i as int] != items_view(others@)[i as int]);
                            }
                            return false;
                        }
                        i += 1;
                    }
                    assert(items_view(items@) =~= items_view(others@));
                    true
                },
                _ => false,
            },
            Document::Object(entries) => match other {
                Document::Object(others) => {
                    if entries.len() != others.len() {
                        assert(entries_view(entries@).len() != entries_view(others@).len());
                        return false;
                    }
                    let mut i: usize = 0;
                    while i < entries.len()
                        invariant
                            i <= entries.len(),
                            entries.len() == others.len(),
                            *self == Document::Object(*entries),
                            *other == Document::Object(*others),
                            forall|j: int|
                                0 <= j < i ==> (#[trigger] entries[j]).0@ == others[j].0@
                                    && entries[j].1@ == others[j].1@,
                        decreases entries.len() - i,
                    {
                        assert(decreases_to!(*self => self->Object_0@[i as int].1));
                        if !(entries[i].0 == others[i].0 && entries[i].1.same_as(&others[i].1)) {
                            proof {
                                lemma_object_view(*entries);
                                lemma_object_view(*others);
                                assert(entries_view(entries@)[i as int] != entries_view(others@)[i
                                    as int]);
                            }
                            return false;
                        }
                        i += 1;
                    }
                    assert(entries_view(entries@) =~= entries_view(others@));
                    true
                },
                _ => false,
            },
        }
    }
}

impl Clone for Document {
    fn clone(&self) -> (copy: Document)
        ensures
            copy@ == self@,
    {
        self.duplicate()
    }
}

} // verus!
