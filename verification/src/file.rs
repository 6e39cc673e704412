//! The contents of a file in one of the supported formats, held as a
//! canonical document whatever the format was.

use vstd::prelude::*;
use crate::codec::emit_yaml;
use crate::codec::json_document_text;
use crate::codec::json_text_document;
use crate::codec::load_yaml;
use crate::codec::parse_json;
use crate::codec::print_json;
use crate::codec::schema_findings;
use crate::codec::yaml_document_text;
use crate::codec::yaml_text_documents;
use crate::document::Document;
use crate::document::Tree;
use crate::error::ParseError;
use crate::error::ParseFault;
use crate::insert::inserted;
use crate::insert::segments;
use crate::merge::merged;
use crate::schema::Violation;
use crate::schema::reported;
use crate::yaml::YamlNode;
use crate::yaml::YamlTree;
use crate::yaml::document_of;
use crate::yaml::document_of_node;
use crate::yaml::node_of_document;
use crate::yaml::nodes_view;
use crate::yaml::yaml_of;

verus! {

/// The contents of a file.
#[derive(Debug, Clone, PartialEq, Eq)]
pub struct File {
    data: Document,
}

impl View for File {
    type V = Tree;

    closed spec fn view(&self) -> Tree {
        self.data@
    }
}

/// What loading returned, as the mathematical result that it stands for.
pub open spec fn loaded(result: Result<File, ParseError>) -> Result<Tree, ParseFault> {
    match result {
        Ok(file) => Ok(file@),
        Err(error) => Err(error@),
    }
}

/// The document of a flat text, given what the parser made of the text.
pub open spec fn flat_document(parsed: Result<Tree, Seq<char>>) -> Result<Tree, ParseFault> {
    match parsed {
        Ok(tree) => Ok(tree),
        Err(why) => Err(ParseFault::Syntax(why)),
    }
}

/// The document of a markup text, given what the loader made of the text:
/// the first of its documents, converted.
pub open spec fn markup_document(loaded: Result<Seq<YamlTree>, Seq<char>>) -> Result<
    Tree,
    ParseFault,
> {
    match loaded {
        Err(why) => Err(ParseFault::Syntax(why)),
        Ok(nodes) => if nodes.len() == 0 {
            Err(ParseFault::Empty)
        } else {
            document_of(nodes[0])
        },
    }
}

impl File {
    /// The document that the file holds.
    pub closed spec fn document(&self) -> Document {
        self.data
    }

    /// The value of a file is the value of its document.
    pub broadcast proof fn lemma_view(&self)
        ensures
            #[trigger] self@ == self.document()@,
    {
    }

    /// A file that holds `data`.
    pub fn new(data: Document) -> (file: File)
        ensures
            file.document() == data,
            file@ == data@,
    {
        File { data }
    }

    /// The document that the file holds.
    pub fn data(&self) -> (data: &Document)
        ensures
            *data == self.document(),
            data@ == self@,
    {
        &self.data
    }

    /// The document, leaving the file.
    pub fn into_data(self) -> (data: Document)
        ensures
            data == self.document(),
            data@ == self@,
    {
        self.data
    }

    /// Loads a flat text. A malformed text is a syntax error with the
    /// parser's message.
    pub fn from_json(text: &str) -> (result: Result<File, ParseError>)
        ensures
            loaded(result) == flat_document(json_text_document(text@)),
            result matches Ok(file) ==> file@.wf(),
    {
        File::from_json_parsed(parse_json(text))
    }

    /// The file for what the parser made of a flat text.
    pub fn from_json_parsed(parsed: Result<Document, String>) -> (result: Result<File, ParseError>)
        ensures
            loaded(result) == flat_document(
                match parsed {
                    Ok(document) => Ok(document@),
                    Err(why) => Err(why@),
                },
            ),
            result matches Ok(file) ==> file@ == parsed->Ok_0@,
    {
        match parsed {
            Ok(document) => Ok(File::new(document)),
            Err(why) => Err(ParseError::Syntax(why)),
        }
    }

    /// Loads a markup text: the first document of the text, converted. A
    /// malformed text is a syntax error with the loader's message, and a
    /// text without a document is an error too.
    pub fn from_yaml(text: &str) -> (result: Result<File, ParseError>)
        ensures
            loaded(result) == markup_document(yaml_text_documents(text@)),
            result matches Ok(file) ==> file@.wf(),
    {
        File::from_yaml_documents(load_yaml(text))
    }

    /// The file for what the loader made of a markup text.
    pub fn from_yaml_documents(documents: Result<Vec<YamlNode>, String>) -> (result: Result<
        File,
        ParseError,
    >)
        ensures
            loaded(result) == markup_document(
                match documents {
                    Ok(nodes) => Ok(nodes_view(nodes@)),
                    Err(why) => Err(why@),
                },
            ),
            result matches Ok(file) ==> file@.wf(),
    {
        match documents {
            Err(why) => Err(ParseError::Syntax(why)),
            Ok(nodes) => {
                if nodes.len() == 0 {
                    return Err(ParseError::Empty);
                }
                match document_of_node(&nodes[0]) {
                    Ok(document) => Ok(File::new(document)),
                    Err(error) => Err(error),
                }
            },
        }
    }

    /// The markup text of the document.
    pub fn to_yaml_string(&self) -> (text: String)
        ensures
            text@ == yaml_document_text(yaml_of(self@)),
    {
        let node = node_of_document(&self.data);
        emit_yaml(&node)
    }

    /// The compact flat text of the document.
    pub fn to_json(&self) -> (text: String)
        ensures
            text@ == json_document_text(self@),
    {
        print_json(&self.data)
    }

    /// Writes `value` at `path`.
    pub fn insert(&mut self, path: Vec<String>, value: Document)
        ensures
            final(self)@ == inserted(old(self)@, segments(path@), value@),
            old(self)@.wf() && value@.wf() ==> final(self)@.wf(),
    {
        crate::insert::insert(&mut self.data, path, value);
    }

    /// Checks the document against `schema`. The check succeeds exactly
    /// where the validator finds nothing, and else the error holds all that
    /// the validator finds, in its order.
    pub fn validate(&self, schema: &Document) -> (outcome: Result<(), Vec<Violation>>)
        ensures
            outcome is Ok <==> schema_findings(schema@, self@).len() == 0,
            reported(outcome) == schema_findings(schema@, self@),
    {
        crate::schema::validate(schema, &self.data)
    }

    /// Merges `overlay` into this file.
    pub fn merge(&mut self, overlay: File)
        ensures
            final(self)@ == merged(old(self)@, overlay@),
            old(self)@.wf() && overlay@.wf() ==> final(self)@.wf(),
    {
        crate::merge::merge(&mut self.data, overlay.data);
    }
}

} // verus!
