//! Why a text could not be loaded as a document.

use vstd::prelude::*;

verus! {

/// Why a text could not be loaded as a document.
#[derive(Debug, PartialEq, Eq)]
pub enum ParseError {
    /// The text is malformed. The message is the parser's.
    Syntax(String),
    /// The text holds no document.
    Empty,
    /// A real number, written as the text holds, has no finite value.
    Number(String),
}

/// The mathematical value of a [`ParseError`].
pub enum ParseFault {
    Syntax(Seq<char>),
    Empty,
    Number(Seq<char>),
}

impl View for ParseError {
    type V = ParseFault;

    open spec fn view(&self) -> ParseFault {
        match self {
            ParseError::Syntax(why) => ParseFault::Syntax(why@),
            ParseError::Empty => ParseFault::Empty,
            ParseError::Number(text) => ParseFault::Number(text@),
        }
    }
}

impl ParseError {
    /// The error in words.
    pub fn message(&self) -> (text: String)
        ensures
            self is Empty ==> text@ == "the text holds no document"@,
            self matches ParseError::Syntax(why) ==> text@ == why@,
            self matches ParseError::Number(number) ==> text@ == "could not parse float: "@
                + number@,
    {
        match self {
            ParseError::Syntax(why) => why.clone(),
            ParseError::Empty => "the text holds no document".to_owned(),
            ParseError::Number(number) => {
                let mut text = "could not parse float: ".to_owned();
                text.push_str(number.as_str());
                text
            },
        }
    }
}

} // verus!
