//! Checking a document against a schema.

use vstd::prelude::*;
use crate::codec::findings;
use crate::codec::schema_findings;
use crate::document::Document;

verus! {

/// One way in which an instance does not conform to a schema.
#[derive(Debug, Clone, PartialEq, Eq)]
pub struct Violation {
    /// What is wrong.
    pub message: String,
    /// Where: a pointer into the instance.
    pub location: String,
}

/// The messages and locations of a list of violations, in order.
pub open spec fn violations_view(found: Seq<Violation>) -> Seq<(Seq<char>, Seq<char>)> {
    Seq::new(found.len(), |i: int| (found[i].message@, found[i].location@))
}

/// What a check returned, as the messages and locations that it reports:
/// none for success, and those of the violations for an error.
pub open spec fn reported(outcome: Result<(), Vec<Violation>>) -> Seq<(Seq<char>, Seq<char>)> {
    match outcome {
        Ok(_) => Seq::empty(),
        Err(found) => violations_view(found@),
    }
}

/// The outcome of a check, given what the validator found: success where it
/// found nothing, and else all that it found, in its order.
pub fn verdict(found: Vec<Violation>) -> (outcome: Result<(), Vec<Violation>>)
    ensures
        found.len() == 0 ==> outcome is Ok,
        found.len() > 0 ==> outcome == Err::<(), Vec<Violation>>(found),
{
    if found.len() == 0 {
        Ok(())
    } else {
        Err(found)
    }
}

/// Checks `instance` against `schema`. Neither is changed. The check
/// succeeds exactly where the validator finds nothing, and else the error
/// holds all that the validator finds, in its order.
pub fn validate(schema: &Document, instance: &Document) -> (outcome: Result<(), Vec<Violation>>)
    ensures
        outcome is Ok <==> schema_findings(schema@, instance@).len() == 0,
        reported(outcome) == schema_findings(schema@, instance@),
{
    let found = findings(schema, instance);
    assert(violations_view(found@).len() == found.len());
    verdict(found)
}

} // verus!
