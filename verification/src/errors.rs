use vstd::prelude::*;

use crate::ids::Id;

verus! {

/// Error taxonomy of the coherence, indexing and save-planning layer.
///
/// Validation errors (`DanglingReference`, `UnknownVariable`, `UnknownOwner`)
/// abort a whole save before any write; `InUse` aborts only a variable
/// deletion; `ContentMissing` reports an externalized text payload whose blob
/// could not be found; `NotFound` reports an absent record; `CorruptRecord`
/// reports a stored value (or identifier string) that does not parse.
#[derive(Debug, Clone, PartialEq, Eq)]
pub enum CoherenceError {
    DanglingReference { source_node: Id, target_id: Id },
    UnknownVariable { branch_node: Id, variable_id: Id },
    UnknownOwner { variable_id: Id, owner_id: Id },
    InUse { variable_id: Id, referencing_branches: Vec<Id> },
    ContentMissing { node_id: Id, content_id: Id },
    NotFound { id: Id },
    CorruptRecord,
}

/// A bag of field-level validation messages, keyed by field name.
#[derive(Debug, Clone, PartialEq)]
pub struct ValdidationError {
    pub err_map: Vec<(&'static str, &'static str)>,
}

impl ValdidationError {
    pub fn new(err_map: Vec<(&'static str, &'static str)>) -> (r: Self)
        ensures
            r.err_map == err_map,
    {
        ValdidationError { err_map }
    }
}

} // verus!
