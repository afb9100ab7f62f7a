use vstd::prelude::*;

use crate::errors::CoherenceError;

verus! {

/// The shape of a record type that can be loaded from and saved to a
/// project directory, shallowly (structure only) or deeply (with its
/// externalized payloads).  The storage adapters implementing it live
/// outside this crate.
pub trait Persisted<T>: Sized {
    fn shallow_load(project_path: &str) -> Result<T, CoherenceError>;

    fn deep_load(project_path: &str) -> Result<T, CoherenceError>;

    fn save(&self) -> Result<(), CoherenceError>;
}

/// The filesystem-backed asset store; the uploading itself is I/O and lives
/// outside this crate.
#[derive(Debug, Clone, PartialEq)]
pub struct FSUploader {}

} // verus!
