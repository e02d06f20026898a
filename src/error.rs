//! The library's errors.
use vstd::prelude::*;

verus! {

#[derive(Debug)]
pub enum ProjectError {
    /// A node (or other referenced item) that the operation needs is absent.
    NotFound { name: String },
    /// The selectors of an operation are missing or conflict.
    InvalidInput { reason: String },
    /// A refinement pattern does not compile.
    MalformedPattern { pattern: String },
}

} // verus!
