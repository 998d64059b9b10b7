//! The errors a parse can end in. Unknown node kinds and unknown attributes
//! are not errors; only a malformed location string or a required field that
//! is absent or of the wrong shape aborts a parse.

use vstd::prelude::*;

verus! {

/// Why a parse failed.
#[derive(Debug, Clone, PartialEq, Eq)]
pub enum AstError {
    /// A source-location string does not have the `start:length:index` form.
    /// Carries the offending string.
    MalformedLocation(String),
    /// A required field is absent or of the wrong JSON shape. Carries the
    /// field name and, when it had already been read, the id of the node the
    /// field belongs to.
    MissingRequiredField(String, Option<usize>),
}

/// The mathematical shape of an `AstError`.
pub enum AstErrorV {
    MalformedLocation(Seq<char>),
    MissingRequiredField(Seq<char>, Option<usize>),
}

impl View for AstError {
    type V = AstErrorV;

    open spec fn view(&self) -> AstErrorV {
        match self {
            AstError::MalformedLocation(t) => AstErrorV::MalformedLocation(t@),
            AstError::MissingRequiredField(f, id) => AstErrorV::MissingRequiredField(f@, *id),
        }
    }
}

} // verus!
