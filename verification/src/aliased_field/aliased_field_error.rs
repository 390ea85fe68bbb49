//! Errors raised while normalizing raw field annotation data.

use vstd::prelude::*;
use vstd::string::StringExecFns;

verus! {

/// [`AliasedFieldError`] describes the configuration errors that can occur
/// while building an [`AliasedField`](super::AliasedField): they surface
/// when the schema is built, before any document is ever scanned.
#[derive(Debug, Clone, PartialEq, Eq)]
pub enum AliasedFieldError {
    /// Occurs if building an [`AliasedField`](super::AliasedField) is
    /// attempted for a field without an identifier, such as a member of a
    /// tuple or unit struct: duplicate-aware resolution needs a name to
    /// match document keys against.
    UnnamedField,
    /// Occurs for an annotation directive this model does not recognize;
    /// carries the directive's name.
    DirectiveError(String),
}

impl AliasedFieldError {
    /// A human-readable description of the error.
    pub fn message(&self) -> (r: String)
        ensures
            match self {
                AliasedFieldError::UnnamedField => r@
                    == "Struct must at least have named fields for duplicated name checking to take place"@,
                AliasedFieldError::DirectiveError(name) => r@ == "Error parsing arguments: "@
                    + name@,
            },
    {
        match self {
            AliasedFieldError::UnnamedField => {
                "Struct must at least have named fields for duplicated name checking to take place".to_owned()
            },
            AliasedFieldError::DirectiveError(name) => {
                "Error parsing arguments: ".to_owned().concat(name.as_str())
            },
        }
    }
}

} // verus!
