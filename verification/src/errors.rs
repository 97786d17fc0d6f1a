//! The error cases of the library.

use vstd::prelude::*;

verus! {

/// What can go wrong in a construction of this crate.
#[derive(Clone, Copy, Debug, PartialEq, Eq, Structural)]
pub enum CtError {
    /// A setup parameter is out of range, or the parameter list is
    /// malformed: the instance is never constructed.
    InvalidParameters,
    /// A session operation ran before `rekey` provided a key.
    NotKeyed,
    /// A squeeze or encryption ran before `init` opened a session.
    NotInitialized,
    /// A key or nonce was the all-zero word, which these constructions
    /// treat as an invalid domain separator.
    InvalidDomainValue,
}

impl CtError {
    /// A short description of the error.
    pub fn message(&self) -> (r: &'static str)
        ensures
            r@ == self.spec_message(),
    {
        match self {
            CtError::InvalidParameters => "invalid parameters",
            CtError::NotKeyed => "key is not set",
            CtError::NotInitialized => "state is not initialized",
            CtError::InvalidDomainValue => "invalid domain value",
        }
    }

    /// The description `message` yields.
    pub open spec fn spec_message(&self) -> Seq<char> {
        match self {
            CtError::InvalidParameters => "invalid parameters"@,
            CtError::NotKeyed => "key is not set"@,
            CtError::NotInitialized => "state is not initialized"@,
            CtError::InvalidDomainValue => "invalid domain value"@,
        }
    }
}

} // verus!
