//! Failures surfaced at the library's boundaries. Markup irregularities are
//! absorbed by the tokenizer and tree builder and never raise these.

use vstd::prelude::*;

verus! {

#[derive(Debug, Clone, PartialEq, Eq)]
pub enum Error {
    /// A transport or envelope failure, with a message naming it.
    Network(String),
}

impl Error {
    /// The message carried by the error.
    pub fn message(&self) -> (r: String)
        ensures
            self matches Error::Network(m) ==> r == m,
    {
        match self {
            Error::Network(m) => m.clone(),
        }
    }
}

} // verus!
