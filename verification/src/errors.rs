//! Error kinds of the repository layer.

use vstd::prelude::*;

verus! {

/// Any persistence or decode fault, carrying a short message.
#[derive(Debug)]
pub enum RepositoryError {
    Message(String),
}

impl RepositoryError {
    /// Wraps a message as a repository error.
    pub fn message(message: String) -> (r: Self)
        ensures
            r == RepositoryError::Message(message),
    {
        RepositoryError::Message(message)
    }

    /// The carried message.
    pub fn text(&self) -> (r: &str)
        ensures
            *self matches RepositoryError::Message(m) && r@ == m@,
    {
        match self {
            RepositoryError::Message(m) => m.as_str(),
        }
    }
}

} // verus!
