use vstd::prelude::*;

verus! {

/// Why a profile-store mutation was refused.
///
/// `NotFound` carries the name that no stored profile bears; `LastProfile`
/// reports that a removal would have deleted the store's only entry.
#[derive(Debug, Clone, PartialEq, Eq)]
pub enum StoreError {
    NotFound(String),
    LastProfile,
}

/// A plain error message handed back by the surrounding command layer when a
/// remote call fails.
#[derive(Debug, Clone)]
pub struct DefaultError {
    pub message: String,
}

impl DefaultError {
    pub fn new(message: String) -> (r: Self)
        ensures
            r.message == message,
    {
        DefaultError { message }
    }
}

} // verus!
