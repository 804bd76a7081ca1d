use vstd::prelude::*;

verus! {

/// Why an operation on the registry was refused. A refused operation changes nothing.
#[derive(Clone, Copy, PartialEq, Eq, Structural, Debug)]
pub enum Error {
    /// There is no state yet: nothing was initialized.
    Uninitialized,
    /// There is a state already: it is initialized once only.
    AlreadyInitialized,
    /// The caller is not the owner, and only the owner may do this.
    Unauthorized,
    /// No contract is registered under the key, or no comment has the id.
    NotFound,
    /// An argument is outside of what the operation accepts, such as a page limit of zero.
    InvalidArgument,
}

impl Error {
    /// What went wrong, in words. Of `NotFound` it says `not found`: what was
    /// not found is for the caller to put before it.
    pub fn message(&self) -> (r: &'static str)
        ensures
            r@ == match self {
                Error::Uninitialized => "SourceScan should be initialized before usage"@,
                Error::AlreadyInitialized => "Already initialized"@,
                Error::Unauthorized => "Only owner can call this method"@,
                Error::NotFound => "not found"@,
                Error::InvalidArgument => "Invalid argument"@,
            },
    {
        match self {
            Error::Uninitialized => "SourceScan should be initialized before usage",
            Error::AlreadyInitialized => "Already initialized",
            Error::Unauthorized => "Only owner can call this method",
            Error::NotFound => "not found",
            Error::InvalidArgument => "Invalid argument",
        }
    }
}

} // verus!
