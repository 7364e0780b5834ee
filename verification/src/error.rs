use vstd::prelude::*;

verus! {

/// The one failure kind of the storage capability: an engine-internal
/// failure (I/O, corruption, encoding). "Not found" is never an error;
/// it is an absent result.
#[derive(Debug, PartialEq, Eq)]
pub enum KvError {
    Internal { message: String },
}

impl KvError {
    /// A human-readable description of the failure.
    pub fn message(&self) -> (r: &String)
        ensures
            r@ == self.description(),
    {
        match self {
            KvError::Internal { message } => message,
        }
    }

    /// Surrenders the description, for building a response out of it.
    pub fn into_message(self) -> (r: String)
        ensures
            r@ == self.description(),
    {
        match self {
            KvError::Internal { message } => message,
        }
    }

    /// The description carried by the error, as a sequence of characters.
    pub open spec fn description(&self) -> Seq<char> {
        match self {
            KvError::Internal { message } => message@,
        }
    }
}

} // verus!
