use vstd::prelude::*;

verus! {

/// The one error kind that every storage operation reports: a failure of the
/// underlying object store, of any sort, with a message for operators.
#[derive(Debug, Clone)]
pub struct StorageError {
    pub message: String,
}

impl StorageError {
    /// An error that carries the given message.
    pub fn with_message(message: String) -> (r: StorageError)
        ensures
            r.message@ == message@,
    {
        StorageError { message }
    }

    /// The message carried by this error.
    pub fn message(&self) -> (r: &str)
        ensures
            r@ == self.message@,
    {
        self.message.as_str()
    }
}

} // verus!
