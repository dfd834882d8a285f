//! The error that the tools report.

use vstd::prelude::*;

verus! {

/// An error with a human-readable message.
#[derive(Debug, Clone)]
pub struct KagiError {
    message: String,
}

impl View for KagiError {
    type V = Seq<char>;

    /// The message of the error.
    closed spec fn view(&self) -> Seq<char> {
        self.message@
    }
}

impl KagiError {
    pub fn new(message: String) -> (error: KagiError)
        ensures
            error@ == message@,
    {
        KagiError { message }
    }

    /// The message of the error (what the tools print after their name).
    pub fn message(&self) -> (message: &str)
        ensures
            message@ == self@,
    {
        self.message.as_str()
    }
}

} // verus!
