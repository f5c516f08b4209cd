//! The messages that the protocol itself defines.
use vstd::prelude::*;

verus! {

/// The body of an error message: its text.
#[derive(Clone, Debug, PartialEq, Eq, Default)]
pub struct ErrorMessage {
    pub message: String,
}

impl ErrorMessage {
    pub fn new(message: &str) -> (r: Self)
        ensures
            r.message@ == message@,
    {
        Self { message: message.to_owned() }
    }
}

} // verus!
