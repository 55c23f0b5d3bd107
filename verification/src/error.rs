//! The library's error.
use vstd::prelude::*;

verus! {

/// An error with a message for the user.
#[derive(Debug)]
pub struct TTSError {
    pub message: String,
}

impl From<String> for TTSError {
    fn from(e: String) -> (r: TTSError) {
        TTSError { message: e }
    }
}

impl vstd::std_specs::convert::FromSpecImpl<String> for TTSError {
    open spec fn obeys_from_spec() -> bool {
        true
    }

    open spec fn from_spec(e: String) -> TTSError {
        TTSError { message: e }
    }
}

impl TTSError {
    /// The error as text: its message.
    pub fn to_string(&self) -> (r: String)
        ensures
            r@ == self.message@,
    {
        self.message.clone()
    }
}

} // verus!
