//! What a refused request is answered.

use vstd::prelude::*;
use vstd::string::*;

verus! {

/// A refusal, with the text that the client is shown.
#[derive(Debug)]
pub struct Failure {
    pub message: String,
}

impl Failure {
    pub fn new(message: String) -> (r: Failure)
        ensures
            r.message == message,
    {
        Failure { message }
    }

    /// A failure with a fixed text.
    pub fn of(message: &str) -> (r: Failure)
        ensures
            r.message@ == message@,
    {
        Failure { message: message.to_string() }
    }

    pub fn to_text(&self) -> (r: String)
        ensures
            r@ == self.message@,
    {
        self.message.clone()
    }
}

} // verus!
