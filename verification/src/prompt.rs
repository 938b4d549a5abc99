//! A prompt.

use vstd::prelude::*;

verus! {

/// A piece of text for the model.
#[derive(Debug, Clone, PartialEq, Eq)]
pub struct Prompt {
    pub text: String,
}

impl Prompt {
    /// A prompt with the given text.
    pub fn new(text: String) -> (r: Prompt)
        ensures
            r.text@ == text@,
    {
        Prompt { text }
    }
}

} // verus!
