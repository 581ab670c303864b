//! The error that a command reports: a text for the user.
use vstd::prelude::*;

verus! {

/// A failure, as the text that is shown for it.
#[derive(Debug, PartialEq, Eq)]
pub struct BGUMCLError(pub String);

/// The result of what can fail.
pub type BGUMCLResult<T> = Result<T, BGUMCLError>;

impl View for BGUMCLError {
    type V = Seq<char>;

    open spec fn view(&self) -> Seq<char> {
        self.0@
    }
}

impl BGUMCLError {
    /// The error with a given text.
    pub fn new(message: &str) -> (r: Self)
        ensures
            r@ == message@,
    {
        BGUMCLError(message.to_owned())
    }

    /// An error with the same text.
    pub fn duplicate(&self) -> (r: Self)
        ensures
            r@ == self@,
    {
        BGUMCLError(self.0.clone())
    }
}

} // verus!
