//! Errors of the issue tracker.




use vstd::prelude::*;

verus! {

/// Why the tracker could not be asked or told something.
#[derive(Debug, PartialEq, Eq)]
pub struct TrackerError {
    message: String,
}

impl View for TrackerError {
    type V = Seq<char>;

    closed spec fn view(&self) -> Seq<char> {
        self.message@
    }
}

impl TrackerError {
    /// The error with a message.
    pub fn new(message: &str) -> (r: TrackerError)
        ensures
            r@ == message@,
    {
        TrackerError { message: message.to_string() }
    }

    /// The message of the error.
    pub fn message(&self) -> (r: String)
        ensures
            r@ == self@,
    {
        self.message.clone()
    }
}

impl Clone for TrackerError {
    fn clone(&self) -> (r: TrackerError)
        ensures
            r@ == self@,
    {
        TrackerError { message: self.message.clone() }
    }
}

} // verus!
