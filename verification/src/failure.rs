//! The ways in which a step of the session can fail.

use vstd::prelude::*;

verus! {

/// Why a step of the session could not be carried out.
#[derive(Clone, Copy, Debug, PartialEq, Eq)]
pub enum Failure {
    /// The remote service could not be reached, or answered with an error.
    Transport,
    /// The remote service answered, but not with the page that was expected.
    Shape,
    /// The mirror directory could not be reset, written or read.
    Storage,
    /// A reply came that answers none of the commands given.
    OutOfTurn,
}

impl Failure {
    /// A line that tells the user what went wrong.
    pub fn describe(&self) -> (line: String)
        ensures
            line@ == match *self {
                Failure::Transport => "the remote service could not be reached"@,
                Failure::Shape => "the remote service sent an unexpected page"@,
                Failure::Storage => "the mirror directory could not be used"@,
                Failure::OutOfTurn => "a reply came out of turn"@,
            },
    {
        match self {
            Failure::Transport => String::from_str("the remote service could not be reached"),
            Failure::Shape => String::from_str("the remote service sent an unexpected page"),
            Failure::Storage => String::from_str("the mirror directory could not be used"),
            Failure::OutOfTurn => String::from_str("a reply came out of turn"),
        }
    }
}

} // verus!
