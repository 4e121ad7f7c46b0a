//! The library's error type.

use vstd::prelude::*;

verus! {

/// An error carrying one human-readable message.
#[derive(Debug)]
pub enum Error {
    Msg(String),
}

impl Error {
    /// The message that the error carries.
    pub open spec fn text(self) -> Seq<char> {
        match self {
            Error::Msg(m) => m@,
        }
    }

    /// An error with the message `m`.
    pub fn msg(m: &str) -> (e: Error)
        ensures
            e.text() == m@,
    {
        Error::Msg(m.to_owned())
    }

    /// The message, on its own.
    pub fn message(&self) -> (s: String)
        ensures
            s@ == self.text(),
    {
        match self {
            Error::Msg(m) => m.clone(),
        }
    }
}

} // verus!
