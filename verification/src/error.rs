//! Why a call is refused.

use vstd::prelude::*;
use vstd::string::*;

use crate::json::{Json, JsonView};

verus! {

/// Why a call is refused, in the words that the caller gets.
#[derive(Debug, PartialEq)]
pub struct Error {
    pub message: String,
}

impl View for Error {
    type V = Seq<char>;

    open spec fn view(&self) -> Seq<char> {
        self.message@
    }
}

impl Error {
    /// An error with the given words.
    pub fn new(message: &str) -> (e: Error)
        ensures
            e@ == message@,
    {
        Error { message: message.to_owned() }
    }

    /// The words in front of a text.
    pub fn about(words: &str, what: &str) -> (e: Error)
        ensures
            e@ == words@ + what@,
    {
        let mut message: String = words.to_owned();
        message.append(what);
        Error { message }
    }

    /// The words on both sides of a text.
    pub fn around(before: &str, what: &str, after: &str) -> (e: Error)
        ensures
            e@ == before@ + what@ + after@,
    {
        let mut message: String = before.to_owned();
        message.append(what);
        message.append(after);
        Error { message }
    }
}

/// What a call comes to: the tree of its answer, or the words of the refusal.
pub open spec fn outcome(r: Result<Json, Error>) -> Result<JsonView, Seq<char>> {
    match r {
        Ok(j) => Ok(j@),
        Err(e) => Err(e@),
    }
}

} // verus!
