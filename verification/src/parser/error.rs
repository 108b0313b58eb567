//! Error type of the SQL front end.

use vstd::prelude::*;

use crate::text::join2;

verus! {

/// A failure to turn a SQL string into a statement: a description for people.
#[derive(Debug, PartialEq, Eq)]
pub struct ParseError {
    message: String,
}

impl View for ParseError {
    type V = Seq<char>;

    closed spec fn view(&self) -> Seq<char> {
        self.message@
    }
}

/// The message of a construct outside the supported subset.
pub open spec fn unsupported_text(what: Seq<char>) -> Seq<char> {
    "unsupported: "@ + what
}

impl ParseError {
    /// An error with this message.
    pub fn new(message: &str) -> (e: Self)
        ensures
            e@ == message@,
    {
        ParseError { message: message.to_string() }
    }

    /// A construct that parses as valid SQL but falls outside the supported
    /// subset (JOIN, GROUP BY, multi-row INSERT, ...). The reader learns which
    /// feature is missing.
    pub fn unsupported(what: &str) -> (e: Self)
        ensures
            e@ == unsupported_text(what@),
    {
        ParseError { message: join2("unsupported: ", what) }
    }

    /// The description.
    pub fn message(&self) -> (s: &str)
        ensures
            s@ == self@,
    {
        self.message.as_str()
    }

    /// The description, as text of its own.
    pub fn to_string(&self) -> (s: String)
        ensures
            s@ == self@,
    {
        self.message.clone()
    }
}

impl Clone for ParseError {
    fn clone(&self) -> (r: Self)
        ensures
            r@ == self@,
    {
        ParseError { message: self.message.clone() }
    }
}

} // verus!
