//! Error values surfaced by the parsing and fetching stages.
//!
//! Every failure aborts the whole pipeline invocation: there is no retry
//! and no partial output anywhere in the library.

use vstd::prelude::*;
use vstd::string::StringExecFns;

verus! {

/// A payload could not be turned into records.  The parse is strict and
/// all-or-nothing: the first malformed entry fails the whole payload.
#[derive(Debug)]
pub enum ParseError {
    /// The markup holds no container element with the expected identifier.
    ElementNotFound,
    /// The container element holds no script child.
    EmptyScript,
    /// The script text holds no assignment marker introducing the payload.
    MarkerNotFound,
    /// A required field is absent, or not of the required type, on some
    /// entry; the argument is the upstream name of that field.
    MissingField(String),
    /// The isolated payload is not a JSON array.
    MalformedJson,
}

/// A page could not be fetched, or its pagination metadata was unusable.
#[derive(Debug)]
pub enum FetchError {
    /// The transport reported a failure; the whole run is aborted.
    Transport,
    /// A response carried no pagination continuation signal at all.
    MissingPaginationSignal,
}

impl ParseError {
    /// The wording of each parse failure, as shown to the user.
    pub open spec fn spec_describe(&self) -> Seq<char> {
        match self {
            ParseError::ElementNotFound => "container element not found"@,
            ParseError::EmptyScript => "no script element in container"@,
            ParseError::MarkerNotFound => "payload marker not found in script"@,
            ParseError::MissingField(name) => "missing field "@ + name@,
            ParseError::MalformedJson => "payload is not a JSON array"@,
        }
    }

    /// A human-readable description of the failure.
    pub fn describe(&self) -> (r: String)
        ensures
            r@ == self.spec_describe(),
    {
        match self {
            ParseError::ElementNotFound => String::from_str("container element not found"),
            ParseError::EmptyScript => String::from_str("no script element in container"),
            ParseError::MarkerNotFound => String::from_str("payload marker not found in script"),
            ParseError::MissingField(name) => {
                let mut s = String::from_str("missing field ");
                s.append(name.as_str());
                s
            },
            ParseError::MalformedJson => String::from_str("payload is not a JSON array"),
        }
    }
}

impl FetchError {
    /// The wording of each fetch failure, as shown to the user.
    pub open spec fn spec_describe(&self) -> Seq<char> {
        match self {
            FetchError::Transport => "transport failure"@,
            FetchError::MissingPaginationSignal => "response carried no pagination signal"@,
        }
    }

    /// A human-readable description of the failure.
    pub fn describe(&self) -> (r: String)
        ensures
            r@ == self.spec_describe(),
    {
        match self {
            FetchError::Transport => String::from_str("transport failure"),
            FetchError::MissingPaginationSignal => {
                String::from_str("response carried no pagination signal")
            },
        }
    }
}

} // verus!
