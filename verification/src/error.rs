//! What can go wrong in a search.

use vstd::prelude::*;

verus! {

/// An error of the search engine. Each carries the text of what caused it.
#[derive(Debug, PartialEq, Eq)]
pub enum SearchError {
    /// The pattern could not be compiled; no scan was started.
    InvalidPattern(String),
    /// The line source failed while a line was read; the scan has stopped.
    LineReadFailure(String),
}

/// A `SearchError` with its text as a sequence of characters.
pub enum Failure {
    InvalidPattern(Seq<char>),
    LineReadFailure(Seq<char>),
}

impl Failure {
    /// The text the failure carries.
    pub open spec fn message(self) -> Seq<char> {
        match self {
            Failure::InvalidPattern(text) => text,
            Failure::LineReadFailure(text) => text,
        }
    }
}

impl View for SearchError {
    type V = Failure;

    open spec fn view(&self) -> Failure {
        match self {
            SearchError::InvalidPattern(text) => Failure::InvalidPattern(text@),
            SearchError::LineReadFailure(text) => Failure::LineReadFailure(text@),
        }
    }
}

impl SearchError {
    /// The text of the underlying cause.
    pub fn message(&self) -> (text: &str)
        ensures
            text@ == self@.message(),
    {
        match self {
            SearchError::InvalidPattern(text) => text.as_str(),
            SearchError::LineReadFailure(text) => text.as_str(),
        }
    }

    /// Whether the pattern was refused.
    pub fn is_invalid_pattern(&self) -> (yes: bool)
        ensures
            yes == (self@ is InvalidPattern),
    {
        match self {
            SearchError::InvalidPattern(_) => true,
            SearchError::LineReadFailure(_) => false,
        }
    }

    /// Whether a line could not be read.
    pub fn is_line_read_failure(&self) -> (yes: bool)
        ensures
            yes == (self@ is LineReadFailure),
    {
        match self {
            SearchError::InvalidPattern(_) => false,
            SearchError::LineReadFailure(_) => true,
        }
    }
}

} // verus!
