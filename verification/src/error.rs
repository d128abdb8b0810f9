//! The single failure value of the library: a parsing failure carrying the
//! offending text and the name of the expected semantic category.

use vstd::prelude::*;

verus! {

/// A result whose error is the library's own failure value.
pub type PostalResult<T> = Result<T, PostalError>;

/// A parsing failure: the text that could not be parsed, and a label naming
/// the semantic category that was expected of it.
#[derive(Debug)]
pub enum PostalError {
    ParsingFailure(String, &'static str),
}

/// The human-readable description of an error.
pub open spec fn spec_message(e: PostalError) -> Seq<char> {
    match e {
        PostalError::ParsingFailure(text, label) => "could not parse `"@ + text@ + "` as a "@
            + label@,
    }
}

impl PostalError {
    /// The offending text of the failure.
    pub fn text(&self) -> (r: &String)
        ensures
            r@ == self->ParsingFailure_0@,
    {
        match self {
            PostalError::ParsingFailure(text, _) => text,
        }
    }

    /// The expected semantic category of the failure.
    pub fn expected(&self) -> (r: &'static str)
        ensures
            r@ == self->ParsingFailure_1@,
    {
        match self {
            PostalError::ParsingFailure(_, label) => label,
        }
    }

    /// A human-readable description of the failure.
    pub fn message(&self) -> (r: String)
        ensures
            r@ == spec_message(*self),
    {
        match self {
            PostalError::ParsingFailure(text, label) => {
                let mut m = String::new();
                m.append("could not parse `");
                m.append(text.as_str());
                m.append("` as a ");
                m.append(label);
                m
            },
        }
    }
}

} // verus!
