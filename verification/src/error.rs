//! The engine's error taxonomy and its user-facing message text.
use vstd::prelude::*;

use crate::decimal::{dec_str, format_u32, format_usize};
use crate::gender::Gender;

verus! {

/// A failure while loading or validating one year's data.
///
/// `IoError` is the backend's own failure, propagated; `InvalidLine` is a
/// malformed record line; the remaining variants are storage-integrity
/// violations: a duplicate (name, gender) within one year, more than one
/// metadata row for a year, or no row at all for a requested year.
#[derive(Clone, Debug)]
pub enum ParseError {
    IoError { message: String },
    InvalidLine { line_number: usize },
    DuplicateName { gender: Gender, name: String },
    ExpectedSingleRow { year: u32, query_name: &'static str },
    MissingResult { year: u32, query_name: &'static str },
}

impl Gender {
    /// The lower-case label used in messages and serialized forms.
    pub open spec fn label_spec(self) -> Seq<char> {
        match self {
            Gender::Male => "male"@,
            Gender::Female => "female"@,
        }
    }

    pub fn label(&self) -> (r: &'static str)
        ensures
            r@ == self.label_spec(),
    {
        match self {
            Gender::Male => "male",
            Gender::Female => "female",
        }
    }
}

impl ParseError {
    /// The full message text for this error.
    pub open spec fn message_spec(self) -> Seq<char> {
        match self {
            ParseError::IoError { message } => "IO error: "@ + message@,
            ParseError::InvalidLine { line_number } => "Invalid record line "@ + dec_str(
                line_number as nat,
            ),
            ParseError::DuplicateName { gender, name } => "Duplicate name "@ + name@
                + " for gender "@ + gender.label_spec(),
            ParseError::ExpectedSingleRow { year, query_name } => "Expected single row for "@
                + dec_str(year as nat) + " in \""@ + query_name@ + "\""@,
            ParseError::MissingResult { year, query_name } => "Missing result for "@ + dec_str(
                year as nat,
            ) + " in \""@ + query_name@ + "\""@,
        }
    }

    /// Renders the message this error displays to users.
    pub fn message(&self) -> (r: String)
        ensures
            r@ == self.message_spec(),
    {
        match self {
            ParseError::IoError { message } => {
                let mut text = String::from_str("IO error: ");
                text.append(message.as_str());
                text
            },
            ParseError::InvalidLine { line_number } => {
                let mut text = String::from_str("Invalid record line ");
                let digits = format_usize(*line_number);
                text.append(digits.as_str());
                text
            },
            ParseError::DuplicateName { gender, name } => {
                let mut text = String::from_str("Duplicate name ");
                text.append(name.as_str());
                text.append(" for gender ");
                text.append(gender.label());
                text
            },
            ParseError::ExpectedSingleRow { year, query_name } => {
                let mut text = String::from_str("Expected single row for ");
                let digits = format_u32(*year);
                text.append(digits.as_str());
                text.append(" in \"");
                text.append(query_name);
                text.append("\"");
                text
            },
            ParseError::MissingResult { year, query_name } => {
                let mut text = String::from_str("Missing result for ");
                let digits = format_u32(*year);
                text.append(digits.as_str());
                text.append(" in \"");
                text.append(query_name);
                text.append("\"");
                text
            },
        }
    }
}

/// A whole-request failure: either the request was rejected before any
/// backend work, or loading one of its years failed.
#[derive(Clone, Debug)]
pub enum RequestError {
    ParseYear(ParseError),
    RequestedZeroYears,
    TooManyYears { requested: usize, limit: usize },
}

impl From<ParseError> for RequestError {
    fn from(cause: ParseError) -> (r: Self) {
        RequestError::ParseYear(cause)
    }
}

impl vstd::std_specs::convert::FromSpecImpl<ParseError> for RequestError {
    open spec fn obeys_from_spec() -> bool {
        true
    }

    open spec fn from_spec(cause: ParseError) -> RequestError {
        RequestError::ParseYear(cause)
    }
}

} // verus!
