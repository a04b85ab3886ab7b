//! What can go wrong while reading a bibliography.

use vstd::prelude::*;
use vstd::string::StringExecFns;

verus! {

/// Why the text of a field was turned down.
#[derive(Clone, Copy, Debug, PartialEq, Eq, Structural)]
pub enum Reason {
    /// Nothing was written where a name is needed.
    Empty,
    /// A number was needed and something else was written.
    NotANumber,
    /// The number does not fit the field.
    OutOfRange,
    /// The word is not one of the names that the field takes.
    UnknownName,
}

/// The one fault that ended a parse. There are no warnings: the first fault
/// found is returned and nothing else.
#[derive(Clone, Debug, PartialEq, Eq)]
pub enum ParseError {
    /// A character stands where another was needed. `expected` is one
    /// character that would have been taken there; `line` and `col` count
    /// from 1.
    UnexpectedCharacter { expected: char, found: char, line: usize, col: usize },
    /// The text of a field does not follow the rules of that field.
    InvalidFieldValue { field: String, raw: String, reason: Reason },
    /// The input holds no entry at all.
    EmptyBibliography,
    /// The input ended inside an entry.
    UnexpectedEndOfInput,
}

/// A `ParseError` as a mathematical value.
pub enum ErrorView {
    UnexpectedCharacter { expected: char, found: char, line: int, col: int },
    InvalidFieldValue { field: Seq<char>, raw: Seq<char>, reason: Reason },
    EmptyBibliography,
    UnexpectedEndOfInput,
}

impl View for ParseError {
    type V = ErrorView;

    open spec fn view(&self) -> ErrorView {
        match self {
            ParseError::UnexpectedCharacter { expected, found, line, col } => {
                ErrorView::UnexpectedCharacter {
                    expected: *expected,
                    found: *found,
                    line: *line as int,
                    col: *col as int,
                }
            },
            ParseError::InvalidFieldValue { field, raw, reason } => ErrorView::InvalidFieldValue {
                field: field@,
                raw: raw@,
                reason: *reason,
            },
            ParseError::EmptyBibliography => ErrorView::EmptyBibliography,
            ParseError::UnexpectedEndOfInput => ErrorView::UnexpectedEndOfInput,
        }
    }
}

/// A result as a mathematical value: the deep view of what was produced, or
/// the view of the fault.
pub open spec fn model_of<T: DeepView>(r: Result<T, ParseError>) -> Result<T::V, ErrorView> {
    match r {
        Ok(v) => Ok(v.deep_view()),
        Err(e) => Err(e@),
    }
}

/// The sentence that `ParseError::to_string` writes for a fault.
pub open spec fn message_text(e: ErrorView) -> Seq<char> {
    match e {
        ErrorView::UnexpectedCharacter { expected, found, .. } => "unexpected character '"@
            + seq![found] + "'. expected '"@ + seq![expected] + "'"@,
        ErrorView::InvalidFieldValue { field, raw, .. } => "invalid value '"@ + raw
            + "' within the entry field '"@ + field + "'"@,
        ErrorView::EmptyBibliography => "failed to parse BibTeX file, seemingly empty"@,
        ErrorView::UnexpectedEndOfInput => "unexpected eof"@,
    }
}

impl ParseError {
    /// One descriptive sentence for the fault: what was found and what was
    /// expected.
    pub fn to_string(&self) -> (s: String)
        ensures
            s@ == message_text(self@),
    {
        match self {
            ParseError::UnexpectedCharacter { expected, found, .. } => {
                let mut s = String::from_str("unexpected character '");
                s.push(*found);
                s.append("'. expected '");
                s.push(*expected);
                s.append("'");
                s
            },
            ParseError::InvalidFieldValue { field, raw, .. } => {
                let mut s = String::from_str("invalid value '");
                s.append(raw.as_str());
                s.append("' within the entry field '");
                s.append(field.as_str());
                s.append("'");
                s
            },
            ParseError::EmptyBibliography => String::from_str(
                "failed to parse BibTeX file, seemingly empty",
            ),
            ParseError::UnexpectedEndOfInput => String::from_str("unexpected eof"),
        }
    }
}

} // verus!
