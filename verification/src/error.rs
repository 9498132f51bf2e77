//! Errors that are reported to a client: an SQLSTATE code and a message.
use vstd::prelude::*;

use crate::text::same_text;

verus! {

/// An error for the client.
#[derive(Debug)]
pub struct UserError {
    pub code: String,
    pub message: String,
}

/// What a client sees of a [`UserError`].
pub struct Report {
    pub code: Seq<char>,
    pub message: Seq<char>,
}

impl View for UserError {
    type V = Report;

    open spec fn view(&self) -> Report {
        Report { code: self.code@, message: self.message@ }
    }
}

/// The report with the given code and message.
pub open spec fn report(code: Seq<char>, message: Seq<char>) -> Report {
    Report { code, message }
}

/// The report for a feature that is not supported.
pub open spec fn unsupported_report(message: Seq<char>) -> Report {
    Report { code: "0A000"@, message }
}

/// The outcome of a fallible operation with the error replaced by its report.
pub open spec fn outcome<T>(result: Result<T, UserError>) -> Result<T, Report> {
    match result {
        Ok(value) => Ok(value),
        Err(error) => Err(error@),
    }
}

/// Whether a call ended otherwise than in an internal error. A store that fails at something makes
/// the call that asked it end in one, so any other end is what the store's contents lead to. What
/// a failing store holds after such a call is left open: it may have done any part of the work.
pub open spec fn not_internal<T>(result: Result<T, UserError>) -> bool {
    !(result matches Err(error) && error@.code == "XX000"@)
}

/// Makes an error from an SQLSTATE code and a message.
pub fn user_error(code: &str, message: &str) -> (error: UserError)
    ensures
        error@ == report(code@, message@),
{
    UserError { code: code.to_string(), message: message.to_string() }
}

/// Makes an error from a code and an owned message.
pub fn user_error_text(code: &str, message: String) -> (error: UserError)
    ensures
        error@ == report(code@, message@),
{
    UserError { code: code.to_string(), message }
}

/// Makes the error for a feature that is not supported.
pub fn unsupported(message: &str) -> (error: UserError)
    ensures
        error@ == unsupported_report(message@),
{
    user_error("0A000", message)
}

/// Whether the error reports an unsupported feature.
pub fn is_unsupported_error(error: &UserError) -> (answer: bool)
    ensures
        answer == (error@.code == "0A000"@),
{
    same_text(error.code.as_str(), "0A000")
}

} // verus!
