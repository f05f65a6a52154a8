//! Application errors and the process exit code each one maps to.
//!
//! Exit codes: 0 success, 1 user input error, 2 ffmpeg execution failure,
//! 3 internal error.

use vstd::prelude::*;

verus! {

/// Application-level error with an explicit exit code.
#[derive(Debug)]
pub enum FfError {
    UserInput(String),
    ExecutionFailure(String),
    /// Reserved for unexpected internal bugs.
    Internal(String),
}

/// The exit code that belongs to each kind of error.
pub open spec fn spec_exit_code(e: &FfError) -> i32 {
    match e {
        FfError::UserInput(_) => 1,
        FfError::ExecutionFailure(_) => 2,
        FfError::Internal(_) => 3,
    }
}

/// The text that describes an error to the user.
pub open spec fn error_text(e: &FfError) -> Seq<char> {
    match e {
        FfError::UserInput(msg) => "Input error: "@ + msg@,
        FfError::ExecutionFailure(msg) => "Execution error: "@ + msg@,
        FfError::Internal(msg) => "Internal error: "@ + msg@,
    }
}

/// Every error ends the process with a failure code, and each kind of error
/// with its own.
pub proof fn law_exit_codes_mark_failure(e: FfError, f: FfError)
    ensures
        1 <= spec_exit_code(&e) <= 3,
        spec_exit_code(&e) == spec_exit_code(&f) <==> (e is UserInput && f is UserInput) || (
        e is ExecutionFailure && f is ExecutionFailure) || (e is Internal && f is Internal),
{
}

impl FfError {
    /// The text that describes this error to the user.
    pub fn to_display_string(&self) -> (r: String)
        ensures
            r@ == error_text(self),
    {
        let (prefix, msg) = match self {
            FfError::UserInput(msg) => ("Input error: ", msg),
            FfError::ExecutionFailure(msg) => ("Execution error: ", msg),
            FfError::Internal(msg) => ("Internal error: ", msg),
        };
        let mut text = String::from_str(prefix);
        text.append(msg.as_str());
        text
    }

    /// Maps this error to its designated exit code.
    pub fn exit_code(&self) -> (code: i32)
        ensures
            code == spec_exit_code(self),
    {
        match self {
            FfError::UserInput(_) => 1,
            FfError::ExecutionFailure(_) => 2,
            FfError::Internal(_) => 3,
        }
    }
}

} // verus!
