//! The errors of the library.
use crate::process::RawOutput;
use vstd::prelude::*;

verus! {

/// Why an operation failed. Every variant carries a message for the operator.
#[derive(Debug, Clone, PartialEq, Eq)]
pub enum Error {
    /// The configuration is missing something or holds something that it must not.
    Config { message: String },
    /// A text did not have the expected form.
    Parse { message: String },
    /// A command failed. `output` is what it left behind, where it ran to its end.
    JjCommand { message: String, output: Option<RawOutput> },
    /// Input or output failed.
    Io { message: String },
    /// Anything else.
    Other { message: String },
}

impl Error {
    /// The text of the error.
    pub open spec fn text(self) -> Seq<char> {
        match self {
            Error::Config { message } => message@,
            Error::Parse { message } => message@,
            Error::JjCommand { message, .. } => message@,
            Error::Io { message } => message@,
            Error::Other { message } => message@,
        }
    }

    /// The text of the error.
    pub fn to_string(&self) -> (r: String)
        ensures
            r@ == self.text(),
    {
        match self {
            Error::Config { message } => message.clone(),
            Error::Parse { message } => message.clone(),
            Error::JjCommand { message, .. } => message.clone(),
            Error::Io { message } => message.clone(),
            Error::Other { message } => message.clone(),
        }
    }
}

/// `r` is a configuration error with the given text.
pub open spec fn config_error<T>(r: Result<T, Error>, text: Seq<char>) -> bool {
    r matches Err(Error::Config { message }) && message@ == text
}

/// `r` is a parse error with the given text.
pub open spec fn parse_error<T>(r: Result<T, Error>, text: Seq<char>) -> bool {
    r matches Err(Error::Parse { message }) && message@ == text
}

/// `r` is an error of a command that left `output` behind, with the given text.
pub open spec fn jj_error<T>(r: Result<T, Error>, text: Seq<char>, output: RawOutput) -> bool {
    r matches Err(Error::JjCommand { message, output: left }) && message@ == text && left == Some(
        output,
    )
}

/// `r` is an input or output error with the given text.
pub open spec fn io_error<T>(r: Result<T, Error>, text: Seq<char>) -> bool {
    r matches Err(Error::Io { message }) && message@ == text
}

/// `r` is an error of no particular kind with the given text.
pub open spec fn other_error<T>(r: Result<T, Error>, text: Seq<char>) -> bool {
    r matches Err(Error::Other { message }) && message@ == text
}

/// The text of an error is its message, whatever kind it is.
pub proof fn error_tells_its_message(e: Error, r: String)
    requires
        call_ensures(Error::to_string, (&e,), r),
    ensures
        e matches Error::Config { message } ==> r@ == message@,
        e matches Error::Parse { message } ==> r@ == message@,
        e matches Error::JjCommand { message, .. } ==> r@ == message@,
        e matches Error::Io { message } ==> r@ == message@,
        e matches Error::Other { message } ==> r@ == message@,
{
}

} // verus!
