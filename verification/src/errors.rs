//! Errors reported by the client.

use vstd::prelude::*;

verus! {

/// Why an operation of the client failed. The first three carry the message
/// of the failure that the store, the file system or the environment
/// reported; the last names an input that the client itself refused.
#[derive(Debug)]
pub enum CliError {
    /// The store, or the transport to it, failed.
    OssError(String),
    /// The local file system failed.
    Io(String),
    /// A setting is missing from the environment.
    VarError(String),
    /// An argument or a listed key is not acceptable.
    Input(&'static str),
}

/// What operations of the client return.
pub type CliResult<T> = Result<T, CliError>;

impl CliError {
    /// The message that the error carries, without the words that name its
    /// kind.
    pub open spec fn detail(self) -> Seq<char> {
        match self {
            CliError::OssError(m) => m@,
            CliError::Io(m) => m@,
            CliError::VarError(m) => m@,
            CliError::Input(m) => m@,
        }
    }

    /// The words that name the kind of the error.
    pub open spec fn heading(self) -> Seq<char> {
        match self {
            CliError::OssError(_) => "oss-client error: "@,
            CliError::Io(_) => "io error: "@,
            CliError::VarError(_) => "var error: "@,
            CliError::Input(_) => "input error: "@,
        }
    }

    /// Whether the error is about an input that the client refused, and not
    /// about the store, the file system or the environment.
    pub fn is_input(&self) -> (r: bool)
        ensures
            r == (*self is Input),
    {
        match self {
            CliError::Input(_) => true,
            _ => false,
        }
    }

    /// The error in words: its kind, then its message.
    pub fn message(&self) -> (r: String)
        ensures
            r@ == self.heading() + self.detail(),
    {
        match self {
            CliError::OssError(m) => String::from_str("oss-client error: ").concat(m.as_str()),
            CliError::Io(m) => String::from_str("io error: ").concat(m.as_str()),
            CliError::VarError(m) => String::from_str("var error: ").concat(m.as_str()),
            CliError::Input(m) => String::from_str("input error: ").concat(m),
        }
    }
}

} // verus!
