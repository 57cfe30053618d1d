//! Errors of the library.

use vstd::prelude::*;

use crate::text::push_text;

verus! {

/// Errors that operations of the library report.
#[derive(Debug, Clone, PartialEq, Eq)]
pub enum RfstatError {
    /// An I/O error occurred while reading the file system
    Io { message: String },
    /// Permission denied when accessing a file or directory
    PermissionDenied { path: String },
    /// The file or directory does not exist
    PathNotFound { path: String },
    /// The path given is not usable
    InvalidPath { path: String },
    /// Serialization of the results failed
    Serialization { message: String },
    /// Writing CSV failed
    Csv { message: String },
    /// A setting is invalid
    Config { message: String },
    /// Any other error
    Generic { message: String },
}

/// The message of an error: a fixed prefix followed by the error's text.
pub open spec fn error_text(e: RfstatError) -> Seq<char> {
    match e {
        RfstatError::Io { message } => "I/O error: "@ + message@,
        RfstatError::PermissionDenied { path } => "Permission denied accessing: "@ + path@,
        RfstatError::PathNotFound { path } => "Path not found: "@ + path@,
        RfstatError::InvalidPath { path } => "Invalid path: "@ + path@,
        RfstatError::Serialization { message } => "Serialization error: "@ + message@,
        RfstatError::Csv { message } => "CSV error: "@ + message@,
        RfstatError::Config { message } => "Configuration error: "@ + message@,
        RfstatError::Generic { message } => "Error: "@ + message@,
    }
}

fn prefixed(prefix: &str, text: &String) -> (r: String)
    ensures
        r@ == prefix@ + text@,
{
    let mut out = prefix.to_owned();
    push_text(&mut out, text.as_str());
    out
}

impl RfstatError {
    /// Creates a new permission denied error.
    pub fn permission_denied(path: &str) -> (r: Self)
        ensures
            r matches RfstatError::PermissionDenied { path: p } && p@ == path@,
    {
        RfstatError::PermissionDenied { path: path.to_owned() }
    }

    /// Creates a new path not found error.
    pub fn path_not_found(path: &str) -> (r: Self)
        ensures
            r matches RfstatError::PathNotFound { path: p } && p@ == path@,
    {
        RfstatError::PathNotFound { path: path.to_owned() }
    }

    /// Creates a new invalid path error.
    pub fn invalid_path(path: &str) -> (r: Self)
        ensures
            r matches RfstatError::InvalidPath { path: p } && p@ == path@,
    {
        RfstatError::InvalidPath { path: path.to_owned() }
    }

    /// Creates a new configuration error.
    pub fn config(message: &str) -> (r: Self)
        ensures
            r matches RfstatError::Config { message: m } && m@ == message@,
    {
        RfstatError::Config { message: message.to_owned() }
    }

    /// Creates a new generic error.
    pub fn generic(message: &str) -> (r: Self)
        ensures
            r matches RfstatError::Generic { message: m } && m@ == message@,
    {
        RfstatError::Generic { message: message.to_owned() }
    }

    /// The error's message, as it is shown to a user.
    pub fn to_message(&self) -> (r: String)
        ensures
            r@ == error_text(*self),
    {
        match self {
            RfstatError::Io { message } => prefixed("I/O error: ", message),
            RfstatError::PermissionDenied { path } => prefixed("Permission denied accessing: ", path),
            RfstatError::PathNotFound { path } => prefixed("Path not found: ", path),
            RfstatError::InvalidPath { path } => prefixed("Invalid path: ", path),
            RfstatError::Serialization { message } => prefixed("Serialization error: ", message),
            RfstatError::Csv { message } => prefixed("CSV error: ", message),
            RfstatError::Config { message } => prefixed("Configuration error: ", message),
            RfstatError::Generic { message } => prefixed("Error: ", message),
        }
    }
}

} // verus!
