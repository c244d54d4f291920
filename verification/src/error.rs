//! The error taxonomy of the protocol engine.

use vstd::prelude::*;

verus! {

/// Every failure the engine can report. `NotFound` is an unresolved content
/// id or path, `NotADirectory` / `NotAFile` a mismatch between the requested
/// operation and the entry kind, `Unsupported` an unimplemented SOAP action
/// or namespace, `ExecuteError` a failure to schedule streaming work, and
/// `Invalid` / `Message` / `Other` / `Unimplemented` carry wrapped
/// lower-level failures such as decode errors.
#[derive(Debug)]
pub enum MediaError {
    Invalid(String),
    ExecuteError,
    NotADirectory(String),
    NotAFile(String),
    NotFound(String),
    Other(&'static str),
    Unimplemented(&'static str),
    Message(String),
    Unsupported(&'static str),
}

impl MediaError {
    /// The human-readable description of the error, used as a SOAP fault
    /// string when the failure happened inside the SOAP dispatch path.
    pub open spec fn spec_message(&self) -> Seq<char> {
        match self {
            MediaError::Invalid(s) => s@,
            MediaError::ExecuteError => "Execute error"@,
            MediaError::NotADirectory(p) => "Not a directory: "@ + p@,
            MediaError::NotAFile(p) => "Not a file: "@ + p@,
            MediaError::NotFound(s) => "Not found: "@ + s@,
            MediaError::Other(s) => s@,
            MediaError::Unimplemented(s) => s@,
            MediaError::Message(s) => s@,
            MediaError::Unsupported(s) => s@,
        }
    }

    /// Render the error as its message text.
    pub fn message(&self) -> (r: String)
        ensures
            r@ == self.spec_message(),
    {
        match self {
            MediaError::Invalid(s) => s.clone(),
            MediaError::ExecuteError => "Execute error".to_owned(),
            MediaError::NotADirectory(p) => "Not a directory: ".to_owned().concat(p.as_str()),
            MediaError::NotAFile(p) => "Not a file: ".to_owned().concat(p.as_str()),
            MediaError::NotFound(s) => "Not found: ".to_owned().concat(s.as_str()),
            MediaError::Other(s) => (*s).to_owned(),
            MediaError::Unimplemented(s) => (*s).to_owned(),
            MediaError::Message(s) => s.clone(),
            MediaError::Unsupported(s) => (*s).to_owned(),
        }
    }
}

} // verus!
