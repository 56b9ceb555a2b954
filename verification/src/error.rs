//! The ways in which an operation on connections fails.
use vstd::prelude::*;
use vstd::string::*;

verus! {

/// Why an operation failed.
#[derive(Debug, Clone, PartialEq, Eq)]
pub enum ConnectionError {
    /// A line named neither a host nor a user.
    MissingRequiredFields,
    /// The value of a port segment is no number that fits a port.
    InvalidPort,
    /// The private key file, by the path that was asked for, has no
    /// canonical form on the file system.
    PathNotFound(String),
    /// Reading or writing failed; the cause, in words.
    IoError(String),
    /// A selection beyond the records that there are.
    IndexOutOfRange,
    /// A selection that is no number.
    NotANumber,
}

impl ConnectionError {
    /// The text that tells the user of this error.
    pub open spec fn spec_message(self) -> Seq<char> {
        match self {
            ConnectionError::MissingRequiredFields => "Username & Host are required"@,
            ConnectionError::InvalidPort => "Invalid port"@,
            ConnectionError::PathNotFound(path) => "File : "@ + path@ + " Not Found"@,
            ConnectionError::IoError(cause) => cause@,
            ConnectionError::IndexOutOfRange => "Invalid Option"@,
            ConnectionError::NotANumber => "Not a number"@,
        }
    }

    /// The text that tells the user of this error.
    pub fn message(&self) -> (out: String)
        ensures
            out@ == self.spec_message(),
    {
        match self {
            ConnectionError::MissingRequiredFields => "Username & Host are required".to_owned(),
            ConnectionError::InvalidPort => "Invalid port".to_owned(),
            ConnectionError::PathNotFound(path) => {
                let mut out = "File : ".to_owned();
                out.append(path.as_str());
                out.append(" Not Found");
                out
            },
            ConnectionError::IoError(cause) => cause.clone(),
            ConnectionError::IndexOutOfRange => "Invalid Option".to_owned(),
            ConnectionError::NotANumber => "Not a number".to_owned(),
        }
    }
}

} // verus!
