//! The error kinds of the store.

use vstd::prelude::*;
use vstd::string::*;

verus! {

/// Everything that can go wrong in the store, its server or its client.
///
/// Variants that stand for a failure of an outside component carry that
/// component's own description of the failure.
#[derive(Debug)]
pub enum KvsError {
    /// A filesystem or socket operation failed.
    Io(String),
    /// A record or message was malformed or truncated.
    Serde(String),
    /// The alternative storage engine reported a failure.
    Sled(String),
    /// Bytes that should have been a string were not UTF-8.
    Utf8(String),
    /// `remove` was called on a key that is not present.
    KeyNotFound,
    /// The index pointed at a record that is not a `Set`.
    UnexpectedCommandType,
    /// The data directory was last written by another engine.
    EngineMismatch,
    /// An error reported by the server over the wire.
    StringError(String),
}

impl KvsError {
    /// The text shown to a user for this error.
    pub open spec fn message_text(self) -> Seq<char> {
        match self {
            KvsError::Io(s) => "IO error: "@ + s@,
            KvsError::Serde(s) => "Serialization error: "@ + s@,
            KvsError::Sled(s) => "Sled error: "@ + s@,
            KvsError::Utf8(s) => "UTF-8 conversion error: "@ + s@,
            KvsError::KeyNotFound => "Key not found"@,
            KvsError::UnexpectedCommandType => "Unexpected command type"@,
            KvsError::EngineMismatch => "Engine mismatch"@,
            KvsError::StringError(s) => s@,
        }
    }

    /// Renders the error as the text shown to a user.
    pub fn message(&self) -> (text: String)
        ensures
            text@ == self.message_text(),
    {
        match self {
            KvsError::Io(s) => String::from_str("IO error: ").concat(s.as_str()),
            KvsError::Serde(s) => String::from_str("Serialization error: ").concat(s.as_str()),
            KvsError::Sled(s) => String::from_str("Sled error: ").concat(s.as_str()),
            KvsError::Utf8(s) => String::from_str("UTF-8 conversion error: ").concat(s.as_str()),
            KvsError::KeyNotFound => String::from_str("Key not found"),
            KvsError::UnexpectedCommandType => String::from_str("Unexpected command type"),
            KvsError::EngineMismatch => String::from_str("Engine mismatch"),
            KvsError::StringError(s) => s.clone(),
        }
    }
}

} // verus!
