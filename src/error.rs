//! The error taxonomy of the store.
use vstd::prelude::*;

verus! {

/// What went wrong.
#[derive(Clone, Debug, PartialEq, Eq)]
pub enum ErrorType {
    /// Reading or writing the backing file failed, or its path has no parent.
    FileError,
    /// A key could not be derived from the password, or a sealed value did
    /// not authenticate (a wrong password among other causes).
    CryptoError,
    /// A value or a snapshot could not be encoded or decoded.
    SerializationError,
    /// A lock was poisoned by a panic while it was held. The locks of this
    /// library cannot be: verified code that holds them does not panic.
    PoisonError,
    /// No known on-disk layout matched: the layout detected, and the one
    /// that was aimed at.
    MigrateError(String, String),
}

/// An error with an optional message for humans.
#[derive(Clone, Debug)]
pub struct KVError {
    pub error: ErrorType,
    pub msg: Option<String>,
}

impl KVError {
    /// An error of the given kind without a message.
    pub fn of(error: ErrorType) -> (r: KVError)
        ensures
            r.error == error,
            r.msg is None,
    {
        KVError { error, msg: None }
    }
}

} // verus!
