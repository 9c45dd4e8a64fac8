//! The store's errors.

use vstd::prelude::*;

verus! {

#[verifier::external_type_specification]
#[verifier::external_body]
pub struct ExIoError(std::io::Error);

/// What can go wrong in an operation of the store.
#[derive(Debug)]
pub enum KvError {
    /// Reading or writing the log file failed.
    IoError(std::io::Error),
    /// A record could not be encoded, with the encoder's error where it
    /// gave one (none for a string too long for the format).
    EncodeError(Option<rmp_serde::encode::Error>),
    /// No record could be decoded at a given offset, with the decoder's
    /// error where it gave one (none for an offset past the log's end).
    DecodeError(Option<rmp_serde::decode::Error>),
    /// The key to remove is not in the store.
    KeyNotFound,
    /// Reserved for failures of no other kind.
    Unknown,
}

/// The result of an operation of the store.
pub type Result<T> = std::result::Result<T, KvError>;

impl KvError {
    /// The text that describes this kind of error.
    pub fn message(&self) -> (r: String)
        ensures
            r@ == kind_message(*self),
    {
        match self {
            KvError::IoError(_) => "IO error".to_owned(),
            KvError::EncodeError(_) => "Encode error".to_owned(),
            KvError::DecodeError(_) => "Decode error".to_owned(),
            KvError::KeyNotFound => "Key not found".to_owned(),
            KvError::Unknown => "Unknown error".to_owned(),
        }
    }
}

/// The text of each kind of error.
pub open spec fn kind_message(e: KvError) -> Seq<char> {
    match e {
        KvError::IoError(_) => "IO error"@,
        KvError::EncodeError(_) => "Encode error"@,
        KvError::DecodeError(_) => "Decode error"@,
        KvError::KeyNotFound => "Key not found"@,
        KvError::Unknown => "Unknown error"@,
    }
}

impl From<std::io::Error> for KvError {
    fn from(e: std::io::Error) -> (r: KvError) {
        KvError::IoError(e)
    }
}

impl vstd::std_specs::convert::FromSpecImpl<std::io::Error> for KvError {
    open spec fn obeys_from_spec() -> bool {
        true
    }

    open spec fn from_spec(e: std::io::Error) -> KvError {
        KvError::IoError(e)
    }
}

impl From<rmp_serde::encode::Error> for KvError {
    fn from(e: rmp_serde::encode::Error) -> (r: KvError) {
        KvError::EncodeError(Some(e))
    }
}

impl vstd::std_specs::convert::FromSpecImpl<rmp_serde::encode::Error> for KvError {
    open spec fn obeys_from_spec() -> bool {
        true
    }

    open spec fn from_spec(e: rmp_serde::encode::Error) -> KvError {
        KvError::EncodeError(Some(e))
    }
}

impl From<rmp_serde::decode::Error> for KvError {
    fn from(e: rmp_serde::decode::Error) -> (r: KvError) {
        KvError::DecodeError(Some(e))
    }
}

impl vstd::std_specs::convert::FromSpecImpl<rmp_serde::decode::Error> for KvError {
    open spec fn obeys_from_spec() -> bool {
        true
    }

    open spec fn from_spec(e: rmp_serde::decode::Error) -> KvError {
        KvError::DecodeError(Some(e))
    }
}

} // verus!
