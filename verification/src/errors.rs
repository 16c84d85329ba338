//! The closed failure vocabularies shared by every component: parse
//! failures, store failures, and snapshot codec failures.

use vstd::prelude::*;

verus! {

/// Failure of turning a text line into a command.
#[derive(Debug, Clone, Copy, PartialEq, Eq, Structural)]
pub enum ParseError {
    InvalidParameters,
    NotACommand,
    IsEmpty,
}

/// Failure of a store operation.
#[derive(Debug, Clone, Copy, PartialEq, Eq, Structural)]
pub enum DictionaryError {
    DoesNotExist,
    IsExpired,
    InvalidOperationType,
    IOError(SerializationError),
}

/// Failure of the snapshot codec or of the I/O around it.
#[derive(Debug, Clone, Copy, PartialEq, Eq, Structural)]
pub enum SerializationError {
    KeyRead,
    ValueRead,
    TimestampRead,
    IORead,
    IOWrite,
}

impl ParseError {
    /// The human-readable text bound to this variant.
    pub open spec fn message(self) -> Seq<char> {
        match self {
            ParseError::NotACommand => "Not a command!"@,
            ParseError::InvalidParameters => "Command parameters are invalid!"@,
            ParseError::IsEmpty => "Empty."@,
        }
    }

    pub fn to_string(&self) -> (r: String)
        ensures
            r@ == self.message(),
    {
        match self {
            ParseError::NotACommand => "Not a command!".to_owned(),
            ParseError::InvalidParameters => "Command parameters are invalid!".to_owned(),
            ParseError::IsEmpty => "Empty.".to_owned(),
        }
    }
}

impl SerializationError {
    /// The human-readable text bound to this variant.
    pub open spec fn message(self) -> Seq<char> {
        match self {
            SerializationError::KeyRead => "Key could not be read."@,
            SerializationError::ValueRead => "Value could not be read."@,
            SerializationError::TimestampRead => "Expiration timestamp could not be read."@,
            SerializationError::IORead => "IO read failed."@,
            SerializationError::IOWrite => "IO write failed."@,
        }
    }

    pub fn to_string(&self) -> (r: String)
        ensures
            r@ == self.message(),
    {
        match self {
            SerializationError::KeyRead => "Key could not be read.".to_owned(),
            SerializationError::ValueRead => "Value could not be read.".to_owned(),
            SerializationError::TimestampRead => {
                "Expiration timestamp could not be read.".to_owned()
            },
            SerializationError::IORead => "IO read failed.".to_owned(),
            SerializationError::IOWrite => "IO write failed.".to_owned(),
        }
    }
}

impl DictionaryError {
    /// The human-readable text bound to this variant.
    pub open spec fn message(self) -> Seq<char> {
        match self {
            DictionaryError::DoesNotExist => "Key does not exist."@,
            DictionaryError::IsExpired => "Key has expired."@,
            DictionaryError::InvalidOperationType => {
                "This operation is not defined on value type."@
            },
            DictionaryError::IOError(e) => e.message(),
        }
    }

    pub fn to_string(&self) -> (r: String)
        ensures
            r@ == self.message(),
    {
        match self {
            DictionaryError::DoesNotExist => "Key does not exist.".to_owned(),
            DictionaryError::IsExpired => "Key has expired.".to_owned(),
            DictionaryError::InvalidOperationType => {
                "This operation is not defined on value type.".to_owned()
            },
            DictionaryError::IOError(e) => e.to_string(),
        }
    }
}

impl From<SerializationError> for DictionaryError {
    /// Every codec failure surfaces at the command boundary wrapped as an
    /// `IOError`.
    fn from(value: SerializationError) -> (r: DictionaryError) {
        DictionaryError::IOError(value)
    }
}

impl vstd::std_specs::convert::FromSpecImpl<SerializationError> for DictionaryError {
    open spec fn obeys_from_spec() -> bool {
        true
    }

    open spec fn from_spec(v: SerializationError) -> DictionaryError {
        DictionaryError::IOError(v)
    }
}

} // verus!
