//! The errors of the store.

use r2d2_redis::r2d2::Error as PoolError;
use r2d2_redis::redis::RedisError;
use vstd::prelude::*;

verus! {

/// Errors relating to the store.
#[derive(Copy, Clone, Debug, PartialEq, Eq, Structural)]
pub enum Error {
    /// A connection error occurred.
    Connection,
    /// An internal error occurred.
    InternalError,
    /// A message exists.
    Exists,
    /// An error occurred while reading.
    ReadError,
    /// An error occurred while writing.
    WriteError,
}

/// The kind of input or output error that an error of the store is
/// reported as.
#[derive(Copy, Clone, Debug, PartialEq, Eq, Structural)]
pub enum Kind {
    /// The connection was refused.
    ConnectionRefused,
    /// Any other error.
    Other,
}

/// `r2d2::Error`, the error of the connection pool: no connection could be
/// had in time.
#[verifier::external_type_specification]
#[verifier::external_body]
pub struct ExPoolError(PoolError);

/// `redis::RedisError`, the error of a command sent to the key-value
/// service.
#[verifier::external_type_specification]
#[verifier::external_body]
pub struct ExRedisError(RedisError);

/// The name of an error.
pub open spec fn error_name(error: Error) -> Seq<char> {
    match error {
        Error::Connection => "Connection"@,
        Error::InternalError => "InternalError"@,
        Error::Exists => "Exists"@,
        Error::ReadError => "ReadError"@,
        Error::WriteError => "WriteError"@,
    }
}

impl Error {
    /// The name of this error.
    pub fn to_string(&self) -> (r: String)
        ensures
            r@ == error_name(*self),
    {
        match self {
            Error::Connection => "Connection".to_owned(),
            Error::InternalError => "InternalError".to_owned(),
            Error::Exists => "Exists".to_owned(),
            Error::ReadError => "ReadError".to_owned(),
            Error::WriteError => "WriteError".to_owned(),
        }
    }

    /// The kind of input or output error that this error is reported as:
    /// a refused connection for a connection error, and other for the rest.
    pub fn kind(&self) -> (r: Kind)
        ensures
            r == if *self == Error::Connection {
                Kind::ConnectionRefused
            } else {
                Kind::Other
            },
    {
        match self {
            Error::Connection => Kind::ConnectionRefused,
            _ => Kind::Other,
        }
    }
}

impl From<PoolError> for Error {
    /// An error of the connection pool is a connection error.
    fn from(_source: PoolError) -> (r: Self) {
        Error::Connection
    }
}

impl vstd::std_specs::convert::FromSpecImpl<PoolError> for Error {
    open spec fn obeys_from_spec() -> bool {
        true
    }

    open spec fn from_spec(_source: PoolError) -> Self {
        Error::Connection
    }
}

impl From<RedisError> for Error {
    /// An error of a command is a connection error.
    fn from(_source: RedisError) -> (r: Self) {
        Error::Connection
    }
}

impl vstd::std_specs::convert::FromSpecImpl<RedisError> for Error {
    open spec fn obeys_from_spec() -> bool {
        true
    }

    open spec fn from_spec(_source: RedisError) -> Self {
        Error::Connection
    }
}

} // verus!
