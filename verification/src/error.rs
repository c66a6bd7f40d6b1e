//! The error taxonomy: local client errors, server-reported command
//! errors, framing errors, value-decoding errors, and the umbrella type
//! that every operation returns.
//!
//! The mapping from a wire status code to a [`CommandError`] lives here
//! and nowhere else; every response parser goes through it.

use vstd::prelude::*;

verus! {

/// An error raised locally, before any bytes touch the network.
#[derive(Clone, Debug, PartialEq)]
pub enum ClientError {
    /// The key provided was longer than 250 bytes.
    KeyTooLong,
    /// A client-side failure reported as free text.
    Error(String),
    /// Construction was attempted with an empty server list.
    ConnectionsIsEmpty,
}

/// An error in what the server sent back: the framing is wrong, not
/// merely the status.
#[derive(Clone, Debug, PartialEq)]
pub enum ServerError {
    /// A response packet began with a byte other than the response magic.
    BadMagic(u8),
    /// The response did not have the shape the command calls for.
    BadResponse(String),
    /// A server-side failure reported as free text.
    Error(String),
}

/// A non-OK status from a completed round trip, keyed by the wire status
/// code.
#[derive(Clone, Copy, Debug, PartialEq, Eq, Structural)]
pub enum CommandError {
    /// The key already exists (status 0x2).
    KeyExists,
    /// The key was not found (status 0x1).
    KeyNotFound,
    /// The value was too large for the server (status 0x3).
    ValueTooLarge,
    /// The arguments of the command were invalid (status 0x4).
    InvalidArguments,
    /// The server requires authentication (status 0x20).
    AuthenticationRequired,
    /// Increment or decrement was applied to a non-numeric value (status 0x6).
    IncrOrDecrOnNonNumericValue,
    /// Any status this table does not name.
    Unknown(u16),
    /// The command itself was invalid.
    InvalidCommand,
}

/// A failure to decode response bytes into the requested value type.
#[derive(Clone, Copy, Debug, PartialEq, Eq, Structural)]
pub enum ParseError {
    /// The bytes were not `true` or `false` when a boolean was requested.
    Bool,
    /// The bytes were not a decimal number of the requested integer type.
    Int,
    /// The bytes were not valid UTF-8 when an owned string was requested.
    String,
    /// The bytes were not valid UTF-8 when borrowed text was requested.
    Str,
}

/// Everything an operation can fail with.
#[derive(Clone, Debug, PartialEq)]
pub enum MemcachedError {
    /// A read or write on the transport failed; fatal to the connection.
    IOError(String),
    /// A local error: no bytes were sent for the failing operation.
    ClientError(ClientError),
    /// A framing error in the response stream; fatal to the connection.
    ServerError(ServerError),
    /// A non-OK status from a completed round trip.
    CommandError(CommandError),
    /// The response bytes could not be decoded as the requested type.
    ParseError(ParseError),
    /// The connection pool could not lend a connection.
    PoolError(&'static str),
}

/// The status-code-to-error table: the single source of truth for what a
/// non-OK wire status means.
pub open spec fn spec_status_error(status: u16) -> CommandError {
    if status == 0x1 {
        CommandError::KeyNotFound
    } else if status == 0x2 {
        CommandError::KeyExists
    } else if status == 0x3 {
        CommandError::ValueTooLarge
    } else if status == 0x4 {
        CommandError::InvalidArguments
    } else if status == 0x6 {
        CommandError::IncrOrDecrOnNonNumericValue
    } else if status == 0x20 {
        CommandError::AuthenticationRequired
    } else {
        CommandError::Unknown(status)
    }
}

impl From<u16> for CommandError {
    /// Translate a non-OK wire status into the error it denotes.
    fn from(status: u16) -> (r: CommandError) {
        match status {
            0x1 => CommandError::KeyNotFound,
            0x2 => CommandError::KeyExists,
            0x3 => CommandError::ValueTooLarge,
            0x4 => CommandError::InvalidArguments,
            0x6 => CommandError::IncrOrDecrOnNonNumericValue,
            0x20 => CommandError::AuthenticationRequired,
            e => CommandError::Unknown(e),
        }
    }
}

impl vstd::std_specs::convert::FromSpecImpl<u16> for CommandError {
    open spec fn obeys_from_spec() -> bool {
        true
    }

    open spec fn from_spec(status: u16) -> CommandError {
        spec_status_error(status)
    }
}

impl From<ClientError> for MemcachedError {
    fn from(err: ClientError) -> (r: MemcachedError) {
        MemcachedError::ClientError(err)
    }
}

impl vstd::std_specs::convert::FromSpecImpl<ClientError> for MemcachedError {
    open spec fn obeys_from_spec() -> bool {
        true
    }

    open spec fn from_spec(err: ClientError) -> MemcachedError {
        MemcachedError::ClientError(err)
    }
}

impl From<ServerError> for MemcachedError {
    fn from(err: ServerError) -> (r: MemcachedError) {
        MemcachedError::ServerError(err)
    }
}

impl vstd::std_specs::convert::FromSpecImpl<ServerError> for MemcachedError {
    open spec fn obeys_from_spec() -> bool {
        true
    }

    open spec fn from_spec(err: ServerError) -> MemcachedError {
        MemcachedError::ServerError(err)
    }
}

impl From<CommandError> for MemcachedError {
    fn from(err: CommandError) -> (r: MemcachedError) {
        MemcachedError::CommandError(err)
    }
}

impl vstd::std_specs::convert::FromSpecImpl<CommandError> for MemcachedError {
    open spec fn obeys_from_spec() -> bool {
        true
    }

    open spec fn from_spec(err: CommandError) -> MemcachedError {
        MemcachedError::CommandError(err)
    }
}

impl From<ParseError> for MemcachedError {
    fn from(err: ParseError) -> (r: MemcachedError) {
        MemcachedError::ParseError(err)
    }
}

impl vstd::std_specs::convert::FromSpecImpl<ParseError> for MemcachedError {
    open spec fn obeys_from_spec() -> bool {
        true
    }

    open spec fn from_spec(err: ParseError) -> MemcachedError {
        MemcachedError::ParseError(err)
    }
}

} // verus!
