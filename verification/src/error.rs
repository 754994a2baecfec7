//! The error model shared by both wire formats.

use vstd::prelude::*;
use vstd::std_specs::convert::FromSpecImpl;

verus! {

/// A request that was refused locally, or that the server refused as malformed.
#[derive(Clone, Copy, Debug, PartialEq, Eq, Structural)]
pub enum ClientError {
    /// The key is longer than 250 bytes.
    KeyTooLong,
    /// The payload is longer than the 32-bit body length of a packet can
    /// describe, or the message takes more datagrams than can be numbered.
    ValueTooLong,
    /// The server answered `CLIENT_ERROR`: it could not make sense of the request.
    Error,
}

/// Wire data that is not what the protocol allows at that point.
#[derive(Clone, Copy, Debug, PartialEq, Eq, Structural)]
pub enum ServerError {
    /// A binary packet began with this byte instead of the response marker.
    BadMagic(u8),
    /// A response is framed or worded in a way the protocol does not know.
    BadResponse,
    /// The server answered `SERVER_ERROR`.
    Error,
}

/// The outcome that the server reports for a command it understood.
#[derive(Clone, Copy, Debug, PartialEq, Eq, Structural)]
pub enum CommandError {
    KeyNotFound,
    KeyExists,
    ValueTooLarge,
    InvalidArguments,
    ItemNotStored,
    IncrDecrOnNonNumericValue,
    AuthenticationRequired,
    UnknownCommand,
    OutOfMemory,
    /// Any status code without a name of its own.
    Unknown(u16),
}

/// Text that could not be read as what the protocol expects.
#[derive(Clone, Copy, Debug, PartialEq, Eq, Structural)]
pub enum ParseError {
    /// Bytes that should be text are not valid UTF-8.
    Utf8,
    /// A decimal field holds something else than digits, or does not fit its type.
    Number,
}

/// A failure of the byte channel, as far as the engine itself can see one.
#[derive(Clone, Copy, Debug, PartialEq, Eq, Structural)]
pub enum TransportError {
    /// The bytes end before the message does.
    UnexpectedEof,
    /// A datagram is too short to hold a frame header.
    InvalidDatagram,
}

/// Everything that can go wrong in an exchange.
#[derive(Clone, Copy, Debug, PartialEq, Eq, Structural)]
pub enum MemcacheError {
    IOError(TransportError),
    ClientError(ClientError),
    ServerError(ServerError),
    CommandError(CommandError),
    ParseError(ParseError),
}

/// The status code of a successful response.
pub const OK_STATUS: u16 = 0;

impl CommandError {
    /// The error that a status code stands for.
    pub open spec fn of_status(status: u16) -> CommandError {
        if status == 0x01 {
            CommandError::KeyNotFound
        } else if status == 0x02 {
            CommandError::KeyExists
        } else if status == 0x03 {
            CommandError::ValueTooLarge
        } else if status == 0x04 {
            CommandError::InvalidArguments
        } else if status == 0x05 {
            CommandError::ItemNotStored
        } else if status == 0x06 {
            CommandError::IncrDecrOnNonNumericValue
        } else if status == 0x20 {
            CommandError::AuthenticationRequired
        } else if status == 0x81 {
            CommandError::UnknownCommand
        } else if status == 0x82 {
            CommandError::OutOfMemory
        } else {
            CommandError::Unknown(status)
        }
    }

    /// The status code that stands for an error.
    pub open spec fn spec_status(self) -> u16 {
        match self {
            CommandError::KeyNotFound => 0x01,
            CommandError::KeyExists => 0x02,
            CommandError::ValueTooLarge => 0x03,
            CommandError::InvalidArguments => 0x04,
            CommandError::ItemNotStored => 0x05,
            CommandError::IncrDecrOnNonNumericValue => 0x06,
            CommandError::AuthenticationRequired => 0x20,
            CommandError::UnknownCommand => 0x81,
            CommandError::OutOfMemory => 0x82,
            CommandError::Unknown(status) => status,
        }
    }

    /// The status code that the binary protocol uses for this error.
    #[verifier::when_used_as_spec(spec_status)]
    pub fn status(self) -> (code: u16)
        ensures
            code == self.spec_status(),
    {
        match self {
            CommandError::KeyNotFound => 0x01,
            CommandError::KeyExists => 0x02,
            CommandError::ValueTooLarge => 0x03,
            CommandError::InvalidArguments => 0x04,
            CommandError::ItemNotStored => 0x05,
            CommandError::IncrDecrOnNonNumericValue => 0x06,
            CommandError::AuthenticationRequired => 0x20,
            CommandError::UnknownCommand => 0x81,
            CommandError::OutOfMemory => 0x82,
            CommandError::Unknown(status) => status,
        }
    }

    /// Status codes and errors correspond one to one: the error made from a
    /// status code has that code, so two codes never share an error.
    pub proof fn lemma_status_round_trip(status: u16)
        ensures
            CommandError::of_status(status).spec_status() == status,
    {
    }

    /// Two different status codes stand for two different errors.
    pub proof fn lemma_of_status_injective(a: u16, b: u16)
        requires
            CommandError::of_status(a) == CommandError::of_status(b),
        ensures
            a == b,
    {
        Self::lemma_status_round_trip(a);
        Self::lemma_status_round_trip(b);
    }
}

impl From<u16> for CommandError {
    fn from(status: u16) -> (err: CommandError) {
        if status == 0x01 {
            CommandError::KeyNotFound
        } else if status == 0x02 {
            CommandError::KeyExists
        } else if status == 0x03 {
            CommandError::ValueTooLarge
        } else if status == 0x04 {
            CommandError::InvalidArguments
        } else if status == 0x05 {
            CommandError::ItemNotStored
        } else if status == 0x06 {
            CommandError::IncrDecrOnNonNumericValue
        } else if status == 0x20 {
            CommandError::AuthenticationRequired
        } else if status == 0x81 {
            CommandError::UnknownCommand
        } else if status == 0x82 {
            CommandError::OutOfMemory
        } else {
            CommandError::Unknown(status)
        }
    }
}

impl FromSpecImpl<u16> for CommandError {
    open spec fn obeys_from_spec() -> bool {
        true
    }

    open spec fn from_spec(status: u16) -> CommandError {
        CommandError::of_status(status)
    }
}

} // verus!
