//! Error values shared by every component.

use vstd::prelude::*;

verus! {

/// The kind of failure, which decides how far the failure propagates.
#[derive(Clone, Copy, Debug, PartialEq, Eq, Structural)]
pub enum ErrorKind {
    /// Bytes that cannot be a packet: reserved bits set, bad UTF-8, an impossible
    /// length, an enumerated value out of range.
    MalformedPacket,
    /// A well-formed packet whose field values break a rule of the protocol.
    ProtocolError,
    /// A value handed in by the embedding application that cannot be used.
    InvalidInput,
    /// An I/O failure other than "would block".
    IOError,
    /// The remote end has gone away.
    Disconnected,
    /// The consumer of a control channel has died.
    IPCFail,
}

/// Reason codes that travel in DISCONNECT and acknowledgement packets.
#[derive(Clone, Copy, Debug, PartialEq, Eq, Structural)]
pub enum ReasonCode {
    Success,
    NoMatchingSubscribers,
    UnspecifiedError,
    MalformedPacket,
    ProtocolError,
    ImplementationSpecificError,
    UnsupportedProtocolVersion,
    NotAuthorized,
    TopicNameInvalid,
    PacketIdentifierInUse,
    PacketIdNotFound,
    PacketTooLarge,
    QuotaExceeded,
    PayloadFormatInvalid,
}

impl ReasonCode {
    /// The byte that stands for this reason code on the wire.
    pub open spec fn spec_to_u8(self) -> u8 {
        match self {
            ReasonCode::Success => 0x00,
            ReasonCode::NoMatchingSubscribers => 0x10,
            ReasonCode::UnspecifiedError => 0x80,
            ReasonCode::MalformedPacket => 0x81,
            ReasonCode::ProtocolError => 0x82,
            ReasonCode::ImplementationSpecificError => 0x83,
            ReasonCode::UnsupportedProtocolVersion => 0x84,
            ReasonCode::NotAuthorized => 0x87,
            ReasonCode::TopicNameInvalid => 0x90,
            ReasonCode::PacketIdentifierInUse => 0x91,
            ReasonCode::PacketIdNotFound => 0x92,
            ReasonCode::PacketTooLarge => 0x95,
            ReasonCode::QuotaExceeded => 0x97,
            ReasonCode::PayloadFormatInvalid => 0x99,
        }
    }

    #[verifier::when_used_as_spec(spec_to_u8)]
    pub fn to_u8(self) -> (b: u8)
        ensures
            b == self.spec_to_u8(),
    {
        match self {
            ReasonCode::Success => 0x00,
            ReasonCode::NoMatchingSubscribers => 0x10,
            ReasonCode::UnspecifiedError => 0x80,
            ReasonCode::MalformedPacket => 0x81,
            ReasonCode::ProtocolError => 0x82,
            ReasonCode::ImplementationSpecificError => 0x83,
            ReasonCode::UnsupportedProtocolVersion => 0x84,
            ReasonCode::NotAuthorized => 0x87,
            ReasonCode::TopicNameInvalid => 0x90,
            ReasonCode::PacketIdentifierInUse => 0x91,
            ReasonCode::PacketIdNotFound => 0x92,
            ReasonCode::PacketTooLarge => 0x95,
            ReasonCode::QuotaExceeded => 0x97,
            ReasonCode::PayloadFormatInvalid => 0x99,
        }
    }
}

/// A failure: its kind, and the reason code that a DISCONNECT sent on its
/// account carries.
#[derive(Clone, Copy, Debug, PartialEq, Eq, Structural)]
pub struct Error {
    pub kind: ErrorKind,
    pub code: ReasonCode,
}

/// The error for bytes that cannot be a packet.
pub open spec fn malformed() -> Error {
    Error { kind: ErrorKind::MalformedPacket, code: ReasonCode::MalformedPacket }
}

/// The error for a field value that breaks a rule of the protocol.
pub open spec fn protocol_error() -> Error {
    Error { kind: ErrorKind::ProtocolError, code: ReasonCode::ProtocolError }
}

/// The error for a protocol name or version that the broker does not speak.
pub open spec fn unsupported_version() -> Error {
    Error { kind: ErrorKind::ProtocolError, code: ReasonCode::UnsupportedProtocolVersion }
}

/// The error for a value that the application should not have handed in.
pub open spec fn invalid_input() -> Error {
    Error { kind: ErrorKind::InvalidInput, code: ReasonCode::UnspecifiedError }
}

impl Error {
    pub fn new(kind: ErrorKind, code: ReasonCode) -> (e: Error)
        ensures
            e.kind == kind,
            e.code == code,
    {
        Error { kind, code }
    }

    pub fn malformed() -> (e: Error)
        ensures
            e == self::malformed(),
    {
        Error { kind: ErrorKind::MalformedPacket, code: ReasonCode::MalformedPacket }
    }

    pub fn protocol_error() -> (e: Error)
        ensures
            e == self::protocol_error(),
    {
        Error { kind: ErrorKind::ProtocolError, code: ReasonCode::ProtocolError }
    }

    pub fn unsupported_version() -> (e: Error)
        ensures
            e == self::unsupported_version(),
    {
        Error { kind: ErrorKind::ProtocolError, code: ReasonCode::UnsupportedProtocolVersion }
    }

    pub fn invalid_input() -> (e: Error)
        ensures
            e == self::invalid_input(),
    {
        Error { kind: ErrorKind::InvalidInput, code: ReasonCode::UnspecifiedError }
    }

    /// The kind of this failure.
    pub fn kind(&self) -> (k: ErrorKind)
        ensures
            k == self.kind,
    {
        self.kind
    }

    /// The reason byte of the DISCONNECT that answers this failure.
    pub fn reason_byte(&self) -> (b: u8)
        ensures
            b == self.code.spec_to_u8(),
    {
        self.code.to_u8()
    }
}

} // verus!
