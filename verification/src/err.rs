//! The closed set of HTTP/3 protocol errors, each with the application error
//! code it carries on the wire, plus the small error type surfaced to
//! applications through the public read API.

use vstd::prelude::*;

verus! {

/// A protocol-level error. Each variant carries a wire error code via
/// [`Error::code`]; [`Error::is_stream_error`] tells whether the error may be
/// isolated to a single stream instead of closing the whole connection.
#[derive(Debug, Clone, Copy, PartialEq, Eq, Structural)]
pub enum Error {
    HttpNoError,
    WrongSettingsDirection,
    PushRefused,
    InternalError,
    PushAlreadyInCache,
    RequestCancelled,
    IncompleteRequest,
    ConnectError,
    ExcessiveLoad,
    VersionFallback,
    WrongStream,
    LimitExceeded,
    DuplicatePush,
    UnknownStreamType,
    WrongStreamCount,
    ClosedCriticalStream,
    WrongStreamDirection,
    EarlyResponse,
    MissingSettings,
    UnexpectedFrame,
    RequestRejected,
    GeneralProtocolError,
    /// A frame whose header or payload ended prematurely or failed to parse.
    /// Carries the frame type when it was already known, else the 0xff
    /// sentinel. Always fatal to the connection.
    MalformedFrame(u64),
}

pub type Res<T> = Result<T, Error>;

impl Error {
    /// The application error code this error is signalled with on the wire.
    pub open spec fn spec_code(self) -> u16 {
        match self {
            Error::HttpNoError => 0x00,
            Error::WrongSettingsDirection => 0x01,
            Error::PushRefused => 0x02,
            Error::InternalError => 0x03,
            Error::PushAlreadyInCache => 0x04,
            Error::RequestCancelled => 0x05,
            Error::IncompleteRequest => 0x06,
            Error::ConnectError => 0x07,
            Error::ExcessiveLoad => 0x08,
            Error::VersionFallback => 0x09,
            Error::WrongStream => 0x0a,
            Error::LimitExceeded => 0x0b,
            Error::DuplicatePush => 0x0c,
            Error::UnknownStreamType => 0x0d,
            Error::WrongStreamCount => 0x0e,
            Error::ClosedCriticalStream => 0x0f,
            Error::WrongStreamDirection => 0x10,
            Error::EarlyResponse => 0x11,
            Error::MissingSettings => 0x12,
            Error::UnexpectedFrame => 0x13,
            Error::RequestRejected => 0x14,
            Error::GeneralProtocolError => 0xff,
            Error::MalformedFrame(t) => if t > 0xfe {
                0x1ff
            } else {
                (0x100 + t) as u16
            },
        }
    }

    pub fn code(&self) -> (c: u16)
        ensures
            c == self.spec_code(),
    {
        match self {
            Error::HttpNoError => 0x00,
            Error::WrongSettingsDirection => 0x01,
            Error::PushRefused => 0x02,
            Error::InternalError => 0x03,
            Error::PushAlreadyInCache => 0x04,
            Error::RequestCancelled => 0x05,
            Error::IncompleteRequest => 0x06,
            Error::ConnectError => 0x07,
            Error::ExcessiveLoad => 0x08,
            Error::VersionFallback => 0x09,
            Error::WrongStream => 0x0a,
            Error::LimitExceeded => 0x0b,
            Error::DuplicatePush => 0x0c,
            Error::UnknownStreamType => 0x0d,
            Error::WrongStreamCount => 0x0e,
            Error::ClosedCriticalStream => 0x0f,
            Error::WrongStreamDirection => 0x10,
            Error::EarlyResponse => 0x11,
            Error::MissingSettings => 0x12,
            Error::UnexpectedFrame => 0x13,
            Error::RequestRejected => 0x14,
            Error::GeneralProtocolError => 0xff,
            Error::MalformedFrame(t) => {
                if *t > 0xfe {
                    0x1ff
                } else {
                    0x100 + (*t as u16)
                }
            },
        }
    }

    /// True iff the error may be isolated to one request stream (the stream
    /// is stopped and dropped) rather than closing the connection.
    pub open spec fn spec_is_stream_error(self) -> bool {
        self == Error::WrongStream || self == Error::UnexpectedFrame
    }

    pub fn is_stream_error(&self) -> (r: bool)
        ensures
            r == self.spec_is_stream_error(),
    {
        matches!(self, Error::WrongStream | Error::UnexpectedFrame)
    }
}

/// The error type surfaced to the application by the public request API and
/// inside `RequestClosed` events.
#[derive(Debug, Clone, Copy, PartialEq, Eq, Structural)]
pub enum Http3Error {
    /// The request was torn down by the peer (for example by GOAWAY).
    NetReset,
    /// The stream id is not a live request stream.
    InvalidStreamId,
    /// The connection itself is closing or closed.
    ConnectionError,
}

} // verus!
