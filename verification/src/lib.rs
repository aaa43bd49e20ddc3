//! An HTTP/3 protocol layer: connection state machine, stream typing and
//! dispatch, frame codec, settings negotiation, GOAWAY semantics, and the
//! event queue surfaced to applications.
//!
//! The QUIC transport and the QPACK header compression live outside this
//! crate. The connection consumes their observations as plain values
//! (transport events, received bytes, decoded header lists) and yields the
//! actions they must perform (bytes to send, streams to stop, header blocks
//! to encode or decode).

pub mod conn;
pub mod control;
pub mod err;
pub mod events;
pub mod frame;
pub mod io;
pub mod request;
pub mod sendbuf;
pub mod stream_type;
pub mod varint;

pub use conn::{Http3Connection, Http3State};
pub use err::{Error, Http3Error, Res};
pub use events::{Http3Event, Http3Events};
pub use frame::{HFrame, HFrameReader, HSettingType};
pub use io::{Role, StreamData, StreamType, TickInput, TickOutput, TransportCmd, TransportEvent, TransportState};
pub use io::{QpackCmd, QpackEvent, RequestInfo, ResponseData};
