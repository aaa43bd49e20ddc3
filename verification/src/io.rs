//! The plain-value boundary between the verified protocol layer and its two
//! outside collaborators. The QUIC transport's observations arrive as
//! [`TransportEvent`]s and [`StreamData`]; what it must do leaves as
//! [`TransportCmd`]s. The QPACK codec's work is requested through
//! [`QpackCmd`]s and its answers return as [`QpackEvent`]s. The driver that
//! owns the real transport and codec runs the loop; every decision in
//! between is made here and is verified.

use vstd::prelude::*;

verus! {

/// Which side of the connection this endpoint plays, fixed at construction.
#[derive(Debug, Clone, Copy, PartialEq, Eq, Structural)]
pub enum Role {
    Client,
    Server,
}

/// A stream's directionality.
#[derive(Debug, Clone, Copy, PartialEq, Eq, Structural)]
pub enum StreamType {
    BiDi,
    UniDi,
}

/// The transport connection's coarse state, as the driver observes it.
#[derive(Debug, Clone, Copy, PartialEq, Eq, Structural)]
pub enum TransportState {
    Connecting,
    Connected,
    Closed,
}

/// One event the transport reported.
#[derive(Debug, Clone, PartialEq, Eq)]
pub enum TransportEvent {
    NewStream { stream_id: u64, stream_type: StreamType },
    RecvStreamReadable { stream_id: u64 },
    SendStreamWritable { stream_id: u64 },
    RecvStreamReset { stream_id: u64, app_error: u16 },
    SendStreamStopSending { stream_id: u64, app_error: u16 },
    SendStreamComplete { stream_id: u64 },
    SendStreamCreatable { stream_type: StreamType },
    ConnectionClosed { error_code: u16 },
    ZeroRttRejected,
}

/// The bytes the driver read off one stream this tick, in ascending
/// stream-id order, with whether FIN followed them.
#[derive(Debug)]
pub struct StreamData {
    pub stream_id: u64,
    pub data: Vec<u8>,
    pub fin: bool,
}

/// One action the transport must perform.
#[derive(Debug, PartialEq, Eq)]
pub enum TransportCmd {
    /// A new local unidirectional stream was allocated; QUIC hands out ids
    /// sequentially, so the transport's next one carries this id.
    CreateUniStream { stream_id: u64 },
    /// A new local bidirectional stream was allocated (by `fetch`).
    CreateBiDiStream { stream_id: u64 },
    /// Queue these bytes on the stream, after everything queued before.
    SendBytes { stream_id: u64, data: Vec<u8> },
    /// Close the sending side of the stream.
    CloseSend { stream_id: u64 },
    /// Ask the peer to stop sending on the stream, with this error code.
    StopSending { stream_id: u64, app_error: u16 },
    /// Close the connection with this error code.
    Close { app_error: u16, msg: String },
}

/// One piece of work for the QPACK codec.
#[derive(Debug, PartialEq, Eq)]
pub enum QpackCmd {
    /// Encode this header list for the request stream; answer with
    /// `HeadersEncoded`.
    EncodeHeaders { stream_id: u64, headers: Vec<(String, String)> },
    /// Decode this header block for the request stream; answer with
    /// `HeadersDecoded`, as soon as the dynamic table allows.
    DecodeHeaders { stream_id: u64, header_block: Vec<u8> },
    /// Bytes that arrived on the peer's encoder stream: feed them to the
    /// local decoder's dynamic table.
    DecoderReceive { data: Vec<u8> },
    /// Bytes that arrived on the peer's decoder stream: feed them to the
    /// local encoder.
    EncoderReceive { data: Vec<u8> },
    /// The peer's SETTINGS bound the encoder's table capacity.
    SetMaxTableSize { value: u64 },
    /// The peer's SETTINGS bound the encoder's blocked-stream count.
    SetBlockedStreams { value: u64 },
}

/// One answer from the QPACK codec, handed into the next tick.
#[derive(Debug)]
pub enum QpackEvent {
    /// The header block encoding the list handed out in `EncodeHeaders`.
    HeadersEncoded { stream_id: u64, header_block: Vec<u8> },
    /// The header list decoded from the block handed out in
    /// `DecodeHeaders` (possibly ticks later, if decoding was blocked on
    /// dynamic-table updates).
    HeadersDecoded { stream_id: u64, headers: Vec<(String, String)> },
    /// Instruction bytes the encoder wants sent on its own stream.
    SendEncoderData { data: Vec<u8> },
    /// Instruction bytes the decoder wants sent on its own stream.
    SendDecoderData { data: Vec<u8> },
}

/// A request whose headers have arrived on a server: the application
/// answers with a [`ResponseData`].
#[derive(Debug)]
pub struct RequestInfo {
    pub stream_id: u64,
    pub headers: Vec<(String, String)>,
    pub fin: bool,
}

/// The application's (already QPACK-encoded) answer to a `RequestInfo`.
#[derive(Debug)]
pub struct ResponseData {
    pub stream_id: u64,
    pub header_block: Vec<u8>,
    pub body: Vec<u8>,
}

/// Everything the driver observed since the last tick.
#[derive(Debug)]
pub struct TickInput {
    pub events: Vec<TransportEvent>,
    pub stream_data: Vec<StreamData>,
    pub qpack: Vec<QpackEvent>,
    pub responses: Vec<ResponseData>,
}

impl TickInput {
    /// A tick with nothing new from outside.
    pub fn empty() -> (r: TickInput)
        ensures
            r.events@.len() == 0,
            r.stream_data@.len() == 0,
            r.qpack@.len() == 0,
            r.responses@.len() == 0,
    {
        TickInput { events: Vec::new(), stream_data: Vec::new(), qpack: Vec::new(), responses: Vec::new() }
    }
}

/// Everything the driver must do after a tick.
#[derive(Debug)]
pub struct TickOutput {
    pub cmds: Vec<TransportCmd>,
    pub qpack: Vec<QpackCmd>,
    pub requests: Vec<RequestInfo>,
}

} // verus!
