//! The HTTP/3 connection: the protocol state machine (Initializing →
//! Connected → GoingAway → Closing → Closed), the demultiplexer that routes
//! each readable stream to its owner, settings negotiation, GOAWAY
//! semantics, the critical-stream discipline, and the event queue.
//!
//! The QUIC transport and the QPACK codec live outside. Each call to
//! [`Http3Connection::process_http3`] consumes what the driver observed
//! (transport events, received bytes, QPACK answers, application responses)
//! and returns what must be done (bytes to send, streams to stop, header
//! blocks to encode or decode). Stream ids are allocated here, mirroring
//! QUIC's sequential allocation per kind.

use vstd::prelude::*;

use crate::control::{ControlStreamLocal, ControlStreamRemote};
use crate::err::{Error, Http3Error};
use crate::events::{event_survives_goaway, Http3Event, Http3Events};
use crate::frame::{
    frame_complete, frame_hdr, frame_wire, lemma_hdr_extend, lemma_parse_frame_type,
    lemma_prefix_incomplete, parse_frame, settings_entries, HFrame, HFrameSpec, HSettingType,
    H3_FRAME_TYPE_DATA, H3_FRAME_TYPE_DUPLICATE_PUSH, H3_FRAME_TYPE_HEADERS,
    H3_FRAME_TYPE_PUSH_PROMISE, H3_FRAME_TYPE_SETTINGS,
};
use crate::io::{
    QpackCmd, QpackEvent, RequestInfo, ResponseData, Role, StreamData, StreamType, TickInput,
    TickOutput, TransportCmd, TransportEvent, TransportState,
};
use crate::request::{
    events_extended_for, request_frame_err, RequestStreamClient, RequestStreamServer,
};
use crate::sendbuf::SendBuf;
use crate::stream_type::NewStreamTypeReader;
use crate::varint::{vi_enc, VARINT_MAX};

verus! {

/// The unidirectional stream types of the wire mapping.
pub const HTTP3_UNI_STREAM_TYPE_CONTROL: u64 = 0x0;

pub const HTTP3_UNI_STREAM_TYPE_PUSH: u64 = 0x1;

pub const QPACK_UNI_STREAM_TYPE_ENCODER: u64 = 0x2;

pub const QPACK_UNI_STREAM_TYPE_DECODER: u64 = 0x3;

/// The connection state machine. Closing may be entered from any non-Closed
/// state; Closed is terminal.
#[derive(Debug, Clone, Copy, PartialEq, Eq, Structural)]
pub enum Http3State {
    Initializing,
    Connected,
    GoingAway,
    Closing(u16),
    Closed(u16),
}

/// The SETTINGS frame sent exactly once on the Initializing→Connected edge:
/// the QPACK table size and blocked-streams limits this endpoint offers.
pub open spec fn initial_settings(max_table_size: u32, blocked_streams: u16) -> HFrameSpec {
    HFrameSpec::Settings {
        settings: seq![
            (HSettingType::MaxTableSize, max_table_size as u64),
            (HSettingType::BlockedStreams, blocked_streams as u64),
        ],
    }
}

/// Which error, if any, a frame of type `t` raises on the control stream,
/// the moment its header is parsed: the first frame must be SETTINGS, a
/// second SETTINGS is one too many, and request-scoped frames do not belong
/// here at all. Unknown types raise nothing and are skipped.
pub open spec fn control_frame_err(settings_received: bool, t: u64) -> Option<Error> {
    if !settings_received && t != H3_FRAME_TYPE_SETTINGS {
        Some(Error::MissingSettings)
    } else if settings_received && t == H3_FRAME_TYPE_SETTINGS {
        Some(Error::UnexpectedFrame)
    } else if t == H3_FRAME_TYPE_DATA || t == H3_FRAME_TYPE_HEADERS || t
        == H3_FRAME_TYPE_PUSH_PROMISE || t == H3_FRAME_TYPE_DUPLICATE_PUSH {
        Some(Error::WrongStream)
    } else {
        None
    }
}

/// Every queued event survives a GOAWAY at `cutoff`.
pub open spec fn events_survive(s: Seq<Http3Event>, cutoff: u64) -> bool {
    forall|j: int| 0 <= j < s.len() ==> event_survives_goaway(#[trigger] s[j], cutoff)
}

/// Every live client request stream sits below `bound`.
pub open spec fn client_ids_below(s: Seq<(u64, RequestStreamClient)>, bound: u64) -> bool {
    forall|i: int| 0 <= i < s.len() ==> (#[trigger] s[i]).0 < bound
}

/// The code of the last transport-closure event in the list, if any: the
/// connection ends Closed with that code.
pub open spec fn events_close_code(evs: Seq<TransportEvent>) -> Option<u16>
    decreases evs.len(),
{
    if evs.len() == 0 {
        None
    } else {
        let rest = events_close_code(evs.skip(1));
        if rest is Some {
            rest
        } else {
            match evs[0] {
                TransportEvent::ConnectionClosed { error_code } => Some(error_code),
                _ => None,
            }
        }
    }
}

/// The unidirectional stream types this layer knows.
pub open spec fn known_uni_stream_type(t: u64) -> bool {
    ||| t == HTTP3_UNI_STREAM_TYPE_CONTROL
    ||| t == HTTP3_UNI_STREAM_TYPE_PUSH
    ||| t == QPACK_UNI_STREAM_TYPE_ENCODER
    ||| t == QPACK_UNI_STREAM_TYPE_DECODER
}

/// `more` is `base` with zero or more entries appended at the back.
pub open spec fn seq_extends<T>(base: Seq<T>, more: Seq<T>) -> bool {
    more.len() >= base.len() && more.take(base.len() as int) == base
}

proof fn lemma_extends_trans<T>(a: Seq<T>, b: Seq<T>, c: Seq<T>)
    requires
        seq_extends(a, b),
        seq_extends(b, c),
    ensures
        seq_extends(a, c),
{
    assert(c.take(a.len() as int) =~= c.take(b.len() as int).take(a.len() as int));
}

proof fn lemma_extends_push<T>(a: Seq<T>, x: T)
    ensures
        seq_extends(a, a.push(x)),
{
    assert(a.push(x).take(a.len() as int) =~= a);
}

/// The three outward queues (transport commands, QPACK requests, surfaced
/// requests) only ever grow during a tick; what was pending stays pending,
/// in order, until `process_http3` hands it out.
pub closed spec fn queues_extend(pre: Http3Connection, post: Http3Connection) -> bool {
    &&& seq_extends(pre.spec_cmds(), post.spec_cmds())
    &&& seq_extends(pre.spec_qcmds(), post.spec_qcmds())
    &&& seq_extends(pre.spec_requests(), post.spec_requests())
}

proof fn lemma_queues_trans(a: Http3Connection, b: Http3Connection, c: Http3Connection)
    requires
        queues_extend(a, b),
        queues_extend(b, c),
    ensures
        queues_extend(a, c),
{
    lemma_extends_trans(a.spec_cmds(), b.spec_cmds(), c.spec_cmds());
    lemma_extends_trans(a.spec_qcmds(), b.spec_qcmds(), c.spec_qcmds());
    lemma_extends_trans(a.spec_requests(), b.spec_requests(), c.spec_requests());
}

proof fn lemma_queues_refl(a: Http3Connection)
    ensures
        queues_extend(a, a),
{
    assert(a.spec_cmds().take(a.spec_cmds().len() as int) =~= a.spec_cmds());
    assert(a.spec_qcmds().take(a.spec_qcmds().len() as int) =~= a.spec_qcmds());
    assert(a.spec_requests().take(a.spec_requests().len() as int) =~= a.spec_requests());
}

/// The first frame on the remote control stream determines legality: any
/// non-SETTINGS first frame is `MissingSettings`, a SETTINGS first frame is
/// accepted, and any later SETTINGS is `UnexpectedFrame`.
pub proof fn lemma_first_control_frame(t: u64)
    ensures
        t != H3_FRAME_TYPE_SETTINGS ==> control_frame_err(false, t) == Some(Error::MissingSettings),
        control_frame_err(false, H3_FRAME_TYPE_SETTINGS) is None,
        control_frame_err(true, H3_FRAME_TYPE_SETTINGS) == Some(Error::UnexpectedFrame),
{
}

fn control_frame_check(settings_received: bool, t: u64) -> (r: Option<Error>)
    ensures
        r == control_frame_err(settings_received, t),
{
    if !settings_received && t != H3_FRAME_TYPE_SETTINGS {
        Some(Error::MissingSettings)
    } else if settings_received && t == H3_FRAME_TYPE_SETTINGS {
        Some(Error::UnexpectedFrame)
    } else if t == H3_FRAME_TYPE_DATA || t == H3_FRAME_TYPE_HEADERS || t
        == H3_FRAME_TYPE_PUSH_PROMISE || t == H3_FRAME_TYPE_DUPLICATE_PUSH {
        Some(Error::WrongStream)
    } else {
        None
    }
}

/// The HTTP/3 connection object.
pub struct Http3Connection {
    role: Role,
    state: Http3State,
    max_header_list_size: u64,
    num_placeholders: u64,
    qpack_max_table_size: u32,
    qpack_blocked_streams: u16,
    settings_sent: bool,
    settings_received: bool,
    control_stream_local: ControlStreamLocal,
    control_stream_remote: ControlStreamRemote,
    new_streams: Vec<(u64, NewStreamTypeReader)>,
    local_encoder_stream_id: Option<u64>,
    local_decoder_stream_id: Option<u64>,
    peer_encoder_stream_id: Option<u64>,
    peer_decoder_stream_id: Option<u64>,
    encoder_send_buf: SendBuf,
    decoder_send_buf: SendBuf,
    streams_are_readable: Vec<u64>,
    streams_have_data_to_send: Vec<u64>,
    events: Http3Events,
    request_streams_client: Vec<(u64, RequestStreamClient)>,
    request_streams_server: Vec<(u64, RequestStreamServer)>,
    next_uni_id: u64,
    next_bidi_id: u64,
    cmds: Vec<TransportCmd>,
    qcmds: Vec<QpackCmd>,
    requests_ready: Vec<RequestInfo>,
    goaway_cutoff: Ghost<u64>,
}

impl Http3Connection {
    pub closed spec fn spec_state(self) -> Http3State {
        self.state
    }

    pub closed spec fn spec_role(self) -> Role {
        self.role
    }

    /// The ids of the live client request streams.
    pub closed spec fn client_ids(self) -> Seq<u64> {
        Seq::new(self.request_streams_client@.len(), |i: int| self.request_streams_client@[i].0)
    }

    pub closed spec fn server_ids(self) -> Seq<u64> {
        Seq::new(self.request_streams_server@.len(), |i: int| self.request_streams_server@[i].0)
    }

    /// Everything ever queued on the local control stream.
    pub closed spec fn control_history(self) -> Seq<u8> {
        self.control_stream_local.history()
    }

    /// The queued application events.
    pub closed spec fn spec_events(self) -> Seq<Http3Event> {
        self.events@
    }

    /// The GOAWAY cutoff, once the connection is going away.
    pub closed spec fn spec_goaway_cutoff(self) -> u64 {
        self.goaway_cutoff@
    }

    /// The transport commands pending for the next tick's output.
    pub closed spec fn spec_cmds(self) -> Seq<TransportCmd> {
        self.cmds@
    }

    /// The QPACK requests pending for the next tick's output.
    pub closed spec fn spec_qcmds(self) -> Seq<QpackCmd> {
        self.qcmds@
    }

    /// The decoded requests pending for the server application.
    pub closed spec fn spec_requests(self) -> Seq<RequestInfo> {
        self.requests_ready@
    }

    /// The streams queued for the next send phase.
    pub closed spec fn spec_to_send(self) -> Seq<u64> {
        self.streams_have_data_to_send@
    }

    /// The streams to re-surface `DataReadable` for.
    pub closed spec fn spec_readable_marks(self) -> Seq<u64> {
        self.streams_are_readable@
    }

    pub closed spec fn spec_settings_received(self) -> bool {
        self.settings_received
    }

    /// Whether the remote control stream's parser stands at a frame
    /// boundary with nothing consumed of the next frame.
    pub closed spec fn control_parser_idle(self) -> bool {
        self.control_stream_remote.frame_reader.fed() == Seq::<u8>::empty()
    }

    /// Whether a type reader is waiting on this new unidirectional stream.
    pub closed spec fn has_type_reader(self, id: u64) -> bool {
        exists|i: int| 0 <= i < self.new_streams@.len() && (#[trigger] self.new_streams@[i]).0 == id
    }

    pub closed spec fn spec_max_header_list_size(self) -> u64 {
        self.max_header_list_size
    }

    pub closed spec fn spec_num_placeholders(self) -> u64 {
        self.num_placeholders
    }

    pub closed spec fn spec_control_stream_id(self) -> Option<u64> {
        self.control_stream_local.spec_stream_id()
    }

    pub closed spec fn spec_local_encoder_stream_id(self) -> Option<u64> {
        self.local_encoder_stream_id
    }

    pub closed spec fn spec_local_decoder_stream_id(self) -> Option<u64> {
        self.local_decoder_stream_id
    }

    /// The control-stream bytes queued but not yet handed to the transport.
    pub closed spec fn control_buffered(self) -> Seq<u8> {
        self.control_stream_local.buffered()
    }

    /// Every byte ever queued on the local QPACK encoder stream.
    pub closed spec fn encoder_stream_history(self) -> Seq<u8> {
        self.encoder_send_buf.history()
    }

    /// Every byte ever queued on the local QPACK decoder stream.
    pub closed spec fn decoder_stream_history(self) -> Seq<u8> {
        self.decoder_send_buf.history()
    }

    /// The live client request stream with this id, if any.
    pub closed spec fn client_stream(self, id: u64) -> Option<RequestStreamClient> {
        if exists|i: int|
            0 <= i < self.request_streams_client@.len() && (
            #[trigger] self.request_streams_client@[i]).0 == id {
            let i = choose|i: int|
                0 <= i < self.request_streams_client@.len() && (
                #[trigger] self.request_streams_client@[i]).0 == id;
            Some(self.request_streams_client@[i].1)
        } else {
            None
        }
    }

    /// With unique keys, the stream found at an index is the stream the map
    /// holds under its key.
    proof fn lemma_client_stream_at(self, i: int)
        requires
            self.wf(),
            0 <= i < self.request_streams_client@.len(),
        ensures
            self.client_stream(self.request_streams_client@[i].0) == Some(
                self.request_streams_client@[i].1,
            ),
    {
        let id = self.request_streams_client@[i].0;
        assert(exists|j: int|
            0 <= j < self.request_streams_client@.len() && (
            #[trigger] self.request_streams_client@[j]).0 == id);
        let j = choose|j: int|
            0 <= j < self.request_streams_client@.len() && (
            #[trigger] self.request_streams_client@[j]).0 == id;
        if i != j {
            assert(false);
        }
    }

    /// The state-independent part of well-formedness: every component is
    /// well formed, keys are unique and match their streams, ids are in
    /// varint range.
    pub closed spec fn wf_core(self) -> bool {
        &&& self.control_stream_local.wf()
        &&& self.control_stream_remote.wf()
        &&& self.encoder_send_buf.wf()
        &&& self.decoder_send_buf.wf()
        &&& forall|i: int|
            0 <= i < self.request_streams_client@.len() ==> (
            #[trigger] self.request_streams_client@[i]).1.wf()
                && self.request_streams_client@[i].1.spec_stream_id()
                == self.request_streams_client@[i].0 && self.request_streams_client@[i].0
                < self.next_bidi_id
        &&& forall|i: int, j: int|
            0 <= i < j < self.request_streams_client@.len() ==> (
            #[trigger] self.request_streams_client@[i]).0 != (
            #[trigger] self.request_streams_client@[j]).0
        &&& forall|i: int|
            0 <= i < self.request_streams_server@.len() ==> (
            #[trigger] self.request_streams_server@[i]).1.wf()
                && self.request_streams_server@[i].1.spec_stream_id()
                == self.request_streams_server@[i].0
        &&& forall|i: int, j: int|
            0 <= i < j < self.request_streams_server@.len() ==> (
            #[trigger] self.request_streams_server@[i]).0 != (
            #[trigger] self.request_streams_server@[j]).0
        &&& forall|i: int|
            0 <= i < self.new_streams@.len() ==> (#[trigger] self.new_streams@[i]).1.wf()
        &&& forall|i: int, j: int|
            0 <= i < j < self.new_streams@.len() ==> (#[trigger] self.new_streams@[i]).0 != (
            #[trigger] self.new_streams@[j]).0
        &&& self.next_uni_id <= VARINT_MAX
        &&& self.next_bidi_id <= VARINT_MAX
        &&& self.qpack_max_table_size < 0x4000_0000
    }

    pub closed spec fn wf(self) -> bool {
        &&& self.wf_core()
        &&& (self.settings_sent ==> self.control_history() == vi_enc(0) + frame_wire(
            initial_settings(self.qpack_max_table_size, self.qpack_blocked_streams),
        ))
        &&& (!self.settings_sent ==> self.control_history() == Seq::<u8>::empty())
        &&& ((self.state == Http3State::Connected || self.state == Http3State::GoingAway)
            ==> self.settings_sent)
        &&& (self.state == Http3State::Initializing ==> !self.settings_sent && self.next_uni_id
            == (if self.role == Role::Client {
            2u64
        } else {
            3u64
        }))
        &&& (self.state == Http3State::GoingAway ==> client_ids_below(
            self.request_streams_client@,
            self.goaway_cutoff@,
        ))
        &&& (self.state == Http3State::GoingAway ==> events_survive(
            self.spec_events(),
            self.goaway_cutoff@,
        ))
    }

    /// Builds a connection in `Initializing`. The QPACK table size is
    /// capped below 2^30 as the wire format requires.
    pub fn new(role: Role, max_table_size: u32, max_blocked_streams: u16) -> (r: Self)
        requires
            max_table_size < 0x4000_0000,
        ensures
            r.wf(),
            r.spec_state() == Http3State::Initializing,
            r.spec_role() == role,
            r.spec_events() == Seq::<Http3Event>::empty(),
            r.client_ids() == Seq::<u64>::empty(),
            r.spec_next_bidi_id() == (if role == Role::Client {
                0u64
            } else {
                1u64
            }),
    {
        let next_uni_id: u64 = if role == Role::Client {
            2
        } else {
            3
        };
        let next_bidi_id: u64 = if role == Role::Client {
            0
        } else {
            1
        };
        let r = Http3Connection {
            role,
            state: Http3State::Initializing,
            max_header_list_size: u64::MAX,
            num_placeholders: 0,
            qpack_max_table_size: max_table_size,
            qpack_blocked_streams: max_blocked_streams,
            settings_sent: false,
            settings_received: false,
            control_stream_local: ControlStreamLocal::new(),
            control_stream_remote: ControlStreamRemote::new(),
            new_streams: Vec::new(),
            local_encoder_stream_id: None,
            local_decoder_stream_id: None,
            peer_encoder_stream_id: None,
            peer_decoder_stream_id: None,
            encoder_send_buf: SendBuf::new(),
            decoder_send_buf: SendBuf::new(),
            streams_are_readable: Vec::new(),
            streams_have_data_to_send: Vec::new(),
            events: Http3Events::new(),
            request_streams_client: Vec::new(),
            request_streams_server: Vec::new(),
            next_uni_id,
            next_bidi_id,
            cmds: Vec::new(),
            qcmds: Vec::new(),
            requests_ready: Vec::new(),
            goaway_cutoff: Ghost(0),
        };
        proof {
            assert(r.client_ids() =~= Seq::<u64>::empty());
        }
        r
    }

    pub fn state(&self) -> (r: Http3State)
        ensures
            r == self.spec_state(),
    {
        self.state
    }

    pub fn role(&self) -> (r: Role)
        ensures
            r == self.spec_role(),
    {
        self.role
    }

    /// Moves to `Closing`, tears the request streams down and tells the
    /// transport to close. The state reaches `Closed` when the transport
    /// reports its own closure (see `check_state_change`).
    pub fn close(&mut self, error: u16, msg: &str)
        requires
            old(self).wf(),
        ensures
            final(self).wf(),
            final(self).spec_state() == Http3State::Closing(error),
            final(self).client_ids() == Seq::<u64>::empty(),
            final(self).server_ids() == Seq::<u64>::empty(),
            final(self).spec_events() == old(self).spec_events(),
            queues_extend(*old(self), *final(self)),
            final(self).spec_cmds().len() == old(self).spec_cmds().len() + 1,
            (final(self).spec_cmds().last() matches TransportCmd::Close { app_error: a, msg: m }
                && a == error && m@ == msg@),
    {
        self.state = Http3State::Closing(error);
        self.request_streams_client = Vec::new();
        self.request_streams_server = Vec::new();
        self.cmds.push(TransportCmd::Close { app_error: error, msg: msg.to_owned() });
        proof {
            assert(self.client_ids() =~= Seq::<u64>::empty());
            assert(self.server_ids() =~= Seq::<u64>::empty());
            lemma_extends_push(old(self).spec_cmds(), self.spec_cmds().last());
            lemma_queues_refl(*old(self));
            assert(self.spec_cmds() =~= old(self).spec_cmds().push(self.spec_cmds().last()));
            assert(seq_extends(old(self).spec_cmds(), self.spec_cmds()));
        }
    }

    /// Closes the connection over an internal protocol error.
    fn close_on_error(&mut self, e: Error)
        requires
            old(self).wf(),
            old(self).spec_state() != Http3State::Initializing,
        ensures
            final(self).wf(),
            final(self).spec_state() == Http3State::Closing(e.spec_code()),
            final(self).spec_events() == old(self).spec_events(),
            queues_extend(*old(self), *final(self)),
    {
        let code = e.code();
        self.close(code, "");
    }

    /// Applies the transport's own state: connecting to Connected performs
    /// the one-shot initialization (control stream, SETTINGS, QPACK
    /// streams); a closed transport finishes Closing.
    pub fn check_state_change(&mut self, transport_state: TransportState)
        requires
            old(self).wf(),
        ensures
            final(self).wf(),
            final(self).spec_next_bidi_id() == old(self).spec_next_bidi_id(),
            final(self).client_ids() == old(self).client_ids(),
            final(self).server_ids() == old(self).server_ids(),
            final(self).spec_events() == old(self).spec_events(),
            final(self).spec_qcmds() == old(self).spec_qcmds(),
            final(self).spec_requests() == old(self).spec_requests(),
            old(self).spec_state() == Http3State::Initializing && transport_state
                == TransportState::Connected ==> ({
                let base: u64 = if old(self).spec_role() == Role::Client {
                    2
                } else {
                    3
                };
                &&& final(self).spec_state() == Http3State::Connected
                &&& final(self).control_history() == vi_enc(0) + frame_wire(
                    final(self).spec_initial_settings(),
                )
                &&& final(self).spec_control_stream_id() == Some(base)
                &&& final(self).spec_local_encoder_stream_id() == Some((base + 4) as u64)
                &&& final(self).spec_local_decoder_stream_id() == Some((base + 8) as u64)
                &&& final(self).spec_cmds() == old(self).spec_cmds() + seq![
                    TransportCmd::CreateUniStream { stream_id: base },
                    TransportCmd::CreateUniStream { stream_id: (base + 4) as u64 },
                    TransportCmd::CreateUniStream { stream_id: (base + 8) as u64 },
                ]
                &&& final(self).encoder_stream_history() == old(self).encoder_stream_history()
                    + seq![2u8]
                &&& final(self).decoder_stream_history() == old(self).decoder_stream_history()
                    + seq![3u8]
            }),
            old(self).spec_state() == Http3State::Initializing && transport_state
                != TransportState::Connected ==> *final(self) == *old(self),
            (match old(self).spec_state() {
                Http3State::Closing(e) => if transport_state == TransportState::Closed {
                    final(self).spec_state() == Http3State::Closed(e) && final(self).spec_cmds()
                        == old(self).spec_cmds()
                } else {
                    *final(self) == *old(self)
                },
                _ => true,
            }),
            !(old(self).spec_state() == Http3State::Initializing || old(self).spec_state()
                is Closing) ==> *final(self) == *old(self),
    {
        match self.state {
            Http3State::Initializing => {
                if transport_state == TransportState::Connected {
                    self.state = Http3State::Connected;
                    self.initialize_http3_connection();
                }
            },
            Http3State::Closing(e) => {
                if transport_state == TransportState::Closed {
                    self.state = Http3State::Closed(e);
                }
            },
            _ => {},
        }
        proof {
            assert(self.client_ids() =~= old(self).client_ids());
            assert(self.server_ids() =~= old(self).server_ids());
        }
    }

    /// The SETTINGS frame this endpoint announces.
    pub closed spec fn spec_initial_settings(self) -> HFrameSpec {
        initial_settings(self.qpack_max_table_size, self.qpack_blocked_streams)
    }

    /// The Initializing→Connected edge: create the local control stream
    /// (typed 0x00) bearing the one SETTINGS frame, then the QPACK encoder
    /// (0x02) and decoder (0x03) streams.
    fn initialize_http3_connection(&mut self)
        requires
            old(self).wf_core(),
            !old(self).settings_sent,
            old(self).control_stream_local.history() == Seq::<u8>::empty(),
            old(self).next_uni_id <= 3,
            old(self).state == Http3State::Connected,
        ensures
            final(self).wf(),
            final(self).state == old(self).state,
            final(self).next_bidi_id == old(self).next_bidi_id,
            final(self).settings_sent,
            final(self).control_history() == vi_enc(0) + frame_wire(
                final(self).spec_initial_settings(),
            ),
            final(self).spec_control_stream_id() == Some(old(self).next_uni_id),
            final(self).spec_local_encoder_stream_id() == Some((old(self).next_uni_id + 4) as u64),
            final(self).spec_local_decoder_stream_id() == Some((old(self).next_uni_id + 8) as u64),
            final(self).spec_cmds() == old(self).spec_cmds() + seq![
                TransportCmd::CreateUniStream { stream_id: old(self).next_uni_id },
                TransportCmd::CreateUniStream { stream_id: (old(self).next_uni_id + 4) as u64 },
                TransportCmd::CreateUniStream { stream_id: (old(self).next_uni_id + 8) as u64 },
            ],
            final(self).encoder_stream_history() == old(self).encoder_stream_history() + seq![2u8],
            final(self).decoder_stream_history() == old(self).decoder_stream_history() + seq![3u8],
            final(self).spec_qcmds() == old(self).spec_qcmds(),
            final(self).spec_requests() == old(self).spec_requests(),
            final(self).spec_events() == old(self).spec_events(),
            final(self).request_streams_client == old(self).request_streams_client,
            final(self).request_streams_server == old(self).request_streams_server,
    {
        let control_id = self.next_uni_id;
        self.next_uni_id = self.next_uni_id + 4;
        self.cmds.push(TransportCmd::CreateUniStream { stream_id: control_id });
        self.control_stream_local.bind_stream(control_id);
        let settings: Vec<(HSettingType, u64)> = vec![
            (HSettingType::MaxTableSize, self.qpack_max_table_size as u64),
            (HSettingType::BlockedStreams, self.qpack_blocked_streams as u64),
        ];
        let f = HFrame::Settings { settings };
        proof {
            lemma_initial_settings_valid(self.qpack_max_table_size, self.qpack_blocked_streams);
            assert(f@ == initial_settings(self.qpack_max_table_size, self.qpack_blocked_streams));
        }
        self.control_stream_local.send_frame(&f);
        self.settings_sent = true;
        let enc_id = self.next_uni_id;
        self.next_uni_id = self.next_uni_id + 4;
        self.cmds.push(TransportCmd::CreateUniStream { stream_id: enc_id });
        self.local_encoder_stream_id = Some(enc_id);
        self.encoder_send_buf.queue_byte(0x2);
        let dec_id = self.next_uni_id;
        self.next_uni_id = self.next_uni_id + 4;
        self.cmds.push(TransportCmd::CreateUniStream { stream_id: dec_id });
        self.local_decoder_stream_id = Some(dec_id);
        self.decoder_send_buf.queue_byte(0x3);
        proof {
            assert(Seq::<u8>::empty() + vi_enc(0) =~= vi_enc(0));
            assert(self.spec_cmds() =~= old(self).spec_cmds() + seq![
                TransportCmd::CreateUniStream { stream_id: old(self).next_uni_id },
                TransportCmd::CreateUniStream { stream_id: (old(self).next_uni_id + 4) as u64 },
                TransportCmd::CreateUniStream { stream_id: (old(self).next_uni_id + 8) as u64 },
            ]);
        }
    }
}

/// The one-shot SETTINGS frame is in the codec's domain: two pairs of small
/// varint fields.
pub proof fn lemma_initial_settings_valid(max_table_size: u32, blocked_streams: u16)
    requires
        max_table_size < 0x4000_0000,
    ensures
        crate::frame::frame_valid(initial_settings(max_table_size, blocked_streams)),
{
    let s = seq![
        (HSettingType::MaxTableSize, max_table_size as u64),
        (HSettingType::BlockedStreams, blocked_streams as u64),
    ];
    crate::varint::lemma_vi_roundtrip(crate::frame::SETTINGS_MAX_TABLE_SIZE);
    crate::varint::lemma_vi_roundtrip(crate::frame::SETTINGS_BLOCKED_STREAMS);
    crate::varint::lemma_vi_roundtrip(max_table_size as u64);
    crate::varint::lemma_vi_roundtrip(blocked_streams as u64);
    assert(s.skip(1).skip(1) =~= Seq::<(HSettingType, u64)>::empty());
    assert(crate::frame::settings_wire(s.skip(1)) == vi_enc(crate::frame::SETTINGS_BLOCKED_STREAMS)
        + vi_enc(blocked_streams as u64) + crate::frame::settings_wire(s.skip(1).skip(1)));
    assert(crate::frame::settings_wire(s).len() <= 18);
}

impl Http3Connection {
    /// After the connection has reached Connected (and until it goes away),
    /// the local control stream has carried exactly one thing: its
    /// stream-type varint followed by the one SETTINGS frame announcing this
    /// endpoint's QPACK limits. Nothing else is ever queued there.
    pub proof fn lemma_settings_sent_once(self)
        requires
            self.wf(),
            self.spec_state() == Http3State::Connected || self.spec_state()
                == Http3State::GoingAway,
        ensures
            self.control_history() == vi_enc(0) + frame_wire(self.spec_initial_settings()),
    {
    }

    /// While the connection is going away, every queued event survives the
    /// GOAWAY cutoff, and every live request sits below it: no event at or
    /// above the cutoff, other than a request teardown, is ever delivered
    /// after the GOAWAY.
    pub proof fn lemma_goaway_suppression(self)
        requires
            self.wf(),
            self.spec_state() == Http3State::GoingAway,
        ensures
            events_survive(self.spec_events(), self.spec_goaway_cutoff()),
            forall|i: int|
                0 <= i < self.client_ids().len() ==> #[trigger] self.client_ids()[i]
                    < self.spec_goaway_cutoff(),
    {
        assert forall|i: int|
            0 <= i < self.client_ids().len() implies #[trigger] self.client_ids()[i]
            < self.spec_goaway_cutoff() by {
            assert(self.request_streams_client@[i].0 < self.goaway_cutoff@);
        }
    }

    /// The id `fetch` will hand out next.
    pub closed spec fn spec_next_bidi_id(self) -> u64 {
        self.next_bidi_id
    }

    /// Finds the client request stream with this id.
    fn find_client(&self, stream_id: u64) -> (r: Option<usize>)
        ensures
            match r {
                Some(i) => 0 <= i < self.request_streams_client@.len()
                    && self.request_streams_client@[i as int].0 == stream_id,
                None => forall|i: int|
                    0 <= i < self.request_streams_client@.len() ==> (
                    #[trigger] self.request_streams_client@[i]).0 != stream_id,
            },
    {
        let mut i: usize = 0;
        while i < self.request_streams_client.len()
            invariant
                i <= self.request_streams_client@.len(),
                forall|j: int|
                    0 <= j < i ==> (#[trigger] self.request_streams_client@[j]).0 != stream_id,
            decreases self.request_streams_client@.len() - i,
        {
            if self.request_streams_client[i].0 == stream_id {
                return Some(i);
            }
            i = i + 1;
        }
        None
    }

    fn find_server(&self, stream_id: u64) -> (r: Option<usize>)
        ensures
            match r {
                Some(i) => 0 <= i < self.request_streams_server@.len()
                    && self.request_streams_server@[i as int].0 == stream_id,
                None => forall|i: int|
                    0 <= i < self.request_streams_server@.len() ==> (
                    #[trigger] self.request_streams_server@[i]).0 != stream_id,
            },
    {
        let mut i: usize = 0;
        while i < self.request_streams_server.len()
            invariant
                i <= self.request_streams_server@.len(),
                forall|j: int|
                    0 <= j < i ==> (#[trigger] self.request_streams_server@[j]).0 != stream_id,
            decreases self.request_streams_server@.len() - i,
        {
            if self.request_streams_server[i].0 == stream_id {
                return Some(i);
            }
            i = i + 1;
        }
        None
    }

    fn find_new_stream(&self, stream_id: u64) -> (r: Option<usize>)
        ensures
            match r {
                Some(i) => 0 <= i < self.new_streams@.len() && self.new_streams@[i as int].0
                    == stream_id,
                None => forall|i: int|
                    0 <= i < self.new_streams@.len() ==> (#[trigger] self.new_streams@[i]).0
                        != stream_id,
            },
    {
        let mut i: usize = 0;
        while i < self.new_streams.len()
            invariant
                i <= self.new_streams@.len(),
                forall|j: int| 0 <= j < i ==> (#[trigger] self.new_streams@[j]).0 != stream_id,
            decreases self.new_streams@.len() - i,
        {
            if self.new_streams[i].0 == stream_id {
                return Some(i);
            }
            i = i + 1;
        }
        None
    }

    /// Opens a new request. Allowed only while Connected (after GOAWAY no
    /// new requests are accepted); fails with `LimitExceeded` if the stream
    /// id space is used up. Returns the new stream's id; the request goes
    /// out during the next send phase.
    pub fn fetch(
        &mut self,
        method: &str,
        scheme: &str,
        host: &str,
        path: &str,
        headers: Vec<(String, String)>,
    ) -> (r: Result<u64, Error>)
        requires
            old(self).wf(),
        ensures
            final(self).wf(),
            final(self).spec_state() == old(self).spec_state(),
            final(self).spec_events() == old(self).spec_events(),
            old(self).spec_state() != Http3State::Connected ==> r == Err::<u64, Error>(
                Error::GeneralProtocolError,
            ) && *final(self) == *old(self),
            old(self).spec_state() == Http3State::Connected ==> (if old(self).spec_next_bidi_id()
                <= VARINT_MAX - 4 {
                &&& r == Ok::<u64, Error>(old(self).spec_next_bidi_id())
                &&& final(self).spec_next_bidi_id() == old(self).spec_next_bidi_id() + 4
                &&& final(self).client_ids() == old(self).client_ids().push(
                    old(self).spec_next_bidi_id(),
                )
                &&& final(self).spec_cmds() == old(self).spec_cmds().push(
                    TransportCmd::CreateBiDiStream { stream_id: old(self).spec_next_bidi_id() },
                )
                &&& final(self).spec_to_send().contains(old(self).spec_next_bidi_id())
                &&& (final(self).client_stream(old(self).spec_next_bidi_id()) matches Some(rs) && {
                    let l = rs.spec_request_headers();
                    &&& l.len() == 4 + headers@.len()
                    &&& l[0].0@ == ":method"@ && l[0].1@ == method@
                    &&& l[1].0@ == ":scheme"@ && l[1].1@ == scheme@
                    &&& l[2].0@ == ":authority"@ && l[2].1@ == host@
                    &&& l[3].0@ == ":path"@ && l[3].1@ == path@
                    &&& l.skip(4) == headers@
                    &&& !rs.spec_headers_queued()
                    &&& rs.send_history() == Seq::<u8>::empty()
                })
            } else {
                r == Err::<u64, Error>(Error::LimitExceeded) && *final(self) == *old(self)
            }),
    {
        if !matches!(self.state, Http3State::Connected) {
            return Err(Error::GeneralProtocolError);
        }
        if self.next_bidi_id > VARINT_MAX - 4 {
            return Err(Error::LimitExceeded);
        }
        let id = self.next_bidi_id;
        self.next_bidi_id = id + 4;
        let rs = RequestStreamClient::new(id, method, scheme, host, path, headers);
        self.request_streams_client.push((id, rs));
        self.cmds.push(TransportCmd::CreateBiDiStream { stream_id: id });
        push_unique_id(&mut self.streams_have_data_to_send, id);
        proof {
            assert(self.client_ids() =~= old(self).client_ids().push(id));
            assert(self.spec_cmds() =~= old(self).spec_cmds().push(
                TransportCmd::CreateBiDiStream { stream_id: id },
            ));
            self.lemma_client_stream_at(self.request_streams_client@.len() - 1);
        }
        Ok(id)
    }

    /// Hands the application up to `max` bytes of the named stream's
    /// foremost undelivered DATA chunk (frame boundaries are kept), plus
    /// whether the response is over, in which case the stream is dropped.
    /// Once the connection is closing the answer is `ConnectionError`; an
    /// unknown stream is `InvalidStreamId`.
    pub fn read_data(&mut self, stream_id: u64, max: usize) -> (r: Result<
        (Vec<u8>, bool),
        Http3Error,
    >)
        requires
            old(self).wf(),
        ensures
            final(self).wf(),
            final(self).spec_state() == old(self).spec_state(),
            (old(self).spec_state() is Closing || old(self).spec_state() is Closed) ==> r == Err::<
                (Vec<u8>, bool),
                Http3Error,
            >(Http3Error::ConnectionError),
            !(old(self).spec_state() is Closing || old(self).spec_state() is Closed) && !old(self).client_ids().contains(stream_id) ==> r == Err::<(Vec<u8>, bool), Http3Error>(
                Http3Error::InvalidStreamId,
            ),
            r matches Ok((bytes, fin)) ==> (fin ==> !final(self).client_ids().contains(stream_id)),
            r matches Ok((bytes, fin)) ==> (!fin && final(self).client_stream(
                stream_id,
            ) is Some && final(self).client_stream(stream_id)->Some_0.spec_body().len() > 0
                ==> final(self).spec_readable_marks().contains(stream_id)),
            r matches Ok((bytes, fin)) ==> ({
                let rs = old(self).client_stream(stream_id)->Some_0;
                if rs.spec_body().len() == 0 {
                    bytes@ == Seq::<u8>::empty() && fin == rs.spec_fin_received()
                } else {
                    let chunk = rs.spec_body()[0];
                    let n = if max < chunk.len() {
                        max as int
                    } else {
                        chunk.len() as int
                    };
                    bytes@ == chunk.take(n) && (fin ==> rs.spec_fin_received())
                }
            }),
    {
        if matches!(self.state, Http3State::Closing(_) | Http3State::Closed(_)) {
            return Err(Http3Error::ConnectionError);
        }
        let i = match self.find_client(stream_id) {
            Some(i) => i,
            None => {
                proof {
                    assert(!old(self).client_ids().contains(stream_id));
                }
                return Err(Http3Error::InvalidStreamId);
            },
        };
        proof {
            assert(old(self).client_ids().contains(stream_id)) by {
                assert(old(self).client_ids()[i as int] == stream_id);
            }
            old(self).lemma_client_stream_at(i as int);
        }
        let (id, mut rs) = self.request_streams_client.remove(i);
        let (bytes, fin) = rs.read_data(max);
        if fin {
            proof {
                assert(self.request_streams_client@ =~= old(self).request_streams_client@.remove(
                    i as int,
                ));
                lemma_ids_of_remove(old(self).request_streams_client@, i as int);
                assert(forall|j: int|
                    0 <= j < self.request_streams_client@.len() ==> (
                    #[trigger] self.request_streams_client@[j]).0 != stream_id);
                assert(!self.client_ids().contains(stream_id)) by {
                    if self.client_ids().contains(stream_id) {
                        let k = choose|k: int|
                            0 <= k < self.client_ids().len() && self.client_ids()[k] == stream_id;
                        assert(self.request_streams_client@[k].0 == stream_id);
                    }
                }
            }
        } else {
            if rs.has_buffered_body() {
                push_unique_id(&mut self.streams_are_readable, stream_id);
            }
            self.request_streams_client.insert(i, (id, rs));
            proof {
                assert(self.request_streams_client@ =~= old(self).request_streams_client@.update(
                    i as int,
                    (id, rs),
                ));
            }
        }
        proof {
            assert(self.events == old(self).events);
            assert(self.spec_events() =~= old(self).spec_events());
        }
        Ok((bytes, fin))
    }

    /// Hands the application the decoded response headers for the stream,
    /// by value (once). `None` while they have not been decoded yet.
    pub fn get_headers(&mut self, stream_id: u64) -> (r: Result<
        Option<Vec<(String, String)>>,
        Http3Error,
    >)
        requires
            old(self).wf(),
        ensures
            final(self).wf(),
            final(self).spec_state() == old(self).spec_state(),
            !old(self).client_ids().contains(stream_id) ==> r == Err::<
                Option<Vec<(String, String)>>,
                Http3Error,
            >(Http3Error::InvalidStreamId),
            r matches Ok(h) ==> (match old(self).client_stream(stream_id)->Some_0
                .spec_response_headers() {
                Some(hs) => h is Some && h->Some_0@ == hs,
                None => h is None,
            }),
            r is Ok && final(self).client_stream(stream_id) is Some ==> final(self).client_stream(
                stream_id,
            )->Some_0.spec_response_headers() is None,
    {
        let i = match self.find_client(stream_id) {
            Some(i) => i,
            None => {
                proof {
                    assert(!old(self).client_ids().contains(stream_id)) by {
                        if old(self).client_ids().contains(stream_id) {
                            let k = choose|k: int|
                                0 <= k < old(self).client_ids().len() && old(self).client_ids()[k]
                                    == stream_id;
                            assert(old(self).request_streams_client@[k].0 == stream_id);
                        }
                    }
                }
                return Err(Http3Error::InvalidStreamId);
            },
        };
        proof {
            assert(old(self).client_ids()[i as int] == stream_id);
            old(self).lemma_client_stream_at(i as int);
        }
        let (id, mut rs) = self.request_streams_client.remove(i);
        let h = rs.take_headers();
        self.request_streams_client.insert(i, (id, rs));
        proof {
            assert(self.request_streams_client@ =~= old(self).request_streams_client@.update(
                i as int,
                (id, rs),
            ));
            assert(self.events == old(self).events);
            assert(self.spec_events() =~= old(self).spec_events());
        }
        Ok(h)
    }

    /// Drains the queued application events, in insertion order.
    pub fn events(&mut self) -> (r: Vec<Http3Event>)
        requires
            old(self).wf(),
        ensures
            final(self).wf(),
            final(self).spec_state() == old(self).spec_state(),
            r@ == old(self).spec_events(),
            final(self).spec_events() == Seq::<Http3Event>::empty(),
    {
        self.events.events()
    }
}

/// Pointwise facts about removing one entry from the client map: each
/// surviving entry is one of the old ones, and the removed key is gone.
proof fn lemma_ids_of_remove(s: Seq<(u64, RequestStreamClient)>, i: int)
    requires
        0 <= i < s.len(),
        forall|a: int, b: int| 0 <= a < b < s.len() ==> (#[trigger] s[a]).0 != (#[trigger] s[b]).0,
    ensures
        s.remove(i).len() == s.len() - 1,
        forall|j: int|
            0 <= j < s.remove(i).len() ==> #[trigger] s.remove(i)[j] == (if j < i {
                s[j]
            } else {
                s[j + 1]
            }),
        forall|j: int| 0 <= j < s.remove(i).len() ==> (#[trigger] s.remove(i)[j]).0 != s[i].0,
{
    assert forall|j: int| 0 <= j < s.remove(i).len() implies #[trigger] s.remove(i)[j] == (if j < i {
        s[j]
    } else {
        s[j + 1]
    }) by {
        if j < i {
            assert(s.remove(i)[j] == s[j]);
        } else {
            assert(s.remove(i)[j] == s[j + 1]);
        }
    }
    assert forall|j: int| 0 <= j < s.remove(i).len() implies (#[trigger] s.remove(i)[j]).0
        != s[i].0 by {
        if j < i {
            assert(s.remove(i)[j] == s[j]);
        } else {
            assert(s.remove(i)[j] == s[j + 1]);
        }
    }
}

/// Appends `id` to an id list unless it is already there.
fn push_unique_id(v: &mut Vec<u64>, id: u64)
    ensures
        final(v)@.contains(id),
        old(v)@.contains(id) ==> final(v)@ == old(v)@,
        !old(v)@.contains(id) ==> final(v)@ == old(v)@.push(id),
{
    let mut i: usize = 0;
    while i < v.len()
        invariant
            i <= v@.len(),
            v@ == old(v)@,
            forall|j: int| 0 <= j < i ==> old(v)@[j] != id,
        decreases v@.len() - i,
    {
        if v[i] == id {
            proof {
                assert(v@[i as int] == id);
            }
            return ;
        }
        i = i + 1;
    }
    proof {
        assert(!old(v)@.contains(id));
    }
    v.push(id);
    proof {
        assert(v@.last() == id);
    }
}

/// Survival of queued events under a cutoff is kept by inserting another
/// surviving event.
proof fn lemma_survival_insert(s: Seq<Http3Event>, e: Http3Event, cutoff: u64)
    requires
        forall|j: int| 0 <= j < s.len() ==> event_survives_goaway(#[trigger] s[j], cutoff),
        event_survives_goaway(e, cutoff),
    ensures
        forall|j: int|
            0 <= j < crate::events::event_insert(s, e).len() ==> event_survives_goaway(
                #[trigger] crate::events::event_insert(s, e)[j],
                cutoff,
            ),
{
    let s2 = crate::events::event_insert(s, e);
    assert forall|j: int| 0 <= j < s2.len() implies event_survives_goaway(
        #[trigger] s2[j],
        cutoff,
    ) by {
        if s.contains(e) {
        } else {
            if j < s.len() {
                assert(s2[j] == s[j]);
            } else {
                assert(s2[j] == e);
            }
        }
    }
}

/// Inserting never loses an already-queued event.
proof fn lemma_insert_preserves_contains(s: Seq<Http3Event>, e: Http3Event, x: Http3Event)
    requires
        s.contains(x),
    ensures
        crate::events::event_insert(s, e).contains(x),
{
    if !s.contains(e) {
        let k = choose|k: int| 0 <= k < s.len() && s[k] == x;
        assert(s.push(e)[k] == x);
    }
}

/// Events added by one request stream survive any cutoff above that stream.
proof fn lemma_extended_survival(base: Seq<Http3Event>, more: Seq<Http3Event>, id: u64, cutoff: u64)
    requires
        events_extended_for(base, more, id),
        forall|j: int| 0 <= j < base.len() ==> event_survives_goaway(#[trigger] base[j], cutoff),
        id < cutoff,
    ensures
        forall|j: int| 0 <= j < more.len() ==> event_survives_goaway(#[trigger] more[j], cutoff),
{
    assert forall|j: int| 0 <= j < more.len() implies event_survives_goaway(
        #[trigger] more[j],
        cutoff,
    ) by {
        if j < base.len() {
            assert(more.take(base.len() as int)[j] == base[j]);
            assert(more[j] == base[j]);
        }
    }
}

/// Pointwise facts about removing one entry from the server map.
proof fn lemma_server_ids_of_remove(s: Seq<(u64, RequestStreamServer)>, i: int)
    requires
        0 <= i < s.len(),
    ensures
        s.remove(i).len() == s.len() - 1,
        forall|j: int|
            0 <= j < s.remove(i).len() ==> #[trigger] s.remove(i)[j] == (if j < i {
                s[j]
            } else {
                s[j + 1]
            }),
{
    assert forall|j: int| 0 <= j < s.remove(i).len() implies #[trigger] s.remove(i)[j] == (if j < i {
        s[j]
    } else {
        s[j + 1]
    }) by {
        if j < i {
            assert(s.remove(i)[j] == s[j]);
        } else {
            assert(s.remove(i)[j] == s[j + 1]);
        }
    }
}

/// The QPACK relay commands a SETTINGS list produces, in order: one per
/// MaxTableSize or BlockedStreams pair.
pub open spec fn settings_qcmds(s: Seq<(HSettingType, u64)>) -> Seq<QpackCmd>
    decreases s.len(),
{
    if s.len() == 0 {
        Seq::empty()
    } else {
        let rest = settings_qcmds(s.skip(1));
        match s[0].0 {
            HSettingType::MaxTableSize => seq![QpackCmd::SetMaxTableSize { value: s[0].1 }] + rest,
            HSettingType::BlockedStreams => seq![
                QpackCmd::SetBlockedStreams { value: s[0].1 },
            ] + rest,
            _ => rest,
        }
    }
}

/// The MaxHeaderListSize value after applying a SETTINGS list over `prev`.
pub open spec fn settings_mhls(s: Seq<(HSettingType, u64)>, prev: u64) -> u64
    decreases s.len(),
{
    if s.len() == 0 {
        prev
    } else {
        settings_mhls(
            s.skip(1),
            if s[0].0 == HSettingType::MaxHeaderListSize {
                s[0].1
            } else {
                prev
            },
        )
    }
}

/// The NumPlaceholders value after applying a SETTINGS list over `prev`.
pub open spec fn settings_np(s: Seq<(HSettingType, u64)>, prev: u64) -> u64
    decreases s.len(),
{
    if s.len() == 0 {
        prev
    } else {
        settings_np(
            s.skip(1),
            if s[0].0 == HSettingType::NumPlaceholders {
                s[0].1
            } else {
                prev
            },
        )
    }
}

/// Whether a SETTINGS list carries NumPlaceholders (a server may not
/// receive it).
pub open spec fn settings_has_placeholders(s: Seq<(HSettingType, u64)>) -> bool {
    exists|i: int| 0 <= i < s.len() && (#[trigger] s[i]).0 == HSettingType::NumPlaceholders
}

proof fn lemma_settings_qcmds_snoc(s: Seq<(HSettingType, u64)>, x: (HSettingType, u64))
    ensures
        settings_qcmds(s.push(x)) == settings_qcmds(s) + (match x.0 {
            HSettingType::MaxTableSize => seq![QpackCmd::SetMaxTableSize { value: x.1 }],
            HSettingType::BlockedStreams => seq![QpackCmd::SetBlockedStreams { value: x.1 }],
            _ => Seq::<QpackCmd>::empty(),
        }),
    decreases s.len(),
{
    let q = s.push(x);
    let tail = (match x.0 {
        HSettingType::MaxTableSize => seq![QpackCmd::SetMaxTableSize { value: x.1 }],
        HSettingType::BlockedStreams => seq![QpackCmd::SetBlockedStreams { value: x.1 }],
        _ => Seq::<QpackCmd>::empty(),
    });
    if s.len() == 0 {
        assert(q[0] == x);
        assert(q.skip(1) =~= Seq::<(HSettingType, u64)>::empty());
        assert(settings_qcmds(q.skip(1)) =~= Seq::<QpackCmd>::empty());
        assert(settings_qcmds(s) =~= Seq::<QpackCmd>::empty());
        assert(settings_qcmds(q) =~= settings_qcmds(s) + tail);
    } else {
        assert(q[0] == s[0]);
        assert(q.skip(1) =~= s.skip(1).push(x));
        lemma_settings_qcmds_snoc(s.skip(1), x);
        assert(settings_qcmds(q) =~= settings_qcmds(s) + tail);
    }
}

proof fn lemma_settings_mhls_snoc(s: Seq<(HSettingType, u64)>, x: (HSettingType, u64), prev: u64)
    ensures
        settings_mhls(s.push(x), prev) == (if x.0 == HSettingType::MaxHeaderListSize {
            x.1
        } else {
            settings_mhls(s, prev)
        }),
    decreases s.len(),
{
    let q = s.push(x);
    if s.len() == 0 {
        assert(q[0] == x);
        assert(q.skip(1) =~= Seq::<(HSettingType, u64)>::empty());
        let nxt = if x.0 == HSettingType::MaxHeaderListSize {
            x.1
        } else {
            prev
        };
        assert(settings_mhls(q.skip(1), nxt) == nxt);
    } else {
        assert(q[0] == s[0]);
        assert(q.skip(1) =~= s.skip(1).push(x));
        lemma_settings_mhls_snoc(
            s.skip(1),
            x,
            if s[0].0 == HSettingType::MaxHeaderListSize {
                s[0].1
            } else {
                prev
            },
        );
    }
}

proof fn lemma_settings_np_snoc(s: Seq<(HSettingType, u64)>, x: (HSettingType, u64), prev: u64)
    ensures
        settings_np(s.push(x), prev) == (if x.0 == HSettingType::NumPlaceholders {
            x.1
        } else {
            settings_np(s, prev)
        }),
    decreases s.len(),
{
    let q = s.push(x);
    if s.len() == 0 {
        assert(q[0] == x);
        assert(q.skip(1) =~= Seq::<(HSettingType, u64)>::empty());
        let nxt = if x.0 == HSettingType::NumPlaceholders {
            x.1
        } else {
            prev
        };
        assert(settings_np(q.skip(1), nxt) == nxt);
    } else {
        assert(q[0] == s[0]);
        assert(q.skip(1) =~= s.skip(1).push(x));
        lemma_settings_np_snoc(
            s.skip(1),
            x,
            if s[0].0 == HSettingType::NumPlaceholders {
                s[0].1
            } else {
                prev
            },
        );
    }
}

impl Http3Connection {
    /// Applies one SETTINGS frame: MaxHeaderListSize and NumPlaceholders are
    /// stored (the latter only a client may receive); the QPACK limits are
    /// relayed to the encoder.
    fn handle_settings(&mut self, settings: Vec<(HSettingType, u64)>) -> (r: Result<(), Error>)
        requires
            old(self).wf(),
            old(self).spec_state() != Http3State::Initializing,
        ensures
            final(self).wf(),
            final(self).spec_state() == old(self).spec_state(),
            final(self).spec_events() == old(self).spec_events(),
            final(self).control_stream_remote == old(self).control_stream_remote,
            final(self).spec_cmds() == old(self).spec_cmds(),
            final(self).spec_requests() == old(self).spec_requests(),
            final(self).spec_settings_received() == old(self).spec_settings_received(),
            final(self).client_ids() == old(self).client_ids(),
            seq_extends(old(self).spec_qcmds(), final(self).spec_qcmds()),
            old(self).spec_role() == Role::Server && settings_has_placeholders(settings@) ==> r
                == Err::<(), Error>(Error::WrongStreamDirection),
            !(old(self).spec_role() == Role::Server && settings_has_placeholders(settings@)) ==> ({
                &&& r == Ok::<(), Error>(())
                &&& final(self).spec_qcmds() == old(self).spec_qcmds() + settings_qcmds(settings@)
                &&& final(self).spec_max_header_list_size() == settings_mhls(
                    settings@,
                    old(self).spec_max_header_list_size(),
                )
                &&& (old(self).spec_role() == Role::Client ==> final(self).spec_num_placeholders()
                    == settings_np(settings@, old(self).spec_num_placeholders()))
            }),
    {
        let mut i: usize = 0;
        proof {
            assert(settings@.take(0) =~= Seq::<(HSettingType, u64)>::empty());
            assert(self.spec_qcmds() =~= old(self).spec_qcmds() + settings_qcmds(settings@.take(0)));
        }
        while i < settings.len()
            invariant
                self.wf(),
                self.state == old(self).spec_state(),
                self.spec_events() == old(self).spec_events(),
                self.control_stream_remote == old(self).control_stream_remote,
                self.cmds == old(self).cmds,
                self.requests_ready == old(self).requests_ready,
                self.settings_received == old(self).spec_settings_received(),
                self.request_streams_client == old(self).request_streams_client,
                self.role == old(self).role,
                i <= settings@.len(),
                self.spec_qcmds() == old(self).spec_qcmds() + settings_qcmds(
                    settings@.take(i as int),
                ),
                self.spec_max_header_list_size() == settings_mhls(
                    settings@.take(i as int),
                    old(self).spec_max_header_list_size(),
                ),
                self.role == Role::Client ==> self.spec_num_placeholders() == settings_np(
                    settings@.take(i as int),
                    old(self).spec_num_placeholders(),
                ),
                self.role == Role::Server ==> self.spec_num_placeholders() == old(self).spec_num_placeholders(),
                self.role == Role::Server ==> (forall|j: int|
                    0 <= j < i ==> (#[trigger] settings@[j]).0 != HSettingType::NumPlaceholders),
            decreases settings@.len() - i,
        {
            let (t, v) = settings[i];
            proof {
                assert(settings@.take(i + 1) =~= settings@.take(i as int).push(
                    settings@[i as int],
                ));
                lemma_settings_qcmds_snoc(settings@.take(i as int), settings@[i as int]);
                lemma_settings_mhls_snoc(
                    settings@.take(i as int),
                    settings@[i as int],
                    old(self).spec_max_header_list_size(),
                );
                lemma_settings_np_snoc(
                    settings@.take(i as int),
                    settings@[i as int],
                    old(self).spec_num_placeholders(),
                );
            }
            match t {
                HSettingType::MaxHeaderListSize => {
                    self.max_header_list_size = v;
                },
                HSettingType::NumPlaceholders => {
                    if self.role == Role::Server {
                        proof {
                            assert(settings@[i as int].0 == HSettingType::NumPlaceholders);
                            assert(settings_has_placeholders(settings@));
                            assert(seq_extends(old(self).spec_qcmds(), self.spec_qcmds())) by {
                                assert(self.spec_qcmds().take(
                                    old(self).spec_qcmds().len() as int,
                                ) =~= old(self).spec_qcmds());
                            }
                            assert(self.client_ids() =~= old(self).client_ids());
                        }
                        return Err(Error::WrongStreamDirection);
                    } else {
                        self.num_placeholders = v;
                    }
                },
                HSettingType::MaxTableSize => {
                    self.qcmds.push(QpackCmd::SetMaxTableSize { value: v });
                    proof {
                        assert(self.spec_qcmds() =~= old(self).spec_qcmds() + settings_qcmds(
                            settings@.take(i + 1),
                        ));
                    }
                },
                HSettingType::BlockedStreams => {
                    self.qcmds.push(QpackCmd::SetBlockedStreams { value: v });
                    proof {
                        assert(self.spec_qcmds() =~= old(self).spec_qcmds() + settings_qcmds(
                            settings@.take(i + 1),
                        ));
                    }
                },
            }
            proof {
                assert(self.spec_qcmds() =~= old(self).spec_qcmds() + settings_qcmds(
                    settings@.take(i + 1),
                ));
            }
            i = i + 1;
        }
        proof {
            assert(settings@.take(settings@.len() as int) =~= settings@);
            assert(self.client_ids() =~= old(self).client_ids());
            if self.role == Role::Server {
                assert(!settings_has_placeholders(settings@));
            }
            assert(seq_extends(old(self).spec_qcmds(), self.spec_qcmds())) by {
                assert(self.spec_qcmds().take(old(self).spec_qcmds().len() as int) =~= old(self).spec_qcmds());
            }
        }
        Ok(())
    }

    /// Applies a GOAWAY at `cutoff` (client only): every request at or above
    /// the cutoff is torn down with `RequestClosed(NetReset)` and its other
    /// pending events are suppressed; requests below the cutoff go on; the
    /// connection moves to GoingAway and accepts no new requests.
    fn handle_goaway(&mut self, cutoff: u64) -> (r: Result<(), Error>)
        requires
            old(self).wf(),
            old(self).spec_state() != Http3State::Initializing,
        ensures
            final(self).wf(),
            final(self).spec_state() != Http3State::Initializing,
            final(self).control_stream_remote == old(self).control_stream_remote,
            final(self).spec_cmds() == old(self).spec_cmds(),
            final(self).spec_qcmds() == old(self).spec_qcmds(),
            final(self).spec_requests() == old(self).spec_requests(),
            final(self).spec_settings_received() == old(self).spec_settings_received(),
            old(self).spec_role() == Role::Server ==> r == Err::<(), Error>(Error::UnexpectedFrame)
                && *final(self) == *old(self),
            old(self).spec_role() == Role::Client ==> {
                &&& r == Ok::<(), Error>(())
                &&& (forall|j: int|
                    0 <= j < final(self).client_ids().len()
                        ==> #[trigger] final(self).client_ids()[j] < cutoff)
                &&& (forall|j: int|
                    0 <= j < final(self).spec_events().len() ==> event_survives_goaway(
                        #[trigger] final(self).spec_events()[j],
                        cutoff,
                    ))
                &&& (forall|j: int|
                    0 <= j < old(self).client_ids().len() && #[trigger] old(self).client_ids()[j]
                        >= cutoff ==> final(self).spec_events().contains(
                        Http3Event::RequestClosed {
                            stream_id: old(self).client_ids()[j],
                            error: Http3Error::NetReset,
                        },
                    ))
                &&& (forall|j: int|
                    0 <= j < old(self).client_ids().len() && #[trigger] old(self).client_ids()[j]
                        < cutoff ==> final(self).client_ids().contains(old(self).client_ids()[j]))
                &&& ((old(self).spec_state() == Http3State::Connected || old(self).spec_state()
                    == Http3State::GoingAway) ==> final(self).spec_state()
                    == Http3State::GoingAway)
            },
    {
        if self.role == Role::Server {
            return Err(Error::UnexpectedFrame);
        }
        let ghost old_map = self.request_streams_client@;
        let ghost was_going_away = self.state == Http3State::GoingAway;
        let mut rest: Vec<(u64, RequestStreamClient)> = Vec::new();
        core::mem::swap(&mut rest, &mut self.request_streams_client);
        let mut kept: Vec<(u64, RequestStreamClient)> = Vec::new();
        let ghost gcut = self.goaway_cutoff@;
        proof {
            assert(rest@ =~= old_map.skip(0));
            assert(self.events == old(self).events);
            assert(self.spec_events() =~= old(self).spec_events());
        }
        while rest.len() > 0
            invariant
                self.wf(),
                self.state == old(self).spec_state(),
                was_going_away == (self.state == Http3State::GoingAway),
                self.control_stream_remote == old(self).control_stream_remote,
                self.cmds == old(self).cmds,
                self.qcmds == old(self).qcmds,
                self.requests_ready == old(self).requests_ready,
                self.settings_received == old(self).spec_settings_received(),
                self.role == Role::Client,
                self.goaway_cutoff@ == gcut,
                self.next_bidi_id == old(self).spec_next_bidi_id(),
                self.request_streams_client@.len() == 0,
                rest@.len() <= old_map.len(),
                rest@ == old_map.skip(old_map.len() - rest@.len()),
                forall|a: int, b: int|
                    0 <= a < b < old_map.len() ==> (#[trigger] old_map[a]).0 != (
                    #[trigger] old_map[b]).0,
                forall|p: int|
                    0 <= p < old_map.len() ==> (#[trigger] old_map[p]).1.wf() && old_map[p].1.spec_stream_id()
                        == old_map[p].0 && old_map[p].0 < self.next_bidi_id,
                was_going_away ==> (forall|p: int|
                    0 <= p < old_map.len() ==> (#[trigger] old_map[p]).0 < gcut),
                forall|a: int|
                    #![trigger kept@[a]]
                    0 <= a < kept@.len() ==> exists|p: int|
                        0 <= p < old_map.len() - rest@.len() && kept@[a] == #[trigger] old_map[p],
                forall|a: int|
                    0 <= a < kept@.len() ==> (#[trigger] kept@[a]).1.wf()
                        && kept@[a].1.spec_stream_id() == kept@[a].0 && kept@[a].0
                        < self.next_bidi_id && kept@[a].0 < cutoff,
                forall|a: int, b: int|
                    0 <= a < b < kept@.len() ==> (#[trigger] kept@[a]).0 != (#[trigger] kept@[b]).0,
                forall|p: int|
                    0 <= p < old_map.len() - rest@.len() && (#[trigger] old_map[p]).0 >= cutoff
                        ==> self.spec_events().contains(
                        Http3Event::RequestClosed {
                            stream_id: old_map[p].0,
                            error: Http3Error::NetReset,
                        },
                    ),
                forall|p: int|
                    0 <= p < old_map.len() - rest@.len() && (#[trigger] old_map[p]).0 < cutoff
                        ==> kept@.contains(old_map[p]),
            decreases rest@.len(),
        {
            let ghost rest0 = rest@;
            let ghost kept0 = kept@;
            let ghost ev0 = self.spec_events();
            let ghost k = old_map.len() - rest0.len();
            let (id, rs) = rest.remove(0);
            proof {
                assert(rest@ =~= rest0.skip(1));
                assert(old_map.skip(k as int)[0] == old_map[k as int]);
                assert((id, rs) == old_map[k as int]);
                assert(rest@ =~= old_map.skip(k + 1));
            }
            if id >= cutoff {
                self.events.request_closed(id, Http3Error::NetReset);
                proof {
                    let e = Http3Event::RequestClosed { stream_id: id, error: Http3Error::NetReset };
                    if self.state == Http3State::GoingAway {
                        lemma_survival_insert(ev0, e, gcut);
                    }
                    assert(self.spec_events().contains(e)) by {
                        if ev0.contains(e) {
                            lemma_insert_preserves_contains(ev0, e, e);
                        } else {
                            assert(self.spec_events().last() == e);
                        }
                    }
                    assert forall|p: int|
                        0 <= p < k + 1 && (#[trigger] old_map[p]).0 >= cutoff
                            implies self.spec_events().contains(
                        Http3Event::RequestClosed {
                            stream_id: old_map[p].0,
                            error: Http3Error::NetReset,
                        },
                    ) by {
                        if p < k {
                            lemma_insert_preserves_contains(
                                ev0,
                                e,
                                Http3Event::RequestClosed {
                                    stream_id: old_map[p].0,
                                    error: Http3Error::NetReset,
                                },
                            );
                        }
                    }
                }
            } else {
                kept.push((id, rs));
                proof {
                    assert forall|a: int| #![trigger kept@[a]]
                        0 <= a < kept@.len() implies exists|p: int|
                        0 <= p < old_map.len() - rest@.len() && kept@[a]
                            == #[trigger] old_map[p] by {
                        if a < kept0.len() {
                            assert(kept@[a] == kept0[a]);
                            let p = choose|p: int|
                                0 <= p < k && kept0[a] == #[trigger] old_map[p];
                            assert(kept@[a] == old_map[p]);
                        } else {
                            assert(kept@[a] == old_map[k as int]);
                        }
                    }
                    assert forall|a: int, b: int|
                        0 <= a < b < kept@.len() implies (#[trigger] kept@[a]).0 != (
                        #[trigger] kept@[b]).0 by {
                        if b == kept0.len() {
                            let p = choose|p: int|
                                0 <= p < k && kept0[a] == #[trigger] old_map[p];
                            assert(kept@[a] == old_map[p]);
                            assert(kept@[b] == old_map[k as int]);
                        }
                    }
                    assert forall|p: int|
                        0 <= p < k + 1 && (#[trigger] old_map[p]).0 < cutoff implies kept@.contains(
                        old_map[p],
                    ) by {
                        if p < k {
                            let a = choose|a: int| 0 <= a < kept0.len() && kept0[a] == old_map[p];
                            assert(kept@[a] == old_map[p]);
                        } else {
                            assert(kept@.last() == old_map[p]);
                        }
                    }
                    assert(kept@[kept@.len() - 1] == old_map[k as int]);
                }
            }
        }
        proof {
            assert(old_map.len() - rest@.len() == old_map.len());
            if was_going_away {
                assert(forall|j: int|
                    0 <= j < self.spec_events().len() ==> event_survives_goaway(
                        #[trigger] self.spec_events()[j],
                        gcut,
                    ));
            }
        }
        let ghost kept_seq = kept@;
        let ghost pre_filter = self.spec_events();
        proof {
            if was_going_away {
                assert(events_survive(pre_filter, gcut));
                assert(forall|j: int|
                    0 <= j < pre_filter.len() ==> event_survives_goaway(
                        #[trigger] pre_filter[j],
                        gcut,
                    ));
            }
        }
        self.request_streams_client = kept;
        self.events.filter_goaway(cutoff);
        let ghost ev_after = self.spec_events();
        proof {
            assert(forall|j: int|
                0 <= j < ev_after.len() ==> event_survives_goaway(#[trigger] ev_after[j], cutoff)
                    && pre_filter.contains(ev_after[j]));
        }
        if matches!(self.state, Http3State::Connected) {
            self.state = Http3State::GoingAway;
            proof {
                self.goaway_cutoff = Ghost(cutoff);
            }
        } else if matches!(self.state, Http3State::GoingAway) {
            proof {
                if cutoff < gcut {
                    self.goaway_cutoff = Ghost(cutoff);
                } else {
                    self.goaway_cutoff = Ghost(gcut);
                }
            }
        }
        proof {
            // The queued events survive both the new cutoff (they were just
            // filtered with it) and, where the connection was already going
            // away, the older one.
            assert(self.spec_events() == ev_after);
            if self.state == Http3State::GoingAway {
                assert forall|j: int|
                    0 <= j < ev_after.len() implies event_survives_goaway(
                    #[trigger] ev_after[j],
                    self.goaway_cutoff@,
                ) by {
                    let e = ev_after[j];
                    assert(event_survives_goaway(e, cutoff));
                    if was_going_away {
                        assert(pre_filter.contains(e));
                        let kk = choose|kk: int| 0 <= kk < pre_filter.len() && pre_filter[kk] == e;
                        assert(event_survives_goaway(pre_filter[kk], gcut));
                        assert(event_survives_goaway(e, gcut));
                    }
                }
                assert(events_survive(ev_after, self.goaway_cutoff@));
                assert forall|a: int|
                    0 <= a < kept_seq.len() implies (#[trigger] kept_seq[a]).0
                    < self.goaway_cutoff@ by {
                    if was_going_away {
                        let pp = choose|pp: int|
                            0 <= pp < old_map.len() - rest@.len() && kept_seq[a]
                                == #[trigger] old_map[pp];
                        assert(old_map[pp].0 < gcut);
                    }
                }
                assert(client_ids_below(self.request_streams_client@, self.goaway_cutoff@));
            }
            assert forall|j: int|
                0 <= j < old(self).client_ids().len() && #[trigger] old(self).client_ids()[j]
                    < cutoff implies self.client_ids().contains(old(self).client_ids()[j]) by {
                assert(old_map[j].0 == old(self).client_ids()[j]);
                assert(kept_seq.contains(old_map[j]));
                let w = choose|w: int| 0 <= w < kept_seq.len() && kept_seq[w] == old_map[j];
                assert(self.client_ids()[w] == old_map[j].0);
            }
            assert forall|j: int|
                0 <= j < old(self).client_ids().len() && #[trigger] old(self).client_ids()[j]
                    >= cutoff implies self.spec_events().contains(
                Http3Event::RequestClosed {
                    stream_id: old(self).client_ids()[j],
                    error: Http3Error::NetReset,
                },
            ) by {
                assert(old_map[j].0 == old(self).client_ids()[j]);
                let e = Http3Event::RequestClosed {
                    stream_id: old_map[j].0,
                    error: Http3Error::NetReset,
                };
                assert(pre_filter.contains(e));
                let kk = choose|kk: int| 0 <= kk < pre_filter.len() && pre_filter[kk] == e;
                assert(event_survives_goaway(pre_filter[kk], cutoff));
            }
            assert forall|j: int|
                0 <= j < self.client_ids().len() implies #[trigger] self.client_ids()[j]
                < cutoff by {
                assert(self.request_streams_client@[j].0 < cutoff);
            }
        }
        Ok(())
    }

    /// Handles one complete frame from the remote control stream. Frame
    /// types that do not belong here were already rejected at their header.
    fn handle_control_frame(&mut self, f: HFrame) -> (r: Result<(), Error>)
        requires
            old(self).wf(),
            old(self).spec_state() != Http3State::Initializing,
        ensures
            final(self).wf(),
            final(self).spec_state() != Http3State::Initializing,
            final(self).control_stream_remote == old(self).control_stream_remote,
            final(self).spec_cmds() == old(self).spec_cmds(),
            final(self).spec_requests() == old(self).spec_requests(),
            seq_extends(old(self).spec_qcmds(), final(self).spec_qcmds()),
            (f@ matches HFrameSpec::Settings { settings: sv } ==> ({
                &&& final(self).spec_settings_received()
                &&& final(self).spec_state() == old(self).spec_state()
                &&& (old(self).spec_role() == Role::Server && settings_has_placeholders(sv) ==> r
                    == Err::<(), Error>(Error::WrongStreamDirection))
                &&& (!(old(self).spec_role() == Role::Server && settings_has_placeholders(sv))
                    ==> r == Ok::<(), Error>(()) && final(self).spec_qcmds() == old(self).spec_qcmds() + settings_qcmds(sv) && final(self).spec_max_header_list_size()
                    == settings_mhls(sv, old(self).spec_max_header_list_size()) && (old(self).spec_role() == Role::Client ==> final(self).spec_num_placeholders()
                    == settings_np(sv, old(self).spec_num_placeholders())))
            })),
            (f@ matches HFrameSpec::Goaway { stream_id: cutoff } ==> ({
                &&& (old(self).spec_role() == Role::Server ==> r == Err::<(), Error>(
                    Error::UnexpectedFrame,
                ) && *final(self) == *old(self))
                &&& (old(self).spec_role() == Role::Client ==> ({
                    &&& r == Ok::<(), Error>(())
                    &&& (forall|j: int|
                        0 <= j < final(self).client_ids().len()
                            ==> #[trigger] final(self).client_ids()[j] < cutoff)
                    &&& (forall|j: int|
                        0 <= j < final(self).spec_events().len() ==> event_survives_goaway(
                            #[trigger] final(self).spec_events()[j],
                            cutoff,
                        ))
                    &&& (forall|j: int|
                        0 <= j < old(self).client_ids().len() && #[trigger] old(self).client_ids()[j] >= cutoff ==> final(self).spec_events().contains(
                            Http3Event::RequestClosed {
                                stream_id: old(self).client_ids()[j],
                                error: Http3Error::NetReset,
                            },
                        ))
                    &&& ((old(self).spec_state() == Http3State::Connected || old(self).spec_state() == Http3State::GoingAway) ==> final(self).spec_state()
                        == Http3State::GoingAway)
                }))
            })),
            (f@ matches HFrameSpec::MaxPushId { push_id: p } ==> (if old(self).spec_role()
                == Role::Client {
                r == Err::<(), Error>(Error::UnexpectedFrame) && *final(self) == *old(self)
            } else {
                r == Ok::<(), Error>(()) && *final(self) == *old(self)
            })),
            ((f@ is Priority || f@ is CancelPush) ==> r == Ok::<(), Error>(()) && *final(self)
                == *old(self)),
            ((f@ is Data || f@ is Headers || f@ is PushPromise || f@ is DuplicatePush) ==> r
                == Err::<(), Error>(Error::WrongStream) && *final(self) == *old(self)),
    {
        match f {
            HFrame::Settings { settings } => {
                self.settings_received = true;
                proof {
                    assert(self.events == old(self).events);
                    assert(self.request_streams_client == old(self).request_streams_client);
                }
                self.handle_settings(settings)
            },
            HFrame::Priority { .. } => {
                proof {
                    lemma_queues_refl(*old(self));
                }
                Ok(())
            },
            HFrame::CancelPush { .. } => {
                proof {
                    lemma_queues_refl(*old(self));
                }
                Ok(())
            },
            HFrame::Goaway { stream_id } => {
                proof {
                    lemma_queues_refl(*old(self));
                }
                self.handle_goaway(stream_id)
            },
            HFrame::MaxPushId { .. } => {
                proof {
                    lemma_queues_refl(*old(self));
                }
                if self.role == Role::Client {
                    Err(Error::UnexpectedFrame)
                } else {
                    Ok(())
                }
            },
            _ => {
                proof {
                    lemma_queues_refl(*old(self));
                }
                Err(Error::WrongStream)
            },
        }
    }

    /// Feeds bytes of the remote control stream to its frame reader,
    /// checking each frame's legality as soon as its header is parsed and
    /// handling each complete frame. Any FIN on this stream is fatal:
    /// the control stream is critical for the connection's whole life. The
    /// guarded clauses pin the behaviour when the bytes carry exactly one
    /// frame: the first non-SETTINGS frame, a second SETTINGS and a
    /// request-scoped frame raise the legality table's error, and one whole
    /// acceptable SETTINGS frame is applied.
    #[verifier::loop_isolation(false)]
    #[verifier::rlimit(50)]
    fn handle_control_data(&mut self, data: &Vec<u8>, start: usize, fin: bool) -> (r: Result<
        (),
        Error,
    >)
        requires
            old(self).wf(),
            old(self).spec_state() != Http3State::Initializing,
            old(self).control_stream_remote.spec_stream_id() is Some,
            start <= data@.len(),
        ensures
            final(self).wf(),
            final(self).spec_state() != Http3State::Initializing,
            final(self).spec_cmds() == old(self).spec_cmds(),
            final(self).spec_requests() == old(self).spec_requests(),
            seq_extends(old(self).spec_qcmds(), final(self).spec_qcmds()),
            fin ==> r is Err,
            fin && start == data@.len() ==> r == Err::<(), Error>(Error::ClosedCriticalStream),
            old(self).control_parser_idle() && frame_hdr(data@.skip(start as int)) is Some
                && frame_hdr(data@.skip(start as int))->Some_0.1 > 0 && control_frame_err(
                old(self).spec_settings_received(),
                frame_hdr(data@.skip(start as int))->Some_0.0,
            ) is Some ==> r == Err::<(), Error>(
                control_frame_err(
                    old(self).spec_settings_received(),
                    frame_hdr(data@.skip(start as int))->Some_0.0,
                )->Some_0,
            ),
            !fin && old(self).control_parser_idle() && !old(self).spec_settings_received()
                && parse_frame(data@.skip(start as int)) is Some && parse_frame(
                data@.skip(start as int),
            )->Some_0 is Settings && !(old(self).spec_role() == Role::Server
                && settings_has_placeholders(
                settings_entries(parse_frame(data@.skip(start as int))->Some_0),
            )) ==> ({
                let sv = settings_entries(parse_frame(data@.skip(start as int))->Some_0);
                &&& r is Ok
                &&& final(self).spec_settings_received()
                &&& final(self).spec_qcmds() == old(self).spec_qcmds() + settings_qcmds(sv)
                &&& final(self).spec_max_header_list_size() == settings_mhls(
                    sv,
                    old(self).spec_max_header_list_size(),
                )
                &&& final(self).spec_state() == old(self).spec_state()
            }),
    {
        let ghost sfx = data@.skip(start as int);
        let ghost g3 = old(self).control_parser_idle() && frame_hdr(sfx) is Some && frame_hdr(
            sfx,
        )->Some_0.1 > 0 && control_frame_err(
            old(self).spec_settings_received(),
            frame_hdr(sfx)->Some_0.0,
        ) is Some;
        let ghost g5 = !fin && old(self).control_parser_idle() && !old(self).spec_settings_received() && parse_frame(sfx) is Some && parse_frame(sfx)->Some_0
            is Settings && !(old(self).spec_role() == Role::Server && settings_has_placeholders(
            settings_entries(parse_frame(sfx)->Some_0),
        ));
        proof {
            self.control_stream_remote.lemma_wf_parts();
            self.control_stream_remote.lemma_fields();
            lemma_queues_refl(*old(self));
            if parse_frame(sfx) is Some {
                lemma_parse_frame_type(sfx);
            }
        }
        let mut i: usize = start;
        while i < data.len()
            invariant
                self.wf(),
                self.spec_state() != Http3State::Initializing,
                self.control_stream_remote.stream_id is Some,
                start <= i <= data@.len(),
                self.control_stream_remote.frame_reader.wf(),
                !self.control_stream_remote.frame_reader.spec_done(),
                self.spec_cmds() == old(self).spec_cmds(),
                self.spec_requests() == old(self).spec_requests(),
                seq_extends(old(self).spec_qcmds(), self.spec_qcmds()),
                g3 ==> ({
                    &&& self.control_stream_remote.frame_reader.fed() == data@.subrange(
                        start as int,
                        i as int,
                    )
                    &&& frame_hdr(data@.subrange(start as int, i as int)) is None
                    &&& self.settings_received == old(self).spec_settings_received()
                }),
                g5 && i < data@.len() ==> ({
                    &&& self.control_stream_remote.frame_reader.fed() == data@.subrange(
                        start as int,
                        i as int,
                    )
                    &&& self.settings_received == old(self).spec_settings_received()
                    &&& self.spec_qcmds() == old(self).spec_qcmds()
                    &&& self.max_header_list_size == old(self).spec_max_header_list_size()
                    &&& self.state == old(self).spec_state()
                    &&& self.role == old(self).spec_role()
                }),
                g5 && i == data@.len() ==> ({
                    let sv = settings_entries(parse_frame(sfx)->Some_0);
                    &&& self.settings_received
                    &&& self.spec_qcmds() == old(self).spec_qcmds() + settings_qcmds(sv)
                    &&& self.spec_max_header_list_size() == settings_mhls(
                        sv,
                        old(self).spec_max_header_list_size(),
                    )
                    &&& self.state == old(self).spec_state()
                    &&& !self.control_stream_remote.frame_reader.spec_done()
                    &&& self.control_stream_remote.frame_reader.fed() == Seq::<u8>::empty()
                }),
            decreases data@.len() - i,
        {
            let ghost pre = self.control_stream_remote.frame_reader.fed();
            let ghost s = data@.subrange(start as int, i + 1);
            proof {
                if g3 || g5 {
                    assert(pre.push(data@[i as int]) =~= s);
                    assert(s =~= sfx.take(i + 1 - start));
                    assert(s + sfx.skip(i + 1 - start) =~= sfx);
                    if g5 {
                        if i + 1 - start < sfx.len() {
                            lemma_prefix_incomplete(sfx, i + 1 - start);
                        } else {
                            assert(s =~= sfx);
                        }
                    }
                    if frame_hdr(s) is Some {
                        lemma_hdr_extend(s, sfx.skip(i + 1 - start));
                    }
                    if g3 && frame_hdr(s) is Some {
                        assert(!frame_complete(s));
                    }
                }
            }
            let b = data[i];
            i = i + 1;
            match self.control_stream_remote.frame_reader.consume_byte(b) {
                Err(e) => {
                    proof {
                        self.control_stream_remote.lemma_fields();
                        self.control_stream_remote.lemma_wf_make();
                    }
                    return Err(e);
                },
                Ok(_) => {},
            }
            if let Some(t) = self.control_stream_remote.frame_reader.header_type() {
                if let Some(e) = control_frame_check(self.settings_received, t) {
                    if self.control_stream_remote.frame_reader.done() {
                        let _discarded = self.control_stream_remote.frame_reader.get_frame();
                    }
                    proof {
                        self.control_stream_remote.lemma_fields();
                        self.control_stream_remote.lemma_wf_make();
                    }
                    return Err(e);
                }
            }
            if self.control_stream_remote.frame_reader.done() {
                let f = self.control_stream_remote.frame_reader.get_frame();
                proof {
                    self.control_stream_remote.lemma_fields();
                    self.control_stream_remote.lemma_wf_make();
                }
                let ghost remote_before = self.control_stream_remote;
                let ghost q0 = self.spec_qcmds();
                match self.handle_control_frame(f) {
                    Err(e) => {
                        proof {
                            lemma_extends_trans(
                                old(self).spec_qcmds(),
                                q0,
                                self.spec_qcmds(),
                            );
                        }
                        return Err(e);
                    },
                    Ok(_) => {},
                }
                proof {
                    assert(self.control_stream_remote == remote_before);
                    self.control_stream_remote.lemma_wf_parts();
                    self.control_stream_remote.lemma_fields();
                    lemma_extends_trans(old(self).spec_qcmds(), q0, self.spec_qcmds());
                    if g5 && i == data@.len() {
                        let sv = settings_entries(parse_frame(sfx)->Some_0);
                        assert(f@ == parse_frame(sfx)->Some_0);
                        assert(settings_entries(f@) == sv);
                        assert(self.settings_received);
                        assert(self.spec_qcmds() == old(self).spec_qcmds() + settings_qcmds(sv));
                        assert(self.spec_max_header_list_size() == settings_mhls(
                            sv,
                            old(self).spec_max_header_list_size(),
                        ));
                        assert(self.state == old(self).spec_state());
                        assert(!self.control_stream_remote.frame_reader.spec_done());
                        assert(self.control_stream_remote.frame_reader.fed()
                            == Seq::<u8>::empty());
                    }
                }
            } else {
                proof {
                    self.control_stream_remote.lemma_fields();
                    self.control_stream_remote.lemma_wf_make();
                }
            }
        }
        proof {
            if g3 {
                assert(data@.subrange(start as int, data@.len() as int) =~= sfx);
                assert(false);
            }
        }
        if fin {
            return Err(Error::ClosedCriticalStream);
        }
        Ok(())
    }
}

impl Http3Connection {
    /// Dispatches a freshly typed unidirectional stream to its owner per the
    /// wire mapping: control (one only), push (refused), the peer's QPACK
    /// encoder and decoder streams (one each), anything else stopped with
    /// `UnknownStreamType`.
    fn decode_new_stream(&mut self, t: u64, stream_id: u64) -> (r: Result<(), Error>)
        requires
            old(self).wf(),
            old(self).spec_state() != Http3State::Initializing,
        ensures
            final(self).wf(),
            final(self).spec_state() == old(self).spec_state(),
            final(self).spec_events() == old(self).spec_events(),
            t == HTTP3_UNI_STREAM_TYPE_CONTROL && old(self).control_stream_remote.stream_id is Some ==> r == Err::<(), Error>(
                Error::WrongStreamCount,
            ),
            t == HTTP3_UNI_STREAM_TYPE_CONTROL && old(self).control_stream_remote.stream_id is None ==> r == Ok::<(), Error>(()) && final(self).control_stream_remote.stream_id == Some(stream_id),
            t == QPACK_UNI_STREAM_TYPE_ENCODER ==> (if old(self).peer_encoder_stream_id is Some {
                r == Err::<(), Error>(Error::WrongStreamCount)
            } else {
                r == Ok::<(), Error>(()) && final(self).peer_encoder_stream_id == Some(stream_id)
            }),
            t == QPACK_UNI_STREAM_TYPE_DECODER ==> (if old(self).peer_decoder_stream_id is Some {
                r == Err::<(), Error>(Error::WrongStreamCount)
            } else {
                r == Ok::<(), Error>(()) && final(self).peer_decoder_stream_id == Some(stream_id)
            }),
            t != HTTP3_UNI_STREAM_TYPE_CONTROL && t != QPACK_UNI_STREAM_TYPE_ENCODER && t
                != QPACK_UNI_STREAM_TYPE_DECODER ==> r == Ok::<(), Error>(()),
            t == HTTP3_UNI_STREAM_TYPE_PUSH ==> final(self).spec_cmds() == old(self).spec_cmds().push(
                TransportCmd::StopSending {
                    stream_id,
                    app_error: if old(self).spec_role() == Role::Server {
                        Error::WrongStreamDirection.spec_code()
                    } else {
                        Error::PushRefused.spec_code()
                    },
                },
            ),
            !known_uni_stream_type(t) ==> final(self).spec_cmds() == old(self).spec_cmds().push(
                TransportCmd::StopSending {
                    stream_id,
                    app_error: Error::UnknownStreamType.spec_code(),
                },
            ),
            t == HTTP3_UNI_STREAM_TYPE_CONTROL || t == QPACK_UNI_STREAM_TYPE_ENCODER || t
                == QPACK_UNI_STREAM_TYPE_DECODER ==> final(self).spec_cmds() == old(self).spec_cmds(),
            final(self).spec_qcmds() == old(self).spec_qcmds(),
            final(self).spec_requests() == old(self).spec_requests(),
    {
        if t == HTTP3_UNI_STREAM_TYPE_CONTROL {
            proof {
                self.control_stream_remote.lemma_fields();
            }
            let r = self.control_stream_remote.add_remote_stream(stream_id);
            proof {
                self.control_stream_remote.lemma_fields();
            }
            r
        } else if t == HTTP3_UNI_STREAM_TYPE_PUSH {
            if self.role == Role::Server {
                self.cmds.push(
                    TransportCmd::StopSending {
                        stream_id,
                        app_error: Error::WrongStreamDirection.code(),
                    },
                );
            } else {
                self.cmds.push(
                    TransportCmd::StopSending { stream_id, app_error: Error::PushRefused.code() },
                );
            }
            proof {
                assert(self.spec_cmds() =~= old(self).spec_cmds().push(self.spec_cmds().last()));
            }
            Ok(())
        } else if t == QPACK_UNI_STREAM_TYPE_ENCODER {
            if self.peer_encoder_stream_id.is_some() {
                return Err(Error::WrongStreamCount);
            }
            self.peer_encoder_stream_id = Some(stream_id);
            Ok(())
        } else if t == QPACK_UNI_STREAM_TYPE_DECODER {
            if self.peer_decoder_stream_id.is_some() {
                return Err(Error::WrongStreamCount);
            }
            self.peer_decoder_stream_id = Some(stream_id);
            Ok(())
        } else {
            self.cmds.push(
                TransportCmd::StopSending { stream_id, app_error: Error::UnknownStreamType.code() },
            );
            proof {
                assert(self.spec_cmds() =~= old(self).spec_cmds().push(self.spec_cmds().last()));
            }
            Ok(())
        }
    }

    /// Routes the bytes read off one stream to their owner, trying in order:
    /// client request stream, server request stream, remote control stream,
    /// the peer's QPACK streams, then a still-untyped new stream. Bytes on a
    /// stream nobody owns are dropped.
    #[verifier::rlimit(80)]
    fn handle_stream_data(&mut self, sd: StreamData) -> (r: Result<(), Error>)
        requires
            old(self).wf(),
            old(self).spec_state() != Http3State::Initializing,
        ensures
            final(self).wf(),
            final(self).spec_state() != Http3State::Initializing,
            queues_extend(*old(self), *final(self)),
            old(self).client_ids().contains(sd.stream_id) ==> events_extended_for(
                old(self).spec_events(),
                final(self).spec_events(),
                sd.stream_id,
            ),
            !old(self).client_ids().contains(sd.stream_id) && !old(self).server_ids().contains(
                sd.stream_id,
            ) && old(self).control_stream_remote.spec_stream_id() == Some(sd.stream_id) && sd.fin
                ==> r is Err,
            !old(self).client_ids().contains(sd.stream_id) && !old(self).server_ids().contains(
                sd.stream_id,
            ) && old(self).control_stream_remote.spec_stream_id() == Some(sd.stream_id) && sd.fin
                && sd.data@.len() == 0 ==> r == Err::<(), Error>(Error::ClosedCriticalStream),
            !old(self).client_ids().contains(sd.stream_id) && !old(self).server_ids().contains(
                sd.stream_id,
            ) && old(self).control_stream_remote.spec_stream_id() != Some(sd.stream_id) && old(
                self,
            ).peer_decoder_stream_id == Some(sd.stream_id) ==> ({
                &&& final(self).spec_qcmds().contains(QpackCmd::EncoderReceive { data: sd.data })
                &&& (sd.fin ==> r == Err::<(), Error>(Error::ClosedCriticalStream))
            }),
            !old(self).client_ids().contains(sd.stream_id) && !old(self).server_ids().contains(
                sd.stream_id,
            ) && old(self).control_stream_remote.spec_stream_id() != Some(sd.stream_id) && old(
                self,
            ).peer_decoder_stream_id != Some(sd.stream_id) && old(self).peer_encoder_stream_id
                == Some(sd.stream_id) ==> ({
                &&& final(self).spec_qcmds().contains(QpackCmd::DecoderReceive { data: sd.data })
                &&& (sd.fin ==> r == Err::<(), Error>(Error::ClosedCriticalStream))
            }),
            old(self).client_ids().contains(sd.stream_id) && old(self).client_stream(
                sd.stream_id,
            )->Some_0.parser_idle() && frame_hdr(sd.data@) is Some && frame_hdr(
                sd.data@,
            )->Some_0.1 > 0 && request_frame_err(
                Role::Client,
                old(self).client_stream(sd.stream_id)->Some_0.saw_headers(),
                frame_hdr(sd.data@)->Some_0.0,
            ) is Some ==> ({
                &&& r is Ok
                &&& !final(self).client_ids().contains(sd.stream_id)
                &&& final(self).spec_cmds().contains(
                    TransportCmd::StopSending {
                        stream_id: sd.stream_id,
                        app_error: request_frame_err(
                            Role::Client,
                            old(self).client_stream(sd.stream_id)->Some_0.saw_headers(),
                            frame_hdr(sd.data@)->Some_0.0,
                        )->Some_0.spec_code(),
                    },
                )
            }),
            old(self).client_ids().contains(sd.stream_id) && old(self).client_stream(
                sd.stream_id,
            )->Some_0.parser_idle() && !old(self).client_stream(
                sd.stream_id,
            )->Some_0.saw_headers() && parse_frame(sd.data@) is Some && parse_frame(
                sd.data@,
            )->Some_0 is Headers ==> ({
                &&& r is Ok
                &&& (final(self).spec_qcmds().last() matches QpackCmd::DecodeHeaders {
                    stream_id: sid,
                    header_block: blk,
                } && sid == sd.stream_id && blk@ == crate::frame::headers_payload(
                    parse_frame(sd.data@)->Some_0,
                ))
            }),
    {
        let ghost sd0 = sd;
        proof {
            lemma_queues_refl(*old(self));
        }
        let StreamData { stream_id, data, fin } = sd;
        if let Some(i) = self.find_client(stream_id) {
            proof {
                assert(old(self).client_ids()[i as int] == stream_id);
                assert(old(self).client_ids().contains(stream_id));
                old(self).lemma_client_stream_at(i as int);
                assert(data@.skip(0) =~= data@);
            }
            let (id, mut rs) = self.request_streams_client.remove(i);
            proof {
                lemma_ids_of_remove(old(self).request_streams_client@, i as int);
                assert(self.request_streams_client@ =~= old(self).request_streams_client@.remove(
                    i as int,
                ));
            }
            let ghost ev0 = self.spec_events();
            let res = rs.receive(&data, 0, fin, &mut self.events, &mut self.qcmds);
            proof {
                if self.state == Http3State::GoingAway {
                    lemma_extended_survival(ev0, self.spec_events(), id, self.goaway_cutoff@);
                }
            }
            match res {
                Ok(_) => {
                    self.request_streams_client.insert(i, (id, rs));
                    proof {
                        assert(self.request_streams_client@ =~= old(self).request_streams_client@.update(i as int, (id, rs)));
                    }
                    proof {
                        assert(seq_extends(old(self).spec_cmds(), self.spec_cmds())) by {
                            assert(self.spec_cmds().take(old(self).spec_cmds().len() as int)
                                =~= old(self).spec_cmds());
                        }
                        assert(seq_extends(old(self).spec_qcmds(), self.spec_qcmds())) by {
                            assert(self.spec_qcmds().take(old(self).spec_qcmds().len() as int)
                                =~= old(self).spec_qcmds());
                        }
                        assert(seq_extends(old(self).spec_requests(), self.spec_requests())) by {
                            assert(self.spec_requests().take(
                                old(self).spec_requests().len() as int,
                            ) =~= old(self).spec_requests());
                        }
                    }
                    Ok(())
                },
                Err(e) => {
                    if e.is_stream_error() {
                        self.cmds.push(
                            TransportCmd::StopSending { stream_id, app_error: e.code() },
                        );
                        proof {
                            assert(self.spec_cmds().last() == (TransportCmd::StopSending {
                                stream_id,
                                app_error: e.spec_code(),
                            }));
                            assert(self.spec_cmds().contains(
                                TransportCmd::StopSending {
                                    stream_id,
                                    app_error: e.spec_code(),
                                },
                            ));
                            assert(!self.client_ids().contains(stream_id)) by {
                                if self.client_ids().contains(stream_id) {
                                    let k = choose|k: int|
                                        0 <= k < self.client_ids().len() && self.client_ids()[k]
                                            == stream_id;
                                    assert(self.request_streams_client@[k].0 == stream_id);
                                }
                            }
                        }
                    proof {
                        assert(seq_extends(old(self).spec_cmds(), self.spec_cmds())) by {
                            assert(self.spec_cmds().take(old(self).spec_cmds().len() as int)
                                =~= old(self).spec_cmds());
                        }
                        assert(seq_extends(old(self).spec_qcmds(), self.spec_qcmds())) by {
                            assert(self.spec_qcmds().take(old(self).spec_qcmds().len() as int)
                                =~= old(self).spec_qcmds());
                        }
                        assert(seq_extends(old(self).spec_requests(), self.spec_requests())) by {
                            assert(self.spec_requests().take(
                                old(self).spec_requests().len() as int,
                            ) =~= old(self).spec_requests());
                        }
                    }
                        Ok(())
                    } else {
                    proof {
                        assert(seq_extends(old(self).spec_cmds(), self.spec_cmds())) by {
                            assert(self.spec_cmds().take(old(self).spec_cmds().len() as int)
                                =~= old(self).spec_cmds());
                        }
                        assert(seq_extends(old(self).spec_qcmds(), self.spec_qcmds())) by {
                            assert(self.spec_qcmds().take(old(self).spec_qcmds().len() as int)
                                =~= old(self).spec_qcmds());
                        }
                        assert(seq_extends(old(self).spec_requests(), self.spec_requests())) by {
                            assert(self.spec_requests().take(
                                old(self).spec_requests().len() as int,
                            ) =~= old(self).spec_requests());
                        }
                    }
                        Err(e)
                    }
                },
            }
        } else if self.role == Role::Server && self.find_server(stream_id).is_some() {
            proof {
                assert(!old(self).client_ids().contains(stream_id)) by {
                    if old(self).client_ids().contains(stream_id) {
                        let k = choose|k: int|
                            0 <= k < old(self).client_ids().len() && old(self).client_ids()[k]
                                == stream_id;
                        assert(old(self).request_streams_client@[k].0 == stream_id);
                    }
                }
            }
            let i = self.find_server(stream_id).unwrap();
            proof {
                assert(old(self).server_ids()[i as int] == stream_id);
                assert(old(self).server_ids().contains(stream_id));
            }
            let (id, mut rs) = self.request_streams_server.remove(i);
            proof {
                lemma_server_ids_of_remove(old(self).request_streams_server@, i as int);
                assert(self.request_streams_server@ =~= old(self).request_streams_server@.remove(
                    i as int,
                ));
            }
            let res = rs.receive(&data, 0, fin, &mut self.qcmds);
            match res {
                Ok(_) => {
                    self.request_streams_server.insert(i, (id, rs));
                    proof {
                        assert(self.request_streams_server@ =~= old(self).request_streams_server@.update(i as int, (id, rs)));
                    }
                    proof {
                        assert(seq_extends(old(self).spec_cmds(), self.spec_cmds())) by {
                            assert(self.spec_cmds().take(old(self).spec_cmds().len() as int)
                                =~= old(self).spec_cmds());
                        }
                        assert(seq_extends(old(self).spec_qcmds(), self.spec_qcmds())) by {
                            assert(self.spec_qcmds().take(old(self).spec_qcmds().len() as int)
                                =~= old(self).spec_qcmds());
                        }
                        assert(seq_extends(old(self).spec_requests(), self.spec_requests())) by {
                            assert(self.spec_requests().take(
                                old(self).spec_requests().len() as int,
                            ) =~= old(self).spec_requests());
                        }
                    }
                    Ok(())
                },
                Err(e) => {
                    if e.is_stream_error() {
                        self.cmds.push(
                            TransportCmd::StopSending { stream_id, app_error: e.code() },
                        );
                    proof {
                        assert(seq_extends(old(self).spec_cmds(), self.spec_cmds())) by {
                            assert(self.spec_cmds().take(old(self).spec_cmds().len() as int)
                                =~= old(self).spec_cmds());
                        }
                        assert(seq_extends(old(self).spec_qcmds(), self.spec_qcmds())) by {
                            assert(self.spec_qcmds().take(old(self).spec_qcmds().len() as int)
                                =~= old(self).spec_qcmds());
                        }
                        assert(seq_extends(old(self).spec_requests(), self.spec_requests())) by {
                            assert(self.spec_requests().take(
                                old(self).spec_requests().len() as int,
                            ) =~= old(self).spec_requests());
                        }
                    }
                        Ok(())
                    } else {
                    proof {
                        assert(seq_extends(old(self).spec_cmds(), self.spec_cmds())) by {
                            assert(self.spec_cmds().take(old(self).spec_cmds().len() as int)
                                =~= old(self).spec_cmds());
                        }
                        assert(seq_extends(old(self).spec_qcmds(), self.spec_qcmds())) by {
                            assert(self.spec_qcmds().take(old(self).spec_qcmds().len() as int)
                                =~= old(self).spec_qcmds());
                        }
                        assert(seq_extends(old(self).spec_requests(), self.spec_requests())) by {
                            assert(self.spec_requests().take(
                                old(self).spec_requests().len() as int,
                            ) =~= old(self).spec_requests());
                        }
                    }
                        Err(e)
                    }
                },
            }
        } else if self.control_stream_remote.is_this_stream(stream_id) {
            proof {
                self.control_stream_remote.lemma_fields();
                assert(!old(self).client_ids().contains(stream_id)) by {
                    if old(self).client_ids().contains(stream_id) {
                        let k = choose|k: int|
                            0 <= k < old(self).client_ids().len() && old(self).client_ids()[k]
                                == stream_id;
                        assert(old(self).request_streams_client@[k].0 == stream_id);
                    }
                }
            }
            let r = self.handle_control_data(&data, 0, fin);
            proof {
                assert(seq_extends(old(self).spec_cmds(), self.spec_cmds())) by {
                    assert(self.spec_cmds().take(old(self).spec_cmds().len() as int) =~= old(
                        self,
                    ).spec_cmds());
                }
                assert(seq_extends(old(self).spec_qcmds(), self.spec_qcmds())) by {
                    assert(self.spec_qcmds().take(old(self).spec_qcmds().len() as int) =~= old(
                        self,
                    ).spec_qcmds());
                }
                assert(seq_extends(old(self).spec_requests(), self.spec_requests())) by {
                    assert(self.spec_requests().take(old(self).spec_requests().len() as int)
                        =~= old(self).spec_requests());
                }
            }
            r
        } else if self.peer_decoder_stream_id.is_some() && self.peer_decoder_stream_id.unwrap()
            == stream_id {
            // The peer's decoder stream feeds the local QPACK encoder; its
            // end is the end of a critical stream.
            self.qcmds.push(QpackCmd::EncoderReceive { data });
            proof {
                assert(self.spec_qcmds().contains(QpackCmd::EncoderReceive { data: sd0.data }))
                    by {
                    assert(self.spec_qcmds().last() == (QpackCmd::EncoderReceive {
                        data: sd0.data,
                    }));
                }
            }
            proof {
                assert(seq_extends(old(self).spec_cmds(), self.spec_cmds())) by {
                    assert(self.spec_cmds().take(old(self).spec_cmds().len() as int) =~= old(
                        self,
                    ).spec_cmds());
                }
                assert(seq_extends(old(self).spec_qcmds(), self.spec_qcmds())) by {
                    assert(self.spec_qcmds().take(old(self).spec_qcmds().len() as int) =~= old(
                        self,
                    ).spec_qcmds());
                }
                assert(seq_extends(old(self).spec_requests(), self.spec_requests())) by {
                    assert(self.spec_requests().take(old(self).spec_requests().len() as int)
                        =~= old(self).spec_requests());
                }
            }
            if fin {
                return Err(Error::ClosedCriticalStream);
            }
            Ok(())
        } else if self.peer_encoder_stream_id.is_some() && self.peer_encoder_stream_id.unwrap()
            == stream_id {
            self.qcmds.push(QpackCmd::DecoderReceive { data });
            proof {
                assert(self.spec_qcmds().contains(QpackCmd::DecoderReceive { data: sd0.data }))
                    by {
                    assert(self.spec_qcmds().last() == (QpackCmd::DecoderReceive {
                        data: sd0.data,
                    }));
                }
            }
            proof {
                assert(seq_extends(old(self).spec_cmds(), self.spec_cmds())) by {
                    assert(self.spec_cmds().take(old(self).spec_cmds().len() as int) =~= old(
                        self,
                    ).spec_cmds());
                }
                assert(seq_extends(old(self).spec_qcmds(), self.spec_qcmds())) by {
                    assert(self.spec_qcmds().take(old(self).spec_qcmds().len() as int) =~= old(
                        self,
                    ).spec_qcmds());
                }
                assert(seq_extends(old(self).spec_requests(), self.spec_requests())) by {
                    assert(self.spec_requests().take(old(self).spec_requests().len() as int)
                        =~= old(self).spec_requests());
                }
            }
            if fin {
                return Err(Error::ClosedCriticalStream);
            }
            Ok(())
        } else if let Some(i) = self.find_new_stream(stream_id) {
            proof {
                assert(!old(self).client_ids().contains(stream_id)) by {
                    if old(self).client_ids().contains(stream_id) {
                        let k = choose|k: int|
                            0 <= k < old(self).client_ids().len() && old(self).client_ids()[k]
                                == stream_id;
                        assert(old(self).request_streams_client@[k].0 == stream_id);
                    }
                }
            }
            let (id, mut ns) = self.new_streams.remove(i);
            proof {
                assert(self.new_streams@ =~= old(self).new_streams@.remove(i as int));
                assert forall|a: int|
                    0 <= a < self.new_streams@.len() implies (#[trigger] self.new_streams@[a]).1.wf() by {
                    if a < i {
                        assert(self.new_streams@[a] == old(self).new_streams@[a]);
                    } else {
                        assert(self.new_streams@[a] == old(self).new_streams@[a + 1]);
                    }
                }
                assert forall|a: int, b: int|
                    0 <= a < b < self.new_streams@.len() implies (
                #[trigger] self.new_streams@[a]).0 != (#[trigger] self.new_streams@[b]).0 by {
                    let a0: int = if a < i {
                        a
                    } else {
                        a + 1
                    };
                    let b0: int = if b < i {
                        b
                    } else {
                        b + 1
                    };
                    assert(self.new_streams@[a] == old(self).new_streams@[a0]);
                    assert(self.new_streams@[b] == old(self).new_streams@[b0]);
                }
            }
            let (t_opt, used) = ns.get_type(&data, 0);
            match t_opt {
                Some(t) => {
                    match self.decode_new_stream(t, stream_id) {
                        Err(e) => {
            proof {
                assert(seq_extends(old(self).spec_cmds(), self.spec_cmds())) by {
                    assert(self.spec_cmds().take(old(self).spec_cmds().len() as int) =~= old(
                        self,
                    ).spec_cmds());
                }
                assert(seq_extends(old(self).spec_qcmds(), self.spec_qcmds())) by {
                    assert(self.spec_qcmds().take(old(self).spec_qcmds().len() as int) =~= old(
                        self,
                    ).spec_qcmds());
                }
                assert(seq_extends(old(self).spec_requests(), self.spec_requests())) by {
                    assert(self.spec_requests().take(old(self).spec_requests().len() as int)
                        =~= old(self).spec_requests());
                }
            }
                            return Err(e);
                        },
                        Ok(_) => {},
                    }
                    if t == HTTP3_UNI_STREAM_TYPE_CONTROL {
                        proof {
                            self.control_stream_remote.lemma_fields();
                        }
                        let r = self.handle_control_data(&data, used, fin);
            proof {
                assert(seq_extends(old(self).spec_cmds(), self.spec_cmds())) by {
                    assert(self.spec_cmds().take(old(self).spec_cmds().len() as int) =~= old(
                        self,
                    ).spec_cmds());
                }
                assert(seq_extends(old(self).spec_qcmds(), self.spec_qcmds())) by {
                    assert(self.spec_qcmds().take(old(self).spec_qcmds().len() as int) =~= old(
                        self,
                    ).spec_qcmds());
                }
                assert(seq_extends(old(self).spec_requests(), self.spec_requests())) by {
                    assert(self.spec_requests().take(old(self).spec_requests().len() as int)
                        =~= old(self).spec_requests());
                }
            }
                        r
                    } else if t == QPACK_UNI_STREAM_TYPE_ENCODER {
                        if used < data.len() {
                            let rest = crate::frame::copy_tail(&data, used);
                            self.qcmds.push(QpackCmd::DecoderReceive { data: rest });
                        }
            proof {
                assert(seq_extends(old(self).spec_cmds(), self.spec_cmds())) by {
                    assert(self.spec_cmds().take(old(self).spec_cmds().len() as int) =~= old(
                        self,
                    ).spec_cmds());
                }
                assert(seq_extends(old(self).spec_qcmds(), self.spec_qcmds())) by {
                    assert(self.spec_qcmds().take(old(self).spec_qcmds().len() as int) =~= old(
                        self,
                    ).spec_qcmds());
                }
                assert(seq_extends(old(self).spec_requests(), self.spec_requests())) by {
                    assert(self.spec_requests().take(old(self).spec_requests().len() as int)
                        =~= old(self).spec_requests());
                }
            }
                        if fin {
                            return Err(Error::ClosedCriticalStream);
                        }
                        Ok(())
                    } else if t == QPACK_UNI_STREAM_TYPE_DECODER {
                        if used < data.len() {
                            let rest = crate::frame::copy_tail(&data, used);
                            self.qcmds.push(QpackCmd::EncoderReceive { data: rest });
                        }
            proof {
                assert(seq_extends(old(self).spec_cmds(), self.spec_cmds())) by {
                    assert(self.spec_cmds().take(old(self).spec_cmds().len() as int) =~= old(
                        self,
                    ).spec_cmds());
                }
                assert(seq_extends(old(self).spec_qcmds(), self.spec_qcmds())) by {
                    assert(self.spec_qcmds().take(old(self).spec_qcmds().len() as int) =~= old(
                        self,
                    ).spec_qcmds());
                }
                assert(seq_extends(old(self).spec_requests(), self.spec_requests())) by {
                    assert(self.spec_requests().take(old(self).spec_requests().len() as int)
                        =~= old(self).spec_requests());
                }
            }
                        if fin {
                            return Err(Error::ClosedCriticalStream);
                        }
                        Ok(())
                    } else {
                        // Push or unknown: already stopped; drop the rest.
            proof {
                assert(seq_extends(old(self).spec_cmds(), self.spec_cmds())) by {
                    assert(self.spec_cmds().take(old(self).spec_cmds().len() as int) =~= old(
                        self,
                    ).spec_cmds());
                }
                assert(seq_extends(old(self).spec_qcmds(), self.spec_qcmds())) by {
                    assert(self.spec_qcmds().take(old(self).spec_qcmds().len() as int) =~= old(
                        self,
                    ).spec_qcmds());
                }
                assert(seq_extends(old(self).spec_requests(), self.spec_requests())) by {
                    assert(self.spec_requests().take(old(self).spec_requests().len() as int)
                        =~= old(self).spec_requests());
                }
            }
                        Ok(())
                    }
                },
                None => {
                    if !fin {
                        // Still untyped: keep waiting for the varint.
                        self.new_streams.insert(i, (id, ns));
                        proof {
                            assert(self.new_streams@ =~= old(self).new_streams@.update(
                                i as int,
                                (id, ns),
                            ));
                        }
                    }
                    // A FIN before the type arrived drops the stream silently.
            proof {
                assert(seq_extends(old(self).spec_cmds(), self.spec_cmds())) by {
                    assert(self.spec_cmds().take(old(self).spec_cmds().len() as int) =~= old(
                        self,
                    ).spec_cmds());
                }
                assert(seq_extends(old(self).spec_qcmds(), self.spec_qcmds())) by {
                    assert(self.spec_qcmds().take(old(self).spec_qcmds().len() as int) =~= old(
                        self,
                    ).spec_qcmds());
                }
                assert(seq_extends(old(self).spec_requests(), self.spec_requests())) by {
                    assert(self.spec_requests().take(old(self).spec_requests().len() as int)
                        =~= old(self).spec_requests());
                }
            }
                    Ok(())
                },
            }
        } else {
            // Unknown stream: already dispatched and dropped, or never ours.
            proof {
                lemma_queues_refl(*old(self));
            }
            Ok(())
        }
    }

    /// Registers what the transport reported: new streams get owners or are
    /// refused, a transport-side closure closes this connection with its
    /// code and leaves that closure as the only queued event; the rest needs
    /// no protocol-level action (readable bytes arrive as `StreamData`).
    #[verifier::loop_isolation(false)]
    fn check_connection_events(&mut self, events: Vec<TransportEvent>)
        requires
            old(self).wf(),
            old(self).spec_state() != Http3State::Initializing,
        ensures
            final(self).wf(),
            final(self).spec_state() != Http3State::Initializing,
            queues_extend(*old(self), *final(self)),
            (match events_close_code(events@) {
                Some(c) => final(self).spec_state() == Http3State::Closed(c) && final(self).spec_events() == seq![Http3Event::ConnectionClosed { error_code: c }],
                None => final(self).spec_state() == old(self).spec_state() && final(self).spec_events() == old(self).spec_events(),
            }),
            forall|j: int|
                0 <= j < events@.len() ==> (match #[trigger] events@[j] {
                    TransportEvent::NewStream { stream_id, stream_type } => {
                        &&& (stream_type == StreamType::BiDi && old(self).spec_role()
                            == Role::Server ==> final(self).server_ids().contains(stream_id))
                        &&& (stream_type == StreamType::BiDi && old(self).spec_role()
                            == Role::Client ==> final(self).spec_cmds().contains(
                            TransportCmd::StopSending { stream_id, app_error: 0 },
                        ))
                        &&& (stream_type == StreamType::UniDi ==> final(self).has_type_reader(
                            stream_id,
                        ))
                    },
                    _ => true,
                }),
    {
        let ghost evs0 = events@;
        let mut evs = events;
        let ghost mut seen: Option<u16> = None;
        proof {
            lemma_queues_refl(*old(self));
        }
        while evs.len() > 0
            invariant
                self.wf(),
                self.spec_state() != Http3State::Initializing,
                self.role == old(self).spec_role(),
                queues_extend(*old(self), *self),
                evs@.len() <= evs0.len(),
                evs@ == evs0.skip(evs0.len() - evs@.len()),
                events_close_code(evs0) == (if events_close_code(evs@) is Some {
                    events_close_code(evs@)
                } else {
                    seen
                }),
                (match seen {
                    Some(c) => self.spec_state() == Http3State::Closed(c) && self.spec_events()
                        == seq![Http3Event::ConnectionClosed { error_code: c }],
                    None => self.spec_state() == old(self).spec_state() && self.spec_events()
                        == old(self).spec_events(),
                }),
                forall|j: int|
                    0 <= j < evs0.len() - evs@.len() ==> (match #[trigger] evs0[j] {
                        TransportEvent::NewStream { stream_id, stream_type } => {
                            &&& (stream_type == StreamType::BiDi && old(self).spec_role()
                                == Role::Server ==> self.server_ids().contains(stream_id))
                            &&& (stream_type == StreamType::BiDi && old(self).spec_role()
                                == Role::Client ==> self.spec_cmds().contains(
                                TransportCmd::StopSending { stream_id, app_error: 0 },
                            ))
                            &&& (stream_type == StreamType::UniDi ==> self.has_type_reader(
                                stream_id,
                            ))
                        },
                        _ => true,
                    }),
            decreases evs@.len(),
        {
            let ghost rest0 = evs@;
            let ghost k = evs0.len() - rest0.len();
            let ghost pre = *self;
            let e = evs.remove(0);
            proof {
                assert(evs@ =~= rest0.skip(1));
                assert(evs0.skip(k as int)[0] == evs0[k as int]);
                assert(e == evs0[k as int]);
                assert(evs@ =~= evs0.skip(k + 1));
            }
            match e {
                TransportEvent::NewStream { stream_id, stream_type } => {
                    if stream_type == StreamType::BiDi {
                        if self.role == Role::Server {
                            match self.find_server(stream_id) {
                                Some(idx) => {
                                    proof {
                                        assert(self.server_ids()[idx as int] == stream_id);
                                    }
                                },
                                None => {
                                    let rs = RequestStreamServer::new(stream_id);
                                    self.request_streams_server.push((stream_id, rs));
                                    proof {
                                        assert(self.server_ids()[self.server_ids().len() - 1]
                                            == stream_id);
                                    }
                                },
                            }
                            proof {
                                assert(self.server_ids().contains(stream_id));
                            }
                        } else {
                            self.cmds.push(
                                TransportCmd::StopSending { stream_id, app_error: 0 },
                            );
                            proof {
                                assert(self.spec_cmds().last() == (TransportCmd::StopSending {
                                    stream_id,
                                    app_error: 0,
                                }));
                                assert(self.spec_cmds().contains(
                                    TransportCmd::StopSending { stream_id, app_error: 0 },
                                ));
                                lemma_extends_push(
                                    pre.spec_cmds(),
                                    TransportCmd::StopSending { stream_id, app_error: 0 },
                                );
                            }
                        }
                    } else {
                        match self.find_new_stream(stream_id) {
                            Some(idx) => {
                                proof {
                                    assert(self.new_streams@[idx as int].0 == stream_id);
                                }
                            },
                            None => {
                                self.new_streams.push((stream_id, NewStreamTypeReader::new()));
                                proof {
                                    assert(self.new_streams@[self.new_streams@.len() - 1].0
                                        == stream_id);
                                }
                            },
                        }
                        proof {
                            assert(self.has_type_reader(stream_id));
                        }
                    }
                },
                TransportEvent::RecvStreamReadable { .. } => {},
                TransportEvent::SendStreamWritable { .. } => {},
                TransportEvent::RecvStreamReset { .. } => {},
                TransportEvent::SendStreamStopSending { .. } => {},
                TransportEvent::SendStreamComplete { .. } => {},
                TransportEvent::SendStreamCreatable { .. } => {},
                TransportEvent::ConnectionClosed { error_code } => {
                    self.events.connection_closed(error_code);
                    self.state = Http3State::Closed(error_code);
                    proof {
                        seen = Some(error_code);
                    }
                },
                TransportEvent::ZeroRttRejected => {},
            }
            proof {
                assert(seq_extends(pre.spec_cmds(), self.spec_cmds())) by {
                    assert(self.spec_cmds().take(pre.spec_cmds().len() as int)
                        =~= pre.spec_cmds());
                }
                assert(seq_extends(pre.spec_qcmds(), self.spec_qcmds())) by {
                    assert(self.spec_qcmds().take(pre.spec_qcmds().len() as int)
                        =~= pre.spec_qcmds());
                }
                assert(seq_extends(pre.spec_requests(), self.spec_requests())) by {
                    assert(self.spec_requests().take(pre.spec_requests().len() as int)
                        =~= pre.spec_requests());
                }
                lemma_queues_trans(*old(self), pre, *self);
                // The effects already booked stay booked: the maps and the
                // command queue only grow.
                assert forall|j: int| 0 <= j < k + 1 implies (match #[trigger] evs0[j] {
                    TransportEvent::NewStream { stream_id, stream_type } => {
                        &&& (stream_type == StreamType::BiDi && old(self).spec_role()
                            == Role::Server ==> self.server_ids().contains(stream_id))
                        &&& (stream_type == StreamType::BiDi && old(self).spec_role()
                            == Role::Client ==> self.spec_cmds().contains(
                            TransportCmd::StopSending { stream_id, app_error: 0 },
                        ))
                        &&& (stream_type == StreamType::UniDi ==> self.has_type_reader(stream_id))
                    },
                    _ => true,
                }) by {
                    if j < k {
                        match evs0[j] {
                            TransportEvent::NewStream { stream_id, stream_type } => {
                                if stream_type == StreamType::BiDi && old(self).spec_role()
                                    == Role::Server && pre.server_ids().contains(stream_id) {
                                    let w = choose|w: int|
                                        0 <= w < pre.server_ids().len() && pre.server_ids()[w]
                                            == stream_id;
                                    assert(self.request_streams_server@[w].0 == stream_id);
                                    assert(self.server_ids()[w] == stream_id);
                                }
                                if stream_type == StreamType::BiDi && old(self).spec_role()
                                    == Role::Client && pre.spec_cmds().contains(
                                    TransportCmd::StopSending { stream_id, app_error: 0 },
                                ) {
                                    let w = choose|w: int|
                                        0 <= w < pre.spec_cmds().len() && pre.spec_cmds()[w] == (
                                        TransportCmd::StopSending { stream_id, app_error: 0 });
                                    assert(self.spec_cmds()[w] == (TransportCmd::StopSending {
                                        stream_id,
                                        app_error: 0,
                                    }));
                                }
                                if stream_type == StreamType::UniDi && pre.has_type_reader(
                                    stream_id,
                                ) {
                                    let w = choose|w: int|
                                        0 <= w < pre.new_streams@.len() && (
                                        #[trigger] pre.new_streams@[w]).0 == stream_id;
                                    assert(self.new_streams@[w].0 == stream_id);
                                }
                            },
                            _ => {},
                        }
                    }
                }
            }
        }
        proof {
            assert(evs0.skip(evs0.len() as int) =~= Seq::<TransportEvent>::empty());
        }
    }

    /// Re-surfaces `DataReadable` for streams the application left buffered
    /// body bytes on.
    fn process_readable_marks(&mut self)
        requires
            old(self).wf(),
            old(self).spec_state() != Http3State::Initializing,
        ensures
            final(self).wf(),
            final(self).spec_state() == old(self).spec_state(),
            final(self).spec_cmds() == old(self).spec_cmds(),
            final(self).spec_qcmds() == old(self).spec_qcmds(),
            final(self).spec_requests() == old(self).spec_requests(),
    {
        let mut marks: Vec<u64> = Vec::new();
        core::mem::swap(&mut marks, &mut self.streams_are_readable);
        while marks.len() > 0
            invariant
                self.wf(),
                self.spec_state() == old(self).spec_state(),
                self.cmds == old(self).cmds,
                self.qcmds == old(self).qcmds,
                self.requests_ready == old(self).requests_ready,
            decreases marks@.len(),
        {
            let stream_id = marks.remove(0);
            if let Some(i) = self.find_client(stream_id) {
                let ghost m0 = self.request_streams_client@;
                let (id, rs) = self.request_streams_client.remove(i);
                let emit = rs.is_header_ready() && (rs.has_buffered_body() || rs.fin_seen());
                self.request_streams_client.insert(i, (id, rs));
                proof {
                    assert(self.request_streams_client@ =~= m0.update(i as int, (id, rs)));
                    assert(self.request_streams_client@ =~= m0);
                }
                if emit {
                    let ghost ev0 = self.spec_events();
                    self.events.data_readable(stream_id);
                    proof {
                        if self.state == Http3State::GoingAway {
                            lemma_survival_insert(
                                ev0,
                                Http3Event::DataReadable { stream_id },
                                self.goaway_cutoff@,
                            );
                        }
                    }
                }
            }
        }
    }

    /// Applies the QPACK codec's answers: encoded request header blocks are
    /// framed and queued; decoded header lists wake their streams (and, on a
    /// server, surface the request to the application); instruction bytes
    /// are queued on the local QPACK streams.
    fn handle_qpack_events(&mut self, events: Vec<QpackEvent>) -> (r: Result<(), Error>)
        requires
            old(self).wf(),
            old(self).spec_state() != Http3State::Initializing,
        ensures
            final(self).wf(),
            final(self).spec_state() == old(self).spec_state(),
            final(self).spec_cmds() == old(self).spec_cmds(),
            final(self).spec_qcmds() == old(self).spec_qcmds(),
            seq_extends(old(self).spec_requests(), final(self).spec_requests()),
            events@.len() == 0 ==> r == Ok::<(), Error>(()),
    {
        let mut evs = events;
        proof {
            lemma_queues_refl(*old(self));
        }
        while evs.len() > 0
            invariant
                self.wf(),
                self.spec_state() == old(self).spec_state(),
                self.cmds == old(self).cmds,
                self.qcmds == old(self).qcmds,
                evs@.len() <= events@.len(),
                seq_extends(old(self).spec_requests(), self.spec_requests()),
            decreases evs@.len(),
        {
            let e = evs.remove(0);
            match e {
                QpackEvent::HeadersEncoded { stream_id, header_block } => {
                    if header_block.len() as u64 > VARINT_MAX {
                        return Err(Error::InternalError);
                    }
                    if let Some(i) = self.find_client(stream_id) {
                        let ghost m0 = self.request_streams_client@;
                        let (id, mut rs) = self.request_streams_client.remove(i);
                        rs.on_headers_encoded(header_block);
                        self.request_streams_client.insert(i, (id, rs));
                        proof {
                            assert(self.request_streams_client@ =~= m0.update(i as int, (id, rs)));
                        }
                        push_unique_id(&mut self.streams_have_data_to_send, stream_id);
                    }
                },
                QpackEvent::HeadersDecoded { stream_id, headers } => {
                    if let Some(i) = self.find_client(stream_id) {
                        let ghost m0 = self.request_streams_client@;
                        let (id, mut rs) = self.request_streams_client.remove(i);
                        let ghost ev0 = self.spec_events();
                        rs.on_headers_decoded(headers, &mut self.events);
                        proof {
                            if self.state == Http3State::GoingAway {
                                lemma_extended_survival(
                                    ev0,
                                    self.spec_events(),
                                    id,
                                    self.goaway_cutoff@,
                                );
                            }
                        }
                        self.request_streams_client.insert(i, (id, rs));
                        proof {
                            assert(self.request_streams_client@ =~= m0.update(i as int, (id, rs)));
                        }
                        push_unique_id(&mut self.streams_are_readable, stream_id);
                    } else if self.role == Role::Server && self.find_server(stream_id).is_some() {
                        let i = self.find_server(stream_id).unwrap();
                        let ghost m0 = self.request_streams_server@;
                        let (id, mut rs) = self.request_streams_server.remove(i);
                        rs.on_headers_decoded();
                        self.request_streams_server.insert(i, (id, rs));
                        proof {
                            assert(self.request_streams_server@ =~= m0.update(i as int, (id, rs)));
                        }
                        let ghost rq0 = self.spec_requests();
                        self.requests_ready.push(RequestInfo { stream_id, headers, fin: false });
                        proof {
                            lemma_extends_push(rq0, self.spec_requests().last());
                            assert(self.spec_requests() =~= rq0.push(self.spec_requests().last()));
                            lemma_extends_trans(
                                old(self).spec_requests(),
                                rq0,
                                self.spec_requests(),
                            );
                        }
                    }
                },
                QpackEvent::SendEncoderData { data } => {
                    self.encoder_send_buf.queue_bytes(&data);
                },
                QpackEvent::SendDecoderData { data } => {
                    self.decoder_send_buf.queue_bytes(&data);
                },
            }
        }
        Ok(())
    }

    /// Applies the application's responses (server side): each is framed as
    /// one HEADERS and one DATA frame and queued for sending.
    fn handle_responses(&mut self, responses: Vec<ResponseData>) -> (r: Result<(), Error>)
        requires
            old(self).wf(),
            old(self).spec_state() != Http3State::Initializing,
        ensures
            final(self).wf(),
            final(self).spec_state() == old(self).spec_state(),
            final(self).spec_cmds() == old(self).spec_cmds(),
            final(self).spec_qcmds() == old(self).spec_qcmds(),
            final(self).spec_requests() == old(self).spec_requests(),
            responses@.len() == 0 ==> r == Ok::<(), Error>(()),
    {
        let mut rs_in = responses;
        while rs_in.len() > 0
            invariant
                self.wf(),
                self.spec_state() == old(self).spec_state(),
                self.cmds == old(self).cmds,
                self.qcmds == old(self).qcmds,
                self.requests_ready == old(self).requests_ready,
                rs_in@.len() <= responses@.len(),
            decreases rs_in@.len(),
        {
            let rd = rs_in.remove(0);
            let ResponseData { stream_id, header_block, body } = rd;
            if header_block.len() as u64 > VARINT_MAX || body.len() as u64 > VARINT_MAX {
                return Err(Error::InternalError);
            }
            if let Some(i) = self.find_server(stream_id) {
                let ghost m0 = self.request_streams_server@;
                let (id, mut rs) = self.request_streams_server.remove(i);
                rs.set_response(header_block, body);
                self.request_streams_server.insert(i, (id, rs));
                proof {
                    assert(self.request_streams_server@ =~= m0.update(i as int, (id, rs)));
                }
                push_unique_id(&mut self.streams_have_data_to_send, stream_id);
            }
        }
        Ok(())
    }

    /// The send phase: drain the local control stream, every request stream
    /// that has something to send, and the local QPACK streams, in that
    /// order. A request stream with work left over is queued for the next
    /// tick; a server stream that has sent its whole response is dropped.
    fn process_sending(&mut self)
        requires
            old(self).wf(),
            old(self).spec_state() != Http3State::Initializing,
        ensures
            final(self).wf(),
            final(self).spec_state() == old(self).spec_state(),
            final(self).spec_events() == old(self).spec_events(),
            queues_extend(*old(self), *final(self)),
            final(self).spec_requests() == old(self).spec_requests(),
            final(self).control_buffered() == Seq::<u8>::empty() || old(
                self,
            ).spec_control_stream_id() is None,
            old(self).spec_control_stream_id() is Some && old(self).control_buffered().len() > 0
                ==> (exists|k: int|
                0 <= k < final(self).spec_cmds().len() && (#[trigger] final(self).spec_cmds()[k]
                    matches TransportCmd::SendBytes { stream_id: sid, data: d } && sid == old(
                    self,
                ).spec_control_stream_id()->Some_0 && d@ == old(self).control_buffered())),
    {
        proof {
            lemma_queues_refl(*old(self));
        }
        let ghost mut ctrl_cmd_at: int = 0;
        if let Some(id) = self.control_stream_local.stream_id() {
            if self.control_stream_local.has_data_to_send() {
                let out = self.control_stream_local.send_all();
                proof {
                    ctrl_cmd_at = self.spec_cmds().len() as int;
                }
                self.cmds.push(TransportCmd::SendBytes { stream_id: id, data: out });
                proof {
                    assert(self.spec_cmds()[ctrl_cmd_at] matches TransportCmd::SendBytes {
                        stream_id: sid,
                        data: d,
                    } && sid == old(self).spec_control_stream_id()->Some_0 && d@ == old(self).control_buffered());
                }
            }
        }
        let ghost ctrl1 = self.control_stream_local;
        proof {
            assert(seq_extends(old(self).spec_cmds(), self.spec_cmds())) by {
                assert(self.spec_cmds().take(old(self).spec_cmds().len() as int) =~= old(
                    self,
                ).spec_cmds());
            }
            assert(queues_extend(*old(self), *self));
        }
        let mut to_send: Vec<u64> = Vec::new();
        core::mem::swap(&mut to_send, &mut self.streams_have_data_to_send);
        while to_send.len() > 0
            invariant
                self.wf(),
                self.spec_state() == old(self).spec_state(),
                self.spec_events() == old(self).spec_events(),
                queues_extend(*old(self), *self),
                self.requests_ready == old(self).requests_ready,
                self.control_stream_local == ctrl1,
                old(self).spec_control_stream_id() is Some && old(self).control_buffered().len()
                    > 0 ==> 0 <= ctrl_cmd_at < self.spec_cmds().len() && (
                self.spec_cmds()[ctrl_cmd_at] matches TransportCmd::SendBytes {
                    stream_id: sid,
                    data: d,
                } && sid == old(self).spec_control_stream_id()->Some_0 && d@ == old(self).control_buffered()),
            decreases to_send@.len(),
        {
            let ghost pre = *self;
            let stream_id = to_send.remove(0);
            if let Some(i) = self.find_client(stream_id) {
                let ghost m0 = self.request_streams_client@;
                let (id, mut rs) = self.request_streams_client.remove(i);
                let (out, close) = rs.send(&mut self.qcmds);
                if out.len() > 0 {
                    self.cmds.push(TransportCmd::SendBytes { stream_id, data: out });
                }
                if close {
                    self.cmds.push(TransportCmd::CloseSend { stream_id });
                }
                let more = rs.has_data_to_send();
                self.request_streams_client.insert(i, (id, rs));
                proof {
                    assert(self.request_streams_client@ =~= m0.update(i as int, (id, rs)));
                }
                if more {
                    push_unique_id(&mut self.streams_have_data_to_send, stream_id);
                }
            } else if self.role == Role::Server && self.find_server(stream_id).is_some() {
                let i = self.find_server(stream_id).unwrap();
                let ghost m0 = self.request_streams_server@;
                let (id, mut rs) = self.request_streams_server.remove(i);
                proof {
                    lemma_server_ids_of_remove(m0, i as int);
                    assert(self.request_streams_server@ =~= m0.remove(i as int));
                }
                let (out, close) = rs.send();
                if out.len() > 0 {
                    self.cmds.push(TransportCmd::SendBytes { stream_id, data: out });
                }
                if close {
                    self.cmds.push(TransportCmd::CloseSend { stream_id });
                }
                if !rs.finished() {
                    let more = rs.has_data_to_send();
                    self.request_streams_server.insert(i, (id, rs));
                    proof {
                        assert(self.request_streams_server@ =~= m0.update(i as int, (id, rs)));
                    }
                    if more {
                        push_unique_id(&mut self.streams_have_data_to_send, stream_id);
                    }
                }
            }
            proof {
                assert(seq_extends(pre.spec_cmds(), self.spec_cmds())) by {
                    assert(self.spec_cmds().take(pre.spec_cmds().len() as int)
                        =~= pre.spec_cmds());
                }
                assert(seq_extends(pre.spec_qcmds(), self.spec_qcmds())) by {
                    assert(self.spec_qcmds().take(pre.spec_qcmds().len() as int)
                        =~= pre.spec_qcmds());
                }
                assert(seq_extends(pre.spec_requests(), self.spec_requests())) by {
                    assert(self.spec_requests().take(pre.spec_requests().len() as int)
                        =~= pre.spec_requests());
                }
                lemma_queues_trans(*old(self), pre, *self);
                if old(self).spec_control_stream_id() is Some && old(
                    self,
                ).control_buffered().len() > 0 {
                    assert(self.spec_cmds()[ctrl_cmd_at] == pre.spec_cmds()[ctrl_cmd_at]);
                }
            }
        }
        let ghost mid = *self;
        if let Some(id) = self.local_encoder_stream_id {
            if self.encoder_send_buf.has_data() {
                let out = self.encoder_send_buf.drain_all();
                self.cmds.push(TransportCmd::SendBytes { stream_id: id, data: out });
            }
        }
        if let Some(id) = self.local_decoder_stream_id {
            if self.decoder_send_buf.has_data() {
                let out = self.decoder_send_buf.drain_all();
                self.cmds.push(TransportCmd::SendBytes { stream_id: id, data: out });
            }
        }
        proof {
            assert(seq_extends(mid.spec_cmds(), self.spec_cmds())) by {
                assert(self.spec_cmds().take(mid.spec_cmds().len() as int) =~= mid.spec_cmds());
            }
            assert(seq_extends(mid.spec_qcmds(), self.spec_qcmds())) by {
                assert(self.spec_qcmds().take(mid.spec_qcmds().len() as int) =~= mid.spec_qcmds());
            }
            assert(seq_extends(mid.spec_requests(), self.spec_requests())) by {
                assert(self.spec_requests().take(mid.spec_requests().len() as int)
                    =~= mid.spec_requests());
            }
            lemma_queues_trans(*old(self), mid, *self);
            if old(self).spec_control_stream_id() is Some && old(self).control_buffered().len()
                > 0 {
                assert(self.spec_cmds()[ctrl_cmd_at] == mid.spec_cmds()[ctrl_cmd_at]);
            }
        }
    }

    /// One protocol tick: consume what the driver observed, run the HTTP/3
    /// event loop while the connection is Connected or GoingAway, and hand
    /// back everything the transport, the QPACK codec and the application
    /// must now do. A protocol error inside the tick closes the connection
    /// with that error's wire code.
    pub fn process_http3(&mut self, input: TickInput) -> (out: TickOutput)
        requires
            old(self).wf(),
        ensures
            final(self).wf(),
            final(self).spec_cmds() == Seq::<TransportCmd>::empty(),
            final(self).spec_qcmds() == Seq::<QpackCmd>::empty(),
            final(self).spec_requests() == Seq::<RequestInfo>::empty(),
            seq_extends(old(self).spec_cmds(), out.cmds@),
            seq_extends(old(self).spec_qcmds(), out.qpack@),
            seq_extends(old(self).spec_requests(), out.requests@),
            !(old(self).spec_state() == Http3State::Connected || old(self).spec_state()
                == Http3State::GoingAway) ==> final(self).spec_state() == old(self).spec_state()
                && out.cmds@ == old(self).spec_cmds() && out.qpack@ == old(self).spec_qcmds()
                && out.requests@ == old(self).spec_requests(),
            (old(self).spec_state() == Http3State::Connected || old(self).spec_state()
                == Http3State::GoingAway) && events_close_code(input.events@) is Some
                && input.qpack@.len() == 0 && input.responses@.len() == 0
                && input.stream_data@.len() == 0 ==> final(self).spec_state()
                == Http3State::Closed(events_close_code(input.events@)->Some_0),
    {
        let TickInput { events, stream_data, qpack, responses } = input;
        let ghost evs0 = events@;
        let in_run = matches!(self.state, Http3State::Connected | Http3State::GoingAway);
        proof {
            lemma_queues_refl(*old(self));
        }
        if in_run {
            let ghost s0 = *self;
            self.check_connection_events(events);
            proof {
                lemma_queues_trans(*old(self), s0, *self);
            }
            let mut ok = true;
            let ghost s1 = *self;
            match self.handle_qpack_events(qpack) {
                Err(e) => {
                    let ghost s2 = *self;
                    proof {
                        assert(queues_extend(s1, s2)) by {
                            assert(s2.spec_cmds().take(s1.spec_cmds().len() as int)
                                =~= s1.spec_cmds());
                            assert(s2.spec_qcmds().take(s1.spec_qcmds().len() as int)
                                =~= s1.spec_qcmds());
                            assert(s2.spec_requests().take(s1.spec_requests().len() as int)
                                =~= s1.spec_requests());
                        }
                    }
                    self.close_on_error(e);
                    proof {
                        lemma_queues_trans(s1, s2, *self);
                    }
                    ok = false;
                },
                Ok(_) => {},
            }
            proof {
                assert(queues_extend(s1, *self)) by {
                    if ok {
                        assert(self.spec_cmds().take(s1.spec_cmds().len() as int)
                            =~= s1.spec_cmds());
                        assert(self.spec_requests().take(s1.spec_requests().len() as int)
                            =~= s1.spec_requests());
                        assert(self.spec_qcmds().take(s1.spec_qcmds().len() as int)
                            =~= s1.spec_qcmds());
                    }
                }
                lemma_queues_trans(*old(self), s1, *self);
            }
            if ok {
                let ghost s3 = *self;
                match self.handle_responses(responses) {
                    Err(e) => {
                        let ghost s4 = *self;
                        proof {
                            assert(queues_extend(s3, s4)) by {
                                assert(s4.spec_cmds().take(s3.spec_cmds().len() as int)
                                    =~= s3.spec_cmds());
                                assert(s4.spec_qcmds().take(s3.spec_qcmds().len() as int)
                                    =~= s3.spec_qcmds());
                                assert(s4.spec_requests().take(s3.spec_requests().len() as int)
                                    =~= s3.spec_requests());
                            }
                        }
                        self.close_on_error(e);
                        proof {
                            lemma_queues_trans(s3, s4, *self);
                        }
                        ok = false;
                    },
                    Ok(_) => {},
                }
                proof {
                    assert(queues_extend(s3, *self)) by {
                        if ok {
                            lemma_queues_refl(*self);
                        }
                    }
                    lemma_queues_trans(*old(self), s3, *self);
                }
            }
            if ok {
                let ghost s5 = *self;
                self.process_readable_marks();
                proof {
                    lemma_queues_refl(*self);
                    lemma_queues_trans(*old(self), s5, *self);
                }
            }
            if ok {
                let mut sds = stream_data;
                if sds.len() > 0 {
                    while sds.len() > 0
                    invariant
                        self.wf(),
                        self.spec_state() != Http3State::Initializing,
                        queues_extend(*old(self), *self),
                        ok,
                    decreases sds@.len(),
                {
                    let ghost s6 = *self;
                    let sd = sds.remove(0);
                    match self.handle_stream_data(sd) {
                        Err(e) => {
                            let ghost s7 = *self;
                            self.close_on_error(e);
                            proof {
                                lemma_queues_trans(s6, s7, *self);
                                lemma_queues_trans(*old(self), s6, *self);
                            }
                            break ;
                        },
                        Ok(_) => {},
                    }
                    proof {
                        lemma_queues_trans(*old(self), s6, *self);
                    }
                    }
                }
            }
            if matches!(self.state, Http3State::Connected | Http3State::GoingAway) {
                let ghost s8 = *self;
                self.process_sending();
                proof {
                    lemma_queues_trans(*old(self), s8, *self);
                }
            }
        }
        let ghost pending = *self;
        let mut cmds: Vec<TransportCmd> = Vec::new();
        core::mem::swap(&mut cmds, &mut self.cmds);
        let mut qpack_out: Vec<QpackCmd> = Vec::new();
        core::mem::swap(&mut qpack_out, &mut self.qcmds);
        let mut requests: Vec<RequestInfo> = Vec::new();
        core::mem::swap(&mut requests, &mut self.requests_ready);
        proof {
            assert(cmds@ == pending.spec_cmds());
            assert(qpack_out@ == pending.spec_qcmds());
            assert(requests@ == pending.spec_requests());
        }
        TickOutput { cmds, qpack: qpack_out, requests }
    }
}

} // verus!
