//! Per-request stream state. The client side queues the request's header
//! list for QPACK encoding, frames and drains the encoded block, and parses
//! the framed response: HEADERS (handed to QPACK for decoding) then DATA
//! chunks surfaced through `read_data`, with frame boundaries kept. The
//! server side parses a request the same way and frames the application's
//! response as one HEADERS and one DATA frame.

use vstd::prelude::*;

use crate::err::Error;
use crate::events::{event_insert, Http3Event, Http3Events};
use crate::frame::{
    data_payload, frame_complete, frame_hdr, frame_wire, headers_payload, lemma_hdr_extend,
    lemma_parse_frame_type, lemma_prefix_incomplete, parse_frame, HFrame, HFrameReader, HFrameSpec,
    H3_FRAME_TYPE_CANCEL_PUSH, H3_FRAME_TYPE_DATA,
    H3_FRAME_TYPE_DUPLICATE_PUSH, H3_FRAME_TYPE_GOAWAY, H3_FRAME_TYPE_HEADERS,
    H3_FRAME_TYPE_MAX_PUSH_ID, H3_FRAME_TYPE_PRIORITY, H3_FRAME_TYPE_PUSH_PROMISE,
    H3_FRAME_TYPE_SETTINGS,
};
use crate::io::{QpackCmd, Role};
use crate::sendbuf::SendBuf;
use crate::varint::VARINT_MAX;

verus! {

/// Which error, if any, a frame of type `t` raises on a request stream, the
/// moment its header is parsed. SETTINGS, GOAWAY, MAX_PUSH_ID and
/// CANCEL_PUSH belong on the control stream alone; push-related frames are
/// not supported; PRIORITY is for a server to receive only; HEADERS must
/// come first and once, DATA only after it. Unknown types raise nothing and
/// are skipped.
pub open spec fn request_frame_err(role: Role, saw_headers: bool, t: u64) -> Option<Error> {
    if t == H3_FRAME_TYPE_CANCEL_PUSH || t == H3_FRAME_TYPE_SETTINGS || t == H3_FRAME_TYPE_GOAWAY
        || t == H3_FRAME_TYPE_MAX_PUSH_ID {
        Some(Error::WrongStream)
    } else if t == H3_FRAME_TYPE_PRIORITY {
        if role == Role::Client {
            Some(Error::UnexpectedFrame)
        } else {
            None
        }
    } else if t == H3_FRAME_TYPE_PUSH_PROMISE || t == H3_FRAME_TYPE_DUPLICATE_PUSH {
        Some(Error::UnexpectedFrame)
    } else if t == H3_FRAME_TYPE_DATA && !saw_headers {
        Some(Error::UnexpectedFrame)
    } else if t == H3_FRAME_TYPE_HEADERS && saw_headers {
        Some(Error::UnexpectedFrame)
    } else {
        None
    }
}

fn request_frame_check(role: Role, saw_headers: bool, t: u64) -> (r: Option<Error>)
    ensures
        r == request_frame_err(role, saw_headers, t),
{
    if t == H3_FRAME_TYPE_CANCEL_PUSH || t == H3_FRAME_TYPE_SETTINGS || t == H3_FRAME_TYPE_GOAWAY
        || t == H3_FRAME_TYPE_MAX_PUSH_ID {
        Some(Error::WrongStream)
    } else if t == H3_FRAME_TYPE_PRIORITY {
        if role == Role::Client {
            Some(Error::UnexpectedFrame)
        } else {
            None
        }
    } else if t == H3_FRAME_TYPE_PUSH_PROMISE || t == H3_FRAME_TYPE_DUPLICATE_PUSH {
        Some(Error::UnexpectedFrame)
    } else if t == H3_FRAME_TYPE_DATA && !saw_headers {
        Some(Error::UnexpectedFrame)
    } else if t == H3_FRAME_TYPE_HEADERS && saw_headers {
        Some(Error::UnexpectedFrame)
    } else {
        None
    }
}

/// `more` extends `base` with nothing but header/data events for stream
/// `id`. Every event a request stream emits is about itself, which is what
/// keeps GOAWAY's suppression of higher streams' events an invariant.
pub open spec fn events_extended_for(base: Seq<Http3Event>, more: Seq<Http3Event>, id: u64) -> bool {
    &&& more.len() >= base.len()
    &&& more.take(base.len() as int) == base
    &&& forall|j: int|
        base.len() <= j < more.len() ==> (#[trigger] more[j] == Http3Event::HeaderReady {
            stream_id: id,
        } || more[j] == Http3Event::DataReadable { stream_id: id })
}

/// Inserting an event for `id` keeps the extension property.
proof fn lemma_extend_insert(base: Seq<Http3Event>, cur: Seq<Http3Event>, e: Http3Event, id: u64)
    requires
        events_extended_for(base, cur, id),
        e == (Http3Event::HeaderReady { stream_id: id }) || e == (Http3Event::DataReadable {
            stream_id: id,
        }),
    ensures
        events_extended_for(base, event_insert(cur, e), id),
{
    if !cur.contains(e) {
        assert(cur.push(e).take(base.len() as int) =~= base);
    }
}

/// The client's end of one request stream.
pub struct RequestStreamClient {
    stream_id: u64,
    // Outbound.
    request_headers: Vec<(String, String)>,
    encode_requested: bool,
    headers_queued: bool,
    send_buf: SendBuf,
    close_pending: bool,
    // Inbound.
    frame_reader: HFrameReader,
    saw_headers_frame: bool,
    header_ready: bool,
    response_headers: Option<Vec<(String, String)>>,
    body: Vec<Vec<u8>>,
    fin_received: bool,
}

impl RequestStreamClient {
    pub closed spec fn spec_stream_id(self) -> u64 {
        self.stream_id
    }

    pub closed spec fn spec_fin_received(self) -> bool {
        self.fin_received
    }

    pub closed spec fn spec_header_ready(self) -> bool {
        self.header_ready
    }

    pub closed spec fn spec_response_headers(self) -> Option<Seq<(String, String)>> {
        match self.response_headers {
            Some(h) => Some(h@),
            None => None,
        }
    }

    /// The undelivered response body, one entry per DATA frame, in order.
    pub closed spec fn spec_body(self) -> Seq<Seq<u8>> {
        Seq::new(self.body@.len(), |i: int| self.body@[i]@)
    }

    pub closed spec fn wf(self) -> bool {
        &&& self.frame_reader.wf()
        &&& !self.frame_reader.spec_done()
        &&& self.send_buf.wf()
    }

    /// Whether the frame parser stands at a frame boundary with nothing
    /// consumed of the next frame.
    pub closed spec fn parser_idle(self) -> bool {
        self.frame_reader.fed() == Seq::<u8>::empty()
    }

    /// Whether the header list has already gone out for QPACK encoding.
    pub closed spec fn spec_encode_requested(self) -> bool {
        self.encode_requested
    }

    /// Whether the sending side has been ordered shut.
    pub closed spec fn spec_close_pending(self) -> bool {
        self.close_pending
    }

    /// Builds the request stream for `fetch`: the four pseudo-headers
    /// followed by the caller's headers form the list QPACK will encode.
    pub fn new(
        stream_id: u64,
        method: &str,
        scheme: &str,
        host: &str,
        path: &str,
        headers: Vec<(String, String)>,
    ) -> (r: Self)
        ensures
            r.wf(),
            r.spec_stream_id() == stream_id,
            !r.spec_fin_received(),
            !r.spec_header_ready(),
            !r.saw_headers(),
            r.parser_idle(),
            !r.spec_encode_requested(),
            !r.spec_headers_queued(),
            !r.spec_close_pending(),
            r.send_history() == Seq::<u8>::empty(),
            r.send_buffered() == Seq::<u8>::empty(),
            r.spec_body().len() == 0,
            ({
                let l = r.spec_request_headers();
                &&& l.len() == 4 + headers@.len()
                &&& l[0].0@ == ":method"@ && l[0].1@ == method@
                &&& l[1].0@ == ":scheme"@ && l[1].1@ == scheme@
                &&& l[2].0@ == ":authority"@ && l[2].1@ == host@
                &&& l[3].0@ == ":path"@ && l[3].1@ == path@
                &&& l.skip(4) == headers@
            }),
    {
        let mut list: Vec<(String, String)> = Vec::new();
        list.push((":method".to_owned(), method.to_owned()));
        list.push((":scheme".to_owned(), scheme.to_owned()));
        list.push((":authority".to_owned(), host.to_owned()));
        list.push((":path".to_owned(), path.to_owned()));
        let mut user = headers;
        list.append(&mut user);
        proof {
            assert(list@.skip(4) =~= list@.subrange(4, list@.len() as int));
        }
        RequestStreamClient {
            stream_id,
            request_headers: list,
            encode_requested: false,
            headers_queued: false,
            send_buf: SendBuf::new(),
            close_pending: false,
            frame_reader: HFrameReader::new(),
            saw_headers_frame: false,
            header_ready: false,
            response_headers: None,
            body: Vec::new(),
            fin_received: false,
        }
    }

    /// The header list this request will send (pseudo-headers first).
    pub closed spec fn spec_request_headers(self) -> Seq<(String, String)> {
        self.request_headers@
    }

    /// The bytes queued for sending and not yet handed to the transport.
    pub closed spec fn send_buffered(self) -> Seq<u8> {
        self.send_buf.buffered()
    }

    /// The send phase. The first call hands the header list to QPACK for
    /// encoding; once the encoded block has come back and been framed, the
    /// buffer drains into the transport. The returned flag asks the caller
    /// to close the sending side: the request has no body, so it ends right
    /// after its HEADERS frame.
    pub fn send(&mut self, qcmds: &mut Vec<QpackCmd>) -> (r: (Vec<u8>, bool))
        requires
            old(self).wf(),
        ensures
            final(self).wf(),
            final(self).spec_stream_id() == old(self).spec_stream_id(),
            final(self).spec_fin_received() == old(self).spec_fin_received(),
            final(self).spec_header_ready() == old(self).spec_header_ready(),
            final(self).spec_body() == old(self).spec_body(),
            r.0@ == old(self).send_buffered(),
            final(self).send_buffered() == Seq::<u8>::empty(),
            final(self).send_history() == old(self).send_history(),
            final(self).spec_headers_queued() == old(self).spec_headers_queued(),
            final(self).spec_encode_requested(),
            r.1 == (old(self).spec_headers_queued() && !old(self).spec_close_pending()),
            final(self).spec_close_pending() == (old(self).spec_close_pending() || old(self).spec_headers_queued()),
            old(self).spec_encode_requested() ==> final(qcmds)@ == old(qcmds)@,
            !old(self).spec_encode_requested() ==> final(qcmds)@.len() == old(qcmds)@.len() + 1
                && final(qcmds)@.take(old(qcmds)@.len() as int) == old(qcmds)@ && (final(qcmds)@.last() matches QpackCmd::EncodeHeaders { stream_id: sid, headers: h } && sid == old(self).spec_stream_id() && h@ == old(self).spec_request_headers()),
    {
        if !self.encode_requested {
            self.encode_requested = true;
            let mut list: Vec<(String, String)> = Vec::new();
            core::mem::swap(&mut list, &mut self.request_headers);
            qcmds.push(QpackCmd::EncodeHeaders { stream_id: self.stream_id, headers: list });
            proof {
                assert(final(qcmds)@.take(old(qcmds)@.len() as int) =~= old(qcmds)@);
            }
        }
        let out = self.send_buf.drain_all();
        let close = self.headers_queued && !self.close_pending;
        if close {
            self.close_pending = true;
        }
        (out, close)
    }

    /// Whether the send phase still has something to do.
    pub fn has_data_to_send(&self) -> (r: bool)
    {
        !self.encode_requested || self.send_buf.has_data() || (self.headers_queued
            && !self.close_pending)
    }

    pub closed spec fn spec_headers_queued(self) -> bool {
        self.headers_queued
    }

    /// Every byte ever queued for sending on this stream.
    pub closed spec fn send_history(self) -> Seq<u8> {
        self.send_buf.history()
    }

    /// Frames the encoded header block QPACK handed back; at most one
    /// HEADERS frame is ever queued.
    pub fn on_headers_encoded(&mut self, header_block: Vec<u8>)
        requires
            old(self).wf(),
            header_block@.len() <= VARINT_MAX,
        ensures
            final(self).wf(),
            final(self).spec_stream_id() == old(self).spec_stream_id(),
            !old(self).spec_headers_queued() ==> final(self).send_history() == old(self).send_history() + frame_wire(
                crate::frame::HFrameSpec::Headers { payload: header_block@ },
            ) && final(self).spec_headers_queued(),
            old(self).spec_headers_queued() ==> *final(self) == *old(self),
    {
        if self.headers_queued {
            return ;
        }
        let f = HFrame::Headers { payload: header_block };
        self.send_buf.queue_frame(&f);
        self.headers_queued = true;
    }

    /// Stores the decoded response headers and surfaces HeaderReady, then
    /// DataReadable for any body that arrived while decoding was pending.
    pub fn on_headers_decoded(
        &mut self,
        headers: Vec<(String, String)>,
        events: &mut Http3Events,
    )
        requires
            old(self).wf(),
        ensures
            final(self).wf(),
            final(self).spec_stream_id() == old(self).spec_stream_id(),
            events_extended_for(old(events)@, final(events)@, old(self).spec_stream_id()),
            old(self).saw_headers() && !old(self).spec_header_ready() ==> final(self).spec_response_headers() == Some(headers@) && final(self).spec_header_ready() && final(events)@.contains(Http3Event::HeaderReady { stream_id: old(self).spec_stream_id() }),
            !(old(self).saw_headers() && !old(self).spec_header_ready()) ==> *final(self) == *old(self) && final(events)@ == old(events)@,
    {
        proof {
            assert(old(events)@.take(old(events)@.len() as int) =~= old(events)@);
        }
        if !self.saw_headers_frame || self.header_ready {
            // No decode outstanding: nothing to store.
            return ;
        }
        self.response_headers = Some(headers);
        self.header_ready = true;
        let ghost base = events@;
        events.header_ready(self.stream_id);
        proof {
            let hr = Http3Event::HeaderReady { stream_id: self.stream_id };
            lemma_extend_insert(base, base, hr, self.stream_id);
            assert(events@.contains(hr)) by {
                if base.contains(hr) {
                    let k = choose|k: int| 0 <= k < base.len() && base[k] == hr;
                    assert(events@[k] == hr);
                } else {
                    assert(events@.last() == hr);
                }
            }
        }
        if self.body.len() > 0 || self.fin_received {
            let ghost cur = events@;
            events.data_readable(self.stream_id);
            proof {
                let hr = Http3Event::HeaderReady { stream_id: self.stream_id };
                lemma_extend_insert(
                    base,
                    cur,
                    Http3Event::DataReadable { stream_id: self.stream_id },
                    self.stream_id,
                );
                assert(events@.contains(hr)) by {
                    let k = choose|k: int| 0 <= k < cur.len() && cur[k] == hr;
                    if !cur.contains(Http3Event::DataReadable { stream_id: self.stream_id }) {
                        assert(events@[k] == hr);
                    }
                }
            }
        }
    }

    pub closed spec fn saw_headers(self) -> bool {
        self.saw_headers_frame
    }

    /// Feeds response bytes to the frame parser. HEADERS goes out to QPACK
    /// for decoding; each DATA frame's payload is kept as one chunk; frames
    /// that do not belong on a request stream raise their error; a FIN that
    /// cuts a frame short is `MalformedFrame`. The guarded clauses below pin
    /// the behaviour when the bytes carry exactly one frame.
    #[verifier::loop_isolation(false)]
    pub fn receive(
        &mut self,
        data: &Vec<u8>,
        start: usize,
        fin: bool,
        events: &mut Http3Events,
        qcmds: &mut Vec<QpackCmd>,
    ) -> (r: Result<(), Error>)
        requires
            old(self).wf(),
            start <= data@.len(),
        ensures
            final(self).spec_stream_id() == old(self).spec_stream_id(),
            events_extended_for(old(events)@, final(events)@, old(self).spec_stream_id()),
            final(qcmds)@.len() >= old(qcmds)@.len(),
            final(qcmds)@.take(old(qcmds)@.len() as int) == old(qcmds)@,
            r is Ok ==> final(self).wf(),
            r is Ok && fin ==> final(self).spec_fin_received(),
            old(self).parser_idle() && !old(self).saw_headers() && parse_frame(
                data@.skip(start as int),
            ) is Some && parse_frame(data@.skip(start as int))->Some_0 is Headers ==> ({
                &&& r is Ok
                &&& final(self).saw_headers()
                &&& final(self).spec_body() == old(self).spec_body()
                &&& final(qcmds)@.len() == old(qcmds)@.len() + 1
                &&& (final(qcmds)@.last() matches QpackCmd::DecodeHeaders {
                    stream_id: sid,
                    header_block: blk,
                } && sid == old(self).spec_stream_id() && blk@ == headers_payload(
                    parse_frame(data@.skip(start as int))->Some_0,
                ))
            }),
            old(self).parser_idle() && old(self).saw_headers() && parse_frame(
                data@.skip(start as int),
            ) is Some && parse_frame(data@.skip(start as int))->Some_0 is Data ==> ({
                &&& r is Ok
                &&& final(self).spec_body() == old(self).spec_body().push(
                    data_payload(parse_frame(data@.skip(start as int))->Some_0),
                )
                &&& final(qcmds)@ == old(qcmds)@
                &&& (old(self).spec_header_ready() ==> final(events)@.contains(
                    Http3Event::DataReadable { stream_id: old(self).spec_stream_id() },
                ))
            }),
            old(self).parser_idle() && frame_hdr(data@.skip(start as int)) is Some && frame_hdr(
                data@.skip(start as int),
            )->Some_0.1 > 0 && request_frame_err(
                Role::Client,
                old(self).saw_headers(),
                frame_hdr(data@.skip(start as int))->Some_0.0,
            ) is Some ==> r == Err::<(), Error>(
                request_frame_err(
                    Role::Client,
                    old(self).saw_headers(),
                    frame_hdr(data@.skip(start as int))->Some_0.0,
                )->Some_0,
            ),
            fin && old(self).parser_idle() && frame_hdr(data@.skip(start as int)) is Some
                && data@.skip(start as int).len() < frame_hdr(data@.skip(start as int))->Some_0.2
                + frame_hdr(data@.skip(start as int))->Some_0.1 && request_frame_err(
                Role::Client,
                old(self).saw_headers(),
                frame_hdr(data@.skip(start as int))->Some_0.0,
            ) is None ==> r == Err::<(), Error>(
                Error::MalformedFrame(frame_hdr(data@.skip(start as int))->Some_0.0),
            ),
    {
        let ghost sfx = data@.skip(start as int);
        let ghost g1 = old(self).parser_idle() && !old(self).saw_headers() && parse_frame(sfx)
            is Some && parse_frame(sfx)->Some_0 is Headers;
        let ghost g2 = old(self).parser_idle() && old(self).saw_headers() && parse_frame(sfx)
            is Some && parse_frame(sfx)->Some_0 is Data;
        let ghost g3 = old(self).parser_idle() && frame_hdr(sfx) is Some && frame_hdr(
            sfx,
        )->Some_0.1 > 0 && request_frame_err(
            Role::Client,
            old(self).saw_headers(),
            frame_hdr(sfx)->Some_0.0,
        ) is Some;
        let ghost g4 = fin && old(self).parser_idle() && frame_hdr(sfx) is Some && sfx.len()
            < frame_hdr(sfx)->Some_0.2 + frame_hdr(sfx)->Some_0.1 && request_frame_err(
            Role::Client,
            old(self).saw_headers(),
            frame_hdr(sfx)->Some_0.0,
        ) is None;
        proof {
            assert(old(events)@.take(old(events)@.len() as int) =~= old(events)@);
            assert(qcmds@.take(old(qcmds)@.len() as int) =~= old(qcmds)@);
            if parse_frame(sfx) is Some {
                lemma_parse_frame_type(sfx);
            }
        }
        let mut i: usize = start;
        while i < data.len()
            invariant
                self.wf(),
                start <= i <= data@.len(),
                self.stream_id == old(self).spec_stream_id(),
                events_extended_for(old(events)@, events@, old(self).spec_stream_id()),
                qcmds@.len() >= old(qcmds)@.len(),
                qcmds@.take(old(qcmds)@.len() as int) == old(qcmds)@,
                (g1 || g2) && i < data@.len() ==> ({
                    &&& self.frame_reader.fed() == data@.subrange(start as int, i as int)
                    &&& self.saw_headers_frame == old(self).saw_headers()
                    &&& self.body == old(self).body
                    &&& self.header_ready == old(self).spec_header_ready()
                    &&& qcmds@ == old(qcmds)@
                    &&& events@ == old(events)@
                }),
                g1 && i == data@.len() ==> ({
                    &&& self.saw_headers_frame
                    &&& self.body == old(self).body
                    &&& qcmds@.len() == old(qcmds)@.len() + 1
                    &&& (qcmds@.last() matches QpackCmd::DecodeHeaders {
                        stream_id: sid,
                        header_block: blk,
                    } && sid == old(self).spec_stream_id() && blk@ == headers_payload(
                        parse_frame(sfx)->Some_0,
                    ))
                    &&& events@ == old(events)@
                    &&& self.header_ready == old(self).spec_header_ready()
                    &&& !self.frame_reader.spec_done()
                    &&& self.frame_reader.fed() == Seq::<u8>::empty()
                }),
                g2 && i == data@.len() ==> ({
                    &&& self.spec_body() == old(self).spec_body().push(
                        data_payload(parse_frame(sfx)->Some_0),
                    )
                    &&& qcmds@ == old(qcmds)@
                    &&& (old(self).spec_header_ready() ==> events@.contains(
                        Http3Event::DataReadable { stream_id: old(self).spec_stream_id() },
                    ))
                    &&& self.header_ready == old(self).spec_header_ready()
                    &&& !self.frame_reader.spec_done()
                    &&& self.frame_reader.fed() == Seq::<u8>::empty()
                }),
                g3 ==> ({
                    &&& self.frame_reader.fed() == data@.subrange(start as int, i as int)
                    &&& frame_hdr(data@.subrange(start as int, i as int)) is None
                    &&& self.saw_headers_frame == old(self).saw_headers()
                }),
                g4 ==> ({
                    &&& self.frame_reader.fed() == data@.subrange(start as int, i as int)
                    &&& self.saw_headers_frame == old(self).saw_headers()
                }),
            decreases data@.len() - i,
        {
            let ghost pre = self.frame_reader.fed();
            let ghost s = data@.subrange(start as int, i + 1);
            proof {
                if g1 || g2 || g3 || g4 {
                    assert(pre.push(data@[i as int]) =~= s);
                    assert(s =~= sfx.take(i + 1 - start));
                    assert(s + sfx.skip(i + 1 - start) =~= sfx);
                    if g1 || g2 {
                        if i + 1 - start < sfx.len() {
                            lemma_prefix_incomplete(sfx, i + 1 - start);
                        } else {
                            assert(s =~= sfx);
                        }
                        if frame_hdr(s) is Some {
                            lemma_hdr_extend(s, sfx.skip(i + 1 - start));
                        }
                    }
                    if g3 || g4 {
                        if frame_hdr(s) is Some {
                            lemma_hdr_extend(s, sfx.skip(i + 1 - start));
                            assert(frame_hdr(s) == frame_hdr(sfx));
                            assert(!frame_complete(s));
                        }
                    }
                }
            }
            let b = data[i];
            i = i + 1;
            match self.frame_reader.consume_byte(b) {
                Err(e) => {
                    return Err(e);
                },
                Ok(_) => {},
            }
            if let Some(t) = self.frame_reader.header_type() {
                if let Some(e) = request_frame_check(Role::Client, self.saw_headers_frame, t) {
                    return Err(e);
                }
            }
            if self.frame_reader.done() {
                let f = self.frame_reader.get_frame();
                match f {
                    HFrame::Headers { payload } => {
                        self.saw_headers_frame = true;
                        qcmds.push(
                            QpackCmd::DecodeHeaders {
                                stream_id: self.stream_id,
                                header_block: payload,
                            },
                        );
                        proof {
                            assert(qcmds@.take(old(qcmds)@.len() as int) =~= old(qcmds)@);
                        }
                    },
                    HFrame::Data { payload } => {
                        let ghost b0 = self.body@;
                        self.body.push(payload);
                        proof {
                            if g2 && i == data@.len() {
                                assert(self.spec_body() =~= old(self).spec_body().push(
                                    self.body@.last()@,
                                ));
                            }
                        }
                        if self.header_ready {
                            let ghost cur = events@;
                            events.data_readable(self.stream_id);
                            proof {
                                let dr = Http3Event::DataReadable { stream_id: self.stream_id };
                                lemma_extend_insert(old(events)@, cur, dr, self.stream_id);
                                assert(events@.contains(dr)) by {
                                    if cur.contains(dr) {
                                        let k = choose|k: int|
                                            0 <= k < cur.len() && cur[k] == dr;
                                        assert(events@[k] == dr);
                                    } else {
                                        assert(events@.last() == dr);
                                    }
                                }
                            }
                        }
                    },
                    _ => {
                        // Screened out at the header, or skipped as unknown.
                        return Err(Error::UnexpectedFrame);
                    },
                }
            }
        }
        if fin {
            if self.frame_reader.mid_frame() {
                proof {
                    if g4 {
                        assert(self.frame_reader.fed() == sfx) by {
                            assert(data@.subrange(start as int, data@.len() as int) =~= sfx);
                        }
                    }
                }
                return Err(Error::MalformedFrame(self.frame_reader.malformed_type()));
            }
            self.fin_received = true;
            if self.header_ready {
                let ghost cur = events@;
                events.data_readable(self.stream_id);
                proof {
                    let dr = Http3Event::DataReadable { stream_id: self.stream_id };
                    lemma_extend_insert(old(events)@, cur, dr, self.stream_id);
                    assert(events@.contains(dr)) by {
                        if cur.contains(dr) {
                            let k = choose|k: int| 0 <= k < cur.len() && cur[k] == dr;
                            assert(events@[k] == dr);
                        } else {
                            assert(events@.last() == dr);
                        }
                    }
                }
            }
        }
        proof {
            if g4 {
                assert(data@.subrange(start as int, data@.len() as int) =~= sfx);
                assert(false);
            }
        }
        Ok(())
    }

    /// Whether the response headers have been decoded and surfaced.
    pub fn is_header_ready(&self) -> (r: bool)
        ensures
            r == self.spec_header_ready(),
    {
        self.header_ready
    }

    /// Whether the stream's FIN has been seen.
    pub fn fin_seen(&self) -> (r: bool)
        ensures
            r == self.spec_fin_received(),
    {
        self.fin_received
    }

    /// Whether undelivered body chunks remain.
    pub fn has_buffered_body(&self) -> (r: bool)
        ensures
            r == (self.spec_body().len() > 0),
    {
        self.body.len() > 0
    }

    /// Hands the application up to `max` bytes of the foremost undelivered
    /// DATA chunk (never crossing a frame boundary), and whether the
    /// response is finished: everything delivered and FIN seen.
    pub fn read_data(&mut self, max: usize) -> (r: (Vec<u8>, bool))
        requires
            old(self).wf(),
        ensures
            final(self).wf(),
            final(self).spec_stream_id() == old(self).spec_stream_id(),
            ({
                if old(self).spec_body().len() == 0 {
                    &&& r.0@ == Seq::<u8>::empty()
                    &&& r.1 == old(self).spec_fin_received()
                    &&& final(self).spec_body() == old(self).spec_body()
                } else {
                    let chunk = old(self).spec_body()[0];
                    let n = if max < chunk.len() {
                        max as int
                    } else {
                        chunk.len() as int
                    };
                    &&& r.0@ == chunk.take(n)
                    &&& (if n == chunk.len() {
                        final(self).spec_body() == old(self).spec_body().skip(1)
                    } else {
                        final(self).spec_body() == old(self).spec_body().update(0, chunk.skip(n))
                    })
                    &&& r.1 == (final(self).spec_body().len() == 0 && old(self).spec_fin_received())
                }
            }),
    {
        if self.body.len() == 0 {
            return (Vec::new(), self.fin_received);
        }
        let mut chunk = self.body.remove(0);
        if max < chunk.len() {
            let tail = chunk.split_off(max);
            self.body.insert(0, tail);
            proof {
                assert(self.spec_body() =~= old(self).spec_body().update(
                    0,
                    old(self).spec_body()[0].skip(max as int),
                ));
            }
            (chunk, false)
        } else {
            proof {
                assert(self.spec_body() =~= old(self).spec_body().skip(1));
                assert(chunk@ =~= old(self).spec_body()[0].take(
                    old(self).spec_body()[0].len() as int,
                ));
            }
            let fin = self.body.len() == 0 && self.fin_received;
            (chunk, fin)
        }
    }

    /// Hands the decoded response headers to the application, once.
    pub fn take_headers(&mut self) -> (r: Option<Vec<(String, String)>>)
        requires
            old(self).wf(),
        ensures
            final(self).wf(),
            final(self).spec_stream_id() == old(self).spec_stream_id(),
            final(self).spec_body() == old(self).spec_body(),
            final(self).spec_fin_received() == old(self).spec_fin_received(),
            final(self).spec_response_headers() is None,
            match old(self).spec_response_headers() {
                Some(h) => r is Some && r->Some_0@ == h,
                None => r is None,
            },
    {
        let mut out: Option<Vec<(String, String)>> = None;
        core::mem::swap(&mut out, &mut self.response_headers);
        out
    }
}

/// The server's end of one request stream: it parses the request the same
/// way the client parses a response, and frames the application's answer as
/// one HEADERS frame and one DATA frame.
pub struct RequestStreamServer {
    stream_id: u64,
    frame_reader: HFrameReader,
    saw_headers_frame: bool,
    headers_decoded: bool,
    request_fin: bool,
    response_queued: bool,
    close_pending: bool,
    send_buf: SendBuf,
}

impl RequestStreamServer {
    pub closed spec fn spec_stream_id(self) -> u64 {
        self.stream_id
    }

    pub closed spec fn wf(self) -> bool {
        &&& self.frame_reader.wf()
        &&& !self.frame_reader.spec_done()
        &&& self.send_buf.wf()
    }

    /// Every byte ever queued for sending on this stream.
    pub closed spec fn send_history(self) -> Seq<u8> {
        self.send_buf.history()
    }

    pub closed spec fn spec_response_queued(self) -> bool {
        self.response_queued
    }

    /// Whether the frame parser stands at a frame boundary with nothing
    /// consumed of the next frame.
    pub closed spec fn parser_idle(self) -> bool {
        self.frame_reader.fed() == Seq::<u8>::empty()
    }

    /// Whether the request's HEADERS frame has arrived.
    pub closed spec fn saw_headers(self) -> bool {
        self.saw_headers_frame
    }

    pub fn new(stream_id: u64) -> (r: Self)
        ensures
            r.wf(),
            r.spec_stream_id() == stream_id,
            !r.spec_response_queued(),
    {
        RequestStreamServer {
            stream_id,
            frame_reader: HFrameReader::new(),
            saw_headers_frame: false,
            headers_decoded: false,
            request_fin: false,
            response_queued: false,
            close_pending: false,
            send_buf: SendBuf::new(),
        }
    }

    /// Feeds request bytes to the frame parser. The HEADERS block goes out
    /// to QPACK for decoding; request DATA is accepted and dropped (the
    /// handler sees only the headers); frames that do not belong on a
    /// request stream raise their error; a FIN that cuts a frame short is
    /// `MalformedFrame`.
    #[verifier::loop_isolation(false)]
    pub fn receive(
        &mut self,
        data: &Vec<u8>,
        start: usize,
        fin: bool,
        qcmds: &mut Vec<QpackCmd>,
    ) -> (r: Result<(), Error>)
        requires
            old(self).wf(),
            start <= data@.len(),
        ensures
            final(self).spec_stream_id() == old(self).spec_stream_id(),
            final(qcmds)@.len() >= old(qcmds)@.len(),
            final(qcmds)@.take(old(qcmds)@.len() as int) == old(qcmds)@,
            r is Ok ==> final(self).wf(),
            old(self).parser_idle() && !old(self).saw_headers() && parse_frame(
                data@.skip(start as int),
            ) is Some && parse_frame(data@.skip(start as int))->Some_0 is Headers ==> ({
                &&& r is Ok
                &&& final(self).saw_headers()
                &&& final(qcmds)@.len() == old(qcmds)@.len() + 1
                &&& (final(qcmds)@.last() matches QpackCmd::DecodeHeaders {
                    stream_id: sid,
                    header_block: blk,
                } && sid == old(self).spec_stream_id() && blk@ == headers_payload(
                    parse_frame(data@.skip(start as int))->Some_0,
                ))
            }),
            old(self).parser_idle() && frame_hdr(data@.skip(start as int)) is Some && frame_hdr(
                data@.skip(start as int),
            )->Some_0.1 > 0 && request_frame_err(
                Role::Server,
                old(self).saw_headers(),
                frame_hdr(data@.skip(start as int))->Some_0.0,
            ) is Some ==> r == Err::<(), Error>(
                request_frame_err(
                    Role::Server,
                    old(self).saw_headers(),
                    frame_hdr(data@.skip(start as int))->Some_0.0,
                )->Some_0,
            ),
            fin && old(self).parser_idle() && frame_hdr(data@.skip(start as int)) is Some
                && data@.skip(start as int).len() < frame_hdr(data@.skip(start as int))->Some_0.2
                + frame_hdr(data@.skip(start as int))->Some_0.1 && request_frame_err(
                Role::Server,
                old(self).saw_headers(),
                frame_hdr(data@.skip(start as int))->Some_0.0,
            ) is None ==> r == Err::<(), Error>(
                Error::MalformedFrame(frame_hdr(data@.skip(start as int))->Some_0.0),
            ),
    {
        let ghost sfx = data@.skip(start as int);
        let ghost g1 = old(self).parser_idle() && !old(self).saw_headers() && parse_frame(sfx)
            is Some && parse_frame(sfx)->Some_0 is Headers;
        let ghost g3 = old(self).parser_idle() && frame_hdr(sfx) is Some && frame_hdr(
            sfx,
        )->Some_0.1 > 0 && request_frame_err(
            Role::Server,
            old(self).saw_headers(),
            frame_hdr(sfx)->Some_0.0,
        ) is Some;
        let ghost g4 = fin && old(self).parser_idle() && frame_hdr(sfx) is Some && sfx.len()
            < frame_hdr(sfx)->Some_0.2 + frame_hdr(sfx)->Some_0.1 && request_frame_err(
            Role::Server,
            old(self).saw_headers(),
            frame_hdr(sfx)->Some_0.0,
        ) is None;
        proof {
            assert(qcmds@.take(old(qcmds)@.len() as int) =~= old(qcmds)@);
            if parse_frame(sfx) is Some {
                lemma_parse_frame_type(sfx);
            }
        }
        let mut i: usize = start;
        while i < data.len()
            invariant
                self.wf(),
                start <= i <= data@.len(),
                self.stream_id == old(self).spec_stream_id(),
                qcmds@.len() >= old(qcmds)@.len(),
                qcmds@.take(old(qcmds)@.len() as int) == old(qcmds)@,
                g1 && i < data@.len() ==> ({
                    &&& self.frame_reader.fed() == data@.subrange(start as int, i as int)
                    &&& self.saw_headers_frame == old(self).saw_headers()
                    &&& qcmds@ == old(qcmds)@
                }),
                g1 && i == data@.len() ==> ({
                    &&& self.saw_headers_frame
                    &&& qcmds@.len() == old(qcmds)@.len() + 1
                    &&& (qcmds@.last() matches QpackCmd::DecodeHeaders {
                        stream_id: sid,
                        header_block: blk,
                    } && sid == old(self).spec_stream_id() && blk@ == headers_payload(
                        parse_frame(sfx)->Some_0,
                    ))
                    &&& !self.frame_reader.spec_done()
                    &&& self.frame_reader.fed() == Seq::<u8>::empty()
                }),
                g3 ==> ({
                    &&& self.frame_reader.fed() == data@.subrange(start as int, i as int)
                    &&& frame_hdr(data@.subrange(start as int, i as int)) is None
                    &&& self.saw_headers_frame == old(self).saw_headers()
                }),
                g4 ==> ({
                    &&& self.frame_reader.fed() == data@.subrange(start as int, i as int)
                    &&& self.saw_headers_frame == old(self).saw_headers()
                }),
            decreases data@.len() - i,
        {
            let ghost pre = self.frame_reader.fed();
            let ghost s = data@.subrange(start as int, i + 1);
            proof {
                if g1 || g3 || g4 {
                    assert(pre.push(data@[i as int]) =~= s);
                    assert(s =~= sfx.take(i + 1 - start));
                    assert(s + sfx.skip(i + 1 - start) =~= sfx);
                    if g1 {
                        if i + 1 - start < sfx.len() {
                            lemma_prefix_incomplete(sfx, i + 1 - start);
                        } else {
                            assert(s =~= sfx);
                        }
                    }
                    if frame_hdr(s) is Some {
                        lemma_hdr_extend(s, sfx.skip(i + 1 - start));
                    }
                    if (g3 || g4) && frame_hdr(s) is Some {
                        assert(!frame_complete(s));
                    }
                }
            }
            let b = data[i];
            i = i + 1;
            match self.frame_reader.consume_byte(b) {
                Err(e) => {
                    return Err(e);
                },
                Ok(_) => {},
            }
            if let Some(t) = self.frame_reader.header_type() {
                if let Some(e) = request_frame_check(Role::Server, self.saw_headers_frame, t) {
                    return Err(e);
                }
            }
            if self.frame_reader.done() {
                let f = self.frame_reader.get_frame();
                match f {
                    HFrame::Headers { payload } => {
                        self.saw_headers_frame = true;
                        qcmds.push(
                            QpackCmd::DecodeHeaders {
                                stream_id: self.stream_id,
                                header_block: payload,
                            },
                        );
                        proof {
                            assert(qcmds@.take(old(qcmds)@.len() as int) =~= old(qcmds)@);
                        }
                    },
                    HFrame::Data { .. } => {},
                    HFrame::Priority { .. } => {},
                    _ => {
                        // Screened out at the header, or skipped as unknown.
                        return Err(Error::UnexpectedFrame);
                    },
                }
            }
        }
        if fin {
            if self.frame_reader.mid_frame() {
                proof {
                    if g4 {
                        assert(data@.subrange(start as int, data@.len() as int) =~= sfx);
                    }
                }
                return Err(Error::MalformedFrame(self.frame_reader.malformed_type()));
            }
            self.request_fin = true;
        }
        proof {
            if g4 {
                assert(data@.subrange(start as int, data@.len() as int) =~= sfx);
                assert(false);
            }
        }
        Ok(())
    }

    /// Marks the request headers as decoded; the connection hands them to
    /// the application, which answers with `set_response`.
    pub fn on_headers_decoded(&mut self)
        requires
            old(self).wf(),
        ensures
            final(self).wf(),
            final(self).spec_stream_id() == old(self).spec_stream_id(),
    {
        self.headers_decoded = true;
    }

    /// Frames the application's response: one HEADERS frame around the
    /// encoded block, then one DATA frame around the body.
    pub fn set_response(&mut self, header_block: Vec<u8>, body: Vec<u8>)
        requires
            old(self).wf(),
            header_block@.len() <= VARINT_MAX,
            body@.len() <= VARINT_MAX,
        ensures
            final(self).wf(),
            final(self).spec_stream_id() == old(self).spec_stream_id(),
            !old(self).spec_response_queued() ==> final(self).send_history() == old(self).send_history() + frame_wire(
                crate::frame::HFrameSpec::Headers { payload: header_block@ },
            ) + frame_wire(crate::frame::HFrameSpec::Data { payload: body@ })
                && final(self).spec_response_queued(),
            old(self).spec_response_queued() ==> *final(self) == *old(self),
    {
        if self.response_queued {
            return ;
        }
        let hf = HFrame::Headers { payload: header_block };
        self.send_buf.queue_frame(&hf);
        let df = HFrame::Data { payload: body };
        self.send_buf.queue_frame(&df);
        self.response_queued = true;
    }

    /// The bytes queued for sending and not yet handed to the transport.
    pub closed spec fn send_buffered(self) -> Seq<u8> {
        self.send_buf.buffered()
    }

    /// Whether the sending side has been ordered shut.
    pub closed spec fn spec_close_pending(self) -> bool {
        self.close_pending
    }

    /// The send phase: drains the framed response. The returned flag asks
    /// the caller to close the sending side once everything is out.
    pub fn send(&mut self) -> (r: (Vec<u8>, bool))
        requires
            old(self).wf(),
        ensures
            final(self).wf(),
            final(self).spec_stream_id() == old(self).spec_stream_id(),
            r.0@ == old(self).send_buffered(),
            final(self).send_buffered() == Seq::<u8>::empty(),
            final(self).send_history() == old(self).send_history(),
            final(self).spec_response_queued() == old(self).spec_response_queued(),
            r.1 == (old(self).spec_response_queued() && !old(self).spec_close_pending()),
            final(self).spec_close_pending() == (old(self).spec_close_pending() || old(self).spec_response_queued()),
    {
        let out = self.send_buf.drain_all();
        let close = self.response_queued && !self.close_pending;
        if close {
            self.close_pending = true;
        }
        (out, close)
    }

    pub fn has_data_to_send(&self) -> (r: bool)
    {
        self.send_buf.has_data() || (self.response_queued && !self.close_pending)
    }

    /// Whether the response has been queued and fully drained: the stream's
    /// work is over and it can be dropped.
    pub fn finished(&self) -> (r: bool)
    {
        self.response_queued && !self.send_buf.has_data() && self.close_pending
    }
}

} // verus!
