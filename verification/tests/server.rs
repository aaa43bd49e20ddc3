// Server-side request handling, stream-count rules, and the event queue's
// behaviour around closure and GOAWAY.

use neqo_http3::Error;
use neqo_http3::Http3Connection;
use neqo_http3::Http3Error;
use neqo_http3::Http3Event;
use neqo_http3::Http3State;
use neqo_http3::QpackCmd;
use neqo_http3::QpackEvent;
use neqo_http3::ResponseData;
use neqo_http3::Role;
use neqo_http3::StreamData;
use neqo_http3::StreamType;
use neqo_http3::TickInput;
use neqo_http3::TickOutput;
use neqo_http3::TransportCmd;
use neqo_http3::TransportEvent;
use neqo_http3::TransportState;

fn assert_closed(h: &Http3Connection, expected: Error) {
    match h.state() {
        Http3State::Closing(err) | Http3State::Closed(err) => assert_eq!(err, expected.code()),
        _ => panic!("Wrong state {:?}", h.state()),
    }
}

fn connect(role: Role) -> Http3Connection {
    let mut h = Http3Connection::new(role, 100, 100);
    h.check_state_change(TransportState::Connected);
    h.process_http3(TickInput::empty());
    assert_eq!(h.state(), Http3State::Connected);
    h
}

fn receive_peer_control(h: &mut Http3Connection, control: u64) {
    let mut input = TickInput::empty();
    input.events.push(TransportEvent::NewStream { stream_id: control, stream_type: StreamType::UniDi });
    input.stream_data.push(StreamData {
        stream_id: control,
        data: vec![0x0, 0x4, 0x6, 0x1, 0x40, 0x64, 0x7, 0x40, 0x64],
        fin: false,
    });
    h.process_http3(input);
    assert_eq!(h.state(), Http3State::Connected);
}

fn sent_bytes(out: &TickOutput, stream_id: u64) -> Option<Vec<u8>> {
    let mut found: Option<Vec<u8>> = None;
    for c in out.cmds.iter() {
        if let TransportCmd::SendBytes { stream_id: id, data } = c {
            if *id == stream_id {
                let mut all = found.unwrap_or_default();
                all.extend(data.iter().cloned());
                found = Some(all);
            }
        }
    }
    found
}

const REQUEST_BLOCK: [u8; 16] = [
    0x00, 0x00, 0xd1, 0xd7, 0x50, 0x89, 0x41, 0xe9, 0x2a, 0x67, 0x35, 0x53, 0x2e, 0x43, 0xd3, 0xc1,
];

const RESPONSE_BLOCK: [u8; 6] = [0x00, 0x00, 0xd9, 0x54, 0x01, 0x33];

fn request_headers() -> Vec<(String, String)> {
    vec![
        (String::from(":method"), String::from("GET")),
        (String::from(":scheme"), String::from("https")),
        (String::from(":authority"), String::from("something.com")),
        (String::from(":path"), String::from("/")),
    ]
}

// A whole server-side request: the client's HEADERS arrive, the decoded list
// reaches the application, and its response leaves as one HEADERS and one
// DATA frame, after which the send side closes.
#[test]
fn server_request_lifecycle() {
    let mut h = connect(Role::Server);
    receive_peer_control(&mut h, 2);

    let mut request = vec![0x01, 0x10];
    request.extend(REQUEST_BLOCK.iter().cloned());
    let mut input = TickInput::empty();
    input.events.push(TransportEvent::NewStream { stream_id: 0, stream_type: StreamType::BiDi });
    input.stream_data.push(StreamData { stream_id: 0, data: request, fin: true });
    let out = h.process_http3(input);
    let mut decode_seen = false;
    for c in out.qpack.iter() {
        if let QpackCmd::DecodeHeaders { stream_id, header_block } = c {
            assert_eq!(*stream_id, 0);
            assert_eq!(*header_block, REQUEST_BLOCK.to_vec());
            decode_seen = true;
        }
    }
    assert!(decode_seen);

    let mut input = TickInput::empty();
    input.qpack.push(QpackEvent::HeadersDecoded { stream_id: 0, headers: request_headers() });
    let out = h.process_http3(input);
    assert_eq!(out.requests.len(), 1);
    assert_eq!(out.requests[0].stream_id, 0);
    assert_eq!(out.requests[0].headers, request_headers());
    assert_eq!(out.requests[0].fin, false);

    let mut input = TickInput::empty();
    input.responses.push(ResponseData {
        stream_id: 0,
        header_block: RESPONSE_BLOCK.to_vec(),
        body: vec![0x61, 0x62, 0x63],
    });
    let out = h.process_http3(input);
    let mut expected = vec![0x01, 0x06];
    expected.extend(RESPONSE_BLOCK.iter().cloned());
    expected.extend([0x00, 0x03, 0x61, 0x62, 0x63]);
    assert_eq!(sent_bytes(&out, 0), Some(expected));
    assert!(out.cmds.contains(&TransportCmd::CloseSend { stream_id: 0 }));
    assert_eq!(h.state(), Http3State::Connected);
}

// A client never accepts a server-initiated bidirectional stream.
#[test]
fn client_refuses_server_bidi_stream() {
    let mut h = connect(Role::Client);
    receive_peer_control(&mut h, 3);
    let mut input = TickInput::empty();
    input.events.push(TransportEvent::NewStream { stream_id: 1, stream_type: StreamType::BiDi });
    let out = h.process_http3(input);
    assert!(out.cmds.contains(&TransportCmd::StopSending { stream_id: 1, app_error: 0 }));
    assert_eq!(h.state(), Http3State::Connected);
}

// A control-stream-only frame on a server request stream stops that stream
// and drops it from the server's own map: later bytes on it are ignored and
// the connection goes on.
#[test]
fn server_request_stream_error_drops_stream() {
    let mut h = connect(Role::Server);
    receive_peer_control(&mut h, 2);
    let mut input = TickInput::empty();
    input.events.push(TransportEvent::NewStream { stream_id: 0, stream_type: StreamType::BiDi });
    input.stream_data.push(StreamData { stream_id: 0, data: vec![0x3, 0x1, 0x5], fin: false });
    let out = h.process_http3(input);
    assert!(out.cmds.contains(
        &TransportCmd::StopSending { stream_id: 0, app_error: Error::WrongStream.code() },
    ));
    assert_eq!(h.state(), Http3State::Connected);
    // The stream is gone: more bytes on it change nothing.
    let mut input = TickInput::empty();
    input.stream_data.push(StreamData { stream_id: 0, data: vec![0x3, 0x1, 0x5], fin: false });
    h.process_http3(input);
    assert_eq!(h.state(), Http3State::Connected);
}

// A second inbound control stream is one too many.
#[test]
fn second_control_stream_is_fatal() {
    let mut h = connect(Role::Client);
    receive_peer_control(&mut h, 3);
    let mut input = TickInput::empty();
    input.events.push(TransportEvent::NewStream { stream_id: 15, stream_type: StreamType::UniDi });
    input.stream_data.push(StreamData { stream_id: 15, data: vec![0x0], fin: false });
    h.process_http3(input);
    assert_closed(&h, Error::WrongStreamCount);
}

// A second peer QPACK encoder stream is one too many.
#[test]
fn second_encoder_stream_is_fatal() {
    let mut h = connect(Role::Client);
    receive_peer_control(&mut h, 3);
    let mut input = TickInput::empty();
    input.events.push(TransportEvent::NewStream { stream_id: 7, stream_type: StreamType::UniDi });
    input.events.push(TransportEvent::NewStream { stream_id: 11, stream_type: StreamType::UniDi });
    input.stream_data.push(StreamData { stream_id: 7, data: vec![0x2], fin: false });
    input.stream_data.push(StreamData { stream_id: 11, data: vec![0x2], fin: false });
    h.process_http3(input);
    assert_closed(&h, Error::WrongStreamCount);
}

// FIN on the peer's QPACK encoder stream is the end of a critical stream.
#[test]
fn qpack_stream_fin_is_fatal() {
    let mut h = connect(Role::Client);
    receive_peer_control(&mut h, 3);
    let mut input = TickInput::empty();
    input.events.push(TransportEvent::NewStream { stream_id: 7, stream_type: StreamType::UniDi });
    input.stream_data.push(StreamData { stream_id: 7, data: vec![0x2], fin: false });
    h.process_http3(input);
    assert_eq!(h.state(), Http3State::Connected);
    let mut input = TickInput::empty();
    input.stream_data.push(StreamData { stream_id: 7, data: vec![], fin: true });
    h.process_http3(input);
    assert_closed(&h, Error::ClosedCriticalStream);
}

// Fetch is for a Connected client only.
#[test]
fn fetch_needs_connected() {
    let mut h = Http3Connection::new(Role::Client, 100, 100);
    assert_eq!(
        h.fetch("GET", "https", "something.com", "/", Vec::new()),
        Err(Error::GeneralProtocolError)
    );
}

// The peer closing the transport surfaces one ConnectionClosed event and
// clears everything else.
#[test]
fn connection_closed_clears_events() {
    let mut h = connect(Role::Client);
    receive_peer_control(&mut h, 3);
    let mut input = TickInput::empty();
    input.events.push(TransportEvent::ConnectionClosed { error_code: 7 });
    h.process_http3(input);
    assert_eq!(h.state(), Http3State::Closed(7));
    assert_eq!(h.events(), vec![Http3Event::ConnectionClosed { error_code: 7 }]);
}

// Closing makes Closed once the transport reports its own closure, with the
// same code.
#[test]
fn closing_reaches_closed() {
    let mut h = connect(Role::Client);
    h.close(9, "enough");
    assert_eq!(h.state(), Http3State::Closing(9));
    h.check_state_change(TransportState::Closed);
    assert_eq!(h.state(), Http3State::Closed(9));
}

// After a fin-cut frame on the control stream the state passes through
// Closing to Closed with ClosedCriticalStream.
#[test]
fn critical_fin_closes_through_closing() {
    let mut h = connect(Role::Client);
    receive_peer_control(&mut h, 3);
    let mut input = TickInput::empty();
    input.stream_data.push(StreamData { stream_id: 3, data: vec![0x4], fin: true });
    h.process_http3(input);
    assert_eq!(h.state(), Http3State::Closing(Error::ClosedCriticalStream.code()));
    h.check_state_change(TransportState::Closed);
    assert_eq!(h.state(), Http3State::Closed(Error::ClosedCriticalStream.code()));
}

// GOAWAY filters already-queued events above the cutoff and keeps the
// teardown notices.
#[test]
fn goaway_filters_pending_events() {
    let mut h = connect(Role::Client);
    receive_peer_control(&mut h, 3);
    assert_eq!(h.fetch("GET", "https", "something.com", "/", Vec::new()), Ok(0));
    assert_eq!(h.fetch("GET", "https", "something.com", "/", Vec::new()), Ok(4));
    h.process_http3(TickInput::empty());

    // Stream 4's response headers arrive and are decoded, so HeaderReady{4}
    // is queued; then GOAWAY with cutoff 2 arrives before events are read.
    let mut request = vec![0x01, 0x06];
    request.extend(RESPONSE_BLOCK.iter().cloned());
    let mut input = TickInput::empty();
    input.stream_data.push(StreamData { stream_id: 4, data: request, fin: false });
    h.process_http3(input);
    let mut input = TickInput::empty();
    input.qpack.push(QpackEvent::HeadersDecoded {
        stream_id: 4,
        headers: vec![(String::from(":status"), String::from("200"))],
    });
    h.process_http3(input);

    let mut input = TickInput::empty();
    input.stream_data.push(StreamData { stream_id: 3, data: vec![0x7, 0x1, 0x2], fin: false });
    h.process_http3(input);
    assert_eq!(h.state(), Http3State::GoingAway);
    let events = h.events();
    assert!(!events.contains(&Http3Event::HeaderReady { stream_id: 4 }));
    assert!(events.contains(
        &Http3Event::RequestClosed { stream_id: 4, error: Http3Error::NetReset },
    ));
}

// Reading with a small buffer never crosses a DATA frame boundary and keeps
// the rest for the next read.
#[test]
fn read_data_respects_frame_boundaries() {
    let mut h = connect(Role::Client);
    receive_peer_control(&mut h, 3);
    assert_eq!(h.fetch("GET", "https", "something.com", "/", Vec::new()), Ok(0));
    h.process_http3(TickInput::empty());
    let mut response = vec![0x01, 0x06];
    response.extend(RESPONSE_BLOCK.iter().cloned());
    response.extend([0x00, 0x03, 0x61, 0x62, 0x63, 0x00, 0x02, 0x64, 0x65]);
    let mut input = TickInput::empty();
    input.stream_data.push(StreamData { stream_id: 0, data: response, fin: true });
    h.process_http3(input);
    let mut input = TickInput::empty();
    input.qpack.push(QpackEvent::HeadersDecoded {
        stream_id: 0,
        headers: vec![(String::from(":status"), String::from("200"))],
    });
    h.process_http3(input);
    assert_eq!(h.read_data(0, 2), Ok((vec![0x61, 0x62], false)));
    assert_eq!(h.read_data(0, 2), Ok((vec![0x63], false)));
    assert_eq!(h.read_data(0, 2), Ok((vec![0x64, 0x65], true)));
}
