// Client-side connection tests: handshake, control-stream handling, stream
// typing, fetch, framed responses and GOAWAY. The test plays both the QUIC
// transport (handing in events and stream bytes, reading back commands) and
// the QPACK codec (answering encode/decode requests with known header
// blocks).

use neqo_http3::Error;
use neqo_http3::Http3Connection;
use neqo_http3::Http3Error;
use neqo_http3::Http3Event;
use neqo_http3::Http3State;
use neqo_http3::QpackCmd;
use neqo_http3::QpackEvent;
use neqo_http3::Role;
use neqo_http3::StreamData;
use neqo_http3::StreamType;
use neqo_http3::TickInput;
use neqo_http3::TickOutput;
use neqo_http3::TransportCmd;
use neqo_http3::TransportEvent;
use neqo_http3::TransportState;

fn assert_closed(h: &Http3Connection, expected: Error) {
    match h.state() {
        Http3State::Closing(err) | Http3State::Closed(err) => assert_eq!(err, expected.code()),
        _ => panic!("Wrong state {:?}", h.state()),
    }
}

fn sent_bytes(out: &TickOutput, stream_id: u64) -> Option<Vec<u8>> {
    let mut found: Option<Vec<u8>> = None;
    for c in out.cmds.iter() {
        if let TransportCmd::SendBytes { stream_id: id, data } = c {
            if *id == stream_id {
                let mut all = found.unwrap_or_default();
                all.extend(data.iter().cloned());
                found = Some(all);
            }
        }
    }
    found
}

fn has_stop_sending(out: &TickOutput, stream_id: u64, code: u16) -> bool {
    out.cmds.iter().any(|c| {
        matches!(c, TransportCmd::StopSending { stream_id: id, app_error }
            if *id == stream_id && *app_error == code)
    })
}

// Drive the handshake and check the setting frame: the client must open
// unidirectional streams 2, 6 and 10 bearing the control-stream type plus
// SETTINGS, the QPACK encoder type and the QPACK decoder type.
fn connect(client: bool) -> Http3Connection {
    let role = if client { Role::Client } else { Role::Server };
    let mut h = Http3Connection::new(role, 100, 100);
    assert_eq!(h.state(), Http3State::Initializing);
    h.check_state_change(TransportState::Connected);
    assert_eq!(h.state(), Http3State::Connected);
    let out = h.process_http3(TickInput::empty());
    let base = if client { 2 } else { 3 };
    for (k, expected) in [
        vec![0x0, 0x4, 0x6, 0x1, 0x40, 0x64, 0x7, 0x40, 0x64],
        vec![0x2],
        vec![0x3],
    ]
    .into_iter()
    .enumerate()
    {
        let id = base + 4 * (k as u64);
        assert!(out.cmds.contains(&TransportCmd::CreateUniStream { stream_id: id }));
        assert_eq!(sent_bytes(&out, id), Some(expected));
    }
    h
}

// The peer opens its own control stream and sends its SETTINGS, plus its
// QPACK streams. Peer-initiated unidirectional ids start at 3 towards a
// client, 2 towards a server.
fn connect_and_receive_control_stream(client: bool) -> (Http3Connection, u64) {
    let mut h = connect(client);
    let control_stream = if client { 3 } else { 2 };
    let mut input = TickInput::empty();
    for k in 0..3u64 {
        input.events.push(TransportEvent::NewStream {
            stream_id: control_stream + 4 * k,
            stream_type: StreamType::UniDi,
        });
    }
    input.stream_data.push(StreamData {
        stream_id: control_stream,
        data: vec![0x0, 0x4, 0x6, 0x1, 0x40, 0x64, 0x7, 0x40, 0x64],
        fin: false,
    });
    input.stream_data.push(StreamData { stream_id: control_stream + 4, data: vec![0x2], fin: false });
    input.stream_data.push(StreamData { stream_id: control_stream + 8, data: vec![0x3], fin: false });
    h.process_http3(input);
    assert_eq!(h.state(), Http3State::Connected);
    (h, control_stream)
}

fn data_input(stream_id: u64, data: Vec<u8>, fin: bool) -> TickInput {
    let mut input = TickInput::empty();
    input.stream_data.push(StreamData { stream_id, data, fin });
    input
}

#[test]
fn test_client_connect() {
    let _ = connect(true);
}

#[test]
fn test_server_connect() {
    let _ = connect(false);
}

#[test]
fn test_client_receive_control_frame() {
    let _ = connect_and_receive_control_stream(true);
}

#[test]
fn test_server_receive_control_frame() {
    let _ = connect_and_receive_control_stream(false);
}

// The connection dies when the peer closes its control stream.
#[test]
fn test_client_close_control_stream() {
    let (mut h, control) = connect_and_receive_control_stream(true);
    h.process_http3(data_input(control, vec![], true));
    assert_closed(&h, Error::ClosedCriticalStream);
}

#[test]
fn test_server_close_control_stream() {
    let (mut h, control) = connect_and_receive_control_stream(false);
    h.process_http3(data_input(control, vec![], true));
    assert_closed(&h, Error::ClosedCriticalStream);
}

// The first frame on the control stream is a PRIORITY frame, not SETTINGS.
#[test]
fn test_client_missing_settings() {
    let mut h = connect(true);
    let mut input = TickInput::empty();
    input.events.push(TransportEvent::NewStream { stream_id: 3, stream_type: StreamType::UniDi });
    input.stream_data.push(StreamData {
        stream_id: 3,
        data: vec![0x0, 0x2, 0x4, 0x0, 0x2, 0x1, 0x3],
        fin: false,
    });
    h.process_http3(input);
    assert_closed(&h, Error::MissingSettings);
}

#[test]
fn test_server_missing_settings() {
    let mut h = connect(false);
    let mut input = TickInput::empty();
    input.events.push(TransportEvent::NewStream { stream_id: 2, stream_type: StreamType::UniDi });
    input.stream_data.push(StreamData {
        stream_id: 2,
        data: vec![0x0, 0x2, 0x4, 0x0, 0x2, 0x1, 0x3],
        fin: false,
    });
    h.process_http3(input);
    assert_closed(&h, Error::MissingSettings);
}

#[test]
fn test_client_receive_settings_twice() {
    let (mut h, control) = connect_and_receive_control_stream(true);
    h.process_http3(data_input(control, vec![0x4, 0x6, 0x1, 0x40, 0x64, 0x7, 0x40, 0x64], false));
    assert_closed(&h, Error::UnexpectedFrame);
}

#[test]
fn test_server_receive_settings_twice() {
    let (mut h, control) = connect_and_receive_control_stream(false);
    h.process_http3(data_input(control, vec![0x4, 0x6, 0x1, 0x40, 0x64, 0x7, 0x40, 0x64], false));
    assert_closed(&h, Error::UnexpectedFrame);
}

fn test_wrong_frame_on_control_stream(client: bool, v: &[u8]) {
    let (mut h, control) = connect_and_receive_control_stream(client);
    h.process_http3(data_input(control, v.to_vec(), false));
    assert_closed(&h, Error::WrongStream);
}

#[test]
fn test_data_frame_on_control_stream() {
    test_wrong_frame_on_control_stream(true, &[0x0, 0x2, 0x1, 0x2]);
    test_wrong_frame_on_control_stream(false, &[0x0, 0x2, 0x1, 0x2]);
}

#[test]
fn test_headers_frame_on_control_stream() {
    test_wrong_frame_on_control_stream(true, &[0x1, 0x2, 0x1, 0x2]);
    test_wrong_frame_on_control_stream(false, &[0x1, 0x2, 0x1, 0x2]);
}

#[test]
fn test_push_promise_frame_on_control_stream() {
    test_wrong_frame_on_control_stream(true, &[0x5, 0x2, 0x1, 0x2]);
    test_wrong_frame_on_control_stream(false, &[0x5, 0x2, 0x1, 0x2]);
}

#[test]
fn test_duplicate_push_frame_on_control_stream() {
    test_wrong_frame_on_control_stream(true, &[0xe, 0x2, 0x1, 0x2]);
    test_wrong_frame_on_control_stream(false, &[0xe, 0x2, 0x1, 0x2]);
}

// A new unidirectional stream with an unknown type varint (the two-byte form
// 0x4119) gets STOP_SENDING with UnknownStreamType; the connection lives on.
fn test_received_unknown_stream(client: bool) {
    let (mut h, _) = connect_and_receive_control_stream(client);
    let new_stream_id = if client { 15 } else { 14 };
    let mut input = TickInput::empty();
    input.events.push(
        TransportEvent::NewStream { stream_id: new_stream_id, stream_type: StreamType::UniDi },
    );
    input.stream_data.push(StreamData {
        stream_id: new_stream_id,
        data: vec![0x41, 0x19, 0x4, 0x4, 0x6, 0x0, 0x8, 0x0],
        fin: false,
    });
    let out = h.process_http3(input);
    assert!(has_stop_sending(&out, new_stream_id, Error::UnknownStreamType.code()));
    assert_eq!(h.state(), Http3State::Connected);
}

#[test]
fn test_client_received_unknown_stream() {
    test_received_unknown_stream(true);
}

#[test]
fn test_server_received_unknown_stream() {
    test_received_unknown_stream(false);
}

// A push stream is refused: PushRefused at a client, WrongStreamDirection at
// a server.
fn test_received_push_stream(client: bool) {
    let (mut h, _) = connect_and_receive_control_stream(client);
    let push_stream_id = if client { 15 } else { 14 };
    let mut input = TickInput::empty();
    input.events.push(
        TransportEvent::NewStream { stream_id: push_stream_id, stream_type: StreamType::UniDi },
    );
    input.stream_data.push(StreamData { stream_id: push_stream_id, data: vec![0x1], fin: false });
    let out = h.process_http3(input);
    let expected = if client {
        Error::PushRefused.code()
    } else {
        Error::WrongStreamDirection.code()
    };
    assert!(has_stop_sending(&out, push_stream_id, expected));
    assert_eq!(h.state(), Http3State::Connected);
}

#[test]
fn test_client_received_push_stream() {
    test_received_push_stream(true);
}

#[test]
fn test_server_received_push_stream() {
    test_received_push_stream(false);
}

// A frame that does not belong on a request stream stops that stream with
// the error's code; the connection stays Connected.
fn test_wrong_frame_on_request_stream(v: &[u8], err: Error) {
    let (mut h, _) = connect_and_receive_control_stream(true);
    assert_eq!(h.fetch("GET", "https", "something.com", "/", Vec::new()), Ok(0));
    h.process_http3(TickInput::empty());
    let out = h.process_http3(data_input(0, v.to_vec(), false));
    assert!(has_stop_sending(&out, 0, err.code()));
    assert_eq!(h.state(), Http3State::Connected);
}

#[test]
fn test_cancel_push_frame_on_request_stream() {
    test_wrong_frame_on_request_stream(&[0x3, 0x1, 0x5], Error::WrongStream);
}

#[test]
fn test_settings_frame_on_request_stream() {
    test_wrong_frame_on_request_stream(&[0x4, 0x4, 0x6, 0x4, 0x8, 0x4], Error::WrongStream);
}

#[test]
fn test_goaway_frame_on_request_stream() {
    test_wrong_frame_on_request_stream(&[0x7, 0x1, 0x5], Error::WrongStream);
}

#[test]
fn test_max_push_id_frame_on_request_stream() {
    test_wrong_frame_on_request_stream(&[0xd, 0x1, 0x5], Error::WrongStream);
}

#[test]
fn test_priority_frame_on_client_on_request_stream() {
    test_wrong_frame_on_request_stream(&[0x2, 0x4, 0xf, 0x2, 0x1, 0x3], Error::UnexpectedFrame);
}

// A frame arriving one byte at a time: SETTINGS goes through; a PUSH_PROMISE
// is rejected as soon as its header is parsed, well before its payload.
#[test]
fn test_frame_reading() {
    let mut h = connect(true);
    let control_stream = 3;
    let mut input = TickInput::empty();
    input.events.push(
        TransportEvent::NewStream { stream_id: control_stream, stream_type: StreamType::UniDi },
    );
    input.stream_data.push(StreamData { stream_id: control_stream, data: vec![0x0], fin: false });
    h.process_http3(input);

    for b in [0x4u8, 0x4, 0x6, 0x0, 0x8, 0x0] {
        h.process_http3(data_input(control_stream, vec![b], false));
    }
    assert_eq!(h.state(), Http3State::Connected);

    h.process_http3(data_input(control_stream, vec![0x5], false));
    h.process_http3(data_input(control_stream, vec![0x5], false));
    h.process_http3(data_input(control_stream, vec![0x4], false));
    assert_closed(&h, Error::WrongStream);
}

// The QPACK header block a fetch for GET https://something.com/ encodes to,
// and the block of a 200 response with content-length 3.
const REQUEST_BLOCK: [u8; 16] = [
    0x00, 0x00, 0xd1, 0xd7, 0x50, 0x89, 0x41, 0xe9, 0x2a, 0x67, 0x35, 0x53, 0x2e, 0x43, 0xd3, 0xc1,
];

const RESPONSE_BLOCK: [u8; 6] = [0x00, 0x00, 0xd9, 0x54, 0x01, 0x33];

fn response_headers() -> Vec<(String, String)> {
    vec![
        (String::from(":status"), String::from("200")),
        (String::from("content-length"), String::from("3")),
    ]
}

// Starts a request and plays the QPACK encoder: the wire must carry the
// HEADERS frame around the encoded block, then the send side closes.
fn start_request(h: &mut Http3Connection) -> u64 {
    let id = h
        .fetch("GET", "https", "something.com", "/", Vec::new())
        .unwrap();
    let out = h.process_http3(TickInput::empty());
    let mut encode_seen = false;
    for c in out.qpack.iter() {
        if let QpackCmd::EncodeHeaders { stream_id, headers } = c {
            if *stream_id == id {
                encode_seen = true;
                assert_eq!(headers.len(), 4);
                assert_eq!(headers[0], (String::from(":method"), String::from("GET")));
                assert_eq!(headers[1], (String::from(":scheme"), String::from("https")));
                assert_eq!(
                    headers[2],
                    (String::from(":authority"), String::from("something.com"))
                );
                assert_eq!(headers[3], (String::from(":path"), String::from("/")));
            }
        }
    }
    assert!(encode_seen);
    let mut input = TickInput::empty();
    input.qpack.push(QpackEvent::HeadersEncoded { stream_id: id, header_block: REQUEST_BLOCK.to_vec() });
    let out = h.process_http3(input);
    let mut expected = vec![0x01, 0x10];
    expected.extend(REQUEST_BLOCK.iter().cloned());
    assert_eq!(sent_bytes(&out, id), Some(expected));
    assert!(out.cmds.contains(&TransportCmd::CloseSend { stream_id: id }));
    id
}

fn decode_headers_requested(out: &TickOutput, stream_id: u64) -> Vec<u8> {
    for c in out.qpack.iter() {
        if let QpackCmd::DecodeHeaders { stream_id: id, header_block } = c {
            if *id == stream_id {
                return header_block.clone();
            }
        }
    }
    panic!("no decode request for stream {}", stream_id);
}

#[test]
fn fetch() {
    let (mut h, _) = connect_and_receive_control_stream(true);
    let request_stream_id = start_request(&mut h);
    assert_eq!(request_stream_id, 0);

    // The response: HEADERS(6), DATA(3) "abc", DATA(3) "def", FIN.
    let out = h.process_http3(data_input(
        request_stream_id,
        vec![
            0x01, 0x06, 0x00, 0x00, 0xd9, 0x54, 0x01, 0x33, 0x0, 0x3, 0x61, 0x62, 0x63, 0x0, 0x3,
            0x64, 0x65, 0x66,
        ],
        true,
    ));
    assert_eq!(decode_headers_requested(&out, request_stream_id), RESPONSE_BLOCK.to_vec());

    let mut input = TickInput::empty();
    input.qpack.push(
        QpackEvent::HeadersDecoded { stream_id: request_stream_id, headers: response_headers() },
    );
    h.process_http3(input);

    let events = h.events();
    assert_eq!(
        events,
        vec![
            Http3Event::HeaderReady { stream_id: request_stream_id },
            Http3Event::DataReadable { stream_id: request_stream_id },
        ]
    );
    assert_eq!(h.get_headers(request_stream_id), Ok(Some(response_headers())));
    let (data, fin) = h.read_data(request_stream_id, 100).unwrap();
    assert_eq!(data, vec![0x61, 0x62, 0x63]);
    assert_eq!(fin, false);

    h.process_http3(TickInput::empty());
    let events = h.events();
    assert_eq!(events, vec![Http3Event::DataReadable { stream_id: request_stream_id }]);
    let (data, fin) = h.read_data(request_stream_id, 100).unwrap();
    assert_eq!(data, vec![0x64, 0x65, 0x66]);
    assert_eq!(fin, true);

    // The stream is gone now.
    assert_eq!(h.read_data(request_stream_id, 100), Err(Http3Error::InvalidStreamId));
    h.close(0, "");
}

fn test_incomplet_frame(res: &[u8], error: Error) {
    let (mut h, _) = connect_and_receive_control_stream(true);
    let request_stream_id = start_request(&mut h);
    assert_eq!(request_stream_id, 0);
    h.process_http3(data_input(request_stream_id, res.to_vec(), true));
    assert_closed(&h, error);
    assert_eq!(h.read_data(request_stream_id, 100), Err(Http3Error::ConnectionError));
}

#[test]
fn test_incomplet_data_frame() {
    test_incomplet_frame(
        &[0x01, 0x06, 0x00, 0x00, 0xd9, 0x54, 0x01, 0x33, 0x0, 0x3, 0x61, 0x62],
        Error::MalformedFrame(0x0),
    );
}

#[test]
fn test_incomplet_headers_frame() {
    test_incomplet_frame(&[0x01, 0x06, 0x00, 0x00, 0xd9, 0x54, 0x01], Error::MalformedFrame(0x1));
}

#[test]
fn test_incomplet_unknown_frame() {
    test_incomplet_frame(&[0x21], Error::MalformedFrame(0xff));
}

#[test]
fn test_goaway() {
    let (mut h, control) = connect_and_receive_control_stream(true);
    let request_stream_id_1 = start_request(&mut h);
    assert_eq!(request_stream_id_1, 0);
    let request_stream_id_2 = start_request(&mut h);
    assert_eq!(request_stream_id_2, 4);
    let request_stream_id_3 = start_request(&mut h);
    assert_eq!(request_stream_id_3, 8);

    let response = vec![
        0x01, 0x06, 0x00, 0x00, 0xd9, 0x54, 0x01, 0x33, 0x0, 0x3, 0x61, 0x62, 0x63, 0x0, 0x3,
        0x64, 0x65, 0x66,
    ];
    let mut input = TickInput::empty();
    input.stream_data.push(StreamData {
        stream_id: request_stream_id_1,
        data: response.clone(),
        fin: true,
    });
    input.stream_data.push(StreamData { stream_id: control, data: vec![0x7, 0x1, 0x8], fin: false });
    input.stream_data.push(StreamData {
        stream_id: request_stream_id_2,
        data: response.clone(),
        fin: true,
    });
    h.process_http3(input);

    let mut input = TickInput::empty();
    input.qpack.push(
        QpackEvent::HeadersDecoded { stream_id: request_stream_id_1, headers: response_headers() },
    );
    input.qpack.push(
        QpackEvent::HeadersDecoded { stream_id: request_stream_id_2, headers: response_headers() },
    );
    h.process_http3(input);

    let mut stream_reset = false;
    for e in h.events() {
        match e {
            Http3Event::HeaderReady { stream_id } => {
                assert!(stream_id == request_stream_id_1 || stream_id == request_stream_id_2);
                let headers = h.get_headers(stream_id);
                assert_eq!(headers, Ok(Some(response_headers())));
            },
            Http3Event::DataReadable { stream_id } => {
                assert!(stream_id == request_stream_id_1 || stream_id == request_stream_id_2);
                let (data, _) = h.read_data(stream_id, 100).unwrap();
                assert_eq!(data.len(), 3);
            },
            Http3Event::RequestClosed { stream_id, error } => {
                assert!(stream_id == request_stream_id_3);
                assert_eq!(error, Http3Error::NetReset);
                stream_reset = true;
            },
            _ => {
                panic!("unexpected event");
            },
        }
    }
    assert!(stream_reset);
    assert_eq!(h.state(), Http3State::GoingAway);

    // No new requests after GOAWAY.
    assert_eq!(
        h.fetch("GET", "https", "something.com", "/", Vec::new()),
        Err(Error::GeneralProtocolError)
    );
    h.close(0, "");
}
