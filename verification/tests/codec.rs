// The frame codec and varint layer, exercised on concrete bytes: round
// trips, incremental arrival, header-first rejection material, and the wire
// error codes.

use neqo_http3::frame::parse_varint_at;
use neqo_http3::varint::encode_varint;
use neqo_http3::Error;
use neqo_http3::HFrame;
use neqo_http3::HFrameReader;
use neqo_http3::HSettingType;

// Every varint value reads back as itself, at the expected width.
#[test]
fn varint_roundtrip() {
    let cases: [(u64, usize); 10] = [
        (0, 1),
        (0x3f, 1),
        (0x40, 2),
        (100, 2),
        (0x3fff, 2),
        (0x4000, 4),
        (0x3fff_ffff, 4),
        (0x4000_0000, 8),
        (0x1119, 2),
        (0x3fff_ffff_ffff_ffff, 8),
    ];
    for (v, n) in cases {
        let mut buf: Vec<u8> = Vec::new();
        encode_varint(v, &mut buf);
        assert_eq!(buf.len(), n);
        assert_eq!(parse_varint_at(&buf, 0), Some((v, n)));
    }
    // The two-byte form of 0x119 used for the unknown-stream-type scenario.
    let mut buf: Vec<u8> = Vec::new();
    encode_varint(0x119, &mut buf);
    assert_eq!(buf, vec![0x41, 0x19]);
}

fn feed_whole(reader: &mut HFrameReader, bytes: &[u8]) -> Option<HFrame> {
    for (k, b) in bytes.iter().enumerate() {
        match reader.consume_byte(*b) {
            Ok(true) => {
                assert_eq!(k, bytes.len() - 1);
                return Some(reader.get_frame());
            },
            Ok(false) => {},
            Err(e) => panic!("unexpected error {:?}", e),
        }
    }
    None
}

// decode(encode(frame)) == frame, for one frame of every kind, fed to the
// incremental reader a byte at a time.
#[test]
fn frame_roundtrip() {
    let frames = vec![
        HFrame::Data { payload: vec![1, 2, 3] },
        HFrame::Headers { payload: vec![0, 0, 0xd9] },
        HFrame::Priority { payload: vec![0, 2, 1, 3] },
        HFrame::CancelPush { push_id: 5 },
        HFrame::Settings {
            settings: vec![(HSettingType::MaxTableSize, 100), (HSettingType::BlockedStreams, 100)],
        },
        HFrame::PushPromise { push_id: 4, header_block: vec![0x61, 0x62] },
        HFrame::Goaway { stream_id: 8 },
        HFrame::MaxPushId { push_id: 300 },
        HFrame::DuplicatePush { push_id: 0x3fff_ffff_ffff_ffff },
    ];
    for f in frames {
        let mut wire: Vec<u8> = Vec::new();
        f.encode(&mut wire);
        let mut reader = HFrameReader::new();
        let parsed = feed_whole(&mut reader, &wire);
        assert_eq!(parsed, Some(f));
    }
}

// The SETTINGS the client emits encode to the exact scenario bytes.
#[test]
fn settings_wire_bytes() {
    let f = HFrame::Settings {
        settings: vec![(HSettingType::MaxTableSize, 100), (HSettingType::BlockedStreams, 100)],
    };
    let mut wire: Vec<u8> = Vec::new();
    f.encode(&mut wire);
    assert_eq!(wire, vec![0x4, 0x6, 0x1, 0x40, 0x64, 0x7, 0x40, 0x64]);
}

// Unknown setting ids are ignored on receipt.
#[test]
fn settings_unknown_ids_ignored() {
    let mut reader = HFrameReader::new();
    let parsed = feed_whole(&mut reader, &[0x4, 0x4, 0x6, 0x4, 0x8, 0x4]);
    assert_eq!(
        parsed,
        Some(HFrame::Settings { settings: vec![(HSettingType::MaxHeaderListSize, 4)] })
    );
}

// The header (type and length) is visible before the payload arrives, so a
// stream owner can reject a frame by type early.
#[test]
fn header_known_before_payload() {
    let mut reader = HFrameReader::new();
    assert_eq!(reader.consume_byte(0x5), Ok(false));
    assert_eq!(reader.header_type(), None);
    assert_eq!(reader.malformed_type(), 0xff);
    assert_eq!(reader.consume_byte(0x5), Ok(false));
    assert_eq!(reader.header_type(), Some(0x5));
    assert_eq!(reader.malformed_type(), 0x5);
    assert!(!reader.done());
    assert!(reader.mid_frame());
}

// A whole frame of an unknown type is skipped silently; parsing then goes on
// with the next frame.
#[test]
fn unknown_frame_skipped() {
    let mut reader = HFrameReader::new();
    assert_eq!(feed_whole(&mut reader, &[0x21, 0x1, 0x7]), None);
    assert!(!reader.mid_frame());
    let parsed = feed_whole(&mut reader, &[0x7, 0x1, 0x8]);
    assert_eq!(parsed, Some(HFrame::Goaway { stream_id: 8 }));
}

// A payload that does not fit its type reports MalformedFrame with that
// type: CANCEL_PUSH with an empty payload has no push id.
#[test]
fn malformed_payload() {
    let mut reader = HFrameReader::new();
    assert_eq!(reader.consume_byte(0x3), Ok(false));
    assert_eq!(reader.consume_byte(0x0), Err(Error::MalformedFrame(0x3)));
}

// The wire codes of the error taxonomy.
#[test]
fn error_codes() {
    assert_eq!(Error::HttpNoError.code(), 0x0);
    assert_eq!(Error::WrongSettingsDirection.code(), 0x1);
    assert_eq!(Error::PushRefused.code(), 0x2);
    assert_eq!(Error::InternalError.code(), 0x3);
    assert_eq!(Error::PushAlreadyInCache.code(), 0x4);
    assert_eq!(Error::RequestCancelled.code(), 0x5);
    assert_eq!(Error::IncompleteRequest.code(), 0x6);
    assert_eq!(Error::ConnectError.code(), 0x7);
    assert_eq!(Error::ExcessiveLoad.code(), 0x8);
    assert_eq!(Error::VersionFallback.code(), 0x9);
    assert_eq!(Error::WrongStream.code(), 0xa);
    assert_eq!(Error::LimitExceeded.code(), 0xb);
    assert_eq!(Error::DuplicatePush.code(), 0xc);
    assert_eq!(Error::UnknownStreamType.code(), 0xd);
    assert_eq!(Error::WrongStreamCount.code(), 0xe);
    assert_eq!(Error::ClosedCriticalStream.code(), 0xf);
    assert_eq!(Error::WrongStreamDirection.code(), 0x10);
    assert_eq!(Error::EarlyResponse.code(), 0x11);
    assert_eq!(Error::MissingSettings.code(), 0x12);
    assert_eq!(Error::UnexpectedFrame.code(), 0x13);
    assert_eq!(Error::RequestRejected.code(), 0x14);
    assert_eq!(Error::GeneralProtocolError.code(), 0xff);
    assert_eq!(Error::MalformedFrame(0).code(), 0x100);
    assert_eq!(Error::MalformedFrame(1).code(), 0x101);
    assert_eq!(Error::MalformedFrame(0xff).code(), 0x1ff);
}

// Only request-scoped errors may be isolated to one stream.
#[test]
fn stream_errors() {
    assert!(Error::WrongStream.is_stream_error());
    assert!(Error::UnexpectedFrame.is_stream_error());
    assert!(!Error::MalformedFrame(0).is_stream_error());
    assert!(!Error::MissingSettings.is_stream_error());
    assert!(!Error::ClosedCriticalStream.is_stream_error());
    assert!(!Error::WrongStreamCount.is_stream_error());
}
