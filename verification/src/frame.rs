//! The HTTP/3 frame codec. Every frame is `type:varint length:varint
//! payload`, where the payload's shape depends on the type. Encoding is a
//! function to bytes; decoding is incremental, tolerating bytes that arrive
//! one at a time, and surfaces the frame header as soon as it is complete so
//! that a stream owner can reject a frame by type before its payload arrives.

use vstd::prelude::*;

use crate::err::Error;
use crate::varint::{
    encode_varint, vi_dec, vi_enc, vi_len, vi_size_of_first, VarintDecoder, VARINT_MAX,
};

verus! {

pub const H3_FRAME_TYPE_DATA: u64 = 0x0;

pub const H3_FRAME_TYPE_HEADERS: u64 = 0x1;

pub const H3_FRAME_TYPE_PRIORITY: u64 = 0x2;

pub const H3_FRAME_TYPE_CANCEL_PUSH: u64 = 0x3;

pub const H3_FRAME_TYPE_SETTINGS: u64 = 0x4;

pub const H3_FRAME_TYPE_PUSH_PROMISE: u64 = 0x5;

pub const H3_FRAME_TYPE_GOAWAY: u64 = 0x7;

pub const H3_FRAME_TYPE_MAX_PUSH_ID: u64 = 0xd;

pub const H3_FRAME_TYPE_DUPLICATE_PUSH: u64 = 0xe;

/// The frame type reported by `MalformedFrame` when the frame header itself
/// was never completed.
pub const H3_FRAME_TYPE_UNKNOWN: u64 = 0xff;

pub const SETTINGS_MAX_TABLE_SIZE: u64 = 0x1;

pub const SETTINGS_MAX_HEADER_LIST_SIZE: u64 = 0x6;

pub const SETTINGS_BLOCKED_STREAMS: u64 = 0x7;

pub const SETTINGS_NUM_PLACEHOLDERS: u64 = 0x9;

/// The settings this layer understands. Unknown setting ids are ignored on
/// receipt and never emitted.
#[derive(Debug, Clone, Copy, PartialEq, Eq, Structural)]
pub enum HSettingType {
    MaxHeaderListSize,
    NumPlaceholders,
    MaxTableSize,
    BlockedStreams,
}

pub open spec fn setting_id(t: HSettingType) -> u64 {
    match t {
        HSettingType::MaxHeaderListSize => SETTINGS_MAX_HEADER_LIST_SIZE,
        HSettingType::NumPlaceholders => SETTINGS_NUM_PLACEHOLDERS,
        HSettingType::MaxTableSize => SETTINGS_MAX_TABLE_SIZE,
        HSettingType::BlockedStreams => SETTINGS_BLOCKED_STREAMS,
    }
}

pub open spec fn setting_from_id(id: u64) -> Option<HSettingType> {
    if id == SETTINGS_MAX_HEADER_LIST_SIZE {
        Some(HSettingType::MaxHeaderListSize)
    } else if id == SETTINGS_NUM_PLACEHOLDERS {
        Some(HSettingType::NumPlaceholders)
    } else if id == SETTINGS_MAX_TABLE_SIZE {
        Some(HSettingType::MaxTableSize)
    } else if id == SETTINGS_BLOCKED_STREAMS {
        Some(HSettingType::BlockedStreams)
    } else {
        None
    }
}

/// An HTTP/3 frame. DATA, HEADERS and PRIORITY payloads are carried verbatim
/// (PRIORITY is accepted and ignored; header blocks are opaque to this layer,
/// they belong to the QPACK codec outside it).
#[derive(Debug, Clone, PartialEq, Eq)]
pub enum HFrame {
    Data { payload: Vec<u8> },
    Headers { payload: Vec<u8> },
    Priority { payload: Vec<u8> },
    CancelPush { push_id: u64 },
    Settings { settings: Vec<(HSettingType, u64)> },
    PushPromise { push_id: u64, header_block: Vec<u8> },
    Goaway { stream_id: u64 },
    MaxPushId { push_id: u64 },
    DuplicatePush { push_id: u64 },
}

/// The mathematical model of a frame: the same shape over `Seq`.
pub enum HFrameSpec {
    Data { payload: Seq<u8> },
    Headers { payload: Seq<u8> },
    Priority { payload: Seq<u8> },
    CancelPush { push_id: u64 },
    Settings { settings: Seq<(HSettingType, u64)> },
    PushPromise { push_id: u64, header_block: Seq<u8> },
    Goaway { stream_id: u64 },
    MaxPushId { push_id: u64 },
    DuplicatePush { push_id: u64 },
}

impl View for HFrame {
    type V = HFrameSpec;

    open spec fn view(&self) -> HFrameSpec {
        match self {
            HFrame::Data { payload } => HFrameSpec::Data { payload: payload@ },
            HFrame::Headers { payload } => HFrameSpec::Headers { payload: payload@ },
            HFrame::Priority { payload } => HFrameSpec::Priority { payload: payload@ },
            HFrame::CancelPush { push_id } => HFrameSpec::CancelPush { push_id: *push_id },
            HFrame::Settings { settings } => HFrameSpec::Settings { settings: settings@ },
            HFrame::PushPromise { push_id, header_block } => HFrameSpec::PushPromise {
                push_id: *push_id,
                header_block: header_block@,
            },
            HFrame::Goaway { stream_id } => HFrameSpec::Goaway { stream_id: *stream_id },
            HFrame::MaxPushId { push_id } => HFrameSpec::MaxPushId { push_id: *push_id },
            HFrame::DuplicatePush { push_id } => HFrameSpec::DuplicatePush { push_id: *push_id },
        }
    }
}

pub open spec fn frame_type_of(f: HFrameSpec) -> u64 {
    match f {
        HFrameSpec::Data { .. } => H3_FRAME_TYPE_DATA,
        HFrameSpec::Headers { .. } => H3_FRAME_TYPE_HEADERS,
        HFrameSpec::Priority { .. } => H3_FRAME_TYPE_PRIORITY,
        HFrameSpec::CancelPush { .. } => H3_FRAME_TYPE_CANCEL_PUSH,
        HFrameSpec::Settings { .. } => H3_FRAME_TYPE_SETTINGS,
        HFrameSpec::PushPromise { .. } => H3_FRAME_TYPE_PUSH_PROMISE,
        HFrameSpec::Goaway { .. } => H3_FRAME_TYPE_GOAWAY,
        HFrameSpec::MaxPushId { .. } => H3_FRAME_TYPE_MAX_PUSH_ID,
        HFrameSpec::DuplicatePush { .. } => H3_FRAME_TYPE_DUPLICATE_PUSH,
    }
}

pub open spec fn known_frame_type(t: u64) -> bool {
    ||| t == H3_FRAME_TYPE_DATA
    ||| t == H3_FRAME_TYPE_HEADERS
    ||| t == H3_FRAME_TYPE_PRIORITY
    ||| t == H3_FRAME_TYPE_CANCEL_PUSH
    ||| t == H3_FRAME_TYPE_SETTINGS
    ||| t == H3_FRAME_TYPE_PUSH_PROMISE
    ||| t == H3_FRAME_TYPE_GOAWAY
    ||| t == H3_FRAME_TYPE_MAX_PUSH_ID
    ||| t == H3_FRAME_TYPE_DUPLICATE_PUSH
}

/// The wire bytes of a settings list: one (id, value) varint pair per entry.
pub open spec fn settings_wire(s: Seq<(HSettingType, u64)>) -> Seq<u8>
    decreases s.len(),
{
    if s.len() == 0 {
        Seq::empty()
    } else {
        vi_enc(setting_id(s[0].0)) + vi_enc(s[0].1) + settings_wire(s.skip(1))
    }
}

/// The wire bytes of a frame's payload.
pub open spec fn frame_payload_wire(f: HFrameSpec) -> Seq<u8> {
    match f {
        HFrameSpec::Data { payload } => payload,
        HFrameSpec::Headers { payload } => payload,
        HFrameSpec::Priority { payload } => payload,
        HFrameSpec::CancelPush { push_id } => vi_enc(push_id),
        HFrameSpec::Settings { settings } => settings_wire(settings),
        HFrameSpec::PushPromise { push_id, header_block } => vi_enc(push_id) + header_block,
        HFrameSpec::Goaway { stream_id } => vi_enc(stream_id),
        HFrameSpec::MaxPushId { push_id } => vi_enc(push_id),
        HFrameSpec::DuplicatePush { push_id } => vi_enc(push_id),
    }
}

/// The full wire bytes of a frame: type, payload length, payload.
pub open spec fn frame_wire(f: HFrameSpec) -> Seq<u8> {
    vi_enc(frame_type_of(f)) + vi_enc(frame_payload_wire(f).len() as u64) + frame_payload_wire(f)
}

/// The frames this codec can emit: every varint field fits, and the payload
/// length itself is expressible as a varint.
pub open spec fn frame_valid(f: HFrameSpec) -> bool {
    &&& frame_payload_wire(f).len() <= VARINT_MAX
    &&& match f {
        HFrameSpec::Data { .. } => true,
        HFrameSpec::Headers { .. } => true,
        HFrameSpec::Priority { .. } => true,
        HFrameSpec::CancelPush { push_id } => push_id <= VARINT_MAX,
        HFrameSpec::Settings { settings } => forall|i: int|
            0 <= i < settings.len() ==> (#[trigger] settings[i]).1 <= VARINT_MAX,
        HFrameSpec::PushPromise { push_id, .. } => push_id <= VARINT_MAX,
        HFrameSpec::Goaway { stream_id } => stream_id <= VARINT_MAX,
        HFrameSpec::MaxPushId { push_id } => push_id <= VARINT_MAX,
        HFrameSpec::DuplicatePush { push_id } => push_id <= VARINT_MAX,
    }
}

// ------------------------------------------------------------------
// Parsing, at the specification level.
// ------------------------------------------------------------------
/// Reads one varint off the front of `s`: its value and how many bytes it
/// took. `None` while too few bytes have arrived.
pub open spec fn take_varint(s: Seq<u8>) -> Option<(u64, nat)> {
    if s.len() == 0 {
        None
    } else {
        let n = vi_size_of_first(s[0]);
        if s.len() < n {
            None
        } else {
            Some((vi_dec(s.take(n as int)), n))
        }
    }
}

/// Parses a SETTINGS payload into its known (id, value) pairs; unknown ids
/// are skipped. `None` when a varint is cut off by the payload boundary.
pub open spec fn parse_settings(p: Seq<u8>) -> Option<Seq<(HSettingType, u64)>>
    decreases p.len(),
{
    if p.len() == 0 {
        Some(Seq::empty())
    } else {
        match take_varint(p) {
            None => None,
            Some((id, c1)) => match take_varint(p.skip(c1 as int)) {
                None => None,
                Some((v, c2)) => match parse_settings(p.skip((c1 + c2) as int)) {
                    None => None,
                    Some(rest) => match setting_from_id(id) {
                        Some(t) => Some(seq![(t, v)] + rest),
                        None => Some(rest),
                    },
                },
            },
        }
    }
}

/// Parses a complete payload of a known frame type. `None` means the payload
/// is malformed for that type. Trailing bytes after a type's single varint
/// field are tolerated and ignored.
pub open spec fn parse_payload(t: u64, p: Seq<u8>) -> Option<HFrameSpec> {
    if t == H3_FRAME_TYPE_DATA {
        Some(HFrameSpec::Data { payload: p })
    } else if t == H3_FRAME_TYPE_HEADERS {
        Some(HFrameSpec::Headers { payload: p })
    } else if t == H3_FRAME_TYPE_PRIORITY {
        Some(HFrameSpec::Priority { payload: p })
    } else if t == H3_FRAME_TYPE_CANCEL_PUSH {
        match take_varint(p) {
            Some((id, _)) => Some(HFrameSpec::CancelPush { push_id: id }),
            None => None,
        }
    } else if t == H3_FRAME_TYPE_SETTINGS {
        match parse_settings(p) {
            Some(s) => Some(HFrameSpec::Settings { settings: s }),
            None => None,
        }
    } else if t == H3_FRAME_TYPE_PUSH_PROMISE {
        match take_varint(p) {
            Some((id, c)) => Some(
                HFrameSpec::PushPromise { push_id: id, header_block: p.skip(c as int) },
            ),
            None => None,
        }
    } else if t == H3_FRAME_TYPE_GOAWAY {
        match take_varint(p) {
            Some((id, _)) => Some(HFrameSpec::Goaway { stream_id: id }),
            None => None,
        }
    } else if t == H3_FRAME_TYPE_MAX_PUSH_ID {
        match take_varint(p) {
            Some((id, _)) => Some(HFrameSpec::MaxPushId { push_id: id }),
            None => None,
        }
    } else if t == H3_FRAME_TYPE_DUPLICATE_PUSH {
        match take_varint(p) {
            Some((id, _)) => Some(HFrameSpec::DuplicatePush { push_id: id }),
            None => None,
        }
    } else {
        None
    }
}

/// The header of the frame at the front of `s`: its type, payload length and
/// header size, once both varints have arrived.
pub open spec fn frame_hdr(s: Seq<u8>) -> Option<(u64, u64, nat)> {
    match take_varint(s) {
        None => None,
        Some((t, c1)) => match take_varint(s.skip(c1 as int)) {
            None => None,
            Some((l, c2)) => Some((t, l, (c1 + c2) as nat)),
        },
    }
}

/// Whether `s` is exactly one whole frame: a complete header followed by
/// exactly the announced number of payload bytes.
pub open spec fn frame_complete(s: Seq<u8>) -> bool {
    match frame_hdr(s) {
        Some((t, l, off)) => s.len() == off + l,
        None => false,
    }
}

/// The type named in the frame header at the front of `s`, or the 0xff
/// sentinel while the header is still incomplete. This is the type that
/// `MalformedFrame` reports.
pub open spec fn frame_hdr_type(s: Seq<u8>) -> u64 {
    match frame_hdr(s) {
        Some((t, _, _)) => t,
        None => H3_FRAME_TYPE_UNKNOWN,
    }
}

/// Parses `s` as exactly one whole frame of a known type.
pub open spec fn parse_frame(s: Seq<u8>) -> Option<HFrameSpec> {
    match frame_hdr(s) {
        None => None,
        Some((t, l, off)) => {
            if s.len() == off + l && known_frame_type(t) {
                parse_payload(t, s.skip(off as int))
            } else {
                None
            }
        },
    }
}

// ------------------------------------------------------------------
// Round-trip lemmas.
// ------------------------------------------------------------------
/// A varint at the front of a byte run reads back as itself, consuming
/// exactly its own bytes.
pub proof fn lemma_take_varint(v: u64, rest: Seq<u8>)
    requires
        v <= VARINT_MAX,
    ensures
        take_varint(vi_enc(v) + rest) == Some((v, vi_len(v))),
        (vi_enc(v) + rest).skip(vi_len(v) as int) == rest,
{
    crate::varint::lemma_vi_roundtrip(v);
    let s = vi_enc(v) + rest;
    assert(s[0] == vi_enc(v)[0]);
    assert(s.take(vi_len(v) as int) =~= vi_enc(v));
    assert(s.skip(vi_len(v) as int) =~= rest);
}

/// Appending one more pair to a settings list appends its wire bytes.
pub proof fn lemma_settings_wire_snoc(s: Seq<(HSettingType, u64)>, x: (HSettingType, u64))
    ensures
        settings_wire(s.push(x)) == settings_wire(s) + vi_enc(setting_id(x.0)) + vi_enc(x.1),
    decreases s.len(),
{
    let q = s.push(x);
    if s.len() == 0 {
        assert(q[0] == x);
        assert(q.skip(1) =~= Seq::<(HSettingType, u64)>::empty());
        assert(settings_wire(q.skip(1)) == Seq::<u8>::empty());
        assert(settings_wire(q) == vi_enc(setting_id(x.0)) + vi_enc(x.1) + settings_wire(
            q.skip(1),
        ));
        assert(settings_wire(q) =~= settings_wire(s) + vi_enc(setting_id(x.0)) + vi_enc(x.1));
    } else {
        assert(q[0] == s[0]);
        assert(q.skip(1) =~= s.skip(1).push(x));
        lemma_settings_wire_snoc(s.skip(1), x);
        assert(settings_wire(q) == vi_enc(setting_id(q[0].0)) + vi_enc(q[0].1) + settings_wire(
            q.skip(1),
        ));
        assert(settings_wire(q) =~= settings_wire(s) + vi_enc(setting_id(x.0)) + vi_enc(x.1));
    }
}

/// A settings list reads back as itself.
pub proof fn lemma_settings_roundtrip(s: Seq<(HSettingType, u64)>)
    requires
        forall|i: int| 0 <= i < s.len() ==> (#[trigger] s[i]).1 <= VARINT_MAX,
    ensures
        parse_settings(settings_wire(s)) == Some(s),
    decreases s.len(),
{
    if s.len() == 0 {
        assert(settings_wire(s).len() == 0);
    } else {
        let id = setting_id(s[0].0);
        let v = s[0].1;
        let rest = settings_wire(s.skip(1));
        let p = settings_wire(s);
        assert(id <= VARINT_MAX);
        assert(p =~= vi_enc(id) + (vi_enc(v) + rest));
        lemma_take_varint(id, vi_enc(v) + rest);
        assert(p.skip(vi_len(id) as int) == vi_enc(v) + rest);
        lemma_take_varint(v, rest);
        assert(p.skip(vi_len(id) as int).skip(vi_len(v) as int) == rest);
        assert(p.skip(vi_len(id) as int).skip(vi_len(v) as int) =~= p.skip(
            (vi_len(id) + vi_len(v)) as int,
        ));
        lemma_settings_roundtrip(s.skip(1));
        assert(p.len() > 0) by {
            crate::varint::lemma_vi_roundtrip(id);
        }
        assert(setting_from_id(id) == Some(s[0].0));
        assert(seq![(s[0].0, v)] + s.skip(1) =~= s);
    }
}

/// Decoding inverts encoding: every in-domain frame reads back as itself.
pub proof fn lemma_frame_roundtrip(f: HFrameSpec)
    requires
        frame_valid(f),
    ensures
        parse_frame(frame_wire(f)) == Some(f),
{
    let t = frame_type_of(f);
    let p = frame_payload_wire(f);
    let l = p.len() as u64;
    let s = frame_wire(f);
    assert(t <= VARINT_MAX);
    assert(s =~= vi_enc(t) + (vi_enc(l) + p));
    lemma_take_varint(t, vi_enc(l) + p);
    assert(s.skip(vi_len(t) as int) == vi_enc(l) + p);
    lemma_take_varint(l, p);
    crate::varint::lemma_vi_roundtrip(t);
    crate::varint::lemma_vi_roundtrip(l);
    let off = (vi_len(t) + vi_len(l)) as nat;
    assert(s.skip(vi_len(t) as int).skip(vi_len(l) as int) =~= s.skip(off as int));
    assert(frame_hdr(s) == Some((t, l, off)));
    assert(s.len() == off + l);
    assert(s.skip(off as int) == p);
    match f {
        HFrameSpec::Data { .. } => {},
        HFrameSpec::Headers { .. } => {},
        HFrameSpec::Priority { .. } => {},
        HFrameSpec::CancelPush { push_id } => {
            assert(p =~= vi_enc(push_id) + Seq::<u8>::empty());
            lemma_take_varint(push_id, Seq::empty());
        },
        HFrameSpec::Settings { settings } => {
            lemma_settings_roundtrip(settings);
        },
        HFrameSpec::PushPromise { push_id, header_block } => {
            lemma_take_varint(push_id, header_block);
        },
        HFrameSpec::Goaway { stream_id } => {
            assert(p =~= vi_enc(stream_id) + Seq::<u8>::empty());
            lemma_take_varint(stream_id, Seq::empty());
        },
        HFrameSpec::MaxPushId { push_id } => {
            assert(p =~= vi_enc(push_id) + Seq::<u8>::empty());
            lemma_take_varint(push_id, Seq::empty());
        },
        HFrameSpec::DuplicatePush { push_id } => {
            assert(p =~= vi_enc(push_id) + Seq::<u8>::empty());
            lemma_take_varint(push_id, Seq::empty());
        },
    }
}

/// A varint at the front of a byte run is settled: whatever follows cannot
/// change it.
pub proof fn lemma_take_varint_extend(s: Seq<u8>, t: Seq<u8>)
    requires
        take_varint(s) is Some,
    ensures
        take_varint(s + t) == take_varint(s),
{
    let n = vi_size_of_first(s[0]);
    assert((s + t)[0] == s[0]);
    assert((s + t).take(n as int) =~= s.take(n as int));
}

/// A frame header, once parsed, is settled: whatever follows cannot change
/// it.
pub proof fn lemma_hdr_extend(s: Seq<u8>, t: Seq<u8>)
    requires
        frame_hdr(s) is Some,
    ensures
        frame_hdr(s + t) == frame_hdr(s),
{
    lemma_take_varint_extend(s, t);
    let c1 = take_varint(s)->Some_0.1 as int;
    assert((s + t).skip(c1) =~= s.skip(c1) + t);
    lemma_take_varint_extend(s.skip(c1), t);
}

/// A proper prefix of one whole frame is not itself whole: the reader parks
/// exactly at the frame's last byte, never earlier.
pub proof fn lemma_prefix_incomplete(w: Seq<u8>, n: int)
    requires
        frame_complete(w),
        0 <= n < w.len(),
    ensures
        !frame_complete(w.take(n)),
        frame_hdr(w.take(n)) is Some ==> frame_hdr(w.take(n)) == frame_hdr(w),
{
    let p = w.take(n);
    if frame_hdr(p) is Some {
        lemma_hdr_extend(p, w.skip(n));
        assert(p + w.skip(n) =~= w);
    }
}

/// The payload a HEADERS frame carries (empty for any other frame).
pub open spec fn headers_payload(f: HFrameSpec) -> Seq<u8> {
    match f {
        HFrameSpec::Headers { payload } => payload,
        _ => Seq::empty(),
    }
}

/// The payload a DATA frame carries (empty for any other frame).
pub open spec fn data_payload(f: HFrameSpec) -> Seq<u8> {
    match f {
        HFrameSpec::Data { payload } => payload,
        _ => Seq::empty(),
    }
}

/// The pairs a SETTINGS frame carries (empty for any other frame).
pub open spec fn settings_entries(f: HFrameSpec) -> Seq<(HSettingType, u64)> {
    match f {
        HFrameSpec::Settings { settings } => settings,
        _ => Seq::empty(),
    }
}

/// A parsed frame's variant matches the type named in its header.
pub proof fn lemma_parse_frame_type(s: Seq<u8>)
    requires
        parse_frame(s) is Some,
    ensures
        frame_hdr(s) is Some,
        frame_complete(s),
        known_frame_type(frame_hdr(s)->Some_0.0),
        frame_type_of(parse_frame(s)->Some_0) == frame_hdr(s)->Some_0.0,
{
    let (t, l, off) = frame_hdr(s)->Some_0;
    let p = s.skip(off as int);
    assert(parse_payload(t, p) is Some);
    if t == H3_FRAME_TYPE_DATA {
    } else if t == H3_FRAME_TYPE_HEADERS {
    } else if t == H3_FRAME_TYPE_PRIORITY {
    } else if t == H3_FRAME_TYPE_CANCEL_PUSH {
    } else if t == H3_FRAME_TYPE_SETTINGS {
    } else if t == H3_FRAME_TYPE_PUSH_PROMISE {
    } else if t == H3_FRAME_TYPE_GOAWAY {
    } else if t == H3_FRAME_TYPE_MAX_PUSH_ID {
    } else {
    }
}

/// Encoding inverts decoding: well-formed bytes (the image of the encoder)
/// decode to a frame that encodes back to the very same bytes.
pub proof fn lemma_wire_roundtrip(s: Seq<u8>)
    requires
        exists|f: HFrameSpec| frame_valid(f) && frame_wire(f) == s,
    ensures
        parse_frame(s) is Some,
        frame_wire(parse_frame(s)->Some_0) == s,
{
    let f = choose|f: HFrameSpec| frame_valid(f) && frame_wire(f) == s;
    lemma_frame_roundtrip(f);
}

// ------------------------------------------------------------------------
// Executable encoding.
// ------------------------------------------------------------------
/// Appends all of `src` to `out`.
pub fn append_bytes(out: &mut Vec<u8>, src: &Vec<u8>)
    ensures
        final(out)@ == old(out)@ + src@,
{
    let ghost orig = out@;
    let mut i: usize = 0;
    while i < src.len()
        invariant
            i <= src.len(),
            out@ == orig + src@.take(i as int),
        decreases src.len() - i,
    {
        out.push(src[i]);
        proof {
            assert(src@.take(i + 1) =~= src@.take(i as int).push(src@[i as int]));
            assert(out@ =~= orig + src@.take(i + 1));
        }
        i = i + 1;
    }
    proof {
        assert(src@.take(src@.len() as int) =~= src@);
    }
}

/// Copies the suffix of `src` that starts at `from`.
pub fn copy_tail(src: &Vec<u8>, from: usize) -> (r: Vec<u8>)
    requires
        from <= src.len(),
    ensures
        r@ == src@.skip(from as int),
{
    let mut r: Vec<u8> = Vec::new();
    let mut i: usize = from;
    while i < src.len()
        invariant
            from <= i <= src.len(),
            r@ == src@.subrange(from as int, i as int),
        decreases src.len() - i,
    {
        r.push(src[i]);
        proof {
            assert(src@.subrange(from as int, i + 1) =~= src@.subrange(from as int, i as int).push(
                src@[i as int],
            ));
        }
        i = i + 1;
    }
    proof {
        assert(src@.subrange(from as int, src@.len() as int) =~= src@.skip(from as int));
    }
    r
}

/// The byte count of the minimal varint encoding of `v`.
pub fn varint_len(v: u64) -> (n: u64)
    ensures
        n == vi_len(v),
{
    if v < 0x40 {
        1
    } else if v < 0x4000 {
        2
    } else if v < 0x4000_0000 {
        4
    } else {
        8
    }
}

impl HSettingType {
    /// The wire id of this setting.
    pub fn id(&self) -> (id: u64)
        ensures
            id == setting_id(*self),
    {
        match self {
            HSettingType::MaxHeaderListSize => SETTINGS_MAX_HEADER_LIST_SIZE,
            HSettingType::NumPlaceholders => SETTINGS_NUM_PLACEHOLDERS,
            HSettingType::MaxTableSize => SETTINGS_MAX_TABLE_SIZE,
            HSettingType::BlockedStreams => SETTINGS_BLOCKED_STREAMS,
        }
    }

    /// The setting a wire id names, if this layer knows it.
    pub fn from_id(id: u64) -> (t: Option<HSettingType>)
        ensures
            t == setting_from_id(id),
    {
        if id == SETTINGS_MAX_HEADER_LIST_SIZE {
            Some(HSettingType::MaxHeaderListSize)
        } else if id == SETTINGS_NUM_PLACEHOLDERS {
            Some(HSettingType::NumPlaceholders)
        } else if id == SETTINGS_MAX_TABLE_SIZE {
            Some(HSettingType::MaxTableSize)
        } else if id == SETTINGS_BLOCKED_STREAMS {
            Some(HSettingType::BlockedStreams)
        } else {
            None
        }
    }
}

impl HFrame {
    /// Appends this frame's wire bytes to `enc`.
    pub fn encode(&self, enc: &mut Vec<u8>)
        requires
            frame_valid(self@),
        ensures
            final(enc)@ == old(enc)@ + frame_wire(self@),
    {
        let ghost orig = enc@;
        match self {
            HFrame::Data { payload } => {
                encode_varint(H3_FRAME_TYPE_DATA, enc);
                encode_varint(payload.len() as u64, enc);
                append_bytes(enc, payload);
                proof {
                    assert(enc@ =~= orig + frame_wire(self@));
                }
            },
            HFrame::Headers { payload } => {
                encode_varint(H3_FRAME_TYPE_HEADERS, enc);
                encode_varint(payload.len() as u64, enc);
                append_bytes(enc, payload);
                proof {
                    assert(enc@ =~= orig + frame_wire(self@));
                }
            },
            HFrame::Priority { payload } => {
                encode_varint(H3_FRAME_TYPE_PRIORITY, enc);
                encode_varint(payload.len() as u64, enc);
                append_bytes(enc, payload);
                proof {
                    assert(enc@ =~= orig + frame_wire(self@));
                }
            },
            HFrame::CancelPush { push_id } => {
                encode_varint(H3_FRAME_TYPE_CANCEL_PUSH, enc);
                proof {
                    crate::varint::lemma_vi_roundtrip(*push_id);
                }
                encode_varint(varint_len(*push_id), enc);
                encode_varint(*push_id, enc);
                proof {
                    assert(enc@ =~= orig + frame_wire(self@));
                }
            },
            HFrame::Settings { settings } => {
                let mut payload: Vec<u8> = Vec::new();
                let mut i: usize = 0;
                while i < settings.len()
                    invariant
                        i <= settings.len(),
                        payload@ == settings_wire(settings@.take(i as int)),
                        forall|j: int|
                            0 <= j < settings@.len() ==> (#[trigger] settings@[j]).1 <= VARINT_MAX,
                    decreases settings.len() - i,
                {
                    let (t, v) = settings[i];
                    encode_varint(t.id(), &mut payload);
                    encode_varint(v, &mut payload);
                    proof {
                        let pref = settings@.take(i as int);
                        assert(settings@.take(i + 1) =~= pref.push(settings@[i as int]));
                        lemma_settings_wire_snoc(pref, settings@[i as int]);
                        assert(payload@ =~= settings_wire(settings@.take(i + 1)));
                    }
                    i = i + 1;
                }
                proof {
                    assert(settings@.take(settings@.len() as int) =~= settings@);
                }
                encode_varint(H3_FRAME_TYPE_SETTINGS, enc);
                encode_varint(payload.len() as u64, enc);
                append_bytes(enc, &payload);
                proof {
                    assert(enc@ =~= orig + frame_wire(self@));
                }
            },
            HFrame::PushPromise { push_id, header_block } => {
                encode_varint(H3_FRAME_TYPE_PUSH_PROMISE, enc);
                proof {
                    crate::varint::lemma_vi_roundtrip(*push_id);
                }
                let l = varint_len(*push_id) + header_block.len() as u64;
                encode_varint(l, enc);
                encode_varint(*push_id, enc);
                append_bytes(enc, header_block);
                proof {
                    assert(enc@ =~= orig + frame_wire(self@));
                }
            },
            HFrame::Goaway { stream_id } => {
                encode_varint(H3_FRAME_TYPE_GOAWAY, enc);
                proof {
                    crate::varint::lemma_vi_roundtrip(*stream_id);
                }
                encode_varint(varint_len(*stream_id), enc);
                encode_varint(*stream_id, enc);
                proof {
                    assert(enc@ =~= orig + frame_wire(self@));
                }
            },
            HFrame::MaxPushId { push_id } => {
                encode_varint(H3_FRAME_TYPE_MAX_PUSH_ID, enc);
                proof {
                    crate::varint::lemma_vi_roundtrip(*push_id);
                }
                encode_varint(varint_len(*push_id), enc);
                encode_varint(*push_id, enc);
                proof {
                    assert(enc@ =~= orig + frame_wire(self@));
                }
            },
            HFrame::DuplicatePush { push_id } => {
                encode_varint(H3_FRAME_TYPE_DUPLICATE_PUSH, enc);
                proof {
                    crate::varint::lemma_vi_roundtrip(*push_id);
                }
                encode_varint(varint_len(*push_id), enc);
                encode_varint(*push_id, enc);
                proof {
                    assert(enc@ =~= orig + frame_wire(self@));
                }
            },
        }
    }
}

// ------------------------------------------------------------------
// Executable parsing.
// ------------------------------------------------------------------
/// Reads one varint out of `buf` starting at `start`, returning its value
/// and byte count, or `None` when the bytes run out first.
pub fn parse_varint_at(buf: &Vec<u8>, start: usize) -> (r: Option<(u64, usize)>)
    requires
        start <= buf.len(),
    ensures
        match r {
            Some((v, n)) => {
                &&& take_varint(buf@.skip(start as int)) == Some((v, n as nat))
                &&& 1 <= n
                &&& start + n <= buf.len()
            },
            None => take_varint(buf@.skip(start as int)) is None,
        },
{
    if start >= buf.len() {
        return None;
    }
    let first = buf[start];
    proof {
        assert(buf@.skip(start as int)[0] == buf@[start as int]);
    }
    let n: usize = if first < 0x40 {
        1
    } else if first < 0x80 {
        2
    } else if first < 0xc0 {
        4
    } else {
        8
    };
    if buf.len() - start < n {
        return None;
    }
    let mut d = VarintDecoder::new();
    let mut out: Option<u64> = None;
    let mut i: usize = start;
    while i < start + n
        invariant
            start + n <= buf.len(),
            start <= i <= start + n,
            d.wf(),
            n == vi_size_of_first(buf@[start as int]),
            i < start + n ==> out is None && d.fed() == buf@.subrange(start as int, i as int),
            i == start + n ==> out == Some(vi_dec(buf@.subrange(start as int, (start + n) as int))),
        decreases start + n - i,
    {
        let r = d.consume(buf[i]);
        proof {
            let pre = buf@.subrange(start as int, i as int);
            assert(pre.push(buf@[i as int]) =~= buf@.subrange(start as int, i + 1));
            assert(buf@.subrange(start as int, i + 1)[0] == buf@[start as int]);
        }
        out = r;
        i = i + 1;
    }
    proof {
        let sk = buf@.skip(start as int);
        assert(sk.take(n as int) =~= buf@.subrange(start as int, (start + n) as int));
    }
    match out {
        Some(v) => Some((v, n)),
        None => {
            proof {
                assert(false);
            }
            None
        },
    }
}

/// Parses a whole SETTINGS payload, keeping the pairs with known ids in
/// order; `None` when a varint is cut off by the payload boundary.
pub fn parse_settings_vec(p: &Vec<u8>) -> (r: Option<Vec<(HSettingType, u64)>>)
    ensures
        match r {
            Some(v) => parse_settings(p@) == Some(v@),
            None => parse_settings(p@) is None,
        },
{
    let mut acc: Vec<(HSettingType, u64)> = Vec::new();
    let mut i: usize = 0;
    proof {
        assert(p@.skip(0) =~= p@);
        if parse_settings(p@) is Some {
            let rest = parse_settings(p@)->Some_0;
            assert(Seq::<(HSettingType, u64)>::empty() + rest =~= rest);
        }
    }
    while i < p.len()
        invariant
            i <= p.len(),
            match parse_settings(p@.skip(i as int)) {
                Some(rest) => parse_settings(p@) == Some(acc@ + rest),
                None => parse_settings(p@) is None,
            },
        decreases p.len() - i,
    {
        let ghost pre = p@.skip(i as int);
        let (id, c1) = match parse_varint_at(p, i) {
            Some(x) => x,
            None => {
                return None;
            },
        };
        proof {
            assert(pre.skip(c1 as int) =~= p@.skip(i + c1));
        }
        let (v, c2) = match parse_varint_at(p, i + c1) {
            Some(x) => x,
            None => {
                return None;
            },
        };
        proof {
            assert(pre.skip((c1 + c2) as int) =~= p@.skip(i + c1 + c2));
        }
        match HSettingType::from_id(id) {
            Some(t) => {
                acc.push((t, v));
                proof {
                    if parse_settings(p@.skip(i + c1 + c2)) is Some {
                        let rest2 = parse_settings(p@.skip(i + c1 + c2))->Some_0;
                        assert(parse_settings(pre) == Some(seq![(t, v)] + rest2));
                        assert(acc@ + rest2 =~= acc@.drop_last() + (seq![(t, v)] + rest2));
                    }
                }
            },
            None => {
                proof {
                    if parse_settings(p@.skip(i + c1 + c2)) is Some {
                        let rest2 = parse_settings(p@.skip(i + c1 + c2))->Some_0;
                        assert(parse_settings(pre) == Some(rest2));
                    }
                }
            },
        }
        i = i + c1 + c2;
    }
    proof {
        assert(p@.skip(i as int) =~= Seq::<u8>::empty());
        assert(parse_settings(p@.skip(i as int)) == Some(Seq::<(HSettingType, u64)>::empty()));
        assert(acc@ + Seq::<(HSettingType, u64)>::empty() =~= acc@);
    }
    Some(acc)
}

// ------------------------------------------------------------------
// The incremental frame reader.
// ------------------------------------------------------------------
enum ReaderPhase {
    GetType { dec: VarintDecoder },
    GetLength { hty: u64, dec: VarintDecoder },
    GetPayload { hty: u64, len: u64, buf: Vec<u8> },
    Done { hty: u64, frame: HFrame },
}

/// An incremental frame decoder. Feed it bytes one at a time; it surfaces
/// the frame header as soon as both its varints have arrived (so a caller
/// can reject a frame by type before the payload), accumulates the payload,
/// parks on a whole frame of a known type, and silently skips whole frames
/// of unknown types.
pub struct HFrameReader {
    phase: ReaderPhase,
    fed: Ghost<Seq<u8>>,
}

impl HFrameReader {
    /// The bytes consumed since the last frame boundary.
    pub closed spec fn fed(self) -> Seq<u8> {
        self.fed@
    }

    /// Whether a whole frame is waiting to be taken with `get_frame`.
    pub closed spec fn spec_done(self) -> bool {
        self.phase is Done
    }

    pub closed spec fn wf(self) -> bool {
        match self.phase {
            ReaderPhase::GetType { dec } => {
                &&& dec.wf()
                &&& dec.fed() == self.fed@
                &&& take_varint(self.fed@) is None
            },
            ReaderPhase::GetLength { hty, dec } => {
                let c1 = (self.fed@.len() - dec.fed().len()) as int;
                &&& dec.wf()
                &&& 1 <= c1 <= self.fed@.len()
                &&& dec.fed() == self.fed@.skip(c1)
                &&& take_varint(self.fed@) == Some((hty, c1 as nat))
                &&& take_varint(self.fed@.skip(c1)) is None
            },
            ReaderPhase::GetPayload { hty, len, buf } => {
                let off = (self.fed@.len() - buf@.len()) as int;
                &&& 0 <= off <= self.fed@.len()
                &&& frame_hdr(self.fed@) == Some((hty, len, off as nat))
                &&& buf@ == self.fed@.skip(off)
                &&& buf@.len() < len
                &&& len <= VARINT_MAX
            },
            ReaderPhase::Done { hty, frame } => {
                &&& frame_complete(self.fed@)
                &&& frame_hdr_type(self.fed@) == hty
                &&& known_frame_type(hty)
                &&& parse_frame(self.fed@) == Some(frame@)
            },
        }
    }

    pub fn new() -> (r: Self)
        ensures
            r.wf(),
            r.fed() == Seq::<u8>::empty(),
            !r.spec_done(),
    {
        HFrameReader { phase: ReaderPhase::GetType { dec: VarintDecoder::new() }, fed: Ghost(Seq::empty()) }
    }

    pub fn done(&self) -> (r: bool)
        ensures
            r == self.spec_done(),
    {
        matches!(self.phase, ReaderPhase::Done { .. })
    }

    /// The type named by the current frame's header, once the header is
    /// complete.
    pub fn header_type(&self) -> (r: Option<u64>)
        requires
            self.wf(),
        ensures
            r == (match frame_hdr(self.fed()) {
                Some((t, _, _)) => Some(t),
                None => None::<u64>,
            }),
    {
        match &self.phase {
            ReaderPhase::GetType { .. } => None,
            ReaderPhase::GetLength { .. } => None,
            ReaderPhase::GetPayload { hty, .. } => Some(*hty),
            ReaderPhase::Done { hty, .. } => Some(*hty),
        }
    }

    /// Whether bytes of an unfinished frame have been consumed: a stream
    /// that ends here ends mid-frame.
    pub fn mid_frame(&self) -> (r: bool)
        requires
            self.wf(),
        ensures
            r == (self.fed().len() != 0 && !self.spec_done()),
    {
        match &self.phase {
            ReaderPhase::GetType { dec } => !dec.is_fresh(),
            ReaderPhase::GetLength { .. } => true,
            ReaderPhase::GetPayload { hty, len, buf } => {
                proof {
                    let off = (self.fed@.len() - buf@.len()) as int;
                    assert(off >= 1);
                }
                true
            },
            ReaderPhase::Done { .. } => false,
        }
    }

    /// The frame type `MalformedFrame` should report if the stream ends
    /// here: the header's type once the header is complete, else the 0xff
    /// sentinel.
    pub fn malformed_type(&self) -> (r: u64)
        requires
            self.wf(),
        ensures
            r == frame_hdr_type(self.fed()),
    {
        match &self.phase {
            ReaderPhase::GetType { .. } => H3_FRAME_TYPE_UNKNOWN,
            ReaderPhase::GetLength { .. } => H3_FRAME_TYPE_UNKNOWN,
            ReaderPhase::GetPayload { hty, .. } => *hty,
            ReaderPhase::Done { hty, .. } => *hty,
        }
    }

    /// Takes the completed frame and resets the reader for the next one.
    pub fn get_frame(&mut self) -> (f: HFrame)
        requires
            old(self).wf(),
            old(self).spec_done(),
        ensures
            final(self).wf(),
            !final(self).spec_done(),
            final(self).fed() == Seq::<u8>::empty(),
            Some(f@) == parse_frame(old(self).fed()),
    {
        let mut ph = ReaderPhase::GetType { dec: VarintDecoder::new() };
        core::mem::swap(&mut ph, &mut self.phase);
        self.fed = Ghost(Seq::empty());
        match ph {
            ReaderPhase::Done { frame, .. } => frame,
            _ => {
                proof {
                    assert(false);
                }
                unreached()
            },
        }
    }

    /// Parses a completed payload and parks on the resulting frame; resets
    /// and reports `MalformedFrame` when the payload does not fit its type.
    /// `s` is the whole frame's bytes. The caller has already screened out
    /// unknown types.
    fn finish(&mut self, hty: u64, payload: Vec<u8>, Ghost(s): Ghost<Seq<u8>>) -> (r: Result<
        bool,
        Error,
    >)
        requires
            frame_complete(s),
            known_frame_type(hty),
            frame_hdr_type(s) == hty,
            parse_frame(s) == parse_payload(hty, payload@),
        ensures
            final(self).wf(),
            parse_frame(s) is Some ==> r == Ok::<bool, Error>(true) && final(self).spec_done()
                && final(self).fed() == s,
            parse_frame(s) is None ==> r == Err::<bool, Error>(Error::MalformedFrame(hty))
                && !final(self).spec_done() && final(self).fed() == Seq::<u8>::empty(),
    {
        proof {
            assert(payload@.skip(0) =~= payload@);
        }
        let frame: HFrame = if hty == H3_FRAME_TYPE_DATA {
            HFrame::Data { payload }
        } else if hty == H3_FRAME_TYPE_HEADERS {
            HFrame::Headers { payload }
        } else if hty == H3_FRAME_TYPE_PRIORITY {
            HFrame::Priority { payload }
        } else if hty == H3_FRAME_TYPE_CANCEL_PUSH {
            match parse_varint_at(&payload, 0) {
                Some((id, _)) => HFrame::CancelPush { push_id: id },
                None => {
                    return self.reset_malformed(hty);
                },
            }
        } else if hty == H3_FRAME_TYPE_SETTINGS {
            match parse_settings_vec(&payload) {
                Some(settings) => HFrame::Settings { settings },
                None => {
                    return self.reset_malformed(hty);
                },
            }
        } else if hty == H3_FRAME_TYPE_PUSH_PROMISE {
            match parse_varint_at(&payload, 0) {
                Some((id, c)) => {
                    let header_block = copy_tail(&payload, c);
                    HFrame::PushPromise { push_id: id, header_block }
                },
                None => {
                    return self.reset_malformed(hty);
                },
            }
        } else if hty == H3_FRAME_TYPE_GOAWAY {
            match parse_varint_at(&payload, 0) {
                Some((id, _)) => HFrame::Goaway { stream_id: id },
                None => {
                    return self.reset_malformed(hty);
                },
            }
        } else if hty == H3_FRAME_TYPE_MAX_PUSH_ID {
            match parse_varint_at(&payload, 0) {
                Some((id, _)) => HFrame::MaxPushId { push_id: id },
                None => {
                    return self.reset_malformed(hty);
                },
            }
        } else {
            match parse_varint_at(&payload, 0) {
                Some((id, _)) => HFrame::DuplicatePush { push_id: id },
                None => {
                    return self.reset_malformed(hty);
                },
            }
        };
        self.phase = ReaderPhase::Done { hty, frame };
        self.fed = Ghost(s);
        Ok(true)
    }

    /// Resets after a payload that failed its type-specific parse.
    fn reset_malformed(&mut self, hty: u64) -> (r: Result<bool, Error>)
        ensures
            final(self).wf(),
            !final(self).spec_done(),
            final(self).fed() == Seq::<u8>::empty(),
            r == Err::<bool, Error>(Error::MalformedFrame(hty)),
    {
        self.phase = ReaderPhase::GetType { dec: VarintDecoder::new() };
        self.fed = Ghost(Seq::empty());
        Err(Error::MalformedFrame(hty))
    }

    /// Feed one byte. `Ok(true)` parks the reader on a whole frame for
    /// `get_frame`; `Ok(false)` asks for more bytes (a whole frame of an
    /// unknown type is skipped here); `Err` reports a payload that does not
    /// fit its announced type.
    pub fn consume_byte(&mut self, b: u8) -> (r: Result<bool, Error>)
        requires
            old(self).wf(),
            !old(self).spec_done(),
        ensures
            final(self).wf(),
            ({
                let s = old(self).fed().push(b);
                &&& (!frame_complete(s) ==> r == Ok::<bool, Error>(false) && final(self).fed() == s
                    && !final(self).spec_done())
                &&& (frame_complete(s) && !known_frame_type(frame_hdr_type(s)) ==> r == Ok::<
                    bool,
                    Error,
                >(false) && final(self).fed() == Seq::<u8>::empty() && !final(self).spec_done())
                &&& (frame_complete(s) && known_frame_type(frame_hdr_type(s)) && parse_frame(s)
                    is Some ==> r == Ok::<bool, Error>(true) && final(self).spec_done()
                    && final(self).fed() == s)
                &&& (frame_complete(s) && known_frame_type(frame_hdr_type(s)) && parse_frame(s)
                    is None ==> r == Err::<bool, Error>(Error::MalformedFrame(frame_hdr_type(s)))
                    && !final(self).spec_done())
            }),
    {
        let ghost s = self.fed@.push(b);
        let mut ph = ReaderPhase::GetType { dec: VarintDecoder::new() };
        core::mem::swap(&mut ph, &mut self.phase);
        match ph {
            ReaderPhase::GetType { mut dec } => {
                let ghost dfed = dec.fed();
                match dec.consume(b) {
                    None => {
                        self.phase = ReaderPhase::GetType { dec };
                        self.fed = Ghost(s);
                        proof {
                            assert(take_varint(s) is None);
                        }
                        Ok(false)
                    },
                    Some(t) => {
                        proof {
                            assert(s.len() == vi_size_of_first(s[0]));
                            assert(s.take(s.len() as int) =~= s);
                            assert(take_varint(s) == Some((t, s.len() as nat)));
                            assert(s.skip(s.len() as int) =~= Seq::<u8>::empty());
                        }
                        self.phase = ReaderPhase::GetLength { hty: t, dec: VarintDecoder::new() };
                        self.fed = Ghost(s);
                        Ok(false)
                    },
                }
            },
            ReaderPhase::GetLength { hty, mut dec } => {
                let ghost c1 = (self.fed@.len() - dec.fed().len()) as int;
                let ghost dfed = dec.fed();
                proof {
                    assert(s.take(c1) =~= self.fed@.take(c1));
                    assert(s[0] == self.fed@[0]);
                    assert(take_varint(s) == Some((hty, c1 as nat)));
                    assert(s.skip(c1) =~= dfed.push(b));
                }
                match dec.consume(b) {
                    None => {
                        self.phase = ReaderPhase::GetLength { hty, dec };
                        self.fed = Ghost(s);
                        Ok(false)
                    },
                    Some(l) => {
                        proof {
                            let s2 = dfed.push(b);
                            crate::varint::lemma_vi_acc_bound(s2);
                            assert(s2.take(s2.len() as int) =~= s2);
                            assert(take_varint(s.skip(c1)) == Some((l, s2.len() as nat)));
                            assert(frame_hdr(s) == Some((hty, l, (c1 + s2.len()) as nat)));
                            assert(s.len() == c1 + s2.len());
                        }
                        if l == 0 {
                            proof {
                                assert(frame_complete(s));
                                assert(s.skip(s.len() as int) =~= Seq::<u8>::empty());
                            }
                            if !known_frame_type_exec(hty) {
                                self.phase = ReaderPhase::GetType { dec: VarintDecoder::new() };
                                self.fed = Ghost(Seq::empty());
                                return Ok(false);
                            }
                            let payload: Vec<u8> = Vec::new();
                            self.finish(hty, payload, Ghost(s))
                        } else {
                            self.phase = ReaderPhase::GetPayload { hty, len: l, buf: Vec::new() };
                            self.fed = Ghost(s);
                            proof {
                                assert(s.skip(s.len() as int) =~= Seq::<u8>::empty());
                                assert(!frame_complete(s));
                            }
                            Ok(false)
                        }
                    },
                }
            },
            ReaderPhase::GetPayload { hty, len, mut buf } => {
                let ghost off = (self.fed@.len() - buf@.len()) as int;
                proof {
                    assert(s.take(off) =~= self.fed@.take(off));
                    assert(s[0] == self.fed@[0]);
                    let c1 = take_varint(self.fed@)->Some_0.1 as int;
                    assert(s.take(c1) =~= self.fed@.take(c1));
                    assert(s.skip(c1).take(off - c1) =~= self.fed@.skip(c1).take(off - c1));
                    assert(s.skip(c1)[0] == self.fed@.skip(c1)[0]);
                    assert(s.skip(c1).len() >= vi_size_of_first(s.skip(c1)[0]));
                    assert(frame_hdr(s) == Some((hty, len, off as nat)));
                    assert(s.skip(off) =~= buf@.push(b));
                }
                buf.push(b);
                if buf.len() as u64 == len {
                    proof {
                        assert(frame_complete(s));
                    }
                    if !known_frame_type_exec(hty) {
                        self.phase = ReaderPhase::GetType { dec: VarintDecoder::new() };
                        self.fed = Ghost(Seq::empty());
                        return Ok(false);
                    }
                    self.finish(hty, buf, Ghost(s))
                } else {
                    self.phase = ReaderPhase::GetPayload { hty, len, buf };
                    self.fed = Ghost(s);
                    proof {
                        assert(!frame_complete(s));
                    }
                    Ok(false)
                }
            },
            ReaderPhase::Done { .. } => {
                proof {
                    assert(false);
                }
                unreached()
            },
        }
    }
}

/// Whether `t` is a frame type this codec understands.
pub fn known_frame_type_exec(t: u64) -> (r: bool)
    ensures
        r == known_frame_type(t),
{
    t == H3_FRAME_TYPE_DATA || t == H3_FRAME_TYPE_HEADERS || t == H3_FRAME_TYPE_PRIORITY || t
        == H3_FRAME_TYPE_CANCEL_PUSH || t == H3_FRAME_TYPE_SETTINGS || t
        == H3_FRAME_TYPE_PUSH_PROMISE || t == H3_FRAME_TYPE_GOAWAY || t == H3_FRAME_TYPE_MAX_PUSH_ID
        || t == H3_FRAME_TYPE_DUPLICATE_PUSH
}

} // verus!
