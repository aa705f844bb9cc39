//! The messages that server and client exchange, and how they travel over a byte stream:
//! a length as four little-endian bytes, then that many bytes of payload.

use vstd::prelude::*;

use crate::bytes;
use crate::text;
use crate::wire;

verus! {

/// The longest payload that a reader accepts, in bytes.
pub const MAX_PAYLOAD: usize = 100_000_000;

pub const TAG_HANDSHAKE: u32 = 0;

pub const TAG_VIDEO_FRAME: u32 = 1;

pub const TAG_MOUSE_MOVE: u32 = 2;

pub const TAG_MOUSE_CLICK: u32 = 3;

pub const TAG_KEY_EVENT: u32 = 4;

pub const TAG_DISCONNECT: u32 = 5;

/// One coordinate of the pointer, normalized to the screen: the bit pattern of an IEEE 754
/// single-precision number.
#[derive(Debug, Clone, Copy)]
pub struct Coord {
    pub bits: u32,
}

impl Coord {
    /// Whether the bits stand for no number.
    pub open spec fn is_nan(self) -> bool {
        self.bits % 0x8000_0000 > 0x7F80_0000
    }

    /// Whether the bits stand for zero, with either sign.
    pub open spec fn is_zero(self) -> bool {
        self.bits % 0x8000_0000 == 0
    }
}

/// Coordinates are equal as numbers are: zero has two signs, and what is no number equals
/// nothing.
impl PartialEq for Coord {
    fn eq(&self, other: &Coord) -> (r: bool) {
        let a: u32 = self.bits % 0x8000_0000;
        let b: u32 = other.bits % 0x8000_0000;
        a <= 0x7F80_0000 && b <= 0x7F80_0000 && (self.bits == other.bits || (a == 0 && b == 0))
    }
}

impl vstd::std_specs::cmp::PartialEqSpecImpl for Coord {
    open spec fn obeys_eq_spec() -> bool {
        true
    }

    open spec fn eq_spec(&self, other: &Coord) -> bool {
        &&& !self.is_nan()
        &&& !other.is_nan()
        &&& self.bits == other.bits || (self.is_zero() && other.is_zero())
    }
}

/// A message between server and client.
#[derive(Debug, Clone, PartialEq)]
pub enum Message {
    /// The server's display, sent first on each connection.
    Handshake { version: u8, width: u32, height: u32, fps: u8 },
    /// One encoded frame of the server's screen.
    VideoFrame { timestamp_ms: u64, data: Vec<u8> },
    /// The pointer's place on the client's screen.
    MouseMove { x: Coord, y: Coord },
    /// A mouse button went down or up.
    MouseClick { button: u8, pressed: bool },
    /// A key went down or up.
    KeyEvent { keycode: u32, pressed: bool },
    /// The sender leaves.
    Disconnect,
}

impl Message {
    /// Whether the sender leaves with this message.
    pub fn is_disconnect(&self) -> (r: bool)
        ensures
            r == (self is Disconnect),
    {
        match self {
            Message::Disconnect => true,
            _ => false,
        }
    }
}

impl Message {
    /// Appends the message in words. `place` is what the coordinates of a `MouseMove` are in
    /// words.
    pub fn push_words(&self, out: &mut String, place: &str)
        ensures
            final(out)@ == old(out)@ + self@.words(place@),
    {
        let ghost before = out@;
        match self {
            Message::Handshake { version, width, height, fps } => {
                out.append("Handshake { version: ");
                text::push_decimal(out, *version as u64);
                out.append(", width: ");
                text::push_decimal(out, *width as u64);
                out.append(", height: ");
                text::push_decimal(out, *height as u64);
                out.append(", fps: ");
                text::push_decimal(out, *fps as u64);
                out.append(" }");
            },
            Message::VideoFrame { timestamp_ms, data } => {
                out.append("VideoFrame { timestamp_ms: ");
                text::push_decimal(out, *timestamp_ms);
                out.append(", data: [");
                text::push_listed(out, data.as_slice());
                out.append("] }");
            },
            Message::MouseMove { .. } => {
                out.append("MouseMove { ");
                out.append(place);
                out.append(" }");
            },
            Message::MouseClick { button, pressed } => {
                out.append("MouseClick { button: ");
                text::push_decimal(out, *button as u64);
                out.append(", pressed: ");
                text::push_truth(out, *pressed);
                out.append(" }");
            },
            Message::KeyEvent { keycode, pressed } => {
                out.append("KeyEvent { keycode: ");
                text::push_decimal(out, *keycode as u64);
                out.append(", pressed: ");
                text::push_truth(out, *pressed);
                out.append(" }");
            },
            Message::Disconnect => out.append("Disconnect"),
        }
        assert(out@ =~= before + self@.words(place@));
    }
}

/// What a message says, with a frame's data as a sequence.
pub enum MessageView {
    Handshake { version: u8, width: u32, height: u32, fps: u8 },
    VideoFrame { timestamp_ms: u64, data: Seq<u8> },
    MouseMove { x: Coord, y: Coord },
    MouseClick { button: u8, pressed: bool },
    KeyEvent { keycode: u32, pressed: bool },
    Disconnect,
}

impl View for Message {
    type V = MessageView;

    open spec fn view(&self) -> MessageView {
        match *self {
            Message::Handshake { version, width, height, fps } => MessageView::Handshake {
                version,
                width,
                height,
                fps,
            },
            Message::VideoFrame { timestamp_ms, data } => MessageView::VideoFrame {
                timestamp_ms,
                data: data@,
            },
            Message::MouseMove { x, y } => MessageView::MouseMove { x, y },
            Message::MouseClick { button, pressed } => MessageView::MouseClick { button, pressed },
            Message::KeyEvent { keycode, pressed } => MessageView::KeyEvent { keycode, pressed },
            Message::Disconnect => MessageView::Disconnect,
        }
    }
}

/// Why no message could be read.
#[derive(Debug, Clone, Copy, PartialEq, Eq, Structural)]
pub enum ProtocolError {
    /// The stream ended inside the length.
    ShortLength,
    /// The length is over `MAX_PAYLOAD`.
    TooLarge { len: usize },
    /// The stream ended inside the payload.
    ShortPayload,
    /// The payload is no message.
    Malformed,
}

impl ProtocolError {
    /// The error in words.
    pub open spec fn message(self) -> Seq<char> {
        match self {
            ProtocolError::ShortLength => "read length prefix"@,
            ProtocolError::TooLarge { len } => "message too large: "@ + text::decimal(len as nat)
                + " bytes"@,
            ProtocolError::ShortPayload => "read payload"@,
            ProtocolError::Malformed => "deserialize message"@,
        }
    }

    /// The error in words.
    pub fn describe(&self) -> (r: String)
        ensures
            r@ == self.message(),
    {
        let mut out = String::new();
        match self {
            ProtocolError::ShortLength => out.append("read length prefix"),
            ProtocolError::TooLarge { len } => {
                out.append("message too large: ");
                text::push_decimal(&mut out, *len as u64);
                out.append(" bytes");
            },
            ProtocolError::ShortPayload => out.append("read payload"),
            ProtocolError::Malformed => out.append("deserialize message"),
        }
        assert(out@ =~= self.message());
        out
    }
}

impl MessageView {
    /// The number that stands for the kind of message.
    pub open spec fn tag(self) -> u32 {
        match self {
            MessageView::Handshake { .. } => TAG_HANDSHAKE,
            MessageView::VideoFrame { .. } => TAG_VIDEO_FRAME,
            MessageView::MouseMove { .. } => TAG_MOUSE_MOVE,
            MessageView::MouseClick { .. } => TAG_MOUSE_CLICK,
            MessageView::KeyEvent { .. } => TAG_KEY_EVENT,
            MessageView::Disconnect => TAG_DISCONNECT,
        }
    }

    /// The message in words, with `place` for the coordinates of a `MouseMove`.
    pub open spec fn words(self, place: Seq<char>) -> Seq<char> {
        match self {
            MessageView::Handshake { version, width, height, fps } => "Handshake { version: "@
                + text::decimal(version as nat) + ", width: "@ + text::decimal(width as nat)
                + ", height: "@ + text::decimal(height as nat) + ", fps: "@ + text::decimal(
                fps as nat,
            ) + " }"@,
            MessageView::VideoFrame { timestamp_ms, data } => "VideoFrame { timestamp_ms: "@
                + text::decimal(timestamp_ms as nat) + ", data: ["@ + text::listed(data) + "] }"@,
            MessageView::MouseMove { .. } => "MouseMove { "@ + place + " }"@,
            MessageView::MouseClick { button, pressed } => "MouseClick { button: "@ + text::decimal(
                button as nat,
            ) + ", pressed: "@ + text::truth(pressed) + " }"@,
            MessageView::KeyEvent { keycode, pressed } => "KeyEvent { keycode: "@ + text::decimal(
                keycode as nat,
            ) + ", pressed: "@ + text::truth(pressed) + " }"@,
            MessageView::Disconnect => "Disconnect"@,
        }
    }

    /// The payload that carries the message.
    pub open spec fn payload(self) -> Seq<u8> {
        match self {
            MessageView::Handshake { version, width, height, fps } => wire::handshake_image(
                self.tag(),
                version,
                width,
                height,
                fps,
            ),
            MessageView::VideoFrame { timestamp_ms, data } => wire::frame_image(
                self.tag(),
                timestamp_ms,
                data,
            ),
            MessageView::MouseMove { x, y } => wire::point_image(self.tag(), x.bits, y.bits),
            MessageView::MouseClick { button, pressed } => wire::button_image(
                self.tag(),
                button,
                pressed,
            ),
            MessageView::KeyEvent { keycode, pressed } => wire::key_image(
                self.tag(),
                keycode,
                pressed,
            ),
            MessageView::Disconnect => wire::tag_image(self.tag()),
        }
    }

    /// The bytes that carry the message over a stream. A length that four bytes cannot hold
    /// loses its high bytes.
    pub open spec fn framed(self) -> Seq<u8> {
        bytes::le_bytes(self.payload().len(), 4) + self.payload()
    }

    /// Whether a frame's data has a length that eight bytes can hold, as every `Vec` has.
    pub open spec fn in_range(self) -> bool {
        self matches MessageView::VideoFrame { data, .. } ==> data.len() <= u64::MAX
    }

    /// Whether a frame's data leaves room for the twenty other bytes of its payload in a `Vec`.
    pub open spec fn fits_in_memory(self) -> bool {
        self matches MessageView::VideoFrame { data, .. } ==> data.len() + 20 <= isize::MAX
    }
}

/// Whether `m` is the message that the payload `bytes` starts with.
pub open spec fn carries(bytes: Seq<u8>, m: MessageView) -> bool {
    m.payload().is_prefix_of(bytes)
}

/// Whether the payload `bytes` starts with a message.
pub open spec fn holds_message(bytes: Seq<u8>) -> bool {
    exists|m: MessageView| #[trigger] carries(bytes, m)
}

/// Whether the payload of a message fits in memory.
pub fn can_encode(msg: &Message) -> (r: bool)
    ensures
        r == msg@.fits_in_memory(),
{
    match msg {
        Message::VideoFrame { data, .. } => data.len() <= isize::MAX as usize - 20,
        _ => true,
    }
}

/// The payload of a message.
pub fn encode_message(msg: &Message) -> (payload: Vec<u8>)
    requires
        msg@.fits_in_memory(),
    ensures
        payload@ == msg@.payload(),
{
    let result = match msg {
        Message::Handshake { version, width, height, fps } => wire::serialize_handshake(
            TAG_HANDSHAKE,
            *version,
            *width,
            *height,
            *fps,
        ),
        Message::VideoFrame { timestamp_ms, data } => wire::serialize_frame(
            TAG_VIDEO_FRAME,
            *timestamp_ms,
            data.as_slice(),
        ),
        Message::MouseMove { x, y } => wire::serialize_point(TAG_MOUSE_MOVE, x.bits, y.bits),
        Message::MouseClick { button, pressed } => wire::serialize_button(
            TAG_MOUSE_CLICK,
            *button,
            *pressed,
        ),
        Message::KeyEvent { keycode, pressed } => wire::serialize_key(
            TAG_KEY_EVENT,
            *keycode,
            *pressed,
        ),
        Message::Disconnect => wire::serialize_tag(TAG_DISCONNECT),
    };
    result.unwrap()
}

/// The length of each kind of payload.
pub proof fn lemma_payload_len(m: MessageView)
    ensures
        m.payload().len() == match m {
            MessageView::Handshake { .. } => 14,
            MessageView::VideoFrame { data, .. } => 20 + data.len(),
            MessageView::MouseMove { .. } => 12,
            MessageView::MouseClick { .. } => 6,
            MessageView::KeyEvent { .. } => 9,
            MessageView::Disconnect => 4nat,
        },
{
    broadcast use crate::bytes::lemma_le_bytes_len;
}

/// A payload starts with its tag.
proof fn lemma_payload_tag(m: MessageView)
    ensures
        wire::tag_image(m.tag()).is_prefix_of(m.payload()),
{
    broadcast use crate::bytes::lemma_le_bytes_len;

    let tag = wire::tag_image(m.tag());
    lemma_payload_len(m);
    assert(m.payload().take(4) =~= tag);
}

/// At most one tag stands at the front of a byte sequence.
proof fn lemma_tag_unique(a: u32, b: u32, bytes: Seq<u8>)
    requires
        wire::tag_image(a).is_prefix_of(bytes),
        wire::tag_image(b).is_prefix_of(bytes),
    ensures
        a == b,
{
    broadcast use crate::bytes::lemma_le_bytes_len;

    assert(wire::tag_image(a) =~= wire::tag_image(b));
    bytes::lemma_u32_bytes_distinct(a, b);
}

/// A tag that starts an image at the front of a byte sequence is that sequence's tag.
proof fn lemma_image_tag(bytes: Seq<u8>, image: Seq<u8>, image_tag: u32, tag: u32)
    requires
        image.is_prefix_of(bytes),
        wire::tag_image(image_tag).is_prefix_of(image),
        wire::tag_image(tag).is_prefix_of(bytes),
    ensures
        image_tag == tag,
{
    assert(wire::tag_image(image_tag).is_prefix_of(bytes));
    lemma_tag_unique(image_tag, tag, bytes);
}

/// Bytes that carry a message start with the message's tag.
proof fn lemma_carried_tag(bytes: Seq<u8>, m: MessageView, tag: u32)
    requires
        carries(bytes, m),
        wire::tag_image(tag).is_prefix_of(bytes),
    ensures
        m.tag() == tag,
{
    lemma_payload_tag(m);
    lemma_image_tag(bytes, m.payload(), m.tag(), tag);
}

/// No payload is the start of another's: bytes carry one message at most.
pub proof fn law_payload_determines_message(bytes: Seq<u8>, a: MessageView, b: MessageView)
    requires
        carries(bytes, a),
        carries(bytes, b),
        a.in_range(),
        b.in_range(),
    ensures
        a == b,
{
    broadcast use crate::bytes::lemma_le_bytes_len;

    lemma_payload_tag(a);
    lemma_payload_len(a);
    lemma_payload_len(b);
    assert(wire::tag_image(a.tag()).is_prefix_of(bytes));
    lemma_carried_tag(bytes, b, a.tag());
    match (a, b) {
        (
            MessageView::Handshake { version: va, width: wa, height: ha, fps: fa },
            MessageView::Handshake { version: vb, width: wb, height: hb, fps: fb },
        ) => {
            assert(a.payload() =~= b.payload());
            assert(va == a.payload()[4] && vb == b.payload()[4]);
            assert(bytes::le_bytes(wa as nat, 4) =~= a.payload().subrange(5, 9));
            assert(bytes::le_bytes(wb as nat, 4) =~= b.payload().subrange(5, 9));
            assert(bytes::le_bytes(ha as nat, 4) =~= a.payload().subrange(9, 13));
            assert(bytes::le_bytes(hb as nat, 4) =~= b.payload().subrange(9, 13));
            assert(fa == a.payload()[13] && fb == b.payload()[13]);
            bytes::lemma_u32_bytes_distinct(wa, wb);
            bytes::lemma_u32_bytes_distinct(ha, hb);
        },
        (
            MessageView::VideoFrame { timestamp_ms: ta, data: da },
            MessageView::VideoFrame { timestamp_ms: tb, data: db },
        ) => {
            assert(bytes::le_bytes(ta as nat, 8) =~= a.payload().subrange(4, 12));
            assert(bytes::le_bytes(tb as nat, 8) =~= b.payload().subrange(4, 12));
            assert(a.payload().subrange(4, 12) =~= b.payload().subrange(4, 12));
            bytes::lemma_u64_bytes_distinct(ta, tb);
            assert(bytes::le_bytes(da.len(), 8) =~= a.payload().subrange(12, 20));
            assert(bytes::le_bytes(db.len(), 8) =~= b.payload().subrange(12, 20));
            assert(a.payload().subrange(12, 20) =~= b.payload().subrange(12, 20));
            bytes::lemma_u64_bytes_distinct(da.len() as u64, db.len() as u64);
            assert(da =~= a.payload().skip(20));
            assert(db =~= b.payload().skip(20));
            assert(a.payload().skip(20) =~= b.payload().skip(20));
        },
        (MessageView::MouseMove { x: xa, y: ya }, MessageView::MouseMove { x: xb, y: yb }) => {
            assert(a.payload() =~= b.payload());
            assert(bytes::le_bytes(xa.bits as nat, 4) =~= a.payload().subrange(4, 8));
            assert(bytes::le_bytes(xb.bits as nat, 4) =~= b.payload().subrange(4, 8));
            assert(bytes::le_bytes(ya.bits as nat, 4) =~= a.payload().subrange(8, 12));
            assert(bytes::le_bytes(yb.bits as nat, 4) =~= b.payload().subrange(8, 12));
            bytes::lemma_u32_bytes_distinct(xa.bits, xb.bits);
            bytes::lemma_u32_bytes_distinct(ya.bits, yb.bits);
        },
        (MessageView::MouseClick { .. }, MessageView::MouseClick { .. }) => {
            assert(a.payload() =~= b.payload());
            assert(a.payload()[4] == b.payload()[4] && a.payload()[5] == b.payload()[5]);
        },
        (
            MessageView::KeyEvent { keycode: ka, .. },
            MessageView::KeyEvent { keycode: kb, .. },
        ) => {
            assert(a.payload() =~= b.payload());
            assert(bytes::le_bytes(ka as nat, 4) =~= a.payload().subrange(4, 8));
            assert(bytes::le_bytes(kb as nat, 4) =~= b.payload().subrange(4, 8));
            bytes::lemma_u32_bytes_distinct(ka, kb);
            assert(a.payload()[8] == b.payload()[8]);
        },
        _ => {},
    }
}

/// The message that a payload starts with. Bytes behind it are ignored.
pub fn decode_message(bytes: &[u8]) -> (r: Result<Message, ProtocolError>)
    ensures
        match r {
            Ok(msg) => carries(bytes@, msg@) && msg@.in_range(),
            Err(e) => e == ProtocolError::Malformed && forall|m: MessageView|
                !#[trigger] carries(bytes@, m),
        },
        r is Ok <==> holds_message(bytes@),
{
    let tag = match wire::deserialize_tag(bytes) {
        Ok(tag) => tag,
        Err(_) => {
            proof {
                assert forall|m: MessageView| !#[trigger] carries(bytes@, m) by {
                    if carries(bytes@, m) {
                        lemma_payload_tag(m);
                        assert(wire::tag_image(m.tag()).is_prefix_of(bytes@));
                    }
                }
            }
            return Err(ProtocolError::Malformed);
        },
    };
    proof {
        assert forall|m: MessageView| #[trigger] carries(bytes@, m) implies m.tag() == tag by {
            lemma_carried_tag(bytes@, m, tag);
        }
    }
    let result = if tag == TAG_HANDSHAKE {
        match wire::deserialize_handshake(bytes) {
            Ok(v) => {
                proof {
                    broadcast use crate::bytes::lemma_le_bytes_len;

                    let image = wire::handshake_image(v.0, v.1, v.2, v.3, v.4);
                    assert(image.take(4) =~= wire::tag_image(v.0));
                    lemma_image_tag(bytes@, image, v.0, tag);
                }
                Ok(Message::Handshake { version: v.1, width: v.2, height: v.3, fps: v.4 })
            },
            Err(_) => Err(ProtocolError::Malformed),
        }
    } else if tag == TAG_VIDEO_FRAME {
        match wire::deserialize_frame(bytes) {
            Ok(v) => {
                proof {
                    broadcast use crate::bytes::lemma_le_bytes_len;

                    let image = wire::frame_image(v.0, v.1, v.2@);
                    assert(image.take(4) =~= wire::tag_image(v.0));
                    lemma_image_tag(bytes@, image, v.0, tag);
                    assert(v.2@.len() == v.2.len());
                }
                Ok(Message::VideoFrame { timestamp_ms: v.1, data: v.2 })
            },
            Err(_) => Err(ProtocolError::Malformed),
        }
    } else if tag == TAG_MOUSE_MOVE {
        match wire::deserialize_point(bytes) {
            Ok(v) => {
                proof {
                    broadcast use crate::bytes::lemma_le_bytes_len;

                    let image = wire::point_image(v.0, v.1, v.2);
                    assert(image.take(4) =~= wire::tag_image(v.0));
                    lemma_image_tag(bytes@, image, v.0, tag);
                }
                Ok(Message::MouseMove { x: Coord { bits: v.1 }, y: Coord { bits: v.2 } })
            },
            Err(_) => Err(ProtocolError::Malformed),
        }
    } else if tag == TAG_MOUSE_CLICK {
        match wire::deserialize_button(bytes) {
            Ok(v) => {
                proof {
                    broadcast use crate::bytes::lemma_le_bytes_len;

                    let image = wire::button_image(v.0, v.1, v.2);
                    assert(image.take(4) =~= wire::tag_image(v.0));
                    lemma_image_tag(bytes@, image, v.0, tag);
                }
                Ok(Message::MouseClick { button: v.1, pressed: v.2 })
            },
            Err(_) => Err(ProtocolError::Malformed),
        }
    } else if tag == TAG_KEY_EVENT {
        match wire::deserialize_key(bytes) {
            Ok(v) => {
                proof {
                    broadcast use crate::bytes::lemma_le_bytes_len;

                    let image = wire::key_image(v.0, v.1, v.2);
                    assert(image.take(4) =~= wire::tag_image(v.0));
                    lemma_image_tag(bytes@, image, v.0, tag);
                }
                Ok(Message::KeyEvent { keycode: v.1, pressed: v.2 })
            },
            Err(_) => Err(ProtocolError::Malformed),
        }
    } else if tag == TAG_DISCONNECT {
        Ok(Message::Disconnect)
    } else {
        Err(ProtocolError::Malformed)
    };
    proof {
        if result is Ok {
            assert(carries(bytes@, result->Ok_0@));
        } else {
            assert(forall|m: MessageView| !#[trigger] carries(bytes@, m));
        }
    }
    result
}

/// A payload is decoded to the message that was encoded, and to no other.
pub proof fn law_decode_after_encode(m: MessageView, r: Result<MessageView, ProtocolError>)
    requires
        m.in_range(),
        match r {
            Ok(decoded) => carries(m.payload(), decoded) && decoded.in_range(),
            Err(e) => e == ProtocolError::Malformed && forall|n: MessageView|
                !#[trigger] carries(m.payload(), n),
        },
    ensures
        r == Ok::<MessageView, ProtocolError>(m),
{
    assert(carries(m.payload(), m));
    if let Ok(decoded) = r {
        law_payload_determines_message(m.payload(), decoded, m);
    }
}

/// The bytes that announce a payload of `len` bytes.
pub fn length_prefix(len: usize) -> (r: [u8; 4])
    ensures
        r@ == bytes::le_bytes(len as nat, 4),
{
    bytes::to_le_bytes(len)
}

/// The length of the payload that follows, which may not be over `MAX_PAYLOAD`.
pub fn payload_len(prefix: [u8; 4]) -> (r: Result<usize, ProtocolError>)
    ensures
        r == if bytes::le_value(prefix@) > MAX_PAYLOAD {
            Err::<usize, ProtocolError>(
                ProtocolError::TooLarge { len: bytes::le_value(prefix@) as usize },
            )
        } else {
            Ok::<usize, ProtocolError>(bytes::le_value(prefix@) as usize)
        },
        bytes::le_value(prefix@) <= u32::MAX,
{
    let len: usize = bytes::from_le_bytes(prefix) as usize;
    if len > MAX_PAYLOAD {
        return Err(ProtocolError::TooLarge { len });
    }
    Ok(len)
}

/// Appends a message to a stream, behind the length of its payload.
pub fn write_message(writer: &mut Vec<u8>, msg: &Message)
    requires
        msg@.fits_in_memory(),
    ensures
        final(writer)@ == old(writer)@ + msg@.framed(),
{
    let mut payload = encode_message(msg);
    let prefix = length_prefix(payload.len());
    writer.extend_from_slice(prefix.as_slice());
    writer.append(&mut payload);
    assert(writer@ =~= old(writer)@ + msg@.framed());
}

/// What reading one message from the stream `rest` yields: the message or the error, and
/// the count of bytes that are then used up.
pub open spec fn read_outcome(
    rest: Seq<u8>,
    outcome: Result<MessageView, ProtocolError>,
    used: nat,
) -> bool {
    let len = bytes::le_value(rest.take(4));
    let payload = rest.subrange(4, 4 + len as int);
    match outcome {
        Err(ProtocolError::ShortLength) => rest.len() < 4 && used == rest.len(),
        Err(ProtocolError::TooLarge { len: claimed }) => {
            &&& rest.len() >= 4
            &&& len > MAX_PAYLOAD
            &&& claimed == len
            &&& used == 4
        },
        Err(ProtocolError::ShortPayload) => {
            &&& 4 <= rest.len() < 4 + len
            &&& len <= MAX_PAYLOAD
            &&& used == rest.len()
        },
        Err(ProtocolError::Malformed) => {
            &&& rest.len() >= 4 + len
            &&& len <= MAX_PAYLOAD
            &&& forall|m: MessageView| !#[trigger] carries(payload, m)
            &&& used == 4 + len
        },
        Ok(m) => {
            &&& rest.len() >= 4 + len
            &&& len <= MAX_PAYLOAD
            &&& m.in_range()
            &&& carries(payload, m)
            &&& used == 4 + len
        },
    }
}

/// Reads the next message from `reader`, from `pos` on, and moves `pos` behind what was used.
pub fn read_message(reader: &[u8], pos: &mut usize) -> (r: Result<Message, ProtocolError>)
    requires
        *old(pos) <= reader@.len(),
    ensures
        *old(pos) <= *final(pos) <= reader@.len(),
        read_outcome(
            reader@.skip(*old(pos) as int),
            match r {
                Ok(msg) => Ok(msg@),
                Err(e) => Err(e),
            },
            (*final(pos) - *old(pos)) as nat,
        ),
{
    let start: usize = *pos;
    let ghost rest = reader@.skip(start as int);
    let left: usize = reader.len() - start;
    if left < 4 {
        *pos = reader.len();
        return Err(ProtocolError::ShortLength);
    }
    let prefix = [reader[start], reader[start + 1], reader[start + 2], reader[start + 3]];
    assert(prefix@ =~= rest.take(4));
    *pos = start + 4;
    let len: usize = match payload_len(prefix) {
        Ok(len) => len,
        Err(e) => {
            return Err(e);
        },
    };
    if left - 4 < len {
        *pos = reader.len();
        return Err(ProtocolError::ShortPayload);
    }
    *pos = start + 4 + len;
    let payload = vstd::slice::slice_subrange(reader, start + 4, start + 4 + len);
    assert(payload@ =~= rest.subrange(4, 4 + len as int));
    decode_message(payload)
}

/// A message that is written to a stream is what the reader of the stream gets, and reading it
/// uses up its bytes and no others. This holds of every message that the reader's limit admits.
pub proof fn law_read_after_write(
    m: MessageView,
    tail: Seq<u8>,
    outcome: Result<MessageView, ProtocolError>,
    used: nat,
)
    requires
        m.in_range(),
        m.payload().len() <= MAX_PAYLOAD,
        read_outcome(m.framed() + tail, outcome, used),
    ensures
        outcome == Ok::<MessageView, ProtocolError>(m),
        used == m.framed().len(),
{
    broadcast use crate::bytes::lemma_le_bytes_len;

    let rest = m.framed() + tail;
    let len = m.payload().len();
    assert(rest.take(4) =~= bytes::le_bytes(len, 4));
    bytes::lemma_byte_ranges();
    bytes::lemma_value_of_bytes(len, 4);
    let payload = rest.subrange(4, 4 + len as int);
    assert(payload =~= m.payload());
    assert(carries(payload, m));
    if let Ok(read) = outcome {
        law_payload_determines_message(payload, read, m);
    }
}

/// The bytes of several messages, one after the other.
pub open spec fn stream_of(messages: Seq<MessageView>) -> Seq<u8>
    decreases messages.len(),
{
    if messages.len() == 0 {
        Seq::empty()
    } else {
        messages[0].framed() + stream_of(messages.drop_first())
    }
}

/// Messages come out of a stream in the order in which they went in: read after read, with
/// `at` the places between them, the outcomes are the messages, and the last read ends where
/// the messages' bytes end.
pub proof fn law_stream_keeps_order(
    messages: Seq<MessageView>,
    tail: Seq<u8>,
    outcomes: Seq<Result<MessageView, ProtocolError>>,
    at: Seq<nat>,
)
    requires
        forall|i: int|
            0 <= i < messages.len() ==> (#[trigger] messages[i]).in_range()
                && messages[i].payload().len() <= MAX_PAYLOAD,
        outcomes.len() == messages.len(),
        at.len() == messages.len() + 1,
        at[0] == 0,
        at.last() <= (stream_of(messages) + tail).len(),
        forall|i: int, j: int| 0 <= i <= j < at.len() ==> at[i] <= at[j],
        forall|i: int|
            0 <= i < messages.len() ==> read_outcome(
                (stream_of(messages) + tail).skip(at[i] as int),
                #[trigger] outcomes[i],
                (at[i + 1] - at[i]) as nat,
            ),
    ensures
        forall|i: int|
            0 <= i < messages.len() ==> #[trigger] outcomes[i] == Ok::<MessageView, ProtocolError>(
                messages[i],
            ),
        at.last() == stream_of(messages).len(),
    decreases messages.len(),
{
    if messages.len() > 0 {
        let rest = messages.drop_first();
        let whole = stream_of(messages) + tail;
        let first = messages[0].framed();
        let behind = stream_of(rest) + tail;
        assert(whole =~= first + behind);
        assert(whole.skip(0) =~= whole);
        assert(outcomes[0] == outcomes.first());
        law_read_after_write(messages[0], behind, outcomes[0], at[1]);
        let later = outcomes.drop_first();
        let places = Seq::new((at.len() - 1) as nat, |i: int| (at[i + 1] - first.len()) as nat);
        assert forall|i: int| 0 <= i < rest.len() implies read_outcome(
            (stream_of(rest) + tail).skip(places[i] as int),
            #[trigger] later[i],
            (places[i + 1] - places[i]) as nat,
        ) by {
            assert(later[i] == outcomes[i + 1]);
            assert(at[i + 1] <= at[at.len() - 1]);
            assert(at[1] <= at[i + 1]);
            assert(whole.skip(at[i + 1] as int) =~= behind.skip(places[i] as int));
        }
        assert forall|i: int| 0 <= i < rest.len() implies (#[trigger] rest[i]).in_range()
            && rest[i].payload().len() <= MAX_PAYLOAD by {
            assert(rest[i] == messages[i + 1]);
        }
        law_stream_keeps_order(rest, tail, later, places);
        assert forall|i: int| 0 <= i < messages.len() implies #[trigger] outcomes[i] == Ok::<
            MessageView,
            ProtocolError,
        >(messages[i]) by {
            if i > 0 {
                assert(later[i - 1] == outcomes[i]);
                assert(rest[i - 1] == messages[i]);
            }
        }
    }
}

/// A message over the reader's limit never arrives, whatever follows it.
pub proof fn law_oversized_message_is_not_read(
    m: MessageView,
    tail: Seq<u8>,
    outcome: Result<MessageView, ProtocolError>,
    used: nat,
)
    requires
        m.payload().len() > MAX_PAYLOAD,
        read_outcome(m.framed() + tail, outcome, used),
    ensures
        outcome != Ok::<MessageView, ProtocolError>(m),
{
}

/// A message over the reader's limit whose length four bytes can hold is refused with that
/// length, before any of its payload is read.
pub proof fn law_oversized_message_is_refused(
    m: MessageView,
    tail: Seq<u8>,
    outcome: Result<MessageView, ProtocolError>,
    used: nat,
)
    requires
        MAX_PAYLOAD < m.payload().len() <= u32::MAX,
        read_outcome(m.framed() + tail, outcome, used),
    ensures
        outcome == Err::<MessageView, ProtocolError>(
            ProtocolError::TooLarge { len: m.payload().len() as usize },
        ),
        used == 4,
{
    broadcast use crate::bytes::lemma_le_bytes_len;

    let rest = m.framed() + tail;
    let len = m.payload().len();
    assert(rest.take(4) =~= bytes::le_bytes(len, 4));
    bytes::lemma_byte_ranges();
    bytes::lemma_value_of_bytes(len, 4);
}

// ---------------------------------------------------------------------------
// The wire format
// ---------------------------------------------------------------------------

/// Where the parts of each message stand in its payload: the number of its kind in the first
/// four bytes, then its fields in order, numbers least significant byte first, a flag as 1 or 0,
/// and the data of a frame behind its length.
pub proof fn law_payload_has_its_layout(m: MessageView)
    requires
        m.in_range(),
    ensures
        ({
            let p = m.payload();
            let kind = bytes::le_value(p.take(4));
            match m {
                MessageView::Handshake { version, width, height, fps } => {
                    &&& p.len() == 14 && kind == 0
                    &&& p[4] == version
                    &&& bytes::le_value(p.subrange(5, 9)) == width
                    &&& bytes::le_value(p.subrange(9, 13)) == height
                    &&& p[13] == fps
                },
                MessageView::VideoFrame { timestamp_ms, data } => {
                    &&& p.len() == 20 + data.len() && kind == 1
                    &&& bytes::le_value(p.subrange(4, 12)) == timestamp_ms
                    &&& bytes::le_value(p.subrange(12, 20)) == data.len()
                    &&& p.skip(20) == data
                },
                MessageView::MouseMove { x, y } => {
                    &&& p.len() == 12 && kind == 2
                    &&& bytes::le_value(p.subrange(4, 8)) == x.bits
                    &&& bytes::le_value(p.subrange(8, 12)) == y.bits
                },
                MessageView::MouseClick { button, pressed } => {
                    &&& p.len() == 6 && kind == 3
                    &&& p[4] == button
                    &&& p[5] == 1 <==> pressed
                    &&& p[5] == 0 <==> !pressed
                },
                MessageView::KeyEvent { keycode, pressed } => {
                    &&& p.len() == 9 && kind == 4
                    &&& bytes::le_value(p.subrange(4, 8)) == keycode
                    &&& p[8] == 1 <==> pressed
                    &&& p[8] == 0 <==> !pressed
                },
                MessageView::Disconnect => p.len() == 4 && kind == 5,
            }
        }),
{
    broadcast use crate::bytes::lemma_le_bytes_len;

    bytes::lemma_byte_ranges();
    lemma_payload_len(m);
    let p = m.payload();
    assert(p.take(4) =~= bytes::le_bytes(m.tag() as nat, 4));
    bytes::lemma_value_of_bytes(m.tag() as nat, 4);
    match m {
        MessageView::Handshake { width, height, .. } => {
            assert(p.subrange(5, 9) =~= bytes::le_bytes(width as nat, 4));
            assert(p.subrange(9, 13) =~= bytes::le_bytes(height as nat, 4));
            bytes::lemma_value_of_bytes(width as nat, 4);
            bytes::lemma_value_of_bytes(height as nat, 4);
        },
        MessageView::VideoFrame { timestamp_ms, data } => {
            assert(p.subrange(4, 12) =~= bytes::le_bytes(timestamp_ms as nat, 8));
            assert(p.subrange(12, 20) =~= bytes::le_bytes(data.len(), 8));
            bytes::lemma_value_of_bytes(timestamp_ms as nat, 8);
            bytes::lemma_value_of_bytes(data.len(), 8);
            assert(p.skip(20) =~= data);
        },
        MessageView::MouseMove { x, y } => {
            assert(p.subrange(4, 8) =~= bytes::le_bytes(x.bits as nat, 4));
            assert(p.subrange(8, 12) =~= bytes::le_bytes(y.bits as nat, 4));
            bytes::lemma_value_of_bytes(x.bits as nat, 4);
            bytes::lemma_value_of_bytes(y.bits as nat, 4);
        },
        MessageView::KeyEvent { keycode, .. } => {
            assert(p.subrange(4, 8) =~= bytes::le_bytes(keycode as nat, 4));
            bytes::lemma_value_of_bytes(keycode as nat, 4);
        },
        _ => {},
    }
}

/// On a stream a message is its payload behind the count of the payload's bytes, in four bytes
/// with the least significant first.
pub proof fn law_stream_has_the_length_first(m: MessageView)
    requires
        m.payload().len() < 0x1_0000_0000,
    ensures
        ({
            let s = m.framed();
            &&& s.len() == 4 + m.payload().len()
            &&& m.payload().len() == s[0] + 0x100 * s[1] + 0x1_0000 * s[2] + 0x100_0000 * s[3]
            &&& s.skip(4) == m.payload()
        }),
{
    broadcast use crate::bytes::lemma_le_bytes_len;

    bytes::law_four_bytes_of_a_number(m.payload().len());
    assert(m.framed().skip(4) =~= m.payload());
}

/// A stream that ends inside a message has no message: it is short of the length where fewer
/// than four bytes are there, and else of the payload, and all of it is used up.
pub proof fn law_cut_message_is_short(
    m: MessageView,
    n: int,
    outcome: Result<MessageView, ProtocolError>,
    used: nat,
)
    requires
        m.payload().len() <= 100_000_000,
        0 <= n < m.framed().len(),
        read_outcome(m.framed().take(n), outcome, used),
    ensures
        outcome == if n < 4 {
            Err::<MessageView, ProtocolError>(ProtocolError::ShortLength)
        } else {
            Err::<MessageView, ProtocolError>(ProtocolError::ShortPayload)
        },
        used == n,
{
    broadcast use crate::bytes::lemma_le_bytes_len;

    let len = m.payload().len();
    if n >= 4 {
        assert(m.framed().take(n).take(4) =~= bytes::le_bytes(len, 4));
        bytes::lemma_byte_ranges();
        bytes::lemma_value_of_bytes(len, 4);
    }
}

/// A stream with a length over the limit of a hundred million bytes is refused with that length,
/// whatever follows it, and only the length is used up. A length up to the limit never is.
pub proof fn law_long_messages_are_refused(
    rest: Seq<u8>,
    outcome: Result<MessageView, ProtocolError>,
    used: nat,
)
    requires
        rest.len() >= 4,
        read_outcome(rest, outcome, used),
    ensures
        ({
            let len = rest[0] + 0x100 * rest[1] + 0x1_0000 * rest[2] + 0x100_0000 * rest[3];
            &&& outcome matches Err(ProtocolError::TooLarge { len: told }) ==> told == len && used
                == 4
            &&& (outcome matches Err(e) && e is TooLarge) <==> len > 100_000_000
        }),
{
    bytes::law_value_of_four_bytes(rest.take(4));
}

/// A message in a payload that is longer than needed is read all the same, and all of the
/// payload is used up.
pub proof fn law_longer_payloads_are_read(
    m: MessageView,
    extra: Seq<u8>,
    tail: Seq<u8>,
    outcome: Result<MessageView, ProtocolError>,
    used: nat,
)
    requires
        m.in_range(),
        m.payload().len() + extra.len() <= 100_000_000,
        read_outcome(
            bytes::le_bytes(m.payload().len() + extra.len(), 4) + m.payload() + extra + tail,
            outcome,
            used,
        ),
    ensures
        outcome == Ok::<MessageView, ProtocolError>(m),
        used == 4 + m.payload().len() + extra.len(),
{
    broadcast use crate::bytes::lemma_le_bytes_len;

    let len = m.payload().len() + extra.len();
    let rest = bytes::le_bytes(len, 4) + m.payload() + extra + tail;
    assert(rest.take(4) =~= bytes::le_bytes(len, 4));
    bytes::lemma_byte_ranges();
    bytes::lemma_value_of_bytes(len, 4);
    let payload = rest.subrange(4, 4 + len as int);
    assert(payload =~= m.payload() + extra);
    assert(carries(payload, m));
    if let Ok(read) = outcome {
        law_payload_determines_message(payload, read, m);
    }
}

/// A payload that is too short for the number of a kind, or whose number no kind has, is no
/// message.
pub proof fn law_unknown_kinds_are_refused(
    payload: Seq<u8>,
    tail: Seq<u8>,
    outcome: Result<MessageView, ProtocolError>,
    used: nat,
)
    requires
        payload.len() <= 100_000_000,
        payload.len() < 4 || bytes::le_value(payload.take(4)) > 5,
        read_outcome(bytes::le_bytes(payload.len(), 4) + payload + tail, outcome, used),
    ensures
        outcome == Err::<MessageView, ProtocolError>(ProtocolError::Malformed),
        used == 4 + payload.len(),
{
    broadcast use crate::bytes::lemma_le_bytes_len;

    let len = payload.len();
    let rest = bytes::le_bytes(len, 4) + payload + tail;
    assert(rest.take(4) =~= bytes::le_bytes(len, 4));
    bytes::lemma_byte_ranges();
    bytes::lemma_value_of_bytes(len, 4);
    assert(rest.subrange(4, 4 + len as int) =~= payload);
    if let Ok(read) = outcome {
        lemma_payload_len(read);
        law_payload_has_its_layout(read);
        assert(payload.take(4) =~= read.payload().take(4));
    }
}

/// The length that a reader takes from four bytes is what they stand for, least significant
/// first, up to a hundred million, and over that an error with it.
pub proof fn law_lengths_are_read(prefix: [u8; 4], r: Result<usize, ProtocolError>)
    requires
        call_ensures(payload_len, (prefix,), r),
    ensures
        ({
            let len = prefix[0] + 0x100 * prefix[1] + 0x1_0000 * prefix[2] + 0x100_0000 * prefix[3];
            if len > 100_000_000 {
                r matches Err(e) && e matches ProtocolError::TooLarge { len: told } && told == len
            } else {
                r matches Ok(told) && told == len
            }
        }),
{
    bytes::law_value_of_four_bytes(prefix@);
}

/// The four bytes that announce a payload are those of its length, least significant first.
pub proof fn law_lengths_are_written(len: usize, prefix: [u8; 4])
    requires
        call_ensures(length_prefix, (len,), prefix),
        len <= u32::MAX,
    ensures
        len == prefix[0] + 0x100 * prefix[1] + 0x1_0000 * prefix[2] + 0x100_0000 * prefix[3],
{
    bytes::law_four_bytes_of_a_number(len as nat);
}

/// In words, a message is the name of its kind and, in braces, its fields with their names, in
/// order: numbers in decimal, flags as `true` and `false`, and the data of a frame in brackets.
pub proof fn law_words_tell_every_field(m: MessageView, place: Seq<char>)
    ensures
        m.words(place) == match m {
            MessageView::Handshake { version, width, height, fps } => "Handshake { version: "@ + (
            text::decimal(version as nat) + (", width: "@ + (text::decimal(width as nat) + (
            ", height: "@ + (text::decimal(height as nat) + (", fps: "@ + (text::decimal(
                fps as nat,
            ) + " }"@))))))),
            MessageView::VideoFrame { timestamp_ms, data } => "VideoFrame { timestamp_ms: "@ + (
            text::decimal(timestamp_ms as nat) + (", data: ["@ + (text::listed(data) + "] }"@))),
            MessageView::MouseMove { .. } => "MouseMove { "@ + (place + " }"@),
            MessageView::MouseClick { button, pressed } => "MouseClick { button: "@ + (
            text::decimal(button as nat) + (", pressed: "@ + (if pressed {
                "true"@
            } else {
                "false"@
            } + " }"@))),
            MessageView::KeyEvent { keycode, pressed } => "KeyEvent { keycode: "@ + (text::decimal(
                keycode as nat,
            ) + (", pressed: "@ + (if pressed {
                "true"@
            } else {
                "false"@
            } + " }"@))),
            MessageView::Disconnect => "Disconnect"@,
        },
{
    broadcast use vstd::seq_lib::group_seq_properties;

}

/// The words of a refused length end in that length in decimal and the word `bytes`, and no
/// error but that one has them.
pub proof fn law_refused_lengths_are_told(len: usize, e: ProtocolError)
    ensures
        (ProtocolError::TooLarge { len }).message() == "message too large: "@ + (text::decimal(
            len as nat,
        ) + " bytes"@),
        e is ShortLength ==> e.message() == "read length prefix"@,
        e is ShortPayload ==> e.message() == "read payload"@,
        e is Malformed ==> e.message() == "deserialize message"@,
{
    assert((ProtocolError::TooLarge { len }).message() =~= "message too large: "@ + (
    text::decimal(len as nat) + " bytes"@));
}

/// What is encoded of a message are its own fields, each at its place.
pub proof fn law_encoded_message_has_its_fields(msg: Message, payload: Vec<u8>)
    requires
        call_ensures(encode_message, (&msg,), payload),
    ensures
        ({
            let p = payload@;
            match msg {
                Message::Handshake { version, width, height, fps } => {
                    &&& p.len() == 14 && bytes::le_value(p.take(4)) == 0
                    &&& p[4] == version && p[13] == fps
                    &&& bytes::le_value(p.subrange(5, 9)) == width
                    &&& bytes::le_value(p.subrange(9, 13)) == height
                },
                Message::VideoFrame { timestamp_ms, data } => {
                    &&& p.len() == 20 + data@.len() && bytes::le_value(p.take(4)) == 1
                    &&& bytes::le_value(p.subrange(4, 12)) == timestamp_ms
                    &&& bytes::le_value(p.subrange(12, 20)) == data@.len()
                    &&& p.skip(20) == data@
                },
                Message::MouseMove { x, y } => {
                    &&& p.len() == 12 && bytes::le_value(p.take(4)) == 2
                    &&& bytes::le_value(p.subrange(4, 8)) == x.bits
                    &&& bytes::le_value(p.subrange(8, 12)) == y.bits
                },
                Message::MouseClick { button, pressed } => {
                    &&& p.len() == 6 && bytes::le_value(p.take(4)) == 3
                    &&& p[4] == button
                    &&& if pressed { p[5] == 1 } else { p[5] == 0 }
                },
                Message::KeyEvent { keycode, pressed } => {
                    &&& p.len() == 9 && bytes::le_value(p.take(4)) == 4
                    &&& bytes::le_value(p.subrange(4, 8)) == keycode
                    &&& if pressed { p[8] == 1 } else { p[8] == 0 }
                },
                Message::Disconnect => p.len() == 4 && bytes::le_value(p.take(4)) == 5,
            }
        }),
{
    if let Message::VideoFrame { data, .. } = msg {
        assert(data@.len() == data.len());
    }
    law_payload_has_its_layout(msg@);
}

/// What is decoded of a payload is what stands at the places of its kind, where the payload is
/// long enough for that, the kind is known and a flag is 0 or 1; bytes behind it do not matter.
/// Any other payload is no message.
pub proof fn law_decoded_message_has_its_fields(p: &[u8], r: Result<Message, ProtocolError>)
    requires
        call_ensures(decode_message, (p,), r),
    ensures
        ({
            let p = p@;
            let kind = bytes::le_value(p.take(4));
            let len = bytes::le_value(p.subrange(12, 20));
            if p.len() >= 14 && kind == 0 {
                r matches Ok(Message::Handshake { version, width, height, fps }) && version == p[4]
                    && width == bytes::le_value(p.subrange(5, 9)) && height == bytes::le_value(
                    p.subrange(9, 13),
                ) && fps == p[13]
            } else if p.len() >= 20 && kind == 1 && p.len() >= 20 + len {
                r matches Ok(Message::VideoFrame { timestamp_ms, data }) && timestamp_ms
                    == bytes::le_value(p.subrange(4, 12)) && data@ == p.subrange(
                    20,
                    20 + len as int,
                )
            } else if p.len() >= 12 && kind == 2 {
                r matches Ok(Message::MouseMove { x, y }) && x.bits == bytes::le_value(
                    p.subrange(4, 8),
                ) && y.bits == bytes::le_value(p.subrange(8, 12))
            } else if p.len() >= 6 && kind == 3 && p[5] <= 1 {
                r matches Ok(Message::MouseClick { button, pressed }) && button == p[4] && pressed
                    == (p[5] == 1)
            } else if p.len() >= 9 && kind == 4 && p[8] <= 1 {
                r matches Ok(Message::KeyEvent { keycode, pressed }) && keycode == bytes::le_value(
                    p.subrange(4, 8),
                ) && pressed == (p[8] == 1)
            } else if p.len() >= 4 && kind == 5 {
                r == Ok::<Message, ProtocolError>(Message::Disconnect)
            } else {
                r == Err::<Message, ProtocolError>(ProtocolError::Malformed)
            }
        }),
{
    let p = p@;
    match r {
        Ok(msg) => {
            lemma_carried_layout(p, msg@);
        },
        Err(_) => {
            lemma_written_message(p);
        },
    }
}

/// A message that bytes carry has its parts at their places in these.
proof fn lemma_carried_layout(p: Seq<u8>, m: MessageView)
    requires
        carries(p, m),
        m.in_range(),
    ensures
        ({
            let q = m.payload();
            &&& p.len() >= q.len() && q.len() >= 4
            &&& p.take(4) == q.take(4)
            &&& forall|i: int| 0 <= i < q.len() ==> #[trigger] p[i] == q[i]
            &&& forall|i: int, j: int|
                0 <= i <= j <= q.len() ==> #[trigger] p.subrange(i, j) == q.subrange(i, j)
            &&& match m {
                MessageView::Handshake { version, width, height, fps } => {
                    &&& p.len() >= 14 && bytes::le_value(p.take(4)) == 0
                    &&& p[4] == version && p[13] == fps
                    &&& bytes::le_value(p.subrange(5, 9)) == width
                    &&& bytes::le_value(p.subrange(9, 13)) == height
                },
                MessageView::VideoFrame { timestamp_ms, data } => {
                    &&& p.len() >= 20 + data.len() && bytes::le_value(p.take(4)) == 1
                    &&& bytes::le_value(p.subrange(4, 12)) == timestamp_ms
                    &&& bytes::le_value(p.subrange(12, 20)) == data.len()
                    &&& p.subrange(20, 20 + data.len() as int) == data
                },
                MessageView::MouseMove { x, y } => {
                    &&& p.len() >= 12 && bytes::le_value(p.take(4)) == 2
                    &&& bytes::le_value(p.subrange(4, 8)) == x.bits
                    &&& bytes::le_value(p.subrange(8, 12)) == y.bits
                },
                MessageView::MouseClick { button, pressed } => {
                    &&& p.len() >= 6 && bytes::le_value(p.take(4)) == 3
                    &&& p[4] == button
                    &&& p[5] <= 1 && pressed == (p[5] == 1)
                },
                MessageView::KeyEvent { keycode, pressed } => {
                    &&& p.len() >= 9 && bytes::le_value(p.take(4)) == 4
                    &&& bytes::le_value(p.subrange(4, 8)) == keycode
                    &&& p[8] <= 1 && pressed == (p[8] == 1)
                },
                MessageView::Disconnect => bytes::le_value(p.take(4)) == 5,
            }
        }),
{
    law_payload_has_its_layout(m);
    lemma_payload_len(m);
    let q = m.payload();
    assert(p.take(4) =~= q.take(4));
    assert forall|i: int, j: int| 0 <= i <= j <= q.len() implies #[trigger] p.subrange(i, j)
        == q.subrange(i, j) by {
        assert(p.subrange(i, j) =~= q.subrange(i, j));
    }
    if let MessageView::MouseClick { pressed, .. } = m {
        assert(q[5] == if pressed { 1u8 } else { 0u8 });
    }
    if let MessageView::KeyEvent { pressed, .. } = m {
        assert(q[8] == if pressed { 1u8 } else { 0u8 });
    }
    if let MessageView::VideoFrame { data, .. } = m {
        assert(q.skip(20) =~= q.subrange(20, 20 + data.len() as int));
    }
}

/// Bytes that have the parts of a message at their places carry it.
proof fn lemma_written_message(p: Seq<u8>)
    ensures
        ({
            let kind = bytes::le_value(p.take(4));
            let len = bytes::le_value(p.subrange(12, 20));
            ||| p.len() < 4
            ||| kind > 5
            ||| kind == 0 && p.len() < 14
            ||| kind == 1 && (p.len() < 20 || p.len() < 20 + len)
            ||| kind == 2 && p.len() < 12
            ||| kind == 3 && (p.len() < 6 || p[5] > 1)
            ||| kind == 4 && (p.len() < 9 || p[8] > 1)
            ||| holds_message(p)
        }),
{
    broadcast use crate::bytes::lemma_le_bytes_len;

    bytes::lemma_byte_ranges();
    let kind = bytes::le_value(p.take(4));
    if p.len() >= 4 {
        bytes::lemma_bytes_of_value(p.take(4));
        if kind == 0 && p.len() >= 14 {
            bytes::lemma_bytes_of_value(p.subrange(5, 9));
            bytes::lemma_bytes_of_value(p.subrange(9, 13));
            let m = MessageView::Handshake {
                version: p[4],
                width: bytes::le_value(p.subrange(5, 9)) as u32,
                height: bytes::le_value(p.subrange(9, 13)) as u32,
                fps: p[13],
            };
            assert(m.payload() =~= p.take(14));
            assert(carries(p, m));
        } else if kind == 1 && p.len() >= 20 {
            let len = bytes::le_value(p.subrange(12, 20));
            bytes::lemma_bytes_of_value(p.subrange(4, 12));
            bytes::lemma_bytes_of_value(p.subrange(12, 20));
            if p.len() >= 20 + len {
                let m = MessageView::VideoFrame {
                    timestamp_ms: bytes::le_value(p.subrange(4, 12)) as u64,
                    data: p.subrange(20, 20 + len as int),
                };
                assert(m.payload() =~= p.take(20 + len as int));
                assert(carries(p, m));
            }
        } else if kind == 2 && p.len() >= 12 {
            bytes::lemma_bytes_of_value(p.subrange(4, 8));
            bytes::lemma_bytes_of_value(p.subrange(8, 12));
            let m = MessageView::MouseMove {
                x: Coord { bits: bytes::le_value(p.subrange(4, 8)) as u32 },
                y: Coord { bits: bytes::le_value(p.subrange(8, 12)) as u32 },
            };
            assert(m.payload() =~= p.take(12));
            assert(carries(p, m));
        } else if kind == 3 && p.len() >= 6 && p[5] <= 1 {
            let m = MessageView::MouseClick { button: p[4], pressed: p[5] == 1 };
            assert(m.payload() =~= p.take(6));
            assert(carries(p, m));
        } else if kind == 4 && p.len() >= 9 && p[8] <= 1 {
            bytes::lemma_bytes_of_value(p.subrange(4, 8));
            let m = MessageView::KeyEvent {
                keycode: bytes::le_value(p.subrange(4, 8)) as u32,
                pressed: p[8] == 1,
            };
            assert(m.payload() =~= p.take(9));
            assert(carries(p, m));
        } else if kind == 5 {
            let m = MessageView::Disconnect;
            assert(m.payload() =~= p.take(4));
            assert(carries(p, m));
        }
    }
}

/// Every message that a reader's limit admits can be written.
pub proof fn law_readable_messages_can_be_written(msg: Message)
    requires
        msg@.payload().len() <= 100_000_000,
    ensures
        msg@.fits_in_memory(),
{
    lemma_payload_len(msg@);
}

/// Coordinates are equal where their bits are, unless these stand for no number, and zero equals
/// zero whatever its sign; no others are equal.
pub proof fn law_coordinates_compare_as_numbers(a: Coord, b: Coord)
    ensures
        ({
            use_eq(a, b) <==> {
                ||| a.bits == b.bits && a.bits % 0x8000_0000 <= 0x7F80_0000
                ||| a.bits % 0x8000_0000 == 0 && b.bits % 0x8000_0000 == 0
            }
        }),
        use_eq(a, b) == use_eq(b, a),
{
}

/// Whether `==` holds of two coordinates.
pub open spec fn use_eq(a: Coord, b: Coord) -> bool {
    vstd::std_specs::cmp::PartialEqSpec::eq_spec(&a, &b)
}

} // verus!
