use remotedesk::protocol::{
    can_encode, decode_message, encode_message, length_prefix, payload_len, read_message, write_message, Coord,
    Message, ProtocolError, MAX_PAYLOAD,
};
use serde::ser::{SerializeStructVariant, Serializer};
use serde::Serialize;

fn coord(value: f32) -> Coord {
    Coord { bits: value.to_bits() }
}

/// Writes a message to a stream and reads it back.
fn roundtrip(msg: &Message) -> Message {
    let mut stream: Vec<u8> = Vec::new();
    write_message(&mut stream, msg);
    let mut pos: usize = 0;
    let back = read_message(&stream, &mut pos).unwrap();
    assert_eq!(pos, stream.len());
    back
}

/// The same messages as an enum that serde walks the usual way.
enum Reference {
    Handshake { version: u8, width: u32, height: u32, fps: u8 },
    VideoFrame { timestamp_ms: u64, data: Vec<u8> },
    MouseMove { x: f32, y: f32 },
    MouseClick { button: u8, pressed: bool },
    KeyEvent { keycode: u32, pressed: bool },
    Disconnect,
}

impl Serialize for Reference {
    fn serialize<S: Serializer>(&self, s: S) -> Result<S::Ok, S::Error> {
        match self {
            Reference::Handshake { version, width, height, fps } => {
                let mut v = s.serialize_struct_variant("Message", 0, "Handshake", 4)?;
                v.serialize_field("version", version)?;
                v.serialize_field("width", width)?;
                v.serialize_field("height", height)?;
                v.serialize_field("fps", fps)?;
                v.end()
            }
            Reference::VideoFrame { timestamp_ms, data } => {
                let mut v = s.serialize_struct_variant("Message", 1, "VideoFrame", 2)?;
                v.serialize_field("timestamp_ms", timestamp_ms)?;
                v.serialize_field("data", data)?;
                v.end()
            }
            Reference::MouseMove { x, y } => {
                let mut v = s.serialize_struct_variant("Message", 2, "MouseMove", 2)?;
                v.serialize_field("x", x)?;
                v.serialize_field("y", y)?;
                v.end()
            }
            Reference::MouseClick { button, pressed } => {
                let mut v = s.serialize_struct_variant("Message", 3, "MouseClick", 2)?;
                v.serialize_field("button", button)?;
                v.serialize_field("pressed", pressed)?;
                v.end()
            }
            Reference::KeyEvent { keycode, pressed } => {
                let mut v = s.serialize_struct_variant("Message", 4, "KeyEvent", 2)?;
                v.serialize_field("keycode", keycode)?;
                v.serialize_field("pressed", pressed)?;
                v.end()
            }
            Reference::Disconnect => s.serialize_unit_variant("Message", 5, "Disconnect"),
        }
    }
}

#[test]
fn test_message_roundtrip_handshake() {
    let msg = Message::Handshake { version: 1, width: 1920, height: 1080, fps: 120 };
    let back = roundtrip(&msg);
    assert_eq!(msg, back);
}

#[test]
fn test_message_roundtrip_video_frame() {
    let msg = Message::VideoFrame { timestamp_ms: 12345, data: vec![0xAB; 1024] };
    let back = roundtrip(&msg);
    assert_eq!(msg, back);
}

#[test]
fn test_message_roundtrip_mouse_move() {
    let msg = Message::MouseMove { x: coord(0.5), y: coord(0.75) };
    let back = roundtrip(&msg);
    assert_eq!(msg, back);
}

#[test]
fn test_message_roundtrip_mouse_click() {
    let msg = Message::MouseClick { button: 1, pressed: true };
    let back = roundtrip(&msg);
    assert_eq!(msg, back);
}

#[test]
fn test_message_roundtrip_key_event() {
    let msg = Message::KeyEvent { keycode: 56, pressed: false };
    let back = roundtrip(&msg);
    assert_eq!(msg, back);
}

#[test]
fn test_message_roundtrip_disconnect() {
    let msg = Message::Disconnect;
    let back = roundtrip(&msg);
    assert_eq!(msg, back);
}

#[test]
fn test_framing_write_read() {
    // Writes two messages back-to-back, reads them in order.
    let msg1 = Message::Handshake { version: 1, width: 2560, height: 1440, fps: 60 };
    let msg2 = Message::VideoFrame { timestamp_ms: 0, data: vec![0xCD; 500] };

    let mut stream: Vec<u8> = Vec::with_capacity(64 * 1024);
    write_message(&mut stream, &msg1);
    write_message(&mut stream, &msg2);

    let mut pos: usize = 0;
    let a = read_message(&stream, &mut pos).unwrap();
    let b = read_message(&stream, &mut pos).unwrap();

    assert_eq!(msg1, a);
    assert_eq!(msg2, b);
    assert_eq!(pos, stream.len());
}

#[test]
fn test_large_frame() {
    // 500 KB frame should roundtrip correctly.
    let msg = Message::VideoFrame { timestamp_ms: 999, data: vec![0x7E; 500_000] };
    let back = roundtrip(&msg);
    assert_eq!(msg, back);
}

#[test]
fn test_bincode_direct_serialization() {
    // All variants without framing.
    let variants: Vec<Message> = vec![
        Message::Handshake { version: 1, width: 1920, height: 1080, fps: 120 },
        Message::VideoFrame { timestamp_ms: 1, data: vec![0; 100] },
        Message::MouseMove { x: coord(0.1), y: coord(0.9) },
        Message::MouseClick { button: 0, pressed: false },
        Message::KeyEvent { keycode: 42, pressed: true },
        Message::Disconnect,
    ];

    for original in variants {
        assert!(can_encode(&original));
        let bytes = encode_message(&original);
        let restored: Message = decode_message(&bytes).unwrap();
        assert_eq!(original, restored);
    }
}

#[test]
fn payloads_are_what_bincode_makes_of_the_enum() {
    let pairs: Vec<(Message, Reference)> = vec![
        (
            Message::Handshake { version: 1, width: 2560, height: 1440, fps: 60 },
            Reference::Handshake { version: 1, width: 2560, height: 1440, fps: 60 },
        ),
        (
            Message::VideoFrame { timestamp_ms: 0x0102_0304_0506_0708, data: vec![9, 8, 7] },
            Reference::VideoFrame { timestamp_ms: 0x0102_0304_0506_0708, data: vec![9, 8, 7] },
        ),
        (
            Message::MouseMove { x: coord(0.25), y: coord(-3.5) },
            Reference::MouseMove { x: 0.25, y: -3.5 },
        ),
        (
            Message::MouseClick { button: 2, pressed: true },
            Reference::MouseClick { button: 2, pressed: true },
        ),
        (
            Message::KeyEvent { keycode: 0xDEAD_BEEF, pressed: false },
            Reference::KeyEvent { keycode: 0xDEAD_BEEF, pressed: false },
        ),
        (Message::Disconnect, Reference::Disconnect),
    ];
    for (msg, reference) in pairs {
        let expected = bincode::serialize(&reference).unwrap();
        assert_eq!(encode_message(&msg), expected);
        assert_eq!(decode_message(&expected), Ok(msg));
    }
}

#[test]
fn payloads_have_these_bytes() {
    assert_eq!(
        encode_message(&Message::Handshake { version: 1, width: 258, height: 3, fps: 120 }),
        vec![0, 0, 0, 0, 1, 2, 1, 0, 0, 3, 0, 0, 0, 120]
    );
    assert_eq!(
        encode_message(&Message::VideoFrame { timestamp_ms: 5, data: vec![7, 6] }),
        vec![1, 0, 0, 0, 5, 0, 0, 0, 0, 0, 0, 0, 2, 0, 0, 0, 0, 0, 0, 0, 7, 6]
    );
    assert_eq!(
        encode_message(&Message::MouseMove { x: coord(0.5), y: coord(1.0) }),
        vec![2, 0, 0, 0, 0, 0, 0, 0x3F, 0, 0, 0x80, 0x3F]
    );
    assert_eq!(
        encode_message(&Message::MouseClick { button: 1, pressed: true }),
        vec![3, 0, 0, 0, 1, 1]
    );
    assert_eq!(
        encode_message(&Message::KeyEvent { keycode: 65, pressed: false }),
        vec![4, 0, 0, 0, 65, 0, 0, 0, 0]
    );
    assert_eq!(encode_message(&Message::Disconnect), vec![5, 0, 0, 0]);
}

#[test]
fn a_frame_of_the_stream_is_the_length_and_the_payload() {
    let mut stream: Vec<u8> = vec![99];
    write_message(&mut stream, &Message::MouseClick { button: 0, pressed: false });
    assert_eq!(stream, vec![99, 6, 0, 0, 0, 3, 0, 0, 0, 0, 0]);
    assert_eq!(length_prefix(0x0102_0304), [4, 3, 2, 1]);
}

#[test]
fn bytes_behind_a_message_are_ignored() {
    assert_eq!(decode_message(&[5, 0, 0, 0, 1, 2, 3]), Ok(Message::Disconnect));
    let stream: Vec<u8> = vec![6, 0, 0, 0, 5, 0, 0, 0, 1, 2, 77];
    let mut pos: usize = 0;
    assert_eq!(read_message(&stream, &mut pos), Ok(Message::Disconnect));
    assert_eq!(pos, 10);
}

#[test]
fn malformed_payloads_are_refused() {
    // No tag, an unknown tag, a missing field, a flag that is none, a length that is too long.
    for bytes in [
        vec![],
        vec![0, 0, 0],
        vec![6, 0, 0, 0],
        vec![0, 0, 0, 0, 1, 2],
        vec![2, 0, 0, 0, 0, 0, 0, 0, 1],
        vec![3, 0, 0, 0, 1, 2],
        vec![4, 0, 0, 0, 1, 0, 0, 0, 9],
        vec![1, 0, 0, 0, 5, 0, 0, 0, 0, 0, 0, 0, 3, 0, 0, 0, 0, 0, 0, 0, 7, 6],
        vec![1, 0, 0, 0, 5, 0, 0, 0, 0, 0, 0, 0, 255, 255, 255, 255, 255, 255, 255, 255, 7, 6],
    ] {
        assert_eq!(decode_message(&bytes), Err(ProtocolError::Malformed));
    }
    let stream: Vec<u8> = vec![4, 0, 0, 0, 9, 0, 0, 0, 77];
    let mut pos: usize = 0;
    assert_eq!(read_message(&stream, &mut pos), Err(ProtocolError::Malformed));
    assert_eq!(pos, 8);
}

#[test]
fn truncated_streams_are_refused() {
    let mut pos: usize = 0;
    assert_eq!(read_message(&[], &mut pos), Err(ProtocolError::ShortLength));
    assert_eq!(pos, 0);
    assert_eq!(read_message(&[4, 0, 0], &mut pos), Err(ProtocolError::ShortLength));
    assert_eq!(pos, 3);
    pos = 0;
    assert_eq!(read_message(&[4, 0, 0, 0, 5, 0], &mut pos), Err(ProtocolError::ShortPayload));
    assert_eq!(pos, 6);
}

#[test]
fn oversized_messages_are_refused() {
    assert_eq!(payload_len(length_prefix(MAX_PAYLOAD)), Ok(100_000_000));
    assert_eq!(
        payload_len(length_prefix(100_000_001)),
        Err(ProtocolError::TooLarge { len: 100_000_001 })
    );
    let mut stream: Vec<u8> = length_prefix(100_000_001).to_vec();
    stream.push(5);
    let mut pos: usize = 0;
    assert_eq!(
        read_message(&stream, &mut pos),
        Err(ProtocolError::TooLarge { len: 100_000_001 })
    );
    assert_eq!(pos, 4);
}

#[test]
fn errors_are_reported_in_words() {
    assert_eq!(ProtocolError::ShortLength.describe(), "read length prefix");
    assert_eq!(
        ProtocolError::TooLarge { len: 100_000_001 }.describe(),
        "message too large: 100000001 bytes"
    );
    assert_eq!(ProtocolError::ShortPayload.describe(), "read payload");
    assert_eq!(ProtocolError::Malformed.describe(), "deserialize message");
}

#[test]
fn coordinates_compare_as_numbers() {
    let values = [0.0, -0.0, 0.5, -0.5, 1.0, f32::MIN_POSITIVE, f32::INFINITY, f32::NAN, -f32::NAN];
    for a in values {
        for b in values {
            assert_eq!(coord(a) == coord(b), a == b, "{a} {b}");
        }
    }
}
