//! The payloads of the wire format, as bincode lays them out: the values of a tuple one
//! after the other, integers little-endian at their full width, a `bool` as one byte
//! `0` or `1`, and a sequence of bytes behind its length as a `u64`.

use vstd::prelude::*;

use crate::bytes;

verus! {

/// What bincode reports when it cannot read a value.
#[verifier::external_type_specification]
#[verifier::external_body]
pub struct ExErrorKind(bincode::ErrorKind);

/// A tag on its own.
pub open spec fn tag_image(tag: u32) -> Seq<u8> {
    bytes::le_bytes(tag as nat, 4)
}

/// A tag and the fields of a handshake.
pub open spec fn handshake_image(tag: u32, version: u8, width: u32, height: u32, fps: u8) -> Seq<
    u8,
> {
    bytes::le_bytes(tag as nat, 4) + seq![version] + bytes::le_bytes(width as nat, 4)
        + bytes::le_bytes(height as nat, 4) + seq![fps]
}

/// A tag, a timestamp and a sequence of bytes.
pub open spec fn frame_image(tag: u32, timestamp_ms: u64, data: Seq<u8>) -> Seq<u8> {
    bytes::le_bytes(tag as nat, 4) + bytes::le_bytes(timestamp_ms as nat, 8) + bytes::le_bytes(
        data.len(),
        8,
    ) + data
}

/// A tag and a pair of `u32` values.
pub open spec fn point_image(tag: u32, x: u32, y: u32) -> Seq<u8> {
    bytes::le_bytes(tag as nat, 4) + bytes::le_bytes(x as nat, 4) + bytes::le_bytes(y as nat, 4)
}

/// A tag, a byte and a flag.
pub open spec fn button_image(tag: u32, button: u8, pressed: bool) -> Seq<u8> {
    bytes::le_bytes(tag as nat, 4) + seq![button] + seq![if pressed { 1u8 } else { 0u8 }]
}

/// A tag, a `u32` and a flag.
pub open spec fn key_image(tag: u32, keycode: u32, pressed: bool) -> Seq<u8> {
    bytes::le_bytes(tag as nat, 4) + bytes::le_bytes(keycode as nat, 4) + seq![
        if pressed { 1u8 } else { 0u8 },
    ]
}

/// `bincode::serialize` of a `u32`: it succeeds, with the four bytes of the number.
#[verifier::external_body]
pub(crate) fn serialize_tag(tag: u32) -> (r: Result<Vec<u8>, bincode::Error>)
    ensures
        r is Ok,
        r->Ok_0@ == tag_image(tag),
{
    bincode::serialize(&tag)
}

/// `bincode::serialize` of a tuple: it succeeds, with the values' bytes in order.
#[verifier::external_body]
pub(crate) fn serialize_handshake(tag: u32, version: u8, width: u32, height: u32, fps: u8) -> (r:
    Result<Vec<u8>, bincode::Error>)
    ensures
        r is Ok,
        r->Ok_0@ == handshake_image(tag, version, width, height, fps),
{
    bincode::serialize(&(tag, version, width, height, fps))
}

/// `bincode::serialize` of a tuple with a byte slice: it succeeds, with the values' bytes
/// in order and the slice behind its length. It allocates the whole result at once, so the
/// result has to fit in a `Vec`.
#[verifier::external_body]
pub(crate) fn serialize_frame(tag: u32, timestamp_ms: u64, data: &[u8]) -> (r: Result<
    Vec<u8>,
    bincode::Error,
>)
    requires
        data@.len() + 20 <= isize::MAX,
    ensures
        r is Ok,
        r->Ok_0@ == frame_image(tag, timestamp_ms, data@),
{
    bincode::serialize(&(tag, timestamp_ms, data))
}

/// `bincode::serialize` of a tuple: it succeeds, with the values' bytes in order.
#[verifier::external_body]
pub(crate) fn serialize_point(tag: u32, x: u32, y: u32) -> (r: Result<Vec<u8>, bincode::Error>)
    ensures
        r is Ok,
        r->Ok_0@ == point_image(tag, x, y),
{
    bincode::serialize(&(tag, x, y))
}

/// `bincode::serialize` of a tuple: it succeeds, with the values' bytes in order.
#[verifier::external_body]
pub(crate) fn serialize_button(tag: u32, button: u8, pressed: bool) -> (r: Result<
    Vec<u8>,
    bincode::Error,
>)
    ensures
        r is Ok,
        r->Ok_0@ == button_image(tag, button, pressed),
{
    bincode::serialize(&(tag, button, pressed))
}

/// `bincode::serialize` of a tuple: it succeeds, with the values' bytes in order.
#[verifier::external_body]
pub(crate) fn serialize_key(tag: u32, keycode: u32, pressed: bool) -> (r: Result<
    Vec<u8>,
    bincode::Error,
>)
    ensures
        r is Ok,
        r->Ok_0@ == key_image(tag, keycode, pressed),
{
    bincode::serialize(&(tag, keycode, pressed))
}

/// `bincode::deserialize` to a `u32`: the number whose bytes stand at the front of `bytes`,
/// whatever follows them, or an error where there is none.
#[verifier::external_body]
pub(crate) fn deserialize_tag(bytes: &[u8]) -> (r: Result<u32, bincode::Error>)
    ensures
        match r {
            Ok(tag) => tag_image(tag).is_prefix_of(bytes@),
            Err(_) => forall|tag: u32| !(#[trigger] tag_image(tag)).is_prefix_of(bytes@),
        },
{
    bincode::deserialize(bytes)
}

/// `bincode::deserialize` to a tuple: the values whose bytes stand at the front of `bytes`,
/// whatever follows them, or an error where there are none.
#[verifier::external_body]
pub(crate) fn deserialize_handshake(bytes: &[u8]) -> (r: Result<
    (u32, u8, u32, u32, u8),
    bincode::Error,
>)
    ensures
        match r {
            Ok(v) => handshake_image(v.0, v.1, v.2, v.3, v.4).is_prefix_of(bytes@),
            Err(_) => forall|tag: u32, version: u8, width: u32, height: u32, fps: u8|
                !(#[trigger] handshake_image(tag, version, width, height, fps)).is_prefix_of(
                    bytes@,
                ),
        },
{
    bincode::deserialize(bytes)
}

/// `bincode::deserialize` to a tuple with a byte vector: the values whose bytes stand at the
/// front of `bytes`, whatever follows them, or an error where there are none.
#[verifier::external_body]
pub(crate) fn deserialize_frame(bytes: &[u8]) -> (r: Result<(u32, u64, Vec<u8>), bincode::Error>)
    ensures
        match r {
            Ok(v) => frame_image(v.0, v.1, v.2@).is_prefix_of(bytes@),
            Err(_) => forall|tag: u32, timestamp_ms: u64, data: Seq<u8>|
                !(#[trigger] frame_image(tag, timestamp_ms, data)).is_prefix_of(bytes@),
        },
{
    bincode::deserialize(bytes)
}

/// `bincode::deserialize` to a tuple: the values whose bytes stand at the front of `bytes`,
/// whatever follows them, or an error where there are none.
#[verifier::external_body]
pub(crate) fn deserialize_point(bytes: &[u8]) -> (r: Result<(u32, u32, u32), bincode::Error>)
    ensures
        match r {
            Ok(v) => point_image(v.0, v.1, v.2).is_prefix_of(bytes@),
            Err(_) => forall|tag: u32, x: u32, y: u32|
                !(#[trigger] point_image(tag, x, y)).is_prefix_of(bytes@),
        },
{
    bincode::deserialize(bytes)
}

/// `bincode::deserialize` to a tuple: the values whose bytes stand at the front of `bytes`,
/// whatever follows them, or an error where there are none. A flag byte other than `0`
/// and `1` stands for no value.
#[verifier::external_body]
pub(crate) fn deserialize_button(bytes: &[u8]) -> (r: Result<(u32, u8, bool), bincode::Error>)
    ensures
        match r {
            Ok(v) => button_image(v.0, v.1, v.2).is_prefix_of(bytes@),
            Err(_) => forall|tag: u32, button: u8, pressed: bool|
                !(#[trigger] button_image(tag, button, pressed)).is_prefix_of(bytes@),
        },
{
    bincode::deserialize(bytes)
}

/// `bincode::deserialize` to a tuple: the values whose bytes stand at the front of `bytes`,
/// whatever follows them, or an error where there are none. A flag byte other than `0`
/// and `1` stands for no value.
#[verifier::external_body]
pub(crate) fn deserialize_key(bytes: &[u8]) -> (r: Result<(u32, u32, bool), bincode::Error>)
    ensures
        match r {
            Ok(v) => key_image(v.0, v.1, v.2).is_prefix_of(bytes@),
            Err(_) => forall|tag: u32, keycode: u32, pressed: bool|
                !(#[trigger] key_image(tag, keycode, pressed)).is_prefix_of(bytes@),
        },
{
    bincode::deserialize(bytes)
}

} // verus!
