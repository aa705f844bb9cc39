//! The decoder of the client: how it is set up, and what becomes of each packet.
//!
//! The codec and the scaler are the decoding library's. Whoever holds them performs the actions
//! and hands the results to the rules as the next events.

use vstd::prelude::*;

verus! {

/// A step of setting up a decoder.
#[derive(Debug, Clone, Copy, PartialEq, Eq, Structural)]
pub enum DecoderStep {
    /// Find the decoder by its name.
    Find,
    /// Open the decoder.
    Open,
    /// Give the decoder the resolution and the pixel format.
    Configure,
    /// Create the scaler to RGBA of the same size.
    CreateScaler,
}

/// What setting up a decoder does next.
#[derive(Debug, Clone, Copy, PartialEq, Eq, Structural)]
pub enum DecoderAction {
    /// Take this step.
    Take(DecoderStep),
    /// The decoder can be used.
    Ready,
    /// This step failed.
    Fail(DecoderStep),
}

impl DecoderStep {
    /// What follows the step, which succeeded or not.
    pub fn next(&self, done: bool) -> (action: DecoderAction)
        ensures
            action == if !done {
                DecoderAction::Fail(*self)
            } else {
                match self {
                    DecoderStep::Find => DecoderAction::Take(DecoderStep::Open),
                    DecoderStep::Open => DecoderAction::Take(DecoderStep::Configure),
                    DecoderStep::Configure => DecoderAction::Take(DecoderStep::CreateScaler),
                    DecoderStep::CreateScaler => DecoderAction::Ready,
                }
            },
    {
        if !done {
            return DecoderAction::Fail(*self);
        }
        match self {
            DecoderStep::Find => DecoderAction::Take(DecoderStep::Open),
            DecoderStep::Open => DecoderAction::Take(DecoderStep::Configure),
            DecoderStep::Configure => DecoderAction::Take(DecoderStep::CreateScaler),
            DecoderStep::CreateScaler => DecoderAction::Ready,
        }
    }

    /// What an error of the step is reported as, or `None` where the decoding library's own
    /// words are.
    pub fn context(&self, codec_name: &str) -> (r: Option<String>)
        ensures
            match self {
                DecoderStep::Find => r is Some && r->Some_0@ == "find "@ + codec_name@
                    + " decoder"@,
                DecoderStep::Open => r is Some && r->Some_0@ == "open decoder"@,
                DecoderStep::Configure => r is None,
                DecoderStep::CreateScaler => r is Some && r->Some_0@ == "create scaler"@,
            },
    {
        let mut out = String::new();
        match self {
            DecoderStep::Find => {
                out.append("find ");
                out.append(codec_name);
                out.append(" decoder");
                assert(out@ =~= "find "@ + codec_name@ + " decoder"@);
            },
            DecoderStep::Open => {
                out.append("open decoder");
                assert(out@ =~= "open decoder"@);
            },
            DecoderStep::Configure => {
                return None;
            },
            DecoderStep::CreateScaler => {
                out.append("create scaler");
                assert(out@ =~= "create scaler"@);
            },
        }
        Some(out)
    }
}

/// A decoder for frames of one size.
#[derive(Debug, Clone, Copy, PartialEq, Eq, Structural)]
pub struct VideoDecoder {
    pub width: u32,
    pub height: u32,
}

/// What happened to a packet.
pub enum DecodeEvent {
    /// The packet was sent to the decoder, or could not be.
    Sent { sent: bool },
    /// The decoder returned a frame.
    Decoded,
    /// The decoder needs more input before it returns a frame.
    Again,
    /// The decoder failed.
    ReceiveFailed,
    /// The frame was scaled to these RGBA pixels, or could not be.
    Scaled(Option<Vec<u8>>),
}

/// What becomes of a packet next.
pub enum DecodeAction {
    /// Ask the decoder for a frame.
    Receive,
    /// Scale the frame to RGBA.
    Scale,
    /// Return the pixels of a frame, or none where the decoder needs more input.
    Return(Option<Vec<u8>>),
    /// Give up with this error.
    Fail(DecodeError),
}

/// Why a packet was not decoded.
#[derive(Debug, Clone, Copy, PartialEq, Eq, Structural)]
pub enum DecodeError {
    SendPacket,
    ReceiveFrame,
    Scale,
}

impl DecodeError {
    /// What the error is reported as, or `None` where the decoding library's own words are.
    pub fn context(&self) -> (r: Option<&'static str>)
        ensures
            match self {
                DecodeError::SendPacket => r is Some && r->Some_0@ == "send packet"@,
                DecodeError::ReceiveFrame => r is Some && r->Some_0@ == "receive frame"@,
                DecodeError::Scale => r is None,
            },
    {
        match self {
            DecodeError::SendPacket => Some("send packet"),
            DecodeError::ReceiveFrame => Some("receive frame"),
            DecodeError::Scale => None,
        }
    }
}

impl VideoDecoder {
    /// A decoder for frames of this size. The first step of setting it up is to find the
    /// decoder.
    pub fn new(width: u32, height: u32) -> (r: (VideoDecoder, DecoderAction))
        ensures
            r.0 == (VideoDecoder { width, height }),
            r.1 == DecoderAction::Take(DecoderStep::Find),
    {
        (VideoDecoder { width, height }, DecoderAction::Take(DecoderStep::Find))
    }

    /// What becomes of a packet behind `event`. The first action is to send it to the decoder.
    pub fn decode(&self, event: DecodeEvent) -> (action: DecodeAction)
        ensures
            action == match event {
                DecodeEvent::Sent { sent } => if sent {
                    DecodeAction::Receive
                } else {
                    DecodeAction::Fail(DecodeError::SendPacket)
                },
                DecodeEvent::Decoded => DecodeAction::Scale,
                DecodeEvent::Again => DecodeAction::Return(None),
                DecodeEvent::ReceiveFailed => DecodeAction::Fail(DecodeError::ReceiveFrame),
                DecodeEvent::Scaled(pixels) => if pixels is Some {
                    DecodeAction::Return(pixels)
                } else {
                    DecodeAction::Fail(DecodeError::Scale)
                },
            },
    {
        match event {
            DecodeEvent::Sent { sent } => if sent {
                DecodeAction::Receive
            } else {
                DecodeAction::Fail(DecodeError::SendPacket)
            },
            DecodeEvent::Decoded => DecodeAction::Scale,
            DecodeEvent::Again => DecodeAction::Return(None),
            DecodeEvent::ReceiveFailed => DecodeAction::Fail(DecodeError::ReceiveFrame),
            DecodeEvent::Scaled(pixels) => match pixels {
                Some(rgba) => DecodeAction::Return(Some(rgba)),
                None => DecodeAction::Fail(DecodeError::Scale),
            },
        }
    }

    pub fn width(&self) -> (r: u32)
        ensures
            r == self.width,
    {
        self.width
    }

    pub fn height(&self) -> (r: u32)
        ensures
            r == self.height,
    {
        self.height
    }
}

/// A decoder is set up by finding it, opening it, configuring it and creating the scaler, each
/// step exactly behind the one before it, and is ready exactly behind the last; the first step
/// that fails is reported.
pub proof fn law_decoder_is_set_up_in_order(step: DecoderStep, done: bool, action: DecoderAction)
    requires
        call_ensures(DecoderStep::next, (&step, done), action),
    ensures
        action matches DecoderAction::Fail(failed) ==> !done && failed == step,
        !done ==> action is Fail,
        action is Ready <==> done && step is CreateScaler,
        action matches DecoderAction::Take(next) ==> done && !(next is Find) && (next is Open <==>
            step is Find) && (next is Configure <==> step is Open) && (next is CreateScaler <==>
            step is Configure),
{
}

/// A packet that was sent is asked a frame for, a frame is scaled, and what the caller gets are
/// exactly the scaled pixels, or nothing where the decoder needs more input. Each failure is
/// reported as what it is.
pub proof fn law_packet_becomes_its_pixels(
    decoder: VideoDecoder,
    event: DecodeEvent,
    action: DecodeAction,
)
    requires
        call_ensures(VideoDecoder::decode, (&decoder, event), action),
    ensures
        action is Receive <==> event == (DecodeEvent::Sent { sent: true }),
        action is Scale <==> event is Decoded,
        action == DecodeAction::Return(None) <==> event is Again,
        event matches DecodeEvent::Scaled(Some(pixels)) ==> action == DecodeAction::Return(
            Some(pixels),
        ),
        action matches DecodeAction::Return(Some(pixels)) ==> event == DecodeEvent::Scaled(
            Some(pixels),
        ),
        action == DecodeAction::Fail(DecodeError::SendPacket) <==> event == (DecodeEvent::Sent {
            sent: false,
        }),
        action == DecodeAction::Fail(DecodeError::ReceiveFrame) <==> event is ReceiveFailed,
        action == DecodeAction::Fail(DecodeError::Scale) <==> event == DecodeEvent::Scaled(None),
{
}

} // verus!
