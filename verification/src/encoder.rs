//! The screen encoder of the server: how a compression session is set up, how frames are
//! numbered and fed to it, and how its output is collected.
//!
//! The session and its pixel buffers belong to the system. Whoever holds them performs the
//! actions and hands the results to the rules as the next events.

use std::collections::VecDeque;

use vstd::prelude::*;

use crate::pixels::RowCopy;
use crate::text;

verus! {

/// The pixel format of captured frames, `BGRA`.
pub const PIXEL_FORMAT_BGRA: u32 = 0x4247_5241;

/// H.264, `h264`.
pub const CODEC_H264: u32 = 0x6832_3634;

/// HEVC, `hvc1`.
pub const CODEC_HEVC: u32 = 0x6876_6331;

/// A point in time or a duration: `value` units, of which `timescale` make a second.
#[derive(Debug, Clone, Copy, PartialEq, Eq, Structural)]
pub struct CMTime {
    pub value: i64,
    pub timescale: i32,
    pub flags: u32,
    pub epoch: i64,
}

impl CMTime {
    /// A time that is marked as valid.
    pub fn valid(value: i64, timescale: i32) -> (r: CMTime)
        ensures
            r == (CMTime { value, timescale, flags: 1, epoch: 0 }),
    {
        CMTime { value, timescale, flags: 1, epoch: 0 }
    }
}

// ---------------------------------------------------------------------------
// Properties of a session
// ---------------------------------------------------------------------------

/// A property of a compression session.
#[derive(Debug, Clone, Copy, PartialEq, Eq, Structural)]
pub enum Property {
    RealTime,
    ProfileLevel,
    AverageBitRate,
    MaxKeyFrameInterval,
    AllowFrameReordering,
}

/// The value of a property.
#[derive(Debug, Clone, Copy, PartialEq)]
pub enum PropertyValue {
    Bool(bool),
    Int(i32),
    Text(&'static str),
}

impl Property {
    /// The name that the system knows the property by.
    pub open spec fn key_text(self) -> Seq<char> {
        match self {
            Property::RealTime => "RealTime"@,
            Property::ProfileLevel => "ProfileLevel"@,
            Property::AverageBitRate => "AverageBitRate"@,
            Property::MaxKeyFrameInterval => "MaxKeyFrameInterval"@,
            Property::AllowFrameReordering => "AllowFrameReordering"@,
        }
    }

    /// The name that the system knows the property by.
    pub fn key(&self) -> (r: &'static str)
        ensures
            r@ == self.key_text(),
    {
        match self {
            Property::RealTime => "RealTime",
            Property::ProfileLevel => "ProfileLevel",
            Property::AverageBitRate => "AverageBitRate",
            Property::MaxKeyFrameInterval => "MaxKeyFrameInterval",
            Property::AllowFrameReordering => "AllowFrameReordering",
        }
    }

    /// The value that the property gets.
    pub fn value(&self) -> (r: PropertyValue)
        ensures
            match self {
                Property::RealTime => r == PropertyValue::Bool(true),
                Property::ProfileLevel => r is Text && r->Text_0@ == "BaselineAutoLevel"@,
                Property::AverageBitRate => r == PropertyValue::Int(20_000_000),
                Property::MaxKeyFrameInterval => r == PropertyValue::Int(120),
                Property::AllowFrameReordering => r == PropertyValue::Bool(false),
            },
    {
        match self {
            Property::RealTime => PropertyValue::Bool(true),
            Property::ProfileLevel => PropertyValue::Text("BaselineAutoLevel"),
            Property::AverageBitRate => PropertyValue::Int(20_000_000),
            Property::MaxKeyFrameInterval => PropertyValue::Int(120),
            Property::AllowFrameReordering => PropertyValue::Bool(false),
        }
    }
}

/// The properties that a session gets, in order. Only H.264 has a profile level.
pub open spec fn properties(codec_type: u32) -> Seq<Property> {
    if codec_type == CODEC_H264 {
        seq![
            Property::RealTime,
            Property::ProfileLevel,
            Property::AverageBitRate,
            Property::MaxKeyFrameInterval,
            Property::AllowFrameReordering,
        ]
    } else {
        seq![
            Property::RealTime,
            Property::AverageBitRate,
            Property::MaxKeyFrameInterval,
            Property::AllowFrameReordering,
        ]
    }
}

/// The properties that a session gets, in order.
fn property_list(codec_type: u32) -> (r: Vec<Property>)
    ensures
        r@ == properties(codec_type),
{
    let mut r: Vec<Property> = Vec::new();
    r.push(Property::RealTime);
    if codec_type == CODEC_H264 {
        r.push(Property::ProfileLevel);
    }
    r.push(Property::AverageBitRate);
    r.push(Property::MaxKeyFrameInterval);
    r.push(Property::AllowFrameReordering);
    assert(r@ =~= properties(codec_type));
    r
}

// ---------------------------------------------------------------------------
// Errors
// ---------------------------------------------------------------------------

/// Why the system refused a step, with the status that it returned.
#[derive(Debug, Clone, Copy, PartialEq, Eq, Structural)]
pub enum EncoderError {
    CreateSession { status: i32 },
    SetProperty { property: Property, status: i32 },
    CreateBuffer { status: i32 },
    LockBuffer { status: i32 },
    EncodeFrame { status: i32 },
}

impl EncoderError {
    /// The error in words.
    pub open spec fn message(self) -> Seq<char> {
        match self {
            EncoderError::CreateSession { status } => "VTCompressionSessionCreate failed: status="@
                + text::signed_decimal(status as int),
            EncoderError::SetProperty { property, status } => "VTSessionSetProperty("@
                + property.key_text() + ") failed: status="@ + text::signed_decimal(status as int),
            EncoderError::CreateBuffer { status } => "CVPixelBufferCreate failed: status="@
                + text::signed_decimal(status as int),
            EncoderError::LockBuffer { status } => "CVPixelBufferLockBaseAddress failed: status="@
                + text::signed_decimal(status as int),
            EncoderError::EncodeFrame { status } =>
                "VTCompressionSessionEncodeFrame failed: status="@ + text::signed_decimal(
                status as int,
            ),
        }
    }

    /// The error in words.
    pub fn describe(&self) -> (r: String)
        ensures
            r@ == self.message(),
    {
        let mut out = String::new();
        let status: i32 = match self {
            EncoderError::CreateSession { status } => {
                out.append("VTCompressionSessionCreate failed: status=");
                *status
            },
            EncoderError::SetProperty { property, status } => {
                out.append("VTSessionSetProperty(");
                out.append(property.key());
                out.append(") failed: status=");
                *status
            },
            EncoderError::CreateBuffer { status } => {
                out.append("CVPixelBufferCreate failed: status=");
                *status
            },
            EncoderError::LockBuffer { status } => {
                out.append("CVPixelBufferLockBaseAddress failed: status=");
                *status
            },
            EncoderError::EncodeFrame { status } => {
                out.append("VTCompressionSessionEncodeFrame failed: status=");
                *status
            },
        };
        text::push_signed(&mut out, status);
        assert(out@ =~= self.message());
        out
    }
}

// ---------------------------------------------------------------------------
// Setting up a session
// ---------------------------------------------------------------------------

/// The session that the system is asked for.
#[derive(Debug, Clone, Copy, PartialEq, Eq, Structural)]
pub struct Session {
    pub width: i32,
    pub height: i32,
    pub codec_type: u32,
}

/// How far setting up an encoder got.
#[derive(Debug, Clone, Copy, PartialEq, Eq, Structural)]
pub struct EncoderSetup {
    pub width: u32,
    pub height: u32,
    /// The codec of the session that is being set up.
    pub codec_type: u32,
    /// Whether HEVC is left to try where this codec fails.
    pub fallback: bool,
    /// How many properties of the session are set.
    pub done: usize,
}

/// What happened to the session.
pub enum SetupEvent {
    /// The system returned a status, and a session or none.
    Created { status: i32, session: bool },
    /// The system returned a status for a property.
    PropertySet { status: i32 },
}

/// What setting up an encoder does next.
pub enum SetupAction {
    /// Create a session.
    Create(Session),
    /// Set this property to its value.
    SetProperty(Property),
    /// Give up the session, which failed with `error`, and create this one.
    FallBack { error: EncoderError, session: Session },
    /// The encoder can be used.
    Ready,
    /// Give up with this error.
    Fail(EncoderError),
}

impl SetupEvent {
    /// Whether the event is a result of `action`.
    pub open spec fn answers(self, action: SetupAction) -> bool {
        match self {
            SetupEvent::Created { .. } => action is Create || action is FallBack,
            SetupEvent::PropertySet { .. } => action is SetProperty,
        }
    }

    /// Whether the system refused.
    pub open spec fn fails(self) -> bool {
        match self {
            SetupEvent::Created { status, session } => status != 0 || !session,
            SetupEvent::PropertySet { status } => status != 0,
        }
    }
}

impl EncoderSetup {
    /// Whether a property is left to be set.
    pub open spec fn wf(self) -> bool {
        self.done < properties(self.codec_type).len()
    }

    /// Whether nothing has happened yet.
    pub open spec fn is_start(self) -> bool {
        self.done == 0
    }

    /// The session that the encoder needs.
    pub open spec fn session(self) -> Session {
        Session {
            width: self.width as i32,
            height: self.height as i32,
            codec_type: self.codec_type,
        }
    }

    /// What follows a failure with `error`.
    pub open spec fn after_failure(self, error: EncoderError) -> (EncoderSetup, SetupAction) {
        if self.fallback {
            let next = EncoderSetup { codec_type: CODEC_HEVC, fallback: false, done: 0, ..self };
            (next, SetupAction::FallBack { error, session: next.session() })
        } else {
            (self, SetupAction::Fail(error))
        }
    }

    /// What follows `event`.
    pub open spec fn after(self, event: SetupEvent) -> (EncoderSetup, SetupAction) {
        let all = properties(self.codec_type);
        match event {
            SetupEvent::Created { status, .. } => if event.fails() {
                self.after_failure(EncoderError::CreateSession { status })
            } else {
                (self, SetupAction::SetProperty(all[self.done as int]))
            },
            SetupEvent::PropertySet { status } => if event.fails() {
                self.after_failure(
                    EncoderError::SetProperty { property: all[self.done as int], status },
                )
            } else if self.done + 1 < all.len() {
                let next = EncoderSetup { done: (self.done + 1) as usize, ..self };
                (next, SetupAction::SetProperty(all[self.done + 1]))
            } else {
                (self, SetupAction::Ready)
            },
        }
    }

    /// Where the setup stands behind a series of events, and what it does then.
    pub open spec fn after_all(self, events: Seq<SetupEvent>) -> (EncoderSetup, SetupAction)
        decreases events.len(),
    {
        if events.len() == 0 {
            (self, SetupAction::Create(self.session()))
        } else {
            self.after_all(events.drop_last()).0.after(events.last())
        }
    }

    /// Whether each event is a result of the action before it.
    pub open spec fn runs(self, events: Seq<SetupEvent>) -> bool {
        forall|i: int|
            0 <= i < events.len() ==> (#[trigger] events[i]).answers(
                self.after_all(events.take(i)).1,
            )
    }

    /// The session that the encoder needs.
    pub fn first_session(&self) -> (r: Session)
        ensures
            r == self.session(),
    {
        Session {
            width: self.width as i32,
            height: self.height as i32,
            codec_type: self.codec_type,
        }
    }

    /// Tries HEVC behind a failure, where it is left to try.
    fn fail(&mut self, error: EncoderError) -> (action: SetupAction)
        ensures
            (*final(self), action) == old(self).after_failure(error),
    {
        if self.fallback {
            self.codec_type = CODEC_HEVC;
            self.fallback = false;
            self.done = 0;
            SetupAction::FallBack { error, session: self.first_session() }
        } else {
            SetupAction::Fail(error)
        }
    }

    /// The next action of the setup.
    pub fn next(&mut self, event: SetupEvent) -> (action: SetupAction)
        requires
            old(self).wf(),
        ensures
            (*final(self), action) == old(self).after(event),
            final(self).wf(),
    {
        let all = property_list(self.codec_type);
        match event {
            SetupEvent::Created { status, session } => if status != 0 || !session {
                self.fail(EncoderError::CreateSession { status })
            } else {
                SetupAction::SetProperty(all[self.done])
            },
            SetupEvent::PropertySet { status } => if status != 0 {
                self.fail(EncoderError::SetProperty { property: all[self.done], status })
            } else if self.done + 1 < all.len() {
                self.done = self.done + 1;
                SetupAction::SetProperty(all[self.done])
            } else {
                SetupAction::Ready
            },
        }
    }

    /// The encoder that was set up, before its first frame.
    pub fn encoder(&self) -> (r: VideoEncoder)
        ensures
            r.codec_type == self.codec_type,
            r.width == self.width,
            r.height == self.height,
            r.frame_count == 0,
            r.output@ == Seq::<Vec<u8>>::empty(),
    {
        VideoEncoder {
            codec_type: self.codec_type,
            width: self.width,
            height: self.height,
            frame_count: 0,
            output: VecDeque::new(),
        }
    }
}

/// How many of the events are refusals of the system.
pub open spec fn refusals(events: Seq<SetupEvent>) -> nat
    decreases events.len(),
{
    if events.len() == 0 {
        0
    } else {
        refusals(events.drop_last()) + if events.last().fails() {
            1nat
        } else {
            0nat
        }
    }
}

/// How many properties were set since the last session was created.
pub open spec fn properties_set(events: Seq<SetupEvent>) -> nat
    decreases events.len(),
{
    if events.len() > 0 && events.last() is PropertySet && !events.last().fails() {
        properties_set(events.drop_last()) + 1
    } else {
        0
    }
}

/// A run without its last event is a run, and the last event is a result of its last action.
proof fn lemma_setup_before(start: EncoderSetup, events: Seq<SetupEvent>)
    requires
        start.runs(events),
        events.len() > 0,
    ensures
        start.runs(events.drop_last()),
        events.last().answers(start.after_all(events.drop_last()).1),
{
    let before = events.drop_last();
    assert forall|i: int| 0 <= i < before.len() implies (#[trigger] before[i]).answers(
        start.after_all(before.take(i)).1,
    ) by {
        assert(before.take(i) =~= events.take(i));
        assert(events[i].answers(start.after_all(events.take(i)).1));
    }
    let n: int = events.len() - 1;
    assert(events.take(n) =~= before);
    assert(events[n].answers(start.after_all(events.take(n)).1));
}

/// An encoder is ready behind the last of its session's properties, and each property is set in
/// its turn and on the same session.
pub proof fn law_ready_encoder_has_every_property(start: EncoderSetup, events: Seq<SetupEvent>)
    requires
        start.is_start(),
        start.runs(events),
    ensures
        ({
            let (setup, action) = start.after_all(events);
            let all = properties(setup.codec_type);
            &&& setup.wf()
            &&& setup.width == start.width && setup.height == start.height
            &&& action is Ready <==> properties_set(events) == all.len()
            &&& action matches SetupAction::SetProperty(property) ==> {
                &&& properties_set(events) < all.len()
                &&& setup.done == properties_set(events)
                &&& property == all[properties_set(events) as int]
            }
            &&& action is Create || action is FallBack ==> setup.done == 0 && properties_set(events)
                == 0
        }),
    decreases events.len(),
{
    if events.len() > 0 {
        lemma_setup_before(start, events);
        law_ready_encoder_has_every_property(start, events.drop_last());
    }
}

/// The first refusal makes the setup fall back to HEVC, the second one makes it give up. A setup
/// that has nothing to fall back to gives up with the first.
pub proof fn law_setup_falls_back_once(start: EncoderSetup, events: Seq<SetupEvent>)
    requires
        start.is_start(),
        start.runs(events),
    ensures
        ({
            let (setup, action) = start.after_all(events);
            let chances: nat = if start.fallback {
                2
            } else {
                1
            };
            &&& refusals(events) <= chances
            &&& action is Fail <==> refusals(events) == chances
            &&& action is FallBack <==> events.len() > 0 && events.last().fails() && refusals(
                events,
            ) < chances
            &&& setup.fallback == (start.fallback && refusals(events) == 0)
            &&& setup.codec_type == if start.fallback && refusals(events) > 0 {
                CODEC_HEVC
            } else {
                start.codec_type
            }
        }),
    decreases events.len(),
{
    if events.len() > 0 {
        lemma_setup_before(start, events);
        law_setup_falls_back_once(start, events.drop_last());
    }
}

// ---------------------------------------------------------------------------
// The encoder
// ---------------------------------------------------------------------------

/// An encoder: the frames that were fed to it are numbered, and its output waits to be taken.
pub struct VideoEncoder {
    pub codec_type: u32,
    pub width: u32,
    pub height: u32,
    /// How many frames were handed to the session.
    pub frame_count: i64,
    /// The encoded chunks that wait to be taken, the oldest first.
    pub output: VecDeque<Vec<u8>>,
}

impl VideoEncoder {
    /// Begins to set up an encoder for H.264, with HEVC to fall back to. The first action is to
    /// create the setup's session.
    pub fn new(width: u32, height: u32, _fps: u8) -> (setup: EncoderSetup)
        ensures
            setup == (EncoderSetup {
                width,
                height,
                codec_type: CODEC_H264,
                fallback: true,
                done: 0,
            }),
            setup.wf(),
    {
        EncoderSetup { width, height, codec_type: CODEC_H264, fallback: true, done: 0 }
    }

    /// Begins to set up an encoder for one codec. The first action is to create the setup's
    /// session.
    pub fn new_with_codec(width: u32, height: u32, _fps: u8, codec_type: u32) -> (setup:
        EncoderSetup)
        ensures
            setup == (EncoderSetup { width, height, codec_type, fallback: false, done: 0 }),
            setup.wf(),
    {
        EncoderSetup { width, height, codec_type, fallback: false, done: 0 }
    }
}

impl VideoEncoder {
    /// Whether frames of this size are what the encoder was set up for.
    pub fn has_size(&self, width: u32, height: u32) -> (r: bool)
        ensures
            r == (width == self.width && height == self.height),
    {
        width == self.width && height == self.height
    }
}

// ---------------------------------------------------------------------------
// Feeding frames
// ---------------------------------------------------------------------------

/// What happened to a frame on its way to the session.
pub enum FrameEvent {
    /// A frame was captured.
    Captured,
    /// The system returned a status, and a pixel buffer or none.
    BufferCreated { status: i32, buffer: bool },
    /// The system returned a status for locking the pixel buffer. The rows of the frame are
    /// `src_stride` bytes apart, and the `rows` of the buffer `dst_stride` bytes.
    Locked { status: i32, src_stride: usize, dst_stride: usize, rows: usize },
    /// The frame was copied to the pixel buffer.
    Copied,
    /// The system returned a status for the frame.
    Submitted { status: i32 },
}

/// What happens to a frame next.
pub enum FrameAction {
    /// Create a pixel buffer.
    CreateBuffer { width: usize, height: usize, pixel_format: u32 },
    /// Lock the pixel buffer.
    Lock,
    /// Copy the frame to the pixel buffer, and unlock it.
    Copy(RowCopy),
    /// Hand the pixel buffer to the session, and release it.
    Submit { timestamp: CMTime, duration: CMTime },
    /// The session has the frame.
    Done,
    /// Release the pixel buffer, if there is one, and give up with this error.
    Fail(EncoderError),
}

impl FrameEvent {
    /// Whether the event is a result of `action`.
    pub open spec fn answers(self, action: FrameAction) -> bool {
        match self {
            FrameEvent::Captured => action is Done || action is Fail,
            FrameEvent::BufferCreated { .. } => action is CreateBuffer,
            FrameEvent::Locked { .. } => action is Lock,
            FrameEvent::Copied => action is Copy,
            FrameEvent::Submitted { .. } => action is Submit,
        }
    }
}

/// What follows `event` on a frame's way, where `count` frames were handed to the session.
pub open spec fn frame_after(
    width: u32,
    height: u32,
    count: int,
    event: FrameEvent,
) -> FrameAction {
    match event {
        FrameEvent::Captured => FrameAction::CreateBuffer {
            width: width as usize,
            height: height as usize,
            pixel_format: PIXEL_FORMAT_BGRA,
        },
        FrameEvent::BufferCreated { status, buffer } => if status == 0 && buffer {
            FrameAction::Lock
        } else {
            FrameAction::Fail(EncoderError::CreateBuffer { status })
        },
        FrameEvent::Locked { status, src_stride, dst_stride, rows } => if status == 0 {
            FrameAction::Copy(RowCopy { width, src_stride, dst_stride, rows })
        } else {
            FrameAction::Fail(EncoderError::LockBuffer { status })
        },
        FrameEvent::Copied => FrameAction::Submit {
            timestamp: CMTime { value: count as i64, timescale: 1, flags: 1, epoch: 0 },
            duration: CMTime { value: 1, timescale: 120, flags: 1, epoch: 0 },
        },
        FrameEvent::Submitted { status } => if status == 0 {
            FrameAction::Done
        } else {
            FrameAction::Fail(EncoderError::EncodeFrame { status })
        },
    }
}

/// How many of the events handed a frame to the session.
pub open spec fn frames_handed(events: Seq<FrameEvent>) -> nat
    decreases events.len(),
{
    if events.len() == 0 {
        0
    } else {
        frames_handed(events.drop_last()) + if events.last() is Copied {
            1nat
        } else {
            0nat
        }
    }
}

impl VideoEncoder {
    /// The next action on the way of a frame to the session. A frame gets its number when it
    /// is handed to the session, and keeps it where the session refuses the frame.
    pub fn encode_frame(&mut self, event: FrameEvent) -> (action: FrameAction)
        requires
            event is Copied ==> old(self).frame_count < i64::MAX,
        ensures
            action == frame_after(
                old(self).width,
                old(self).height,
                old(self).frame_count as int,
                event,
            ),
            final(self).frame_count == old(self).frame_count + frames_handed(seq![event]),
            final(self).frame_count == old(self).frame_count + if event is Copied {
                1int
            } else {
                0int
            },
            final(self).codec_type == old(self).codec_type,
            final(self).width == old(self).width,
            final(self).height == old(self).height,
            final(self).output@ == old(self).output@,
    {
        proof {
            reveal_with_fuel(frames_handed, 2);
            assert(seq![event].drop_last() =~= Seq::<FrameEvent>::empty());
        }
        match event {
            FrameEvent::Captured => FrameAction::CreateBuffer {
                width: self.width as usize,
                height: self.height as usize,
                pixel_format: PIXEL_FORMAT_BGRA,
            },
            FrameEvent::BufferCreated { status, buffer } => if status != 0 || !buffer {
                FrameAction::Fail(EncoderError::CreateBuffer { status })
            } else {
                FrameAction::Lock
            },
            FrameEvent::Locked { status, src_stride, dst_stride, rows } => if status != 0 {
                FrameAction::Fail(EncoderError::LockBuffer { status })
            } else {
                FrameAction::Copy(RowCopy { width: self.width, src_stride, dst_stride, rows })
            },
            FrameEvent::Copied => {
                let timestamp = CMTime::valid(self.frame_count, 1);
                self.frame_count = self.frame_count + 1;
                FrameAction::Submit { timestamp, duration: CMTime::valid(1, 120) }
            },
            FrameEvent::Submitted { status } => if status != 0 {
                FrameAction::Fail(EncoderError::EncodeFrame { status })
            } else {
                FrameAction::Done
            },
        }
    }
}

/// What happens to frames behind the first `i` events of a new encoder.
pub open spec fn frame_action_at(
    width: u32,
    height: u32,
    events: Seq<FrameEvent>,
    i: int,
) -> FrameAction {
    if i <= 0 {
        FrameAction::Done
    } else {
        frame_after(width, height, frames_handed(events.take(i - 1)) as int, events[i - 1])
    }
}

/// Whether each event is a result of the action before it.
pub open spec fn frames_run(width: u32, height: u32, events: Seq<FrameEvent>) -> bool {
    forall|i: int|
        0 <= i < events.len() ==> (#[trigger] events[i]).answers(
            frame_action_at(width, height, events, i),
        )
}

/// The frames that reach the session are numbered from zero on, without a gap and in order:
/// the frame that was handed over at event `j` has the number of the one before it plus one.
pub proof fn law_frames_are_numbered(
    width: u32,
    height: u32,
    events: Seq<FrameEvent>,
    i: int,
    j: int,
)
    requires
        frames_handed(events) <= i64::MAX,
        0 <= i < j < events.len(),
        events[i] is Copied,
        events[j] is Copied,
        forall|k: int| i < k < j ==> !(#[trigger] events[k] is Copied),
    ensures
        ({
            let first = frame_action_at(width, height, events, i + 1);
            let second = frame_action_at(width, height, events, j + 1);
            &&& first is Submit && second is Submit
            &&& first->timestamp.value == frames_handed(events.take(i))
            &&& second->timestamp.value == first->timestamp.value + 1
            &&& first->timestamp.timescale == 1 && second->timestamp.timescale == 1
        }),
{
    lemma_handed_between(events, i, j);
    lemma_handed_grows(events, j);
    assert(events.take(i + 1).drop_last() =~= events.take(i));
}

/// No frame is handed over between two that follow each other.
proof fn lemma_handed_between(events: Seq<FrameEvent>, i: int, j: int)
    requires
        0 <= i < j <= events.len(),
        forall|k: int| i < k < j ==> !(#[trigger] events[k] is Copied),
    ensures
        frames_handed(events.take(j)) == frames_handed(events.take(i + 1)),
    decreases j - i,
{
    if i + 1 < j {
        lemma_handed_between(events, i, j - 1);
        assert(events.take(j).drop_last() =~= events.take(j - 1));
        assert(!(events[j - 1] is Copied));
    }
}

/// The count of frames never goes back.
proof fn lemma_handed_grows(events: Seq<FrameEvent>, j: int)
    requires
        0 <= j <= events.len(),
    ensures
        frames_handed(events.take(j)) <= frames_handed(events),
    decreases events.len() - j,
{
    if j < events.len() {
        lemma_handed_grows(events, j + 1);
        assert(events.take(j + 1).drop_last() =~= events.take(j));
    } else {
        assert(events.take(j) =~= events);
    }
}

/// A frame is handed to the session only where its pixel buffer was created, locked and filled.
pub proof fn law_only_whole_frames_are_handed_over(
    width: u32,
    height: u32,
    events: Seq<FrameEvent>,
    i: int,
)
    requires
        frames_run(width, height, events),
        0 <= i < events.len(),
        events[i] is Copied,
    ensures
        i >= 3,
        events[i - 3] is Captured,
        events[i - 2] == (FrameEvent::BufferCreated { status: 0, buffer: true }),
        events[i - 1] matches FrameEvent::Locked { status, .. } && status == 0,
{
    assert(events[i].answers(frame_action_at(width, height, events, i)));
    assert(events[i - 1].answers(frame_action_at(width, height, events, i - 1)));
    assert(events[i - 2].answers(frame_action_at(width, height, events, i - 2)));
}

// ---------------------------------------------------------------------------
// Collecting the output
// ---------------------------------------------------------------------------

/// The block of encoded bytes that the system shows of a sample.
#[derive(Debug, Clone, Copy, PartialEq, Eq, Structural)]
pub struct Block {
    /// The status that the system returned for the block.
    pub status: i32,
    /// Whether the system returned a place for the bytes.
    pub has_data: bool,
    /// The count of bytes.
    pub total_length: usize,
}

/// How many bytes to take of a sample: `status` is what the session reports for it, and `block`
/// is `None` where there is no sample or it has no block.
pub fn sample_len(status: i32, block: Option<Block>) -> (r: Option<usize>)
    ensures
        r == match block {
            Some(b) => if status == 0 && b.status == 0 && b.has_data && b.total_length > 0 {
                Some(b.total_length)
            } else {
                None
            },
            None => None,
        },
{
    if status != 0 {
        return None;
    }
    match block {
        Some(b) => {
            if b.status != 0 || !b.has_data || b.total_length == 0 {
                None
            } else {
                Some(b.total_length)
            }
        },
        None => None,
    }
}

/// What happened at the end of an encoder.
pub enum FinishEvent {
    /// The encoder is to end.
    Begun,
    /// The session has completed the frames that it held, and returned a status.
    Flushed { status: i32 },
    /// The session is invalidated.
    Invalidated,
    /// These chunks were encoded and not yet added, the oldest first.
    Collected(Vec<Vec<u8>>),
}

/// What the end of an encoder takes next.
pub enum FinishAction {
    /// Let the session complete the frames that it still holds.
    Flush,
    /// Invalidate the session.
    Invalidate,
    /// Collect what was encoded and not yet added.
    Collect,
    /// Return these bytes.
    Return { data: Vec<u8> },
}

impl FinishEvent {
    /// Whether the event is a result of `action`.
    pub open spec fn answers(self, action: FinishAction) -> bool {
        match self {
            FinishEvent::Begun => false,
            FinishEvent::Flushed { .. } => action is Flush,
            FinishEvent::Invalidated => action is Invalidate,
            FinishEvent::Collected(_) => action is Collect,
        }
    }
}

/// Whether `action` is what follows `event` at the end of an encoder.
pub open spec fn finish_follows(event: FinishEvent, action: FinishAction) -> bool {
    match event {
        FinishEvent::Begun => action is Flush,
        FinishEvent::Flushed { .. } => action is Invalidate,
        FinishEvent::Invalidated => action is Collect,
        FinishEvent::Collected(_) => action is Return,
    }
}

/// The bytes of several chunks, one after the other.
pub open spec fn joined(chunks: Seq<Vec<u8>>) -> Seq<u8>
    decreases chunks.len(),
{
    if chunks.len() == 0 {
        Seq::empty()
    } else {
        joined(chunks.drop_last()) + chunks.last()@
    }
}

/// The bytes that an encoder returns at its end, of the chunks that wait and of those that the
/// flush brought.
pub open spec fn rest_of(waiting: Seq<Vec<u8>>, flushed: Seq<Vec<u8>>) -> Seq<u8> {
    joined(waiting + flushed)
}

impl VideoEncoder {
    /// Adds a chunk that the session has encoded.
    pub fn push_encoded(&mut self, chunk: Vec<u8>)
        ensures
            final(self).output@ == old(self).output@.push(chunk),
            final(self).output@ == queue_after(old(self).output@, OutputStep::Pushed(chunk)),
            final(self).codec_type == old(self).codec_type,
            final(self).width == old(self).width,
            final(self).height == old(self).height,
            final(self).frame_count == old(self).frame_count,
    {
        self.output.push_back(chunk);
    }

    /// Takes the oldest chunk that waits, if there is one.
    pub fn try_recv_encoded(&mut self) -> (r: Option<Vec<u8>>)
        ensures
            match r {
                Some(chunk) => {
                    &&& old(self).output@.len() > 0
                    &&& chunk == old(self).output@[0]
                    &&& final(self).output@ == old(self).output@.drop_first()
                },
                None => old(self).output@.len() == 0 && final(self).output@ == old(self).output@,
            },
            r == oldest(old(self).output@),
            final(self).output@ == queue_after(old(self).output@, OutputStep::Taken),
            final(self).codec_type == old(self).codec_type,
            final(self).width == old(self).width,
            final(self).height == old(self).height,
            final(self).frame_count == old(self).frame_count,
    {
        let chunk = self.output.pop_front();
        assert(old(self).output@.len() > 0 ==> self.output@ =~= old(self).output@.drop_first());
        chunk
    }

    /// Borrows the encoded chunks that wait, the oldest first, so that the caller can take them.
    pub fn output_rx(&mut self) -> (r: &mut VecDeque<Vec<u8>>)
        ensures
            r@ == old(self).output@,
            final(self).output@ == final(r)@,
            final(self).codec_type == old(self).codec_type,
            final(self).width == old(self).width,
            final(self).height == old(self).height,
            final(self).frame_count == old(self).frame_count,
    {
        &mut self.output
    }

    /// Whether a further frame can be numbered.
    pub fn can_number(&self) -> (r: bool)
        ensures
            r == (self.frame_count < i64::MAX),
    {
        self.frame_count < i64::MAX
    }

    /// The next action at the end of an encoder. The session completes the frames that it still
    /// holds before it is invalidated, and what it has encoded is collected behind that.
    pub fn finish(&mut self, event: FinishEvent) -> (action: FinishAction)
        ensures
            final(self).codec_type == old(self).codec_type,
            final(self).width == old(self).width,
            final(self).height == old(self).height,
            final(self).frame_count == old(self).frame_count,
            match event {
                FinishEvent::Begun => action is Flush && final(self).output@ == old(
                    self,
                ).output@,
                FinishEvent::Flushed { .. } => action is Invalidate && final(self).output@ == old(
                    self,
                ).output@,
                FinishEvent::Invalidated => action is Collect && final(self).output@ == old(
                    self,
                ).output@,
                FinishEvent::Collected(chunks) => {
                    &&& action is Return
                    &&& action->data@ == joined(old(self).output@ + chunks@)
                    &&& action->data@ == rest_of(old(self).output@, chunks@)
                    &&& final(self).output@ == Seq::<Vec<u8>>::empty()
                },
            },
            finish_follows(event, action),
    {
        match event {
            FinishEvent::Begun => FinishAction::Flush,
            FinishEvent::Flushed { .. } => FinishAction::Invalidate,
            FinishEvent::Invalidated => FinishAction::Collect,
            FinishEvent::Collected(chunks) => {
                let data = self.drain(chunks);
                FinishAction::Return { data }
            },
        }
    }

    /// Takes the bytes of all chunks that wait, and of `later` behind them.
    fn drain(&mut self, later: Vec<Vec<u8>>) -> (data: Vec<u8>)
        ensures
            data@ == joined(old(self).output@ + later@),
            final(self).output@ == Seq::<Vec<u8>>::empty(),
            final(self).codec_type == old(self).codec_type,
            final(self).width == old(self).width,
            final(self).height == old(self).height,
            final(self).frame_count == old(self).frame_count,
    {
        let ghost waiting = self.output@;
        let ghost chunks = self.output@ + later@;
        let mut data: Vec<u8> = Vec::new();
        let mut left: usize = self.output.len();
        let ghost mut count: int = 0;
        assert(chunks.take(0) =~= Seq::<Vec<u8>>::empty());
        while left > 0
            invariant
                0 <= count <= waiting.len(),
                left == waiting.len() - count,
                self.output@ == waiting.skip(count),
                chunks == waiting + later@,
                data@ == joined(chunks.take(count)),
                self.codec_type == old(self).codec_type,
                self.width == old(self).width,
                self.height == old(self).height,
                self.frame_count == old(self).frame_count,
            decreases left,
        {
            if let Some(mut chunk) = self.output.pop_front() {
                proof {
                    assert(chunks.take(count + 1).drop_last() =~= chunks.take(count));
                    assert(self.output@ =~= waiting.skip(count + 1));
                    count = count + 1;
                }
                data.append(&mut chunk);
            }
            left = left - 1;
        }
        let mut i: usize = 0;
        while i < later.len()
            invariant
                i <= later@.len(),
                chunks == waiting + later@,
                data@ == joined(chunks.take(waiting.len() + i)),
            decreases later@.len() - i,
        {
            data.extend_from_slice(later[i].as_slice());
            proof {
                let n: int = waiting.len() + i + 1;
                assert(chunks.take(n).drop_last() =~= chunks.take(n - 1));
                assert(chunks[n - 1] == later@[i as int]);
            }
            i = i + 1;
        }
        assert(chunks.take(chunks.len() as int) =~= chunks);
        data
    }
}

/// A step in the life of an encoder's output.
pub enum OutputStep {
    /// The session has encoded a chunk.
    Pushed(Vec<u8>),
    /// The oldest chunk was asked for.
    Taken,
}

/// The oldest chunk that waits, if there is one.
pub open spec fn oldest(queue: Seq<Vec<u8>>) -> Option<Vec<u8>> {
    if queue.len() > 0 {
        Some(queue[0])
    } else {
        None
    }
}

/// The chunks that wait behind a step.
pub open spec fn queue_after(queue: Seq<Vec<u8>>, step: OutputStep) -> Seq<Vec<u8>> {
    match step {
        OutputStep::Pushed(chunk) => queue.push(chunk),
        OutputStep::Taken => if queue.len() > 0 {
            queue.drop_first()
        } else {
            queue
        },
    }
}

/// The chunks that wait behind a series of steps.
pub open spec fn waiting(steps: Seq<OutputStep>) -> Seq<Vec<u8>>
    decreases steps.len(),
{
    if steps.len() == 0 {
        Seq::empty()
    } else {
        queue_after(waiting(steps.drop_last()), steps.last())
    }
}

/// The chunks that the session has encoded in a series of steps.
pub open spec fn pushed(steps: Seq<OutputStep>) -> Seq<Vec<u8>>
    decreases steps.len(),
{
    if steps.len() == 0 {
        Seq::empty()
    } else {
        let before = pushed(steps.drop_last());
        match steps.last() {
            OutputStep::Pushed(chunk) => before.push(chunk),
            OutputStep::Taken => before,
        }
    }
}

/// The chunks that were taken in a series of steps.
pub open spec fn taken(steps: Seq<OutputStep>) -> Seq<Vec<u8>>
    decreases steps.len(),
{
    if steps.len() == 0 {
        Seq::empty()
    } else {
        let before = taken(steps.drop_last());
        match (steps.last(), oldest(waiting(steps.drop_last()))) {
            (OutputStep::Taken, Some(chunk)) => before.push(chunk),
            _ => before,
        }
    }
}

/// Two series of chunks behind each other.
proof fn lemma_joined_add(a: Seq<Vec<u8>>, b: Seq<Vec<u8>>)
    ensures
        joined(a + b) == joined(a) + joined(b),
    decreases b.len(),
{
    if b.len() == 0 {
        assert(a + b =~= a);
        assert(joined(b) =~= Seq::<u8>::empty());
    } else {
        assert((a + b).drop_last() =~= a + b.drop_last());
        lemma_joined_add(a, b.drop_last());
        assert(joined(a + b) =~= joined(a) + joined(b));
    }
}

/// No encoded byte is lost, doubled or moved: the chunks that were taken and those that wait,
/// one after the other, are the chunks that the session has encoded.
pub proof fn law_output_is_complete(steps: Seq<OutputStep>)
    ensures
        taken(steps) + waiting(steps) == pushed(steps),
        joined(taken(steps)) + joined(waiting(steps)) == joined(pushed(steps)),
    decreases steps.len(),
{
    if steps.len() > 0 {
        law_output_is_complete(steps.drop_last());
        let before = steps.drop_last();
        assert(taken(before) + waiting(before) == pushed(before));
    }
    assert(taken(steps) + waiting(steps) =~= pushed(steps));
    lemma_joined_add(taken(steps), waiting(steps));
}

/// The bytes that an encoder returns at its end are collected behind the flush of the session:
/// the session has first completed its frames, and was then invalidated.
pub proof fn law_finish_flushes_first(events: Seq<FinishEvent>, actions: Seq<FinishAction>)
    requires
        events.len() > 0,
        events.len() == actions.len(),
        events[0] is Begun,
        forall|i: int|
            0 <= i < events.len() ==> finish_follows(#[trigger] events[i], actions[i]),
        forall|i: int| 0 < i < events.len() ==> (#[trigger] events[i]).answers(actions[i - 1]),
        actions.last() is Return,
    ensures
        events.len() == 4,
        actions[0] is Flush,
        events[1] is Flushed,
        actions[1] is Invalidate,
        events[2] is Invalidated,
        actions[2] is Collect,
        events[3] is Collected,
{
    assert(finish_follows(events[0], actions[0]));
    assert(events[1].answers(actions[0]));
    assert(finish_follows(events[1], actions[1]));
    assert(events[2].answers(actions[1]));
    assert(finish_follows(events[2], actions[2]));
    assert(events[3].answers(actions[2]));
    assert(finish_follows(events[3], actions[3]));
    if events.len() > 4 {
        assert(events[4].answers(actions[3]));
    }
}

/// Nothing that the session encodes is lost at the end: the chunks that were taken, and what the
/// encoder returns of those that wait and of those that the flush brought, are all that the
/// session has encoded, in order.
pub proof fn law_finish_returns_the_rest(steps: Seq<OutputStep>, flushed: Seq<Vec<u8>>)
    ensures
        joined(taken(steps)) + rest_of(waiting(steps), flushed) == joined(pushed(steps) + flushed),
        rest_of(waiting(steps), flushed) == joined(waiting(steps)) + joined(flushed),
{
    law_output_is_complete(steps);
    assert(taken(steps) + (waiting(steps) + flushed) =~= pushed(steps) + flushed);
    lemma_joined_add(taken(steps), waiting(steps) + flushed);
    lemma_joined_add(waiting(steps), flushed);
}

/// How many bytes several chunks have together.
pub open spec fn total_len(chunks: Seq<Vec<u8>>) -> nat
    decreases chunks.len(),
{
    if chunks.len() == 0 {
        0
    } else {
        total_len(chunks.drop_last()) + chunks.last()@.len()
    }
}

/// The bytes of several chunks are as many as the chunks have together, and each chunk stands
/// among them whole: its byte `k` is `k` places behind the bytes of the chunks before it.
pub proof fn law_chunks_are_joined_whole(chunks: Seq<Vec<u8>>, i: int)
    requires
        0 <= i < chunks.len(),
    ensures
        joined(chunks).len() == total_len(chunks),
        total_len(chunks.take(i)) + chunks[i]@.len() <= joined(chunks).len(),
        forall|k: int|
            0 <= k < chunks[i]@.len() ==> joined(chunks)[total_len(chunks.take(i)) + k]
                == #[trigger] chunks[i]@[k],
    decreases chunks.len(),
{
    lemma_joined_len(chunks);
    let before = chunks.drop_last();
    lemma_joined_len(before);
    if i < before.len() {
        law_chunks_are_joined_whole(before, i);
        assert(before.take(i) =~= chunks.take(i));
        assert forall|k: int| 0 <= k < chunks[i]@.len() implies joined(chunks)[total_len(
            chunks.take(i),
        ) + k] == #[trigger] chunks[i]@[k] by {
            assert(before[i]@[k] == chunks[i]@[k]);
        }
    } else {
        assert(chunks.take(i) =~= before);
    }
}

/// The bytes of several chunks are as many as the chunks have together.
proof fn lemma_joined_len(chunks: Seq<Vec<u8>>)
    ensures
        joined(chunks).len() == total_len(chunks),
    decreases chunks.len(),
{
    if chunks.len() > 0 {
        lemma_joined_len(chunks.drop_last());
    }
}

/// No chunks have no bytes, one chunk has its own, and the chunks of two series have those of
/// the first and then those of the second.
pub proof fn law_chunks_are_joined_in_order(chunk: Vec<u8>, a: Seq<Vec<u8>>, b: Seq<Vec<u8>>)
    ensures
        joined(Seq::empty()) == Seq::<u8>::empty(),
        joined(seq![chunk]) == chunk@,
        joined(a + b) == joined(a) + joined(b),
{
    lemma_joined_add(a, b);
    reveal_with_fuel(joined, 2);
    assert(seq![chunk].drop_last() =~= Seq::<Vec<u8>>::empty());
    assert(joined(seq![chunk]) =~= chunk@);
}

/// A queue gives back what was put in, first in first out: behind a chunk that is put in empty,
/// that chunk is the oldest; behind others, the oldest stays the oldest; and taking it leaves
/// the others as they were.
pub proof fn law_output_is_first_in_first_out(queue: Seq<Vec<u8>>, chunk: Vec<u8>)
    ensures
        oldest(Seq::empty()) is None,
        ({
            let more = queue_after(queue, OutputStep::Pushed(chunk));
            let less = queue_after(more, OutputStep::Taken);
            &&& more.len() == queue.len() + 1
            &&& more.last() == chunk
            &&& oldest(more) == Some(if queue.len() == 0 { chunk } else { queue[0] })
            &&& less.len() == queue.len()
            &&& forall|i: int| 0 <= i < less.len() ==> #[trigger] less[i] == more[i + 1]
        }),
{
}

// ---------------------------------------------------------------------------
// What each step asks of the system
// ---------------------------------------------------------------------------

/// Every pixel of every row of a captured frame reaches the buffer that is handed to the
/// session: the copy behind a successful lock is asked for with the encoder's width and exactly
/// the strides and rows of the frame and the buffer, and puts each byte of each row's pixels at
/// its place.
pub proof fn law_captured_frame_is_copied_whole(
    width: u32,
    height: u32,
    count: int,
    src_stride: usize,
    dst_stride: usize,
    rows: usize,
    src: Seq<u8>,
    dst: Seq<u8>,
    row: int,
    column: int,
)
    requires
        width * 4 <= src_stride,
        width * 4 <= dst_stride,
        (rows - 1) * src_stride + width * 4 <= src.len() <= usize::MAX,
        (rows - 1) * dst_stride + width * 4 <= dst.len(),
        0 <= row < rows,
        0 <= column < width * 4,
    ensures
        ({
            let action = frame_after(
                width,
                height,
                count,
                FrameEvent::Locked { status: 0, src_stride, dst_stride, rows },
            );
            &&& action is Copy
            &&& action->Copy_0.width == width
            &&& action->Copy_0.src_stride == src_stride
            &&& action->Copy_0.dst_stride == dst_stride
            &&& action->Copy_0.rows == rows
            &&& action->Copy_0.fits(dst.len())
            &&& 0 <= row * dst_stride + column < dst.len()
            &&& action->Copy_0.copied(src, dst)[row * dst_stride + column] == src[row * src_stride
                + column]
        }),
{
    let copy = RowCopy { width, src_stride, dst_stride, rows };
    assert(row * src_stride <= (rows - 1) * src_stride) by (nonlinear_arith)
        requires
            0 <= row < rows,
            0 <= src_stride,
    ;
    crate::pixels::law_copy_keeps_pixels(copy, src, dst, row, column);
}

/// A frame's way to the session: a buffer of the encoder's size in `BGRA`, a lock, a copy, and
/// the number that the frame gets in whole seconds, for the hundred and twentieth part of one.
/// Each step is taken exactly behind the one before it, where that succeeded, and a refusal is
/// reported as what it is, with its status.
pub proof fn law_frame_goes_step_by_step(width: u32, height: u32, count: i64, event: FrameEvent)
    ensures
        ({
            let action = frame_after(width, height, count as int, event);
            &&& match event {
                FrameEvent::Captured => action matches FrameAction::CreateBuffer {
                    width: w,
                    height: h,
                    pixel_format,
                } && w == width && h == height && pixel_format == 0x4247_5241,
                _ => !(action is CreateBuffer),
            }
            &&& action is Lock <==> event == (FrameEvent::BufferCreated { status: 0, buffer: true })
            &&& action is Copy <==> (event matches FrameEvent::Locked { status, .. } && status == 0)
            &&& match event {
                FrameEvent::Copied => action matches FrameAction::Submit { timestamp, duration }
                    && timestamp.value == count && timestamp.timescale == 1 && timestamp.flags == 1
                    && timestamp.epoch == 0 && duration.value == 1 && duration.timescale == 120
                    && duration.flags == 1 && duration.epoch == 0,
                _ => !(action is Submit),
            }
            &&& action is Done <==> event == (FrameEvent::Submitted { status: 0 })
            &&& action matches FrameAction::Fail(error) ==> match (event, error) {
                (
                    FrameEvent::BufferCreated { status, .. },
                    EncoderError::CreateBuffer { status: told },
                ) => told == status,
                (
                    FrameEvent::Locked { status, .. },
                    EncoderError::LockBuffer { status: told },
                ) => told == status,
                (
                    FrameEvent::Submitted { status },
                    EncoderError::EncodeFrame { status: told },
                ) => told == status,
                _ => false,
            }
        }),
{
}

/// One frame is counted exactly where one is handed to the session, however the events before
/// and behind it are cut.
pub proof fn law_handed_frames_add_up(
    events: Seq<FrameEvent>,
    more: Seq<FrameEvent>,
    event: FrameEvent,
)
    ensures
        frames_handed(Seq::empty()) == 0,
        frames_handed(seq![event]) == if event == FrameEvent::Copied {
            1nat
        } else {
            0nat
        },
        frames_handed(events + more) == frames_handed(events) + frames_handed(more),
    decreases more.len(),
{
    reveal_with_fuel(frames_handed, 2);
    assert(seq![event].drop_last() =~= Seq::<FrameEvent>::empty());
    if more.len() == 0 {
        assert(events + more =~= events);
    } else {
        assert((events + more).drop_last() =~= events + more.drop_last());
        law_handed_frames_add_up(events, more.drop_last(), event);
    }
}

/// How often a property is among others.
pub open spec fn times(all: Seq<Property>, property: Property) -> nat {
    all.filter(|p: Property| p == property).len()
}

/// Every session gets each property once, but for the profile level, which H.264 alone gets.
pub proof fn law_session_gets_each_property_once(codec_type: u32, property: Property)
    ensures
        times(properties(codec_type), property) == if property == Property::ProfileLevel
            && codec_type != 0x6832_3634 {
            0nat
        } else {
            1nat
        },
        properties(codec_type)[0] == Property::RealTime,
        properties(codec_type).last() == Property::AllowFrameReordering,
{
    reveal(Seq::filter);
    reveal_with_fuel(Seq::filter, 6);
    let all = properties(codec_type);
    let one = all.drop_last();
    let two = one.drop_last();
    let three = two.drop_last();
    let four = three.drop_last();
    assert(four.len() == all.len() - 4);
    assert(all.len() == 5 ==> four.drop_last().len() == 0);
}

/// The codes of the codecs are their names in four letters.
pub proof fn law_codecs_are_named()
    ensures
        CODEC_H264 == (('h' as int * 256 + '2' as int) * 256 + '6' as int) * 256 + '4' as int,
        CODEC_HEVC == (('h' as int * 256 + 'v' as int) * 256 + 'c' as int) * 256 + '1' as int,
        PIXEL_FORMAT_BGRA == (('B' as int * 256 + 'G' as int) * 256 + 'R' as int) * 256
            + 'A' as int,
{
}

/// What a setup asks of the system is for the size that it was begun with and for its codec,
/// H.264 or, as the fallback, HEVC; and what it reports is the status that the system gave, for
/// the session or for the property that was being set.
pub proof fn law_setup_reports_what_failed(setup: EncoderSetup, event: SetupEvent)
    requires
        setup.wf(),
    ensures
        ({
            let (next, action) = setup.after(event);
            let refused = match event {
                SetupEvent::Created { status, session } => status != 0 || !session,
                SetupEvent::PropertySet { status } => status != 0,
            };
            let error = match event {
                SetupEvent::Created { status, .. } => EncoderError::CreateSession { status },
                SetupEvent::PropertySet { status } => EncoderError::SetProperty {
                    property: properties(setup.codec_type)[setup.done as int],
                    status,
                },
            };
            &&& next.width == setup.width && next.height == setup.height
            &&& refused && setup.fallback <==> action is FallBack
            &&& refused && !setup.fallback <==> action is Fail
            &&& action matches SetupAction::Fail(told) ==> told == error && next == setup
            &&& action matches SetupAction::FallBack { error: told, session } ==> {
                &&& told == error
                &&& session.width == setup.width as i32
                &&& session.height == setup.height as i32
                &&& session.codec_type == 0x6876_6331
                &&& next.codec_type == 0x6876_6331 && next.done == 0 && !next.fallback
            }
            &&& !refused ==> next.codec_type == setup.codec_type && next.fallback == setup.fallback
            &&& !refused && event is Created ==> next == setup && action
                == SetupAction::SetProperty(properties(setup.codec_type)[setup.done as int])
            &&& !refused && event is PropertySet ==> if setup.done + 1 == properties(
                setup.codec_type,
            ).len() {
                action is Ready
            } else {
                next.done == setup.done + 1 && action == SetupAction::SetProperty(
                    properties(setup.codec_type)[setup.done + 1],
                )
            }
            &&& setup.session().width == setup.width as i32
            &&& setup.session().height == setup.height as i32
            &&& setup.session().codec_type == setup.codec_type
        }),
{
}

/// Bytes are taken of a sample exactly where neither the session nor the block has failed and
/// the block shows a place and at least one byte, and then all of them.
pub proof fn law_samples_are_taken_whole(status: i32, block: Option<Block>, taken: Option<usize>)
    requires
        call_ensures(sample_len, (status, block), taken),
    ensures
        taken is Some <==> status == 0 && block is Some && block->Some_0.status == 0
            && block->Some_0.has_data && block->Some_0.total_length != 0,
        taken is Some ==> taken->Some_0 == block->Some_0.total_length,
{
}

/// Times that are made are marked as valid, and say what they were made of.
pub proof fn law_times_are_valid(value: i64, timescale: i32, time: CMTime)
    requires
        call_ensures(CMTime::valid, (value, timescale), time),
    ensures
        time.value == value,
        time.timescale == timescale,
        time.flags == 1,
        time.epoch == 0,
{
}

/// Sessions run in real time with twenty million bits a second, a key frame at least every 120
/// frames and no frames out of order, and H.264 in the baseline profile.
pub proof fn law_properties_have_values(property: Property, value: PropertyValue)
    requires
        call_ensures(Property::value, (&property,), value),
    ensures
        value == PropertyValue::Bool(true) <==> property is RealTime,
        value == PropertyValue::Bool(false) <==> property is AllowFrameReordering,
        value == PropertyValue::Int(20_000_000) <==> property is AverageBitRate,
        value == PropertyValue::Int(120) <==> property is MaxKeyFrameInterval,
        value is Text <==> property is ProfileLevel,
        value is Text ==> value->Text_0@ == "BaselineAutoLevel"@,
{
}

/// An error is reported with the name of the call that was refused before the word `failed`,
/// and its status in decimal at the end.
pub proof fn law_encoder_errors_name_the_call(status: i32, property: Property)
    ensures
        ({
            let tail = " failed: status="@ + text::signed_decimal(status as int);
            &&& (EncoderError::CreateSession { status }).message()
                == "VTCompressionSessionCreate"@ + tail
            &&& (EncoderError::SetProperty { property, status }).message()
                == "VTSessionSetProperty("@ + property.key_text() + ")"@ + tail
            &&& (EncoderError::CreateBuffer { status }).message() == "CVPixelBufferCreate"@ + tail
            &&& (EncoderError::LockBuffer { status }).message()
                == "CVPixelBufferLockBaseAddress"@ + tail
            &&& (EncoderError::EncodeFrame { status }).message()
                == "VTCompressionSessionEncodeFrame"@ + tail
        }),
{
    reveal_strlit(" failed: status=");
    reveal_strlit(") failed: status=");
    reveal_strlit(")");
    reveal_strlit("VTCompressionSessionCreate");
    reveal_strlit("VTCompressionSessionCreate failed: status=");
    reveal_strlit("CVPixelBufferCreate");
    reveal_strlit("CVPixelBufferCreate failed: status=");
    reveal_strlit("CVPixelBufferLockBaseAddress");
    reveal_strlit("CVPixelBufferLockBaseAddress failed: status=");
    reveal_strlit("VTCompressionSessionEncodeFrame");
    reveal_strlit("VTCompressionSessionEncodeFrame failed: status=");
    let tail = " failed: status="@ + text::signed_decimal(status as int);
    assert((EncoderError::CreateSession { status }).message() =~= "VTCompressionSessionCreate"@
        + tail);
    assert((EncoderError::SetProperty { property, status }).message()
        =~= "VTSessionSetProperty("@ + property.key_text() + ")"@ + tail);
    assert((EncoderError::CreateBuffer { status }).message() =~= "CVPixelBufferCreate"@ + tail);
    assert((EncoderError::LockBuffer { status }).message() =~= "CVPixelBufferLockBaseAddress"@
        + tail);
    assert((EncoderError::EncodeFrame { status }).message()
        =~= "VTCompressionSessionEncodeFrame"@ + tail);
}

/// An encoder is begun for its size: with H.264 first and HEVC to fall back to, or with the one
/// codec that was asked for and nothing to fall back to.
pub proof fn law_encoders_begin_with_their_codec(
    width: u32,
    height: u32,
    fps: u8,
    codec_type: u32,
    any: EncoderSetup,
    one: EncoderSetup,
)
    requires
        call_ensures(VideoEncoder::new, (width, height, fps), any),
        call_ensures(VideoEncoder::new_with_codec, (width, height, fps, codec_type), one),
    ensures
        any.width == width && any.height == height,
        any.codec_type == 0x6832_3634 && any.fallback && any.done == 0,
        one.width == width && one.height == height,
        one.codec_type == codec_type && !one.fallback && one.done == 0,
{
}

/// A new encoder has the size and the codec of its setup, and neither frames nor output.
pub proof fn law_encoders_start_empty(setup: EncoderSetup, encoder: VideoEncoder)
    requires
        call_ensures(EncoderSetup::encoder, (&setup,), encoder),
    ensures
        encoder.width == setup.width && encoder.height == setup.height,
        encoder.codec_type == setup.codec_type,
        encoder.frame_count == 0,
        encoder.output@.len() == 0,
{
}

/// A frame has the size of its encoder exactly where both width and height are the encoder's.
pub proof fn law_sizes_are_told_apart(encoder: VideoEncoder, width: u32, height: u32, same: bool)
    requires
        call_ensures(VideoEncoder::has_size, (&encoder, width, height), same),
    ensures
        same <==> width == encoder.width && height == encoder.height,
{
}

} // verus!
