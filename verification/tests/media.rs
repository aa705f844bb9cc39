use remotedesk::decoder::{
    DecodeAction, DecodeError, DecodeEvent, DecoderAction, DecoderStep, VideoDecoder,
};
use remotedesk::encoder::{
    sample_len, Block, CMTime, EncoderError, EncoderSetup, FinishAction, FinishEvent, FrameAction,
    FrameEvent, Property, PropertyValue, Session, SetupAction, SetupEvent, VideoEncoder, CODEC_H264, CODEC_HEVC,
    PIXEL_FORMAT_BGRA,
};
use remotedesk::pixels::{bgra_to_rgba, can_snapshot, snapshot, RowCopy};

const CREATED: SetupEvent = SetupEvent::Created { status: 0, session: true };
const SET: SetupEvent = SetupEvent::PropertySet { status: 0 };

/// The properties that are set until the setup ends, where the system refuses nothing.
fn properties_of(setup: &mut EncoderSetup) -> Vec<Property> {
    let mut all: Vec<Property> = Vec::new();
    let mut action = setup.next(CREATED);
    loop {
        match action {
            SetupAction::SetProperty(property) => all.push(property),
            SetupAction::Ready => return all,
            _ => panic!("the setup did not get ready"),
        }
        action = setup.next(SET);
    }
}

#[test]
fn times_are_valid() {
    assert_eq!(
        CMTime::valid(7, 120),
        CMTime { value: 7, timescale: 120, flags: 1, epoch: 0 }
    );
}

#[test]
fn every_property_is_set_in_its_turn() {
    let mut h264 = VideoEncoder::new(1920, 1080, 120);
    assert_eq!(
        h264.first_session(),
        Session { width: 1920, height: 1080, codec_type: CODEC_H264 }
    );
    assert_eq!(
        properties_of(&mut h264),
        vec![
            Property::RealTime,
            Property::ProfileLevel,
            Property::AverageBitRate,
            Property::MaxKeyFrameInterval,
            Property::AllowFrameReordering,
        ]
    );
    let mut hevc = VideoEncoder::new_with_codec(1920, 1080, 120, CODEC_HEVC);
    assert_eq!(
        properties_of(&mut hevc),
        vec![
            Property::RealTime,
            Property::AverageBitRate,
            Property::MaxKeyFrameInterval,
            Property::AllowFrameReordering,
        ]
    );
    let encoder = hevc.encoder();
    assert_eq!(encoder.codec_type, 0x6876_6331);
    assert_eq!((encoder.width, encoder.height, encoder.frame_count), (1920, 1080, 0));
    assert!(encoder.output.is_empty());
}

#[test]
fn properties_have_names_and_values() {
    for (property, key, value) in [
        (Property::RealTime, "RealTime", PropertyValue::Bool(true)),
        (Property::ProfileLevel, "ProfileLevel", PropertyValue::Text("BaselineAutoLevel")),
        (Property::AverageBitRate, "AverageBitRate", PropertyValue::Int(20_000_000)),
        (Property::MaxKeyFrameInterval, "MaxKeyFrameInterval", PropertyValue::Int(120)),
        (Property::AllowFrameReordering, "AllowFrameReordering", PropertyValue::Bool(false)),
    ] {
        assert_eq!(property.key(), key);
        assert_eq!(property.value(), value);
    }
}

#[test]
fn the_setup_falls_back_to_hevc_once() {
    let mut setup = VideoEncoder::new(640, 480, 60);
    match setup.next(SetupEvent::Created { status: -12915, session: false }) {
        SetupAction::FallBack { error, session } => {
            assert_eq!(error, EncoderError::CreateSession { status: -12915 });
            assert_eq!(session, Session { width: 640, height: 480, codec_type: CODEC_HEVC });
        }
        _ => panic!("no fallback"),
    }
    assert!(matches!(
        setup.next(CREATED),
        SetupAction::SetProperty(Property::RealTime)
    ));
    match setup.next(SetupEvent::PropertySet { status: 5 }) {
        SetupAction::Fail(error) => assert_eq!(
            error,
            EncoderError::SetProperty { property: Property::RealTime, status: 5 }
        ),
        _ => panic!("a second fallback"),
    }
}

#[test]
fn a_refused_property_falls_back_too() {
    let mut setup = VideoEncoder::new(640, 480, 60);
    setup.next(CREATED);
    setup.next(SET);
    match setup.next(SetupEvent::PropertySet { status: -1 }) {
        SetupAction::FallBack { error, session } => {
            assert_eq!(
                error,
                EncoderError::SetProperty { property: Property::ProfileLevel, status: -1 }
            );
            assert_eq!(session.codec_type, CODEC_HEVC);
        }
        _ => panic!("no fallback"),
    }
    assert_eq!(properties_of(&mut setup).len(), 4);
    assert_eq!(setup.encoder().codec_type, CODEC_HEVC);
}

#[test]
fn a_missing_session_is_an_error() {
    let mut setup = VideoEncoder::new_with_codec(640, 480, 60, CODEC_H264);
    match setup.next(SetupEvent::Created { status: 0, session: false }) {
        SetupAction::Fail(error) => {
            assert_eq!(error, EncoderError::CreateSession { status: 0 })
        }
        _ => panic!("no error"),
    }
}

#[test]
fn encoder_errors_are_reported_in_words() {
    for (error, text) in [
        (
            EncoderError::CreateSession { status: -12915 },
            "VTCompressionSessionCreate failed: status=-12915",
        ),
        (
            EncoderError::SetProperty { property: Property::AverageBitRate, status: 10 },
            "VTSessionSetProperty(AverageBitRate) failed: status=10",
        ),
        (EncoderError::CreateBuffer { status: 0 }, "CVPixelBufferCreate failed: status=0"),
        (
            EncoderError::LockBuffer { status: i32::MIN },
            "CVPixelBufferLockBaseAddress failed: status=-2147483648",
        ),
        (
            EncoderError::EncodeFrame { status: i32::MAX },
            "VTCompressionSessionEncodeFrame failed: status=2147483647",
        ),
    ] {
        assert_eq!(error.describe(), text);
    }
}

fn encoder() -> VideoEncoder {
    VideoEncoder::new(4, 2, 120).encoder()
}

/// Feeds one frame, and returns the number that it got.
fn feed(encoder: &mut VideoEncoder, status: i32) -> i64 {
    match encoder.encode_frame(FrameEvent::Captured) {
        FrameAction::CreateBuffer { width, height, pixel_format } => {
            assert_eq!((width, height, pixel_format), (4, 2, PIXEL_FORMAT_BGRA))
        }
        _ => panic!("no pixel buffer"),
    }
    assert!(matches!(
        encoder.encode_frame(FrameEvent::BufferCreated { status: 0, buffer: true }),
        FrameAction::Lock
    ));
    match encoder.encode_frame(FrameEvent::Locked {
        status: 0,
        src_stride: 20,
        dst_stride: 32,
        rows: 2,
    }) {
        FrameAction::Copy(copy) => assert_eq!(
            copy,
            RowCopy { width: 4, src_stride: 20, dst_stride: 32, rows: 2 }
        ),
        _ => panic!("no copy"),
    }
    let number = match encoder.encode_frame(FrameEvent::Copied) {
        FrameAction::Submit { timestamp, duration } => {
            assert_eq!(timestamp.timescale, 1);
            assert_eq!(duration, CMTime::valid(1, 120));
            timestamp.value
        }
        _ => panic!("the frame is not handed over"),
    };
    match encoder.encode_frame(FrameEvent::Submitted { status }) {
        FrameAction::Done => assert_eq!(status, 0),
        FrameAction::Fail(error) => assert_eq!(error, EncoderError::EncodeFrame { status }),
        _ => panic!("the frame goes on"),
    }
    number
}

#[test]
fn frames_are_numbered() {
    let mut encoder = encoder();
    assert_eq!(feed(&mut encoder, 0), 0);
    // A frame without a pixel buffer gets no number, one that is refused later does.
    encoder.encode_frame(FrameEvent::Captured);
    assert!(matches!(
        encoder.encode_frame(FrameEvent::BufferCreated { status: 3, buffer: true }),
        FrameAction::Fail(EncoderError::CreateBuffer { status: 3 })
    ));
    assert!(matches!(
        encoder.encode_frame(FrameEvent::BufferCreated { status: 0, buffer: false }),
        FrameAction::Fail(EncoderError::CreateBuffer { status: 0 })
    ));
    assert!(matches!(
        encoder.encode_frame(FrameEvent::Locked {
            status: 4,
            src_stride: 16,
            dst_stride: 16,
            rows: 2
        }),
        FrameAction::Fail(EncoderError::LockBuffer { status: 4 })
    ));
    assert_eq!(feed(&mut encoder, 9), 1);
    assert_eq!(feed(&mut encoder, 0), 2);
    assert_eq!(encoder.frame_count, 3);
    assert!(encoder.can_number());
    encoder.frame_count = i64::MAX;
    assert!(!encoder.can_number());
    assert!(encoder.has_size(4, 2));
    assert!(!encoder.has_size(2, 4));
}

#[test]
fn samples_are_checked() {
    let block = Block { status: 0, has_data: true, total_length: 12 };
    assert_eq!(sample_len(0, Some(block)), Some(12));
    assert_eq!(sample_len(1, Some(block)), None);
    assert_eq!(sample_len(0, None), None);
    assert_eq!(sample_len(0, Some(Block { status: -1, ..block })), None);
    assert_eq!(sample_len(0, Some(Block { has_data: false, ..block })), None);
    assert_eq!(sample_len(0, Some(Block { total_length: 0, ..block })), None);
}

#[test]
fn output_is_taken_in_order_and_whole() {
    let mut encoder = encoder();
    assert_eq!(encoder.try_recv_encoded(), None);
    encoder.push_encoded(vec![1, 2]);
    encoder.push_encoded(vec![]);
    encoder.push_encoded(vec![3]);
    encoder.push_encoded(vec![4, 5]);
    assert_eq!(encoder.try_recv_encoded(), Some(vec![1, 2]));
    assert_eq!(encoder.try_recv_encoded(), Some(vec![]));
    assert_eq!(encoder.output_rx().len(), 2);
    // The caller can drain the output.
    assert_eq!(encoder.output_rx().pop_front(), Some(vec![3]));
    assert_eq!(encoder.try_recv_encoded(), Some(vec![4, 5]));
    assert_eq!(encoder.output_rx().pop_front(), None);
}

#[test]
fn an_encoder_flushes_before_it_ends() {
    let mut encoder = encoder();
    encoder.push_encoded(vec![1, 2]);
    encoder.push_encoded(vec![3]);
    assert_eq!(encoder.try_recv_encoded(), Some(vec![1, 2]));
    assert!(matches!(encoder.finish(FinishEvent::Begun), FinishAction::Flush));
    assert!(matches!(
        encoder.finish(FinishEvent::Flushed { status: -1 }),
        FinishAction::Invalidate
    ));
    assert!(matches!(encoder.finish(FinishEvent::Invalidated), FinishAction::Collect));
    // What waited comes first, and what the flush brought behind it.
    match encoder.finish(FinishEvent::Collected(vec![vec![4, 5], vec![], vec![6]])) {
        FinishAction::Return { data } => assert_eq!(data, vec![3, 4, 5, 6]),
        _ => panic!("the bytes are lost"),
    }
    assert!(encoder.output_rx().is_empty());
}

#[test]
fn rows_are_copied_between_strides() {
    // One pixel in each row; the source has four bytes of padding, the destination two.
    let src: Vec<u8> = vec![1, 2, 3, 4, 91, 92, 93, 94, 5, 6, 7, 8];
    let mut dst: Vec<u8> = vec![0xEE; 13];
    let copy = RowCopy { width: 1, src_stride: 8, dst_stride: 6, rows: 2 };
    copy.copy(&src, &mut dst);
    assert_eq!(
        dst,
        vec![1, 2, 3, 4, 0xEE, 0xEE, 5, 6, 7, 8, 0xEE, 0xEE, 0xEE]
    );
}

#[test]
fn rows_that_the_source_lacks_are_left_alone() {
    let src: Vec<u8> = vec![1, 2, 3, 4, 5, 6, 7];
    let mut dst: Vec<u8> = vec![0; 12];
    RowCopy { width: 1, src_stride: 4, dst_stride: 4, rows: 3 }.copy(&src, &mut dst);
    assert_eq!(dst, vec![1, 2, 3, 4, 0, 0, 0, 0, 0, 0, 0, 0]);
}

#[test]
fn short_strides_limit_the_copy() {
    let src: Vec<u8> = vec![1, 2, 3, 4, 5, 6];
    let mut dst: Vec<u8> = vec![0; 8];
    RowCopy { width: 2, src_stride: 3, dst_stride: 4, rows: 2 }.copy(&src, &mut dst);
    assert_eq!(dst, vec![1, 2, 3, 0, 4, 5, 6, 0]);
    let mut narrow: Vec<u8> = vec![0; 4];
    RowCopy { width: 2, src_stride: 3, dst_stride: 2, rows: 2 }.copy(&src, &mut narrow);
    assert_eq!(narrow, vec![1, 2, 4, 5]);
    let mut none: Vec<u8> = vec![7; 2];
    RowCopy { width: 2, src_stride: 3, dst_stride: 0, rows: 2 }.copy(&src, &mut none);
    assert_eq!(none, vec![7, 7]);
}

#[test]
fn copies_are_tested_before() {
    let copy = RowCopy { width: 1, src_stride: 8, dst_stride: 6, rows: 2 };
    // The last row needs no padding.
    assert!(copy.can_copy(10));
    assert!(!copy.can_copy(9));
    let mut dst: Vec<u8> = vec![0; 10];
    copy.copy(&[1, 2, 3, 4, 0, 0, 0, 0, 5, 6, 7, 8], &mut dst);
    assert_eq!(dst, vec![1, 2, 3, 4, 0, 0, 5, 6, 7, 8]);

    assert!(RowCopy { rows: 0, ..copy }.can_copy(0));
    // Only the offsets that occur have to be counted.
    let far = RowCopy { width: 1, src_stride: usize::MAX - 4, dst_stride: 4, rows: 2 };
    assert!(far.can_copy(8));
    let mut dst: Vec<u8> = vec![0; 8];
    far.copy(&[1, 2, 3, 4, 5], &mut dst);
    assert_eq!(dst, vec![1, 2, 3, 4, 0, 0, 0, 0]);
    assert!(!RowCopy { src_stride: usize::MAX - 3, ..far }.can_copy(8));
    assert!(!RowCopy { rows: 3, ..far }.can_copy(12));
}

#[test]
fn snapshots_are_tested_before() {
    assert!(can_snapshot(17, 2, 2, 9));
    assert!(!can_snapshot(16, 2, 2, 9));
    assert!(can_snapshot(0, 0, 5, 100));
    assert!(can_snapshot(0, 5, 0, 100));
    assert!(!can_snapshot(0, 0, 3, usize::MAX));
    assert!(!can_snapshot(usize::MAX, 0x8000, 0x8000, 0));
    assert!(can_snapshot(usize::MAX, 0x8000, 0x7FFF, 0));
}

#[test]
fn red_and_blue_change_places() {
    // Two by two pixels, with one byte of padding behind the first row.
    let bgra: Vec<u8> = vec![
        1, 2, 3, 4, 5, 6, 7, 8, 99, //
        9, 10, 11, 12, 13, 14, 15, 16,
    ];
    let rgba: Vec<u8> = vec![3, 2, 1, 4, 7, 6, 5, 8, 11, 10, 9, 12, 15, 14, 13, 16];
    assert_eq!(bgra_to_rgba(&bgra, 2, 2, 9), rgba);
    assert_eq!(snapshot(&bgra, 2, 2, 9), rgba);
    assert_eq!(snapshot(&[], 0, 5, 100), Vec::<u8>::new());
    assert_eq!(snapshot(&[], 5, 0, 100), Vec::<u8>::new());
}

#[test]
fn a_decoder_is_set_up_step_by_step() {
    let (decoder, mut action) = VideoDecoder::new(1280, 720);
    assert_eq!((decoder.width(), decoder.height()), (1280, 720));
    let mut steps: Vec<DecoderStep> = Vec::new();
    while let DecoderAction::Take(step) = action {
        steps.push(step);
        assert_eq!(step.next(false), DecoderAction::Fail(step));
        action = step.next(true);
    }
    assert_eq!(action, DecoderAction::Ready);
    assert_eq!(
        steps,
        vec![
            DecoderStep::Find,
            DecoderStep::Open,
            DecoderStep::Configure,
            DecoderStep::CreateScaler
        ]
    );
    assert_eq!(DecoderStep::Find.context("hevc"), Some("find hevc decoder".to_string()));
    assert_eq!(DecoderStep::Open.context("hevc"), Some("open decoder".to_string()));
    assert_eq!(DecoderStep::Configure.context("hevc"), None);
    assert_eq!(DecoderStep::CreateScaler.context("hevc"), Some("create scaler".to_string()));
}

#[test]
fn packets_are_decoded_or_wait_for_more() {
    let decoder = VideoDecoder::new(2, 1).0;
    assert!(matches!(
        decoder.decode(DecodeEvent::Sent { sent: true }),
        DecodeAction::Receive
    ));
    assert!(matches!(
        decoder.decode(DecodeEvent::Sent { sent: false }),
        DecodeAction::Fail(DecodeError::SendPacket)
    ));
    assert!(matches!(decoder.decode(DecodeEvent::Decoded), DecodeAction::Scale));
    assert!(matches!(decoder.decode(DecodeEvent::Again), DecodeAction::Return(None)));
    assert!(matches!(
        decoder.decode(DecodeEvent::ReceiveFailed),
        DecodeAction::Fail(DecodeError::ReceiveFrame)
    ));
    match decoder.decode(DecodeEvent::Scaled(Some(vec![1, 2, 3]))) {
        DecodeAction::Return(Some(pixels)) => assert_eq!(pixels, vec![1, 2, 3]),
        _ => panic!("the pixels are lost"),
    }
    assert!(matches!(
        decoder.decode(DecodeEvent::Scaled(None)),
        DecodeAction::Fail(DecodeError::Scale)
    ));
    assert_eq!(DecodeError::SendPacket.context(), Some("send packet"));
    assert_eq!(DecodeError::ReceiveFrame.context(), Some("receive frame"));
    assert_eq!(DecodeError::Scale.context(), None);
}
