use orr_desktop::encode::sw::{
    complexity_for, plan_setup, sample_from, Complexity, EncodedPicture, EncoderSetup, FrameKind,
    RateControl, SwH264Encoder, Usage,
};
use orr_desktop::error::Error;
use orr_desktop::pipeline::{Frame, FrameSpec, VideoEncoder};
use orr_desktop::recorder::Quality;

fn gradient_frames(spec: FrameSpec, n: u32) -> Vec<Frame> {
    (0..n)
        .map(|i| {
            let mut f = Frame::new(spec.width, spec.height, (i as u64 * 1000) / spec.fps as u64);
            for (px, chunk) in f.data.chunks_exact_mut(4).enumerate() {
                let x = (px % spec.width as usize) as u8;
                chunk.copy_from_slice(&[x, i as u8, 255 - x, 255]);
            }
            f
        })
        .collect()
}

#[test]
fn sw_encoder_produces_annexb_keyframe_first() {
    let spec = FrameSpec {
        width: 64,
        height: 48,
        fps: 30,
    };
    let mut enc = SwH264Encoder::new(Quality::Low);
    enc.init(&spec).expect("init");
    let frames = gradient_frames(spec, 5);
    let mut samples = Vec::new();
    for f in &frames {
        samples.extend(enc.feed(f).expect("feed"));
    }
    samples.extend(enc.finish().expect("finish"));

    assert_eq!(samples.len(), 5, "no B-frame drain expected");
    assert!(samples[0].keyframe, "first sample must be a keyframe");
    assert!(!samples[1].keyframe, "later samples should be delta frames");
    // Annex-B start code prefix on the first NAL.
    assert_eq!(&samples[0].data[..4], &[0, 0, 0, 1]);
    // SPS (type 7/0x67) or PPS (type 8/0x68) or IDR (type 5/0x65) header bytes present.
    assert!(samples.iter().all(|s| !s.data.is_empty()));
    assert_eq!(samples[0].pts_ms, 0);
    assert_eq!(samples[4].pts_ms, 133); // 4*1000/30
    assert_eq!(enc.codec_name(), "openh264");

    assert_eq!(samples[2].dur_ms, 33);
    assert_eq!(enc.encoded(), 5);
}

#[test]
fn sw_encoder_rejects_odd_dimensions() {
    let mut enc = SwH264Encoder::new(Quality::Low);
    let err = enc
        .init(&FrameSpec {
            width: 321,
            height: 240,
            fps: 30,
        })
        .expect_err("odd width must fail");
    assert!(err.message().unwrap().contains("even"));
}

#[test]
fn presets_map_monotonically_to_bitrate_and_complexity() {
    let b = |q| SwH264Encoder::new(q).bitrate_bps();
    assert!(b(Quality::Ultra) > b(Quality::High));
    assert!(b(Quality::High) > b(Quality::Medium));
    assert!(b(Quality::Medium) > b(Quality::Low));
    assert_eq!(b(Quality::High), 50_000_000);
    assert!(matches!(
        SwH264Encoder::new(Quality::Ultra).complexity(),
        Complexity::High
    ));
    assert!(matches!(
        SwH264Encoder::new(Quality::Low).complexity(),
        Complexity::Low
    ));
    assert_eq!(complexity_for(Quality::High), Complexity::Medium);
    assert_eq!(complexity_for(Quality::Medium), Complexity::Low);
}

#[test]
fn streams_the_codec_cannot_take_are_refused() {
    let mut enc = SwH264Encoder::new(Quality::High);
    let spec = |width, height, fps| FrameSpec { width, height, fps };
    assert!(matches!(
        enc.init(&spec(3842, 2160, 30)),
        Err(Error::ResolutionTooLarge {
            width: 3842,
            height: 2160
        })
    ));
    assert!(matches!(
        enc.init(&spec(1920, 2162, 30)),
        Err(Error::ResolutionTooLarge { .. })
    ));
    assert!(matches!(
        enc.init(&spec(64, 49, 30)),
        Err(Error::OddDimensions { .. })
    ));
    assert!(matches!(
        enc.init(&spec(64, 48, u32::MAX)),
        Err(Error::FrameRateTooHigh { .. })
    ));
    // a frame rate of zero counts as one
    enc.init(&spec(64, 48, 0)).unwrap();
    let samples = enc.feed(&Frame::new(64, 48, 0)).unwrap();
    assert_eq!(samples[0].dur_ms, 1000);
}

#[test]
fn frames_that_cannot_be_encoded_are_refused() {
    let mut enc = SwH264Encoder::new(Quality::Low);
    assert!(matches!(
        enc.feed(&Frame::new(64, 48, 0)),
        Err(Error::EncoderNotReady)
    ));
    enc.init(&FrameSpec {
        width: 64,
        height: 48,
        fps: 30,
    })
    .unwrap();
    let mut short = Frame::new(64, 48, 0);
    short.data.pop();
    assert!(matches!(
        enc.feed(&short),
        Err(Error::UnusableFrame {
            width: 64,
            height: 48
        })
    ));
    assert!(matches!(
        enc.feed(&Frame::new(1, 48, 0)),
        Err(Error::UnusableFrame { .. })
    ));
    assert!(matches!(
        enc.feed(&Frame::new(64, 1, 0)),
        Err(Error::UnusableFrame { .. })
    ));
    assert!(matches!(
        enc.feed(&Frame::new(64, 48, 1 << 63)),
        Err(Error::TimestampTooLarge { .. })
    ));
    assert_eq!(enc.encoded(), 0);
    // beyond what the codec takes
    assert!(matches!(
        enc.feed(&Frame::new(4000, 2, 0)),
        Err(Error::Codec(_))
    ));
}

#[test]
fn codec_setup_follows_the_stream() {
    let small = FrameSpec {
        width: 640,
        height: 480,
        fps: 24,
    };
    assert_eq!(
        plan_setup(&small, 15_000_000, Complexity::Low, 16),
        EncoderSetup {
            bitrate_bps: 15_000_000,
            fps: 24,
            rate_control: RateControl::Bitrate,
            usage: Usage::ScreenContentRealTime,
            complexity: Complexity::Low,
            intra_period: 240,
            threads: 1,
            max_slice_len: None,
        }
    );
    let large = FrameSpec {
        width: 1920,
        height: 1080,
        fps: 60,
    };
    let threads = |cores| {
        let s = plan_setup(&large, 1, Complexity::High, cores);
        assert_eq!(s.max_slice_len, Some(65536));
        assert_eq!(s.intra_period, 600);
        s.threads
    };
    assert_eq!((threads(0), threads(3), threads(16)), (2, 3, 4));
}

#[test]
fn large_frames_use_several_threads() {
    let spec = FrameSpec {
        width: 1280,
        height: 720,
        fps: 30,
    };
    let mut enc = SwH264Encoder::with_cores(Quality::Ultra, 4);
    enc.init(&spec).unwrap();
    for f in &gradient_frames(spec, 2) {
        assert_eq!(enc.feed(f).unwrap().len(), 1);
    }
}

#[test]
fn initialising_ahead_is_skipped_when_ready() {
    let spec = FrameSpec {
        width: 64,
        height: 48,
        fps: 30,
    };
    let mut enc = SwH264Encoder::new(Quality::Low);
    enc.pre_init(&spec).unwrap();
    enc.feed(&Frame::new(64, 48, 0)).unwrap();
    enc.pre_init(&spec).unwrap();
    assert_eq!(enc.encoded(), 1);
    enc.pre_init(&FrameSpec {
        width: 32,
        height: 32,
        fps: 30,
    })
    .unwrap();
    assert_eq!(enc.encoded(), 0);
}

#[test]
fn answers_become_samples() {
    let sample = |kind, fps| {
        sample_from(
            EncodedPicture {
                data: vec![9],
                kind,
            },
            77,
            fps,
        )
    };
    let s = sample(FrameKind::Idr, 60);
    assert_eq!((s.keyframe, s.pts_ms, s.dur_ms), (true, 77, 16));
    assert_eq!(s.data, [9]);
    assert!(sample(FrameKind::I, 30).keyframe);
    for kind in [
        FrameKind::P,
        FrameKind::Skip,
        FrameKind::Invalid,
        FrameKind::IPMixed,
    ] {
        assert!(!sample(kind, 30).keyframe);
    }
    assert_eq!(sample(FrameKind::P, 0).dur_ms, 1000);
    assert_eq!(sample(FrameKind::P, 2000).dur_ms, 0);
}
