use orr_desktop::encode::sw::SwH264Encoder;
use orr_desktop::error::Error;
use orr_desktop::mux::mp4::Mp4Muxer;
use orr_desktop::pipeline::{Frame, FrameSpec, Muxer, Sample, TrackInfo, VideoEncoder};
use orr_desktop::recorder::Quality;

/// Encode `n` synthetic gradient frames and return Annex-B samples.
fn encode_samples(spec: FrameSpec, n: usize) -> Vec<Sample> {
    let mut enc = SwH264Encoder::new(Quality::Low);
    enc.init(&spec).expect("encoder init");
    let mut out = Vec::new();
    for i in 0..n {
        let mut f = Frame::new(spec.width, spec.height, (i as u64 * 1000) / spec.fps as u64);
        for (px, chunk) in f.data.chunks_exact_mut(4).enumerate() {
            let x = (px % spec.width as usize) as u8;
            chunk.copy_from_slice(&[x.wrapping_mul(7), i as u8, x ^ 0x5A, 255]);
        }
        out.extend(enc.feed(&f).expect("feed"));
    }
    out.extend(enc.finish().expect("finish"));
    out
}

fn top_level_boxes(buf: &[u8]) -> Vec<(u32, [u8; 4], usize)> {
    // (size, type, offset) — walks the ISO-BMFF box chain from offset 0.
    let mut boxes = Vec::new();
    let mut off = 0usize;
    while off + 8 <= buf.len() {
        let size = u32::from_be_bytes([buf[off], buf[off + 1], buf[off + 2], buf[off + 3]]);
        let ty = [buf[off + 4], buf[off + 5], buf[off + 6], buf[off + 7]];
        if size == 0 {
            boxes.push((0, ty, off));
            break;
        }
        boxes.push((size, ty, off));
        off += size as usize;
    }
    boxes
}

const SPEC: FrameSpec = FrameSpec {
    width: 64,
    height: 48,
    fps: 30,
};

fn mux_all(samples: &[Sample]) -> Vec<u8> {
    let mut mux = Mp4Muxer::create("all.mp4".to_string());
    mux.open(&TrackInfo::from(SPEC)).expect("open");
    for s in samples {
        mux.write_sample(s).expect("write_sample");
    }
    mux.finalize().expect("finalize");
    mux.take_file().expect("a file").bytes
}

#[test]
fn mp4_has_ftyp_moov_before_mdat_and_exact_duration() {
    let spec = SPEC;
    let n_frames = 12usize;
    let samples = encode_samples(spec, n_frames);

    let path = "orr_mux_test.mp4".to_string();
    let mut mux = Mp4Muxer::create(path.clone());
    mux.open(&TrackInfo::from(spec)).expect("open");
    for s in &samples {
        mux.write_sample(s).expect("write_sample");
    }
    let written = mux.finalize().expect("finalize");
    assert_eq!(written, path);

    let done = mux.take_file().expect("file");
    assert_eq!(done.frames, done.stats.video_frames);
    assert_eq!(done.bytes_written, done.bytes.len() as u64);
    let (stats, buf) = (done.stats, done.bytes);
    assert_eq!(stats.video_frames, 12);
    assert_eq!(stats.bytes_written, buf.len() as u64);
    assert!(
        buf.len() > 1024,
        "suspiciously tiny mp4: {} bytes",
        buf.len()
    );

    let boxes = top_level_boxes(&buf);
    let types: Vec<[u8; 4]> = boxes.iter().map(|b| b.1).collect();
    assert_eq!(types.first().copied(), Some(*b"ftyp"), "ftyp must be first");
    assert!(types.contains(b"moov"), "moov box missing");
    assert!(types.contains(b"mdat"), "mdat box missing");
    // fast-start equivalent: moov precedes mdat
    let moov_pos = types.iter().position(|t| t == b"moov").unwrap();
    let mdat_pos = types.iter().position(|t| t == b"mdat").unwrap();
    assert!(moov_pos < mdat_pos, "fast-start violated: moov after mdat");
    assert_eq!(types, [*b"ftyp", *b"moov", *b"mdat"]);

    // mvhd duration: walk moov children for 'mvhd', read timescale+duration.
    let moov_off = boxes.iter().find(|b| b.1 == *b"moov").unwrap().2;
    let mvhd_type = moov_off
        + buf[moov_off..]
            .windows(4)
            .position(|w| w == b"mvhd")
            .expect("mvhd present");
    // Box header: size(4)+type(4); FullBox: version(1)+flags(3).
    let p = mvhd_type + 4 + 4; // first byte after version+flags -> creation_time
    let (timescale, duration): (u32, u64) = if buf[mvhd_type + 4] == 1 {
        (
            u32::from_be_bytes([buf[p + 16], buf[p + 17], buf[p + 18], buf[p + 19]]),
            u64::from_be_bytes([
                buf[p + 20],
                buf[p + 21],
                buf[p + 22],
                buf[p + 23],
                buf[p + 24],
                buf[p + 25],
                buf[p + 26],
                buf[p + 27],
            ]),
        )
    } else {
        (
            u32::from_be_bytes([buf[p + 8], buf[p + 9], buf[p + 10], buf[p + 11]]),
            u32::from_be_bytes([buf[p + 12], buf[p + 13], buf[p + 14], buf[p + 15]]) as u64,
        )
    };
    let dur_secs = duration as f64 / timescale as f64;
    let expected = n_frames as f64 / f64::from(spec.fps);
    assert!(
        (dur_secs - expected).abs() <= 1.0 / f64::from(spec.fps),
        "duration {dur_secs:.3}s != expected {expected:.3}s"
    );
}

#[test]
fn duplicate_pts_are_bumped_not_rejected() {
    let samples = encode_samples(SPEC, 3);
    let mut mux = Mp4Muxer::create("orr_mux_dup.mp4".to_string());
    mux.open(&TrackInfo::from(SPEC)).expect("open");
    // Force all three samples onto the same source PTS; the muxer must
    // internally space them instead of erroring on non-increasing PTS.
    for s in &samples {
        let mut s = s.clone();
        s.pts_ms = 33;
        mux.write_sample(&s).expect("duplicate pts accepted");
    }
    mux.finalize().expect("finalize");
    let file = mux.take_file().expect("a file").bytes;
    assert!(!file.is_empty());
    // the same as if they had come one millisecond apart
    let mut spaced = samples.clone();
    for (i, s) in spaced.iter_mut().enumerate() {
        s.pts_ms = 33 + i as u64;
    }
    assert_eq!(file, mux_all(&spaced));
}

#[test]
fn nothing_is_written_to_a_closed_muxer() {
    let samples = encode_samples(SPEC, 1);
    let mut mux = Mp4Muxer::create("closed.mp4".to_string());
    assert!(matches!(
        mux.write_sample(&samples[0]),
        Err(Error::MuxerNotOpened)
    ));
    assert!(matches!(mux.finalize(), Err(Error::MuxerNotOpened)));
    assert!(mux.take_file().is_none());
    mux.open(&TrackInfo::from(SPEC)).unwrap();
    mux.write_sample(&samples[0]).unwrap();
    mux.finalize().unwrap();
    // completed once, the track is closed
    assert!(matches!(mux.finalize(), Err(Error::MuxerNotOpened)));
    assert!(mux.take_file().is_some());
    assert!(mux.take_file().is_none());
}

#[test]
fn tracks_a_container_cannot_describe_are_refused() {
    let mut mux = Mp4Muxer::create("x.mp4".to_string());
    let track = |width, height| TrackInfo {
        width,
        height,
        fps: 30,
    };
    for t in [track(0, 48), track(64, 0), track(65536, 48), track(64, 65536)] {
        assert!(matches!(mux.open(&t), Err(Error::Container(_))));
    }
    mux.open(&track(65535, 65535)).unwrap();
}

#[test]
fn samples_out_of_place_are_refused() {
    let samples = encode_samples(SPEC, 2);
    let mut mux = Mp4Muxer::create("x.mp4".to_string());
    mux.open(&TrackInfo::from(SPEC)).unwrap();
    // a delta frame cannot come first, nor a keyframe without parameter sets
    assert!(matches!(
        mux.write_sample(&samples[1]),
        Err(Error::Container(_))
    ));
    let mut bare = samples[0].clone();
    bare.data = vec![0, 0, 0, 1, 0x65, 0x88];
    assert!(matches!(mux.write_sample(&bare), Err(Error::Container(_))));
    mux.write_sample(&samples[0]).unwrap();
    let mut empty = samples[1].clone();
    empty.data.clear();
    assert!(matches!(mux.write_sample(&empty), Err(Error::Container(_))));
    // farther apart than the clock can count
    let mut far = samples[1].clone();
    far.pts_ms = 50_000_000;
    assert!(matches!(mux.write_sample(&far), Err(Error::Container(_))));
    let mut never = samples[1].clone();
    never.pts_ms = u64::MAX;
    assert!(matches!(
        mux.write_sample(&never),
        Err(Error::TimestampTooLarge { pts_ms: u64::MAX })
    ));
}

#[test]
fn largest_step_between_samples() {
    let samples = encode_samples(SPEC, 2);
    for (step, fits) in [(47_721_858u64, true), (47_721_859, false)] {
        let mut mux = Mp4Muxer::create("x.mp4".to_string());
        mux.open(&TrackInfo::from(SPEC)).unwrap();
        mux.write_sample(&samples[0]).unwrap();
        let mut next = samples[1].clone();
        next.pts_ms = step;
        assert_eq!(mux.write_sample(&next).is_ok(), fits);
    }
}

/// The duration in the movie header, in milliseconds.
fn movie_ms(file: &[u8]) -> u64 {
    let be32 = |at: usize| u32::from_be_bytes(file[at..at + 4].try_into().unwrap());
    let mvhd = be32(0) as usize + 8;
    assert_eq!(&file[mvhd + 4..mvhd + 8], b"mvhd");
    if file[mvhd + 8] == 0 {
        assert_eq!(be32(mvhd + 20), 1000);
        be32(mvhd + 24) as u64
    } else {
        assert_eq!(be32(mvhd + 28), 1000);
        u64::from_be_bytes(file[mvhd + 32..mvhd + 40].try_into().unwrap())
    }
}

#[test]
fn file_lasts_as_long_as_its_frames() {
    assert_eq!(movie_ms(&mux_all(&[])), 0);
    let samples = encode_samples(SPEC, 12);
    assert_eq!(movie_ms(&mux_all(&samples[..1])), 0);
    // 366 ms from the first frame to the last, which lasts 33 ms
    assert_eq!(movie_ms(&mux_all(&samples)), 399);
    let mut late = samples.clone();
    for s in &mut late {
        s.pts_ms += 1_000_000_000_000;
    }
    assert_eq!(movie_ms(&mux_all(&late)), 399);
    // beyond 32 bits of milliseconds
    let mut long = encode_samples(SPEC, 101);
    for (i, s) in long.iter_mut().enumerate() {
        s.pts_ms = i as u64 * 47_000_000;
    }
    assert_eq!(movie_ms(&mux_all(&long)), 101 * 47_000_000);
}

#[test]
fn late_timestamps_are_handed_on() {
    let samples = encode_samples(SPEC, 3);
    let at = |i: usize, pts_ms: u64| {
        let mut s = samples[i].clone();
        s.pts_ms = pts_ms;
        s
    };
    let half = u64::MAX / 2 - 1;
    let mut mux = Mp4Muxer::create("x.mp4".to_string());
    mux.open(&TrackInfo::from(SPEC)).unwrap();
    mux.write_sample(&at(0, half)).expect("any timestamp");
    mux.finalize().expect("one sample ends in time");
    assert_eq!(mux.take_file().unwrap().frames, 1);

    mux.open(&TrackInfo::from(SPEC)).unwrap();
    mux.write_sample(&at(0, 150_000_000_000_000_000)).unwrap();
    mux.write_sample(&at(1, 150_000_000_000_001_000)).unwrap();
    mux.finalize().expect("in range");

    // the end of this track would not fit the clock
    mux.open(&TrackInfo::from(SPEC)).unwrap();
    mux.write_sample(&at(0, 204_000_000_000_000_000)).unwrap();
    mux.write_sample(&at(1, 204_000_000_000_001_000)).unwrap();
    assert!(matches!(
        mux.finalize(),
        Err(Error::TimestampTooLarge {
            pts_ms: 204_000_000_000_001_000
        })
    ));
    assert!(matches!(mux.finalize(), Err(Error::MuxerNotOpened)));
}

#[test]
fn oversized_sample_is_refused_and_leaves_no_trace() {
    let samples = encode_samples(SPEC, 2);
    let mut mux = Mp4Muxer::create("x.mp4".to_string());
    mux.open(&TrackInfo::from(SPEC)).unwrap();
    let huge = Sample {
        data: vec![0; 3_000_000_001],
        keyframe: true,
        pts_ms: 0,
        dur_ms: 33,
    };
    assert!(matches!(
        mux.write_sample(&huge),
        Err(Error::SampleTooLarge { len: 3_000_000_001 })
    ));
    drop(huge);
    let mut first = samples[0].clone();
    first.pts_ms = 1;
    mux.write_sample(&first).unwrap();
    mux.write_sample(&samples[1]).unwrap();
    mux.finalize().unwrap();
    assert_eq!(
        mux.take_file().unwrap().bytes,
        mux_all(&[first, samples[1].clone()])
    );
}

#[test]
fn empty_track_still_makes_a_file() {
    let file = mux_all(&[]);
    let types: Vec<[u8; 4]> = top_level_boxes(&file).iter().map(|b| b.1).collect();
    assert_eq!(types, [*b"ftyp", *b"moov", *b"mdat"]);
}

#[test]
fn file_depends_on_the_samples_alone() {
    let samples = encode_samples(SPEC, 4);
    assert_eq!(mux_all(&samples), mux_all(&samples));
    assert_ne!(mux_all(&samples), mux_all(&samples[..3]));
}
