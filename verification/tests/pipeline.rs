use orr_desktop::error::Error;
use orr_desktop::pipeline::{
    run, Frame, FrameSource, FrameSpec, Muxer, PipelineStats, Sample, TrackInfo, VideoEncoder,
};

struct CountingSource {
    spec: FrameSpec,
    remaining: usize,
    emitted: usize,
    started: bool,
    refuse: bool,
}

impl FrameSource for CountingSource {
    fn spec(&self) -> FrameSpec {
        self.spec
    }
    fn start(&mut self) -> Result<(), Error> {
        if self.refuse {
            return Err(Error::Message("no start".to_string()));
        }
        self.started = true;
        Ok(())
    }
    fn next_frame(&mut self) -> Option<Frame> {
        if self.remaining == 0 {
            return None;
        }
        self.remaining -= 1;
        let pts = (self.emitted as u64 * 1000) / self.spec.fps as u64;
        self.emitted += 1;
        let mut f = Frame::new(self.spec.width, self.spec.height, pts);
        f.data[0] = (self.emitted % 256) as u8;
        Some(f)
    }
}

struct CountingEncoder {
    fed: usize,
    finished: bool,
    inited_with: Option<FrameSpec>,
    fail_at: Option<usize>,
}

impl VideoEncoder for CountingEncoder {
    fn codec_name(&self) -> &'static str {
        "counting"
    }
    fn init(&mut self, spec: &FrameSpec) -> Result<(), Error> {
        self.inited_with = Some(*spec);
        Ok(())
    }
    fn feed(&mut self, frame: &Frame) -> Result<Vec<Sample>, Error> {
        self.fed += 1;
        if self.fail_at == Some(self.fed) {
            return Err(Error::Message(format!("frame {}", self.fed)));
        }
        Ok(vec![Sample {
            data: vec![self.fed as u8],
            keyframe: self.fed == 1,
            pts_ms: frame.pts_ms,
            dur_ms: 33,
        }])
    }
    fn finish(&mut self) -> Result<Vec<Sample>, Error> {
        self.finished = true;
        Ok(vec![Sample {
            data: vec![0xAA],
            keyframe: false,
            pts_ms: u64::MAX / 2,
            dur_ms: 0,
        }])
    }
}

struct MemoryMuxer {
    log: Vec<&'static str>,
    samples: Vec<Sample>,
    opened_with: Option<TrackInfo>,
    out: String,
    full_after: Option<usize>,
}

impl Muxer for MemoryMuxer {
    fn open(&mut self, track: &TrackInfo) -> Result<(), Error> {
        self.log.push("open");
        self.opened_with = Some(*track);
        Ok(())
    }
    fn write_sample(&mut self, sample: &Sample) -> Result<(), Error> {
        if self.full_after == Some(self.samples.len()) {
            return Err(Error::Message("disk full".to_string()));
        }
        self.log.push("sample");
        self.samples.push(sample.clone());
        Ok(())
    }
    fn finalize(&mut self) -> Result<String, Error> {
        self.log.push("finalize");
        Ok(self.out.clone())
    }
}

fn stages(frames: usize) -> (CountingSource, CountingEncoder, MemoryMuxer) {
    (
        CountingSource {
            spec: FrameSpec {
                width: 4,
                height: 2,
                fps: 30,
            },
            remaining: frames,
            emitted: 0,
            started: false,
            refuse: false,
        },
        CountingEncoder {
            fed: 0,
            finished: false,
            inited_with: None,
            fail_at: None,
        },
        MemoryMuxer {
            log: Vec::new(),
            samples: Vec::new(),
            opened_with: None,
            out: "orr_pipe_test.mp4".to_string(),
            full_after: None,
        },
    )
}

fn words(e: Error) -> String {
    e.message().expect("an error with words")
}

#[test]
fn pump_flows_frames_in_order_and_flushes() {
    let (mut src, mut enc, mut mux) = stages(5);
    let spec = src.spec;
    let out_path = mux.out.clone();

    let (stats, written) = run(&mut src, &mut enc, &mut mux).expect("pipeline runs");

    assert!(src.started);
    assert_eq!(enc.inited_with, Some(spec));
    assert_eq!(enc.fed, 5);

    assert_eq!(stats.frames_source, 5);
    assert_eq!(stats.frames_encoded, 5);
    assert_eq!(stats.duration_ms, (4 * 1000) / 30); // last pts

    assert_eq!(mux.opened_with, Some(TrackInfo::from(spec)));
    assert_eq!(mux.samples.len(), 6); // 5 frames + 1 flushed tail
    assert!(mux.samples.first().unwrap().keyframe);
    assert_eq!(*mux.log.last().unwrap(), "finalize");
    assert_eq!(written, out_path);

    // strict ordering: open before all samples before finalize
    assert_eq!(mux.log[0], "open");
    assert_eq!(&mux.log[1..6], &["sample"; 5]);

    assert!(enc.finished);
    assert_eq!(stats.samples_written, 6);
    let order: Vec<u8> = mux.samples.iter().map(|s| s.data[0]).collect();
    assert_eq!(order, [1, 2, 3, 4, 5, 0xAA]);
}

#[test]
fn empty_stream_still_flushes() {
    let (mut src, mut enc, mut mux) = stages(0);
    let (stats, _) = run(&mut src, &mut enc, &mut mux).unwrap();
    assert_eq!(
        stats,
        PipelineStats {
            samples_written: 1,
            ..PipelineStats::default()
        }
    );
    assert_eq!(mux.log, ["open", "sample", "finalize"]);
}

#[test]
fn source_that_does_not_start_ends_the_run() {
    let (mut src, mut enc, mut mux) = stages(3);
    src.refuse = true;
    let e = run(&mut src, &mut enc, &mut mux).expect_err("must fail");
    assert_eq!(words(e), "no start");
    assert_eq!(enc.inited_with, None);
    assert!(mux.log.is_empty());
}

#[test]
fn refused_frame_ends_the_run_without_a_file() {
    let (mut src, mut enc, mut mux) = stages(5);
    enc.fail_at = Some(3);
    let e = run(&mut src, &mut enc, &mut mux).expect_err("must fail");
    assert_eq!(words(e), "frame 3");
    assert_eq!(src.remaining, 2);
    assert!(!enc.finished);
    assert_eq!(mux.log, ["open", "sample", "sample"]);
}

#[test]
fn refused_sample_ends_the_run_without_a_file() {
    let (mut src, mut enc, mut mux) = stages(5);
    mux.full_after = Some(5); // the flushed tail does not fit
    let e = run(&mut src, &mut enc, &mut mux).expect_err("must fail");
    assert_eq!(words(e), "disk full");
    assert!(enc.finished);
    assert_eq!(*mux.log.last().unwrap(), "sample");
}

#[test]
fn new_frame_is_black_and_full_size() {
    let f = Frame::new(3, 2, 40);
    assert_eq!((f.width, f.height, f.pts_ms), (3, 2, 40));
    assert_eq!(f.data, vec![0u8; 24]);
}
