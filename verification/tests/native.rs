use orr_desktop::capture::wgcap::{MonitorInfo, NativeSource, ScreenRect};
use orr_desktop::error::Error;
use orr_desktop::mux::mp4::Mp4Muxer;
use orr_desktop::native::{
    even_rect, full_desktop_rect, run_blocking, session_source, NativeSessionHandle, SessionParams,
    Stoppable,
};
use orr_desktop::pipeline::{Frame, FrameSource, FrameSpec, Muxer, Sample, TrackInfo};
use orr_desktop::recorder::{Quality, Rect};
use std::sync::atomic::{AtomicBool, Ordering};
use std::sync::Arc;

fn monitor(left: i32, top: i32, w: i32, h: i32) -> MonitorInfo {
    MonitorInfo {
        hmon: 0,
        gdi_rect: ScreenRect {
            left,
            top,
            right: left + w,
            bottom: top + h,
        },
        phys_origin: (left, top),
        phys_size: (w as u32, h as u32),
        primary: left == 0 && top == 0,
    }
}

#[test]
fn even_rect_rounds_down() {
    let r = Rect {
        x: -10,
        y: 5,
        w: 321,
        h: 241,
    };
    let e = even_rect(r);
    assert_eq!((e.x, e.y), (-10, 5));
    assert_eq!((e.w, e.h), (320, 240));
}

#[test]
fn full_desktop_covers_primary() {
    let r = full_desktop_rect(&[monitor(0, 0, 1920, 1080)]).expect("monitors");
    assert!(r.w >= 640 && r.h >= 480, "virtual desktop too small: {r:?}");
}

#[test]
fn full_desktop_spans_all_monitors() {
    let all = [
        monitor(0, 0, 2560, 1440),
        monitor(-1920, 200, 1920, 1080),
        monitor(300, -900, 1600, 900),
    ];
    assert_eq!(
        full_desktop_rect(&all).unwrap(),
        Rect {
            x: -1920,
            y: -900,
            w: 4480,
            h: 2340
        }
    );
    assert!(matches!(full_desktop_rect(&[]), Err(Error::NoMonitors)));
}

fn params(w: u32, h: u32) -> SessionParams {
    SessionParams {
        rect: Rect { x: 10, y: 20, w, h },
        fps: 30,
        cursor: false,
        quality: Quality::Low,
    }
}

#[test]
fn session_takes_the_even_part_of_the_region() {
    let screen = (0, 0, 1920, 1080);
    let all = || Ok(vec![monitor(0, 0, 1920, 1080)]);
    let source = session_source(&params(101, 51), true, screen, all()).unwrap();
    assert_eq!(source.name(), "wgcap");
    match source {
        NativeSource::Wgc(s) => assert_eq!((s.rect.w, s.rect.h), (100, 50)),
        NativeSource::Gdi(_) => panic!("wrong backend"),
    }
    assert!(matches!(
        session_source(&params(1, 51), true, screen, all()),
        Err(Error::EmptyRegion)
    ));
    assert!(matches!(
        session_source(&params(64, 1), true, screen, all()),
        Err(Error::EmptyRegion)
    ));
}

struct Gradient {
    spec: FrameSpec,
    given: u64,
}

impl FrameSource for Gradient {
    fn spec(&self) -> FrameSpec {
        self.spec
    }
    fn start(&mut self) -> Result<(), Error> {
        Ok(())
    }
    fn next_frame(&mut self) -> Option<Frame> {
        let mut f = Frame::new(self.spec.width, self.spec.height, self.given * 33);
        for (px, chunk) in f.data.chunks_exact_mut(4).enumerate() {
            chunk.copy_from_slice(&[px as u8, self.given as u8, 7, 255]);
        }
        self.given += 1;
        Some(f)
    }
}

struct Collect {
    opened: Option<TrackInfo>,
    pts: Vec<u64>,
}

impl Muxer for Collect {
    fn open(&mut self, track: &TrackInfo) -> Result<(), Error> {
        self.opened = Some(*track);
        Ok(())
    }
    fn write_sample(&mut self, sample: &Sample) -> Result<(), Error> {
        self.pts.push(sample.pts_ms);
        Ok(())
    }
    fn finalize(&mut self) -> Result<String, Error> {
        Ok("collected".to_string())
    }
}

fn gradient() -> Gradient {
    Gradient {
        spec: FrameSpec {
            width: 32,
            height: 16,
            fps: 30,
        },
        given: 0,
    }
}

#[test]
fn session_ends_at_its_frame_budget() {
    let mut mux = Collect {
        opened: None,
        pts: Vec::new(),
    };
    let stop = Arc::new(AtomicBool::new(false));
    let mut source = Stoppable::new(gradient(), stop, Some(9));
    let (stats, path) = run_blocking(Quality::Low, 1, &mut source, &mut mux).expect("runs");
    assert!(!source.stopped());
    assert_eq!(stats.frames_encoded, 9);
    assert_eq!(stats.samples_written, 9);
    assert_eq!(stats.duration_ms, 8 * 33);
    assert_eq!(path, "collected");
    assert_eq!(mux.opened.unwrap().width, 32);
    assert_eq!(mux.pts, (0..9).map(|i| i * 33).collect::<Vec<u64>>());
}

#[test]
fn raised_flag_ends_the_session_and_completes_the_file() {
    let mut mux = Collect {
        opened: None,
        pts: Vec::new(),
    };
    let stop = Arc::new(AtomicBool::new(true));
    let mut source = Stoppable::new(gradient(), stop, None);
    let (stats, path) = run_blocking(Quality::Low, 1, &mut source, &mut mux).expect("runs");
    assert!(source.stopped());
    assert_eq!(stats.frames_source, 0);
    assert_eq!(path, "collected");
}

#[test]
fn stoppable_source() {
    let stop = Arc::new(AtomicBool::new(false));
    let mut s = Stoppable::new(gradient(), Arc::clone(&stop), Some(3));
    assert_eq!(s.spec().width, 32);
    s.start().unwrap();
    assert_eq!(s.next_frame().unwrap().pts_ms, 0);
    assert!(s.step(true).is_none());
    assert_eq!(s.step(false).unwrap().pts_ms, 33);
    assert_eq!(s.next_frame().unwrap().pts_ms, 66);
    assert!(s.next_frame().is_none());
    stop.store(true, Ordering::Relaxed);
    let mut t = Stoppable::new(gradient(), stop, None);
    assert!(t.next_frame().is_none());
}

#[test]
fn session_leaves_a_file_with_every_frame() {
    let mut mux = Mp4Muxer::create("session.mp4".to_string());
    let stop = Arc::new(AtomicBool::new(false));
    let mut source = Stoppable::new(gradient(), stop, Some(7));
    let (stats, path) = run_blocking(Quality::Low, 1, &mut source, &mut mux).expect("runs");
    assert_eq!(path, "session.mp4");
    assert_eq!(stats.frames_source, 7);
    assert_eq!(stats.samples_written, 7);
    let done = mux.take_file().expect("a file");
    assert_eq!(done.frames, 7);
    assert_eq!(done.bytes_written, done.bytes.len() as u64);
    assert_eq!(&done.bytes[4..8], b"ftyp");
    assert!(mux.take_file().is_none());
}

#[test]
fn handle_ends_the_session_that_has_its_flag() {
    let (handle, flag) = NativeSessionHandle::new();
    let mut source = Stoppable::new(gradient(), flag, None);
    assert!(source.next_frame().is_some());
    assert!(source.next_frame().is_some());
    handle.stop();
    assert!(source.next_frame().is_none());
    assert!(source.next_frame().is_none());
}

struct Scripted {
    spec: FrameSpec,
    start: Result<(), &'static str>,
    asked: u32,
}

impl FrameSource for Scripted {
    fn spec(&self) -> FrameSpec {
        self.spec
    }
    fn start(&mut self) -> Result<(), Error> {
        self.start.map_err(|e| Error::Message(e.to_string()))
    }
    fn next_frame(&mut self) -> Option<Frame> {
        self.asked += 1;
        None
    }
}

#[test]
fn session_ends_with_what_failed_first() {
    let run = |spec: FrameSpec, start: Result<(), &'static str>| {
        let mut mux = Mp4Muxer::create("never.mp4".to_string());
        let inner = Scripted {
            spec,
            start,
            asked: 0,
        };
        let mut source = Stoppable::new(inner, Arc::new(AtomicBool::new(false)), Some(3));
        let r = run_blocking(Quality::Low, 1, &mut source, &mut mux);
        assert!(mux.take_file().is_none() || r.is_ok());
        r
    };
    let spec = |width: u32, height: u32| FrameSpec {
        width,
        height,
        fps: 30,
    };
    assert!(
        matches!(run(spec(32, 32), Err("no screen")), Err(Error::Message(why)) if why == "no screen")
    );
    assert!(matches!(
        run(spec(33, 32), Ok(())),
        Err(Error::OddDimensions { width: 33, height: 32 })
    ));
    assert!(matches!(
        run(spec(4096, 32), Ok(())),
        Err(Error::ResolutionTooLarge { .. })
    ));
    // A source that ends at once still leaves a file.
    let (stats, path) = run(spec(32, 32), Ok(())).expect("an empty recording");
    assert_eq!((stats.frames_source, stats.samples_written), (0, 0));
    assert_eq!(path, "never.mp4");
}

#[test]
fn stopped_source_hands_frames_on_until_the_budget() {
    let stop = Arc::new(AtomicBool::new(false));
    let mut none = Stoppable::new(gradient(), Arc::clone(&stop), Some(0));
    assert!(none.next_frame().is_none());
    let mut five = Stoppable::new(gradient(), Arc::clone(&stop), Some(5));
    let pts: Vec<u64> = (0..9)
        .filter_map(|_| five.next_frame())
        .map(|f| f.pts_ms)
        .collect();
    assert_eq!(pts, [0, 33, 66, 99, 132]);
    assert!(!five.stopped());
    let mut ended = Stoppable::new(
        Scripted {
            spec: FrameSpec {
                width: 2,
                height: 2,
                fps: 1,
            },
            start: Ok(()),
            asked: 0,
        },
        stop,
        Some(2),
    );
    assert!((0..4).all(|_| ended.next_frame().is_none()));
    assert!(!ended.stopped());
}
