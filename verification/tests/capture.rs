use orr_desktop::capture::gdi::{stamp_frame, validate_rect, GdiSource, Next};
use orr_desktop::capture::pixels::{cut_pixels, unpack_rows};
use orr_desktop::capture::wgcap::{
    after_pull, choose_containing_monitor, cropped_payload, native_source, plan_pull,
    primary_monitor, MonitorInfo, NativeSource, PullStep, ScreenRect, WgcSource,
};
use orr_desktop::error::Error;
use orr_desktop::pipeline::FrameSpec;
use orr_desktop::recorder::Rect;

const SCREEN: (i32, i32, i32, i32) = (0, 0, 1920, 1080);

fn rect(x: i32, y: i32, w: u32, h: u32) -> Rect {
    Rect { x, y, w, h }
}

fn synthetic(gdi: (i32, i32, i32, i32), phys_origin: (i32, i32), phys: (u32, u32)) -> MonitorInfo {
    MonitorInfo {
        hmon: 0,
        gdi_rect: ScreenRect {
            left: gdi.0,
            top: gdi.1,
            right: gdi.0 + gdi.2,
            bottom: gdi.1 + gdi.3,
        },
        phys_origin,
        phys_size: phys,
        primary: gdi.0 == 0 && gdi.1 == 0,
    }
}

#[test]
fn spec_reports_requested_geometry() {
    let src = GdiSource::new(rect(100, 50, 320, 240), 30, SCREEN).expect("rect valid on any display");
    assert_eq!(
        src.spec(),
        FrameSpec {
            width: 320,
            height: 240,
            fps: 30
        }
    );
}

#[test]
fn offscreen_rect_is_rejected() {
    let (vx, vy, vw, vh) = SCREEN;
    let far = rect(vx + vw + 10_000, vy + vh + 10_000, 100, 100);
    assert!(GdiSource::new(far, 30, SCREEN).is_err());
}

#[test]
fn regions_are_cut_to_the_screen() {
    let screen = (-1920, 0, 3840, 1080);
    assert_eq!(
        validate_rect(rect(-2000, -50, 200, 100), screen).unwrap(),
        rect(-1920, 0, 120, 50)
    );
    assert_eq!(
        validate_rect(rect(1900, 1070, 500, 500), screen).unwrap(),
        rect(1900, 1070, 20, 10)
    );
    let inside = rect(10, 20, 30, 40);
    assert_eq!(validate_rect(inside, screen).unwrap(), inside);
    // touching an edge from outside is no overlap
    assert!(matches!(
        validate_rect(rect(1920, 0, 10, 10), screen),
        Err(Error::OffScreen { .. })
    ));
    assert!(validate_rect(rect(0, 0, 0, 10), screen).is_err());
    // an extent beyond 31 bits is cut like any other
    assert_eq!(
        validate_rect(rect(0, 0, u32::MAX, 10), screen).unwrap(),
        rect(0, 0, 1920, 10)
    );
    assert_eq!(
        validate_rect(rect(i32::MIN, 0, 3_000_000_000, 10), screen).unwrap(),
        rect(-1920, 0, 3840, 10)
    );
    assert!(matches!(
        validate_rect(inside, (0, 0, 0, 1080)),
        Err(Error::NoVirtualScreen)
    ));
}

#[test]
fn block_transfer_source_runs_its_course() {
    assert!(matches!(
        GdiSource::new(rect(0, 0, 2, 2), 0, SCREEN),
        Err(Error::ZeroFps)
    ));
    let mut src = GdiSource::full_desktop(60, SCREEN)
        .expect("desktop source")
        .with_max_frames(2);
    assert_eq!(src.rect, rect(0, 0, 1920, 1080));
    assert_eq!(src.next(), Next::End); // not started
    src.begin();
    assert_eq!(src.next(), Next::At(16_666_666));
    let f = src.deliver(vec![1, 2, 3], 17);
    assert_eq!((f.width, f.height, f.pts_ms), (1920, 1080, 17));
    assert_eq!(f.data, [1, 2, 3]);
    assert_eq!(src.next(), Next::At(33_333_332));
    src.deliver(Vec::new(), 34);
    assert_eq!(src.next(), Next::End); // budget spent
    assert!(matches!(
        GdiSource::full_desktop(60, (0, 0, -1, 5)),
        Err(Error::NoVirtualScreen)
    ));
}

#[test]
fn chooser_prefers_fully_contained_monitor() {
    let left = synthetic((-1920, 0, 1920, 1080), (-1920, 0), (1920, 1080));
    let right = synthetic((0, 0, 2560, 1440), (0, 0), (2560, 1440));
    let monitors = vec![left, right];
    let inside_right =
        choose_containing_monitor(&monitors, &rect(100, 100, 800, 600)).expect("contained");
    assert_eq!(inside_right.gdi_rect.left, 0);
    let inside_left =
        choose_containing_monitor(&monitors, &rect(-1900, 10, 400, 300)).expect("contained");
    assert_eq!(inside_left.gdi_rect.left, -1920);
    assert!(choose_containing_monitor(&monitors, &rect(-100, 100, 800, 600)).is_none());
}

#[test]
fn mirrored_monitors_yield_the_last() {
    let mut a = synthetic((0, 0, 800, 600), (0, 0), (800, 600));
    let mut b = a;
    a.hmon = 1;
    b.hmon = 2;
    let r = rect(1, 1, 10, 10);
    assert_eq!(choose_containing_monitor(&[a, b], &r).unwrap().hmon, 2);
    assert_eq!(a.intersection_area(&r), 100);
    assert_eq!(a.intersection_area(&rect(790, 590, 100, 100)), 100);
    assert_eq!(a.intersection_area(&rect(900, 0, 5, 5)), 0);
}

#[test]
fn primary_monitor_is_found() {
    let side = synthetic((1920, 0, 100, 100), (0, 0), (100, 100));
    let main = synthetic((0, 0, 200, 100), (0, 0), (200, 100));
    assert_eq!(primary_monitor(&[side, main]).unwrap().phys_size.0, 200);
    assert_eq!(primary_monitor(&[side]).unwrap().phys_size.0, 100);
    assert!(matches!(primary_monitor(&[]), Err(Error::NoMonitors)));
}

#[test]
fn monitor_from_system_answers() {
    let edges = ScreenRect {
        left: -10,
        top: 0,
        right: 1270,
        bottom: 720,
    };
    let m = MonitorInfo::from_system(7, edges, 1, Some(((-15, 0), (1920, 0))));
    assert_eq!(m.phys_origin, (-15, 0));
    assert_eq!(m.phys_size, (1920, 1));
    assert!(m.primary);
    let m = MonitorInfo::from_system(7, edges, 2, None);
    assert_eq!(m.phys_origin, (-10, 0));
    assert_eq!(m.phys_size, (1280, 720));
    assert!(!m.primary);
    assert_eq!(m.gdi_size(), (1280, 720));
    assert_eq!(m.offset_of(&rect(0, 5, 1, 1)), (10, 5));
    assert_eq!(m.scale_base().unwrap(), (1280, 720));
    let flat = synthetic((0, 0, 0, 720), (0, 0), (1, 1));
    assert!(matches!(
        flat.scale_base(),
        Err(Error::ZeroSizeMonitor { .. })
    ));
}

#[test]
fn crops_stay_inside_the_texture() {
    let m = synthetic((0, 0, 1280, 720), (0, 0), (1920, 1080));
    assert_eq!(m.fit_crop(960, 540, 960, 540), (960, 540, 960, 540));
    assert_eq!(m.fit_crop(-5, 2000, 5000, 0), (0, 1079, 1920, 1));
    assert_eq!(m.fit_crop(1919, 0, 10, 10), (1919, 0, 1, 10));
}

#[test]
fn pull_decisions() {
    let p = plan_pull((64, 48), Some((64, 48)), (64, 48));
    assert!(!p.recreate_pool && !p.restage);
    let p = plan_pull((64, 48), Some((64, 48)), (32, 48));
    assert!(p.recreate_pool && p.restage);
    let p = plan_pull((64, 48), None, (64, 48));
    assert!(!p.recreate_pool && p.restage);
    assert_eq!(after_pull(1, true, false), PullStep::Deliver);
    assert_eq!(after_pull(50, false, true), PullStep::Deliver);
    assert_eq!(after_pull(49, false, false), PullStep::Retry);
    assert_eq!(after_pull(50, false, false), PullStep::GiveUp);
}

#[test]
fn rows_are_packed_and_cropped() {
    // two rows of one pixel, twelve bytes apart
    let mapped: Vec<u8> = (0..20).collect();
    assert_eq!(unpack_rows(&mapped, 12, 4, 2), [0, 1, 2, 3, 12, 13, 14, 15]);
    // 3x3 pixels, each byte its own value
    let texture: Vec<u8> = (0..36).collect();
    assert_eq!(
        cropped_payload((1, 1, 2, 2), 3, &texture),
        [16, 17, 18, 19, 20, 21, 22, 23, 28, 29, 30, 31, 32, 33, 34, 35]
    );
    // beyond the data there is nothing
    assert_eq!(
        cropped_payload((2, 2, 1, 2), 3, &texture),
        [32, 33, 34, 35, 0, 0, 0, 0]
    );
    assert_eq!(cropped_payload((0, 0, 1, 2), 3, &[]), [0u8; 8]);
    assert_eq!(cut_pixels(&texture, 12, 0, 0, 1, 3).len(), 12);
    assert!(cropped_payload((0, 0, 4, 0), -3, &texture).is_empty());
}

#[test]
fn monitor_capture_source_runs_its_course() {
    let all = || Ok(vec![synthetic((0, 0, 1920, 1080), (0, 0), (1920, 1080))]);
    let mut src = WgcSource::with_cursor(rect(200, 150, 480, 360), 30, false, SCREEN, all())
        .unwrap()
        .with_max_frames(1);
    assert!(!src.cursor);
    let spec = |width, height| FrameSpec {
        width,
        height,
        fps: 30,
    };
    assert_eq!(src.spec(None), spec(480, 360));
    assert_eq!(src.spec(Some((720, 540))), spec(720, 540));
    assert_eq!(src.next(), Next::End);
    assert!(src.deliver(Vec::new(), 0).is_none());
    let monitors = all().unwrap();
    assert_eq!(src.monitor_for_start(&monitors).unwrap().phys_size.0, 1920);
    assert!(matches!(
        src.monitor_for_start(&[]),
        Err(Error::NoLongerContained)
    ));
    src.begin((300, 225, 720, 540));
    assert_eq!(src.spec(Some((1, 1))), spec(720, 540));
    assert_eq!(src.next(), Next::At(33_333_333));
    let f = src.deliver(vec![5], 40).unwrap();
    assert_eq!((f.width, f.height, f.pts_ms), (720, 540, 40));
    assert_eq!(src.next(), Next::End);

    let full = WgcSource::primary_fullscreen(60, SCREEN, all()).unwrap();
    assert_eq!(full.rect, rect(0, 0, 1920, 1080));
    assert!(full.cursor);
    assert!(matches!(
        WgcSource::primary_fullscreen(60, SCREEN, Ok(vec![])),
        Err(Error::NoMonitors)
    ));
    assert!(matches!(
        WgcSource::new(rect(0, 0, 4, 4), 0, SCREEN, all()),
        Err(Error::ZeroFps)
    ));
}

#[test]
fn native_source_falls_back_when_region_spans_monitors() {
    let first = synthetic((-1920, 0, 1920, 1080), (-1920, 0), (1920, 1080));
    let last = synthetic((0, 0, 1920, 1080), (0, 0), (1920, 1080));
    let screen = (-1920, 0, 3840, 1080);
    let all = || Ok(vec![first, last]);
    let spanned = rect(
        first.gdi_rect.left.min(last.gdi_rect.left) - 10,
        first.gdi_rect.top.min(last.gdi_rect.top),
        4096,
        400,
    );
    let src = native_source(spanned, 30, true, true, screen, all()).expect("fallback succeeds");
    assert_eq!(src.name(), "gdi");

    // inside one monitor the better backend is taken, if the host has it
    let inside = rect(10, 10, 100, 100);
    let name = |supported, monitors| {
        native_source(inside, 30, true, supported, screen, monitors)
            .unwrap()
            .name()
    };
    assert_eq!(name(true, all()), "wgcap");
    assert_eq!(name(false, all()), "gdi");
    assert_eq!(name(true, Err(Error::NoMonitors)), "gdi");
    assert!(matches!(
        native_source(inside, 0, true, true, screen, all()),
        Err(Error::ZeroFps)
    ));
    assert!(matches!(
        native_source(rect(9000, 0, 4, 4), 30, true, true, screen, all()),
        Err(Error::OffScreen { .. })
    ));
    match native_source(inside, 24, false, true, screen, all()) {
        Ok(NativeSource::Wgc(s)) => assert_eq!((s.fps, s.cursor), (24, false)),
        _ => panic!("monitor capture expected"),
    }
}

#[test]
fn wide_regions_are_in_no_monitor() {
    let m = synthetic((-1920, 0, 1920, 1080), (-1920, 0), (1920, 1080));
    let wide = rect(i32::MIN, 0, 3_000_000_000, 10);
    assert!(choose_containing_monitor(&[m], &wide).is_none());
    assert!(choose_containing_monitor(&[m], &rect(-1920, 0, 0x8000_0000, 10)).is_none());
    assert_eq!(m.intersection_area(&wide), 1920 * 10);
}

#[test]
fn block_transfer_source_keeps_its_budget() {
    let mut src = GdiSource::new(rect(0, 0, 64, 48), 25, SCREEN)
        .unwrap()
        .with_max_frames(3);
    src.begin();
    let mut ticks = Vec::new();
    for _ in 0..6 {
        if let Next::At(t) = src.next() {
            let f = src.deliver(vec![0; 64 * 48 * 4], t / 1_000_000);
            assert_eq!((f.width, f.height), (64, 48));
            ticks.push(f.pts_ms);
        }
    }
    assert_eq!(ticks, [40, 80, 120]);
    assert_eq!(src.next(), Next::End);
}

#[test]
fn captures_frames_with_monotonic_pts() {
    let mut src = GdiSource::full_desktop(60, SCREEN)
        .expect("desktop source")
        .with_max_frames(3);
    let spec = src.spec();
    assert!(spec.width > 0 && spec.height > 0);
    src.begin();
    let mut last_pts = -1i64;
    // a clock that stands still
    for clock in [0, 0, 0] {
        assert!(matches!(src.next(), Next::At(_)), "frame under max");
        let f = src.deliver(vec![0; (spec.width * spec.height * 4) as usize], clock);
        assert_eq!((f.width, f.height), (spec.width, spec.height));
        assert_eq!(f.data.len(), (spec.width * spec.height * 4) as usize);
        assert!((f.pts_ms as i64) > last_pts);
        last_pts = f.pts_ms as i64;
    }
    assert_eq!(src.next(), Next::End, "stream ends at max_frames");
}

#[test]
fn fullscreen_session_matches_spec_and_monotonic_pts() {
    let all = vec![synthetic((0, 0, 1920, 1080), (0, 0), (1920, 1080))];
    let mut src = WgcSource::primary_fullscreen(60, SCREEN, Ok(all))
        .expect("fullscreen source")
        .with_max_frames(3);
    let spec = src.spec(None);
    assert!(spec.width > 0 && spec.height > 0);
    src.begin((0, 0, 1920, 1080));
    let mut last_pts = -1i64;
    for clock in [16, 16, 33] {
        assert!(matches!(src.next(), Next::At(_)));
        let f = src
            .deliver(vec![0; (spec.width * spec.height * 4) as usize], clock)
            .expect("frame");
        assert_eq!((f.width, f.height), (spec.width, spec.height));
        assert_eq!(f.data.len(), (spec.width * spec.height * 4) as usize);
        assert!((f.pts_ms as i64) > last_pts);
        last_pts = f.pts_ms as i64;
    }
    assert_eq!(src.next(), Next::End);
}

#[test]
fn timestamps_give_way_to_the_frame_before() {
    let mut src = GdiSource::new(rect(0, 0, 1, 1), 30, SCREEN).unwrap();
    src.begin();
    let got: Vec<u64> = [5, 5, 3, 100, 101, 7]
        .iter()
        .map(|t| src.deliver(vec![0; 4], *t).pts_ms)
        .collect();
    assert_eq!(got, [5, 6, 7, 100, 101, 102]);

    let mut next = u64::MAX - 1;
    assert_eq!(stamp_frame(&mut next, 0), u64::MAX - 1);
    assert_eq!(stamp_frame(&mut next, 0), u64::MAX);
    assert_eq!(next, u64::MAX); // nothing is left
}
