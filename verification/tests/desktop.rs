use orr_desktop::audio::{device_kind, pick_device, AudioError, AudioSource, DeviceKind, SampleBuffer};
use orr_desktop::calendar::civil_from_days;
use orr_desktop::capture::wgcap::ScreenRect;
use orr_desktop::cli::{parse_command, probe_lines, record_path, Command, RecordPath};
use orr_desktop::error::Error;
use orr_desktop::icon::app_icon;
use orr_desktop::recorder::{Capabilities, Encoder, Mode, Quality, Rect};
use orr_desktop::native::session_params;
use orr_desktop::selector::{
    pt, rgb, Outcome, OverlayState, Reaction, BUTTON_DOWN, BUTTON_UP, DESTROY, KEY_DOWN, MOUSE_MOVE,
    PAINT,
};
use orr_desktop::settings::{config_base, video_base, Settings};
use orr_desktop::text::{
    contains_word, decimal_string, index_of, padded_string, parse_i64, parse_u64, same_text,
    signed_string, split_lines,
};
use orr_desktop::tray::{
    choose_encoder, encoder_entries, fps_entries, menu_choice, menu_lines, quality_entries, Action,
    Choice, LineKind, Problem, Tip, TrayApp,
};
use orr_desktop::watch::{keep_tail, keep_text, report, Poll, Report};

#[test]
fn numbers_in_text() {
    assert_eq!(decimal_string(0), "0");
    assert_eq!(decimal_string(u64::MAX), u64::MAX.to_string());
    assert_eq!(signed_string(i64::MIN), i64::MIN.to_string());
    assert_eq!(signed_string(42), "42");
    assert_eq!(padded_string(7, 4), "0007");
    assert_eq!(padded_string(12345, 4), "12345");
    for s in [
        "0", "7", "+7", "-7", "", "+", "-", "1x", " 1", "007", "++1", "+-1",
        "18446744073709551615", "18446744073709551616", "9223372036854775807",
        "9223372036854775808", "-9223372036854775808", "-9223372036854775809",
        "99999999999999999999999",
    ] {
        assert_eq!(parse_u64(s), s.parse::<u64>().ok(), "{s:?}");
        assert_eq!(parse_i64(s), s.parse::<i64>().ok(), "{s:?}");
    }
}

#[test]
fn words_and_lines() {
    let chars = |s: &str| s.chars().collect::<Vec<char>>();
    assert!(contains_word(&chars("abc ddagrab"), "ddagrab"));
    assert!(contains_word(&chars("aab"), "ab"));
    assert!(!contains_word(&chars("ab"), "abc"));
    assert!(contains_word(&chars(""), ""));
    assert!(same_text("perf", "perf"));
    assert!(!same_text("perf", "per"));
    assert!(!same_text("", "x"));
    assert_eq!(index_of("q_12", "q_"), Some(12));
    assert_eq!(index_of("q_", "q_"), None);
    assert_eq!(index_of("f_1", "q_"), None);
    let lines: Vec<String> = split_lines("a\n\nbc\n")
        .into_iter()
        .map(|l| l.into_iter().collect())
        .collect();
    assert_eq!(lines, ["a", "", "bc", ""]);
}

#[test]
fn dates_of_days() {
    assert_eq!(civil_from_days(0), (1970, 1, 1));
    assert_eq!(civil_from_days(-1), (1969, 12, 31));
    assert_eq!(civil_from_days(11_016), (2000, 2, 29));
    assert_eq!(civil_from_days(19_675), (2023, 11, 14));
    assert_eq!(civil_from_days(-719_468), (0, 3, 1));
    assert_eq!(civil_from_days(-719_469), (0, 2, 29));
    assert_eq!(civil_from_days(-25_509), (1900, 2, 28));
    assert_eq!(civil_from_days(-25_508), (1900, 3, 1));
    // every day of four centuries follows the one before it
    let mut previous = civil_from_days(-1000);
    for z in -999..146_097 {
        let (y, m, d) = civil_from_days(z);
        let (py, pm, pd) = previous;
        assert!((y, m, d) == (py, pm, pd + 1) || d == 1 && (m == pm + 1 || m == 1 && y == py + 1));
        previous = (y, m, d);
    }
}

#[test]
fn settings_are_cleaned() {
    let mut s = Settings::defaults("videos".to_string());
    assert_eq!((s.fps, s.cpu_threads), (30, 0));
    assert_eq!((s.quality, s.encoder), (Quality::High, Encoder::Auto));
    assert!(s.capture_mouse && !s.performance_mode);
    for (fps, kept) in [(24, 24), (30, 30), (60, 60), (25, 30), (0, 30)] {
        s.fps = fps;
        assert_eq!(s.clone().sanitized("d".to_string()).fps, kept);
    }
    s.output_dir = String::new();
    let s = s.sanitized("d".to_string());
    assert_eq!(s.output_dir, "d");
    assert_eq!(s.sanitized("e".to_string()).output_dir, "d");
    let dir = |s: &str| Some(s.to_string());
    assert_eq!(video_base(dir("v"), dir("d")), "v");
    assert_eq!(video_base(None, dir("d")), "d");
    assert_eq!(video_base(None, None), ".");
    assert_eq!(config_base(dir("c")), "c");
    assert_eq!(config_base(None), ".");
}

#[test]
fn rubber_band() {
    assert_eq!(rgb(60, 232, 110), 0x6e_e8_3c);
    assert_eq!(pt(0x0005_fffe), (-2, 5));
    assert_eq!(pt(-1), (-1, -1));
    assert_eq!(pt(0x7fff_8000), (-32768, 32767));

    let mut o = OverlayState::new((0, 0, 1920, 1080));
    assert!(!o.drag((3, 3)));
    assert!(!o.release((3, 3)));
    assert!(matches!(o.take_result(), Outcome::Cancelled(why) if why == "closed"));
    o.press((100, 80));
    assert!(o.drag((40, 30)));
    let bar = |left, top, right, bottom| ScreenRect {
        left,
        top,
        right,
        bottom,
    };
    assert_eq!(
        o.bars(),
        [
            bar(40, 30, 100, 32),
            bar(40, 78, 100, 80),
            bar(40, 30, 42, 80),
            bar(98, 30, 100, 80)
        ]
    );
    assert!(o.release((40, 30)));
    assert!(o.bars().is_empty());
    match o.take_result() {
        Outcome::Selected(r) => assert_eq!(
            r,
            Rect {
                x: 40,
                y: 30,
                w: 60,
                h: 50
            }
        ),
        Outcome::Cancelled(_) => panic!("a region was picked"),
    }
    // sixteen pixels are enough, fifteen are not
    o.press((0, 0));
    assert!(!o.release((16, 15)));
    assert!(matches!(o.take_result(), Outcome::Cancelled(why) if why == "selection too small"));
    o.press((0, 0));
    assert!(o.release((-16, 16)));
    o.press((0, 0));
    o.escape();
    assert!(matches!(o.take_result(), Outcome::Cancelled(why) if why == "cancelled"));
}

#[test]
fn audio_devices_and_samples() {
    assert_eq!(device_kind(AudioSource::Microphone), DeviceKind::Input);
    assert_eq!(device_kind(AudioSource::StereoMix), DeviceKind::Output);
    assert_eq!(
        pick_device(AudioSource::Microphone, Some("mic"), None).unwrap(),
        "mic"
    );
    assert!(matches!(
        pick_device(AudioSource::StereoMix, Some("mic"), None),
        Err(AudioError::NoDevice)
    ));
    let mut b: SampleBuffer<f32> = SampleBuffer::new();
    assert!(b.read().is_none());
    b.append(&[0.5, -0.5]);
    b.append(&[1.0]);
    assert_eq!(b.read().unwrap(), [0.5, -0.5, 1.0]);
    assert!(b.read().is_none());
}

#[test]
fn icon_is_a_disc_with_a_rim() {
    let icon = app_icon();
    assert_eq!(icon.len(), 64 * 64 * 4);
    let at = |x: usize, y: usize| &icon[(y * 64 + x) * 4..][..4];
    assert_eq!(at(32, 32), [232, 64, 56, 255]);
    assert_eq!(at(0, 0), [0, 0, 0, 0]);
    assert_eq!(at(32, 5), [255, 255, 255, 255]);
    // the same as measuring with fractions
    for y in 0..64usize {
        for x in 0..64usize {
            let (dx, dy) = (x as f32 - 31.5, y as f32 - 31.5);
            let d2 = dx * dx + dy * dy;
            let expect = if d2 <= 625.0 {
                [232, 64, 56, 255]
            } else if d2 <= 784.0 {
                [255; 4]
            } else {
                [0; 4]
            };
            assert_eq!(at(x, y), expect);
        }
    }
}

fn args(line: &str) -> Vec<String> {
    line.split(' ').map(|s| s.to_string()).collect()
}

#[test]
fn command_line() {
    let parse = |line: &str| parse_command(&args(line));
    assert!(matches!(parse("orr"), Command::Tray));
    assert!(matches!(parse("orr something"), Command::Tray));
    assert!(matches!(parse("orr --version"), Command::Version));
    assert!(matches!(parse("orr -h"), Command::Help));
    assert!(matches!(parse("orr --help"), Command::Help));
    assert!(matches!(parse("orr probe"), Command::Probe));
    assert!(matches!(
        parse("orr cli-rec"),
        Command::Record {
            seconds: 5,
            out: None
        }
    ));
    assert!(
        matches!(parse("orr cli-rec 12 a.mp4"), Command::Record { seconds: 12, out: Some(p) } if p == "a.mp4")
    );
    assert!(matches!(
        parse("orr cli-rec x"),
        Command::Record { seconds: 5, .. }
    ));
    match parse("orr cli-area -10 20 300 200 7 b.mp4") {
        Command::RecordArea { rect, seconds, out } => {
            assert_eq!(
                rect,
                Rect {
                    x: -10,
                    y: 20,
                    w: 300,
                    h: 200
                }
            );
            assert_eq!(seconds, 7);
            assert_eq!(out.unwrap(), "b.mp4");
        }
        other => panic!("{other:?}"),
    }
    // the time may be left out
    assert!(matches!(
        parse("orr cli-area 1 2 3 4"),
        Command::RecordArea {
            seconds: 3,
            out: None,
            ..
        }
    ));
    assert!(matches!(parse("orr cli-area 1 2 3"), Command::AreaUsage));
    assert!(matches!(parse("orr cli-area a b c d"), Command::AreaUsage));
}

#[test]
fn probe_names_the_automatic_pick() {
    let caps = Capabilities {
        encoders: vec![Encoder::Amf, Encoder::X264],
        ddagrab: true,
    };
    assert_eq!(
        probe_lines("ff", &caps),
        [
            "ffmpeg: ff",
            "ddagrab filter: true",
            "encoders:",
            "  AMD AMF (GPU)",
            "  CPU x264",
            "auto: AMD AMF (GPU)"
        ]
    );
    assert_eq!(
        probe_lines("ff", &Capabilities::default()),
        ["ffmpeg: ff", "ddagrab filter: false", "encoders:", "auto: none"]
    );
}

#[test]
fn error_stream_keeps_its_end() {
    let all: String = (0..10_000u32).map(|i| (b' ' + (i % 90) as u8) as char).collect();
    let mut at_once = String::new();
    keep_tail(&mut at_once, all.as_bytes());
    assert_eq!(at_once, &all[6000..]);
    let mut pieces = String::new();
    for chunk in all.as_bytes().chunks(777) {
        keep_tail(&mut pieces, chunk);
    }
    assert_eq!(pieces, at_once);
    let mut short = "a".to_string();
    keep_tail(&mut short, b"bc");
    assert_eq!(short, "abc");
}

#[test]
fn error_stream_is_decoded_piece_by_piece() {
    let mut tail = String::new();
    keep_tail(&mut tail, "grün".as_bytes());
    keep_tail(&mut tail, b"\xff!");
    assert_eq!(tail, "grün\u{fffd}!");
    // a character that is split between two pieces is lost
    let mut split = String::new();
    keep_tail(&mut split, &[0xc3]);
    keep_tail(&mut split, &[0xbc]);
    assert_eq!(split, "\u{fffd}\u{fffd}");
    // sizes count in bytes: 1000 characters of four bytes fill the tail
    let mut wide = String::new();
    keep_text(&mut wide, &"\u{1f600}".repeat(1500));
    assert_eq!(wide, "\u{1f600}".repeat(1000));
    // a character that does not fit is dropped whole
    keep_text(&mut wide, "x");
    assert_eq!(wide, format!("{}x", "\u{1f600}".repeat(999)));
    let mut two = String::new();
    keep_text(&mut two, &format!("{}{}", "ü".repeat(3), "y".repeat(3997)));
    assert_eq!(two, format!("ü{}", "y".repeat(3997)));
}

fn app(encoders: Vec<Encoder>) -> TrayApp {
    TrayApp::new(
        Capabilities {
            encoders,
            ddagrab: false,
        },
        Settings::defaults("videos".to_string()),
        true,
    )
}

fn shown(actions: &[Action]) -> String {
    format!("{actions:?}")
}

#[test]
fn tray_records_and_stops() {
    let mut a = app(vec![Encoder::Qsv]);
    assert!(!a.busy());
    assert_eq!(
        shown(&a.handle_menu_id("rec_full")),
        "[Launch(FullScreen, Qsv)]"
    );
    assert_eq!(shown(&a.on_launched(None)), "[Show(Starting), SyncMenu]");
    assert!(a.busy());
    assert!(a.handle_menu_id("rec_full").is_empty());
    assert!(a.handle_menu_id("rec_area").is_empty());
    assert_eq!(shown(&a.on_tick(3)), "[Show(Elapsed(3))]");
    let marks = a.menu_marks();
    assert!(!marks.record && marks.stop);
    assert_eq!(
        shown(&a.handle_menu_id("rec_stop")),
        "[StopRecorder, Show(Finalizing)]"
    );
    assert_eq!(
        shown(&a.on_finished(None)),
        "[NoteSaved, SyncMenu, Show(Idle)]"
    );
    assert!(!a.busy());
    assert!(a.handle_menu_id("rec_stop").is_empty());
    assert!(a.on_tick(4).is_empty());
}

#[test]
fn tray_picks_a_region() {
    let mut a = app(vec![Encoder::Nvenc, Encoder::X264]);
    assert_eq!(
        shown(&a.handle_menu_id("rec_area")),
        "[SyncMenu, Show(Selecting), Select]"
    );
    assert!(a.busy());
    assert_eq!(
        shown(&a.on_selector(Outcome::Cancelled("closed".to_string()))),
        "[NoteCancelled(\"closed\"), SyncMenu, Show(Idle)]"
    );
    a.handle_menu_id("rec_area");
    let r = Rect {
        x: 1,
        y: 2,
        w: 30,
        h: 40,
    };
    match &a.on_selector(Outcome::Selected(r))[..] {
        [Action::Launch(mode, e)] => {
            assert_eq!(*mode, Mode::Area(r));
            assert_eq!(*e, Encoder::Nvenc);
        }
        other => panic!("{other:?}"),
    }
    assert_eq!(
        shown(&a.on_launched(Some("no ffmpeg".to_string()))),
        "[Fatal(Other(\"no ffmpeg\"))]"
    );
    assert!(!a.busy());
}

#[test]
fn tray_reports_problems() {
    let mut a = app(vec![]);
    assert_eq!(shown(&a.handle_menu_id("rec_full")), "[Fatal(NoEncoder)]");
    assert_eq!(
        Problem::NoEncoder.text(),
        "no usable h264 encoder found - is ffmpeg installed and on PATH?"
    );
    let mut a = app(vec![Encoder::X264]);
    a.on_launched(None);
    assert_eq!(
        shown(&a.on_finished(Some("boom".to_string()))),
        "[NoteFailed(\"boom\"), SyncMenu, Fatal(Other(\"boom\"))]"
    );
}

#[test]
fn tray_quits_after_the_recording() {
    let mut a = app(vec![Encoder::X264]);
    a.on_launched(None);
    assert_eq!(
        shown(&a.handle_menu_id("quit")),
        "[StopRecorder, Show(Finalizing)]"
    );
    assert!(!a.exit_pending());
    assert_eq!(shown(&a.on_finished(None)), "[NoteSaved, SyncMenu]");
    assert!(a.exit_pending());
    let mut idle = app(vec![]);
    assert!(idle.handle_menu_id("quit").is_empty());
    assert!(idle.exit_pending());
}

#[test]
fn tray_menu_sets_what_it_names() {
    let mut a = app(vec![Encoder::X264]);
    for (i, q) in Quality::ALL.iter().enumerate() {
        assert_eq!(
            shown(&a.handle_menu_id(&quality_entries().ids[i])),
            "[SaveSettings, SyncMenu]"
        );
        assert_eq!(a.settings().quality, *q);
        let marks = a.menu_marks().quality;
        assert_eq!(marks.iter().filter(|c| **c).count(), 1);
        assert!(marks[i]);
    }
    for (i, id) in fps_entries().ids.iter().enumerate() {
        a.handle_menu_id(id);
        assert_eq!(a.settings().fps, [24, 30, 60][i]);
        assert!(a.menu_marks().fps[i]);
    }
    for (i, e) in Encoder::ALL.iter().enumerate() {
        a.handle_menu_id(&encoder_entries().ids[i]);
        assert_eq!(a.settings().encoder, *e);
        assert!(a.menu_marks().encoder[i]);
    }
    assert_eq!(fps_entries().labels, ["24 FPS", "30 FPS", "60 FPS"]);
    assert_eq!(quality_entries().labels[0], "Ultra");
    assert_eq!(encoder_entries().labels[4], "CPU x264");
    assert!(!a.settings().performance_mode);
    a.handle_menu_id("perf");
    assert!(a.settings().performance_mode && a.menu_marks().performance);
    a.handle_menu_id("mouse");
    assert!(!a.settings().capture_mouse && !a.menu_marks().mouse);
    assert_eq!(shown(&a.handle_menu_id("open_dir")), "[OpenFolder]");
    for id in ["q_4", "f_3", "e_5", "q_x", "", "nothing", "q_-1"] {
        assert!(a.handle_menu_id(id).is_empty());
        assert_eq!(menu_choice(id), Choice::Nothing);
    }
    assert_eq!(menu_choice("q_+1"), Choice::SetQuality(Quality::High));
}

#[test]
fn wanted_encoder_or_the_best_there_is() {
    let caps = Capabilities {
        encoders: vec![Encoder::Amf, Encoder::X264],
        ddagrab: false,
    };
    assert_eq!(choose_encoder(Encoder::X264, &caps), Some(Encoder::X264));
    assert_eq!(choose_encoder(Encoder::Nvenc, &caps), Some(Encoder::Amf));
    assert_eq!(choose_encoder(Encoder::Auto, &caps), Some(Encoder::Amf));
    assert_eq!(
        choose_encoder(Encoder::X264, &Capabilities::default()),
        None
    );
    let a = app(vec![Encoder::Amf]);
    assert_eq!(a.caps().encoders, [Encoder::Amf]);
}

#[test]
fn tooltips() {
    assert_eq!(Tip::Elapsed(3_725).text(), "ORR REC 01:02:05");
    assert_eq!(Tip::Elapsed(360_000).text(), "ORR REC 100:00:00");
    assert_eq!(Tip::Idle.text(), "ORR Desktop Recorder");
    assert_eq!(
        Tip::Selecting.text(),
        "Drag a rectangle to select area (Esc cancels)"
    );
    assert_eq!(Tip::Starting.text(), "ORR starting...");
    assert_eq!(Tip::Finalizing.text(), "ORR finalizing mp4...");
}

#[test]
fn errors_in_words() {
    let words = |e: Error| e.message().unwrap();
    let rect = Rect {
        x: -1,
        y: 2,
        w: 3,
        h: 4,
    };
    assert_eq!(
        words(Error::OffScreen {
            rect,
            screen: (0, -5, 10, 20)
        }),
        "rect Rect { x: -1, y: 2, w: 3, h: 4 } does not intersect virtual screen (0,-5 10x20)"
    );
    assert_eq!(
        words(Error::SpansMonitors { rect }),
        format!("rect {rect:?} spans multiple monitors; a WGC item is per-monitor")
    );
    assert_eq!(
        words(Error::OddDimensions {
            width: 321,
            height: 240
        }),
        "openh264 requires even frame dimensions, got 321x240 \
         (area selections are rounded down to even by the native session)"
    );
    assert_eq!(
        words(Error::ResolutionTooLarge {
            width: 4000,
            height: 20
        }),
        "openh264 max resolution is 3840x2160, got 4000x20"
    );
    assert_eq!(
        words(Error::ZeroSizeMonitor {
            rect: ScreenRect {
                left: 0,
                top: 1,
                right: 0,
                bottom: -2
            }
        }),
        "monitor RECT { left: 0, top: 1, right: 0, bottom: -2 } has zero GDI size"
    );
    assert_eq!(words(Error::ZeroFps), "fps must be > 0");
    assert_eq!(words(Error::NoVirtualScreen), "virtual screen has no size");
    assert_eq!(words(Error::NoMonitors), "no monitors found");
    assert_eq!(
        words(Error::NoLongerContained),
        "rect no longer contained in a single monitor"
    );
    assert_eq!(words(Error::EmptyRegion), "empty capture region");
    assert_eq!(words(Error::MuxerNotOpened), "muxer not opened");
    assert_eq!(words(Error::EncoderNotReady), "init() called before feed()");
    assert_eq!(words(Error::Message("so".to_string())), "so");
    assert_eq!(
        words(Error::TimestampTooLarge { pts_ms: 9 }),
        "timestamp 9 ms is out of range"
    );
    assert_eq!(
        words(Error::FrameRateTooHigh { fps: 7 }),
        "frame rate 7 is too high"
    );
    assert_eq!(
        words(Error::UnusableFrame {
            width: 1,
            height: 2
        }),
        "frame of 1x2 cannot be encoded"
    );
    assert_eq!(words(Error::TooManyFrames), "too many frames to count");
    assert_eq!(words(Error::TooManySamples), "too many samples to count");
}

fn at(x: i16, y: i16) -> i64 {
    (x as u16 as i64) | ((y as u16 as i64) << 16)
}

#[test]
fn overlay_answers_messages() {
    let mut o = OverlayState::new((0, 0, 1920, 1080));
    assert_eq!(o.handle(MOUSE_MOVE, 0, at(5, 5)), Reaction::Done);
    assert_eq!(o.handle(BUTTON_UP, 0, at(5, 5)), Reaction::LetGo);
    assert!(o.result.is_none());
    assert_eq!(o.handle(PAINT, 0, 0), Reaction::Paint);
    assert_eq!(o.handle(DESTROY, 0, 0), Reaction::Close);
    assert_eq!(o.handle(0x0113, 0, 0), Reaction::PassOn);
    assert_eq!(o.handle(KEY_DOWN, 0x20, 0), Reaction::Done);

    assert_eq!(o.handle(BUTTON_DOWN, 0, at(100, 80)), Reaction::Grab);
    assert_eq!(o.handle(MOUSE_MOVE, 0, at(-10, 90)), Reaction::Repaint);
    assert_eq!(o.current, (-10, 90));
    assert_eq!(o.handle(BUTTON_UP, 0, at(90, 85)), Reaction::LetGo);
    assert!(matches!(&o.result, Some(Outcome::Cancelled(why)) if why == "selection too small"));

    assert_eq!(o.handle(BUTTON_DOWN, 0, at(100, 80)), Reaction::Grab);
    assert_eq!(o.handle(MOUSE_MOVE, 0, at(400, 400)), Reaction::Repaint);
    assert_eq!(o.handle(BUTTON_UP, 0, at(-60, 30)), Reaction::LetGoAndClose);
    match o.take_result() {
        Outcome::Selected(r) => assert_eq!((r.x, r.y, r.w, r.h), (-60, 30, 160, 50)),
        Outcome::Cancelled(why) => panic!("{why}"),
    }

    assert_eq!(o.handle(BUTTON_DOWN, 0, at(1, 1)), Reaction::Grab);
    assert_eq!(o.handle(KEY_DOWN, 0x1B, 0), Reaction::Close);
    assert!(o.origin.is_none());
    assert!(matches!(o.take_result(), Outcome::Cancelled(why) if why == "cancelled"));
    assert_eq!(o.handle(KEY_DOWN, 0x5001B, 0), Reaction::Close);
}

#[test]
fn picked_region_is_in_screen_coordinates() {
    let mut o = OverlayState::new((-1920, -300, 3840, 1380));
    o.handle(BUTTON_DOWN, 1, at(0, 0));
    o.handle(MOUSE_MOVE, 1, at(700, 700));
    o.handle(MOUSE_MOVE, 1, at(5, 5));
    assert_eq!(o.handle(BUTTON_UP, 0, at(640, 480)), Reaction::LetGoAndClose);
    match o.take_result() {
        Outcome::Selected(r) => assert_eq!((r.x, r.y, r.w, r.h), (-1920, -300, 640, 480)),
        Outcome::Cancelled(why) => panic!("{why}"),
    }
    // the bars stay where the mouse is on the overlay
    o.handle(BUTTON_DOWN, 1, at(10, 20));
    o.handle(MOUSE_MOVE, 1, at(60, 70));
    assert_eq!((o.bars()[0].left, o.bars()[0].top), (10, 20));
}

#[test]
fn overlay_paints_a_rubber_band() {
    let mut o = OverlayState::new((0, 0, 1920, 1080));
    let p = o.painting();
    assert_eq!((p.background, p.foreground), (0x18_12_12, 0x6E_E8_3C));
    assert!(p.bars.is_empty());
    o.handle(BUTTON_DOWN, 0, at(10, 20));
    o.handle(MOUSE_MOVE, 0, at(110, 70));
    let bars: Vec<(i32, i32, i32, i32)> = o
        .painting()
        .bars
        .iter()
        .map(|b| (b.left, b.top, b.right, b.bottom))
        .collect();
    assert_eq!(
        bars,
        [
            (10, 20, 110, 22),
            (10, 68, 110, 70),
            (10, 20, 12, 70),
            (108, 20, 110, 70),
        ]
    );
}

#[test]
fn menu_from_top_to_bottom() {
    let mut settings = Settings::defaults("videos".to_string());
    settings.performance_mode = true;
    settings.capture_mouse = false;
    let lines = menu_lines(&settings);
    let ids: Vec<&str> = lines.iter().map(|l| l.id.as_str()).collect();
    assert_eq!(
        ids,
        [
            "rec_full", "rec_area", "rec_stop", "", "settings_sub", "quality_sub", "q_0", "q_1",
            "q_2", "q_3", "fps_sub", "f_0", "f_1", "f_2", "enc_sub", "e_0", "e_1", "e_2", "e_3",
            "e_4", "perf", "mouse", "open_dir", "", "quit",
        ]
    );
    let depths: Vec<u32> = lines.iter().map(|l| l.depth).collect();
    assert_eq!(
        depths,
        [0, 0, 0, 0, 0, 1, 2, 2, 2, 2, 1, 2, 2, 2, 1, 2, 2, 2, 2, 2, 1, 1, 0, 0, 0]
    );
    let label = |id: &str| {
        lines
            .iter()
            .find(|l| l.id == id)
            .map(|l| (l.label.clone(), l.kind, l.enabled, l.checked))
            .unwrap()
    };
    assert_eq!(
        label("rec_area"),
        ("Select Area && Record...".to_string(), LineKind::Item, true, false)
    );
    assert_eq!(label("rec_stop"), ("Stop Recording".to_string(), LineKind::Item, false, false));
    assert_eq!(label("fps_sub"), ("Frame Rate".to_string(), LineKind::Submenu, true, false));
    assert_eq!(label("f_1"), ("30 FPS".to_string(), LineKind::Check, true, false));
    assert_eq!(label("q_2").0, Quality::ALL[2].label());
    assert_eq!(label("e_0").0, Encoder::ALL[0].label());
    assert_eq!(
        label("perf"),
        ("Performance Mode (max GPU)".to_string(), LineKind::Check, true, true)
    );
    assert_eq!(
        label("mouse"),
        ("Capture Mouse Cursor".to_string(), LineKind::Check, true, false)
    );
    for l in &lines {
        match l.kind {
            LineKind::Item | LineKind::Check => {
                assert_ne!(menu_choice(&l.id), Choice::Nothing, "{}", l.id)
            }
            LineKind::Submenu | LineKind::Separator => {}
        }
    }
}

#[test]
fn tray_records_within_the_process() {
    let mut a = TrayApp::new(
        Capabilities {
            encoders: vec![],
            ddagrab: false,
        },
        Settings::defaults("videos".to_string()),
        false,
    );
    assert_eq!(shown(&a.handle_menu_id("rec_full")), "[Record(FullScreen)]");
    a.on_launched(None);
    assert_eq!(shown(&a.handle_menu_id("rec_full")), "[]");
}

#[test]
fn session_covers_what_was_asked_for() {
    let mut settings = Settings::defaults("videos".to_string());
    settings.fps = 60;
    settings.capture_mouse = false;
    settings.quality = Quality::Low;
    let desktop = Rect { x: -1920, y: 0, w: 3840, h: 1080 };
    let area = Rect { x: 3, y: 4, w: 101, h: 51 };
    let p = session_params(Mode::FullScreen, desktop, &settings);
    assert_eq!((p.rect, p.fps, p.cursor, p.quality), (desktop, 60, false, Quality::Low));
    assert_eq!(session_params(Mode::Area(area), desktop, &settings).rect, area);
}

#[test]
fn recorder_is_watched_to_its_end() {
    assert!(matches!(report(Poll::Running, "noise"), Report::Tick));
    let ended = |success: bool| Poll::Ended {
        success,
        status: "exit code: 1".to_string(),
    };
    assert!(matches!(report(ended(true), "noise"), Report::Finished(None)));
    match report(ended(false), "bad\ninput") {
        Report::Finished(Some(why)) => {
            assert_eq!(why, "ffmpeg exited with exit code: 1\nbad\ninput")
        }
        other => panic!("{other:?}"),
    }
    match report(Poll::Lost("gone".to_string()), "noise") {
        Report::Finished(Some(why)) => assert_eq!(why, "ffmpeg wait failed: gone"),
        other => panic!("{other:?}"),
    }
}

#[test]
fn recordings_are_native_unless_asked_otherwise() {
    assert_eq!(record_path(None, false), RecordPath::Native);
    assert_eq!(record_path(Some("0"), false), RecordPath::Native);
    assert_eq!(record_path(Some("1"), false), RecordPath::External);
    assert_eq!(record_path(Some("1"), true), RecordPath::PrintOnly);
    assert_eq!(record_path(None, true), RecordPath::PrintOnly);
}
