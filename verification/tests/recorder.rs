use orr_desktop::recorder::{
    build_args, candidates, candidates_in, detect, detect_in, encoder_name, encoder_priority,
    output_file, probe_args, resolve_encoder, shell_words_join, Capabilities, Encoder, Mode, Quality, Rect,
};
use orr_desktop::settings::Settings;

fn test_settings() -> Settings {
    Settings::defaults("recordings".to_string())
}

#[test]
fn area_args_use_gdigrab_offsets() {
    let s = test_settings();
    let caps = Capabilities::default();
    let args = build_args(
        &s,
        &caps,
        Mode::Area(Rect {
            x: 100,
            y: 50,
            w: 960,
            h: 720,
        }),
        Encoder::X264,
        "out.mp4",
    );
    let has = |v: &str| args.iter().any(|a| a == v);
    assert!(has("-f"));
    assert!(args.contains(&"gdigrab".to_string()));
    let idx = args.iter().position(|a| a == "-offset_x").unwrap();
    assert_eq!(args[idx + 1], "100");
    let idx = args.iter().position(|a| a == "-offset_y").unwrap();
    assert_eq!(args[idx + 1], "50");
    let idx = args.iter().position(|a| a == "-video_size").unwrap();
    assert_eq!(args[idx + 1], "960x720");
    assert_eq!(args.last().unwrap(), "out.mp4");
    // x264 keeps its own pix_fmt; no extra global pix_fmt push
    assert_eq!(args.iter().filter(|a| a.as_str() == "-pix_fmt").count(), 1);
}

#[test]
fn fullscreen_nvenc_with_ddagrab_uses_filter_complex() {
    let s = test_settings();
    let caps = Capabilities {
        ddagrab: true,
        ..Default::default()
    };
    let args = build_args(&s, &caps, Mode::FullScreen, Encoder::Nvenc, "gpu.mp4");
    assert!(args.contains(&"-filter_complex".to_string()));
    assert!(args
        .iter()
        .any(|a| a.starts_with("ddagrab=output_idx=0:framerate=")));
    assert!(args.contains(&"h264_nvenc".to_string()));
    assert!(!args.contains(&"desktop".to_string()));
}

#[test]
fn fullscreen_without_ddagrab_falls_back_to_gdigrab() {
    let s = test_settings();
    let caps = Capabilities::default(); // ddagrab: false
    let args = build_args(&s, &caps, Mode::FullScreen, Encoder::Amf, "amf.mp4");
    assert!(!args.contains(&"-filter_complex".to_string()));
    assert!(args.contains(&"desktop".to_string()));
    assert!(args.contains(&"h264_amf".to_string()));
    assert!(args.contains(&"yuv420p".to_string())); // hw encoder pix_fmt
    assert_eq!(args.last().unwrap(), "amf.mp4");
}

#[test]
fn gpu_line_in_full() {
    let mut s = test_settings();
    s.fps = 60;
    s.capture_mouse = false;
    s.performance_mode = true;
    let caps = Capabilities {
        ddagrab: true,
        ..Default::default()
    };
    let args = build_args(&s, &caps, Mode::FullScreen, Encoder::Nvenc, "a.mp4");
    assert_eq!(
        args.join("|"),
        "-y|-hide_banner|-loglevel|warning|-filter_complex|\
         ddagrab=output_idx=0:framerate=60:draw_mouse=0|-c:v|h264_nvenc|-preset|p1|-tune|ll|\
         -rc|cbr|-delay|0|-b:v|60M|-bufsize|120M|-profile:v|high|-movflags|+faststart|a.mp4"
    );
}

#[test]
fn nvenc_quality_line_in_full() {
    let s = test_settings();
    let args = build_args(
        &s,
        &Capabilities::default(),
        Mode::FullScreen,
        Encoder::Nvenc,
        "a.mp4",
    );
    assert_eq!(
        args.join("|"),
        "-y|-hide_banner|-loglevel|warning|-f|gdigrab|-framerate|30|-draw_mouse|1|-i|desktop|\
         -c:v|h264_nvenc|-preset|p5|-tune|hq|-rc|vbr|-cq|21|-b:v|0|-maxrate|50M|-bufsize|100M|\
         -profile:v|high|-pix_fmt|yuv420p|-movflags|+faststart|a.mp4"
    );
}

#[test]
fn quicksync_amf_and_cpu_lines() {
    let mut s = test_settings();
    let caps = Capabilities::default();
    let line = |s: &Settings, e: Encoder| {
        let args = build_args(s, &caps, Mode::FullScreen, e, "o");
        args[12..args.len() - 3].join(" ")
    };
    assert_eq!(
        line(&s, Encoder::Qsv),
        "-c:v h264_qsv -preset medium -global_quality 21 -pix_fmt yuv420p"
    );
    assert_eq!(
        line(&s, Encoder::Amf),
        "-c:v h264_amf -quality balanced -rc vbr_peak -b:v 50M -pix_fmt yuv420p"
    );
    assert_eq!(
        line(&s, Encoder::X264),
        "-c:v libx264 -preset medium -crf 21 -pix_fmt yuv420p"
    );
    s.performance_mode = true;
    s.cpu_threads = 6;
    s.quality = Quality::Low;
    assert_eq!(
        line(&s, Encoder::Qsv),
        "-c:v h264_qsv -preset veryfast -b:v 15M -pix_fmt yuv420p"
    );
    assert_eq!(
        line(&s, Encoder::Amf),
        "-c:v h264_amf -quality speed -rc cbr -b:v 15M -pix_fmt yuv420p"
    );
    assert_eq!(
        line(&s, Encoder::X264),
        "-c:v libx264 -preset ultrafast -crf 28 -threads 6 -pix_fmt yuv420p"
    );
    // an unresolved choice goes to the CPU encoder and names the format twice
    assert_eq!(
        line(&s, Encoder::Auto),
        "-c:v libx264 -preset ultrafast -crf 28 -threads 6 -pix_fmt yuv420p -pix_fmt yuv420p"
    );
}

#[test]
fn negative_offsets_keep_their_sign() {
    let args = build_args(
        &test_settings(),
        &Capabilities::default(),
        Mode::Area(Rect {
            x: -1920,
            y: -7,
            w: 2,
            h: 4,
        }),
        Encoder::X264,
        "o",
    );
    assert_eq!(
        args[10..16].join(" "),
        "-offset_x -1920 -offset_y -7 -video_size 2x4"
    );
}

#[test]
fn candidates_come_ranked_and_once() {
    let listing = "Encoders:\n V..... = Video\n V....D libx264  H.264 (codec h264)\r\n \
                   V....D libx264rgb H.264\n V....D h264_amf AMD\n V....D h264_nvenc NVENC\n \
                   V....D h264_nvenc again\n S..... h264_qsv subtitle\n";
    assert_eq!(
        candidates(listing),
        vec![Encoder::Nvenc, Encoder::Amf, Encoder::X264]
    );
    assert_eq!(candidates(""), vec![]);
}

#[test]
fn one_line_adds_one_encoder() {
    // a line that names several encoders adds the first one not known yet
    assert_eq!(
        candidates("V h264_nvenc h264_qsv"),
        vec![Encoder::Nvenc]
    );
    assert_eq!(
        candidates("V h264_nvenc h264_qsv\nA h264_nvenc h264_qsv"),
        vec![Encoder::Nvenc, Encoder::Qsv]
    );
}

#[test]
fn detection_keeps_what_passed_its_trial() {
    let found = vec![Encoder::Nvenc, Encoder::Qsv, Encoder::X264];
    let caps = detect(&found, &vec![false, true, true], "... ddagrab  |->V Grab");
    assert_eq!(caps.encoders, vec![Encoder::Qsv, Encoder::X264]);
    assert!(caps.ddagrab);
    let caps = detect(&found, &vec![false, false, false], "dd agrab");
    assert!(caps.encoders.is_empty());
    assert!(!caps.ddagrab);
}

#[test]
fn listings_are_read_as_they_were_written() {
    // bytes that are no text stand for a character of their own
    let listing = b" V....D libx264 \xff H.264\n\xfe V....D h264_amf AMD\n V....D h264_qsv \xc3\xa9\n";
    let found = candidates_in(listing);
    assert_eq!(found, vec![Encoder::Qsv, Encoder::X264]);
    assert_eq!(candidates_in(b""), vec![]);
    assert_eq!(candidates_in("V h264_nvenc".as_bytes()), vec![Encoder::Nvenc]);

    let caps = detect_in(&found, &vec![false, true], b"\x80 ddagrab |->V");
    assert_eq!(caps.encoders, vec![Encoder::X264]);
    assert!(caps.ddagrab);
    assert!(!detect_in(&found, &vec![true, true], b"dda\xffgrab").ddagrab);
}

#[test]
fn encoder_choice() {
    let caps = Capabilities {
        encoders: vec![Encoder::Qsv, Encoder::X264],
        ddagrab: false,
    };
    assert_eq!(resolve_encoder(Encoder::Auto, &caps), Some(Encoder::Qsv));
    assert_eq!(resolve_encoder(Encoder::X264, &caps), Some(Encoder::X264));
    assert_eq!(resolve_encoder(Encoder::Nvenc, &caps), None);
    assert_eq!(
        resolve_encoder(Encoder::Auto, &Capabilities::default()),
        None
    );
}

#[test]
fn trial_run_arguments() {
    assert_eq!(
        probe_args(Encoder::Qsv).unwrap().join(" "),
        "-hide_banner -loglevel quiet -f lavfi -i color=c=black:s=320x240:r=10:d=0.2 \
         -frames:v 3 -c:v h264_qsv -f null -"
    );
    assert!(probe_args(Encoder::X264).is_none());
    assert!(probe_args(Encoder::Auto).is_none());
    assert_eq!(encoder_name(Encoder::Amf), Some("h264_amf"));
    assert_eq!(encoder_name(Encoder::X264), None);
    assert_eq!(encoder_priority(Encoder::Nvenc), 0);
    assert_eq!(encoder_priority(Encoder::Auto), 3);
}

#[test]
fn words_with_spaces_are_quoted() {
    let args = vec![
        "-i".to_string(),
        "my file.mp4".to_string(),
        "x".to_string(),
    ];
    assert_eq!(shell_words_join(&args), "-i \"my file.mp4\" x");
    assert_eq!(shell_words_join(&vec![]), "");
}

#[test]
fn recordings_are_named_after_their_start() {
    assert_eq!(output_file(0), "ORR_19700101_000000.mp4");
    assert_eq!(output_file(951_782_399), "ORR_20000228_235959.mp4");
    assert_eq!(output_file(951_782_400), "ORR_20000229_000000.mp4");
    assert_eq!(output_file(1_700_000_000), "ORR_20231114_221320.mp4");
}

#[test]
fn presets() {
    let labels: Vec<&str> = Quality::ALL.iter().map(|q| q.label()).collect();
    assert_eq!(labels, ["Ultra", "High", "Medium", "Low"]);
    let cq: Vec<i32> = Quality::ALL.iter().map(|q| q.cq()).collect();
    assert_eq!(cq, [18, 21, 24, 28]);
    let mbps: Vec<u32> = Quality::ALL.iter().map(|q| q.bitrate_mbps()).collect();
    assert_eq!(mbps, [80, 50, 30, 15]);
    let x264: Vec<&str> = Quality::ALL.iter().map(|q| q.x264_preset()).collect();
    assert_eq!(x264, ["slow", "medium", "veryfast", "ultrafast"]);
    let labels: Vec<&str> = Encoder::ALL.iter().map(|e| e.label()).collect();
    assert_eq!(
        labels,
        [
            "Auto (best available)",
            "NVIDIA NVENC (GPU)",
            "Intel QuickSync (GPU)",
            "AMD AMF (GPU)",
            "CPU x264"
        ]
    );
}

#[test]
fn names_have_one_length_and_sort_by_time() {
    let times = [
        0, 1, 59, 60, 3_599, 3_600, 86_399, 86_400, 951_782_399, 951_782_400, 951_868_800,
        1_700_000_000, 4_102_444_799, 4_102_444_800, 253_402_300_798, 253_402_300_799,
    ];
    let names: Vec<String> = times.iter().map(|t| output_file(*t)).collect();
    assert!(names.iter().all(|n| n.len() == 23));
    assert!(names.windows(2).all(|w| w[0] < w[1]));
    assert_eq!(names[15], "ORR_99991231_235959.mp4");
    assert_eq!(output_file(253_402_300_800), "ORR_100000101_000000.mp4");
}
