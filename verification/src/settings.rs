//! What the user chose.

use crate::recorder::{Encoder, Quality};
use vstd::prelude::*;

verus! {

/// The user's choices, as kept between runs.
#[derive(Clone, Debug)]
pub struct Settings {
    pub fps: u32,
    pub quality: Quality,
    pub encoder: Encoder,
    pub performance_mode: bool,
    pub capture_mouse: bool,
    pub cpu_threads: u32,
    pub output_dir: String,
}

/// A frame rate the menu offers.
pub open spec fn offered_fps(fps: u32) -> bool {
    fps == 24 || fps == 30 || fps == 60
}

/// `s` with a frame rate that is not offered and an empty output directory put
/// back to their defaults.
pub open spec fn cleaned(s: Settings, default_dir: String) -> Settings {
    Settings {
        fps: if offered_fps(s.fps) {
            s.fps
        } else {
            30
        },
        output_dir: if s.output_dir@.len() == 0 {
            default_dir
        } else {
            s.output_dir
        },
        ..s
    }
}

/// Cleaned settings are usable, and cleaning them again changes nothing.
pub proof fn cleaning_settles(s: Settings, default_dir: String, other_dir: String)
    requires
        default_dir@.len() > 0,
    ensures
        offered_fps(cleaned(s, default_dir).fps),
        cleaned(s, default_dir).output_dir@.len() > 0,
        cleaned(cleaned(s, default_dir), other_dir) == cleaned(s, default_dir),
{
}

impl Settings {
    /// The choices before the user makes any, with recordings going to `output_dir`.
    pub fn defaults(output_dir: String) -> (r: Settings)
        ensures
            r.fps == 30,
            r.quality is High,
            r.encoder is Auto,
            !r.performance_mode,
            r.capture_mouse,
            r.cpu_threads == 0,
            r.output_dir == output_dir,
    {
        Settings {
            fps: 30,
            quality: Quality::High,
            encoder: Encoder::Auto,
            performance_mode: false,
            capture_mouse: true,
            cpu_threads: 0,
            output_dir,
        }
    }

    /// Puts back to their defaults a frame rate that is not offered and an empty
    /// output directory; keeps everything else.
    pub fn sanitized(self, default_dir: String) -> (r: Settings)
        ensures
            r == cleaned(self, default_dir),
    {
        let mut s = self;
        if s.fps != 24 && s.fps != 30 && s.fps != 60 {
            s.fps = 30;
        }
        if s.output_dir.as_str().is_empty() {
            s.output_dir = default_dir;
        }
        s
    }
}

/// Where recordings go when the system names the given directories: the video
/// directory, else the document directory, else the current one.
pub fn video_base(video: Option<String>, document: Option<String>) -> (r: String)
    ensures
        video matches Some(dir) ==> r == dir,
        video is None && document is Some ==> r == document->0,
        video is None && document is None ==> r@ == "."@,
{
    match video {
        Some(dir) => dir,
        None => match document {
            Some(dir) => dir,
            None => ".".to_owned(),
        },
    }
}

/// Where the configuration goes when the system names the given directory.
pub fn config_base(config: Option<String>) -> (r: String)
    ensures
        config matches Some(dir) ==> r == dir,
        config is None ==> r@ == "."@,
{
    match config {
        Some(dir) => dir,
        None => ".".to_owned(),
    }
}

/// Of settings that were read back, only what cannot be used is changed: a frame rate
/// other than 24, 30 and 60 becomes 30, and an empty directory the default one.
pub proof fn usable_settings_are_kept(s: Settings, default_dir: String)
    ensures
        ({
            let c = cleaned(s, default_dir);
            &&& s.fps == 24 || s.fps == 30 || s.fps == 60 ==> c.fps == s.fps
            &&& s.fps != 24 && s.fps != 30 && s.fps != 60 ==> c.fps == 30
            &&& s.output_dir@.len() > 0 ==> c.output_dir == s.output_dir
            &&& s.output_dir@.len() == 0 ==> c.output_dir == default_dir
            &&& c.quality == s.quality
            &&& c.encoder == s.encoder
            &&& c.performance_mode == s.performance_mode
            &&& c.capture_mouse == s.capture_mouse
            &&& c.cpu_threads == s.cpu_threads
        }),
{
}

} // verus!
