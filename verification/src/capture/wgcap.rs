//! Capture of whole monitors, cropped to a region.
//!
//! Regions are screen coordinates; the captured texture is in physical pixels.
//! A region that spans monitors cannot be served this way and goes to the block
//! transfer backend, as everything does on a host without monitor capture.

use crate::capture::gdi::{
    checked_rect, checking_twice_is_checking_once, due, gdi_for, left_after, left_after_all,
    next_step, plan_next, stamp, stamp_frame, stamps, timestamps_grow_strictly, validate_rect,
    GdiSource, Next, Screen,
};
use crate::capture::pixels::{cut_out, cut_pixel_is_of_its_place, cut_pixels};
use crate::error::Error;
use crate::num::{larger, max_i64, min_i64, smaller};
use crate::pipeline::{Frame, FrameSpec};
use crate::recorder::Rect;
use vstd::prelude::*;

verus! {

/// Edges of a rectangle in screen coordinates.
#[derive(Clone, Copy, PartialEq, Eq, Debug, Structural)]
pub struct ScreenRect {
    pub left: i32,
    pub top: i32,
    pub right: i32,
    pub bottom: i32,
}

/// One attached monitor in both coordinate spaces.
#[derive(Clone, Copy, PartialEq, Eq, Debug)]
pub struct MonitorInfo {
    /// System handle.
    pub hmon: isize,
    /// Screen coordinates, the space regions live in.
    pub gdi_rect: ScreenRect,
    /// Physical desktop origin.
    pub phys_origin: (i32, i32),
    /// Physical pixel size.
    pub phys_size: (u32, u32),
    pub primary: bool,
}

/// Right edge of a region.
pub open spec fn right_of(r: Rect) -> int {
    r.x + r.w
}

/// Bottom edge of a region.
pub open spec fn bottom_of(r: Rect) -> int {
    r.y + r.h
}

/// `r` lies within the monitor.
pub open spec fn contains(m: MonitorInfo, r: Rect) -> bool {
    &&& m.gdi_rect.left <= r.x
    &&& m.gdi_rect.top <= r.y
    &&& right_of(r) <= m.gdi_rect.right
    &&& bottom_of(r) <= m.gdi_rect.bottom
}

/// Width of the part of `r` on the monitor.
pub open spec fn overlap_width(m: MonitorInfo, r: Rect) -> int {
    larger(
        smaller(right_of(r), m.gdi_rect.right as int) - larger(r.x as int, m.gdi_rect.left as int),
        0,
    )
}

/// Height of the part of `r` on the monitor.
pub open spec fn overlap_height(m: MonitorInfo, r: Rect) -> int {
    larger(
        smaller(bottom_of(r), m.gdi_rect.bottom as int) - larger(r.y as int, m.gdi_rect.top as int),
        0,
    )
}

/// Area of the part of `r` on the monitor.
pub open spec fn overlap(m: MonitorInfo, r: Rect) -> int {
    overlap_width(m, r) * overlap_height(m, r)
}

/// What the display driver reports of a monitor's mode: position and size.
pub type DisplayMode = ((i32, i32), (u32, u32));

/// The monitor that the system's answers describe. Without a display mode the
/// physical geometry is taken from the screen coordinates; no size is zero.
pub open spec fn described(
    hmon: isize,
    gdi_rect: ScreenRect,
    flags: u32,
    mode: Option<DisplayMode>,
) -> MonitorInfo {
    MonitorInfo {
        hmon,
        gdi_rect,
        phys_origin: match mode {
            Some(m) => m.0,
            None => (gdi_rect.left, gdi_rect.top),
        },
        phys_size: match mode {
            Some(m) => (
                if m.1.0 == 0 {
                    1
                } else {
                    m.1.0
                },
                if m.1.1 == 0 {
                    1
                } else {
                    m.1.1
                },
            ),
            None => (
                larger(gdi_rect.right - gdi_rect.left, 1) as u32,
                larger(gdi_rect.bottom - gdi_rect.top, 1) as u32,
            ),
        },
        primary: flags % 2 == 1,
    }
}

impl MonitorInfo {
    /// Puts together what the system reports of a monitor. The lowest bit of
    /// `flags` marks the primary one.
    pub fn from_system(
        hmon: isize,
        gdi_rect: ScreenRect,
        flags: u32,
        mode: Option<DisplayMode>,
    ) -> (r: MonitorInfo)
        ensures
            r == described(hmon, gdi_rect, flags, mode),
    {
        let primary: bool = flags % 2 == 1;
        match mode {
            Some((origin, (w, h))) => MonitorInfo {
                hmon,
                gdi_rect,
                phys_origin: origin,
                phys_size: (
                    if w == 0 {
                        1
                    } else {
                        w
                    },
                    if h == 0 {
                        1
                    } else {
                        h
                    },
                ),
                primary,
            },
            None => {
                let w: i64 = max_i64(gdi_rect.right as i64 - gdi_rect.left as i64, 1);
                let h: i64 = max_i64(gdi_rect.bottom as i64 - gdi_rect.top as i64, 1);
                MonitorInfo {
                    hmon,
                    gdi_rect,
                    phys_origin: (gdi_rect.left, gdi_rect.top),
                    phys_size: (w as u32, h as u32),
                    primary,
                }
            },
        }
    }

    /// Width and height in screen coordinates.
    pub fn gdi_size(&self) -> (r: (i64, i64))
        ensures
            r.0 == larger(self.gdi_rect.right - self.gdi_rect.left, 0),
            r.1 == larger(self.gdi_rect.bottom - self.gdi_rect.top, 0),
    {
        (
            max_i64(self.gdi_rect.right as i64 - self.gdi_rect.left as i64, 0),
            max_i64(self.gdi_rect.bottom as i64 - self.gdi_rect.top as i64, 0),
        )
    }

    /// Decides [`contains`].
    pub fn contains_gdi(&self, r: &Rect) -> (b: bool)
        ensures
            b == contains(*self, *r),
    {
        r.x >= self.gdi_rect.left && r.y >= self.gdi_rect.top && r.x as i64 + r.w as i64
            <= self.gdi_rect.right as i64 && r.y as i64 + r.h as i64
            <= self.gdi_rect.bottom as i64
    }

    /// Computes [`overlap`].
    pub fn intersection_area(&self, r: &Rect) -> (a: u64)
        ensures
            a == overlap(*self, *r),
    {
        let left: i64 = max_i64(r.x as i64, self.gdi_rect.left as i64);
        let top: i64 = max_i64(r.y as i64, self.gdi_rect.top as i64);
        let right: i64 = min_i64(r.x as i64 + r.w as i64, self.gdi_rect.right as i64);
        let bottom: i64 = min_i64(r.y as i64 + r.h as i64, self.gdi_rect.bottom as i64);
        let w: u64 = max_i64(right - left, 0) as u64;
        let h: u64 = max_i64(bottom - top, 0) as u64;
        assert(w * h <= u64::MAX) by (nonlinear_arith)
            requires
                w <= 0xffff_ffff,
                h <= 0xffff_ffff,
        ;
        w * h
    }
}

/// All monitors that contain a region overlap it by the same area, all of it.
pub proof fn containing_monitors_overlap_alike(m: MonitorInfo, r: Rect)
    requires
        contains(m, r),
    ensures
        overlap(m, r) == r.w * r.h,
{
}

/// `k` is the last of the monitors that contain `r`.
pub open spec fn last_containing(monitors: Seq<MonitorInfo>, r: Rect, k: int) -> bool {
    &&& 0 <= k < monitors.len()
    &&& contains(monitors[k], r)
    &&& forall|j: int| k < j < monitors.len() ==> !contains(#[trigger] monitors[j], r)
}

/// Some monitor contains `r`.
pub open spec fn fits_one(monitors: Seq<MonitorInfo>, r: Rect) -> bool {
    exists|k: int| 0 <= k < monitors.len() && contains(#[trigger] monitors[k], r)
}

/// Picks the monitor that contains the whole of `rect`, `None` when it spans
/// monitors. Where several do, the one with the largest overlap, the last of
/// equals.
pub fn choose_containing_monitor<'a>(monitors: &'a [MonitorInfo], rect: &Rect) -> (r: Option<
    &'a MonitorInfo,
>)
    ensures
        r is Some == fits_one(monitors@, *rect),
        r matches Some(m) ==> exists|k: int| #[trigger]
            last_containing(monitors@, *rect, k) && *m == monitors@[k],
{
    let mut best: Option<usize> = None;
    let mut best_area: u64 = 0;
    let mut i: usize = 0;
    while i < monitors.len()
        invariant
            i <= monitors@.len(),
            best is None ==> forall|j: int| 0 <= j < i ==> !contains(#[trigger] monitors@[j], *rect),
            best matches Some(b) ==> b < i && contains(monitors@[b as int], *rect) && best_area
                == overlap(monitors@[b as int], *rect) && forall|j: int|
                b < j < i ==> !contains(#[trigger] monitors@[j], *rect),
        decreases monitors@.len() - i,
    {
        if monitors[i].contains_gdi(rect) {
            let area: u64 = monitors[i].intersection_area(rect);
            proof {
                containing_monitors_overlap_alike(monitors@[i as int], *rect);
                if let Some(b) = best {
                    containing_monitors_overlap_alike(monitors@[b as int], *rect);
                }
            }
            if best.is_none() || area >= best_area {
                best = Some(i);
                best_area = area;
            }
        }
        i = i + 1;
    }
    match best {
        None => None,
        Some(b) => {
            assert(last_containing(monitors@, *rect, b as int));
            Some(&monitors[b])
        },
    }
}

/// The first primary monitor, else the first one.
pub fn primary_monitor(monitors: &[MonitorInfo]) -> (r: Result<&MonitorInfo, Error>)
    ensures
        monitors@.len() == 0 ==> r == Err::<&MonitorInfo, Error>(Error::NoMonitors),
        monitors@.len() > 0 ==> r is Ok,
        monitors@.len() > 0 && (forall|j: int|
            0 <= j < monitors@.len() ==> !(#[trigger] monitors@[j]).primary) ==> *r->Ok_0
            == monitors@[0],
        forall|k: int|
            0 <= k < monitors@.len() && (#[trigger] monitors@[k]).primary && (forall|j: int|
                0 <= j < k ==> !(#[trigger] monitors@[j]).primary) ==> *r->Ok_0 == monitors@[k],
{
    let mut i: usize = 0;
    while i < monitors.len()
        invariant
            i <= monitors@.len(),
            forall|j: int| 0 <= j < i ==> !(#[trigger] monitors@[j]).primary,
        decreases monitors@.len() - i,
    {
        if monitors[i].primary {
            return Ok(&monitors[i]);
        }
        i = i + 1;
    }
    if monitors.len() == 0 {
        Err(Error::NoMonitors)
    } else {
        Ok(&monitors[0])
    }
}

/// A crop within the captured texture: x, y, width, height.
pub type Crop = (u32, u32, u32, u32);

/// `v`, but no less than `lo` and no more than `hi`.
pub open spec fn clamped(v: int, lo: int, hi: int) -> int {
    if v < lo {
        lo
    } else if v > hi {
        hi
    } else {
        v
    }
}

/// A scaled region moved and cut so that it lies within a texture of the given
/// size and has at least one pixel.
pub open spec fn fitted(x: int, y: int, w: int, h: int, size: (u32, u32)) -> (int, int, int, int) {
    let cx = clamped(x, 0, size.0 - 1);
    let cy = clamped(y, 0, size.1 - 1);
    (cx, cy, clamped(w, 1, size.0 - cx), clamped(h, 1, size.1 - cy))
}

/// A fitted crop has at least one pixel and lies within the texture.
pub proof fn fitted_crop_is_inside(x: int, y: int, w: int, h: int, size: (u32, u32))
    requires
        1 <= size.0,
        1 <= size.1,
    ensures
        ({
            let c = fitted(x, y, w, h, size);
            &&& 0 <= c.0 && 1 <= c.2 && c.0 + c.2 <= size.0
            &&& 0 <= c.1 && 1 <= c.3 && c.1 + c.3 <= size.1
        }),
{
}

fn clamp_i64(v: i64, lo: i64, hi: i64) -> (r: i64)
    ensures
        r == clamped(v as int, lo as int, hi as int),
{
    if v < lo {
        lo
    } else if v > hi {
        hi
    } else {
        v
    }
}

impl MonitorInfo {
    /// The size that scaling to physical pixels divides by; refuses a monitor
    /// without area.
    pub fn scale_base(&self) -> (r: Result<(i64, i64), Error>)
        ensures
            ({
                let w = self.gdi_rect.right - self.gdi_rect.left;
                let h = self.gdi_rect.bottom - self.gdi_rect.top;
                &&& w <= 0 || h <= 0 ==> r == Err::<(i64, i64), Error>(
                    Error::ZeroSizeMonitor { rect: self.gdi_rect },
                )
                &&& w > 0 && h > 0 ==> r == Ok::<(i64, i64), Error>((w as i64, h as i64))
            }),
    {
        let (w, h) = self.gdi_size();
        if w == 0 || h == 0 {
            Err(Error::ZeroSizeMonitor { rect: self.gdi_rect })
        } else {
            Ok((w, h))
        }
    }

    /// Offset of a region from the monitor's corner, in screen coordinates.
    pub fn offset_of(&self, r: &Rect) -> (o: (i64, i64))
        ensures
            o.0 == r.x - self.gdi_rect.left,
            o.1 == r.y - self.gdi_rect.top,
    {
        (r.x as i64 - self.gdi_rect.left as i64, r.y as i64 - self.gdi_rect.top as i64)
    }

    /// Fits a region that was scaled to physical pixels into the texture.
    pub fn fit_crop(&self, x: i64, y: i64, w: u32, h: u32) -> (r: Crop)
        requires
            1 <= self.phys_size.0,
            1 <= self.phys_size.1,
        ensures
            ({
                let c = fitted(x as int, y as int, w as int, h as int, self.phys_size);
                r.0 == c.0 && r.1 == c.1 && r.2 == c.2 && r.3 == c.3
            }),
    {
        let pw: i64 = self.phys_size.0 as i64;
        let ph: i64 = self.phys_size.1 as i64;
        let cx: i64 = clamp_i64(x, 0, pw - 1);
        let cy: i64 = clamp_i64(y, 0, ph - 1);
        let cw: i64 = clamp_i64(w as i64, 1, pw - cx);
        let ch: i64 = clamp_i64(h as i64, 1, ph - cy);
        (cx as u32, cy as u32, cw as u32, ch as u32)
    }
}

/// What has to be rebuilt before a captured frame can be read.
#[derive(Clone, Copy, PartialEq, Eq, Debug, Structural)]
pub struct PullPlan {
    /// The frame pool does not have the content's size.
    pub recreate_pool: bool,
    /// The staging texture is missing or does not have the content's size.
    pub restage: bool,
}

/// Decides what a frame of size `content` makes necessary.
pub fn plan_pull(pool: (i32, i32), staging: Option<(u32, u32)>, content: (i32, i32)) -> (r:
    PullPlan)
    ensures
        r.recreate_pool == (pool != content),
        r.restage == (staging matches Some(s) ==> s.0 != content.0 as u32 || s.1
            != content.1 as u32),
{
    PullPlan {
        recreate_pool: pool.0 != content.0 || pool.1 != content.1,
        restage: match staging {
            None => true,
            Some((w, h)) => w != content.0 as u32 || h != content.1 as u32,
        },
    }
}

/// Bytes from one row of the captured texture to the next.
pub open spec fn texture_pitch(pool_width: i32) -> int {
    larger(pool_width as int, 1) * 4
}

/// Crops the last captured texture to a tightly packed frame payload; zero where
/// there is no data.
pub fn cropped_payload(crop: Crop, pool_width: i32, last: &[u8]) -> (out: Vec<u8>)
    requires
        (crop.1 + crop.3) * texture_pitch(pool_width) + 4 * crop.0 + 4 * crop.2 <= usize::MAX,
        crop.3 * (4 * crop.2) <= usize::MAX,
    ensures
        out@ == cut_out(
            last@,
            texture_pitch(pool_width),
            crop.0 as int,
            crop.1 as int,
            crop.2 as int,
            crop.3 as int,
        ),
        out@.len() == crop.3 * (4 * crop.2),
{
    proof {
        lemma_pitch_fits(crop.1 + crop.3, texture_pitch(pool_width));
        lemma_area(crop.2 as int, crop.3 as int);
    }
    let pixels: u32 = if pool_width < 1 {
        1
    } else {
        pool_width as u32
    };
    if crop.3 == 0 {
        let out: Vec<u8> = Vec::new();
        assert(out@ =~= cut_out(
            last@,
            texture_pitch(pool_width),
            crop.0 as int,
            crop.1 as int,
            crop.2 as int,
            crop.3 as int,
        ));
        return out;
    }
    cut_pixels(
        last,
        pixels as usize * 4,
        crop.0 as usize,
        crop.1 as usize,
        crop.2 as usize,
        crop.3 as usize,
    )
}

proof fn lemma_pitch_fits(rows: int, pitch: int)
    ensures
        0 < rows && 0 <= pitch ==> pitch <= rows * pitch,
        0 <= rows && 0 <= pitch ==> 0 <= rows * pitch,
{
    assert(0 < rows && 0 <= pitch ==> pitch <= rows * pitch) by (nonlinear_arith);
    assert(0 <= rows && 0 <= pitch ==> 0 <= rows * pitch) by (nonlinear_arith);
}

proof fn lemma_area(w: int, h: int)
    requires
        0 <= w,
        0 <= h,
    ensures
        0 <= h * (4 * w),
        h == 0 ==> h * (4 * w) == 0,
{
    assert(0 <= h * (4 * w)) by (nonlinear_arith)
        requires
            0 <= w,
            0 <= h,
    ;
    assert(h == 0 ==> h * (4 * w) == 0) by (nonlinear_arith);
}

/// How often a source asks for a first frame before it gives up.
pub const PULL_ATTEMPTS: u32 = 50;

/// Pause after a fruitless attempt, in milliseconds.
pub const PULL_WAIT_MS: u64 = 10;

/// What follows an attempt to pull a frame.
#[derive(Clone, Copy, PartialEq, Eq, Debug, Structural)]
pub enum PullStep {
    /// Deliver the buffered picture.
    Deliver,
    /// Wait, then try again.
    Retry,
    /// Wait, then end the stream.
    GiveUp,
}

/// The step after attempt number `attempt` (from 1). A picture that was captured
/// earlier is repeated, since static screens yield no new ones.
pub open spec fn pull_step(attempt: u32, fresh: bool, buffered: bool) -> PullStep {
    if fresh || buffered {
        PullStep::Deliver
    } else if attempt < PULL_ATTEMPTS {
        PullStep::Retry
    } else {
        PullStep::GiveUp
    }
}

/// Decides [`pull_step`].
pub fn after_pull(attempt: u32, fresh: bool, buffered: bool) -> (r: PullStep)
    ensures
        r == pull_step(attempt, fresh, buffered),
{
    if fresh || buffered {
        PullStep::Deliver
    } else if attempt < PULL_ATTEMPTS {
        PullStep::Retry
    } else {
        PullStep::GiveUp
    }
}

/// Plan of a monitor capture source over a fixed desktop rectangle.
#[derive(Clone, Copy, PartialEq, Eq, Debug)]
pub struct WgcSource {
    pub rect: Rect,
    pub fps: u32,
    /// Draw the mouse cursor.
    pub cursor: bool,
    /// `None` streams until stopped from outside.
    pub max_frames: Option<u64>,
    /// Crop within the captured texture, once the session runs.
    pub crop: Option<Crop>,
    pub emitted: u64,
    /// The smallest timestamp that no frame has used up.
    pub next_pts_ms: u64,
}

/// A source for a checked region that was not started yet.
pub open spec fn fresh_wgc(rect: Rect, fps: u32, cursor: bool) -> WgcSource {
    WgcSource { rect, fps, cursor, max_frames: None, crop: None, emitted: 0, next_pts_ms: 0 }
}

/// The source after it delivered a frame grabbed at `pts`.
pub open spec fn wgc_delivered(s: WgcSource, pts: u64) -> WgcSource {
    WgcSource {
        emitted: s.emitted.wrapping_add(1),
        next_pts_ms: left_after(stamp(s.next_pts_ms, pts)),
        ..s
    }
}

/// The source after it was asked for frames, at the given times one after the
/// other: each time it delivered one, unless the stream is over.
pub open spec fn wgc_asked_at(s: WgcSource, times: Seq<u64>) -> WgcSource
    decreases times.len(),
{
    if times.len() == 0 {
        s
    } else {
        let t = wgc_asked_at(s, times.drop_last());
        match next_step(t.crop is Some, t.fps, t.max_frames, t.emitted) {
            Next::At(_) => wgc_delivered(t, times.last()),
            Next::End => t,
        }
    }
}

/// As long as the system has pictures, a started source with a frame budget
/// delivers exactly that many frames, the i-th of them when its tick is due and
/// with its own timestamp, and then ends for good; one that was not started
/// delivers none.
pub proof fn monitor_budget_is_delivered_and_no_more(
    s: WgcSource,
    max: u64,
    times: Seq<u64>,
    pts: u64,
)
    requires
        s.emitted == 0,
        s.next_pts_ms == 0,
        s.max_frames == Some(max),
        0 < s.fps,
    ensures
        ({
            let n = times.len();
            let t = wgc_asked_at(s, times);
            let next = next_step(t.crop is Some, t.fps, t.max_frames, t.emitted);
            let started = s.crop is Some;
            &&& started && n < max ==> next == Next::At(due(s.fps, n as u64) as u64) && stamps(
                times.push(pts),
            ) == stamps(times).push(stamp(t.next_pts_ms, pts))
            &&& started && n >= max ==> next == Next::End
            &&& started ==> t.emitted == smaller(n as int, max as int)
            &&& started && n <= max ==> t.next_pts_ms == left_after_all(stamps(times))
            &&& !started ==> next == Next::End && t == s
            &&& t == (WgcSource { emitted: t.emitted, next_pts_ms: t.next_pts_ms, ..s })
        }),
    decreases times.len(),
{
    assert(times.push(pts).drop_last() =~= times);
    if times.len() > 0 {
        let before = times.drop_last();
        monitor_budget_is_delivered_and_no_more(s, max, before, times.last());
        assert(before.push(times.last()) =~= times);
    }
}

/// The source for a region, or why there is none.
pub open spec fn wgc_for(
    rect: Rect,
    fps: u32,
    cursor: bool,
    screen: Screen,
    monitors: Result<Vec<MonitorInfo>, Error>,
) -> Result<WgcSource, Error> {
    if fps == 0 {
        Err(Error::ZeroFps)
    } else {
        match checked_rect(rect, screen) {
            Err(e) => Err(e),
            Ok(r) => match monitors {
                Err(e) => Err(e),
                Ok(ms) => if fits_one(ms@, r) {
                    Ok(fresh_wgc(r, fps, cursor))
                } else {
                    Err(Error::SpansMonitors { rect: r })
                },
            },
        }
    }
}

/// The screen coordinates of a monitor as a region.
pub open spec fn region_of(m: MonitorInfo) -> Rect {
    Rect {
        x: m.gdi_rect.left,
        y: m.gdi_rect.top,
        w: larger(m.gdi_rect.right - m.gdi_rect.left, 1) as u32,
        h: larger(m.gdi_rect.bottom - m.gdi_rect.top, 1) as u32,
    }
}

proof fn lemma_wgc_asked_at(s: WgcSource, times: Seq<u64>)
    requires
        s.emitted == 0,
        s.next_pts_ms == 0,
        s.crop is Some,
        s.max_frames matches Some(max) ==> times.len() <= max,
    ensures
        ({
            let t = wgc_asked_at(s, times);
            &&& t.next_pts_ms == left_after_all(stamps(times))
            &&& s.max_frames is Some ==> t.emitted == times.len()
            &&& t == (WgcSource { emitted: t.emitted, next_pts_ms: t.next_pts_ms, ..s })
        }),
    decreases times.len(),
{
    if times.len() > 0 {
        lemma_wgc_asked_at(s, times.drop_last());
    }
}

/// As long as its budget lasts, if it has one, a started source has a next frame,
/// and the timestamp of that frame is later than those of all frames before it and
/// not before the time of its grab.
pub proof fn each_monitor_frame_is_later_than_those_before(s: WgcSource, times: Seq<u64>, pts: u64)
    requires
        s.emitted == 0,
        s.next_pts_ms == 0,
        s.crop is Some,
        s.max_frames matches Some(max) ==> times.len() < max,
        forall|i: int|
            0 <= i < times.len() ==> (#[trigger] times[i]) + (times.len() - i) <= u64::MAX,
    ensures
        ({
            let t = wgc_asked_at(s, times);
            let at = stamp(t.next_pts_ms, pts);
            &&& next_step(t.crop is Some, t.fps, t.max_frames, t.emitted) is At
            &&& stamps(times.push(pts)) == stamps(times).push(at)
            &&& stamps(times).len() == times.len()
            &&& forall|i: int| 0 <= i < times.len() ==> (#[trigger] stamps(times)[i]) < at
            &&& pts <= at
        }),
{
    lemma_wgc_asked_at(s, times);
    let all = times.push(pts);
    assert(all.drop_last() =~= times);
    assert forall|i: int| 0 <= i < all.len() implies (#[trigger] all[i]) + (all.len() - 1 - i)
        <= u64::MAX by {
        if i < times.len() {
            assert(all[i] == times[i]);
        }
    }
    timestamps_grow_strictly(all);
    timestamps_grow_strictly(times);
    assert forall|i: int| 0 <= i < times.len() implies (#[trigger] stamps(times)[i])
        < stamps(all)[times.len() as int] by {
        assert(stamps(all)[i] == stamps(times)[i]);
    }
}

impl WgcSource {
    /// A source for the part of `rect` on the screen, with the cursor drawn.
    pub fn new(
        rect: Rect,
        fps: u32,
        screen: Screen,
        monitors: Result<Vec<MonitorInfo>, Error>,
    ) -> (r: Result<WgcSource, Error>)
        ensures
            r == wgc_for(rect, fps, true, screen, monitors),
    {
        WgcSource::with_cursor(rect, fps, true, screen, monitors)
    }

    /// A source for the part of `rect` on the screen, which must lie within one
    /// monitor.
    pub fn with_cursor(
        rect: Rect,
        fps: u32,
        cursor: bool,
        screen: Screen,
        monitors: Result<Vec<MonitorInfo>, Error>,
    ) -> (r: Result<WgcSource, Error>)
        ensures
            r == wgc_for(rect, fps, cursor, screen, monitors),
    {
        if fps == 0 {
            return Err(Error::ZeroFps);
        }
        let rect = match validate_rect(rect, screen) {
            Ok(rect) => rect,
            Err(e) => return Err(e),
        };
        match monitors {
            Err(e) => Err(e),
            Ok(ms) => {
                if choose_containing_monitor(ms.as_slice(), &rect).is_none() {
                    Err(Error::SpansMonitors { rect })
                } else {
                    Ok(
                        WgcSource {
                            rect,
                            fps,
                            cursor,
                            max_frames: None,
                            crop: None,
                            emitted: 0,
                            next_pts_ms: 0,
                        },
                    )
                }
            },
        }
    }

    /// A source for the whole primary monitor.
    pub fn primary_fullscreen(
        fps: u32,
        screen: Screen,
        monitors: Result<Vec<MonitorInfo>, Error>,
    ) -> (r: Result<WgcSource, Error>)
        ensures
            monitors matches Err(e) ==> r == Err::<WgcSource, Error>(e),
            monitors matches Ok(ms) ==> {
                &&& ms@.len() == 0 ==> r == Err::<WgcSource, Error>(Error::NoMonitors)
                &&& ms@.len() > 0 && (forall|j: int|
                    0 <= j < ms@.len() ==> !(#[trigger] ms@[j]).primary) ==> r == wgc_for(
                    region_of(ms@[0]),
                    fps,
                    true,
                    screen,
                    monitors,
                )
                &&& forall|k: int|
                    0 <= k < ms@.len() && (#[trigger] ms@[k]).primary && (forall|j: int|
                        0 <= j < k ==> !(#[trigger] ms@[j]).primary) ==> r == wgc_for(
                        region_of(ms@[k]),
                        fps,
                        true,
                        screen,
                        monitors,
                    )
            },
    {
        let ms = match monitors {
            Ok(ms) => ms,
            Err(e) => return Err(e),
        };
        let m: MonitorInfo = match primary_monitor(ms.as_slice()) {
            Ok(m) => *m,
            Err(e) => return Err(e),
        };
        let w: i64 = max_i64(m.gdi_rect.right as i64 - m.gdi_rect.left as i64, 1);
        let h: i64 = max_i64(m.gdi_rect.bottom as i64 - m.gdi_rect.top as i64, 1);
        WgcSource::new(
            Rect { x: m.gdi_rect.left, y: m.gdi_rect.top, w: w as u32, h: h as u32 },
            fps,
            screen,
            Ok(ms),
        )
    }

    /// The same source with a frame budget.
    pub fn with_max_frames(self, n: u64) -> (r: WgcSource)
        ensures
            r == (WgcSource { max_frames: Some(n), ..self }),
    {
        WgcSource { max_frames: Some(n), ..self }
    }

    /// Geometry and pace of the stream: the crop once the session runs, before
    /// that the estimate, without one the region itself.
    pub fn spec(&self, estimate: Option<(u32, u32)>) -> (r: FrameSpec)
        ensures
            r.fps == self.fps,
            self.crop matches Some(c) ==> r.width == c.2 && r.height == c.3,
            self.crop is None && estimate is Some ==> r.width == (estimate->0).0 && r.height == (
            estimate->0).1,
            self.crop is None && estimate is None ==> r.width == self.rect.w && r.height
                == self.rect.h,
    {
        let (width, height) = match self.crop {
            Some(c) => (c.2, c.3),
            None => match estimate {
                Some(size) => size,
                None => (self.rect.w, self.rect.h),
            },
        };
        FrameSpec { width, height, fps: self.fps }
    }

    /// The monitor to capture from, looked up again when the session starts.
    pub fn monitor_for_start<'a>(&self, monitors: &'a [MonitorInfo]) -> (r: Result<
        &'a MonitorInfo,
        Error,
    >)
        ensures
            !fits_one(monitors@, self.rect) ==> r == Err::<&MonitorInfo, Error>(
                Error::NoLongerContained,
            ),
            fits_one(monitors@, self.rect) ==> r is Ok && exists|k: int| #[trigger]
                last_containing(monitors@, self.rect, k) && *r->Ok_0 == monitors@[k],
    {
        match choose_containing_monitor(monitors, &self.rect) {
            Some(m) => Ok(m),
            None => Err(Error::NoLongerContained),
        }
    }

    /// Notes that the capture session runs, with this crop.
    pub fn begin(&mut self, crop: Crop)
        ensures
            *final(self) == (WgcSource { crop: Some(crop), ..*old(self) }),
    {
        self.crop = Some(crop);
    }

    /// What to do next.
    pub fn next(&self) -> (r: Next)
        requires
            0 < self.fps,
        ensures
            r == next_step(self.crop is Some, self.fps, self.max_frames, self.emitted),
    {
        plan_next(self.crop.is_some(), self.fps, self.max_frames, self.emitted)
    }

    /// Wraps cropped pixels that were grabbed at `pts_ms` as a frame, with a
    /// timestamp later than that of the frame before, and counts it; `None` without
    /// a session.
    pub fn deliver(&mut self, data: Vec<u8>, pts_ms: u64) -> (r: Option<Frame>)
        ensures
            match old(self).crop {
                None => r is None && *final(self) == *old(self),
                Some(c) => {
                    &&& r == Some(
                        Frame {
                            width: c.2,
                            height: c.3,
                            data,
                            pts_ms: stamp(old(self).next_pts_ms, pts_ms),
                        },
                    )
                    &&& r->0.wf() == (data@.len() == c.2 * c.3 * 4)
                    &&& *final(self) == wgc_delivered(*old(self), pts_ms)
                },
            },
    {
        match self.crop {
            None => None,
            Some(c) => {
                self.emitted = self.emitted.wrapping_add(1);
                let pts_ms: u64 = stamp_frame(&mut self.next_pts_ms, pts_ms);
                Some(Frame { width: c.2, height: c.3, data, pts_ms })
            },
        }
    }
}

/// The backend chosen for a capture request.
#[derive(Clone, Copy, PartialEq, Eq, Debug)]
pub enum NativeSource {
    Wgc(WgcSource),
    Gdi(GdiSource),
}

impl NativeSource {
    /// Short name of the backend.
    pub fn name(&self) -> (r: &'static str)
        ensures
            self is Wgc ==> r@ == "wgcap"@,
            self is Gdi ==> r@ == "gdi"@,
    {
        match self {
            NativeSource::Wgc(_) => "wgcap",
            NativeSource::Gdi(_) => "gdi",
        }
    }
}

/// The backend for a request: monitor capture where the host supports it and the
/// region lies within one monitor, block transfer otherwise.
pub open spec fn native_for(
    rect: Rect,
    fps: u32,
    cursor: bool,
    supported: bool,
    screen: Screen,
    monitors: Result<Vec<MonitorInfo>, Error>,
) -> Result<NativeSource, Error> {
    match checked_rect(rect, screen) {
        Err(e) => Err(e),
        Ok(r) => match wgc_for(r, fps, cursor, screen, monitors) {
            Ok(source) if supported => Ok(NativeSource::Wgc(source)),
            _ => match gdi_for(r, fps, screen) {
                Ok(source) => Ok(NativeSource::Gdi(source)),
                Err(e) => Err(e),
            },
        },
    }
}

/// Resolves a region to the best available backend.
pub fn native_source(
    rect: Rect,
    fps: u32,
    cursor: bool,
    supported: bool,
    screen: Screen,
    monitors: Result<Vec<MonitorInfo>, Error>,
) -> (r: Result<NativeSource, Error>)
    ensures
        r == native_for(rect, fps, cursor, supported, screen, monitors),
{
    let rect = match validate_rect(rect, screen) {
        Ok(rect) => rect,
        Err(e) => return Err(e),
    };
    if supported {
        if let Ok(source) = WgcSource::with_cursor(rect, fps, cursor, screen, monitors) {
            return Ok(NativeSource::Wgc(source));
        }
    }
    match GdiSource::new(rect, fps, screen) {
        Ok(source) => Ok(NativeSource::Gdi(source)),
        Err(e) => Err(e),
    }
}

/// A region on the screen always finds a backend: where monitor capture is not
/// supported, or the region spans monitors, or they cannot be listed, it falls
/// back to block transfer.
pub proof fn region_on_screen_finds_a_backend(
    rect: Rect,
    fps: u32,
    cursor: bool,
    supported: bool,
    screen: Screen,
    monitors: Result<Vec<MonitorInfo>, Error>,
)
    requires
        checked_rect(rect, screen) is Ok,
        0 < fps,
    ensures
        ({
            let r = checked_rect(rect, screen)->Ok_0;
            let source = native_for(rect, fps, cursor, supported, screen, monitors);
            let one = supported && monitors is Ok && fits_one(monitors->Ok_0@, r);
            &&& source is Ok
            &&& source->Ok_0 is Wgc == one
            &&& source->Ok_0 is Gdi == !one
            &&& one ==> source->Ok_0->Wgc_0 == fresh_wgc(r, fps, cursor)
        }),
{
    checking_twice_is_checking_once(rect, screen);
}

/// A region that is not empty lies within a monitor exactly if its first and its last
/// pixel do.
pub proof fn contained_region_has_both_ends_inside(m: MonitorInfo, r: Rect)
    requires
        0 < r.w,
        0 < r.h,
    ensures
        contains(m, r) <==> {
            let g = m.gdi_rect;
            &&& g.left <= r.x < g.right && g.top <= r.y < g.bottom
            &&& g.left <= r.x + r.w - 1 < g.right && g.top <= r.y + r.h - 1 < g.bottom
        },
{
}

/// How much of a region lies on a monitor: nothing if they have no pixel in common,
/// all of it exactly if the monitor contains it, and never more than there is of it.
pub proof fn overlap_measures_the_common_part(m: MonitorInfo, r: Rect)
    requires
        0 < r.w,
        0 < r.h,
    ensures
        ({
            let g = m.gdi_rect;
            let apart = g.right <= r.x || g.bottom <= r.y || r.x + r.w <= g.left || r.y + r.h
                <= g.top || g.right <= g.left || g.bottom <= g.top;
            &&& 0 <= overlap(m, r) <= r.w * r.h
            &&& apart <==> overlap(m, r) == 0
            &&& contains(m, r) <==> overlap(m, r) == r.w * r.h
        }),
{
    let (a, b) = (overlap_width(m, r), overlap_height(m, r));
    let (w, h) = (r.w as int, r.h as int);
    assert(0 <= a <= w && 0 <= b <= h);
    assert(0 <= a * b <= w * h && (a * b == 0 <==> a == 0 || b == 0) && (a * b == w * h <==> a == w
        && b == h)) by (nonlinear_arith)
        requires
            0 <= a <= w,
            0 <= b <= h,
            0 < w,
            0 < h,
    ;
}

/// A monitor is where the system says, at the size that the display mode says, or else
/// at that of its place on the screen; a size of zero counts as one. An odd flag marks
/// the primary one.
pub proof fn monitor_is_as_the_system_says(
    hmon: isize,
    g: ScreenRect,
    flags: u32,
    mode: Option<DisplayMode>,
)
    ensures
        ({
            let m = described(hmon, g, flags, mode);
            &&& m.hmon == hmon && m.gdi_rect == g
            &&& m.primary <==> flags % 2 != 0
            &&& m.phys_size.0 >= 1 && m.phys_size.1 >= 1
            &&& mode matches Some(d) ==> {
                &&& m.phys_origin == d.0
                &&& d.1.0 > 0 ==> m.phys_size.0 == d.1.0
                &&& d.1.1 > 0 ==> m.phys_size.1 == d.1.1
                &&& d.1.0 == 0 ==> m.phys_size.0 == 1
                &&& d.1.1 == 0 ==> m.phys_size.1 == 1
            }
            &&& mode is None ==> {
                &&& m.phys_origin == (g.left, g.top)
                &&& g.left < g.right ==> m.phys_size.0 == g.right - g.left
                &&& g.top < g.bottom ==> m.phys_size.1 == g.bottom - g.top
                &&& g.left >= g.right ==> m.phys_size.0 == 1
                &&& g.top >= g.bottom ==> m.phys_size.1 == 1
            }
        }),
{
}

/// A crop that lies within the texture is left as it is.
pub proof fn crop_inside_is_kept(x: int, y: int, w: int, h: int, size: (u32, u32))
    requires
        0 <= x,
        0 <= y,
        1 <= w,
        1 <= h,
        x + w <= size.0,
        y + h <= size.1,
    ensures
        fitted(x, y, w, h, size) == (x, y, w, h),
{
}

/// The payload of a frame shows the cropped part of the captured texture: component
/// `c` of the pixel at column `i` and row `j` is that of the texture's pixel at column
/// `crop.0 + i` and row `crop.1 + j`, zero where there is no data.
pub proof fn payload_shows_the_crop(
    crop: Crop,
    pool_width: i32,
    last: Seq<u8>,
    i: int,
    j: int,
    c: int,
)
    requires
        1 <= pool_width,
        0 <= i < crop.2,
        0 <= j < crop.3,
        0 <= c < 4,
    ensures
        ({
            let payload = cut_out(
                last,
                texture_pitch(pool_width),
                crop.0 as int,
                crop.1 as int,
                crop.2 as int,
                crop.3 as int,
            );
            let from = 4 * ((crop.1 + j) * pool_width + crop.0 + i) + c;
            &&& payload.len() == 4 * (crop.2 * crop.3)
            &&& 0 <= 4 * (j * crop.2 + i) + c < payload.len()
            &&& from < last.len() ==> payload[4 * (j * crop.2 + i) + c] == last[from]
            &&& from >= last.len() ==> payload[4 * (j * crop.2 + i) + c] == 0
        }),
{
    cut_pixel_is_of_its_place(
        last,
        texture_pitch(pool_width),
        crop.0 as int,
        crop.1 as int,
        crop.2 as int,
        crop.3 as int,
        i,
        j,
        c,
    );
    let p = pool_width as int;
    let row = crop.1 + j;
    assert(row * (p * 4) + 4 * (crop.0 + i) + c == 4 * (row * p + crop.0 + i) + c)
        by (nonlinear_arith);
}

/// A picture is delivered as soon as there is one, new or kept; without one the source
/// tries again, and gives up at the fiftieth attempt and no earlier.
pub proof fn source_gives_up_after_fifty_attempts(attempt: u32, fresh: bool, buffered: bool)
    ensures
        pull_step(attempt, fresh, buffered) is Deliver <==> fresh || buffered,
        pull_step(attempt, fresh, buffered) is GiveUp <==> !fresh && !buffered && attempt >= 50,
        pull_step(attempt, fresh, buffered) is Retry <==> !fresh && !buffered && attempt < 50,
{
}

/// A monitor taken as a region is all of it.
pub proof fn monitor_region_is_all_of_it(m: MonitorInfo)
    requires
        m.gdi_rect.left < m.gdi_rect.right,
        m.gdi_rect.top < m.gdi_rect.bottom,
    ensures
        region_of(m).x == m.gdi_rect.left,
        region_of(m).y == m.gdi_rect.top,
        region_of(m).x + region_of(m).w == m.gdi_rect.right,
        region_of(m).y + region_of(m).h == m.gdi_rect.bottom,
        contains(m, region_of(m)),
{
}

/// Whichever backend a request finds, it captures the part of the region on the
/// screen, at the frame rate that was asked for, with the cursor as asked for where
/// the backend draws it, without a budget and from the start.
pub proof fn backend_captures_what_was_asked_for(
    rect: Rect,
    fps: u32,
    cursor: bool,
    supported: bool,
    screen: Screen,
    monitors: Result<Vec<MonitorInfo>, Error>,
)
    requires
        0 < fps,
    ensures
        match native_for(rect, fps, cursor, supported, screen, monitors) {
            Ok(NativeSource::Wgc(s)) => {
                &&& supported
                &&& checked_rect(rect, screen) == Ok::<Rect, Error>(s.rect)
                &&& s.fps == fps && s.cursor == cursor
                &&& s.max_frames is None && s.crop is None && s.emitted == 0 && s.next_pts_ms == 0
                &&& monitors is Ok && fits_one(monitors->Ok_0@, s.rect)
            },
            Ok(NativeSource::Gdi(s)) => {
                &&& checked_rect(rect, screen) == Ok::<Rect, Error>(s.rect)
                &&& s.fps == fps
                &&& s.max_frames is None && !s.started && s.emitted == 0 && s.next_pts_ms == 0
                &&& !(supported && monitors is Ok && fits_one(monitors->Ok_0@, s.rect))
            },
            Err(e) => checked_rect(rect, screen) == Err::<Rect, Error>(e),
        },
{
    if checked_rect(rect, screen) is Ok {
        checking_twice_is_checking_once(rect, screen);
    }
}

/// Without a frame rate no backend is found, and a source by itself says so.
pub proof fn no_frame_rate_no_source(
    rect: Rect,
    cursor: bool,
    supported: bool,
    screen: Screen,
    monitors: Result<Vec<MonitorInfo>, Error>,
)
    ensures
        native_for(rect, 0, cursor, supported, screen, monitors) is Err,
        wgc_for(rect, 0, cursor, screen, monitors) == Err::<WgcSource, Error>(Error::ZeroFps),
{
}

/// A delivered frame is counted once, and changes nothing else but which timestamps
/// are left: those after the one it got.
pub proof fn delivered_monitor_frame_is_counted_once(s: WgcSource, pts: u64)
    requires
        s.emitted < u64::MAX,
        s.next_pts_ms < u64::MAX,
        pts < u64::MAX,
    ensures
        ({
            let t = wgc_delivered(s, pts);
            let at = stamp(s.next_pts_ms, pts);
            &&& t.emitted == s.emitted + 1
            &&& t.next_pts_ms == at + 1
            &&& t == (WgcSource { emitted: t.emitted, next_pts_ms: t.next_pts_ms, ..s })
        }),
{
}

/// Of several monitors that hold a region the last one is chosen, so there is one
/// choice only; and there is one exactly if some monitor holds the region.
pub proof fn chosen_monitor_is_the_last_that_holds_the_region(
    monitors: Seq<MonitorInfo>,
    r: Rect,
    k: int,
    j: int,
)
    ensures
        last_containing(monitors, r, k) && 0 <= j < monitors.len() && contains(monitors[j], r)
            ==> j <= k < monitors.len() && contains(monitors[k], r),
        0 <= j < monitors.len() && contains(monitors[j], r) ==> fits_one(monitors, r),
        last_containing(monitors, r, k) ==> fits_one(monitors, r),
{
}

/// A crop that reaches beyond the texture begins at its nearest pixel, has at least
/// one, and ends no later than the texture does.
pub proof fn crop_outside_is_moved_in(x: int, y: int, w: int, h: int, size: (u32, u32))
    requires
        1 <= size.0,
        1 <= size.1,
    ensures
        ({
            let c = fitted(x, y, w, h, size);
            &&& x < 0 ==> c.0 == 0
            &&& x >= size.0 ==> c.0 == size.0 - 1
            &&& 0 <= x < size.0 ==> c.0 == x
            &&& y < 0 ==> c.1 == 0
            &&& y >= size.1 ==> c.1 == size.1 - 1
            &&& 0 <= y < size.1 ==> c.1 == y
            &&& w < 1 ==> c.2 == 1
            &&& w > size.0 - c.0 ==> c.2 == size.0 - c.0
            &&& 1 <= w <= size.0 - c.0 ==> c.2 == w
            &&& h < 1 ==> c.3 == 1
            &&& h > size.1 - c.1 ==> c.3 == size.1 - c.1
            &&& 1 <= h <= size.1 - c.1 ==> c.3 == h
        }),
{
}

/// The rows of a texture are as many pixels of four bytes apart as it is wide, and one
/// at least.
pub proof fn texture_rows_are_its_width_apart(pool_width: i32)
    ensures
        pool_width >= 1 ==> texture_pitch(pool_width) == 4 * pool_width,
        pool_width < 1 ==> texture_pitch(pool_width) == 4,
{
}

} // verus!
