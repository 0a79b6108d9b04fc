//! Capture by block transfer from the desktop.
//!
//! Regions are screen coordinates, cut to the virtual screen. Pacing is driven
//! by the wall clock: the time of a tick does not depend on how long earlier
//! grabs took, so a slow grab cannot make the stream drift.

use crate::error::Error;
use crate::num::{larger, min_i64, smaller};
use crate::pipeline::{Frame, FrameSpec};
use crate::recorder::Rect;
use vstd::prelude::*;

verus! {

/// Position and size of the virtual screen: left, top, width, height.
pub type Screen = (i32, i32, i32, i32);

/// Left edge of the part of `r` on the screen.
pub open spec fn clip_left(r: Rect, s: Screen) -> int {
    larger(r.x as int, s.0 as int)
}

/// Top edge of the part of `r` on the screen.
pub open spec fn clip_top(r: Rect, s: Screen) -> int {
    larger(r.y as int, s.1 as int)
}

/// Right edge of the part of `r` on the screen.
pub open spec fn clip_right(r: Rect, s: Screen) -> int {
    smaller(r.x + r.w, s.0 + s.2)
}

/// Bottom edge of the part of `r` on the screen.
pub open spec fn clip_bottom(r: Rect, s: Screen) -> int {
    smaller(r.y + r.h, s.1 + s.3)
}

/// Some of `r` is on the screen.
pub open spec fn on_screen(r: Rect, s: Screen) -> bool {
    clip_left(r, s) < clip_right(r, s) && clip_top(r, s) < clip_bottom(r, s)
}

/// The part of `r` on the screen.
pub open spec fn clipped(r: Rect, s: Screen) -> Rect {
    Rect {
        x: clip_left(r, s) as i32,
        y: clip_top(r, s) as i32,
        w: (clip_right(r, s) - clip_left(r, s)) as u32,
        h: (clip_bottom(r, s) - clip_top(r, s)) as u32,
    }
}

/// What a region check yields.
pub open spec fn checked_rect(r: Rect, s: Screen) -> Result<Rect, Error> {
    if s.2 <= 0 || s.3 <= 0 {
        Err(Error::NoVirtualScreen)
    } else if !on_screen(r, s) {
        Err(Error::OffScreen { rect: r, screen: s })
    } else {
        Ok(clipped(r, s))
    }
}

/// Cuts a region to the virtual screen; refuses one that lies outside.
pub fn validate_rect(rect: Rect, screen: Screen) -> (r: Result<Rect, Error>)
    ensures
        r == checked_rect(rect, screen),
{
    let (vx, vy, vw, vh) = screen;
    if vw <= 0 || vh <= 0 {
        return Err(Error::NoVirtualScreen);
    }
    let left: i32 = if rect.x >= vx {
        rect.x
    } else {
        vx
    };
    let top: i32 = if rect.y >= vy {
        rect.y
    } else {
        vy
    };
    let right: i64 = min_i64(rect.x as i64 + rect.w as i64, vx as i64 + vw as i64);
    let bottom: i64 = min_i64(rect.y as i64 + rect.h as i64, vy as i64 + vh as i64);
    if right - (left as i64) < 1 || bottom - (top as i64) < 1 {
        return Err(Error::OffScreen { rect, screen });
    }
    Ok(Rect { x: left, y: top, w: (right - left as i64) as u32, h: (bottom - top as i64) as u32 })
}

/// A region that passes the check lies within the screen, is not empty, and lies
/// within the region asked for.
pub proof fn checked_rect_is_on_screen(r: Rect, s: Screen)
    requires
        checked_rect(r, s) is Ok,
    ensures
        ({
            let c = checked_rect(r, s)->Ok_0;
            &&& 1 <= c.w <= s.2
            &&& 1 <= c.h <= s.3
            &&& s.0 <= c.x && c.x + c.w <= s.0 + s.2
            &&& s.1 <= c.y && c.y + c.h <= s.1 + s.3
            &&& r.x <= c.x && c.x + c.w <= r.x + r.w
            &&& r.y <= c.y && c.y + c.h <= r.y + r.h
        }),
{
}

/// Checking a region a second time changes nothing.
pub proof fn checking_twice_is_checking_once(r: Rect, s: Screen)
    requires
        checked_rect(r, s) is Ok,
    ensures
        checked_rect(checked_rect(r, s)->Ok_0, s) == checked_rect(r, s),
{
}

/// A region that lies within the screen passes the check unchanged.
pub proof fn region_on_screen_is_kept(r: Rect, s: Screen)
    requires
        1 <= r.w,
        1 <= r.h,
        s.0 <= r.x,
        s.1 <= r.y,
        r.x + r.w <= s.0 + s.2,
        r.y + r.h <= s.1 + s.3,
    ensures
        checked_rect(r, s) == Ok::<Rect, Error>(r),
{
}

/// Nanoseconds between two frames.
pub open spec fn interval(fps: u32) -> int {
    1_000_000_000int / (fps as int)
}

/// When the frame after `emitted` others is due, in nanoseconds since the start.
/// The tick number is 32 bits wide.
pub open spec fn due(fps: u32, emitted: u64) -> int {
    interval(fps) * (((emitted % 0x1_0000_0000) + 1) % 0x1_0000_0000)
}

/// The frame budget, if there is one, is spent.
pub open spec fn spent(max_frames: Option<u64>, emitted: u64) -> bool {
    max_frames matches Some(max) && emitted >= max
}

/// What a source does next.
#[derive(Clone, Copy, PartialEq, Eq, Debug, Structural)]
pub enum Next {
    /// The stream is over.
    End,
    /// Grab a frame at this many nanoseconds after the start.
    At(u64),
}

/// The next step of a source.
pub open spec fn next_step(started: bool, fps: u32, max_frames: Option<u64>, emitted: u64) -> Next {
    if spent(max_frames, emitted) || !started {
        Next::End
    } else {
        Next::At(due(fps, emitted) as u64)
    }
}

/// Decides [`next_step`].
pub fn plan_next(started: bool, fps: u32, max_frames: Option<u64>, emitted: u64) -> (r: Next)
    requires
        0 < fps,
    ensures
        r == next_step(started, fps, max_frames, emitted),
        r matches Next::At(t) ==> t == due(fps, emitted),
{
    if let Some(max) = max_frames {
        if emitted >= max {
            return Next::End;
        }
    }
    if !started {
        return Next::End;
    }
    let nanos: u64 = 1_000_000_000 / fps as u64;
    let tick: u64 = (emitted % 0x1_0000_0000 + 1) % 0x1_0000_0000;
    proof {
        lemma_due_fits(nanos as int, tick as int);
    }
    Next::At(nanos * tick)
}

proof fn lemma_due_fits(nanos: int, tick: int)
    by (nonlinear_arith)
    requires
        0 <= nanos <= 1_000_000_000,
        0 <= tick < 0x1_0000_0000,
    ensures
        0 <= nanos * tick <= u64::MAX,
{
}

/// Pacing does not drift: the n-th tick is due n intervals after the start,
/// whatever happened before.
pub proof fn ticks_are_evenly_spaced(fps: u32, emitted: u64)
    requires
        0 < fps,
        emitted < 0xffff_fffe,
    ensures
        due(fps, emitted) == interval(fps) * (emitted + 1),
        due(fps, (emitted + 1) as u64) == due(fps, emitted) + interval(fps),
{
    assert(interval(fps) * (emitted + 2) == interval(fps) * (emitted + 1) + interval(fps))
        by (nonlinear_arith);
}

/// The timestamp that a frame grabbed at `pts` gets: its own, unless that was used
/// up already.
pub open spec fn stamp(next: u64, pts: u64) -> u64 {
    if pts < next {
        next
    } else {
        pts
    }
}

/// The smallest timestamp that is left after `used`.
pub open spec fn left_after(used: u64) -> u64 {
    if used < u64::MAX {
        (used + 1) as u64
    } else {
        used
    }
}

/// Gives a frame its timestamp.
pub fn stamp_frame(next_pts_ms: &mut u64, pts_ms: u64) -> (r: u64)
    ensures
        r == stamp(*old(next_pts_ms), pts_ms),
        *final(next_pts_ms) == left_after(r),
{
    let r: u64 = if pts_ms < *next_pts_ms {
        *next_pts_ms
    } else {
        pts_ms
    };
    *next_pts_ms = if r < u64::MAX {
        r + 1
    } else {
        r
    };
    r
}

/// The smallest timestamp that is left after all of `stamps`.
pub open spec fn left_after_all(stamps: Seq<u64>) -> u64 {
    if stamps.len() == 0 {
        0
    } else {
        left_after(stamps.last())
    }
}

/// The timestamps of frames grabbed at the given times, one after the other.
pub open spec fn stamps(times: Seq<u64>) -> Seq<u64>
    decreases times.len(),
{
    if times.len() == 0 {
        Seq::empty()
    } else {
        let before = stamps(times.drop_last());
        before.push(stamp(left_after_all(before), times.last()))
    }
}

proof fn lemma_stamps(times: Seq<u64>, room: nat)
    requires
        forall|i: int|
            0 <= i < times.len() ==> (#[trigger] times[i]) + (times.len() - 1 - i) + room
                <= u64::MAX,
    ensures
        stamps(times).len() == times.len(),
        forall|i: int|
            0 <= i < times.len() ==> times[i] <= (#[trigger] stamps(times)[i]) <= u64::MAX - (
            times.len() - 1 - i) - room,
        forall|i: int, j: int|
            0 <= i < j < times.len() ==> (#[trigger] stamps(times)[i]) < (
            #[trigger] stamps(times)[j]),
        (forall|i: int, j: int|
            0 <= i < j < times.len() ==> (#[trigger] times[i]) < (#[trigger] times[j]))
            ==> stamps(times) == times,
    decreases times.len(),
{
    if times.len() > 0 {
        let before = times.drop_last();
        let n = before.len() as int;
        assert forall|i: int| 0 <= i < n implies (#[trigger] before[i]) + (n - 1 - i) + (room + 1)
            <= u64::MAX by {
            assert(before[i] == times[i]);
        }
        lemma_stamps(before, room + 1);
        assert forall|i: int| 0 <= i < n implies #[trigger] stamps(times)[i] == stamps(before)[i]
            && times[i] == before[i] by {}
        if n > 0 {
            assert(stamps(before).last() == stamps(before)[n - 1]);
            assert(times[n - 1] == before[n - 1]);
        }
        assert(times.last() == times[n]);
        if forall|i: int, j: int|
            0 <= i < j < times.len() ==> (#[trigger] times[i]) < (#[trigger] times[j]) {
            assert(stamps(times) =~= times);
        }
    } else {
        assert(stamps(times) =~= times);
    }
}

/// The timestamps of a source's frames grow strictly, and none is before the time
/// of its grab. Where those times grow strictly, they are the timestamps. There must
/// be enough numbers left for the frames that follow a grab.
pub proof fn timestamps_grow_strictly(times: Seq<u64>)
    requires
        forall|i: int|
            0 <= i < times.len() ==> (#[trigger] times[i]) + (times.len() - 1 - i) <= u64::MAX,
    ensures
        stamps(times).len() == times.len(),
        forall|i: int| 0 <= i < times.len() ==> times[i] <= (#[trigger] stamps(times)[i]),
        forall|i: int, j: int|
            0 <= i < j < times.len() ==> (#[trigger] stamps(times)[i]) < (
            #[trigger] stamps(times)[j]),
        (forall|i: int, j: int|
            0 <= i < j < times.len() ==> (#[trigger] times[i]) < (#[trigger] times[j]))
            ==> stamps(times) == times,
{
    lemma_stamps(times, 0);
}

/// Plan of a frame source over a fixed desktop rectangle.
#[derive(Clone, Copy, PartialEq, Eq, Debug, Structural)]
pub struct GdiSource {
    pub rect: Rect,
    pub fps: u32,
    /// `None` streams until stopped from outside.
    pub max_frames: Option<u64>,
    pub started: bool,
    pub emitted: u64,
    /// The smallest timestamp that no frame has used up.
    pub next_pts_ms: u64,
}

/// A source for a checked region that was not started yet.
pub open spec fn fresh_gdi(rect: Rect, fps: u32) -> GdiSource {
    GdiSource { rect, fps, max_frames: None, started: false, emitted: 0, next_pts_ms: 0 }
}

/// The source for a region, or why there is none.
pub open spec fn gdi_for(rect: Rect, fps: u32, screen: Screen) -> Result<GdiSource, Error> {
    if fps == 0 {
        Err(Error::ZeroFps)
    } else {
        match checked_rect(rect, screen) {
            Ok(r) => Ok(fresh_gdi(r, fps)),
            Err(e) => Err(e),
        }
    }
}

/// The source after it delivered a frame grabbed at `pts`.
pub open spec fn delivered(s: GdiSource, pts: u64) -> GdiSource {
    GdiSource {
        emitted: s.emitted.wrapping_add(1),
        next_pts_ms: left_after(stamp(s.next_pts_ms, pts)),
        ..s
    }
}

/// The source after it was asked for frames, at the given times one after the
/// other: each time it delivered one, unless the stream is over.
pub open spec fn asked_at(s: GdiSource, times: Seq<u64>) -> GdiSource
    decreases times.len(),
{
    if times.len() == 0 {
        s
    } else {
        let t = asked_at(s, times.drop_last());
        match next_step(t.started, t.fps, t.max_frames, t.emitted) {
            Next::At(_) => delivered(t, times.last()),
            Next::End => t,
        }
    }
}

/// A started source with a frame budget delivers exactly that many frames, the
/// i-th of them when its tick is due and with its own timestamp, and then ends for
/// good; one that was not started delivers none.
pub proof fn budget_is_delivered_and_no_more(s: GdiSource, max: u64, times: Seq<u64>, pts: u64)
    requires
        s.emitted == 0,
        s.next_pts_ms == 0,
        s.max_frames == Some(max),
        0 < s.fps,
    ensures
        ({
            let n = times.len();
            let t = asked_at(s, times);
            let next = next_step(t.started, t.fps, t.max_frames, t.emitted);
            &&& s.started && n < max ==> next == Next::At(due(s.fps, n as u64) as u64) && stamps(
                times.push(pts),
            ) == stamps(times).push(stamp(t.next_pts_ms, pts))
            &&& s.started && n >= max ==> next == Next::End
            &&& s.started ==> t.emitted == smaller(n as int, max as int)
            &&& s.started && n <= max ==> t.next_pts_ms == left_after_all(stamps(times))
            &&& !s.started ==> next == Next::End && t == s
            &&& t == (GdiSource { emitted: t.emitted, next_pts_ms: t.next_pts_ms, ..s })
        }),
    decreases times.len(),
{
    assert(times.push(pts).drop_last() =~= times);
    if times.len() > 0 {
        let before = times.drop_last();
        budget_is_delivered_and_no_more(s, max, before, times.last());
        assert(before.push(times.last()) =~= times);
    }
}

proof fn lemma_asked_at(s: GdiSource, times: Seq<u64>)
    requires
        s.emitted == 0,
        s.next_pts_ms == 0,
        s.started,
        s.max_frames matches Some(max) ==> times.len() <= max,
    ensures
        ({
            let t = asked_at(s, times);
            &&& t.next_pts_ms == left_after_all(stamps(times))
            &&& s.max_frames is Some ==> t.emitted == times.len()
            &&& t == (GdiSource { emitted: t.emitted, next_pts_ms: t.next_pts_ms, ..s })
        }),
    decreases times.len(),
{
    if times.len() > 0 {
        lemma_asked_at(s, times.drop_last());
    }
}

/// As long as its budget lasts, if it has one, a started source has a next frame,
/// and the timestamp of that frame is later than those of all frames before it and
/// not before the time of its grab.
pub proof fn each_frame_is_later_than_those_before(s: GdiSource, times: Seq<u64>, pts: u64)
    requires
        s.emitted == 0,
        s.next_pts_ms == 0,
        s.started,
        s.max_frames matches Some(max) ==> times.len() < max,
        forall|i: int|
            0 <= i < times.len() ==> (#[trigger] times[i]) + (times.len() - i) <= u64::MAX,
    ensures
        ({
            let t = asked_at(s, times);
            let at = stamp(t.next_pts_ms, pts);
            &&& next_step(t.started, t.fps, t.max_frames, t.emitted) is At
            &&& stamps(times.push(pts)) == stamps(times).push(at)
            &&& stamps(times).len() == times.len()
            &&& forall|i: int| 0 <= i < times.len() ==> (#[trigger] stamps(times)[i]) < at
            &&& pts <= at
        }),
{
    lemma_asked_at(s, times);
    let all = times.push(pts);
    assert(all.drop_last() =~= times);
    assert forall|i: int| 0 <= i < all.len() implies (#[trigger] all[i]) + (all.len() - 1 - i)
        <= u64::MAX by {
        if i < times.len() {
            assert(all[i] == times[i]);
        }
    }
    timestamps_grow_strictly(all);
    timestamps_grow_strictly(times);
    assert forall|i: int| 0 <= i < times.len() implies (#[trigger] stamps(times)[i])
        < stamps(all)[times.len() as int] by {
        assert(stamps(all)[i] == stamps(times)[i]);
    }
}

impl GdiSource {
    /// A source for the part of `rect` on the screen.
    pub fn new(rect: Rect, fps: u32, screen: Screen) -> (r: Result<GdiSource, Error>)
        ensures
            r == gdi_for(rect, fps, screen),
    {
        if fps == 0 {
            return Err(Error::ZeroFps);
        }
        match validate_rect(rect, screen) {
            Ok(rect) => Ok(
                GdiSource {
                    rect,
                    fps,
                    max_frames: None,
                    started: false,
                    emitted: 0,
                    next_pts_ms: 0,
                },
            ),
            Err(e) => Err(e),
        }
    }

    /// A source for the whole virtual screen.
    pub fn full_desktop(fps: u32, screen: Screen) -> (r: Result<GdiSource, Error>)
        ensures
            fps == 0 ==> r == Err::<GdiSource, Error>(Error::ZeroFps),
            fps > 0 && (screen.2 <= 0 || screen.3 <= 0) ==> r == Err::<GdiSource, Error>(
                Error::NoVirtualScreen,
            ),
            fps > 0 && screen.2 > 0 && screen.3 > 0 ==> r == Ok::<GdiSource, Error>(
                fresh_gdi(
                    (Rect { x: screen.0, y: screen.1, w: screen.2 as u32, h: screen.3 as u32 }),
                    fps,
                ),
            ),
    {
        let w: u32 = if screen.2 < 1 {
            1
        } else {
            screen.2 as u32
        };
        let h: u32 = if screen.3 < 1 {
            1
        } else {
            screen.3 as u32
        };
        GdiSource::new(Rect { x: screen.0, y: screen.1, w, h }, fps, screen)
    }

    /// The same source with a frame budget.
    pub fn with_max_frames(self, n: u64) -> (r: GdiSource)
        ensures
            r == (GdiSource { max_frames: Some(n), ..self }),
    {
        GdiSource { max_frames: Some(n), ..self }
    }

    /// Geometry and pace of the stream.
    pub fn spec(&self) -> (r: FrameSpec)
        ensures
            r == (FrameSpec { width: self.rect.w, height: self.rect.h, fps: self.fps }),
    {
        FrameSpec { width: self.rect.w, height: self.rect.h, fps: self.fps }
    }

    /// Notes that the capture session runs.
    pub fn begin(&mut self)
        ensures
            *final(self) == (GdiSource { started: true, ..*old(self) }),
    {
        self.started = true;
    }

    /// What to do next.
    pub fn next(&self) -> (r: Next)
        requires
            0 < self.fps,
        ensures
            r == next_step(self.started, self.fps, self.max_frames, self.emitted),
    {
        plan_next(self.started, self.fps, self.max_frames, self.emitted)
    }

    /// Wraps pixels that were grabbed at `pts_ms` as a frame, with a timestamp later
    /// than that of the frame before, and counts it.
    pub fn deliver(&mut self, data: Vec<u8>, pts_ms: u64) -> (f: Frame)
        ensures
            f == (Frame {
                width: old(self).rect.w,
                height: old(self).rect.h,
                data,
                pts_ms: stamp(old(self).next_pts_ms, pts_ms),
            }),
            f.wf() == (data@.len() == old(self).rect.w * old(self).rect.h * 4),
            *final(self) == delivered(*old(self), pts_ms),
    {
        self.emitted = self.emitted.wrapping_add(1);
        let pts_ms: u64 = stamp_frame(&mut self.next_pts_ms, pts_ms);
        Frame { width: self.rect.w, height: self.rect.h, data, pts_ms }
    }
}

/// A region that was checked is the common part of what was asked for and the screen:
/// a point lies in it exactly if it lies in both. It is refused as off screen exactly
/// if there is no such point.
pub proof fn checked_region_is_the_common_part(r: Rect, s: Screen, x: int, y: int)
    ensures
        s.2 <= 0 || s.3 <= 0 ==> checked_rect(r, s) == Err::<Rect, Error>(Error::NoVirtualScreen),
        s.2 > 0 && s.3 > 0 ==> {
            let asked = r.x <= x < r.x + r.w && r.y <= y < r.y + r.h;
            let shown = s.0 <= x < s.0 + s.2 && s.1 <= y < s.1 + s.3;
            match checked_rect(r, s) {
                Ok(c) => c.w > 0 && c.h > 0 && (c.x <= x < c.x + c.w && c.y <= y < c.y + c.h
                    <==> asked && shown),
                Err(e) => !(asked && shown) && e == (Error::OffScreen { rect: r, screen: s }),
            }
        },
{
}

/// Frames are due at the frame rate: the n-th comes n times the frame interval after
/// the start, to within a nanosecond per frame.
pub proof fn frames_are_due_at_the_frame_rate(fps: u32, emitted: u64)
    requires
        0 < fps,
        emitted < 0xffff_ffff,
    ensures
        ({
            let n = emitted + 1;
            &&& due(fps, emitted) == (1_000_000_000int / (fps as int)) * n
            &&& 1_000_000_000 * n - fps * n < fps * due(fps, emitted) <= 1_000_000_000 * n
        }),
{
    let f = fps as int;
    let n = emitted + 1;
    let q = 1_000_000_000int / f;
    vstd::arithmetic::div_mod::lemma_fundamental_div_mod(1_000_000_000, f);
    assert(0 <= 1_000_000_000int % f < f) by (nonlinear_arith)
        requires
            0 < f,
    ;
    assert(1_000_000_000 * n - f * n < f * (q * n) <= 1_000_000_000 * n) by (nonlinear_arith)
        requires
            1_000_000_000 == f * q + 1_000_000_000int % f,
            0 <= 1_000_000_000int % f < f,
            0 < n,
    ;
}

/// A source is asked for the next frame exactly if it was started and its budget, if
/// there is one, is not used up.
pub proof fn next_frame_is_due_within_the_budget(
    started: bool,
    fps: u32,
    max_frames: Option<u64>,
    emitted: u64,
)
    ensures
        next_step(started, fps, max_frames, emitted) is At <==> started && (max_frames matches Some(
            max,
        ) ==> emitted < max),
{
}

/// A source that was made is one for the checked region at the frame rate that was
/// asked for, without a budget, not started, and with nothing delivered yet.
pub proof fn made_source_is_the_one_asked_for(rect: Rect, fps: u32, screen: Screen)
    ensures
        fps == 0 ==> gdi_for(rect, fps, screen) == Err::<GdiSource, Error>(Error::ZeroFps),
        fps > 0 ==> match gdi_for(rect, fps, screen) {
            Ok(s) => {
                &&& checked_rect(rect, screen) == Ok::<Rect, Error>(s.rect)
                &&& s.fps == fps
                &&& s.max_frames is None
                &&& !s.started
                &&& s.emitted == 0
                &&& s.next_pts_ms == 0
            },
            Err(e) => checked_rect(rect, screen) == Err::<Rect, Error>(e),
        },
{
}

/// A frame that was grabbed no later than the timestamp before it gets the very next
/// timestamp; another one keeps the time of its grab.
pub proof fn timestamps_give_way_by_one(times: Seq<u64>, i: int)
    requires
        0 < i < times.len(),
        stamps(times)[i - 1] < u64::MAX,
    ensures
        stamps(times).len() == times.len(),
        stamps(times)[0] == times[0],
        times[i] <= stamps(times)[i - 1] ==> stamps(times)[i] == stamps(times)[i - 1] + 1,
        times[i] > stamps(times)[i - 1] ==> stamps(times)[i] == times[i],
    decreases times.len(),
{
    lemma_stamps_len(times);
    let before = times.drop_last();
    lemma_stamps_len(before);
    lemma_first_stamp(times);
    if i < before.len() {
        assert(before[i] == times[i]);
        timestamps_give_way_by_one(before, i);
    }
}

proof fn lemma_first_stamp(times: Seq<u64>)
    requires
        0 < times.len(),
    ensures
        stamps(times)[0] == times[0],
    decreases times.len(),
{
    let before = times.drop_last();
    lemma_stamps_len(before);
    if before.len() > 0 {
        lemma_first_stamp(before);
        assert(before[0] == times[0]);
    }
}

proof fn lemma_stamps_len(times: Seq<u64>)
    ensures
        stamps(times).len() == times.len(),
    decreases times.len(),
{
    if times.len() > 0 {
        lemma_stamps_len(times.drop_last());
    }
}

/// A delivered frame is counted once, and changes nothing else but which timestamps
/// are left: those after the one it got.
pub proof fn delivered_frame_is_counted_once(s: GdiSource, pts: u64)
    requires
        s.emitted < u64::MAX,
        s.next_pts_ms < u64::MAX,
        pts < u64::MAX,
    ensures
        ({
            let t = delivered(s, pts);
            let at = stamp(s.next_pts_ms, pts);
            &&& t.emitted == s.emitted + 1
            &&& at >= pts && at >= s.next_pts_ms && (at == pts || at == s.next_pts_ms)
            &&& t.next_pts_ms == at + 1
            &&& t == (GdiSource { emitted: t.emitted, next_pts_ms: t.next_pts_ms, ..s })
        }),
{
}

} // verus!
