//! One recording session: from a capture source through the software encoder to
//! an MP4 file, with nothing outside the process involved.

use crate::capture::gdi::{region_on_screen_is_kept, Screen};
use crate::capture::wgcap::{
    native_for, native_source, region_on_screen_finds_a_backend, MonitorInfo, NativeSource,
};
use crate::encode::sw::{
    calls_keep_their_word, coded, effort_of, every_frame_gives_one_sample, exchanged,
    finishing_gives_nothing_more, held_by_codec, setup_for, setup_lasts, stream_refusal,
    EncoderState, SwH264Encoder,
};
use crate::error::Error;
use crate::num::{larger, max_i64, smaller};
use crate::pipeline::{
    added, complete_run_writes_each_frame_once, completed, frames_in, given_frames_are_in,
    one_for_one_run_fails_only_with_a_call, outcome, produced, run, run_starts_in_order,
    some_call_failed, source_gave, Calls, EncoderEvent, Frame, FrameSource, FrameSpec, Muxer,
    MuxerEvent, PipelineStats, Sample, SourceEvent, SourceFixed, VideoEncoder,
};
use crate::recorder::{bitrate_of, Mode, Quality, Rect};
use crate::settings::Settings;
use std::sync::atomic::AtomicBool;
use std::sync::Arc;
use vstd::prelude::*;

verus! {

/// A region with its extents rounded down to even numbers.
pub open spec fn evened(r: Rect) -> Rect {
    Rect { x: r.x, y: r.y, w: (r.w - r.w % 2) as u32, h: (r.h - r.h % 2) as u32 }
}

/// Rounds a region down to even width and height: chroma subsampling needs whole
/// blocks of two by two pixels.
pub fn even_rect(r: Rect) -> (e: Rect)
    ensures
        e == evened(r),
        e.w % 2 == 0,
        e.h % 2 == 0,
        r.w - 1 <= e.w <= r.w,
        r.h - 1 <= e.h <= r.h,
{
    Rect { x: r.x, y: r.y, w: r.w - r.w % 2, h: r.h - r.h % 2 }
}

/// `left`, `top`, `right`, `bottom` are the outermost edges of the monitors.
pub open spec fn outermost(
    monitors: Seq<MonitorInfo>,
    left: int,
    top: int,
    right: int,
    bottom: int,
) -> bool {
    &&& forall|i: int|
        0 <= i < monitors.len() ==> left <= (#[trigger] monitors[i]).gdi_rect.left && top
            <= monitors[i].gdi_rect.top && monitors[i].gdi_rect.right <= right
            && monitors[i].gdi_rect.bottom <= bottom
    &&& exists|i: int| 0 <= i < monitors.len() && (#[trigger] monitors[i]).gdi_rect.left == left
    &&& exists|i: int| 0 <= i < monitors.len() && (#[trigger] monitors[i]).gdi_rect.top == top
    &&& exists|i: int| 0 <= i < monitors.len() && (#[trigger] monitors[i]).gdi_rect.right == right
    &&& exists|i: int| 0 <= i < monitors.len() && (#[trigger] monitors[i]).gdi_rect.bottom == bottom
}

/// `q` spans all monitors; `right` and `bottom` are its far edges, unless those
/// lie before the near ones.
pub open spec fn bounds(monitors: Seq<MonitorInfo>, q: Rect, right: int, bottom: int) -> bool {
    &&& outermost(monitors, q.x as int, q.y as int, right, bottom)
    &&& q.w == larger(right - q.x, 0)
    &&& q.h == larger(bottom - q.y, 0)
}

/// Bounding rectangle of the whole virtual desktop.
pub fn full_desktop_rect(monitors: &[MonitorInfo]) -> (r: Result<Rect, Error>)
    ensures
        monitors@.len() == 0 ==> r == Err::<Rect, Error>(Error::NoMonitors),
        monitors@.len() > 0 ==> r is Ok,
        r is Ok ==> exists|right: int, bottom: int|
            bounds(monitors@, r->Ok_0, right, bottom),
{
    if monitors.len() == 0 {
        return Err(Error::NoMonitors);
    }
    let mut left: i32 = monitors[0].gdi_rect.left;
    let mut top: i32 = monitors[0].gdi_rect.top;
    let mut right: i32 = monitors[0].gdi_rect.right;
    let mut bottom: i32 = monitors[0].gdi_rect.bottom;
    let mut i: usize = 1;
    assert(monitors@.take(1)[0] == monitors@[0]);
    while i < monitors.len()
        invariant
            1 <= i <= monitors@.len(),
            outermost(
                monitors@.take(i as int),
                left as int,
                top as int,
                right as int,
                bottom as int,
            ),
        decreases monitors@.len() - i,
    {
        let m = &monitors[i].gdi_rect;
        let ghost before = monitors@.take(i as int);
        let ghost after = monitors@.take(i + 1);
        assert(after[i as int].gdi_rect == *m);
        assert(forall|j: int| 0 <= j < i ==> #[trigger] before[j] == after[j]);
        let ghost (l0, t0, r0, b0) = (left, top, right, bottom);
        if m.left < left {
            left = m.left;
        }
        if m.top < top {
            top = m.top;
        }
        if m.right > right {
            right = m.right;
        }
        if m.bottom > bottom {
            bottom = m.bottom;
        }
        proof {
            let kl = choose|k: int| 0 <= k < before.len() && (#[trigger] before[k]).gdi_rect.left
                == l0;
            let kt = choose|k: int| 0 <= k < before.len() && (#[trigger] before[k]).gdi_rect.top
                == t0;
            let kr = choose|k: int| 0 <= k < before.len() && (#[trigger] before[k]).gdi_rect.right
                == r0;
            let kb = choose|k: int| 0 <= k < before.len() && (#[trigger] before[k]).gdi_rect.bottom
                == b0;
            assert(before[kl] == after[kl]);
            assert(before[kt] == after[kt]);
            assert(before[kr] == after[kr]);
            assert(before[kb] == after[kb]);
            assert forall|j: int| 0 <= j < after.len() implies left <= (
            #[trigger] after[j]).gdi_rect.left && top <= after[j].gdi_rect.top
                && after[j].gdi_rect.right <= right && after[j].gdi_rect.bottom <= bottom by {
                if j < i {
                    assert(before[j] == after[j]);
                }
            }
        }
        i = i + 1;
    }
    assert(monitors@.take(i as int) =~= monitors@);
    let w: u32 = max_i64(right as i64 - left as i64, 0) as u32;
    let h: u32 = max_i64(bottom as i64 - top as i64, 0) as u32;
    let r: Result<Rect, Error> = Ok(Rect { x: left, y: top, w, h });
    assert(bounds(monitors@, r->Ok_0, right as int, bottom as int));
    r
}

/// Everything one recording session needs besides the output path.
#[derive(Clone, Copy, PartialEq, Eq, Debug, Structural)]
pub struct SessionParams {
    pub rect: Rect,
    pub fps: u32,
    pub cursor: bool,
    pub quality: Quality,
}

/// The region that a recording covers: the picked one, or the whole desktop.
pub open spec fn covered(mode: Mode, desktop: Rect) -> Rect {
    match mode {
        Mode::FullScreen => desktop,
        Mode::Area(rect) => rect,
    }
}

/// What a session needs to record what was asked for with the user's settings.
pub fn session_params(mode: Mode, desktop: Rect, settings: &Settings) -> (r: SessionParams)
    ensures
        r == (SessionParams {
            rect: covered(mode, desktop),
            fps: settings.fps,
            cursor: settings.capture_mouse,
            quality: settings.quality,
        }),
{
    SessionParams {
        rect: match mode {
            Mode::FullScreen => desktop,
            Mode::Area(rect) => rect,
        },
        fps: settings.fps,
        cursor: settings.capture_mouse,
        quality: settings.quality,
    }
}

/// Chooses the capture backend of a session: the region is rounded down to even
/// extents and must not be empty.
pub fn session_source(
    params: &SessionParams,
    supported: bool,
    screen: Screen,
    monitors: Result<Vec<MonitorInfo>, Error>,
) -> (r: Result<NativeSource, Error>)
    ensures
        params.rect.w < 2 || params.rect.h < 2 ==> r == Err::<NativeSource, Error>(
            Error::EmptyRegion,
        ),
        params.rect.w >= 2 && params.rect.h >= 2 ==> r == native_for(
            evened(params.rect),
            params.fps,
            params.cursor,
            supported,
            screen,
            monitors,
        ),
{
    let rect = even_rect(params.rect);
    if rect.w == 0 || rect.h == 0 {
        return Err(Error::EmptyRegion);
    }
    native_source(rect, params.fps, params.cursor, supported, screen, monitors)
}

/// A picked region on the screen is what the session records: one with even
/// extents exactly, another one without its last column or row.
pub proof fn picked_region_is_what_is_recorded(
    rect: Rect,
    desktop: Rect,
    fps: u32,
    cursor: bool,
    supported: bool,
    screen: Screen,
    monitors: Result<Vec<MonitorInfo>, Error>,
)
    requires
        2 <= rect.w,
        2 <= rect.h,
        screen.0 <= rect.x,
        screen.1 <= rect.y,
        rect.x + rect.w <= screen.0 + screen.2,
        rect.y + rect.h <= screen.1 + screen.3,
        0 < fps,
    ensures
        ({
            let picked = covered(Mode::Area(rect), desktop);
            let source = native_for(evened(picked), fps, cursor, supported, screen, monitors);
            &&& source is Ok
            &&& source->Ok_0 is Wgc ==> source->Ok_0->Wgc_0.rect == evened(rect)
                && source->Ok_0->Wgc_0.fps == fps
            &&& source->Ok_0 is Gdi ==> source->Ok_0->Gdi_0.rect == evened(rect)
                && source->Ok_0->Gdi_0.fps == fps
            &&& rect.w % 2 == 0 && rect.h % 2 == 0 ==> evened(rect) == rect
        }),
{
    let even = evened(rect);
    region_on_screen_is_kept(even, screen);
    region_on_screen_finds_a_backend(even, fps, cursor, supported, screen, monitors);
}

/// `n` frames use up the budget, if there is one.
pub open spec fn over(max_frames: Option<u32>, n: nat) -> bool {
    max_frames matches Some(max) && n >= max
}

/// How the calls that a [`Stoppable`] got, `own`, went on to the wrapped source,
/// which got `given`. A start always goes on. So does asking for a frame, with the
/// answer handed back as it is, until the budget is used up; from then on the
/// answer is that the stream has ended. The same answer may come at any time if
/// the stop flag was seen raised.
pub open spec fn relayed(
    own: Seq<SourceEvent>,
    given: Seq<SourceEvent>,
    max_frames: Option<u32>,
    raised: bool,
) -> bool
    decreases own.len(),
{
    if own.len() == 0 {
        given.len() == 0
    } else {
        let spent = over(max_frames, frames_in(own.drop_last()).len());
        ||| {
            &&& own.last() is Next ==> !spent
            &&& given.len() > 0
            &&& given.last() == own.last()
            &&& relayed(own.drop_last(), given.drop_last(), max_frames, raised)
        }
        ||| {
            &&& own.last() == SourceEvent::Next(None)
            &&& spent || raised
            &&& relayed(own.drop_last(), given, max_frames, raised)
        }
    }
}

/// A stoppable source gives the frames of the wrapped source, in order and
/// unaltered, and no more than the budget allows. Unless the flag was seen raised,
/// every call went on as long as the budget was not used up; without a budget,
/// every call.
pub proof fn frames_come_in_order_up_to_the_budget(
    own: Seq<SourceEvent>,
    given: Seq<SourceEvent>,
    max_frames: Option<u32>,
    raised: bool,
)
    requires
        relayed(own, given, max_frames, raised),
    ensures
        frames_in(own) == frames_in(given),
        max_frames matches Some(max) ==> frames_in(own).len() <= max,
        !raised && !over(max_frames, frames_in(own).len()) ==> own == given,
    decreases own.len(),
{
    if own.len() > 0 {
        let less = own.drop_last();
        let spent = over(max_frames, frames_in(less).len());
        if given.len() > 0 && given.last() == own.last() && relayed(
            less,
            given.drop_last(),
            max_frames,
            raised,
        ) && (own.last() is Next ==> !spent) {
            frames_come_in_order_up_to_the_budget(less, given.drop_last(), max_frames, raised);
            assert(own =~= less.push(own.last()));
            assert(given =~= given.drop_last().push(given.last()));
        } else {
            frames_come_in_order_up_to_the_budget(less, given, max_frames, raised);
        }
    } else {
        assert(own =~= given);
    }
}

proof fn lemma_raising_keeps(
    own: Seq<SourceEvent>,
    given: Seq<SourceEvent>,
    max_frames: Option<u32>,
    raised: bool,
)
    requires
        relayed(own, given, max_frames, raised),
    ensures
        relayed(own, given, max_frames, true),
    decreases own.len(),
{
    if own.len() > 0 {
        let less = own.drop_last();
        if given.len() > 0 && relayed(less, given.drop_last(), max_frames, raised) {
            lemma_raising_keeps(less, given.drop_last(), max_frames, raised);
        }
        if relayed(less, given, max_frames, raised) {
            lemma_raising_keeps(less, given, max_frames, raised);
        }
    }
}

/// The start of the stream goes on.
proof fn lemma_start_goes_on(
    own: Seq<SourceEvent>,
    given: Seq<SourceEvent>,
    max_frames: Option<u32>,
    raised: bool,
)
    requires
        relayed(own, given, max_frames, raised),
        own.len() > 0,
        own[0] is Start,
    ensures
        given.len() > 0,
        given[0] == own[0],
    decreases own.len(),
{
    let less = own.drop_last();
    if less.len() == 0 {
        assert(relayed(less, given.drop_last(), max_frames, raised));
    } else {
        assert(less[0] == own[0]);
        if given.len() > 0 && relayed(less, given.drop_last(), max_frames, raised) {
            lemma_start_goes_on(less, given.drop_last(), max_frames, raised);
        } else {
            lemma_start_goes_on(less, given, max_frames, raised);
        }
    }
}

/// What a [`Stoppable`] holds, but for the calls it got, which are its
/// [`FrameSource::log`].
#[verifier::ext_equal]
pub struct StopState {
    /// The flag itself; what it holds belongs to no single thread.
    pub flag: Arc<AtomicBool>,
    pub max_frames: Option<u32>,
    /// Frames handed out, no further than the counter goes.
    pub emitted: u32,
    /// The flag was seen raised.
    pub raised: bool,
    /// The calls that had reached the wrapped source before it was wrapped.
    pub earlier: Seq<SourceEvent>,
    /// All calls that reached the wrapped source.
    pub reached: Seq<SourceEvent>,
}

impl StopState {
    /// The frame budget, if there is one, is spent.
    pub open spec fn spent(self) -> bool {
        self.max_frames matches Some(max) && self.emitted >= max
    }

    /// The calls that went on to the wrapped source.
    pub open spec fn given(self) -> Seq<SourceEvent> {
        added(self.earlier, self.reached)
    }

    /// The state after the wrapped source answered `r`.
    pub open spec fn answered(self, r: Option<Frame>) -> StopState {
        StopState {
            emitted: if r is Some && self.emitted < u32::MAX {
                (self.emitted + 1) as u32
            } else {
                self.emitted
            },
            reached: self.reached.push(SourceEvent::Next(r)),
            ..self
        }
    }

    /// The state is what the calls in `log` made of it.
    pub open spec fn follows(self, log: Seq<SourceEvent>) -> bool {
        &&& self.earlier.is_prefix_of(self.reached)
        &&& relayed(log, self.given(), self.max_frames, self.raised)
        &&& self.emitted == smaller(frames_in(log).len() as int, u32::MAX as int)
    }
}

/// Source that ends the stream when the stop flag is raised or the frame budget,
/// if there is one, is spent.
pub struct Stoppable<S: FrameSource> {
    inner: S,
    stop: Arc<AtomicBool>,
    max_frames: Option<u32>,
    emitted: u32,
    raised: bool,
    earlier: Ghost<Seq<SourceEvent>>,
    log: Ghost<Seq<SourceEvent>>,
}

impl<S: FrameSource> View for Stoppable<S> {
    type V = StopState;

    closed spec fn view(&self) -> StopState {
        StopState {
            flag: self.stop,
            max_frames: self.max_frames,
            emitted: self.emitted,
            raised: self.raised,
            earlier: self.earlier@,
            reached: self.inner.log(),
        }
    }
}

impl<S: FrameSource> Stoppable<S> {
    /// The flag that ends the stream.
    pub open spec fn flag(&self) -> Arc<AtomicBool> {
        self@.flag
    }

    /// Wraps a source, which then ends when `stop` is raised or `max_frames` are
    /// handed out.
    pub fn new(inner: S, stop: Arc<AtomicBool>, max_frames: Option<u32>) -> (r: Stoppable<S>)
        ensures
            r@ == (StopState {
                flag: stop,
                max_frames,
                emitted: 0,
                raised: false,
                earlier: inner.log(),
                reached: inner.log(),
            }),
            r.flag() == stop,
            FrameSource::geometry(&r) == inner.geometry(),
            FrameSource::log(&r).len() == 0,
            FrameSource::inv(&r),
    {
        let ghost earlier = inner.log();
        let r = Stoppable {
            inner,
            stop,
            max_frames,
            emitted: 0,
            raised: false,
            earlier: Ghost(earlier),
            log: Ghost(Seq::empty()),
        };
        assert(r@.given() =~= Seq::empty());
        assert(earlier =~= earlier.subrange(0, earlier.len() as int));
        r
    }

    /// Says whether the stop flag was seen raised: then the stream has ended for
    /// that reason, else because the budget was spent or the source ended.
    pub fn stopped(&self) -> (r: bool)
        ensures
            r == self@.raised,
    {
        self.raised
    }

    /// The next frame, given whether the stop flag is raised.
    pub fn step(&mut self, stopped: bool) -> (r: Option<Frame>)
        ensures
            stopped ==> r is None && final(self)@ == (StopState { raised: true, ..old(self)@ }),
            !stopped && old(self)@.spent() ==> r is None && final(self)@ == old(self)@,
            !stopped && !old(self)@.spent() ==> final(self)@ == old(self)@.answered(r),
            FrameSource::log(final(self)) == FrameSource::log(old(self)).push(SourceEvent::Next(r)),
            FrameSource::fixed(final(self)) == FrameSource::fixed(old(self)),
            final(self).flag() == old(self).flag(),
            FrameSource::inv(old(self)) ==> FrameSource::inv(final(self)),
    {
        let mut r: Option<Frame> = None;
        let mut open: bool = !stopped;
        if stopped {
            self.raised = true;
        }
        if let Some(max) = self.max_frames {
            if self.emitted >= max {
                open = false;
            }
        }
        if open {
            r = self.inner.next_frame();
            if r.is_some() && self.emitted < u32::MAX {
                self.emitted = self.emitted + 1;
            }
        }
        self.log = Ghost(self.log@.push(SourceEvent::Next(r)));
        proof {
            assert(self.log@.drop_last() =~= old(self).log@);
            if old(self)@.follows(old(self).log@) {
                if open {
                    lemma_goes_on(old(self)@.earlier, old(self)@.reached, SourceEvent::Next(r));
                } else if stopped {
                    lemma_raising_keeps(
                        old(self).log@,
                        old(self)@.given(),
                        self.max_frames,
                        old(self).raised,
                    );
                }
            }
        }
        r
    }
}

proof fn lemma_goes_on(earlier: Seq<SourceEvent>, reached: Seq<SourceEvent>, call: SourceEvent)
    requires
        earlier.is_prefix_of(reached),
    ensures
        earlier.is_prefix_of(reached.push(call)),
        added(earlier, reached.push(call)) == added(earlier, reached).push(call),
        added(earlier, reached.push(call)).drop_last() == added(earlier, reached),
{
    assert(earlier =~= reached.push(call).subrange(0, earlier.len() as int));
    assert(added(earlier, reached.push(call)) =~= added(earlier, reached).push(call));
    assert(added(earlier, reached.push(call)).drop_last() =~= added(earlier, reached));
}

impl<S: FrameSource> FrameSource for Stoppable<S> {
    closed spec fn log(&self) -> Seq<SourceEvent> {
        self.log@
    }

    /// The state is what the calls made of it.
    open spec fn inv(&self) -> bool {
        self@.follows(self.log())
    }

    open spec fn fixed(&self) -> SourceFixed {
        SourceFixed {
            limit: match self@.max_frames {
                Some(max) => Some(max as nat),
                None => None,
            },
            earlier: self@.earlier,
            flag: Some(self@.flag),
        }
    }

    closed spec fn geometry(&self) -> FrameSpec {
        self.inner.geometry()
    }

    fn spec(&self) -> FrameSpec {
        self.inner.spec()
    }

    fn start(&mut self) -> (r: Result<(), Error>)
        ensures
            final(self)@ == (StopState {
                reached: old(self)@.reached.push(SourceEvent::Start(r)),
                ..old(self)@
            }),
            final(self).flag() == old(self).flag(),
    {
        let r = self.inner.start();
        self.log = Ghost(self.log@.push(SourceEvent::Start(r)));
        proof {
            assert(self.log@.drop_last() =~= old(self).log@);
            if old(self)@.follows(old(self).log@) {
                lemma_goes_on(old(self)@.earlier, old(self)@.reached, SourceEvent::Start(r));
            }
        }
        r
    }

    fn next_frame(&mut self) -> (r: Option<Frame>)
        ensures
            old(self)@.spent() ==> r is None && final(self)@.reached == old(self)@.reached,
            r is Some ==> final(self)@ == old(self)@.answered(r),
            final(self)@ == old(self)@ || final(self)@ == old(self)@.answered(r) || final(self)@
                == (StopState { raised: true, ..old(self)@ }),
            final(self)@ == old(self)@ ==> old(self)@.spent() || old(self)@.raised,
            final(self).flag() == old(self).flag(),
    {
        let stopped: bool = self.stop.load(std::sync::atomic::Ordering::Relaxed);
        self.step(stopped)
    }
}

/// Handle of a recording that runs on another thread.
pub struct NativeSessionHandle {
    stop: Arc<AtomicBool>,
}

impl NativeSessionHandle {
    /// The flag that ends the recording.
    pub closed spec fn flag(&self) -> Arc<AtomicBool> {
        self.stop
    }

    /// A handle for a session that is given the returned flag.
    pub fn new() -> (r: (NativeSessionHandle, Arc<AtomicBool>))
        ensures
            r.0.flag() == r.1,
    {
        let stop = Arc::new(AtomicBool::new(false));
        let shared = stop.clone();
        (NativeSessionHandle { stop }, shared)
    }

    /// Asks for the end of the recording by raising the flag: what was captured is
    /// still encoded, and the file completed. What the flag holds is left unsaid:
    /// it is shared between threads, and [`Stoppable::step`] says what follows
    /// from either value.
    pub fn stop(&self) {
        self.stop.store(true, std::sync::atomic::Ordering::Relaxed);
    }
}

/// What a session returns is what the pipeline returns for the calls it made:
/// `own` on the stoppable source, `muxer` on the muxer, and others on an encoder
/// for the preset. The state of that encoder is what those calls made of it, a
/// codec handle holds it, and once it was initialised it is set up for the stream.
pub open spec fn session_outcome(
    quality: Quality,
    cores: usize,
    spec: FrameSpec,
    own: Seq<SourceEvent>,
    muxer: Seq<MuxerEvent>,
    r: Result<(PipelineStats, String), Error>,
) -> bool {
    exists|encoder: Seq<EncoderEvent>, state: EncoderState| #[trigger]
        coded(encoder, state) && held_by_codec(state) && encoder_for_preset(quality, cores, state)
            && outcome(Calls { source: own, encoder, muxer }, spec, r) && (encoder.len() > 0
            && encoder[0] == EncoderEvent::Init(spec, Ok(())) ==> state.setup == Some(
            setup_for(spec, state.bitrate_bps, effort_of(quality), cores),
        ))
}

/// The encoder's state is one for the preset, on a machine that runs `cores`
/// threads at once.
pub open spec fn encoder_for_preset(quality: Quality, cores: usize, s: EncoderState) -> bool {
    &&& s.bitrate_bps == bitrate_of(quality) * 1_000_000
    &&& s.complexity == effort_of(quality)
    &&& s.cores == cores
}

/// A completed session wrote the codec's answers: sample number `i` is what the
/// codec returned for the conversion of frame number `i`.
pub proof fn written_samples_are_the_answers(
    calls: Calls,
    spec: FrameSpec,
    r: Result<(PipelineStats, String), Error>,
    state: EncoderState,
)
    requires
        outcome(calls, spec, r),
        coded(calls.encoder, state),
        r is Ok,
    ensures
        state.exchanges.len() == r->Ok_0.0.frames_source,
        forall|i: int|
            0 <= i < r->Ok_0.0.frames_source ==> exchanged(
                #[trigger] state.exchanges[i],
                calls.source[i + 1]->Next_0->0,
                seq![calls.muxer[i + 1]->Write_0],
                spec.fps,
            ),
{
    let (frames, outs, tail) = choose|
        frames: Seq<Frame>,
        outs: Seq<Vec<Sample>>,
        tail: Vec<Sample>,
    |
        completed(calls, spec, frames, outs, tail, r->Ok_0.1, r->Ok_0.0);
    finishing_gives_nothing_more(spec, frames, outs, Ok(tail), state);
    every_frame_gives_one_sample(spec, frames, outs, state);
    assert forall|i: int| 0 <= i < r->Ok_0.0.frames_source implies exchanged(
        #[trigger] state.exchanges[i],
        calls.source[i + 1]->Next_0->0,
        seq![calls.muxer[i + 1]->Write_0],
        spec.fps,
    ) by {
        assert(exchanged(state.exchanges[i], frames[i], outs[i]@, spec.fps));
        assert(calls.source[i + 1] == SourceEvent::Next(Some(frames[i])));
        assert(produced(outs)[i] == outs[i]@[0]);
        assert(calls.muxer[i + 1] == MuxerEvent::Write(outs[i]@[0], Ok(())));
        assert(seq![outs[i]@[0]] =~= outs[i]@);
    }
}

/// Where no call fails, a session over a source that does not end, whose flag is
/// not seen raised, records exactly as many frames as its budget.
pub proof fn undisturbed_session_reaches_its_budget(
    calls: Calls,
    spec: FrameSpec,
    r: Result<(PipelineStats, String), Error>,
    state: EncoderState,
    stop: StopState,
    max: u32,
)
    requires
        outcome(calls, spec, r),
        coded(calls.encoder, state),
        stop.follows(calls.source),
        stop.max_frames == Some(max),
        !stop.raised,
        stop.given().last() != SourceEvent::Next(None),
        forall|e: Error| !some_call_failed(calls, e),
        max < usize::MAX,
    ensures
        r is Ok,
        r->Ok_0.0.frames_source == max,
        r->Ok_0.0.frames_encoded == max,
        r->Ok_0.0.samples_written == max,
{
    frames_come_in_order_up_to_the_budget(
        calls.source,
        stop.given(),
        stop.max_frames,
        stop.raised,
    );
    calls_keep_their_word(calls.encoder, state);
    if let Err(e) = r {
        one_for_one_run_fails_only_with_a_call(calls, spec, e);
    }
    lemma_session(calls, spec, r, state, stop);
}

/// Runs one recording session to completion on the calling thread, over a source
/// that was just wrapped. Raising its flag ends the stream and still completes the
/// file; its budget caps it.
pub fn run_blocking<S: FrameSource, M: Muxer>(
    quality: Quality,
    cores: usize,
    source: &mut Stoppable<S>,
    muxer: &mut M,
) -> (r: Result<(PipelineStats, String), Error>)
    requires
        old(source).log().len() == 0,
        old(source).inv(),
    ensures
        final(source).inv(),
        final(source)@.max_frames == old(source)@.max_frames,
        final(source)@.earlier == old(source)@.earlier,
        final(source).flag() == old(source).flag(),
        old(muxer).log().is_prefix_of(final(muxer).log()),
        old(muxer).inv() ==> final(muxer).inv(),
        final(muxer).place() == old(muxer).place(),
        session_outcome(
            quality,
            cores,
            old(source).geometry(),
            final(source).log(),
            added(old(muxer).log(), final(muxer).log()),
            r,
        ),
        // The source is started first; if it cannot be, nothing else is done.
        final(source)@.given().len() > 0,
        final(source)@.given()[0] is Start,
        final(source)@.given()[0]->Start_0 matches Err(e) ==> r == Err::<
            (PipelineStats, String),
            Error,
        >(e) && final(muxer).log() == old(muxer).log(),
        // A stream that the encoder refuses is not opened.
        final(source)@.given()[0]->Start_0 is Ok ==> (stream_refusal(
            old(source).geometry(),
        ) matches Some(e) ==> r == Err::<(PipelineStats, String), Error>(e) && final(muxer).log()
            == old(muxer).log()),
        // The frames of the source, each as one sample, up to the budget.
        r matches Ok(done) ==> {
            &&& done.0.frames_source == frames_in(final(source)@.given()).len()
            &&& done.0.samples_written == done.0.frames_source
            &&& final(source)@.max_frames matches Some(max) ==> done.0.frames_source <= max
            &&& final(source)@.max_frames == Some(done.0.frames_source as u32)
                || final(source)@.raised || final(source)@.given().last() == SourceEvent::Next(None)
        },
{
    let mut encoder = SwH264Encoder::with_cores(quality, cores);
    let ghost m0 = muxer.log();
    let ghost spec = source.geometry();
    let r = run(source, &mut encoder, muxer);
    proof {
        let calls = Calls {
            source: source.log(),
            encoder: encoder.log(),
            muxer: added(m0, muxer.log()),
        };
        assert(added(Seq::<SourceEvent>::empty(), source.log()) =~= source.log());
        assert(added(Seq::<EncoderEvent>::empty(), encoder.log()) =~= encoder.log());
        assert(old(source).log() =~= Seq::empty());
        assert(outcome(calls, spec, r));
        lemma_session(calls, spec, r, encoder@, source@);
        assert(encoder_for_preset(quality, cores, encoder@));
        assert(muxer.log() =~= m0 + calls.muxer);
        assert(coded(calls.encoder, encoder@));
    }
    r
}

/// What the calls of a session come to.
proof fn lemma_session(
    calls: Calls,
    spec: FrameSpec,
    r: Result<(PipelineStats, String), Error>,
    state: EncoderState,
    stop: StopState,
)
    requires
        outcome(calls, spec, r),
        coded(calls.encoder, state),
        stop.follows(calls.source),
    ensures
        calls.encoder.len() > 0 && calls.encoder[0] == EncoderEvent::Init(spec, Ok(()))
            ==> state.setup == Some(
            setup_for(spec, state.bitrate_bps, state.complexity, state.cores),
        ),
        stop.given().len() > 0,
        stop.given()[0] is Start,
        stop.given()[0]->Start_0 matches Err(e) ==> r == Err::<(PipelineStats, String), Error>(e)
            && calls.muxer.len() == 0,
        stop.given()[0]->Start_0 is Ok ==> (stream_refusal(spec) matches Some(e) ==> r == Err::<
            (PipelineStats, String),
            Error,
        >(e) && calls.muxer.len() == 0),
        r matches Ok(done) ==> {
            &&& done.0.frames_source == frames_in(stop.given()).len()
            &&& done.0.samples_written == done.0.frames_source
            &&& stop.max_frames matches Some(max) ==> done.0.frames_source <= max
            &&& stop.max_frames == Some(done.0.frames_source as u32) || stop.raised
                || stop.given().last() == SourceEvent::Next(None)
        },
{
    calls_keep_their_word(calls.encoder, state);
    run_starts_in_order(calls, spec, r);
    lemma_start_goes_on(calls.source, stop.given(), stop.max_frames, stop.raised);
    frames_come_in_order_up_to_the_budget(
        calls.source,
        stop.given(),
        stop.max_frames,
        stop.raised,
    );
    if calls.encoder.len() > 0 && calls.encoder[0] == EncoderEvent::Init(spec, Ok(())) {
        setup_lasts(calls.encoder, state, spec);
    }
    if r is Ok {
        complete_run_writes_each_frame_once(calls, spec, r);
        let (frames, outs, tail) = choose|
            frames: Seq<Frame>,
            outs: Seq<Vec<Sample>>,
            tail: Vec<Sample>,
        |
            completed(calls, spec, frames, outs, tail, r->Ok_0.1, r->Ok_0.0);
        given_frames_are_in(frames);
        assert(calls.source.drop_last() =~= source_gave(frames));
        assert(calls.source.last() == SourceEvent::Next(None));
    }
}

/// Rounding a region to even extents keeps its corner, and takes away one column and
/// one row at most: those past the last whole block.
pub proof fn evened_region_keeps_its_corner(r: Rect)
    ensures
        evened(r).x == r.x,
        evened(r).y == r.y,
        evened(r).w == 2 * (r.w / 2),
        evened(r).h == 2 * (r.h / 2),
{
}

/// The whole desktop reaches over every monitor, and on each side as far as some
/// monitor and no further.
pub proof fn desktop_reaches_over_every_monitor(
    monitors: Seq<MonitorInfo>,
    q: Rect,
    right: int,
    bottom: int,
    i: int,
)
    requires
        bounds(monitors, q, right, bottom),
        0 <= i < monitors.len(),
        forall|k: int|
            0 <= k < monitors.len() ==> (#[trigger] monitors[k]).gdi_rect.left
                < monitors[k].gdi_rect.right && monitors[k].gdi_rect.top
                < monitors[k].gdi_rect.bottom,
    ensures
        ({
            let g = monitors[i].gdi_rect;
            &&& q.x <= g.left && g.right <= q.x + q.w
            &&& q.y <= g.top && g.bottom <= q.y + q.h
        }),
        exists|k: int| 0 <= k < monitors.len() && (#[trigger] monitors[k]).gdi_rect.left == q.x,
        exists|k: int| 0 <= k < monitors.len() && (#[trigger] monitors[k]).gdi_rect.top == q.y,
        exists|k: int|
            0 <= k < monitors.len() && (#[trigger] monitors[k]).gdi_rect.right == q.x + q.w,
        exists|k: int|
            0 <= k < monitors.len() && (#[trigger] monitors[k]).gdi_rect.bottom == q.y + q.h,
{
    assert(monitors[i].gdi_rect.left < monitors[i].gdi_rect.right);
}

/// A session covers the region that was picked, or the whole desktop if none was.
pub proof fn session_covers_what_was_asked_for(rect: Rect, desktop: Rect)
    ensures
        covered(Mode::Area(rect), desktop) == rect,
        covered(Mode::FullScreen, desktop) == desktop,
{
}

/// The encoder of a session runs at the preset's bitrate, in bits per second: 80, 50,
/// 30 or 15 million, the better the preset the more, and with the preset's effort.
pub proof fn session_encoder_is_for_the_preset(quality: Quality, cores: usize, s: EncoderState)
    requires
        encoder_for_preset(quality, cores, s),
    ensures
        quality is Ultra ==> s.bitrate_bps == 80_000_000 && s.complexity is High,
        quality is High ==> s.bitrate_bps == 50_000_000 && s.complexity is Medium,
        quality is Medium ==> s.bitrate_bps == 30_000_000 && s.complexity is Low,
        quality is Low ==> s.bitrate_bps == 15_000_000 && s.complexity is Low,
        s.cores == cores,
{
}

/// A stoppable source has used up its budget when as many frames were handed out, and
/// not before; without a budget, never. An answer of the wrapped source is handed on
/// as it is, and a frame in it is counted.
pub proof fn budget_is_counted_by_frames(s: StopState, r: Option<Frame>)
    ensures
        s.max_frames is None ==> !s.spent(),
        s.max_frames matches Some(max) ==> (s.spent() <==> max <= s.emitted),
        s.answered(r).reached == s.reached.push(SourceEvent::Next(r)),
        r is Some && s.emitted < u32::MAX ==> s.answered(r).emitted == s.emitted + 1,
        r is None ==> s.answered(r).emitted == s.emitted,
        s.answered(r).max_frames == s.max_frames,
        s.answered(r).raised == s.raised,
        s.answered(r).flag == s.flag,
        s.answered(r).earlier == s.earlier,
{
}

} // verus!
