//! The seam between capture, encoding and muxing.
//!
//! A [`FrameSource`] yields BGRA [`Frame`]s, a [`VideoEncoder`] turns frames
//! into compressed [`Sample`]s, a [`Muxer`] writes them to a container.

use crate::error::Error;
use std::sync::atomic::AtomicBool;
use std::sync::Arc;
use vstd::prelude::*;

verus! {

/// Geometry and pace of a frame stream.
#[derive(Clone, Copy, PartialEq, Eq, Debug, Structural)]
pub struct FrameSpec {
    pub width: u32,
    pub height: u32,
    pub fps: u32,
}

/// One captured picture: BGRA8, tightly packed.
#[derive(Clone, Debug)]
pub struct Frame {
    pub width: u32,
    pub height: u32,
    /// `width * height * 4` bytes.
    pub data: Vec<u8>,
    pub pts_ms: u64,
}

impl Frame {
    /// The data has exactly the size that the dimensions ask for.
    pub open spec fn wf(&self) -> bool {
        self.data@.len() == self.width * self.height * 4
    }

    /// A frame of zero bytes.
    pub fn new(width: u32, height: u32, pts_ms: u64) -> (f: Frame)
        requires
            width * height * 4 <= u32::MAX,
        ensures
            f.wf(),
            f.width == width,
            f.height == height,
            f.pts_ms == pts_ms,
            f.data@ == Seq::new((width * height * 4) as nat, |i: int| 0u8),
    {
        assert(width * height <= u32::MAX) by (nonlinear_arith)
            requires
                width * height * 4 <= u32::MAX,
        ;
        let f = Frame { width, height, data: vec![0u8; (width * height * 4) as usize], pts_ms };
        assert(f.data@ =~= Seq::new((width * height * 4) as nat, |i: int| 0u8));
        f
    }
}

/// One compressed access unit.
#[derive(Clone, Debug)]
pub struct Sample {
    pub data: Vec<u8>,
    pub keyframe: bool,
    pub pts_ms: u64,
    pub dur_ms: u64,
}

/// What a muxer is told of the video track.
#[derive(Clone, Copy, PartialEq, Eq, Debug, Structural)]
pub struct TrackInfo {
    pub width: u32,
    pub height: u32,
    pub fps: u32,
}

/// The track that a stream of frames becomes.
pub open spec fn track_of(s: FrameSpec) -> TrackInfo {
    TrackInfo { width: s.width, height: s.height, fps: s.fps }
}

impl vstd::std_specs::convert::FromSpecImpl<FrameSpec> for TrackInfo {
    open spec fn obeys_from_spec() -> bool {
        true
    }

    open spec fn from_spec(s: FrameSpec) -> TrackInfo {
        track_of(s)
    }
}

impl From<FrameSpec> for TrackInfo {
    fn from(s: FrameSpec) -> (t: TrackInfo) {
        TrackInfo { width: s.width, height: s.height, fps: s.fps }
    }
}

/// One call on a [`FrameSource`], with what came back.
pub enum SourceEvent {
    Start(Result<(), Error>),
    Next(Option<Frame>),
}

/// One call on a [`VideoEncoder`], with what went in and what came back.
pub enum EncoderEvent {
    Init(FrameSpec, Result<(), Error>),
    Feed(Frame, Result<Vec<Sample>, Error>),
    Finish(Result<Vec<Sample>, Error>),
}

/// One call on a [`Muxer`], with what went in and what came back.
pub enum MuxerEvent {
    Open(TrackInfo, Result<(), Error>),
    Write(Sample, Result<(), Error>),
    Finalize(Result<String, Error>),
}

/// What no call on a [`FrameSource`] changes.
#[verifier::ext_equal]
pub struct SourceFixed {
    /// The number of frames the source ends after, if there is one.
    pub limit: Option<nat>,
    /// The calls that a wrapped source had seen before it was wrapped.
    pub earlier: Seq<SourceEvent>,
    /// The flag that ends the stream when it is raised, if there is one.
    pub flag: Option<Arc<AtomicBool>>,
}

/// What no call on a [`VideoEncoder`] changes.
pub struct EncoderFixed {
    pub bitrate_bps: nat,
    /// How much effort the encoder makes, the larger the more.
    pub effort: nat,
    /// Threads the machine runs at once, as far as known.
    pub cores: nat,
}

/// Yields frames.
pub trait FrameSource {
    /// The calls made so far, oldest first.
    open spec fn log(&self) -> Seq<SourceEvent> {
        arbitrary()
    }

    /// What the source keeps true of itself across calls.
    open spec fn inv(&self) -> bool {
        arbitrary()
    }

    /// What was fixed when the source was made.
    open spec fn fixed(&self) -> SourceFixed {
        arbitrary()
    }

    /// The geometry and pace that [`FrameSource::spec`] reports.
    open spec fn geometry(&self) -> FrameSpec {
        arbitrary()
    }

    fn spec(&self) -> (r: FrameSpec)
        ensures
            r == self.geometry(),
    ;

    fn start(&mut self) -> (r: Result<(), Error>)
        ensures
            final(self).log() == old(self).log().push(SourceEvent::Start(r)),
            old(self).inv() ==> final(self).inv(),
            final(self).fixed() == old(self).fixed(),
    ;

    /// Next captured frame, or `None` at end of stream.
    fn next_frame(&mut self) -> (r: Option<Frame>)
        ensures
            final(self).log() == old(self).log().push(SourceEvent::Next(r)),
            old(self).inv() ==> final(self).inv(),
            final(self).fixed() == old(self).fixed(),
    ;
}

/// Turns frames into samples.
pub trait VideoEncoder {
    /// The calls made so far, oldest first.
    open spec fn log(&self) -> Seq<EncoderEvent> {
        arbitrary()
    }

    /// What the encoder keeps true of itself across calls.
    open spec fn inv(&self) -> bool {
        arbitrary()
    }

    /// What was fixed when the encoder was made.
    open spec fn fixed(&self) -> EncoderFixed {
        arbitrary()
    }

    fn codec_name(&self) -> &'static str;

    fn init(&mut self, spec: &FrameSpec) -> (r: Result<(), Error>)
        ensures
            final(self).log() == old(self).log().push(EncoderEvent::Init(*spec, r)),
            old(self).inv() ==> final(self).inv(),
            final(self).fixed() == old(self).fixed(),
    ;

    fn feed(&mut self, frame: &Frame) -> (r: Result<Vec<Sample>, Error>)
        ensures
            final(self).log() == old(self).log().push(EncoderEvent::Feed(*frame, r)),
            old(self).inv() ==> final(self).inv(),
            final(self).fixed() == old(self).fixed(),
    ;

    /// Drains encoder-internal buffers after the last frame.
    fn finish(&mut self) -> (r: Result<Vec<Sample>, Error>)
        ensures
            final(self).log() == old(self).log().push(EncoderEvent::Finish(r)),
            old(self).inv() ==> final(self).inv(),
            final(self).fixed() == old(self).fixed(),
    ;
}

/// Writes compressed samples to a container file.
pub trait Muxer {
    /// The calls made so far, oldest first.
    open spec fn log(&self) -> Seq<MuxerEvent> {
        arbitrary()
    }

    /// What the muxer keeps true of itself across calls.
    open spec fn inv(&self) -> bool {
        arbitrary()
    }

    /// Where the muxer's files go, fixed when it was made.
    open spec fn place(&self) -> Seq<char> {
        arbitrary()
    }

    fn open(&mut self, track: &TrackInfo) -> (r: Result<(), Error>)
        ensures
            final(self).log() == old(self).log().push(MuxerEvent::Open(*track, r)),
            old(self).inv() ==> final(self).inv(),
            final(self).place() == old(self).place(),
    ;

    fn write_sample(&mut self, sample: &Sample) -> (r: Result<(), Error>)
        ensures
            final(self).log() == old(self).log().push(MuxerEvent::Write(*sample, r)),
            old(self).inv() ==> final(self).inv(),
            final(self).place() == old(self).place(),
    ;

    /// Completes the file and tells where it is.
    fn finalize(&mut self) -> (r: Result<String, Error>)
        ensures
            final(self).log() == old(self).log().push(MuxerEvent::Finalize(r)),
            old(self).inv() ==> final(self).inv(),
            final(self).place() == old(self).place(),
    ;
}

/// What a run of the pipeline went through.
#[derive(Clone, Copy, PartialEq, Eq, Debug, Structural)]
pub struct PipelineStats {
    pub frames_source: usize,
    pub frames_encoded: usize,
    pub samples_written: usize,
    pub duration_ms: u64,
}

impl Default for PipelineStats {
    fn default() -> (r: PipelineStats)
        ensures
            r == (PipelineStats {
                frames_source: 0,
                frames_encoded: 0,
                samples_written: 0,
                duration_ms: 0,
            }),
    {
        PipelineStats { frames_source: 0, frames_encoded: 0, samples_written: 0, duration_ms: 0 }
    }
}

/// The source was started and then gave `frames`, in that order.
pub open spec fn source_gave(frames: Seq<Frame>) -> Seq<SourceEvent> {
    seq![SourceEvent::Start(Ok(()))] + Seq::new(
        frames.len(),
        |i: int| SourceEvent::Next(Some(frames[i])),
    )
}

/// The frames that the calls in `log` handed out, in order.
pub open spec fn frames_in(log: Seq<SourceEvent>) -> Seq<Frame>
    decreases log.len(),
{
    if log.len() == 0 {
        Seq::empty()
    } else if log.last() is Next && log.last()->Next_0 is Some {
        frames_in(log.drop_last()).push(log.last()->Next_0->0)
    } else {
        frames_in(log.drop_last())
    }
}

/// The encoder was initialised with `spec` and then fed the first `outs.len()`
/// of `frames`, in that order; for frame `i` it returned `outs[i]`.
pub open spec fn encoder_took(
    spec: FrameSpec,
    frames: Seq<Frame>,
    outs: Seq<Vec<Sample>>,
) -> Seq<EncoderEvent> {
    seq![EncoderEvent::Init(spec, Ok(()))] + Seq::new(
        outs.len(),
        |i: int| EncoderEvent::Feed(frames[i], Ok(outs[i])),
    )
}

/// The muxer took each of `samples`, in that order.
pub open spec fn written(samples: Seq<Sample>) -> Seq<MuxerEvent> {
    Seq::new(samples.len(), |i: int| MuxerEvent::Write(samples[i], Ok(())))
}

/// The muxer was opened for `track` and then took each of `samples`.
pub open spec fn muxer_took(track: TrackInfo, samples: Seq<Sample>) -> Seq<MuxerEvent> {
    seq![MuxerEvent::Open(track, Ok(()))] + written(samples)
}

/// All samples that the encoder returned, in order.
pub open spec fn produced(outs: Seq<Vec<Sample>>) -> Seq<Sample>
    decreases outs.len(),
{
    if outs.len() == 0 {
        Seq::empty()
    } else {
        produced(outs.drop_last()) + outs.last()@
    }
}

/// The calls that one run added to the logs of its three stages.
#[verifier::ext_equal]
pub struct Calls {
    pub source: Seq<SourceEvent>,
    pub encoder: Seq<EncoderEvent>,
    pub muxer: Seq<MuxerEvent>,
}

/// The timestamp of the last frame, zero without one.
pub open spec fn last_pts(frames: Seq<Frame>) -> u64 {
    if frames.len() == 0 {
        0
    } else {
        frames.last().pts_ms
    }
}

/// What the logs hold after a complete run: the source was read until it ended,
/// every frame was fed in order, then the encoder was finished, and every
/// sample was written in order before the muxer was finalised.
pub open spec fn completed(
    calls: Calls,
    spec: FrameSpec,
    frames: Seq<Frame>,
    outs: Seq<Vec<Sample>>,
    tail: Vec<Sample>,
    path: String,
    stats: PipelineStats,
) -> bool {
    &&& outs.len() == frames.len()
    &&& calls.source == source_gave(frames).push(SourceEvent::Next(None))
    &&& calls.encoder == encoder_took(spec, frames, outs).push(EncoderEvent::Finish(Ok(tail)))
    &&& calls.muxer == muxer_took(track_of(spec), produced(outs) + tail@).push(
        MuxerEvent::Finalize(Ok(path)),
    )
    &&& stats.frames_source == frames.len()
    &&& stats.frames_encoded == frames.len()
    &&& stats.samples_written == produced(outs).len() + tail@.len()
    &&& stats.duration_ms == last_pts(frames)
}

/// The run stopped with `e` before the first frame was asked for.
pub open spec fn failed_to_open(calls: Calls, spec: FrameSpec, e: Error) -> bool {
    ||| calls == (Calls {
        source: seq![SourceEvent::Start(Err(e))],
        encoder: Seq::empty(),
        muxer: Seq::empty(),
    })
    ||| calls == (Calls {
        source: seq![SourceEvent::Start(Ok(()))],
        encoder: seq![EncoderEvent::Init(spec, Err(e))],
        muxer: Seq::empty(),
    })
    ||| calls == (Calls {
        source: seq![SourceEvent::Start(Ok(()))],
        encoder: seq![EncoderEvent::Init(spec, Ok(()))],
        muxer: seq![MuxerEvent::Open(track_of(spec), Err(e))],
    })
}

/// Writing `samples` behind `done` stopped with `e` at sample `k`: either the
/// muxer refused that sample, or it would have been one sample too many to count.
pub open spec fn stopped_at(
    log: Seq<MuxerEvent>,
    done: Seq<MuxerEvent>,
    count: int,
    samples: Seq<Sample>,
    k: int,
    e: Error,
) -> bool {
    &&& 0 <= k < samples.len()
    &&& {
        ||| count + k < usize::MAX && log == (done + written(samples.take(k))).push(
            MuxerEvent::Write(samples[k], Err(e)),
        )
        ||| count + k == usize::MAX && e == Error::TooManySamples && log == done + written(
            samples.take(k),
        )
    }
}

/// The run stopped with `e` at the last of `frames`: there was no number left to
/// count it, the encoder refused it, or one of its samples could not be written.
pub open spec fn failed_at_frame(
    calls: Calls,
    spec: FrameSpec,
    frames: Seq<Frame>,
    outs: Seq<Vec<Sample>>,
    e: Error,
) -> bool {
    let done = muxer_took(track_of(spec), produced(outs));
    &&& frames.len() == outs.len() + 1
    &&& calls.source == source_gave(frames)
    &&& {
        ||| {
            &&& frames.len() == usize::MAX + 1
            &&& e == Error::TooManyFrames
            &&& calls.encoder == encoder_took(spec, frames, outs)
            &&& calls.muxer == done
        }
        ||| {
            &&& frames.len() <= usize::MAX
            &&& calls.encoder == encoder_took(spec, frames, outs).push(
                EncoderEvent::Feed(frames.last(), Err(e)),
            )
            &&& calls.muxer == done
        }
        ||| exists|out: Vec<Sample>, k: int| #[trigger]
            stopped_at(calls.muxer, done, produced(outs).len() as int, out@, k, e)
                && frames.len() <= usize::MAX && calls.encoder == encoder_took(
                spec,
                frames,
                outs.push(out),
            )
    }
}

/// The run stopped with `e` after the source had ended: the encoder could not
/// be finished, one of its last samples could not be written, or the muxer could
/// not be finalised.
pub open spec fn failed_to_flush(
    calls: Calls,
    spec: FrameSpec,
    frames: Seq<Frame>,
    outs: Seq<Vec<Sample>>,
    e: Error,
) -> bool {
    let done = muxer_took(track_of(spec), produced(outs));
    let fed = encoder_took(spec, frames, outs);
    &&& outs.len() == frames.len()
    &&& calls.source == source_gave(frames).push(SourceEvent::Next(None))
    &&& {
        ||| calls.encoder == fed.push(EncoderEvent::Finish(Err(e))) && calls.muxer == done
        ||| exists|tail: Vec<Sample>, k: int| #[trigger]
            stopped_at(calls.muxer, done, produced(outs).len() as int, tail@, k, e)
                && calls.encoder == fed.push(EncoderEvent::Finish(Ok(tail)))
        ||| exists|tail: Vec<Sample>|
            calls.encoder == #[trigger] fed.push(EncoderEvent::Finish(Ok(tail))) && calls.muxer
                == muxer_took(track_of(spec), produced(outs) + tail@).push(
                MuxerEvent::Finalize(Err(e)),
            )
    }
}

/// What a run that added `calls` to the logs returns.
pub open spec fn outcome(
    calls: Calls,
    spec: FrameSpec,
    r: Result<(PipelineStats, String), Error>,
) -> bool {
    match r {
        Ok(done) => exists|frames: Seq<Frame>, outs: Seq<Vec<Sample>>, tail: Vec<Sample>|
            completed(calls, spec, frames, outs, tail, done.1, done.0),
        Err(e) => {
            ||| failed_to_open(calls, spec, e)
            ||| exists|frames: Seq<Frame>, outs: Seq<Vec<Sample>>| #[trigger]
                failed_at_frame(calls, spec, frames, outs, e)
            ||| exists|frames: Seq<Frame>, outs: Seq<Vec<Sample>>| #[trigger]
                failed_to_flush(calls, spec, frames, outs, e)
        },
    }
}

/// A run that succeeds flushes in order. The source was started first and asked
/// until it ended; the encoder was initialised first and finished last; the
/// muxer was opened first and finalised last, with nothing but accepted samples
/// in between. The counts are the numbers of those calls.
pub proof fn complete_run_flushes_in_order(
    calls: Calls,
    spec: FrameSpec,
    r: Result<(PipelineStats, String), Error>,
)
    requires
        outcome(calls, spec, r),
        r is Ok,
    ensures
        calls.source.len() == r->Ok_0.0.frames_source + 2,
        calls.source.first() == SourceEvent::Start(Ok(())),
        calls.source.last() == SourceEvent::Next(None),
        calls.encoder.len() == r->Ok_0.0.frames_encoded + 2,
        calls.encoder.first() == EncoderEvent::Init(spec, Ok(())),
        calls.encoder.last() is Finish,
        forall|i: int|
            0 < i <= r->Ok_0.0.frames_source ==> #[trigger] calls.source[i] is Next
                && calls.source[i]->Next_0 is Some && calls.encoder[i] is Feed
                && calls.encoder[i]->Feed_0 == calls.source[i]->Next_0->0,
        calls.muxer.len() == r->Ok_0.0.samples_written + 2,
        calls.muxer.first() == MuxerEvent::Open(track_of(spec), Ok(())),
        calls.muxer.last() == MuxerEvent::Finalize(Ok(r->Ok_0.1)),
        forall|i: int|
            0 < i <= r->Ok_0.0.samples_written ==> #[trigger] calls.muxer[i] is Write
                && calls.muxer[i]->Write_1 is Ok,
{
}

/// A run that fails never leaves a file that the muxer reported complete.
pub proof fn failed_run_completes_no_file(
    calls: Calls,
    spec: FrameSpec,
    r: Result<(PipelineStats, String), Error>,
)
    requires
        outcome(calls, spec, r),
        r is Err,
    ensures
        forall|i: int|
            0 <= i < calls.muxer.len() && #[trigger] calls.muxer[i] is Finalize
                ==> calls.muxer[i]->Finalize_0 is Err,
{
}

/// A run starts the source first, then initialises the encoder, once, and only
/// then opens the muxer. What fails in this ends the run with its error, and nothing
/// after it is called.
pub proof fn run_starts_in_order(
    calls: Calls,
    spec: FrameSpec,
    r: Result<(PipelineStats, String), Error>,
)
    requires
        outcome(calls, spec, r),
    ensures
        calls.source.len() > 0,
        calls.source[0] is Start,
        calls.source[0]->Start_0 matches Err(e) ==> r == Err::<(PipelineStats, String), Error>(e)
            && calls.source.len() == 1 && calls.encoder.len() == 0 && calls.muxer.len() == 0,
        calls.source[0]->Start_0 is Ok ==> calls.encoder.len() > 0 && calls.encoder[0] is Init
            && calls.encoder[0]->Init_0 == spec,
        forall|i: int| 0 < i < calls.encoder.len() ==> !(#[trigger] calls.encoder[i] is Init),
        calls.encoder.len() > 0 ==> (calls.encoder[0]->Init_1 matches Err(e) ==> r == Err::<
            (PipelineStats, String),
            Error,
        >(e) && calls.muxer.len() == 0),
{
}

/// One of the calls failed with `e`.
pub open spec fn some_call_failed(calls: Calls, e: Error) -> bool {
    ||| calls.source.len() > 0 && calls.source[0] == SourceEvent::Start(Err(e))
    ||| calls.encoder.len() > 0 && match calls.encoder.last() {
        EncoderEvent::Init(_, r) => r == Err::<(), Error>(e),
        EncoderEvent::Feed(_, r) => r == Err::<Vec<Sample>, Error>(e),
        EncoderEvent::Finish(r) => r == Err::<Vec<Sample>, Error>(e),
    }
    ||| calls.muxer.len() > 0 && match calls.muxer.last() {
        MuxerEvent::Open(_, r) => r == Err::<(), Error>(e),
        MuxerEvent::Write(_, r) => r == Err::<(), Error>(e),
        MuxerEvent::Finalize(r) => r == Err::<String, Error>(e),
    }
}

/// A run fails only with the error of a call that failed, or where there are more
/// frames or samples than can be counted. Where no call fails, it completes.
pub proof fn run_fails_only_with_a_call(
    calls: Calls,
    spec: FrameSpec,
    r: Result<(PipelineStats, String), Error>,
)
    requires
        outcome(calls, spec, r),
    ensures
        r matches Err(e) ==> some_call_failed(calls, e) || e == Error::TooManyFrames || e
            == Error::TooManySamples,
{
    if let Err(e) = r {
        if exists|frames: Seq<Frame>, outs: Seq<Vec<Sample>>| #[trigger]
            failed_at_frame(calls, spec, frames, outs, e) {
            let (frames, outs) = choose|frames: Seq<Frame>, outs: Seq<Vec<Sample>>| #[trigger]
                failed_at_frame(calls, spec, frames, outs, e);
            assert(some_call_failed(calls, e) || e == Error::TooManyFrames || e
                == Error::TooManySamples);
        } else if exists|frames: Seq<Frame>, outs: Seq<Vec<Sample>>| #[trigger]
            failed_to_flush(calls, spec, frames, outs, e) {
            let (frames, outs) = choose|frames: Seq<Frame>, outs: Seq<Vec<Sample>>| #[trigger]
                failed_to_flush(calls, spec, frames, outs, e);
            assert(some_call_failed(calls, e) || e == Error::TooManySamples);
        }
    }
}

/// An encoder call that, if it succeeds, yields exactly one sample for a frame,
/// with the frame's timestamp, and nothing at the end.
pub open spec fn one_for_one(e: EncoderEvent) -> bool {
    match e {
        EncoderEvent::Init(_, _) => true,
        EncoderEvent::Feed(frame, r) => r matches Ok(out) ==> out@.len() == 1 && out@[0].pts_ms
            == frame.pts_ms,
        EncoderEvent::Finish(r) => r matches Ok(out) ==> out@.len() == 0,
    }
}

/// All calls in the log were one for one.
pub open spec fn all_one_for_one(log: Seq<EncoderEvent>) -> bool {
    forall|i: int| 0 <= i < log.len() ==> one_for_one(#[trigger] log[i])
}

/// With an encoder that yields one sample per frame, a complete run writes every
/// frame exactly once, in order and with its timestamp.
pub proof fn complete_run_writes_each_frame_once(
    calls: Calls,
    spec: FrameSpec,
    r: Result<(PipelineStats, String), Error>,
)
    requires
        outcome(calls, spec, r),
        all_one_for_one(calls.encoder),
        r is Ok,
    ensures
        r->Ok_0.0.samples_written == r->Ok_0.0.frames_source,
        calls.muxer.len() == calls.source.len(),
        forall|i: int|
            0 < i <= r->Ok_0.0.frames_source ==> #[trigger] calls.muxer[i] is Write
                && calls.source[i] is Next && calls.source[i]->Next_0 is Some
                && calls.muxer[i]->Write_0.pts_ms == calls.source[i]->Next_0->0.pts_ms,
{
    let (frames, outs, tail) = choose|
        frames: Seq<Frame>,
        outs: Seq<Vec<Sample>>,
        tail: Vec<Sample>,
    |
        completed(calls, spec, frames, outs, tail, r->Ok_0.1, r->Ok_0.0);
    let n = frames.len() as int;
    assert forall|i: int| 0 <= i < n implies (#[trigger] outs[i])@.len() == 1 && outs[i]@[0].pts_ms
        == frames[i].pts_ms by {
        assert(calls.encoder[i + 1] == EncoderEvent::Feed(frames[i], Ok(outs[i])));
    }
    assert(calls.encoder[n + 1] == EncoderEvent::Finish(Ok(tail)));
    lemma_one_each(outs);
    assert forall|i: int| 0 < i <= n implies #[trigger] calls.muxer[i] is Write && calls.source[i]
        is Next && calls.source[i]->Next_0 is Some && calls.muxer[i]->Write_0.pts_ms
        == calls.source[i]->Next_0->0.pts_ms by {
        assert(produced(outs)[i - 1] == outs[i - 1]@[0]);
        assert(calls.source[i] == SourceEvent::Next(Some(frames[i - 1])));
    }
}

proof fn lemma_one_each(outs: Seq<Vec<Sample>>)
    requires
        forall|i: int| 0 <= i < outs.len() ==> (#[trigger] outs[i])@.len() == 1,
    ensures
        produced(outs).len() == outs.len(),
        forall|i: int| 0 <= i < outs.len() ==> #[trigger] produced(outs)[i] == outs[i]@[0],
    decreases outs.len(),
{
    if outs.len() > 0 {
        let before = outs.drop_last();
        assert forall|i: int| 0 <= i < before.len() implies (#[trigger] before[i])@.len() == 1 by {
            assert(before[i] == outs[i]);
        }
        lemma_one_each(before);
        assert(outs.last() == outs[outs.len() - 1]);
        assert forall|i: int| 0 <= i < outs.len() implies #[trigger] produced(outs)[i]
            == outs[i]@[0] by {
            if i < before.len() {
                assert(before[i] == outs[i]);
                assert(produced(before)[i] == before[i]@[0]);
            }
        }
    }
}

/// A source that gave `frames` handed out just those.
pub proof fn given_frames_are_in(frames: Seq<Frame>)
    ensures
        frames_in(source_gave(frames)) == frames,
    decreases frames.len(),
{
    let log = source_gave(frames);
    if frames.len() == 0 {
        assert(log.drop_last() =~= Seq::empty());
        assert(frames_in(log.drop_last()) =~= Seq::empty());
        assert(frames_in(log) =~= frames);
    } else {
        given_frames_are_in(frames.drop_last());
        assert(log.drop_last() =~= source_gave(frames.drop_last()));
        assert(log.last() == SourceEvent::Next(Some(frames.last())));
        assert(frames.drop_last().push(frames.last()) =~= frames);
    }
}

/// With an encoder that yields one sample per frame, and fewer frames than can be
/// counted, a run fails only with the error of a call that failed.
pub proof fn one_for_one_run_fails_only_with_a_call(calls: Calls, spec: FrameSpec, e: Error)
    requires
        outcome(calls, spec, Err(e)),
        all_one_for_one(calls.encoder),
        frames_in(calls.source).len() < usize::MAX,
    ensures
        some_call_failed(calls, e),
{
    if exists|frames: Seq<Frame>, outs: Seq<Vec<Sample>>| #[trigger]
        failed_at_frame(calls, spec, frames, outs, e) {
        let (frames, outs) = choose|frames: Seq<Frame>, outs: Seq<Vec<Sample>>| #[trigger]
            failed_at_frame(calls, spec, frames, outs, e);
        given_frames_are_in(frames);
        lemma_fed_one_for_one(calls.encoder, spec, frames, outs);
        if !some_call_failed(calls, e) {
            let done = muxer_took(track_of(spec), produced(outs));
            let (out, k) = choose|out: Vec<Sample>, k: int| #[trigger]
                stopped_at(calls.muxer, done, produced(outs).len() as int, out@, k, e)
                    && frames.len() <= usize::MAX && calls.encoder == encoder_took(
                    spec,
                    frames,
                    outs.push(out),
                );
            assert(calls.encoder[(outs.len() + 1) as int] == EncoderEvent::Feed(
                frames[outs.len() as int],
                Ok(out),
            ));
        }
    } else if exists|frames: Seq<Frame>, outs: Seq<Vec<Sample>>| #[trigger]
        failed_to_flush(calls, spec, frames, outs, e) {
        let (frames, outs) = choose|frames: Seq<Frame>, outs: Seq<Vec<Sample>>| #[trigger]
            failed_to_flush(calls, spec, frames, outs, e);
        if !some_call_failed(calls, e) {
            let done = muxer_took(track_of(spec), produced(outs));
            let fed = encoder_took(spec, frames, outs);
            let (tail, k) = choose|tail: Vec<Sample>, k: int| #[trigger]
                stopped_at(calls.muxer, done, produced(outs).len() as int, tail@, k, e)
                    && calls.encoder == fed.push(EncoderEvent::Finish(Ok(tail)));
            assert(calls.encoder.last() == EncoderEvent::Finish(Ok(tail)));
            assert(one_for_one(calls.encoder[calls.encoder.len() - 1]));
        }
    }
}

proof fn lemma_fed_one_for_one(
    log: Seq<EncoderEvent>,
    spec: FrameSpec,
    frames: Seq<Frame>,
    outs: Seq<Vec<Sample>>,
)
    requires
        all_one_for_one(log),
        encoder_took(spec, frames, outs).is_prefix_of(log),
    ensures
        produced(outs).len() == outs.len(),
{
    assert forall|i: int| 0 <= i < outs.len() implies (#[trigger] outs[i])@.len() == 1 by {
        assert(encoder_took(spec, frames, outs)[i + 1] == EncoderEvent::Feed(
            frames[i],
            Ok(outs[i]),
        ));
        assert(log[i + 1] == encoder_took(spec, frames, outs)[i + 1]);
    }
    lemma_one_each(outs);
}

/// Writes `samples` in order and counts them.
fn write_all<M: Muxer>(muxer: &mut M, samples: &Vec<Sample>, stats: &mut PipelineStats) -> (r:
    Result<(), Error>)
    ensures
        old(muxer).inv() ==> final(muxer).inv(),
        final(muxer).place() == old(muxer).place(),
        match r {
            Ok(_) => {
                &&& final(muxer).log() == old(muxer).log() + written(samples@)
                &&& *final(stats) == (PipelineStats {
                    samples_written: final(stats).samples_written,
                    ..*old(stats)
                })
                &&& final(stats).samples_written == old(stats).samples_written + samples@.len()
            },
            Err(e) => exists|k: int| #[trigger]
                stopped_at(
                    final(muxer).log(),
                    old(muxer).log(),
                    old(stats).samples_written as int,
                    samples@,
                    k,
                    e,
                ),
        },
{
    let mut i: usize = 0;
    assert(muxer.log() =~= muxer.log() + written(samples@.take(0)));
    while i < samples.len()
        invariant
            i <= samples@.len(),
            old(muxer).inv() ==> muxer.inv(),
            muxer.place() == old(muxer).place(),
            muxer.log() == old(muxer).log() + written(samples@.take(i as int)),
            stats.samples_written == old(stats).samples_written + i,
            *stats == (PipelineStats { samples_written: stats.samples_written, ..*old(stats) }),
        decreases samples@.len() - i,
    {
        if stats.samples_written == usize::MAX {
            assert(stopped_at(
                muxer.log(),
                old(muxer).log(),
                old(stats).samples_written as int,
                samples@,
                i as int,
                Error::TooManySamples,
            ));
            return Err(Error::TooManySamples);
        }
        stats.samples_written = stats.samples_written + 1;
        match muxer.write_sample(&samples[i]) {
            Ok(unit) => {
                assert(unit == ());
            },
            Err(e) => {
                assert(stopped_at(
                    muxer.log(),
                    old(muxer).log(),
                    old(stats).samples_written as int,
                    samples@,
                    i as int,
                    e,
                ));
                return Err(e);
            },
        }
        assert(written(samples@.take(i + 1)) =~= written(samples@.take(i as int)).push(
            MuxerEvent::Write(samples@[i as int], Ok(())),
        ));
        assert(muxer.log() =~= old(muxer).log() + written(samples@.take(i + 1)));
        i = i + 1;
    }
    assert(samples@.take(i as int) =~= samples@);
    Ok(())
}

/// Events `after` has beyond `before`.
pub open spec fn added<A>(before: Seq<A>, after: Seq<A>) -> Seq<A> {
    after.skip(before.len() as int)
}

/// Pumps frames from the source through the encoder into the muxer, with a fixed
/// flush order: the source is drained, then the encoder finished, then the muxer
/// finalised. The first failure of a stage ends the run.
pub fn run<S: FrameSource, E: VideoEncoder, M: Muxer>(
    source: &mut S,
    encoder: &mut E,
    muxer: &mut M,
) -> (r: Result<(PipelineStats, String), Error>)
    ensures
        old(source).inv() ==> final(source).inv(),
        old(encoder).inv() ==> final(encoder).inv(),
        old(muxer).inv() ==> final(muxer).inv(),
        final(source).fixed() == old(source).fixed(),
        final(encoder).fixed() == old(encoder).fixed(),
        final(muxer).place() == old(muxer).place(),
        old(source).log().is_prefix_of(final(source).log()),
        old(encoder).log().is_prefix_of(final(encoder).log()),
        old(muxer).log().is_prefix_of(final(muxer).log()),
        outcome(
            (Calls {
                source: added(old(source).log(), final(source).log()),
                encoder: added(old(encoder).log(), final(encoder).log()),
                muxer: added(old(muxer).log(), final(muxer).log()),
            }),
            old(source).geometry(),
            r,
        ),
{
    let mut stats = PipelineStats::default();
    let ghost s0 = source.log();
    let ghost e0 = encoder.log();
    let ghost m0 = muxer.log();
    let spec = source.spec();
    match source.start() {
        Ok(unit) => {
            assert(unit == ());
        },
        Err(e) => {
            assert(added(s0, source.log()) =~= seq![SourceEvent::Start(Err(e))]);
            assert(added(e0, encoder.log()) =~= Seq::empty());
            assert(added(m0, muxer.log()) =~= Seq::empty());
            return Err(e);
        },
    }
    match encoder.init(&spec) {
        Ok(unit) => {
            assert(unit == ());
        },
        Err(e) => {
            assert(added(s0, source.log()) =~= seq![SourceEvent::Start(Ok(()))]);
            assert(added(e0, encoder.log()) =~= seq![EncoderEvent::Init(spec, Err(e))]);
            assert(added(m0, muxer.log()) =~= Seq::empty());
            return Err(e);
        },
    }
    match muxer.open(&TrackInfo::from(spec)) {
        Ok(unit) => {
            assert(unit == ());
        },
        Err(e) => {
            assert(added(s0, source.log()) =~= seq![SourceEvent::Start(Ok(()))]);
            assert(added(e0, encoder.log()) =~= seq![EncoderEvent::Init(spec, Ok(()))]);
            assert(added(m0, muxer.log()) =~= seq![MuxerEvent::Open(track_of(spec), Err(e))]);
            return Err(e);
        },
    }
    let ghost mut frames: Seq<Frame> = Seq::empty();
    let ghost mut outs: Seq<Vec<Sample>> = Seq::empty();
    assert(source.log() =~= s0 + source_gave(frames));
    assert(encoder.log() =~= e0 + encoder_took(spec, frames, outs));
    assert(muxer.log() =~= m0 + muxer_took(track_of(spec), produced(outs)));
    let mut more: bool = true;
    while more
        invariant
            spec == old(source).geometry(),
            old(source).inv() ==> source.inv(),
            old(encoder).inv() ==> encoder.inv(),
            old(muxer).inv() ==> muxer.inv(),
            source.fixed() == old(source).fixed(),
            encoder.fixed() == old(encoder).fixed(),
            muxer.place() == old(muxer).place(),
            s0 == old(source).log(),
            e0 == old(encoder).log(),
            m0 == old(muxer).log(),
            frames.len() == outs.len(),
            source.log() == s0 + (if more {
                source_gave(frames)
            } else {
                source_gave(frames).push(SourceEvent::Next(None))
            }),
            encoder.log() == e0 + encoder_took(spec, frames, outs),
            muxer.log() == m0 + muxer_took(track_of(spec), produced(outs)),
            stats.frames_source == frames.len(),
            stats.samples_written == produced(outs).len(),
            stats.duration_ms == last_pts(frames),
        decreases (if more { 1int } else { 0 }) + usize::MAX - stats.frames_source,
    {
        match source.next_frame() {
            None => {
                more = false;
                assert(source.log() =~= s0 + source_gave(frames).push(SourceEvent::Next(None)));
            },
            Some(frame) => {
                proof {
                    lemma_one_frame_more(spec, frames, outs, frame);
                    assert(source.log() =~= s0 + source_gave(frames.push(frame)));
                    assert(frames.push(frame).last() == frame);
                }
                if stats.frames_source == usize::MAX {
                    proof {
                        lemma_added(s0, source_gave(frames.push(frame)));
                        lemma_added(e0, encoder_took(spec, frames, outs));
                        lemma_added(m0, muxer_took(track_of(spec), produced(outs)));
                    }
                    assert(failed_at_frame(
                        Calls {
                            source: added(s0, source.log()),
                            encoder: added(e0, encoder.log()),
                            muxer: added(m0, muxer.log()),
                        },
                        spec,
                        frames.push(frame),
                        outs,
                        Error::TooManyFrames,
                    ));
                    return Err(Error::TooManyFrames);
                }
                stats.frames_source = stats.frames_source + 1;
                stats.duration_ms = frame.pts_ms;
                match encoder.feed(&frame) {
                    Err(e) => {
                        proof {
                            let fed = encoder_took(spec, frames, outs).push(
                                EncoderEvent::Feed(frame, Err(e)),
                            );
                            assert(encoder.log() =~= e0 + fed);
                            lemma_added(s0, source_gave(frames.push(frame)));
                            lemma_added(e0, fed);
                            lemma_added(m0, muxer_took(track_of(spec), produced(outs)));
                        }
                        assert(failed_at_frame(
                            Calls {
                                source: added(s0, source.log()),
                                encoder: added(e0, encoder.log()),
                                muxer: added(m0, muxer.log()),
                            },
                            spec,
                            frames.push(frame),
                            outs,
                            e,
                        ));
                        return Err(e);
                    },
                    Ok(out) => {
                        let ghost before = muxer.log();
                        let ghost count = stats.samples_written;
                        assert(frames.push(frame).len() <= usize::MAX);
                        assert(encoder.log() =~= e0 + encoder_took(
                            spec,
                            frames.push(frame),
                            outs.push(out),
                        ));
                        match write_all(muxer, &out, &mut stats) {
                            Ok(_) => {
                                proof {
                                    frames = frames.push(frame);
                                    lemma_written_more(
                                        m0,
                                        track_of(spec),
                                        produced(outs),
                                        out@,
                                    );
                                    assert(outs.push(out).drop_last() =~= outs);
                                    outs = outs.push(out);
                                }
                            },
                            Err(e) => {
                                proof {
                                    let k = choose|k: int| #[trigger]
                                        stopped_at(
                                            muxer.log(),
                                            before,
                                            count as int,
                                            out@,
                                            k,
                                            e,
                                        );
                                    lemma_stopped(
                                        muxer.log(),
                                        m0,
                                        muxer_took(track_of(spec), produced(outs)),
                                        count as int,
                                        out@,
                                        k,
                                        e,
                                    );
                                    lemma_added(s0, source_gave(frames.push(frame)));
                                    lemma_added(
                                        e0,
                                        encoder_took(spec, frames.push(frame), outs.push(out)),
                                    );
                                    lemma_failed_write(
                                        Calls {
                                            source: added(s0, source.log()),
                                            encoder: added(e0, encoder.log()),
                                            muxer: added(m0, muxer.log()),
                                        },
                                        spec,
                                        frames.push(frame),
                                        outs,
                                        out,
                                        k,
                                        e,
                                    );
                                }
                                return Err(e);
                            },
                        }
                    },
                }
            },
        }
    }
    proof {
        lemma_added(s0, source_gave(frames).push(SourceEvent::Next(None)));
    }
    match encoder.finish() {
        Err(e) => {
            proof {
                let fed = encoder_took(spec, frames, outs).push(EncoderEvent::Finish(Err(e)));
                assert(encoder.log() =~= e0 + fed);
                lemma_added(e0, fed);
                lemma_added(m0, muxer_took(track_of(spec), produced(outs)));
            }
            assert(failed_to_flush(
                Calls {
                    source: added(s0, source.log()),
                    encoder: added(e0, encoder.log()),
                    muxer: added(m0, muxer.log()),
                },
                spec,
                frames,
                outs,
                e,
            ));
            return Err(e);
        },
        Ok(tail) => {
            let ghost before = muxer.log();
            let ghost count = stats.samples_written;
            let ghost fed = encoder_took(spec, frames, outs).push(EncoderEvent::Finish(Ok(tail)));
            proof {
                assert(encoder.log() =~= e0 + fed);
                lemma_added(e0, fed);
            }
            match write_all(muxer, &tail, &mut stats) {
                Ok(_) => {},
                Err(e) => {
                    proof {
                        let k = choose|k: int| #[trigger]
                            stopped_at(muxer.log(), before, count as int, tail@, k, e);
                        lemma_stopped(
                            muxer.log(),
                            m0,
                            muxer_took(track_of(spec), produced(outs)),
                            count as int,
                            tail@,
                            k,
                            e,
                        );
                    }
                    assert(failed_to_flush(
                        Calls {
                            source: added(s0, source.log()),
                            encoder: added(e0, encoder.log()),
                            muxer: added(m0, muxer.log()),
                        },
                        spec,
                        frames,
                        outs,
                        e,
                    ));
                    return Err(e);
                },
            }
            stats.frames_encoded = stats.frames_source;
            proof {
                lemma_written_more(m0, track_of(spec), produced(outs), tail@);
            }
            let ghost all = muxer_took(track_of(spec), produced(outs) + tail@);
            assert(muxer.log() == m0 + all);
            match muxer.finalize() {
                Ok(path) => {
                    proof {
                        assert(muxer.log() =~= m0 + all.push(MuxerEvent::Finalize(Ok(path))));
                        lemma_added(m0, all.push(MuxerEvent::Finalize(Ok(path))));
                    }
                    let r: Result<(PipelineStats, String), Error> = Ok((stats, path));
                    proof {
                        lemma_completed(
                            Calls {
                                source: added(s0, source.log()),
                                encoder: added(e0, encoder.log()),
                                muxer: added(m0, muxer.log()),
                            },
                            spec,
                            frames,
                            outs,
                            tail,
                            r,
                        );
                    }
                    r
                },
                Err(e) => {
                    proof {
                        assert(muxer.log() =~= m0 + all.push(MuxerEvent::Finalize(Err(e))));
                        lemma_added(m0, all.push(MuxerEvent::Finalize(Err(e))));
                    }
                    assert(failed_to_flush(
                        Calls {
                            source: added(s0, source.log()),
                            encoder: added(e0, encoder.log()),
                            muxer: added(m0, muxer.log()),
                        },
                        spec,
                        frames,
                        outs,
                        e,
                    ));
                    Err(e)
                },
            }
        },
    }
}

proof fn lemma_added<A>(before: Seq<A>, more: Seq<A>)
    ensures
        added(before, before + more) == more,
        before.is_prefix_of(before + more),
{
    assert(added(before, before + more) =~= more);
    assert(before =~= (before + more).subrange(0, before.len() as int));
}

proof fn lemma_one_frame_more(
    spec: FrameSpec,
    frames: Seq<Frame>,
    outs: Seq<Vec<Sample>>,
    frame: Frame,
)
    requires
        frames.len() == outs.len(),
    ensures
        source_gave(frames.push(frame)) == source_gave(frames).push(SourceEvent::Next(Some(frame))),
        encoder_took(spec, frames.push(frame), outs) == encoder_took(spec, frames, outs),
        forall|out: Vec<Sample>|
            #![trigger outs.push(out)]
            encoder_took(spec, frames.push(frame), outs.push(out)) == encoder_took(
                spec,
                frames,
                outs,
            ).push(EncoderEvent::Feed(frame, Ok(out))),
{
    assert(source_gave(frames.push(frame)) =~= source_gave(frames).push(
        SourceEvent::Next(Some(frame)),
    ));
    assert(encoder_took(spec, frames.push(frame), outs) =~= encoder_took(spec, frames, outs));
    assert forall|out: Vec<Sample>|
        #![trigger outs.push(out)]
        encoder_took(spec, frames.push(frame), outs.push(out)) == encoder_took(
            spec,
            frames,
            outs,
        ).push(EncoderEvent::Feed(frame, Ok(out))) by {
        assert(encoder_took(spec, frames.push(frame), outs.push(out)) =~= encoder_took(
            spec,
            frames,
            outs,
        ).push(EncoderEvent::Feed(frame, Ok(out))));
    }
}

proof fn lemma_written_more(
    m0: Seq<MuxerEvent>,
    track: TrackInfo,
    done: Seq<Sample>,
    more: Seq<Sample>,
)
    ensures
        m0 + muxer_took(track, done) + written(more) == m0 + muxer_took(track, done + more),
{
    assert(m0 + muxer_took(track, done) + written(more) =~= m0 + muxer_took(track, done + more));
}

proof fn lemma_stopped(
    log: Seq<MuxerEvent>,
    m0: Seq<MuxerEvent>,
    done: Seq<MuxerEvent>,
    count: int,
    samples: Seq<Sample>,
    k: int,
    e: Error,
)
    requires
        stopped_at(log, m0 + done, count, samples, k, e),
    ensures
        m0.is_prefix_of(log),
        stopped_at(added(m0, log), done, count, samples, k, e),
{
    let w = written(samples.take(k));
    if count + k < usize::MAX {
        let x = MuxerEvent::Write(samples[k], Err(e));
        assert((m0 + done + w).push(x) =~= m0 + (done + w).push(x));
        lemma_added(m0, (done + w).push(x));
    } else {
        assert(m0 + done + w =~= m0 + (done + w));
        lemma_added(m0, done + w);
    }
}

proof fn lemma_failed_write(
    calls: Calls,
    spec: FrameSpec,
    frames: Seq<Frame>,
    outs: Seq<Vec<Sample>>,
    out: Vec<Sample>,
    k: int,
    e: Error,
)
    requires
        frames.len() == outs.len() + 1,
        frames.len() <= usize::MAX,
        calls.source == source_gave(frames),
        calls.encoder == encoder_took(spec, frames, outs.push(out)),
        stopped_at(
            calls.muxer,
            muxer_took(track_of(spec), produced(outs)),
            produced(outs).len() as int,
            out@,
            k,
            e,
        ),
    ensures
        failed_at_frame(calls, spec, frames, outs, e),
{
}

proof fn lemma_completed(
    calls: Calls,
    spec: FrameSpec,
    frames: Seq<Frame>,
    outs: Seq<Vec<Sample>>,
    tail: Vec<Sample>,
    r: Result<(PipelineStats, String), Error>,
)
    requires
        r is Ok,
        completed(calls, spec, frames, outs, tail, r->Ok_0.1, r->Ok_0.0),
    ensures
        outcome(calls, spec, r),
{
}

/// What an encoder call returned, if it succeeded.
pub open spec fn given_by(e: EncoderEvent) -> Seq<Sample> {
    match e {
        EncoderEvent::Feed(_, Ok(out)) => out@,
        EncoderEvent::Finish(Ok(out)) => out@,
        _ => Seq::empty(),
    }
}

/// In a complete run every call succeeded. The track that was opened has the size and
/// pace of the frames, and the run lasted until the timestamp of the last frame.
pub proof fn complete_run_had_no_failure(
    calls: Calls,
    spec: FrameSpec,
    r: Result<(PipelineStats, String), Error>,
)
    requires
        outcome(calls, spec, r),
        r is Ok,
    ensures
        calls.muxer[0] == MuxerEvent::Open(
            (TrackInfo { width: spec.width, height: spec.height, fps: spec.fps }),
            Ok(()),
        ),
        forall|i: int|
            0 < i <= r->Ok_0.0.frames_source ==> #[trigger] calls.encoder[i] is Feed
                && calls.encoder[i]->Feed_1 is Ok,
        calls.encoder.last()->Finish_0 is Ok,
        r->Ok_0.0.frames_encoded == r->Ok_0.0.frames_source,
        r->Ok_0.0.frames_source == 0 ==> r->Ok_0.0.duration_ms == 0,
        r->Ok_0.0.frames_source > 0 ==> r->Ok_0.0.duration_ms
            == calls.source[r->Ok_0.0.frames_source as int]->Next_0->0.pts_ms,
{
    let (frames, outs, tail) = choose|
        frames: Seq<Frame>,
        outs: Seq<Vec<Sample>>,
        tail: Vec<Sample>,
    |
        completed(calls, spec, frames, outs, tail, r->Ok_0.1, r->Ok_0.0);
    let n = frames.len() as int;
    assert forall|i: int| 0 < i <= n implies #[trigger] calls.encoder[i] is Feed
        && calls.encoder[i]->Feed_1 is Ok by {
        assert(calls.encoder[i] == EncoderEvent::Feed(frames[i - 1], Ok(outs[i - 1])));
    }
    assert(calls.encoder.last() == EncoderEvent::Finish(Ok(tail)));
    if n > 0 {
        assert(calls.source[n] == SourceEvent::Next(Some(frames[n - 1])));
    }
}

/// A complete run writes exactly the samples that the encoder returned, in the order
/// in which it returned them: `at` says where those of each encoder call begin among
/// the calls on the muxer.
pub open spec fn written_in_order(calls: Calls, at: Seq<int>) -> bool {
    &&& at.len() == calls.encoder.len()
    &&& at[0] == 1
    &&& forall|i: int|
        1 <= i < at.len() ==> #[trigger] at[i] == at[i - 1] + given_by(calls.encoder[i]).len()
    &&& at.last() == calls.muxer.len() - 1
    &&& forall|i: int, k: int|
        1 <= i < at.len() && 0 <= k < given_by(calls.encoder[i]).len() ==> calls.muxer[at[i - 1]
            + k] == MuxerEvent::Write(#[trigger] given_by(calls.encoder[i])[k], Ok(()))
}

/// A complete run writes exactly the samples that the encoder returned, in the order
/// in which it returned them.
pub proof fn complete_run_writes_what_the_encoder_gave(
    calls: Calls,
    spec: FrameSpec,
    r: Result<(PipelineStats, String), Error>,
)
    requires
        outcome(calls, spec, r),
        r is Ok,
    ensures
        exists|at: Seq<int>| written_in_order(calls, at),
{
    let (frames, outs, tail) = choose|
        frames: Seq<Frame>,
        outs: Seq<Vec<Sample>>,
        tail: Vec<Sample>,
    |
        completed(calls, spec, frames, outs, tail, r->Ok_0.1, r->Ok_0.0);
    let n = frames.len() as int;
    let all = produced(outs) + tail@;
    let at = Seq::new(
        (n + 2) as nat,
        |i: int|
            if i <= n {
                1 + produced(outs.take(i)).len() as int
            } else {
                1 + all.len() as int
            },
    );
    assert(outs.take(n) =~= outs);
    assert(outs.take(0) =~= Seq::empty());
    assert forall|i: int| 1 <= i <= n implies given_by(#[trigger] calls.encoder[i]) == outs[i
        - 1]@ by {
        assert(calls.encoder[i] == EncoderEvent::Feed(frames[i - 1], Ok(outs[i - 1])));
    }
    assert(calls.encoder[n + 1] == EncoderEvent::Finish(Ok(tail)));
    assert forall|i: int| 1 <= i < at.len() implies #[trigger] at[i] == at[i - 1] + given_by(
        calls.encoder[i],
    ).len() by {
        if i <= n {
            lemma_produced_part(outs, i - 1);
        }
    }
    assert forall|i: int, k: int|
        1 <= i < at.len() && 0 <= k < given_by(calls.encoder[i]).len() implies calls.muxer[at[i - 1]
        + k] == MuxerEvent::Write(#[trigger] given_by(calls.encoder[i])[k], Ok(())) by {
        if i <= n {
            lemma_produced_part(outs, i - 1);
            let from = produced(outs.take(i - 1)).len() as int;
            assert(produced(outs)[from + k] == outs[i - 1]@[k]);
            assert(all[from + k] == outs[i - 1]@[k]);
            assert(calls.muxer[1 + from + k] == MuxerEvent::Write(all[from + k], Ok(())));
        } else {
            let from = produced(outs).len() as int;
            assert(all[from + k] == tail@[k]);
            assert(calls.muxer[1 + from + k] == MuxerEvent::Write(all[from + k], Ok(())));
        }
    }
    assert(written_in_order(calls, at));
}

proof fn lemma_produced_part(outs: Seq<Vec<Sample>>, i: int)
    requires
        0 <= i < outs.len(),
    ensures
        ({
            let from = produced(outs.take(i)).len() as int;
            &&& produced(outs.take(i + 1)).len() == from + outs[i]@.len()
            &&& from + outs[i]@.len() <= produced(outs).len()
            &&& forall|k: int|
                0 <= k < outs[i]@.len() ==> #[trigger] produced(outs)[from + k] == outs[i]@[k]
        }),
    decreases outs.len(),
{
    let less = outs.drop_last();
    assert(outs.take(i + 1).drop_last() =~= outs.take(i));
    assert(outs.take(i + 1).last() == outs[i]);
    if i < less.len() {
        lemma_produced_part(less, i);
        assert(less.take(i) =~= outs.take(i));
        assert(less.take(i + 1) =~= outs.take(i + 1));
        assert(less[i] == outs[i]);
        let from = produced(outs.take(i)).len() as int;
        assert forall|k: int| 0 <= k < outs[i]@.len() implies #[trigger] produced(outs)[from + k]
            == outs[i]@[k] by {
            assert(produced(less)[from + k] == less[i]@[k]);
        }
    } else {
        assert(outs.take(i) =~= less);
    }
}

/// Any run, whether it completes or not, feeds the frames that the source gave, in
/// order and unaltered, and none twice.
pub proof fn frames_are_fed_as_they_come(
    calls: Calls,
    spec: FrameSpec,
    r: Result<(PipelineStats, String), Error>,
    i: int,
)
    requires
        outcome(calls, spec, r),
        0 < i < calls.encoder.len(),
        calls.encoder[i] is Feed,
    ensures
        i < calls.source.len(),
        calls.source[i] == SourceEvent::Next(Some(calls.encoder[i]->Feed_0)),
{
    if r is Ok {
        let (frames, outs, tail) = choose|
            frames: Seq<Frame>,
            outs: Seq<Vec<Sample>>,
            tail: Vec<Sample>,
        |
            completed(calls, spec, frames, outs, tail, r->Ok_0.1, r->Ok_0.0);
        lemma_fed(calls, spec, frames, outs, i);
    } else {
        let e = r->Err_0;
        if exists|frames: Seq<Frame>, outs: Seq<Vec<Sample>>| #[trigger]
            failed_at_frame(calls, spec, frames, outs, e) {
            let (frames, outs) = choose|frames: Seq<Frame>, outs: Seq<Vec<Sample>>| #[trigger]
                failed_at_frame(calls, spec, frames, outs, e);
            if i <= outs.len() {
                lemma_fed(calls, spec, frames, outs, i);
            } else {
                assert(calls.source[i] == SourceEvent::Next(Some(frames[i - 1])));
            }
        } else if exists|frames: Seq<Frame>, outs: Seq<Vec<Sample>>| #[trigger]
            failed_to_flush(calls, spec, frames, outs, e) {
            let (frames, outs) = choose|frames: Seq<Frame>, outs: Seq<Vec<Sample>>| #[trigger]
                failed_to_flush(calls, spec, frames, outs, e);
            lemma_fed(calls, spec, frames, outs, i);
        }
    }
}

proof fn lemma_fed(
    calls: Calls,
    spec: FrameSpec,
    frames: Seq<Frame>,
    outs: Seq<Vec<Sample>>,
    i: int,
)
    requires
        0 < i <= outs.len() <= frames.len(),
        source_gave(frames).is_prefix_of(calls.source),
        encoder_took(spec, frames, outs).is_prefix_of(calls.encoder),
    ensures
        i < calls.source.len(),
        calls.source[i] == SourceEvent::Next(Some(calls.encoder[i]->Feed_0)),
{
    assert(source_gave(frames)[i] == SourceEvent::Next(Some(frames[i - 1])));
    assert(calls.source[i] == source_gave(frames)[i]);
    assert(encoder_took(spec, frames, outs)[i] == EncoderEvent::Feed(frames[i - 1], Ok(outs[i - 1])));
    assert(calls.encoder[i] == encoder_took(spec, frames, outs)[i]);
}

/// An encoder call that failed.
pub open spec fn encoder_failed(e: EncoderEvent) -> bool {
    match e {
        EncoderEvent::Init(_, r) => r is Err,
        EncoderEvent::Feed(_, r) => r is Err,
        EncoderEvent::Finish(r) => r is Err,
    }
}

/// A muxer call that failed.
pub open spec fn muxer_failed(e: MuxerEvent) -> bool {
    match e {
        MuxerEvent::Open(_, r) => r is Err,
        MuxerEvent::Write(_, r) => r is Err,
        MuxerEvent::Finalize(r) => r is Err,
    }
}

/// The first failure ends a run: of the calls on a stage only the last can have
/// failed, and if one did, the run failed.
pub proof fn first_failure_ends_the_run(
    calls: Calls,
    spec: FrameSpec,
    r: Result<(PipelineStats, String), Error>,
)
    requires
        outcome(calls, spec, r),
    ensures
        forall|i: int|
            0 <= i < calls.encoder.len() - 1 ==> !encoder_failed(#[trigger] calls.encoder[i]),
        forall|i: int| 0 <= i < calls.muxer.len() - 1 ==> !muxer_failed(#[trigger] calls.muxer[i]),
        calls.encoder.len() > 0 && encoder_failed(calls.encoder.last()) ==> r is Err,
        calls.muxer.len() > 0 && muxer_failed(calls.muxer.last()) ==> r is Err,
{
    if let Err(e) = r {
        if exists|frames: Seq<Frame>, outs: Seq<Vec<Sample>>| #[trigger]
            failed_at_frame(calls, spec, frames, outs, e) {
            let (frames, outs) = choose|frames: Seq<Frame>, outs: Seq<Vec<Sample>>| #[trigger]
                failed_at_frame(calls, spec, frames, outs, e);
            assert(failed_at_frame(calls, spec, frames, outs, e));
        } else if exists|frames: Seq<Frame>, outs: Seq<Vec<Sample>>| #[trigger]
            failed_to_flush(calls, spec, frames, outs, e) {
            let (frames, outs) = choose|frames: Seq<Frame>, outs: Seq<Vec<Sample>>| #[trigger]
                failed_to_flush(calls, spec, frames, outs, e);
            assert(failed_to_flush(calls, spec, frames, outs, e));
        }
    }
}

} // verus!
