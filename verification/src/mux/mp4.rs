//! MP4 muxer built on the `muxide` crate.
//!
//! H.264 samples arrive as Annex B. The container is laid out for fast start:
//! the index precedes the media data. `muxide` keeps all samples until the end,
//! so the finished file is handed out as one block of bytes.

use crate::error::Error;
use crate::pipeline::{
    complete_run_flushes_in_order, completed, muxer_took, outcome, produced, track_of, Calls,
    Frame, FrameSpec, Muxer, MuxerEvent, PipelineStats, Sample, TrackInfo,
};
use muxide::api::Muxer as Container;
use muxide::api::{MuxerBuilder, MuxerError, MuxerStats, VideoCodec};
use vstd::arithmetic::div_mod::{lemma_fundamental_div_mod, lemma_mod_bound};
use vstd::prelude::*;

verus! {

/// A queued sample: timestamp in milliseconds, Annex B data, keyframe flag.
pub type Queued = (u64, Seq<u8>, bool);

/// The muxer of the `muxide` crate, an opaque handle.
#[verifier::external_type_specification]
#[verifier::external_body]
#[verifier::reject_recursive_types(Writer)]
pub struct ExContainer<Writer>(Container<Writer>);

/// The statistics that `muxide` returns with a finished file.
#[verifier::external_type_specification]
#[verifier::external_body]
pub struct ExMuxerStats(MuxerStats);

/// The samples that a container holds, in order.
pub uninterp spec fn queue_of(c: Container<Vec<u8>>) -> Seq<Queued>;

/// The width and height that a container was made with.
pub uninterp spec fn size_of_track(c: Container<Vec<u8>>) -> (u32, u32);

/// What a container has written out so far.
pub uninterp spec fn output_of(c: Container<Vec<u8>>) -> Seq<u8>;

/// The MP4 file for a video track of the given size that holds the given samples.
pub uninterp spec fn mp4_file(width: u32, height: u32, samples: Seq<Queued>) -> Seq<u8>;

/// `data` holds a NAL unit of type `kind` behind a start code.
pub open spec fn has_nal(data: Seq<u8>, kind: int) -> bool {
    exists|p: int|
        0 <= p && p + 3 < data.len() && data[p] == 0 && data[p + 1] == 0 && data[p + 2] == 1
            && #[trigger] data[p + 3] % 32 == kind
}

/// A sample that has its place behind `queue`: not empty; as the first one a
/// keyframe with parameter sets (NAL types 7 and 8); behind another one later.
pub open spec fn in_order(queue: Seq<Queued>, s: Queued) -> bool {
    &&& s.1.len() > 0
    &&& queue.len() == 0 ==> s.2 && has_nal(s.1, 7) && has_nal(s.1, 8)
    &&& queue.len() > 0 ==> queue.last().0 < s.0
}

/// A sample a container can take behind `queue`: in order, and later by no more
/// than the container's 90 kHz clock can count in 32 bits.
pub open spec fn acceptable(queue: Seq<Queued>, s: Queued) -> bool {
    &&& in_order(queue, s)
    &&& queue.len() > 0 ==> 90 * (s.0 - queue.last().0) <= u32::MAX
}

/// Largest timestamp up to which milliseconds keep their exact place on the
/// container's clock.
pub const EXACT_PTS_MS: u64 = 1_099_511_627_776;

/// Largest timestamp that the last of several samples of a file may have: beyond
/// it the end of the track may not fit the container's clock.
pub const LAST_PTS_MS: u64 = 204_000_000_000_000_000;

/// Largest sample that is handed to the container: converted to its format, a
/// sample of this size still fits 32-bit sizes.
pub const MAX_SAMPLE_BYTES: usize = 3_000_000_000;

/// Total size up to which the container's 32-bit sizes surely suffice.
pub const SURE_BYTES: usize = 1_073_741_824;

/// Sample count up to which the container's 32-bit sizes surely suffice.
pub const SURE_SAMPLES: usize = 16_777_216;

/// All bytes of the samples together.
pub open spec fn total_bytes(queue: Seq<Queued>) -> nat
    decreases queue.len(),
{
    if queue.len() == 0 {
        0
    } else {
        total_bytes(queue.drop_last()) + queue.last().1.len()
    }
}

/// Four bytes, most significant first.
pub open spec fn be32(data: Seq<u8>, at: int) -> int {
    data[at] * 0x1000000 + data[at + 1] * 0x10000 + data[at + 2] * 0x100 + data[at + 3]
}

/// The box at offset `at` is of the type spelled by the four given letters.
pub open spec fn box_at(data: Seq<u8>, at: int, a: u8, b: u8, c: u8, d: u8) -> bool {
    &&& 0 <= at
    &&& at + 8 <= data.len()
    &&& data[at + 4] == a
    &&& data[at + 5] == b
    &&& data[at + 6] == c
    &&& data[at + 7] == d
}

/// The file is three boxes, `ftyp`, `moov`, `mdat`, in that order: a player
/// finds the index before the media data.
pub open spec fn fast_start(file: Seq<u8>) -> bool {
    let moov = be32(file, 0);
    let mdat = moov + be32(file, moov);
    &&& box_at(file, 0, 0x66, 0x74, 0x79, 0x70)
    &&& 8 <= moov
    &&& box_at(file, moov, 0x6d, 0x6f, 0x6f, 0x76)
    &&& moov + 8 <= mdat
    &&& box_at(file, mdat, 0x6d, 0x64, 0x61, 0x74)
    &&& mdat + be32(file, mdat) == file.len()
}

/// Eight bytes, most significant first.
pub open spec fn be64(data: Seq<u8>, at: int) -> int {
    be32(data, at) * 0x1_0000_0000 + be32(data, at + 4)
}

/// The movie header, which is the first thing in the index, says that the movie
/// lasts `ms` milliseconds. Its first version holds 32-bit times, the second one
/// 64-bit times.
pub open spec fn lasts(file: Seq<u8>, ms: int) -> bool {
    let mvhd = be32(file, 0) + 8;
    &&& box_at(file, mvhd, 0x6d, 0x76, 0x68, 0x64)
    &&& if ms <= u32::MAX {
        file[mvhd + 8] == 0 && be32(file, mvhd + 20) == 1000 && be32(file, mvhd + 24) == ms
    } else {
        file[mvhd + 8] == 1 && be32(file, mvhd + 28) == 1000 && be64(file, mvhd + 32) == ms
    }
}

/// How long a track lasts, in milliseconds: from its first sample to its last,
/// which lasts as long as the one before it; a single sample lasts no time.
pub open spec fn track_ms(queue: Seq<Queued>) -> int {
    if queue.len() < 2 {
        0
    } else {
        queue.last().0 - queue[0].0 + (queue.last().0 - queue[queue.len() - 2].0)
    }
}

/// A track whose frames are evenly paced lasts as long as its frames at that pace,
/// up to the rounding to whole milliseconds.
pub proof fn evenly_paced_track_lasts_frames_over_fps(queue: Seq<Queued>, fps: u32)
    requires
        0 < fps,
        2 <= queue.len(),
        forall|i: int| 0 <= i < queue.len() ==> (#[trigger] queue[i]).0 == (i * 1000) / (fps as int),
    ensures
        1000 * queue.len() - 2 * fps < fps * track_ms(queue) < 1000 * queue.len() + fps,
{
    let n = queue.len() as int;
    let f = fps as int;
    let last = ((n - 1) * 1000) / f;
    let prev = ((n - 2) * 1000) / f;
    assert(queue[0].0 == 0) by (nonlinear_arith)
        requires
            queue[0].0 == (0int * 1000) / f,
            0 < f,
    ;
    assert(queue.last() == queue[n - 1]);
    lemma_fundamental_div_mod((n - 1) * 1000, f);
    lemma_fundamental_div_mod((n - 2) * 1000, f);
    lemma_mod_bound((n - 1) * 1000, f);
    lemma_mod_bound((n - 2) * 1000, f);
    assert(fps * track_ms(queue) == 2 * (f * last) - f * prev) by (nonlinear_arith)
        requires
            track_ms(queue) == last + (last - prev),
            f == fps,
    ;
}

/// Dimensions that a container can describe.
pub open spec fn track_fits(width: u32, height: u32) -> bool {
    1 <= width <= u16::MAX && 1 <= height <= u16::MAX
}

/// `muxide::api::MuxerBuilder::build`, for one H.264 track written to memory. It
/// refuses a width or height of zero or beyond 16 bits; the frame rate is not
/// part of the file.
#[verifier::external_body]
fn open_container(width: u32, height: u32, fps: u32) -> (r: Result<Container<Vec<u8>>, MuxerError>)
    ensures
        r is Ok == track_fits(width, height),
        r matches Ok(c) ==> queue_of(c).len() == 0 && output_of(c).len() == 0 && size_of_track(c)
            == (width, height),
{
    MuxerBuilder::new(Vec::new()).video(VideoCodec::H264, width, height, fps.into()).build()
}

/// `muxide::api::Muxer::write_video`: queues a sample, or refuses it and leaves the
/// queue as it was. Nothing is written out yet. A sample that is taken is in order;
/// an acceptable one is taken if its timestamp converts to the container's clock
/// without rounding.
#[verifier::external_body]
fn queue_video(c: &mut Container<Vec<u8>>, pts_ms: u64, data: &[u8], keyframe: bool) -> (r: Result<
    (),
    MuxerError,
>)
    requires
        data@.len() <= MAX_SAMPLE_BYTES,
        output_of(*old(c)).len() == 0,
    ensures
        size_of_track(*final(c)) == size_of_track(*old(c)),
        output_of(*final(c)).len() == 0,
        r is Ok ==> queue_of(*final(c)) == queue_of(*old(c)).push((pts_ms, data@, keyframe)),
        r is Err ==> queue_of(*final(c)) == queue_of(*old(c)),
        r is Ok ==> in_order(queue_of(*old(c)), (pts_ms, data@, keyframe)),
        r is Ok && pts_ms <= EXACT_PTS_MS ==> acceptable(
            queue_of(*old(c)),
            (pts_ms, data@, keyframe),
        ),
        acceptable(queue_of(*old(c)), (pts_ms, data@, keyframe)) && pts_ms <= EXACT_PTS_MS ==> r
            is Ok,
{
    let seconds = std::time::Duration::from_millis(pts_ms).as_secs_f64();
    c.write_video(seconds, data, keyframe)
}

/// The end of the track may not fit the container's clock.
pub open spec fn ends_too_late(queue: Seq<Queued>) -> bool {
    queue.len() > 1 && queue.last().0 > LAST_PTS_MS
}

/// All timestamps keep their exact place on the container's clock.
pub open spec fn exactly_timed(queue: Seq<Queued>) -> bool {
    queue.len() > 0 ==> queue.last().0 <= EXACT_PTS_MS
}

/// A finished file.
pub struct FinishedFile {
    /// How many samples it holds.
    pub frames: u64,
    /// How many bytes were written.
    pub bytes_written: u64,
    /// What the container says of it, its duration among it.
    pub stats: MuxerStats,
    /// The file itself.
    pub bytes: Vec<u8>,
}

/// `muxide::api::Muxer::finish_in_place_with_stats` and `into_writer`: lays the
/// queued samples out as a file, and counts the samples and the bytes. It fails
/// only where the file outgrows 32-bit sizes. The file's header says how long the
/// track lasts, exactly where the timestamps convert to the container's clock
/// without rounding. The duration among the statistics is left unsaid: it is a
/// floating-point number, for display.
#[verifier::external_body]
fn finish_container(c: Container<Vec<u8>>) -> (r: Result<FinishedFile, MuxerError>)
    requires
        output_of(c).len() == 0,
        queue_of(c).len() <= u32::MAX,
        !ends_too_late(queue_of(c)),
    ensures
        r matches Ok(done) ==> done.bytes@ == mp4_file(
            size_of_track(c).0,
            size_of_track(c).1,
            queue_of(c),
        ) && fast_start(done.bytes@),
        r matches Ok(done) ==> done.frames == queue_of(c).len() && done.bytes_written
            == done.bytes@.len(),
        r matches Ok(done) ==> (exactly_timed(queue_of(c)) ==> lasts(
            done.bytes@,
            track_ms(queue_of(c)),
        )),
        total_bytes(queue_of(c)) <= SURE_BYTES && queue_of(c).len() <= SURE_SAMPLES ==> r is Ok,
{
    let mut c = c;
    let stats = c.finish_in_place_with_stats()?;
    let (frames, bytes_written) = (stats.video_frames, stats.bytes_written);
    Ok(FinishedFile { frames, bytes_written, stats, bytes: c.into_writer() })
}

/// An opened track: its size and the samples queued for it.
#[verifier::ext_equal]
pub struct Track {
    pub width: u32,
    pub height: u32,
    pub queue: Seq<Queued>,
}

/// What an [`Mp4Muxer`] holds, but for the calls it got, which are its
/// [`Muxer::log`], the length and the end of the queue, which it keeps beside the
/// container, and the container's own statistics of the file.
#[verifier::ext_equal]
pub struct MuxState {
    pub path: Seq<char>,
    pub track: Option<Track>,
    pub next_pts_ms: u64,
    /// The file of the last completed track, and how many samples it holds.
    pub file: Option<(Seq<u8>, nat)>,
}

impl MuxState {
    /// The queued timestamps grow strictly and stay below the next one.
    pub open spec fn wf(self) -> bool {
        match self.track {
            None => true,
            Some(t) => {
                &&& forall|i: int, j: int|
                    0 <= i < j < t.queue.len() ==> (#[trigger] t.queue[i]).0 < (
                    #[trigger] t.queue[j]).0
                &&& forall|i: int|
                    0 <= i < t.queue.len() ==> (#[trigger] t.queue[i]).0 < self.next_pts_ms
            },
        }
    }
}

/// The timestamp a sample gets: its own, unless that was used up already.
pub open spec fn spaced_pts(state: MuxState, s: Sample) -> u64 {
    if s.pts_ms < state.next_pts_ms {
        state.next_pts_ms
    } else {
        s.pts_ms
    }
}

/// What opening for `track` does: it starts an empty queue, or fails and changes
/// nothing.
pub open spec fn open_outcome(
    before: MuxState,
    track: TrackInfo,
    r: Result<(), Error>,
    after: MuxState,
) -> bool {
    &&& r is Ok == track_fits(track.width, track.height)
    &&& r is Ok ==> after == (MuxState {
        track: Some(Track { width: track.width, height: track.height, queue: Seq::empty() }),
        next_pts_ms: 0,
        ..before
    })
    &&& r is Err ==> r->Err_0 is Container && after == before
}

/// The state after a sample's timestamp `pts` was used up, and `queue` is queued.
pub open spec fn after_write(before: MuxState, pts: u64, queue: Seq<Queued>) -> MuxState {
    MuxState {
        next_pts_ms: (pts + 1) as u64,
        track: Some(Track { queue, ..before.track->0 }),
        ..before
    }
}

/// What writing `s` does. Without a track, or with no timestamp left, it fails and
/// changes nothing. Else the sample's timestamp is used up, and the sample is queued
/// under it, or refused: because it or the queue is too large, or by the container.
pub open spec fn write_outcome(
    before: MuxState,
    s: Sample,
    r: Result<(), Error>,
    after: MuxState,
) -> bool {
    let pts = spaced_pts(before, s);
    match before.track {
        None => r == Err::<(), Error>(Error::MuxerNotOpened) && after == before,
        Some(t) => if pts == u64::MAX {
            r == Err::<(), Error>(Error::TimestampTooLarge { pts_ms: pts }) && after == before
        } else {
            let q = (pts, s.data@, s.keyframe);
            &&& after == after_write(
                before,
                pts,
                if r is Ok {
                    t.queue.push(q)
                } else {
                    t.queue
                },
            )
            &&& if s.data@.len() > MAX_SAMPLE_BYTES {
                r == Err::<(), Error>(Error::SampleTooLarge { len: s.data@.len() as u64 })
            } else if t.queue.len() >= u32::MAX {
                r == Err::<(), Error>(Error::TooManySamples)
            } else {
                &&& r is Ok ==> in_order(t.queue, q)
                &&& r is Ok && pts <= EXACT_PTS_MS ==> acceptable(t.queue, q)
                &&& r is Err ==> r->Err_0 is Container
                &&& acceptable(t.queue, q) && pts <= EXACT_PTS_MS ==> r is Ok
            }
        },
    }
}

/// What completing the file does: the track is closed either way. The file holds
/// exactly the queued samples and lasts as long as they do. Completing fails where
/// the track ends too late, and else only if the file outgrows 32-bit sizes.
pub open spec fn finalize_outcome(
    before: MuxState,
    r: Result<String, Error>,
    after: MuxState,
) -> bool {
    match before.track {
        None => r == Err::<String, Error>(Error::MuxerNotOpened) && after == before,
        Some(t) => if ends_too_late(t.queue) {
            r == Err::<String, Error>(Error::TimestampTooLarge { pts_ms: t.queue.last().0 })
                && after == (MuxState { track: None, ..before })
        } else {
            let file = mp4_file(t.width, t.height, t.queue);
            &&& r matches Ok(path) ==> {
                &&& path@ == before.path
                &&& fast_start(file)
                &&& exactly_timed(t.queue) ==> lasts(file, track_ms(t.queue))
                &&& after == (MuxState {
                    track: None,
                    file: Some((file, t.queue.len())),
                    ..before
                })
            }
            &&& r matches Err(e) ==> e is Container && after == (MuxState { track: None, ..before })
            &&& total_bytes(t.queue) <= SURE_BYTES && t.queue.len() <= SURE_SAMPLES ==> r is Ok
        },
    }
}

/// The samples as a track queues them: each under its own timestamp, unless that
/// was used up already, then under the next one.
pub open spec fn queued(samples: Seq<Sample>) -> Seq<Queued>
    decreases samples.len(),
{
    if samples.len() == 0 {
        Seq::empty()
    } else {
        let before = queued(samples.drop_last());
        let s = samples.last();
        let pts = if before.len() > 0 && s.pts_ms <= before.last().0 {
            (before.last().0 + 1) as u64
        } else {
            s.pts_ms
        };
        before.push((pts, s.data@, s.keyframe))
    }
}

/// The track that is open after the calls in `log`, and the samples it took, as
/// far as every call since it was opened succeeded.
pub open spec fn open_track(log: Seq<MuxerEvent>) -> Option<(TrackInfo, Seq<Sample>)>
    decreases log.len(),
{
    if log.len() == 0 {
        None
    } else {
        match log.last() {
            MuxerEvent::Open(track, Ok(_)) => Some((track, Seq::empty())),
            MuxerEvent::Open(_, Err(_)) => open_track(log.drop_last()),
            MuxerEvent::Write(s, Ok(_)) => match open_track(log.drop_last()) {
                Some((track, samples)) => Some((track, samples.push(s))),
                None => None,
            },
            MuxerEvent::Write(_, Err(_)) => None,
            MuxerEvent::Finalize(_) => None,
        }
    }
}

/// The file of the completed track holds the samples, with the index first, and
/// lasts as long as they do.
pub open spec fn completed_file(state: MuxState, track: TrackInfo, samples: Seq<Sample>) -> bool {
    let file = mp4_file(track.width, track.height, queued(samples));
    &&& state.file == Some((file, samples.len()))
    &&& fast_start(file)
    &&& exactly_timed(queued(samples)) ==> lasts(file, track_ms(queued(samples)))
}

/// A muxer's state is what the calls made of it: an open track holds what it
/// took, and a track that was just completed became the file.
pub open spec fn follows(state: MuxState, log: Seq<MuxerEvent>) -> bool {
    &&& open_track(log) matches Some((track, samples)) ==> {
        &&& state.track == Some(
            Track { width: track.width, height: track.height, queue: queued(samples) },
        )
        &&& samples.len() == 0 ==> state.next_pts_ms == 0
        &&& samples.len() > 0 ==> state.next_pts_ms == queued(samples).last().0 + 1
    }
    &&& log.len() > 0 && log.last() is Finalize && log.last()->Finalize_0 is Ok ==> {
        &&& log.last()->Finalize_0->Ok_0@ == state.path
        &&& open_track(log.drop_last()) matches Some((track, samples)) ==> completed_file(
            state,
            track,
            samples,
        )
    }
}

proof fn lemma_queued_len(samples: Seq<Sample>)
    ensures
        queued(samples).len() == samples.len(),
    decreases samples.len(),
{
    if samples.len() > 0 {
        lemma_queued_len(samples.drop_last());
    }
}

/// Queued timestamps grow strictly, and none is earlier than its sample's own.
/// Where the samples' own grow strictly, they are kept.
pub proof fn queued_timestamps_grow(samples: Seq<Sample>)
    requires
        forall|i: int|
            0 <= i < samples.len() ==> (#[trigger] samples[i]).pts_ms < 0x7fff_ffff_ffff_ffff,
        samples.len() <= u32::MAX,
    ensures
        queued(samples).len() == samples.len(),
        forall|i: int|
            0 <= i < samples.len() ==> samples[i].pts_ms <= (#[trigger] queued(samples)[i]).0
                < 0x7fff_ffff_ffff_ffff + i,
        forall|i: int, j: int|
            0 <= i < j < samples.len() ==> (#[trigger] queued(samples)[i]).0 < (
            #[trigger] queued(samples)[j]).0,
        (forall|i: int, j: int|
            0 <= i < j < samples.len() ==> (#[trigger] samples[i]).pts_ms < (
            #[trigger] samples[j]).pts_ms) ==> forall|i: int|
            0 <= i < samples.len() ==> (#[trigger] queued(samples)[i]).0 == samples[i].pts_ms,
    decreases samples.len(),
{
    if samples.len() > 0 {
        let before = samples.drop_last();
        assert forall|i: int| 0 <= i < before.len() implies (#[trigger] before[i]).pts_ms
            < 0x7fff_ffff_ffff_ffff by {
            assert(before[i] == samples[i]);
        }
        queued_timestamps_grow(before);
        let n = before.len() as int;
        assert(samples.last() == samples[n]);
        assert forall|i: int| 0 <= i < n implies #[trigger] queued(samples)[i] == queued(before)[i]
            && samples[i] == before[i] by {}
        if n > 0 {
            assert(queued(before).last() == queued(before)[n - 1]);
            assert(samples[n - 1] == before[n - 1]);
        }
    }
}

/// The call that was added last does not change what came before it.
proof fn lemma_follows_write(
    before: MuxState,
    log: Seq<MuxerEvent>,
    s: Sample,
    r: Result<(), Error>,
    after: MuxState,
)
    requires
        follows(before, log),
        write_outcome(before, s, r, after),
    ensures
        follows(after, log.push(MuxerEvent::Write(s, r))),
{
    let more = log.push(MuxerEvent::Write(s, r));
    assert(more.drop_last() =~= log);
    if let Some((track, samples)) = open_track(log) {
        lemma_queued_len(samples);
        assert(samples.push(s).drop_last() =~= samples);
        if r is Ok {
            assert(after.track->0.queue =~= queued(samples.push(s)));
        }
    }
}

/// A complete run leaves the file that holds exactly the samples that were
/// written, in order, each under its spaced timestamp, and tells the muxer's own
/// path.
pub proof fn complete_run_leaves_the_file(
    calls: Calls,
    spec: FrameSpec,
    r: Result<(PipelineStats, String), Error>,
    earlier: Seq<MuxerEvent>,
    state: MuxState,
)
    requires
        outcome(calls, spec, r),
        r is Ok,
        follows(state, earlier + calls.muxer),
    ensures
        exists|samples: Seq<Sample>|
            #![trigger queued(samples)]
            {
                &&& samples.len() == r->Ok_0.0.samples_written
                &&& forall|i: int|
                    0 <= i < samples.len() ==> calls.muxer[i + 1] == MuxerEvent::Write(
                        #[trigger] samples[i],
                        Ok(()),
                    )
                &&& completed_file(state, track_of(spec), samples)
            },
        r->Ok_0.1@ == state.path,
{
    let (frames, outs, tail) = choose|
        frames: Seq<Frame>,
        outs: Seq<Vec<Sample>>,
        tail: Vec<Sample>,
    |
        completed(calls, spec, frames, outs, tail, r->Ok_0.1, r->Ok_0.0);
    let samples = produced(outs) + tail@;
    let took = muxer_took(track_of(spec), samples);
    lemma_open_track(earlier, track_of(spec), samples);
    assert((earlier + calls.muxer).drop_last() =~= earlier + took);
    assert forall|i: int| 0 <= i < samples.len() implies calls.muxer[i + 1] == MuxerEvent::Write(
        #[trigger] samples[i],
        Ok(()),
    ) by {
        assert(calls.muxer[i + 1] == took[i + 1]);
    }
    assert(queued(samples) == queued(samples));
}

proof fn lemma_open_track(earlier: Seq<MuxerEvent>, track: TrackInfo, samples: Seq<Sample>)
    ensures
        open_track(earlier + muxer_took(track, samples)) == Some((track, samples)),
    decreases samples.len(),
{
    let log = earlier + muxer_took(track, samples);
    if samples.len() == 0 {
        assert(log.last() == MuxerEvent::Open(track, Ok(())));
        assert(samples =~= Seq::empty());
    } else {
        lemma_open_track(earlier, track, samples.drop_last());
        assert(log.drop_last() =~= earlier + muxer_took(track, samples.drop_last()));
        assert(log.last() == MuxerEvent::Write(samples.last(), Ok(())));
        assert(samples.drop_last().push(samples.last()) =~= samples);
    }
}

/// Frames that fall on one millisecond tick are spaced, not refused: a further
/// sample with a timestamp that was used up already is acceptable under the
/// timestamp it gets.
pub proof fn duplicate_pts_is_spaced(state: MuxState, s: Sample)
    requires
        state.wf(),
        state.track is Some,
        state.track->0.queue.len() > 0,
        state.next_pts_ms == state.track->0.queue.last().0 + 1,
        s.pts_ms <= state.track->0.queue.last().0,
        s.data@.len() > 0,
    ensures
        spaced_pts(state, s) == state.track->0.queue.last().0 + 1,
        acceptable(state.track->0.queue, (spaced_pts(state, s), s.data@, s.keyframe)),
{
}

/// [`Muxer`] that makes an MP4 file in memory, meant for `path`.
pub struct Mp4Muxer {
    path: String,
    inner: Option<Container<Vec<u8>>>,
    /// How many samples the track holds.
    queued: u32,
    /// The timestamp of the last of them, zero without one.
    last_pts_ms: u64,
    next_pts_ms: u64,
    done: Option<FinishedFile>,
    log: Ghost<Seq<MuxerEvent>>,
}

impl View for Mp4Muxer {
    type V = MuxState;

    closed spec fn view(&self) -> MuxState {
        MuxState {
            path: self.path@,
            track: match self.inner {
                Some(c) => Some(
                    Track {
                        width: size_of_track(c).0,
                        height: size_of_track(c).1,
                        queue: queue_of(c),
                    },
                ),
                None => None,
            },
            next_pts_ms: self.next_pts_ms,
            file: match self.done {
                Some(done) => Some((done.bytes@, done.frames as nat)),
                None => None,
            },
        }
    }
}

impl Mp4Muxer {
    #[verifier::type_invariant]
    spec fn consistent(self) -> bool {
        &&& self.inner matches Some(c) ==> {
            &&& output_of(c).len() == 0
            &&& self.queued == queue_of(c).len()
            &&& self.queued > 0 ==> self.last_pts_ms == queue_of(c).last().0
        }
        &&& self.done matches Some(done) ==> done.bytes_written == done.bytes@.len()
    }

    /// A muxer for a file at `path`, not opened yet.
    pub fn create(path: String) -> (r: Mp4Muxer)
        ensures
            r@ == (MuxState { path: path@, track: None, next_pts_ms: 0, file: None }),
            r@.wf(),
            Muxer::log(&r).len() == 0,
            Muxer::inv(&r),
    {
        Mp4Muxer {
            path,
            inner: None,
            queued: 0,
            last_pts_ms: 0,
            next_pts_ms: 0,
            done: None,
            log: Ghost(Seq::empty()),
        }
    }

    /// Hands out the file of the last completed track.
    pub fn take_file(&mut self) -> (r: Option<FinishedFile>)
        ensures
            r is Some == old(self)@.file is Some,
            r matches Some(done) ==> old(self)@.file == Some((done.bytes@, done.frames as nat))
                && done.bytes_written == done.bytes@.len(),
            final(self)@ == (MuxState { file: None, ..old(self)@ }),
            Muxer::log(final(self)) == Muxer::log(old(self)),
    {
        proof {
            use_type_invariant(&*self);
        }
        let mut done: Option<FinishedFile> = None;
        std::mem::swap(&mut done, &mut self.done);
        done
    }

    fn write(&mut self, sample: &Sample) -> (r: Result<(), Error>)
        ensures
            final(self).log == old(self).log,
            write_outcome(old(self)@, *sample, r, final(self)@),
    {
        proof {
            use_type_invariant(&*self);
        }
        let pts: u64 = if sample.pts_ms < self.next_pts_ms {
            self.next_pts_ms
        } else {
            sample.pts_ms
        };
        let mut inner: Option<Container<Vec<u8>>> = None;
        std::mem::swap(&mut inner, &mut self.inner);
        match inner {
            None => Err(Error::MuxerNotOpened),
            Some(mut c) => {
                if pts == u64::MAX {
                    self.inner = Some(c);
                    return Err(Error::TimestampTooLarge { pts_ms: pts });
                }
                self.next_pts_ms = pts + 1;
                let len: usize = sample.data.len();
                if len > MAX_SAMPLE_BYTES {
                    self.inner = Some(c);
                    return Err(Error::SampleTooLarge { len: len as u64 });
                }
                if self.queued == u32::MAX {
                    self.inner = Some(c);
                    return Err(Error::TooManySamples);
                }
                match queue_video(&mut c, pts, sample.data.as_slice(), sample.keyframe) {
                    Ok(_) => {
                        self.queued = self.queued + 1;
                        self.last_pts_ms = pts;
                        self.inner = Some(c);
                        Ok(())
                    },
                    Err(e) => {
                        self.inner = Some(c);
                        Err(Error::Container(e))
                    },
                }
            },
        }
    }

    fn complete(&mut self) -> (r: Result<String, Error>)
        ensures
            final(self).log == old(self).log,
            finalize_outcome(old(self)@, r, final(self)@),
    {
        proof {
            use_type_invariant(&*self);
        }
        let mut inner: Option<Container<Vec<u8>>> = None;
        std::mem::swap(&mut inner, &mut self.inner);
        match inner {
            None => Err(Error::MuxerNotOpened),
            Some(c) => {
                if self.queued > 1 && self.last_pts_ms > LAST_PTS_MS {
                    return Err(Error::TimestampTooLarge { pts_ms: self.last_pts_ms });
                }
                match finish_container(c) {
                    Ok(done) => {
                        self.done = Some(done);
                        Ok(self.path.clone())
                    },
                    Err(e) => Err(Error::Container(e)),
                }
            },
        }
    }
}

impl Muxer for Mp4Muxer {
    closed spec fn log(&self) -> Seq<MuxerEvent> {
        self.log@
    }

    /// The state is what the calls made of it. Handing out the file ends this
    /// until a track is opened again.
    open spec fn inv(&self) -> bool {
        follows(self@, self.log())
    }

    open spec fn place(&self) -> Seq<char> {
        self@.path
    }

    fn open(&mut self, track: &TrackInfo) -> (r: Result<(), Error>)
        ensures
            open_outcome(old(self)@, *track, r, final(self)@),
            r is Ok ==> final(self)@.wf(),
            r is Ok ==> final(self).inv(),
    {
        proof {
            use_type_invariant(&*self);
        }
        let r: Result<(), Error> = match open_container(track.width, track.height, track.fps) {
            Ok(c) => {
                self.inner = None;
                self.queued = 0;
                self.last_pts_ms = 0;
                self.inner = Some(c);
                self.next_pts_ms = 0;
                assert(self@.track->0.queue =~= Seq::empty());
                Ok(())
            },
            Err(e) => Err(Error::Container(e)),
        };
        self.log = Ghost(self.log@.push(MuxerEvent::Open(*track, r)));
        assert(self.log@.drop_last() =~= old(self).log@);
        r
    }

    fn write_sample(&mut self, sample: &Sample) -> (r: Result<(), Error>)
        ensures
            write_outcome(old(self)@, *sample, r, final(self)@),
            old(self)@.wf() ==> final(self)@.wf(),
    {
        let r = self.write(sample);
        proof {
            use_type_invariant(&*self);
        }
        proof {
            if follows(old(self)@, old(self).log@) {
                lemma_follows_write(old(self)@, old(self).log@, *sample, r, self@);
            }
        }
        self.log = Ghost(self.log@.push(MuxerEvent::Write(*sample, r)));
        r
    }

    fn finalize(&mut self) -> (r: Result<String, Error>)
        ensures
            finalize_outcome(old(self)@, r, final(self)@),
            old(self)@.wf() ==> final(self)@.wf(),
    {
        let r = self.complete();
        proof {
            use_type_invariant(&*self);
        }
        proof {
            assert(self.log@.push(MuxerEvent::Finalize(r)).drop_last() =~= self.log@);
            if let Some((_, samples)) = open_track(self.log@) {
                lemma_queued_len(samples);
            }
        }
        self.log = Ghost(self.log@.push(MuxerEvent::Finalize(r)));
        r
    }
}

/// Entry number `i` of the queue is sample number `i`: it has its data, and is marked
/// as a place to start decoding exactly if the sample is a keyframe. Its timestamp is
/// the sample's own, or one millisecond after that of the entry before if that is
/// later.
pub proof fn queued_entry_is_its_sample(samples: Seq<Sample>, i: int)
    requires
        0 <= i < samples.len(),
        i > 0 ==> queued(samples)[i - 1].0 < u64::MAX,
    ensures
        queued(samples).len() == samples.len(),
        queued(samples)[i].1 == samples[i].data@,
        queued(samples)[i].2 == samples[i].keyframe,
        i == 0 ==> queued(samples)[i].0 == samples[i].pts_ms,
        i > 0 && samples[i].pts_ms > queued(samples)[i - 1].0 ==> queued(samples)[i].0
            == samples[i].pts_ms,
        i > 0 && samples[i].pts_ms <= queued(samples)[i - 1].0 ==> queued(samples)[i].0
            == queued(samples)[i - 1].0 + 1,
    decreases samples.len(),
{
    lemma_queued_len(samples);
    let before = samples.drop_last();
    lemma_queued_len(before);
    if i < before.len() {
        assert(before[i] == samples[i]);
        queued_entry_is_its_sample(before, i);
    }
}

/// What is queued does not depend on what comes later.
pub proof fn later_samples_change_no_entry(samples: Seq<Sample>, s: Sample, i: int)
    requires
        0 <= i < samples.len(),
    ensures
        queued(samples.push(s))[i] == queued(samples)[i],
{
    assert(samples.push(s).drop_last() =~= samples);
    lemma_queued_len(samples);
}

/// A sample that is taken becomes the last entry of the queue, with its own data and
/// keyframe mark; the entries before it, the size of the track, the path and the last
/// file stay as they were. A sample that is refused becomes no entry.
pub proof fn taken_sample_is_queued_as_it_is(
    before: MuxState,
    s: Sample,
    r: Result<(), Error>,
    after: MuxState,
)
    requires
        write_outcome(before, s, r, after),
    ensures
        after.path == before.path,
        after.file == before.file,
        before.track is None ==> r is Err && after.track is None,
        before.track is Some ==> {
            let old_queue = before.track->0.queue;
            let new_queue = after.track->0.queue;
            &&& after.track is Some
            &&& after.track->0.width == before.track->0.width
            &&& after.track->0.height == before.track->0.height
            &&& r is Err ==> new_queue == old_queue
            &&& r is Ok ==> {
                &&& new_queue.len() == old_queue.len() + 1
                &&& forall|i: int| 0 <= i < old_queue.len() ==> #[trigger] new_queue[i]
                    == old_queue[i]
                &&& new_queue.last().1 == s.data@
                &&& new_queue.last().2 == s.keyframe
                &&& s.pts_ms >= before.next_pts_ms ==> new_queue.last().0 == s.pts_ms
                &&& s.pts_ms < before.next_pts_ms ==> new_queue.last().0 == before.next_pts_ms
                &&& after.next_pts_ms == new_queue.last().0 + 1
            }
        },
{
}

/// A sample is refused for nothing but a missing track, a size or a count beyond the
/// container's reach, a timestamp that is the last there is, or by the container; and
/// one that comes in order, at a timestamp that the container counts exactly, is taken.
pub proof fn sample_in_order_is_taken(
    before: MuxState,
    s: Sample,
    r: Result<(), Error>,
    after: MuxState,
)
    requires
        write_outcome(before, s, r, after),
        before.track is Some,
        before.track->0.queue.len() < 0xffff_ffff,
        0 < s.data@.len() <= 3_000_000_000,
        before.next_pts_ms <= s.pts_ms <= 1_099_511_627_776,
        before.track->0.queue.len() == 0 ==> s.keyframe && has_nal(s.data@, 7) && has_nal(
            s.data@,
            8,
        ),
        before.track->0.queue.len() > 0 ==> before.track->0.queue.last().0 < s.pts_ms
            <= before.track->0.queue.last().0 + 47_721_858,
    ensures
        r is Ok,
{
}

/// Opening starts an empty track of the size that was asked for, whose timestamps
/// begin at zero, for every size that is neither zero nor beyond sixteen bits, and no
/// other; what fails to open changes nothing.
pub proof fn opened_track_is_the_one_asked_for(
    before: MuxState,
    track: TrackInfo,
    r: Result<(), Error>,
    after: MuxState,
)
    requires
        open_outcome(before, track, r, after),
    ensures
        r is Ok <==> 0 < track.width <= 65535 && 0 < track.height <= 65535,
        r is Ok ==> {
            &&& after.track is Some
            &&& after.track->0.width == track.width
            &&& after.track->0.height == track.height
            &&& after.track->0.queue.len() == 0
            &&& after.next_pts_ms == 0
        },
        r is Err ==> after == before,
        after.path == before.path,
        after.file == before.file,
{
}

/// A completed file holds all that was queued for the track, at the track's size, and
/// is the one at the muxer's path. Without a track there is nothing to complete.
pub proof fn completed_file_is_of_the_whole_queue(
    before: MuxState,
    r: Result<String, Error>,
    after: MuxState,
)
    requires
        finalize_outcome(before, r, after),
    ensures
        after.path == before.path,
        after.track is None,
        before.track is None ==> r is Err && after.file == before.file,
        r is Err ==> after.file == before.file,
        r matches Ok(path) ==> {
            let t = before.track->0;
            let file = mp4_file(t.width, t.height, t.queue);
            &&& before.track is Some
            &&& path@ == before.path
            &&& after.file == Some((file, t.queue.len()))
            &&& fast_start(file)
        },
        before.track is Some && before.track->0.queue.len() == 0 ==> r is Ok,
{
    if before.track is Some && before.track->0.queue.len() == 0 {
        assert(total_bytes(before.track->0.queue) == 0);
    }
}

/// The header of a finished file says how long its samples last: from the first to
/// the last timestamp, and as long again as the last one came after the one before it.
pub proof fn file_lasts_from_first_to_last_sample(
    before: MuxState,
    r: Result<String, Error>,
    after: MuxState,
)
    requires
        finalize_outcome(before, r, after),
        r is Ok,
        before.track->0.queue.len() >= 2,
        before.track->0.queue.last().0 <= 1_099_511_627_776,
    ensures
        ({
            let q = before.track->0.queue;
            let n = q.len() as int;
            lasts((after.file->0).0, q[n - 1].0 - q[0].0 + (q[n - 1].0 - q[n - 2].0))
        }),
{
}

/// The file that a complete run leaves holds the samples that were written and no
/// others, in order, each with its own data and keyframe mark and under a timestamp
/// that is not before its own; the track has the size of the frames.
pub proof fn complete_run_keeps_data_and_keyframes(
    calls: Calls,
    spec: FrameSpec,
    r: Result<(PipelineStats, String), Error>,
    earlier: Seq<MuxerEvent>,
    state: MuxState,
)
    requires
        outcome(calls, spec, r),
        r is Ok,
        follows(state, earlier + calls.muxer),
        calls.muxer.len() <= u32::MAX,
        forall|i: int|
            0 < i < calls.muxer.len() - 1 ==> (#[trigger] calls.muxer[i])->Write_0.pts_ms
                < 0x7fff_ffff_ffff_ffff,
    ensures
        exists|queue: Seq<Queued>|
            {
                &&& state.file == Some(
                    (#[trigger] mp4_file(spec.width, spec.height, queue), queue.len()),
                )
                &&& queue.len() == r->Ok_0.0.samples_written
                &&& forall|i: int|
                    0 <= i < queue.len() ==> {
                        let s = calls.muxer[i + 1]->Write_0;
                        &&& (#[trigger] queue[i]).1 == s.data@
                        &&& queue[i].2 == s.keyframe
                        &&& queue[i].0 >= s.pts_ms
                    }
                &&& forall|i: int, j: int|
                    0 <= i < j < queue.len() ==> (#[trigger] queue[i]).0 < (#[trigger] queue[j]).0
            },
{
    complete_run_leaves_the_file(calls, spec, r, earlier, state);
    let samples = choose|samples: Seq<Sample>|
        #![trigger queued(samples)]
        {
            &&& samples.len() == r->Ok_0.0.samples_written
            &&& forall|i: int|
                0 <= i < samples.len() ==> calls.muxer[i + 1] == MuxerEvent::Write(
                    #[trigger] samples[i],
                    Ok(()),
                )
            &&& completed_file(state, track_of(spec), samples)
        };
    complete_run_flushes_in_order(calls, spec, r);
    assert forall|i: int| 0 <= i < samples.len() implies (#[trigger] samples[i]).pts_ms
        < 0x7fff_ffff_ffff_ffff by {
        assert(calls.muxer[i + 1] == MuxerEvent::Write(samples[i], Ok(())));
    }
    queued_timestamps_grow(samples);
    let queue = queued(samples);
    assert forall|i: int| 0 <= i < queue.len() implies {
        let s = calls.muxer[i + 1]->Write_0;
        &&& (#[trigger] queue[i]).1 == s.data@
        &&& queue[i].2 == s.keyframe
        &&& queue[i].0 >= s.pts_ms
    } by {
        assert(calls.muxer[i + 1] == MuxerEvent::Write(samples[i], Ok(())));
        if i > 0 {
            assert(queue[i - 1].0 < queue[i].0);
        }
        queued_entry_is_its_sample(samples, i);
    }
    assert(state.file == Some((mp4_file(spec.width, spec.height, queue), queue.len())));
}

/// A track of ordinary size is completed: up to a gibibyte in up to sixteen million
/// samples, with no timestamp beyond some six million years.
pub proof fn ordinary_track_is_completed(
    before: MuxState,
    r: Result<String, Error>,
    after: MuxState,
)
    requires
        finalize_outcome(before, r, after),
        before.track is Some,
        total_bytes(before.track->0.queue) <= 1_073_741_824,
        before.track->0.queue.len() <= 16_777_216,
        before.track->0.queue.len() > 0 ==> before.track->0.queue.last().0
            <= 204_000_000_000_000_000,
    ensures
        r is Ok,
{
}

/// The bytes of a queue are those of its samples, wherever it is cut in two.
pub proof fn bytes_of_parts_add_up(a: Seq<Queued>, b: Seq<Queued>, q: Queued)
    ensures
        total_bytes(a + b) == total_bytes(a) + total_bytes(b),
        total_bytes(seq![q]) == q.1.len(),
    decreases b.len(),
{
    let one = seq![q];
    assert(one.drop_last() =~= Seq::empty());
    assert(total_bytes(one.drop_last()) == 0);
    assert(one.last() == q);
    if b.len() == 0 {
        assert(a + b =~= a);
    } else {
        assert((a + b).drop_last() =~= a + b.drop_last());
        bytes_of_parts_add_up(a, b.drop_last(), q);
    }
}

} // verus!
