//! Software H.264 encoder: OpenH264 behind the [`VideoEncoder`] seam.

use crate::encode::i420::{
    bgra_to_i420, picture_of, picture_shows_the_image, I420Frame, Picture,
};
use crate::error::Error;
use crate::pipeline::{
    all_one_for_one, encoder_took, one_for_one, produced, EncoderEvent, EncoderFixed, Frame,
    FrameSpec, Sample, VideoEncoder,
};
use crate::recorder::{bitrate_of, Quality};
use openh264::encoder::Complexity as Effort;
use openh264::encoder::Encoder as Codec;
use openh264::encoder::{
    BitRate, EncoderConfig, FrameRate, FrameType, IntraFramePeriod, RateControlMode, UsageType,
};
use openh264::Error as CodecError;
use openh264::formats::YUVSlices;
use openh264::{OpenH264API, Timestamp};
use vstd::prelude::*;

verus! {

/// Speed against compression effort.
#[derive(Clone, Copy, PartialEq, Eq, Debug, Structural)]
pub enum Complexity {
    Low,
    Medium,
    High,
}

/// How the codec spends its bits.
#[derive(Clone, Copy, PartialEq, Eq, Debug, Structural)]
pub enum RateControl {
    Quality,
    Bitrate,
}

/// What the codec is tuned for.
#[derive(Clone, Copy, PartialEq, Eq, Debug, Structural)]
pub enum Usage {
    CameraVideoRealTime,
    ScreenContentRealTime,
}

/// Everything the codec is configured with.
#[derive(Clone, Copy, PartialEq, Eq, Debug, Structural)]
pub struct EncoderSetup {
    pub bitrate_bps: u32,
    pub fps: u32,
    pub rate_control: RateControl,
    pub usage: Usage,
    pub complexity: Complexity,
    pub intra_period: u32,
    pub threads: u16,
    pub max_slice_len: Option<u32>,
}

/// The codec's verdict on what it made of a picture.
#[derive(Clone, Copy, PartialEq, Eq, Debug, Structural)]
pub enum FrameKind {
    Invalid,
    Idr,
    I,
    P,
    Skip,
    IPMixed,
}

/// One picture as the codec returns it.
#[derive(Clone, Debug)]
pub struct EncodedPicture {
    pub data: Vec<u8>,
    pub kind: FrameKind,
}

/// The encoder of the `openh264` crate, an opaque handle.
#[verifier::external_type_specification]
#[verifier::external_body]
pub struct ExCodec(Codec);

/// What a codec handle was configured with.
pub uninterp spec fn setup_of(codec: Codec) -> EncoderSetup;

/// One picture that a codec was given, with its timestamp in milliseconds, and
/// what came back: the coded bytes and the frame's type, or nothing where the
/// codec refused it.
#[verifier::ext_equal]
pub struct Exchange {
    pub picture: Picture,
    pub pts_ms: u64,
    pub answer: Option<(Seq<u8>, FrameKind)>,
}

/// What passed between a codec handle and its user, in order.
pub uninterp spec fn exchanges_of(codec: Codec) -> Seq<Exchange>;

/// `openh264::encoder::Encoder::with_api_config`: stores the configuration in a
/// fresh encoder that has seen no picture yet. Creating it may fail; the crate
/// does not document when.
#[verifier::external_body]
fn create_codec(setup: &EncoderSetup) -> (r: Result<Codec, CodecError>)
    ensures
        r matches Ok(codec) ==> setup_of(codec) == *setup && exchanges_of(codec).len() == 0,
{
    let rate = match setup.rate_control { RateControl::Quality => RateControlMode::Quality, RateControl::Bitrate => RateControlMode::Bitrate };
    let usage = match setup.usage { Usage::CameraVideoRealTime => UsageType::CameraVideoRealTime, Usage::ScreenContentRealTime => UsageType::ScreenContentRealTime };
    let effort = match setup.complexity { Complexity::Low => Effort::Low, Complexity::Medium => Effort::Medium, Complexity::High => Effort::High };
    let config = EncoderConfig::new()
        .bitrate(BitRate::from_bps(setup.bitrate_bps))
        .max_frame_rate(FrameRate::from_hz(setup.fps as _))
        .rate_control_mode(rate)
        .usage_type(usage)
        .complexity(effort)
        .intra_frame_period(IntraFramePeriod::from_num_frames(setup.intra_period))
        .num_threads(setup.threads);
    let config = match setup.max_slice_len { Some(n) => config.max_slice_len(n), None => config };
    Codec::with_api_config(OpenH264API::from_source(), config)
}

/// `openh264::encoder::Encoder::encode_at`: hands the codec one picture with its
/// timestamp, and copies out what it returns. It refuses pictures larger than
/// 3840x2160 in either orientation. Which bytes and which frame type a picture
/// brings is left unsaid: the codec may code a picture on several threads, and
/// its documentation fixes neither.
#[verifier::external_body]
fn encode_picture(codec: &mut Codec, picture: &I420Frame, pts_ms: u64) -> (r: Result<
    EncodedPicture,
    CodecError,
>)
    requires
        picture@.wf(),
        2 <= picture@.width <= i32::MAX,
        2 <= picture@.height <= i32::MAX,
        pts_ms <= i64::MAX,
    ensures
        setup_of(*final(codec)) == setup_of(*old(codec)),
        exchanges_of(*final(codec)) == exchanges_of(*old(codec)).push(
            (Exchange { picture: picture@, pts_ms, answer: answer_in(r) }),
        ),
        too_large(picture@) ==> r is Err,
{
    let planes = (picture.y(), picture.u(), picture.v());
    let source = YUVSlices::new(planes, picture.dimensions(), picture.strides());
    let stream = codec.encode_at(&source, Timestamp::from_millis(pts_ms))?;
    let kind = match stream.frame_type() {
        FrameType::Invalid => FrameKind::Invalid,
        FrameType::IDR => FrameKind::Idr,
        FrameType::I => FrameKind::I,
        FrameType::P => FrameKind::P,
        FrameType::Skip => FrameKind::Skip,
        FrameType::IPMixed => FrameKind::IPMixed,
    };
    Ok(EncodedPicture { data: stream.to_vec(), kind })
}

/// What a call of the codec brought: the bytes and the frame's type.
pub open spec fn answer_in(r: Result<EncodedPicture, CodecError>) -> Option<(Seq<u8>, FrameKind)> {
    match r {
        Ok(e) => Some((e.data@, e.kind)),
        Err(_) => None,
    }
}

/// Beyond what the codec takes: more than 3840 in one direction, or more than
/// 2160 in both.
pub open spec fn too_large(p: Picture) -> bool {
    p.width > 3840 || p.height > 3840 || (p.width > 2160 && p.height > 2160)
}

/// The effort that a quality preset asks of the codec.
pub open spec fn effort_of(q: Quality) -> Complexity {
    match q {
        Quality::Ultra => Complexity::High,
        Quality::High => Complexity::Medium,
        Quality::Medium => Complexity::Low,
        Quality::Low => Complexity::Low,
    }
}

/// Quality preset to codec effort.
pub fn complexity_for(q: Quality) -> (r: Complexity)
    ensures
        r == effort_of(q),
{
    match q {
        Quality::Ultra => Complexity::High,
        Quality::High => Complexity::Medium,
        Quality::Medium => Complexity::Low,
        Quality::Low => Complexity::Low,
    }
}

/// Frames per second, at least one.
pub open spec fn pace(fps: u32) -> u32 {
    if fps == 0 {
        1
    } else {
        fps
    }
}

/// Threads the codec may use: one below 1280x720 pixels, else what the machine
/// runs at once, between two and four.
pub open spec fn codec_threads(pixels: int, cores: usize) -> u16 {
    if pixels < 1280 * 720 {
        1
    } else if cores < 2 {
        2
    } else if cores > 4 {
        4
    } else {
        cores as u16
    }
}

/// The codec setup for a stream: bitrate rate control tuned for screen content,
/// a keyframe every ten seconds, and slices of at most 64 KiB when the codec
/// runs on several threads.
pub open spec fn setup_for(
    spec: FrameSpec,
    bitrate_bps: u32,
    complexity: Complexity,
    cores: usize,
) -> EncoderSetup {
    let threads = codec_threads(spec.width * spec.height, cores);
    EncoderSetup {
        bitrate_bps,
        fps: pace(spec.fps),
        rate_control: RateControl::Bitrate,
        usage: Usage::ScreenContentRealTime,
        complexity,
        intra_period: (10 * pace(spec.fps)) as u32,
        threads,
        max_slice_len: if threads > 1 {
            Some(65536)
        } else {
            None
        },
    }
}

/// Computes [`setup_for`].
pub fn plan_setup(spec: &FrameSpec, bitrate_bps: u32, complexity: Complexity, cores: usize) -> (r:
    EncoderSetup)
    requires
        spec.width <= 3840,
        spec.height <= 2160,
        10 * spec.fps <= u32::MAX,
    ensures
        r == setup_for(*spec, bitrate_bps, complexity, cores),
{
    let fps: u32 = if spec.fps == 0 {
        1
    } else {
        spec.fps
    };
    assert(spec.width * spec.height <= 3840 * 2160) by (nonlinear_arith)
        requires
            spec.width <= 3840,
            spec.height <= 2160,
    ;
    let pixels: u32 = spec.width * spec.height;
    let threads: u16 = if pixels < 1280 * 720 {
        1
    } else if cores < 2 {
        2
    } else if cores > 4 {
        4
    } else {
        cores as u16
    };
    EncoderSetup {
        bitrate_bps,
        fps,
        rate_control: RateControl::Bitrate,
        usage: Usage::ScreenContentRealTime,
        complexity,
        intra_period: 10 * fps,
        threads,
        max_slice_len: if threads > 1 {
            Some(65536)
        } else {
            None
        },
    }
}

/// The sample that the codec's answer becomes.
pub open spec fn is_sample_of(
    s: Sample,
    answer: (Seq<u8>, FrameKind),
    pts_ms: u64,
    fps: u32,
) -> bool {
    &&& s.data@ == answer.0
    &&& s.keyframe == (answer.1 is Idr || answer.1 is I)
    &&& s.pts_ms == pts_ms
    &&& s.dur_ms == 1000int / (pace(fps) as int)
}

/// Frames the codec's answer as a sample: IDR and I pictures are keyframes, and
/// a sample lasts one frame interval in whole milliseconds.
pub fn sample_from(e: EncodedPicture, pts_ms: u64, fps: u32) -> (s: Sample)
    ensures
        is_sample_of(s, (e.data@, e.kind), pts_ms, fps),
{
    let interval: u32 = if fps == 0 {
        1000
    } else {
        1000 / fps
    };
    let keyframe: bool = matches!(e.kind, FrameKind::Idr | FrameKind::I);
    Sample { data: e.data, keyframe, pts_ms, dur_ms: interval as u64 }
}

/// A frame that can be encoded: at least one block of two by two pixels, and
/// data for every pixel.
pub open spec fn usable(f: Frame) -> bool {
    &&& 2 <= f.width <= i32::MAX
    &&& 2 <= f.height <= i32::MAX
    &&& f.data@.len() >= 4 * f.width * f.height
}

/// Why a stream is turned down before the codec is asked.
pub open spec fn stream_refusal(spec: FrameSpec) -> Option<Error> {
    if spec.width % 2 != 0 || spec.height % 2 != 0 {
        Some(Error::OddDimensions { width: spec.width, height: spec.height })
    } else if spec.width > 3840 || spec.height > 2160 {
        Some(Error::ResolutionTooLarge { width: spec.width, height: spec.height })
    } else if 10 * spec.fps > u32::MAX {
        Some(Error::FrameRateTooHigh { fps: spec.fps })
    } else {
        None
    }
}

/// What a [`SwH264Encoder`] holds, but for the calls it got, which are its
/// [`VideoEncoder::log`].
#[verifier::ext_equal]
pub struct EncoderState {
    pub bitrate_bps: u32,
    pub fps: u32,
    pub complexity: Complexity,
    /// Threads the machine runs at once, as far as known.
    pub cores: usize,
    /// What the codec was set up with, `None` before the first successful
    /// initialisation.
    pub setup: Option<EncoderSetup>,
    /// What the codec was given since it was set up, and what it returned.
    pub exchanges: Seq<Exchange>,
    /// The last converted picture.
    pub picture: Picture,
    /// Frames encoded since the codec was set up, modulo the counter's range.
    pub encoded: u64,
}

/// An encoder that was not initialised yet.
pub open spec fn fresh_state(quality: Quality, cores: usize, s: EncoderState) -> bool {
    &&& s.bitrate_bps == bitrate_of(quality) * 1_000_000
    &&& s.fps == 30
    &&& s.complexity == effort_of(quality)
    &&& s.cores == cores
    &&& s.setup is None
    &&& s.exchanges.len() == 0
    &&& s.encoded == 0
}

/// What initialising for `spec` does: a refused stream changes nothing; else the
/// codec is set up afresh, unless the codec itself fails.
pub open spec fn init_outcome(
    before: EncoderState,
    spec: FrameSpec,
    r: Result<(), Error>,
    after: EncoderState,
) -> bool {
    match stream_refusal(spec) {
        Some(e) => r == Err::<(), Error>(e) && after == before,
        None => match r {
            Ok(_) => {
                &&& after.picture.wf()
                &&& after.picture.width == spec.width
                &&& after.picture.height == spec.height
                &&& after == (EncoderState {
                    fps: pace(spec.fps),
                    setup: Some(
                        setup_for(spec, before.bitrate_bps, before.complexity, before.cores),
                    ),
                    exchanges: Seq::empty(),
                    picture: after.picture,
                    encoded: 0,
                    ..before
                })
            },
            Err(e) => e is Codec && after == (EncoderState { fps: pace(spec.fps), ..before }),
        },
    }
}

/// Why a frame is turned down before the codec is asked.
pub open spec fn frame_refusal(state: EncoderState, f: Frame) -> Option<Error> {
    if state.setup is None {
        Some(Error::EncoderNotReady)
    } else if !usable(f) {
        Some(Error::UnusableFrame { width: f.width, height: f.height })
    } else if f.pts_ms > i64::MAX {
        Some(Error::TimestampTooLarge { pts_ms: f.pts_ms })
    } else {
        None
    }
}

/// The state after the codec was given `f` and returned `answer`.
pub open spec fn given(
    before: EncoderState,
    f: Frame,
    answer: Option<(Seq<u8>, FrameKind)>,
) -> EncoderState {
    let picture = picture_of(f.data@, f.width as nat, f.height as nat);
    EncoderState {
        picture,
        exchanges: before.exchanges.push(Exchange { picture, pts_ms: f.pts_ms, answer }),
        ..before
    }
}

/// The answer to the last picture that the codec was given.
pub open spec fn last_answer(s: EncoderState) -> Option<(Seq<u8>, FrameKind)> {
    s.exchanges.last().answer
}

/// What feeding `f` does: a refused frame changes nothing; else the codec is
/// given the converted picture with the frame's timestamp, and either fails or
/// yields exactly one sample: what the codec returned, with that timestamp and one
/// frame interval long.
pub open spec fn feed_outcome(
    before: EncoderState,
    f: Frame,
    r: Result<Vec<Sample>, Error>,
    after: EncoderState,
) -> bool {
    match frame_refusal(before, f) {
        Some(e) => r == Err::<Vec<Sample>, Error>(e) && after == before,
        None => match r {
            Ok(samples) => {
                &&& !too_large(after.picture)
                &&& samples@.len() == 1
                &&& last_answer(after) is Some
                &&& is_sample_of(samples@[0], last_answer(after)->0, f.pts_ms, before.fps)
                &&& after == (EncoderState {
                    encoded: before.encoded.wrapping_add(1),
                    ..given(before, f, last_answer(after))
                })
            },
            Err(e) => e is Codec && after == given(before, f, None),
        },
    }
}

/// What one call does to the state.
pub open spec fn stepped(before: EncoderState, call: EncoderEvent, after: EncoderState) -> bool {
    match call {
        EncoderEvent::Init(spec, r) => init_outcome(before, spec, r, after),
        EncoderEvent::Feed(f, r) => feed_outcome(before, f, r, after),
        EncoderEvent::Finish(r) => after == before && r is Ok && r->Ok_0@.len() == 0,
    }
}

/// The calls in `log`, made one after the other on an encoder that was not
/// initialised yet, can lead to `s`.
pub open spec fn coded(log: Seq<EncoderEvent>, s: EncoderState) -> bool
    decreases log.len(),
{
    if log.len() == 0 {
        s.setup is None && s.exchanges.len() == 0 && s.encoded == 0
    } else {
        exists|before: EncoderState| #[trigger]
            stepped(before, log.last(), s) && coded(log.drop_last(), before)
    }
}

/// A codec handle holds what the state says: it was configured with the setup, and
/// the exchanges are those that passed between it and its user.
pub open spec fn held_by_codec(s: EncoderState) -> bool {
    s.setup matches Some(setup) ==> exists|codec: Codec| #[trigger]
        setup_of(codec) == setup && exchanges_of(codec) == s.exchanges
}

/// A number for a codec effort, the larger the more.
pub open spec fn effort_number(c: Complexity) -> nat {
    match c {
        Complexity::Low => 0,
        Complexity::Medium => 1,
        Complexity::High => 2,
    }
}

/// Frame number `i` of `frames` was given to the codec, and what came back is the
/// one sample in `out`.
pub open spec fn exchanged(x: Exchange, f: Frame, out: Seq<Sample>, fps: u32) -> bool {
    &&& x.picture == picture_of(f.data@, f.width as nat, f.height as nat)
    &&& x.pts_ms == f.pts_ms
    &&& x.answer is Some
    &&& out.len() == 1
    &&& is_sample_of(out[0], x.answer->0, f.pts_ms, fps)
}

/// An encoder that was initialised for `spec` and took `frames` was set up for that
/// stream, and gave exactly one sample for every frame: the codec's answer to the
/// converted picture, with the frame's timestamp and one frame interval long.
pub proof fn every_frame_gives_one_sample(
    spec: FrameSpec,
    frames: Seq<Frame>,
    outs: Seq<Vec<Sample>>,
    s: EncoderState,
)
    requires
        coded(encoder_took(spec, frames, outs), s),
        outs.len() <= frames.len(),
    ensures
        s.fps == pace(spec.fps),
        s.setup == Some(setup_for(spec, s.bitrate_bps, s.complexity, s.cores)),
        s.exchanges.len() == outs.len(),
        forall|i: int|
            0 <= i < outs.len() ==> exchanged(
                #[trigger] s.exchanges[i],
                frames[i],
                outs[i]@,
                spec.fps,
            ),
        produced(outs).len() == outs.len(),
        forall|i: int| 0 <= i < outs.len() ==> #[trigger] produced(outs)[i] == outs[i]@[0],
    decreases outs.len(),
{
    let log = encoder_took(spec, frames, outs);
    let before = choose|before: EncoderState| #[trigger]
        stepped(before, log.last(), s) && coded(log.drop_last(), before);
    if outs.len() == 0 {
        assert(log.last() == EncoderEvent::Init(spec, Ok(())));
    } else {
        let n = outs.len() - 1;
        let fewer = outs.drop_last();
        assert(log.drop_last() =~= encoder_took(spec, frames, fewer));
        assert(log.last() == EncoderEvent::Feed(frames[n], Ok(outs[n])));
        every_frame_gives_one_sample(spec, frames, fewer, before);
        assert forall|i: int| 0 <= i < outs.len() implies exchanged(
            #[trigger] s.exchanges[i],
            frames[i],
            outs[i]@,
            spec.fps,
        ) by {
            if i < n {
                assert(s.exchanges[i] == before.exchanges[i]);
                assert(fewer[i] == outs[i]);
            }
        }
        assert forall|i: int| 0 <= i < outs.len() implies #[trigger] produced(outs)[i]
            == outs[i]@[0] by {
            if i < n {
                assert(fewer[i] == outs[i]);
                assert(produced(outs)[i] == produced(fewer)[i]);
            } else {
                assert(exchanged(s.exchanges[n], frames[n], outs[n]@, spec.fps));
                assert(outs.last() == outs[n]);
            }
        }
    }
}

/// With nothing left at the end: as many frames were fed, as many samples came in
/// all.
pub proof fn finishing_gives_nothing_more(
    spec: FrameSpec,
    frames: Seq<Frame>,
    outs: Seq<Vec<Sample>>,
    tail: Result<Vec<Sample>, Error>,
    s: EncoderState,
)
    requires
        coded(encoder_took(spec, frames, outs).push(EncoderEvent::Finish(tail)), s),
        outs.len() == frames.len(),
    ensures
        tail is Ok,
        tail->Ok_0@.len() == 0,
        (produced(outs) + tail->Ok_0@).len() == frames.len(),
        coded(encoder_took(spec, frames, outs), s),
{
    let log = encoder_took(spec, frames, outs).push(EncoderEvent::Finish(tail));
    assert(log.drop_last() =~= encoder_took(spec, frames, outs));
    every_frame_gives_one_sample(spec, frames, outs, s);
}

/// An encoder that was initialised once, first of all, stays set up for that
/// stream.
pub proof fn setup_lasts(log: Seq<EncoderEvent>, s: EncoderState, spec: FrameSpec)
    requires
        coded(log, s),
        log.len() > 0,
        log[0] == EncoderEvent::Init(spec, Ok(())),
        forall|i: int| 0 < i < log.len() ==> !(#[trigger] log[i] is Init),
    ensures
        s.setup == Some(setup_for(spec, s.bitrate_bps, s.complexity, s.cores)),
    decreases log.len(),
{
    let less = log.drop_last();
    let before = choose|before: EncoderState| #[trigger]
        stepped(before, log.last(), s) && coded(less, before);
    if less.len() > 0 {
        assert forall|i: int| 0 < i < less.len() implies !(#[trigger] less[i] is Init) by {
            assert(less[i] == log[i]);
        }
        setup_lasts(less, before, spec);
        assert(!(log[log.len() - 1] is Init));
    }
}

/// Every call in the log of an encoder was one for one, and initialising was
/// refused exactly for the streams that [`stream_refusal`] names, or by the codec.
pub proof fn calls_keep_their_word(log: Seq<EncoderEvent>, s: EncoderState)
    requires
        coded(log, s),
    ensures
        all_one_for_one(log),
        forall|i: int|
            0 <= i < log.len() && #[trigger] log[i] is Init ==> match stream_refusal(
                log[i]->Init_0,
            ) {
                Some(e) => log[i]->Init_1 == Err::<(), Error>(e),
                None => log[i]->Init_1 matches Err(e) ==> e is Codec,
            },
    decreases log.len(),
{
    if log.len() > 0 {
        let less = log.drop_last();
        let before = choose|before: EncoderState| #[trigger]
            stepped(before, log.last(), s) && coded(less, before);
        calls_keep_their_word(less, before);
        assert forall|i: int| 0 <= i < log.len() implies one_for_one(#[trigger] log[i]) by {
            if i < less.len() {
                assert(log[i] == less[i]);
            }
        }
        assert forall|i: int| 0 <= i < log.len() && #[trigger] log[i] is Init implies match
            stream_refusal(log[i]->Init_0) {
            Some(e) => log[i]->Init_1 == Err::<(), Error>(e),
            None => log[i]->Init_1 matches Err(e) ==> e is Codec,
        } by {
            if i < less.len() {
                assert(log[i] == less[i]);
            }
        }
    }
}

/// Software H.264 [`VideoEncoder`] backed by OpenH264.
///
/// Tuned for screen content: bitrate rate control at the preset's target, a
/// keyframe every ten seconds for seekable recordings, no reordering, hence
/// nothing to drain at the end.
pub struct SwH264Encoder {
    bitrate_bps: u32,
    fps: u32,
    complexity: Complexity,
    cores: usize,
    codec: Option<Codec>,
    i420: I420Frame,
    encoded: u64,
    log: Ghost<Seq<EncoderEvent>>,
}

impl View for SwH264Encoder {
    type V = EncoderState;

    closed spec fn view(&self) -> EncoderState {
        EncoderState {
            bitrate_bps: self.bitrate_bps,
            fps: self.fps,
            complexity: self.complexity,
            cores: self.cores,
            setup: match self.codec {
                Some(codec) => Some(setup_of(codec)),
                None => None,
            },
            exchanges: match self.codec {
                Some(codec) => exchanges_of(codec),
                None => Seq::empty(),
            },
            picture: self.i420@,
            encoded: self.encoded,
        }
    }
}

impl SwH264Encoder {
    /// An encoder for a preset, on a machine of which nothing is known.
    pub fn new(quality: Quality) -> (r: SwH264Encoder)
        ensures
            fresh_state(quality, 1, r@),
            VideoEncoder::log(&r).len() == 0,
            VideoEncoder::inv(&r),
    {
        SwH264Encoder::with_cores(quality, 1)
    }

    /// An encoder for a preset, on a machine that runs `cores` threads at once.
    pub fn with_cores(quality: Quality, cores: usize) -> (r: SwH264Encoder)
        ensures
            fresh_state(quality, cores, r@),
            VideoEncoder::log(&r).len() == 0,
            VideoEncoder::inv(&r),
    {
        SwH264Encoder {
            bitrate_bps: quality.bitrate_mbps() * 1_000_000,
            fps: 30,
            complexity: complexity_for(quality),
            cores,
            codec: None,
            i420: I420Frame::with_capacity(2, 2),
            encoded: 0,
            log: Ghost(Seq::empty()),
        }
    }

    /// Target bitrate in bits per second.
    pub fn bitrate_bps(&self) -> (r: u32)
        ensures
            r == self@.bitrate_bps,
    {
        self.bitrate_bps
    }

    /// Codec effort.
    pub fn complexity(&self) -> (r: Complexity)
        ensures
            r == self@.complexity,
    {
        self.complexity
    }

    /// Frames encoded since the codec was set up.
    pub fn encoded(&self) -> (r: u64)
        ensures
            r == self@.encoded,
    {
        self.encoded
    }

    /// The codec handle is what holds the state.
    proof fn lemma_held(&self)
        ensures
            held_by_codec(self@),
    {
        if self@.setup is Some {
            let codec = self.codec->0;
            assert(setup_of(codec) == self@.setup->0 && exchanges_of(codec) == self@.exchanges);
        }
    }

    fn set_up(&mut self, spec: &FrameSpec) -> (r: Result<(), Error>)
        ensures
            final(self).log == old(self).log,
            init_outcome(old(self)@, *spec, r, final(self)@),
    {
        if spec.width % 2 != 0 || spec.height % 2 != 0 {
            return Err(Error::OddDimensions { width: spec.width, height: spec.height });
        }
        if spec.width > 3840 || spec.height > 2160 {
            return Err(Error::ResolutionTooLarge { width: spec.width, height: spec.height });
        }
        if spec.fps > u32::MAX / 10 {
            return Err(Error::FrameRateTooHigh { fps: spec.fps });
        }
        let setup = plan_setup(spec, self.bitrate_bps, self.complexity, self.cores);
        self.fps = setup.fps;
        match create_codec(&setup) {
            Ok(codec) => {
                self.codec = Some(codec);
            },
            Err(e) => {
                return Err(Error::Codec(e));
            },
        }
        assert(spec.width * spec.height <= 3840 * 2160) by (nonlinear_arith)
            requires
                spec.width <= 3840,
                spec.height <= 2160,
        ;
        self.i420 = I420Frame::with_capacity(spec.width as usize, spec.height as usize);
        self.encoded = 0;
        assert(self@.exchanges =~= Seq::empty());
        Ok(())
    }

    /// Converts a usable frame and has the codec encode it.
    fn encode_one(&mut self, frame: &Frame) -> (r: Result<Sample, Error>)
        requires
            frame_refusal(old(self)@, *frame) is None,
        ensures
            final(self).log == old(self).log,
            final(self)@ == given(old(self)@, *frame, last_answer(final(self)@)),
            too_large(final(self)@.picture) ==> r is Err,
            r matches Ok(s) ==> last_answer(final(self)@) is Some && is_sample_of(
                s,
                last_answer(final(self)@)->0,
                frame.pts_ms,
                old(self)@.fps,
            ),
            r matches Err(e) ==> e is Codec && last_answer(final(self)@) is None,
    {
        bgra_to_i420(frame.data.as_slice(), frame.width, frame.height, &mut self.i420);
        match &mut self.codec {
            Some(codec) => match encode_picture(codec, &self.i420, frame.pts_ms) {
                Ok(e) => Ok(sample_from(e, frame.pts_ms, self.fps)),
                Err(e) => Err(Error::Codec(e)),
            },
            None => Err(Error::EncoderNotReady),
        }
    }

    fn encode(&mut self, frame: &Frame) -> (r: Result<Vec<Sample>, Error>)
        ensures
            final(self).log == old(self).log,
            feed_outcome(old(self)@, *frame, r, final(self)@),
    {
        if self.codec.is_none() {
            return Err(Error::EncoderNotReady);
        }
        if !is_usable(frame) {
            return Err(Error::UnusableFrame { width: frame.width, height: frame.height });
        }
        if frame.pts_ms > i64::MAX as u64 {
            return Err(Error::TimestampTooLarge { pts_ms: frame.pts_ms });
        }
        match self.encode_one(frame) {
            Ok(sample) => {
                self.encoded = self.encoded.wrapping_add(1);
                Ok(vec![sample])
            },
            Err(e) => Err(e),
        }
    }

    /// Initialises for a stream unless the encoder already is at its size.
    pub fn pre_init(&mut self, spec: &FrameSpec) -> (r: Result<(), Error>)
        ensures
            ({
                let ready = old(self)@.setup is Some && old(self)@.picture.width == spec.width
                    && old(self)@.picture.height == spec.height;
                &&& ready ==> r is Ok && *final(self) == *old(self)
                &&& !ready ==> init_outcome(old(self)@, *spec, r, final(self)@)
            }),
    {
        let (w, h) = self.i420.dimensions();
        if self.codec.is_none() || w != spec.width as usize || h != spec.height as usize {
            self.init(spec)
        } else {
            Ok(())
        }
    }
}

/// Decides [`usable`].
fn is_usable(f: &Frame) -> (r: bool)
    ensures
        r == usable(*f),
{
    if f.width < 2 || f.height < 2 || f.width > i32::MAX as u32 || f.height > i32::MAX as u32 {
        return false;
    }
    let len: usize = f.data.len();
    assert(f.width * f.height <= i32::MAX * i32::MAX) by (nonlinear_arith)
        requires
            f.width <= i32::MAX,
            f.height <= i32::MAX,
    ;
    assert(4 * f.width * f.height == 4 * (f.width * f.height)) by (nonlinear_arith);
    len as u64 / 4 >= f.width as u64 * f.height as u64
}

impl VideoEncoder for SwH264Encoder {
    closed spec fn log(&self) -> Seq<EncoderEvent> {
        self.log@
    }

    /// The state is what the calls made of it, and the codec holds it.
    open spec fn inv(&self) -> bool {
        coded(self.log(), self@) && held_by_codec(self@)
    }

    open spec fn fixed(&self) -> EncoderFixed {
        EncoderFixed {
            bitrate_bps: self@.bitrate_bps as nat,
            effort: effort_number(self@.complexity),
            cores: self@.cores as nat,
        }
    }

    fn codec_name(&self) -> (r: &'static str)
        ensures
            r@ == "openh264"@,
    {
        "openh264"
    }

    fn init(&mut self, spec: &FrameSpec) -> (r: Result<(), Error>)
        ensures
            init_outcome(old(self)@, *spec, r, final(self)@),
    {
        let r = self.set_up(spec);
        self.log = Ghost(self.log@.push(EncoderEvent::Init(*spec, r)));
        proof {
            self.lemma_held();
            assert(self.log@.drop_last() =~= old(self).log@);
            if coded(old(self).log@, old(self)@) {
                assert(stepped(old(self)@, self.log@.last(), self@));
                assert(coded(self.log@, self@));
            }
        }
        r
    }

    fn feed(&mut self, frame: &Frame) -> (r: Result<Vec<Sample>, Error>)
        ensures
            feed_outcome(old(self)@, *frame, r, final(self)@),
    {
        let r = self.encode(frame);
        self.log = Ghost(self.log@.push(EncoderEvent::Feed(*frame, r)));
        proof {
            self.lemma_held();
            assert(self.log@.drop_last() =~= old(self).log@);
            if coded(old(self).log@, old(self)@) {
                assert(stepped(old(self)@, self.log@.last(), self@));
                assert(coded(self.log@, self@));
            }
        }
        r
    }

    /// Every frame was flushed when it was fed.
    fn finish(&mut self) -> (r: Result<Vec<Sample>, Error>)
        ensures
            final(self)@ == old(self)@,
            r is Ok,
            r->Ok_0@.len() == 0,
    {
        let r: Result<Vec<Sample>, Error> = Ok(Vec::new());
        self.log = Ghost(self.log@.push(EncoderEvent::Finish(r)));
        proof {
            self.lemma_held();
            assert(self.log@.drop_last() =~= old(self).log@);
            if coded(old(self).log@, old(self)@) {
                assert(stepped(old(self)@, self.log@.last(), self@));
                assert(coded(self.log@, self@));
            }
        }
        r
    }
}

/// The codec is set up for the stream: its frame rate, at least one per second, the
/// bitrate and effort that were asked for, spent by bitrate and tuned for screens, and
/// a keyframe every ten seconds. Small pictures are coded on one thread; others on two
/// to four, as many as the machine has, in slices of at most 64 KiB.
pub proof fn setup_is_for_the_stream(
    spec: FrameSpec,
    bitrate_bps: u32,
    complexity: Complexity,
    cores: usize,
)
    requires
        10 * spec.fps <= u32::MAX,
    ensures
        ({
            let s = setup_for(spec, bitrate_bps, complexity, cores);
            &&& spec.fps > 0 ==> s.fps == spec.fps
            &&& spec.fps == 0 ==> s.fps == 1
            &&& s.bitrate_bps == bitrate_bps
            &&& s.complexity == complexity
            &&& s.rate_control is Bitrate
            &&& s.usage is ScreenContentRealTime
            &&& s.intra_period == 10 * s.fps
            &&& spec.width * spec.height < 921_600 ==> s.threads == 1 && s.max_slice_len is None
            &&& spec.width * spec.height >= 921_600 ==> {
                &&& 2 <= s.threads <= 4
                &&& 2 <= cores <= 4 ==> s.threads == cores
                &&& cores < 2 ==> s.threads == 2
                &&& cores > 4 ==> s.threads == 4
                &&& s.max_slice_len == Some(65536u32)
            }
        }),
{
}

/// A sample is the codec's answer: its bytes, marked as a keyframe exactly for IDR and
/// I pictures, at the timestamp of the frame, one frame interval long in whole
/// milliseconds.
pub proof fn sample_is_the_codecs_answer(
    s: Sample,
    answer: (Seq<u8>, FrameKind),
    pts_ms: u64,
    fps: u32,
)
    requires
        is_sample_of(s, answer, pts_ms, fps),
    ensures
        s.data@ == answer.0,
        answer.1 is Idr || answer.1 is I ==> s.keyframe,
        answer.1 is P || answer.1 is Skip || answer.1 is IPMixed || answer.1 is Invalid
            ==> !s.keyframe,
        s.pts_ms == pts_ms,
        fps == 0 ==> s.dur_ms == 1000,
        fps > 0 ==> s.dur_ms * fps <= 1000 < (s.dur_ms + 1) * fps,
{
    if fps > 0 {
        let f = fps as int;
        vstd::arithmetic::div_mod::lemma_fundamental_div_mod(1000, f);
        assert((1000int / f) * f <= 1000 < (1000int / f + 1) * f) by (nonlinear_arith)
            requires
                1000 == f * (1000int / f) + 1000int % f,
                0 <= 1000int % f < f,
        ;
    }
}

/// A stream is turned down exactly if a dimension is odd, if it is larger than 3840 by
/// 2160, or if ten seconds of its frames cannot be counted; the reason says which.
pub proof fn refused_streams_cannot_be_coded(spec: FrameSpec)
    ensures
        ({
            let even = spec.width % 2 == 0 && spec.height % 2 == 0;
            let small = spec.width <= 3840 && spec.height <= 2160;
            let slow = 10 * spec.fps <= 0xffff_ffff;
            &&& stream_refusal(spec) is None <==> even && small && slow
            &&& !even ==> stream_refusal(spec) == Some(
                Error::OddDimensions { width: spec.width, height: spec.height },
            )
            &&& even && !small ==> stream_refusal(spec) == Some(
                Error::ResolutionTooLarge { width: spec.width, height: spec.height },
            )
            &&& even && small && !slow ==> stream_refusal(spec) == Some(
                Error::FrameRateTooHigh { fps: spec.fps },
            )
        }),
{
}

/// A frame is turned down before the codec is asked exactly if the encoder was not
/// initialised, the frame has no block of two by two pixels or too little data, its
/// dimensions do not fit 31 bits, or its timestamp does not fit 63.
pub proof fn refused_frames_cannot_be_coded(state: EncoderState, f: Frame)
    ensures
        ({
            let whole = 2 <= f.width <= 0x7fff_ffff && 2 <= f.height <= 0x7fff_ffff
                && f.data@.len() >= 4 * f.width * f.height;
            &&& frame_refusal(state, f) is None <==> state.setup is Some && whole && f.pts_ms
                <= 0x7fff_ffff_ffff_ffff
            &&& state.setup is None ==> frame_refusal(state, f) == Some(Error::EncoderNotReady)
            &&& state.setup is Some && !whole ==> frame_refusal(state, f) == Some(
                Error::UnusableFrame { width: f.width, height: f.height },
            )
        }),
{
}

/// A frame that is fed reaches the codec: the pixel at column `x` and row `y` of the
/// frame is what the luma plane of the picture holds at that place, and the picture
/// carries the frame's timestamp. The frames before it are left as they were.
pub proof fn codec_is_given_the_frame(
    before: EncoderState,
    f: Frame,
    r: Result<Vec<Sample>, Error>,
    after: EncoderState,
    x: int,
    y: int,
)
    requires
        feed_outcome(before, f, r, after),
        frame_refusal(before, f) is None,
        0 <= x < f.width - f.width % 2,
        0 <= y < f.height - f.height % 2,
    ensures
        ({
            let n = before.exchanges.len() as int;
            let got = after.exchanges[n];
            let at = 4 * (y * f.width + x);
            &&& after.exchanges.len() == n + 1
            &&& forall|i: int| 0 <= i < n ==> #[trigger] after.exchanges[i] == before.exchanges[i]
            &&& got.pts_ms == f.pts_ms
            &&& got.picture.width == f.width - f.width % 2
            &&& got.picture.height == f.height - f.height % 2
            &&& got.picture.y[y * got.picture.width + x] == (66 * f.data@[at + 2] + 129
                * f.data@[at + 1] + 25 * f.data@[at] + 128) / 256 + 16
            &&& r is Ok ==> {
                &&& r->Ok_0@.len() == 1
                &&& got.answer is Some
                &&& r->Ok_0@[0].data@ == (got.answer->0).0
                &&& r->Ok_0@[0].keyframe <==> (got.answer->0).1 is Idr || (got.answer->0).1 is I
                &&& r->Ok_0@[0].pts_ms == f.pts_ms
            }
            &&& r is Err ==> got.answer is None
            &&& after.setup == before.setup
        }),
{
    picture_shows_the_image(f.data@, f.width as nat, f.height as nat, x, y);
}

/// The better the preset, the more effort the codec makes: most for the best one, and
/// least for the two at the end.
pub proof fn better_preset_makes_more_effort()
    ensures
        effort_of(Quality::Ultra) is High,
        effort_of(Quality::High) is Medium,
        effort_of(Quality::Medium) is Low,
        effort_of(Quality::Low) is Low,
        effort_number(Complexity::Low) < effort_number(Complexity::Medium) < effort_number(
            Complexity::High,
        ),
{
}

/// Initialising for a stream that is not turned down sets the codec up for it, with
/// nothing coded yet, at the bitrate and effort of the encoder, unless the codec
/// fails; and then whatever codec there was is kept. A stream that is turned down
/// changes nothing.
pub proof fn initialising_begins_the_stream(
    before: EncoderState,
    spec: FrameSpec,
    r: Result<(), Error>,
    after: EncoderState,
)
    requires
        init_outcome(before, spec, r, after),
    ensures
        after.bitrate_bps == before.bitrate_bps,
        after.complexity == before.complexity,
        after.cores == before.cores,
        stream_refusal(spec) is Some ==> r is Err && after == before,
        r is Err ==> after.setup == before.setup && after.exchanges == before.exchanges
            && after.encoded == before.encoded,
        r is Ok ==> {
            &&& after.setup is Some
            &&& after.setup->0.bitrate_bps == before.bitrate_bps
            &&& after.setup->0.complexity == before.complexity
            &&& spec.fps > 0 ==> after.fps == spec.fps && after.setup->0.fps == spec.fps
            &&& spec.fps == 0 ==> after.fps == 1
            &&& after.exchanges.len() == 0
            &&& after.encoded == 0
            &&& after.picture.width == spec.width && after.picture.height == spec.height
        },
{
}

/// Every frame that was coded is counted, and no other.
pub proof fn coded_frames_are_counted(
    before: EncoderState,
    f: Frame,
    r: Result<Vec<Sample>, Error>,
    after: EncoderState,
)
    requires
        feed_outcome(before, f, r, after),
        before.encoded < u64::MAX,
    ensures
        r is Ok ==> after.encoded == before.encoded + 1,
        r is Err ==> after.encoded == before.encoded,
        after.fps == before.fps,
        after.bitrate_bps == before.bitrate_bps,
        after.complexity == before.complexity,
        after.cores == before.cores,
{
}

} // verus!
