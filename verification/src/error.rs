//! Why an operation of this crate was refused or failed.

use crate::capture::wgcap::ScreenRect;
use crate::recorder::Rect;
use crate::text::{
    decimal, decimal_string, held_word_stands_between, holds_word, signed_decimal, signed_string,
};
use muxide::api::MuxerError;
use openh264::Error as CodecError;
use vstd::prelude::*;

verus! {

/// The error type of the `openh264` crate, carried through unread.
#[verifier::external_type_specification]
#[verifier::external_body]
pub struct ExCodecError(CodecError);

/// The error type of the `muxide` crate, carried through unread.
#[verifier::external_type_specification]
#[verifier::external_body]
pub struct ExMuxerError(MuxerError);

/// What can go wrong on the way from the screen to the file.
#[derive(Debug)]
pub enum Error {
    /// The pipeline was handed more frames than it can count.
    TooManyFrames,
    /// The encoder produced more samples than can be counted.
    TooManySamples,
    /// Frames per second must be positive.
    ZeroFps,
    /// The virtual screen has no size.
    NoVirtualScreen,
    /// The rectangle does not meet the virtual screen: left, top, width, height.
    OffScreen { rect: Rect, screen: (i32, i32, i32, i32) },
    /// No monitor was found.
    NoMonitors,
    /// The rectangle fits into no single monitor.
    SpansMonitors { rect: Rect },
    /// The rectangle fitted into a monitor once, but does not any more.
    NoLongerContained,
    /// The monitor has no area.
    ZeroSizeMonitor { rect: ScreenRect },
    /// Nothing is left of the region after rounding down to even dimensions.
    EmptyRegion,
    /// The software encoder needs even frame dimensions.
    OddDimensions { width: u32, height: u32 },
    /// The software encoder goes up to 3840x2160.
    ResolutionTooLarge { width: u32, height: u32 },
    /// The keyframe interval for this frame rate does not fit.
    FrameRateTooHigh { fps: u32 },
    /// A frame was fed before the encoder was initialised.
    EncoderNotReady,
    /// A frame has too little data for its dimensions, or no pixel block to encode.
    UnusableFrame { width: u32, height: u32 },
    /// A timestamp is out of the codec's or the container's range.
    TimestampTooLarge { pts_ms: u64 },
    /// The codec library failed.
    Codec(CodecError),
    /// A sample was written, or the file completed, before the muxer was opened.
    MuxerNotOpened,
    /// A sample is larger than the container can hold.
    SampleTooLarge { len: u64 },
    /// The container library failed.
    Container(MuxerError),
    /// A failure reported in words, by a stage outside this crate.
    Message(String),
}

/// Width and height with an `x` between them.
pub open spec fn size_text(w: int, h: int) -> Seq<char> {
    signed_decimal(w) + "x"@ + signed_decimal(h)
}

fn size_string(w: i64, h: i64) -> (r: String)
    ensures
        r@ == size_text(w as int, h as int),
{
    let mut s = signed_string(w);
    s.append("x");
    s.append(signed_string(h).as_str());
    s
}

/// A region in words.
pub open spec fn rect_text(r: Rect) -> Seq<char> {
    "Rect { x: "@ + signed_decimal(r.x as int) + ", y: "@ + signed_decimal(r.y as int) + ", w: "@
        + decimal(r.w as nat) + ", h: "@ + decimal(r.h as nat) + " }"@
}

fn rect_string(r: &Rect) -> (s: String)
    ensures
        s@ == rect_text(*r),
{
    let mut s = "Rect { x: ".to_owned();
    s.append(signed_string(r.x as i64).as_str());
    s.append(", y: ");
    s.append(signed_string(r.y as i64).as_str());
    s.append(", w: ");
    s.append(decimal_string(r.w as u64).as_str());
    s.append(", h: ");
    s.append(decimal_string(r.h as u64).as_str());
    s.append(" }");
    s
}

/// Edges of a monitor in words.
pub open spec fn edges_text(r: ScreenRect) -> Seq<char> {
    "RECT { left: "@ + signed_decimal(r.left as int) + ", top: "@ + signed_decimal(r.top as int)
        + ", right: "@ + signed_decimal(r.right as int) + ", bottom: "@ + signed_decimal(
        r.bottom as int,
    ) + " }"@
}

fn edges_string(r: &ScreenRect) -> (s: String)
    ensures
        s@ == edges_text(*r),
{
    let mut s = "RECT { left: ".to_owned();
    s.append(signed_string(r.left as i64).as_str());
    s.append(", top: ");
    s.append(signed_string(r.top as i64).as_str());
    s.append(", right: ");
    s.append(signed_string(r.right as i64).as_str());
    s.append(", bottom: ");
    s.append(signed_string(r.bottom as i64).as_str());
    s.append(" }");
    s
}

/// An error in words; `None` where an outside library has the words.
pub open spec fn error_text(e: Error) -> Option<Seq<char>> {
    match e {
        Error::TooManyFrames => Some("too many frames to count"@),
        Error::TooManySamples => Some("too many samples to count"@),
        Error::ZeroFps => Some("fps must be > 0"@),
        Error::NoVirtualScreen => Some("virtual screen has no size"@),
        Error::OffScreen { rect, screen } => Some(
            "rect "@ + rect_text(rect) + " does not intersect virtual screen ("@ + signed_decimal(
                screen.0 as int,
            ) + ","@ + signed_decimal(screen.1 as int) + " "@ + size_text(
                screen.2 as int,
                screen.3 as int,
            ) + ")"@,
        ),
        Error::NoMonitors => Some("no monitors found"@),
        Error::SpansMonitors { rect } => Some(
            "rect "@ + rect_text(rect) + " spans multiple monitors; a WGC item is per-monitor"@,
        ),
        Error::NoLongerContained => Some("rect no longer contained in a single monitor"@),
        Error::ZeroSizeMonitor { rect } => Some(
            "monitor "@ + edges_text(rect) + " has zero GDI size"@,
        ),
        Error::EmptyRegion => Some("empty capture region"@),
        Error::OddDimensions { width, height } => Some(
            "openh264 requires even frame dimensions, got "@ + size_text(
                width as int,
                height as int,
            ) + " (area selections are rounded down to even by the native session)"@,
        ),
        Error::ResolutionTooLarge { width, height } => Some(
            "openh264 max resolution is 3840x2160, got "@ + size_text(width as int, height as int),
        ),
        Error::FrameRateTooHigh { fps } => Some(
            "frame rate "@ + decimal(fps as nat) + " is too high"@,
        ),
        Error::EncoderNotReady => Some("init() called before feed()"@),
        Error::UnusableFrame { width, height } => Some(
            "frame of "@ + size_text(width as int, height as int) + " cannot be encoded"@,
        ),
        Error::TimestampTooLarge { pts_ms } => Some(
            "timestamp "@ + decimal(pts_ms as nat) + " ms is out of range"@,
        ),
        Error::MuxerNotOpened => Some("muxer not opened"@),
        Error::SampleTooLarge { len } => Some(
            "sample of "@ + decimal(len as nat) + " bytes is too large"@,
        ),
        Error::Codec(_) => None,
        Error::Container(_) => None,
        Error::Message(text) => Some(text@),
    }
}

fn joined(a: &str, b: &str, c: &str) -> (r: String)
    ensures
        r@ == a@ + b@ + c@,
{
    let mut s = a.to_owned();
    s.append(b);
    s.append(c);
    s
}

/// The text of an optional string.
pub open spec fn message_view(s: Option<String>) -> Option<Seq<char>> {
    match s {
        Some(s) => Some(s@),
        None => None,
    }
}

impl Error {
    /// The error in words; `None` where an outside library has the words.
    pub fn message(&self) -> (r: Option<String>)
        ensures
            message_view(r) == error_text(*self),
    {
        match self {
            Error::TooManyFrames => Some("too many frames to count".to_owned()),
            Error::TooManySamples => Some("too many samples to count".to_owned()),
            Error::ZeroFps => Some("fps must be > 0".to_owned()),
            Error::NoVirtualScreen => Some("virtual screen has no size".to_owned()),
            Error::OffScreen { rect, screen } => {
                let mut s = joined(
                    "rect ",
                    rect_string(rect).as_str(),
                    " does not intersect virtual screen (",
                );
                s.append(signed_string(screen.0 as i64).as_str());
                s.append(",");
                s.append(signed_string(screen.1 as i64).as_str());
                s.append(" ");
                s.append(size_string(screen.2 as i64, screen.3 as i64).as_str());
                s.append(")");
                Some(s)
            },
            Error::NoMonitors => Some("no monitors found".to_owned()),
            Error::SpansMonitors { rect } => Some(
                joined(
                    "rect ",
                    rect_string(rect).as_str(),
                    " spans multiple monitors; a WGC item is per-monitor",
                ),
            ),
            Error::NoLongerContained => Some(
                "rect no longer contained in a single monitor".to_owned(),
            ),
            Error::ZeroSizeMonitor { rect } => Some(
                joined("monitor ", edges_string(rect).as_str(), " has zero GDI size"),
            ),
            Error::EmptyRegion => Some("empty capture region".to_owned()),
            Error::OddDimensions { width, height } => Some(
                joined(
                    "openh264 requires even frame dimensions, got ",
                    size_string(*width as i64, *height as i64).as_str(),
                    " (area selections are rounded down to even by the native session)",
                ),
            ),
            Error::ResolutionTooLarge { width, height } => {
                let mut s = "openh264 max resolution is 3840x2160, got ".to_owned();
                s.append(size_string(*width as i64, *height as i64).as_str());
                Some(s)
            },
            Error::FrameRateTooHigh { fps } => Some(
                joined("frame rate ", decimal_string(*fps as u64).as_str(), " is too high"),
            ),
            Error::EncoderNotReady => Some("init() called before feed()".to_owned()),
            Error::UnusableFrame { width, height } => Some(
                joined(
                    "frame of ",
                    size_string(*width as i64, *height as i64).as_str(),
                    " cannot be encoded",
                ),
            ),
            Error::TimestampTooLarge { pts_ms } => Some(
                joined("timestamp ", decimal_string(*pts_ms).as_str(), " ms is out of range"),
            ),
            Error::MuxerNotOpened => Some("muxer not opened".to_owned()),
            Error::SampleTooLarge { len } => Some(
                joined("sample of ", decimal_string(*len).as_str(), " bytes is too large"),
            ),
            Error::Codec(_) => None,
            Error::Container(_) => None,
            Error::Message(text) => Some(text.clone()),
        }
    }
}

/// An error about a size, a rate, a timestamp or a length says which.
pub proof fn errors_tell_their_numbers(width: u32, height: u32, n: u64)
    ensures
        ({
            let size = decimal(width as nat) + "x"@ + decimal(height as nat);
            &&& holds_word(error_text(Error::OddDimensions { width, height })->0, size)
            &&& holds_word(error_text(Error::ResolutionTooLarge { width, height })->0, size)
            &&& holds_word(error_text(Error::UnusableFrame { width, height })->0, size)
        }),
        holds_word(error_text(Error::FrameRateTooHigh { fps: width })->0, decimal(width as nat)),
        holds_word(error_text(Error::TimestampTooLarge { pts_ms: n })->0, decimal(n as nat)),
        holds_word(error_text(Error::SampleTooLarge { len: n })->0, decimal(n as nat)),
{
    let size = decimal(width as nat) + "x"@ + decimal(height as nat);
    assert(size == size_text(width as int, height as int));
    let a = "openh264 requires even frame dimensions, got "@;
    let b = " (area selections are rounded down to even by the native session)"@;
    lemma_between(a, size, b);
    let c = "openh264 max resolution is 3840x2160, got "@;
    lemma_between(c, size, Seq::empty());
    assert(c + size + Seq::empty() =~= c + size);
    lemma_between("frame of "@, size, " cannot be encoded"@);
    lemma_between("frame rate "@, decimal(width as nat), " is too high"@);
    lemma_between("timestamp "@, decimal(n as nat), " ms is out of range"@);
    lemma_between("sample of "@, decimal(n as nat), " bytes is too large"@);
}

proof fn lemma_between(a: Seq<char>, word: Seq<char>, b: Seq<char>)
    ensures
        holds_word(a + word + b, word),
{
    held_word_stands_between(a + word + b, word);
}

/// An error about a region says which.
pub proof fn errors_tell_their_region(rect: Rect, screen: (i32, i32, i32, i32))
    ensures
        ({
            let told = "x: "@ + signed_decimal(rect.x as int) + ", y: "@ + signed_decimal(
                rect.y as int,
            ) + ", w: "@ + decimal(rect.w as nat) + ", h: "@ + decimal(rect.h as nat);
            &&& holds_word(rect_text(rect), told)
            &&& holds_word(error_text(Error::SpansMonitors { rect })->0, rect_text(rect))
            &&& holds_word(error_text(Error::OffScreen { rect, screen })->0, rect_text(rect))
        }),
{
    let told = "x: "@ + signed_decimal(rect.x as int) + ", y: "@ + signed_decimal(rect.y as int)
        + ", w: "@ + decimal(rect.w as nat) + ", h: "@ + decimal(rect.h as nat);
    reveal_strlit("Rect { x: ");
    reveal_strlit("Rect { ");
    reveal_strlit("x: ");
    assert("Rect { x: "@ =~= "Rect { "@ + "x: "@);
    assert(rect_text(rect) =~= "Rect { "@ + told + " }"@);
    lemma_between("Rect { "@, told, " }"@);
    lemma_between(
        "rect "@,
        rect_text(rect),
        " spans multiple monitors; a WGC item is per-monitor"@,
    );
    let rest = " does not intersect virtual screen ("@ + signed_decimal(screen.0 as int) + ","@
        + signed_decimal(screen.1 as int) + " "@ + size_text(screen.2 as int, screen.3 as int)
        + ")"@;
    assert(error_text(Error::OffScreen { rect, screen })->0 =~= "rect "@ + rect_text(rect) + rest);
    lemma_between("rect "@, rect_text(rect), rest);
}

} // verus!
