//! What is recorded, and with which encoder: presets, capabilities, and the
//! argument list of the external recorder.

use crate::calendar::{
    a_day_has_one_date, civil_from_days, day_from_1970_on, day_number, later_day_has_later_date,
    valid_date, year_has_four_digits,
};
use crate::decode::{decode_lossy, lossy_text};
use crate::settings::Settings;
use crate::text::{
    chars_of, contains_word, decimal, decimal_string, differ_first_at, earlier_part_decides,
    first_visible, first_visible_char, holds_word, integer, line_views, lines,
    other_text_is_no_number, padded, padded_number_reads_back, padded_numbers_sort, padded_string,
    push_str, push_string, rest_decides, signed_decimal, signed_number_reads_back, signed_string,
    split_lines, stands_at, text_before, texts, unsigned, written_number_reads_back,
};
use vstd::prelude::*;

verus! {

/// Encoder choices, `Auto` picks the best available one.
#[derive(Clone, Copy, PartialEq, Eq, Debug, Structural)]
pub enum Encoder {
    Auto,
    Nvenc,
    Qsv,
    Amf,
    X264,
}

/// Quality presets, best first.
#[derive(Clone, Copy, PartialEq, Eq, Debug, Structural)]
pub enum Quality {
    Ultra,
    High,
    Medium,
    Low,
}

impl Encoder {
    /// All choices, in menu order.
    pub const ALL: [Encoder; 5] = [
        Encoder::Auto,
        Encoder::Nvenc,
        Encoder::Qsv,
        Encoder::Amf,
        Encoder::X264,
    ];

    /// What the menu calls it.
    pub fn label(self) -> (r: &'static str)
        ensures
            r@ == encoder_label(self),
    {
        match self {
            Encoder::Auto => "Auto (best available)",
            Encoder::Nvenc => "NVIDIA NVENC (GPU)",
            Encoder::Qsv => "Intel QuickSync (GPU)",
            Encoder::Amf => "AMD AMF (GPU)",
            Encoder::X264 => "CPU x264",
        }
    }
}

/// Menu text of an encoder choice.
pub open spec fn encoder_label(e: Encoder) -> Seq<char> {
    match e {
        Encoder::Auto => "Auto (best available)"@,
        Encoder::Nvenc => "NVIDIA NVENC (GPU)"@,
        Encoder::Qsv => "Intel QuickSync (GPU)"@,
        Encoder::Amf => "AMD AMF (GPU)"@,
        Encoder::X264 => "CPU x264"@,
    }
}

/// Menu text of a quality preset.
pub open spec fn quality_label(q: Quality) -> Seq<char> {
    match q {
        Quality::Ultra => "Ultra"@,
        Quality::High => "High"@,
        Quality::Medium => "Medium"@,
        Quality::Low => "Low"@,
    }
}

/// Constant-quality level of a preset, lower is better.
pub open spec fn cq_of(q: Quality) -> int {
    match q {
        Quality::Ultra => 18,
        Quality::High => 21,
        Quality::Medium => 24,
        Quality::Low => 28,
    }
}

/// Target bitrate of a preset, in megabits per second.
pub open spec fn bitrate_of(q: Quality) -> int {
    match q {
        Quality::Ultra => 80,
        Quality::High => 50,
        Quality::Medium => 30,
        Quality::Low => 15,
    }
}

/// Speed preset of the CPU encoder.
pub open spec fn x264_preset_of(q: Quality) -> Seq<char> {
    match q {
        Quality::Ultra => "slow"@,
        Quality::High => "medium"@,
        Quality::Medium => "veryfast"@,
        Quality::Low => "ultrafast"@,
    }
}

/// Place of a preset, best first.
pub open spec fn grade(q: Quality) -> int {
    match q {
        Quality::Ultra => 0,
        Quality::High => 1,
        Quality::Medium => 2,
        Quality::Low => 3,
    }
}

/// A better preset has a higher bitrate and a lower constant-quality level.
pub proof fn better_preset_spends_more(a: Quality, b: Quality)
    requires
        grade(a) < grade(b),
    ensures
        bitrate_of(a) > bitrate_of(b),
        cq_of(a) < cq_of(b),
{
}

impl Quality {
    /// All presets, best first.
    pub const ALL: [Quality; 4] = [
        Quality::Ultra,
        Quality::High,
        Quality::Medium,
        Quality::Low,
    ];

    /// What the menu calls it.
    pub fn label(self) -> (r: &'static str)
        ensures
            r@ == quality_label(self),
    {
        match self {
            Quality::Ultra => "Ultra",
            Quality::High => "High",
            Quality::Medium => "Medium",
            Quality::Low => "Low",
        }
    }

    /// Constant-quality level, lower is better.
    pub fn cq(self) -> (r: i32)
        ensures
            r == cq_of(self),
    {
        match self {
            Quality::Ultra => 18,
            Quality::High => 21,
            Quality::Medium => 24,
            Quality::Low => 28,
        }
    }

    /// Target bitrate in megabits per second.
    pub fn bitrate_mbps(self) -> (r: u32)
        ensures
            r == bitrate_of(self),
    {
        match self {
            Quality::Ultra => 80,
            Quality::High => 50,
            Quality::Medium => 30,
            Quality::Low => 15,
        }
    }

    /// Speed preset of the CPU encoder.
    pub fn x264_preset(self) -> (r: &'static str)
        ensures
            r@ == x264_preset_of(self),
    {
        match self {
            Quality::Ultra => "slow",
            Quality::High => "medium",
            Quality::Medium => "veryfast",
            Quality::Low => "ultrafast",
        }
    }
}

/// What the external recorder can do on this machine.
#[derive(Clone, Debug)]
pub struct Capabilities {
    /// Usable encoders, most wanted first.
    pub encoders: Vec<Encoder>,
    /// The GPU desktop grabber is there.
    pub ddagrab: bool,
}

impl Default for Capabilities {
    fn default() -> (r: Capabilities)
        ensures
            r.encoders@.len() == 0,
            !r.ddagrab,
    {
        Capabilities { encoders: Vec::new(), ddagrab: false }
    }
}

/// A rectangle in screen coordinates: the primary monitor's origin is `(0, 0)`,
/// monitors left of or above it have negative coordinates.
#[derive(Clone, Copy, PartialEq, Eq, Debug, Structural)]
pub struct Rect {
    pub x: i32,
    pub y: i32,
    pub w: u32,
    pub h: u32,
}

/// What is recorded.
#[derive(Clone, Copy, PartialEq, Eq, Debug, Structural)]
pub enum Mode {
    FullScreen,
    Area(Rect),
}

/// Rank of an encoder, most wanted first.
pub open spec fn rank(e: Encoder) -> int {
    match e {
        Encoder::Nvenc => 0,
        Encoder::Qsv => 1,
        Encoder::Amf => 2,
        _ => 3,
    }
}

/// Computes [`rank`].
pub fn encoder_priority(e: Encoder) -> (r: usize)
    ensures
        r == rank(e),
{
    match e {
        Encoder::Nvenc => 0,
        Encoder::Qsv => 1,
        Encoder::Amf => 2,
        _ => 3,
    }
}

/// Name of a hardware encoder, `None` for the others.
pub fn encoder_name(e: Encoder) -> (r: Option<&'static str>)
    ensures
        e is Nvenc ==> r is Some && r->0@ == "h264_nvenc"@,
        e is Qsv ==> r is Some && r->0@ == "h264_qsv"@,
        e is Amf ==> r is Some && r->0@ == "h264_amf"@,
        e is Auto || e is X264 ==> r is None,
{
    match e {
        Encoder::Nvenc => Some("h264_nvenc"),
        Encoder::Qsv => Some("h264_qsv"),
        Encoder::Amf => Some("h264_amf"),
        _ => None,
    }
}

/// The name under which the external recorder knows a hardware encoder.
pub open spec fn hardware_name(e: Encoder) -> Seq<char> {
    match e {
        Encoder::Nvenc => "h264_nvenc"@,
        Encoder::Qsv => "h264_qsv"@,
        _ => "h264_amf"@,
    }
}

/// Arguments that encode a moment of black with `name`.
pub open spec fn probe_line(name: Seq<char>) -> Seq<Seq<char>> {
    seq![
        "-hide_banner"@,
        "-loglevel"@,
        "quiet"@,
        "-f"@,
        "lavfi"@,
        "-i"@,
        "color=c=black:s=320x240:r=10:d=0.2"@,
        "-frames:v"@,
        "3"@,
        "-c:v"@,
        name,
        "-f"@,
        "null"@,
        "-"@,
    ]
}

/// Arguments for a trial run with a hardware encoder; `None` where an encoder is
/// usable without one.
pub fn probe_args(e: Encoder) -> (r: Option<Vec<String>>)
    ensures
        r is Some == (e is Nvenc || e is Qsv || e is Amf),
        r matches Some(args) ==> texts(args@) == probe_line(hardware_name(e)),
{
    match encoder_name(e) {
        None => None,
        Some(name) => {
            let mut args: Vec<String> = Vec::new();
            push_str(&mut args, "-hide_banner");
            push_str(&mut args, "-loglevel");
            push_str(&mut args, "quiet");
            push_str(&mut args, "-f");
            push_str(&mut args, "lavfi");
            push_str(&mut args, "-i");
            push_str(&mut args, "color=c=black:s=320x240:r=10:d=0.2");
            push_str(&mut args, "-frames:v");
            push_str(&mut args, "3");
            push_str(&mut args, "-c:v");
            push_str(&mut args, name);
            push_str(&mut args, "-f");
            push_str(&mut args, "null");
            push_str(&mut args, "-");
            assert(texts(args@) =~= probe_line(name@));
            Some(args)
        },
    }
}

/// The encoders known after one more line of the encoder listing: audio and
/// video lines count, and a line adds at most one encoder that was not known.
pub open spec fn noted(line: Seq<char>, known: Seq<Encoder>) -> Seq<Encoder> {
    let mark = first_visible(line);
    if mark != Some('A') && mark != Some('V') {
        known
    } else if holds_word(line, "h264_nvenc"@) && !known.contains(Encoder::Nvenc) {
        known.push(Encoder::Nvenc)
    } else if holds_word(line, "h264_qsv"@) && !known.contains(Encoder::Qsv) {
        known.push(Encoder::Qsv)
    } else if holds_word(line, "h264_amf"@) && !known.contains(Encoder::Amf) {
        known.push(Encoder::Amf)
    } else if holds_word(line, "libx264"@) && !known.contains(Encoder::X264) {
        known.push(Encoder::X264)
    } else {
        known
    }
}

/// The encoders that a list of lines names, in order of appearance.
pub open spec fn listed(lines: Seq<Seq<char>>) -> Seq<Encoder>
    decreases lines.len(),
{
    if lines.len() == 0 {
        Seq::empty()
    } else {
        noted(lines.last(), listed(lines.drop_last()))
    }
}

fn knows(known: &Vec<Encoder>, e: Encoder) -> (r: bool)
    ensures
        r == known@.contains(e),
{
    let mut i: usize = 0;
    while i < known.len()
        invariant
            i <= known@.len(),
            forall|j: int| 0 <= j < i ==> known@[j] != e,
        decreases known@.len() - i,
    {
        if known[i] == e {
            return true;
        }
        i = i + 1;
    }
    false
}

/// Notes one line of the encoder listing.
fn note_line(line: &Vec<char>, known: &mut Vec<Encoder>)
    ensures
        final(known)@ == noted(line@, old(known)@),
{
    let counts: bool = match first_visible_char(line) {
        Some(c) => c == 'A' || c == 'V',
        None => false,
    };
    if !counts {
        return;
    }
    if contains_word(line, "h264_nvenc") && !knows(known, Encoder::Nvenc) {
        known.push(Encoder::Nvenc);
    } else if contains_word(line, "h264_qsv") && !knows(known, Encoder::Qsv) {
        known.push(Encoder::Qsv);
    } else if contains_word(line, "h264_amf") && !knows(known, Encoder::Amf) {
        known.push(Encoder::Amf);
    } else if contains_word(line, "libx264") && !knows(known, Encoder::X264) {
        known.push(Encoder::X264);
    }
}

/// Those of `list` with rank `k`, in order.
pub open spec fn ranked_at(list: Seq<Encoder>, k: int) -> Seq<Encoder> {
    list.filter(|e: Encoder| rank(e) == k)
}

/// `list` sorted by rank, equal ranks in the order they had.
pub open spec fn by_rank(list: Seq<Encoder>) -> Seq<Encoder> {
    ranked_at(list, 0) + ranked_at(list, 1) + ranked_at(list, 2) + ranked_at(list, 3)
}

fn append_rank(list: &Vec<Encoder>, k: usize, out: &mut Vec<Encoder>)
    ensures
        final(out)@ == old(out)@ + ranked_at(list@, k as int),
{
    let mut i: usize = 0;
    assert(list@.take(0) =~= Seq::empty());
    assert(ranked_at(Seq::empty(), k as int) =~= Seq::empty()) by {
        reveal(Seq::filter);
    }
    assert(out@ =~= old(out)@ + ranked_at(list@.take(0), k as int));
    while i < list.len()
        invariant
            i <= list@.len(),
            out@ == old(out)@ + ranked_at(list@.take(i as int), k as int),
        decreases list@.len() - i,
    {
        proof {
            reveal(Seq::filter);
            assert(list@.take(i + 1).drop_last() =~= list@.take(i as int));
        }
        if encoder_priority(list[i]) == k {
            out.push(list[i]);
        }
        assert(out@ =~= old(out)@ + ranked_at(list@.take(i + 1), k as int));
        i = i + 1;
    }
    assert(list@.take(i as int) =~= list@);
}

/// The encoders that the listing of the external recorder names, most wanted
/// first.
pub fn candidates(listing: &str) -> (r: Vec<Encoder>)
    ensures
        r@ == by_rank(listed(lines(listing@))),
{
    let all = split_lines(listing);
    let mut known: Vec<Encoder> = Vec::new();
    let mut i: usize = 0;
    assert(line_views(all@).take(0) =~= Seq::empty());
    while i < all.len()
        invariant
            i <= all@.len(),
            known@ == listed(line_views(all@).take(i as int)),
        decreases all@.len() - i,
    {
        proof {
            let part = line_views(all@).take(i + 1);
            assert(part.drop_last() =~= line_views(all@).take(i as int));
            assert(part.last() == all@[i as int]@);
        }
        note_line(&all[i], &mut known);
        i = i + 1;
    }
    assert(line_views(all@).take(i as int) =~= line_views(all@));
    let mut out: Vec<Encoder> = Vec::new();
    append_rank(&known, 0, &mut out);
    append_rank(&known, 1, &mut out);
    append_rank(&known, 2, &mut out);
    append_rank(&known, 3, &mut out);
    assert(out@ =~= by_rank(known@));
    out
}

/// The encoders that the listing, as the external recorder wrote it out, names.
pub fn candidates_in(listing: &[u8]) -> (r: Vec<Encoder>)
    ensures
        r@ == by_rank(listed(lines(lossy_text(listing@)))),
{
    let text = decode_lossy(listing);
    candidates(text.as_str())
}

/// Those of `list` whose verdict is good, in order.
pub open spec fn approved(list: Seq<Encoder>, verdicts: Seq<bool>) -> Seq<Encoder>
    decreases list.len(),
{
    if list.len() == 0 {
        Seq::empty()
    } else if verdicts[list.len() - 1] {
        approved(list.drop_last(), verdicts).push(list.last())
    } else {
        approved(list.drop_last(), verdicts)
    }
}

/// Puts together what the machine can do: the candidates that passed their trial
/// run, and whether the filter listing names the GPU desktop grabber.
pub fn detect(candidates: &Vec<Encoder>, verdicts: &Vec<bool>, filters: &str) -> (r: Capabilities)
    requires
        verdicts@.len() >= candidates@.len(),
    ensures
        r.encoders@ == approved(candidates@, verdicts@),
        r.ddagrab == holds_word(filters@, "ddagrab"@),
{
    let mut encoders: Vec<Encoder> = Vec::new();
    let mut i: usize = 0;
    assert(candidates@.take(0) =~= Seq::empty());
    while i < candidates.len()
        invariant
            i <= candidates@.len(),
            verdicts@.len() >= candidates@.len(),
            encoders@ == approved(candidates@.take(i as int), verdicts@),
        decreases candidates@.len() - i,
    {
        assert(candidates@.take(i + 1).drop_last() =~= candidates@.take(i as int));
        if verdicts[i] {
            encoders.push(candidates[i]);
        }
        i = i + 1;
    }
    assert(candidates@.take(i as int) =~= candidates@);
    let ddagrab: bool = contains_word(&chars_of(filters), "ddagrab");
    Capabilities { encoders, ddagrab }
}

/// What the machine can do, with the filter listing as the external recorder wrote
/// it out.
pub fn detect_in(candidates: &Vec<Encoder>, verdicts: &Vec<bool>, filters: &[u8]) -> (r:
    Capabilities)
    requires
        verdicts@.len() >= candidates@.len(),
    ensures
        r.encoders@ == approved(candidates@, verdicts@),
        r.ddagrab == holds_word(lossy_text(filters@), "ddagrab"@),
{
    let text = decode_lossy(filters);
    detect(candidates, verdicts, text.as_str())
}

/// The encoder to record with: the first usable one for `Auto`, the wanted one
/// if it is usable, else none.
pub fn resolve_encoder(pref: Encoder, caps: &Capabilities) -> (r: Option<Encoder>)
    ensures
        pref is Auto ==> r == (if caps.encoders@.len() == 0 {
            None
        } else {
            Some(caps.encoders@[0])
        }),
        !(pref is Auto) ==> r == (if caps.encoders@.contains(pref) {
            Some(pref)
        } else {
            None
        }),
{
    if pref == Encoder::Auto {
        if caps.encoders.len() == 0 {
            None
        } else {
            Some(caps.encoders[0])
        }
    } else if knows(&caps.encoders, pref) {
        Some(pref)
    } else {
        None
    }
}

/// No encoder ranks better than one before it.
pub open spec fn in_rank_order(list: Seq<Encoder>) -> bool {
    forall|i: int, j: int| 0 <= i < j < list.len() ==> rank(#[trigger] list[i]) <= rank(
        #[trigger] list[j],
    )
}

/// The listing names no encoder twice, however often it occurs in it.
pub proof fn listing_names_each_encoder_once(lines: Seq<Seq<char>>)
    ensures
        listed(lines).no_duplicates(),
    decreases lines.len(),
{
    if lines.len() > 0 {
        listing_names_each_encoder_once(lines.drop_last());
    }
}

proof fn lemma_by_rank_in_order(list: Seq<Encoder>)
    ensures
        in_rank_order(by_rank(list)),
{
    assert forall|k: int, i: int| 0 <= i < ranked_at(list, k).len() implies rank(
        #[trigger] ranked_at(list, k)[i],
    ) == k by {
        list.lemma_filter_pred(|e: Encoder| rank(e) == k, i);
    }
}

proof fn lemma_approved_in_order(list: Seq<Encoder>, verdicts: Seq<bool>)
    requires
        in_rank_order(list),
    ensures
        in_rank_order(approved(list, verdicts)),
        forall|i: int|
            0 <= i < approved(list, verdicts).len() ==> rank(
                #[trigger] approved(list, verdicts)[i],
            ) <= rank(list.last()),
    decreases list.len(),
{
    if list.len() > 0 {
        let rest = list.drop_last();
        lemma_approved_in_order(rest, verdicts);
        if rest.len() > 0 {
            assert(rank(list[rest.len() - 1]) <= rank(list[rest.len() as int]));
        }
    }
}

/// The automatic choice is the most wanted of the usable encoders: none of them
/// ranks better than the first.
pub proof fn automatic_choice_is_most_wanted(lines: Seq<Seq<char>>, verdicts: Seq<bool>, i: int)
    requires
        0 <= i < approved(by_rank(listed(lines)), verdicts).len(),
    ensures
        rank(approved(by_rank(listed(lines)), verdicts)[0]) <= rank(
            approved(by_rank(listed(lines)), verdicts)[i],
        ),
{
    lemma_by_rank_in_order(listed(lines));
    lemma_approved_in_order(by_rank(listed(lines)), verdicts);
}

/// No encoder is offered that did not pass its trial run.
pub proof fn offered_encoder_passed_its_trial(
    list: Seq<Encoder>,
    verdicts: Seq<bool>,
    e: Encoder,
)
    requires
        approved(list, verdicts).contains(e),
    ensures
        exists|i: int| 0 <= i < list.len() && #[trigger] list[i] == e && verdicts[i],
    decreases list.len(),
{
    let last = list.len() - 1;
    if list.len() > 0 {
        let before = list.drop_last();
        if verdicts[last] && list[last] == e {
            assert(list[last] == e && verdicts[last]);
        } else {
            let k = choose|k: int|
                0 <= k < approved(list, verdicts).len() && approved(list, verdicts)[k] == e;
            assert(approved(before, verdicts)[k] == e);
            offered_encoder_passed_its_trial(before, verdicts, e);
            let i = choose|i: int| 0 <= i < before.len() && #[trigger] before[i] == e && verdicts[i];
            assert(list[i] == e && verdicts[i]);
        }
    }
}

/// A bitrate argument: megabits per second.
pub open spec fn megabits(n: int) -> Seq<char> {
    decimal(n as nat).push('M')
}

/// Writes a bitrate argument.
fn megabits_string(n: u32) -> (r: String)
    ensures
        r@ == megabits(n as int),
{
    let mut s = decimal_string(n as u64);
    s.append("M");
    proof {
        reveal_strlit("M");
    }
    assert(s@ =~= megabits(n as int));
    s
}

/// NVENC arguments: constant bitrate of at least 60 megabits and no delay in
/// performance mode, else constant quality capped at the preset's bitrate.
pub open spec fn nvenc_line(q: Quality, perf: bool) -> Seq<Seq<char>> {
    let floor = if bitrate_of(q) < 60 {
        60
    } else {
        bitrate_of(q)
    };
    seq!["-c:v"@, "h264_nvenc"@] + (if perf {
        seq![
            "-preset"@,
            "p1"@,
            "-tune"@,
            "ll"@,
            "-rc"@,
            "cbr"@,
            "-delay"@,
            "0"@,
            "-b:v"@,
            megabits(floor),
            "-bufsize"@,
            megabits(2 * floor),
        ]
    } else {
        seq![
            "-preset"@,
            "p5"@,
            "-tune"@,
            "hq"@,
            "-rc"@,
            "vbr"@,
            "-cq"@,
            decimal(cq_of(q) as nat),
            "-b:v"@,
            "0"@,
            "-maxrate"@,
            megabits(bitrate_of(q)),
            "-bufsize"@,
            megabits(2 * bitrate_of(q)),
        ]
    }) + seq!["-profile:v"@, "high"@]
}

/// QuickSync arguments.
pub open spec fn qsv_line(q: Quality, perf: bool) -> Seq<Seq<char>> {
    if perf {
        seq!["-c:v"@, "h264_qsv"@, "-preset"@, "veryfast"@, "-b:v"@, megabits(bitrate_of(q))]
    } else {
        seq![
            "-c:v"@,
            "h264_qsv"@,
            "-preset"@,
            "medium"@,
            "-global_quality"@,
            decimal(cq_of(q) as nat),
        ]
    }
}

/// AMF arguments.
pub open spec fn amf_line(q: Quality, perf: bool) -> Seq<Seq<char>> {
    seq!["-c:v"@, "h264_amf"@] + (if perf {
        seq!["-quality"@, "speed"@, "-rc"@, "cbr"@]
    } else {
        seq!["-quality"@, "balanced"@, "-rc"@, "vbr_peak"@]
    }) + seq!["-b:v"@, megabits(bitrate_of(q))]
}

/// CPU encoder arguments; a thread count of zero leaves the choice to it.
pub open spec fn x264_line(q: Quality, perf: bool, threads: u32) -> Seq<Seq<char>> {
    seq![
        "-c:v"@,
        "libx264"@,
        "-preset"@,
        if perf {
            "ultrafast"@
        } else {
            x264_preset_of(q)
        },
        "-crf"@,
        decimal(cq_of(q) as nat),
    ] + (if threads > 0 {
        seq!["-threads"@, decimal(threads as nat)]
    } else {
        Seq::empty()
    }) + seq!["-pix_fmt"@, "yuv420p"@]
}

fn nvenc_args(q: Quality, perf: bool, out: &mut Vec<String>)
    ensures
        texts(final(out)@) == texts(old(out)@) + nvenc_line(q, perf),
{
    push_str(out, "-c:v");
    push_str(out, "h264_nvenc");
    if perf {
        push_str(out, "-preset");
        push_str(out, "p1");
        push_str(out, "-tune");
        push_str(out, "ll");
        push_str(out, "-rc");
        push_str(out, "cbr");
        push_str(out, "-delay");
        push_str(out, "0");
        let mbps: u32 = q.bitrate_mbps();
        let mbps: u32 = if mbps < 60 {
            60
        } else {
            mbps
        };
        push_str(out, "-b:v");
        push_string(out, megabits_string(mbps));
        push_str(out, "-bufsize");
        push_string(out, megabits_string(2 * mbps));
    } else {
        push_str(out, "-preset");
        push_str(out, "p5");
        push_str(out, "-tune");
        push_str(out, "hq");
        push_str(out, "-rc");
        push_str(out, "vbr");
        push_str(out, "-cq");
        push_string(out, decimal_string(q.cq() as u64));
        push_str(out, "-b:v");
        push_str(out, "0");
        push_str(out, "-maxrate");
        push_string(out, megabits_string(q.bitrate_mbps()));
        push_str(out, "-bufsize");
        push_string(out, megabits_string(2 * q.bitrate_mbps()));
    }
    push_str(out, "-profile:v");
    push_str(out, "high");
    assert(texts(out@) =~= texts(old(out)@) + nvenc_line(q, perf));
}

fn qsv_args(q: Quality, perf: bool, out: &mut Vec<String>)
    ensures
        texts(final(out)@) == texts(old(out)@) + qsv_line(q, perf),
{
    push_str(out, "-c:v");
    push_str(out, "h264_qsv");
    if perf {
        push_str(out, "-preset");
        push_str(out, "veryfast");
        push_str(out, "-b:v");
        push_string(out, megabits_string(q.bitrate_mbps()));
    } else {
        push_str(out, "-preset");
        push_str(out, "medium");
        push_str(out, "-global_quality");
        push_string(out, decimal_string(q.cq() as u64));
    }
    assert(texts(out@) =~= texts(old(out)@) + qsv_line(q, perf));
}

fn amf_args(q: Quality, perf: bool, out: &mut Vec<String>)
    ensures
        texts(final(out)@) == texts(old(out)@) + amf_line(q, perf),
{
    push_str(out, "-c:v");
    push_str(out, "h264_amf");
    if perf {
        push_str(out, "-quality");
        push_str(out, "speed");
        push_str(out, "-rc");
        push_str(out, "cbr");
    } else {
        push_str(out, "-quality");
        push_str(out, "balanced");
        push_str(out, "-rc");
        push_str(out, "vbr_peak");
    }
    push_str(out, "-b:v");
    push_string(out, megabits_string(q.bitrate_mbps()));
    assert(texts(out@) =~= texts(old(out)@) + amf_line(q, perf));
}

fn x264_args(q: Quality, perf: bool, threads: u32, out: &mut Vec<String>)
    ensures
        texts(final(out)@) == texts(old(out)@) + x264_line(q, perf, threads),
{
    push_str(out, "-c:v");
    push_str(out, "libx264");
    push_str(out, "-preset");
    if perf {
        push_str(out, "ultrafast");
    } else {
        push_str(out, q.x264_preset());
    }
    push_str(out, "-crf");
    push_string(out, decimal_string(q.cq() as u64));
    if threads > 0 {
        push_str(out, "-threads");
        push_string(out, decimal_string(threads as u64));
    }
    push_str(out, "-pix_fmt");
    push_str(out, "yuv420p");
    assert(texts(out@) =~= texts(old(out)@) + x264_line(q, perf, threads));
}

/// `1` for yes, `0` for no.
pub open spec fn flag(b: bool) -> Seq<char> {
    if b {
        "1"@
    } else {
        "0"@
    }
}

fn flag_str(b: bool) -> (r: &'static str)
    ensures
        r@ == flag(b),
{
    if b {
        "1"
    } else {
        "0"
    }
}

/// The desktop is grabbed on the GPU: for the whole screen, with NVENC, where
/// the grabber is there.
pub open spec fn gpu_grab(mode: Mode, encoder: Encoder, ddagrab: bool) -> bool {
    mode is FullScreen && encoder is Nvenc && ddagrab
}

/// The filter that grabs the desktop on the GPU.
pub open spec fn gpu_filter(fps: u32, mouse: bool) -> Seq<char> {
    "ddagrab=output_idx=0:framerate="@ + decimal(fps as nat) + ":draw_mouse="@ + flag(mouse)
}

/// Position and size arguments; none for the whole screen.
pub open spec fn region_line(mode: Mode) -> Seq<Seq<char>> {
    match mode {
        Mode::FullScreen => Seq::empty(),
        Mode::Area(r) => seq![
            "-offset_x"@,
            signed_decimal(r.x as int),
            "-offset_y"@,
            signed_decimal(r.y as int),
            "-video_size"@,
            decimal(r.w as nat).push('x') + decimal(r.h as nat),
        ],
    }
}

/// Arguments that grab the desktop on the CPU.
pub open spec fn grab_line(fps: u32, mouse: bool, mode: Mode) -> Seq<Seq<char>> {
    seq!["-f"@, "gdigrab"@, "-framerate"@, decimal(fps as nat), "-draw_mouse"@, flag(mouse)]
        + region_line(mode) + seq!["-i"@, "desktop"@]
}

/// Arguments of an encoder.
pub open spec fn encoder_line(encoder: Encoder, s: Settings) -> Seq<Seq<char>> {
    match encoder {
        Encoder::Nvenc => nvenc_line(s.quality, s.performance_mode),
        Encoder::Qsv => qsv_line(s.quality, s.performance_mode),
        Encoder::Amf => amf_line(s.quality, s.performance_mode),
        _ => x264_line(s.quality, s.performance_mode, s.cpu_threads),
    }
}

/// Pixel format for the encoders that do not name it themselves.
pub open spec fn format_line(encoder: Encoder) -> Seq<Seq<char>> {
    if encoder is X264 {
        Seq::empty()
    } else {
        seq!["-pix_fmt"@, "yuv420p"@]
    }
}

/// The argument list of the external recorder.
pub open spec fn recorder_line(
    s: Settings,
    ddagrab: bool,
    mode: Mode,
    encoder: Encoder,
    out_path: Seq<char>,
) -> Seq<Seq<char>> {
    head_line() + (if gpu_grab(mode, encoder, ddagrab) {
        gpu_line(s)
    } else {
        cpu_line(s, mode, encoder)
    }) + tail_line(out_path)
}

/// What every argument list begins with.
pub open spec fn head_line() -> Seq<Seq<char>> {
    seq!["-y"@, "-hide_banner"@, "-loglevel"@, "warning"@]
}

/// What every argument list ends with.
pub open spec fn tail_line(out_path: Seq<char>) -> Seq<Seq<char>> {
    seq!["-movflags"@, "+faststart"@, out_path]
}

/// Grabbing and encoding on the GPU.
pub open spec fn gpu_line(s: Settings) -> Seq<Seq<char>> {
    seq!["-filter_complex"@, gpu_filter(s.fps, s.capture_mouse)] + nvenc_line(
        s.quality,
        s.performance_mode,
    )
}

/// Grabbing on the CPU, then encoding.
pub open spec fn cpu_line(s: Settings, mode: Mode, encoder: Encoder) -> Seq<Seq<char>> {
    grab_line(s.fps, s.capture_mouse, mode) + encoder_line(encoder, s) + format_line(encoder)
}

proof fn lemma_join(a: Seq<Seq<char>>, b: Seq<Seq<char>>, c: Seq<Seq<char>>)
    ensures
        (a + b) + c == a + (b + c),
{
    assert((a + b) + c =~= a + (b + c));
}

fn gpu_args(settings: &Settings, args: &mut Vec<String>)
    ensures
        texts(final(args)@) == texts(old(args)@) + gpu_line(*settings),
{
    push_str(args, "-filter_complex");
    let mut filter = "ddagrab=output_idx=0:framerate=".to_owned();
    filter.append(decimal_string(settings.fps as u64).as_str());
    filter.append(":draw_mouse=");
    filter.append(flag_str(settings.capture_mouse));
    push_string(args, filter);
    let ghost first = seq!["-filter_complex"@, gpu_filter(settings.fps, settings.capture_mouse)];
    assert(texts(args@) =~= texts(old(args)@) + first);
    nvenc_args(settings.quality, settings.performance_mode, args);
    proof {
        lemma_join(
            texts(old(args)@),
            first,
            nvenc_line(settings.quality, settings.performance_mode),
        );
    }
}

fn encoder_args(settings: &Settings, encoder: Encoder, args: &mut Vec<String>)
    ensures
        texts(final(args)@) == texts(old(args)@) + encoder_line(encoder, *settings),
{
    let q = settings.quality;
    let perf: bool = settings.performance_mode;
    match encoder {
        Encoder::Nvenc => nvenc_args(q, perf, args),
        Encoder::Qsv => qsv_args(q, perf, args),
        Encoder::Amf => amf_args(q, perf, args),
        _ => x264_args(q, perf, settings.cpu_threads, args),
    }
}

fn format_args_for(encoder: Encoder, args: &mut Vec<String>)
    ensures
        texts(final(args)@) == texts(old(args)@) + format_line(encoder),
{
    if encoder != Encoder::X264 {
        push_str(args, "-pix_fmt");
        push_str(args, "yuv420p");
    }
    assert(texts(args@) =~= texts(old(args)@) + format_line(encoder));
}

fn cpu_args(settings: &Settings, mode: Mode, encoder: Encoder, args: &mut Vec<String>)
    ensures
        texts(final(args)@) == texts(old(args)@) + cpu_line(*settings, mode, encoder),
{
    let ghost before = texts(args@);
    let ghost grab = grab_line(settings.fps, settings.capture_mouse, mode);
    grab_args(settings.fps, settings.capture_mouse, mode, args);
    encoder_args(settings, encoder, args);
    format_args_for(encoder, args);
    proof {
        lemma_join(before, grab, encoder_line(encoder, *settings));
        lemma_join(before, grab + encoder_line(encoder, *settings), format_line(encoder));
    }
}

fn region_args(r: Rect, args: &mut Vec<String>)
    ensures
        texts(final(args)@) == texts(old(args)@) + region_line(Mode::Area(r)),
{
    push_str(args, "-offset_x");
    push_string(args, signed_string(r.x as i64));
    push_str(args, "-offset_y");
    push_string(args, signed_string(r.y as i64));
    push_str(args, "-video_size");
    let mut size = decimal_string(r.w as u64);
    size.append("x");
    proof {
        reveal_strlit("x");
    }
    assert(size@ =~= decimal(r.w as nat).push('x'));
    size.append(decimal_string(r.h as u64).as_str());
    push_string(args, size);
    assert(texts(args@) =~= texts(old(args)@) + region_line(Mode::Area(r)));
}

fn grab_args(fps: u32, mouse: bool, mode: Mode, args: &mut Vec<String>)
    ensures
        texts(final(args)@) == texts(old(args)@) + grab_line(fps, mouse, mode),
{
    push_str(args, "-f");
    push_str(args, "gdigrab");
    push_str(args, "-framerate");
    push_string(args, decimal_string(fps as u64));
    push_str(args, "-draw_mouse");
    push_str(args, flag_str(mouse));
    if let Mode::Area(r) = mode {
        region_args(r, args);
    }
    push_str(args, "-i");
    push_str(args, "desktop");
    assert(texts(args@) =~= texts(old(args)@) + grab_line(fps, mouse, mode));
}

/// Builds the argument list of the external recorder; nothing is started.
pub fn build_args(
    settings: &Settings,
    caps: &Capabilities,
    mode: Mode,
    encoder: Encoder,
    out_path: &str,
) -> (r: Vec<String>)
    ensures
        texts(r@) == recorder_line(*settings, caps.ddagrab, mode, encoder, out_path@),
{
    let mut args: Vec<String> = Vec::new();
    push_str(&mut args, "-y");
    push_str(&mut args, "-hide_banner");
    push_str(&mut args, "-loglevel");
    push_str(&mut args, "warning");
    assert(texts(args@) =~= head_line());
    if mode == Mode::FullScreen && encoder == Encoder::Nvenc && caps.ddagrab {
        gpu_args(settings, &mut args);
    } else {
        cpu_args(settings, mode, encoder, &mut args);
    }
    let ghost body = texts(args@);
    push_str(&mut args, "-movflags");
    push_str(&mut args, "+faststart");
    push_str(&mut args, out_path);
    assert(texts(args@) =~= body + tail_line(out_path@));
    args
}

/// The output path comes last, behind the option that puts the index first.
pub proof fn output_path_comes_last(
    s: Settings,
    ddagrab: bool,
    mode: Mode,
    encoder: Encoder,
    out_path: Seq<char>,
)
    ensures
        ({
            let line = recorder_line(s, ddagrab, mode, encoder, out_path);
            &&& line.len() >= 3
            &&& line.last() == out_path
            &&& line[line.len() - 2] == "+faststart"@
            &&& line[line.len() - 3] == "-movflags"@
        }),
{
}

/// The GPU grabber is asked for exactly where it is to be used; else the desktop
/// is grabbed on the CPU.
pub proof fn grabber_is_named_first(
    s: Settings,
    ddagrab: bool,
    mode: Mode,
    encoder: Encoder,
    out_path: Seq<char>,
)
    ensures
        ({
            let line = recorder_line(s, ddagrab, mode, encoder, out_path);
            &&& line[4] == "-filter_complex"@ <==> gpu_grab(mode, encoder, ddagrab)
            &&& line[4] == "-f"@ && line[5] == "gdigrab"@ <==> !gpu_grab(mode, encoder, ddagrab)
        }),
{
    reveal_strlit("-filter_complex");
    reveal_strlit("-f");
    assert("-filter_complex"@.len() == 15);
    assert("-f"@.len() == 2);
}

/// A word as a shell would take it: in quotation marks if it holds a space.
pub open spec fn shell_word(word: Seq<char>) -> Seq<char> {
    if word.contains(' ') {
        seq!['"'] + word + seq!['"']
    } else {
        word
    }
}

/// Words with a space between each two.
pub open spec fn shell_line(words: Seq<Seq<char>>) -> Seq<char>
    decreases words.len(),
{
    if words.len() == 0 {
        Seq::empty()
    } else if words.len() == 1 {
        shell_word(words[0])
    } else {
        shell_line(words.drop_last()) + seq![' '] + shell_word(words.last())
    }
}

fn has_space(word: &str) -> (r: bool)
    ensures
        r == word@.contains(' '),
{
    let letters = chars_of(word);
    let mut i: usize = 0;
    while i < letters.len()
        invariant
            letters@ == word@,
            i <= letters@.len(),
            forall|j: int| 0 <= j < i ==> letters@[j] != ' ',
        decreases letters@.len() - i,
    {
        if letters[i] == ' ' {
            return true;
        }
        i = i + 1;
    }
    false
}

/// Writes an argument list the way it would be typed.
pub fn shell_words_join(args: &Vec<String>) -> (r: String)
    ensures
        r@ == shell_line(texts(args@)),
{
    let mut out = String::new();
    let mut i: usize = 0;
    assert(texts(args@).take(0) =~= Seq::empty());
    assert(out@ =~= Seq::empty());
    while i < args.len()
        invariant
            i <= args@.len(),
            out@ == shell_line(texts(args@).take(i as int)),
        decreases args@.len() - i,
    {
        proof {
            reveal_strlit(" ");
            reveal_strlit("\"");
            assert(texts(args@).take(i + 1).drop_last() =~= texts(args@).take(i as int));
            assert(texts(args@).take(i + 1).last() == args@[i as int]@);
        }
        let ghost before = out@;
        if i > 0 {
            out.append(" ");
        }
        assert(out@ =~= (if i > 0 {
            before + seq![' ']
        } else {
            before
        }));
        let ghost spaced = out@;
        if has_space(args[i].as_str()) {
            out.append("\"");
            out.append(args[i].as_str());
            out.append("\"");
        } else {
            out.append(args[i].as_str());
        }
        assert(out@ =~= spaced + shell_word(args@[i as int]@));
        i = i + 1;
    }
    assert(texts(args@).take(i as int) =~= texts(args@));
    out
}

/// The name of a recording begun at the given date and second of the day.
pub open spec fn recording_name(y: int, m: int, d: int, second: int) -> Seq<char> {
    "ORR_"@ + padded(y as nat, 4) + padded(m as nat, 2) + padded(d as nat, 2) + "_"@ + padded(
        (second / 3600) as nat,
        2,
    ) + padded(((second % 3600) / 60) as nat, 2) + padded((second % 60) as nat, 2) + ".mp4"@
}

/// `name` is that of a recording begun `t` seconds after the start of 1970: it
/// holds the date and time of day.
pub open spec fn named_for(name: Seq<char>, t: int) -> bool {
    exists|y: int, m: int, d: int|
        valid_date(y, m, d) && #[trigger] day_number(y, m, d) == t / 86400 && y >= 1970 && name
            == recording_name(y, m, d, t % 86400)
}

/// Names the file of a recording begun `t` seconds after the start of 1970.
pub fn output_file(t: i64) -> (r: String)
    requires
        0 <= t,
    ensures
        named_for(r@, t as int),
{
    let days: i64 = t / 86400;
    let rem: i64 = t % 86400;
    let (y, m, d) = civil_from_days(days);
    proof {
        day_from_1970_on(y as int, m as int, d as int);
    }
    let mut s = "ORR_".to_owned();
    s.append(padded_string(y as u64, 4).as_str());
    s.append(padded_string(m as u64, 2).as_str());
    s.append(padded_string(d as u64, 2).as_str());
    s.append("_");
    s.append(padded_string((rem / 3600) as u64, 2).as_str());
    s.append(padded_string(((rem % 3600) / 60) as u64, 2).as_str());
    s.append(padded_string((rem % 60) as u64, 2).as_str());
    s.append(".mp4");
    assert(s@ =~= recording_name(y as int, m as int, d as int, rem as int));
    s
}

/// The first second of the year 10000, counted from the start of 1970.
pub const YEAR_10000: i64 = 253_402_300_800;

/// Up to the year 9999 the name of a recording has 23 characters.
pub proof fn name_has_23_characters(name: Seq<char>, t: int)
    requires
        named_for(name, t),
        0 <= t < YEAR_10000,
    ensures
        name.len() == 23,
{
    let (y, m, d) = choose|y: int, m: int, d: int|
        valid_date(y, m, d) && #[trigger] day_number(y, m, d) == t / 86400 && y >= 1970 && name
            == recording_name(y, m, d, t % 86400);
    let second = t % 86400;
    year_has_four_digits(y, m, d);
    padded_numbers_sort(y as nat, 0);
    padded_numbers_sort(m as nat, 0);
    padded_numbers_sort(d as nat, 0);
    padded_numbers_sort((second / 3600) as nat, 0);
    padded_numbers_sort(((second % 3600) / 60) as nat, 0);
    padded_numbers_sort((second % 60) as nat, 0);
    reveal_strlit("ORR_");
    reveal_strlit("_");
    reveal_strlit(".mp4");
}

/// Where the parts before decide, or are the same and the next ones decide, the
/// whole is decided.
proof fn lemma_next_part(a: Seq<char>, b: Seq<char>, x: Seq<char>, y: Seq<char>)
    ensures
        text_before(a, b) ==> text_before(a + x, b + y),
        a == b && text_before(x, y) ==> text_before(a + x, b + y),
        a == b && x == y ==> a + x == b + y,
{
    if text_before(a, b) {
        earlier_part_decides(a, b, x, y);
    }
    if a == b && text_before(x, y) {
        rest_decides(a, x, y);
    }
}

/// The part of a name up to the date.
spec fn date_part(y: int, m: int, d: int) -> Seq<char> {
    "ORR_"@ + padded(y as nat, 4) + padded(m as nat, 2) + padded(d as nat, 2)
}

proof fn lemma_date_part(y1: int, m1: int, d1: int, y2: int, m2: int, d2: int)
    requires
        0 <= y1 <= 9999,
        0 <= y2 <= 9999,
        valid_date(y1, m1, d1),
        valid_date(y2, m2, d2),
        y1 < y2 || y1 == y2 && (m1 < m2 || m1 == m2 && d1 < d2),
    ensures
        text_before(date_part(y1, m1, d1), date_part(y2, m2, d2)),
{
    padded_numbers_sort(y1 as nat, y2 as nat);
    padded_numbers_sort(m1 as nat, m2 as nat);
    padded_numbers_sort(d1 as nat, d2 as nat);
    let (a0, b0) = ("ORR_"@, "ORR_"@);
    lemma_next_part(a0, b0, padded(y1 as nat, 4), padded(y2 as nat, 4));
    let (a1, b1) = (a0 + padded(y1 as nat, 4), b0 + padded(y2 as nat, 4));
    lemma_next_part(a1, b1, padded(m1 as nat, 2), padded(m2 as nat, 2));
    let (a2, b2) = (a1 + padded(m1 as nat, 2), b1 + padded(m2 as nat, 2));
    lemma_next_part(a2, b2, padded(d1 as nat, 2), padded(d2 as nat, 2));
}

/// A name from the date on.
spec fn timed(head: Seq<char>, second: int) -> Seq<char> {
    head + "_"@ + padded((second / 3600) as nat, 2) + padded(((second % 3600) / 60) as nat, 2)
        + padded((second % 60) as nat, 2) + ".mp4"@
}

proof fn lemma_time_part(head: Seq<char>, s1: int, s2: int)
    requires
        0 <= s1 < s2 < 86400,
    ensures
        text_before(timed(head, s1), timed(head, s2)),
{
    let (h1, h2) = ((s1 / 3600) as nat, (s2 / 3600) as nat);
    let (n1, n2) = (((s1 % 3600) / 60) as nat, ((s2 % 3600) / 60) as nat);
    let (z1, z2) = ((s1 % 60) as nat, (s2 % 60) as nat);
    assert(h1 < h2 || h1 == h2 && (n1 < n2 || n1 == n2 && z1 < z2));
    padded_numbers_sort(h1, h2);
    padded_numbers_sort(n1, n2);
    padded_numbers_sort(z1, z2);
    let a4 = head + "_"@;
    lemma_next_part(a4, a4, padded(h1, 2), padded(h2, 2));
    let (a5, b5) = (a4 + padded(h1, 2), a4 + padded(h2, 2));
    lemma_next_part(a5, b5, padded(n1, 2), padded(n2, 2));
    let (a6, b6) = (a5 + padded(n1, 2), b5 + padded(n2, 2));
    lemma_next_part(a6, b6, padded(z1, 2), padded(z2, 2));
    let (a7, b7) = (a6 + padded(z1, 2), b6 + padded(z2, 2));
    lemma_next_part(a7, b7, ".mp4"@, ".mp4"@);
}

proof fn lemma_later_head(a: Seq<char>, b: Seq<char>, s1: int, s2: int)
    requires
        text_before(a, b),
    ensures
        text_before(timed(a, s1), timed(b, s2)),
{
    let k = choose|k: int| #[trigger] differ_first_at(a, b, k);
    assert(differ_first_at(timed(a, s1), timed(b, s2), k));
}

/// Up to the year 9999 recordings sort by time: the name of one begun in an
/// earlier second comes before that of one begun later, and differs from it.
pub proof fn names_sort_by_time(first: Seq<char>, t1: int, second: Seq<char>, t2: int)
    requires
        named_for(first, t1),
        named_for(second, t2),
        0 <= t1 < t2 < YEAR_10000,
    ensures
        text_before(first, second),
        first != second,
{
    let (y1, m1, d1) = choose|y: int, m: int, d: int|
        valid_date(y, m, d) && #[trigger] day_number(y, m, d) == t1 / 86400 && y >= 1970 && first
            == recording_name(y, m, d, t1 % 86400);
    let (y2, m2, d2) = choose|y: int, m: int, d: int|
        valid_date(y, m, d) && #[trigger] day_number(y, m, d) == t2 / 86400 && y >= 1970 && second
            == recording_name(y, m, d, t2 % 86400);
    year_has_four_digits(y1, m1, d1);
    year_has_four_digits(y2, m2, d2);
    let (s1, s2) = (t1 % 86400, t2 % 86400);
    assert(first == timed(date_part(y1, m1, d1), s1));
    assert(second == timed(date_part(y2, m2, d2), s2));
    if t1 / 86400 == t2 / 86400 {
        a_day_has_one_date(y1, m1, d1, y2, m2, d2);
        lemma_time_part(date_part(y1, m1, d1), s1, s2);
    } else {
        later_day_has_later_date(y1, m1, d1, y2, m2, d2);
        lemma_date_part(y1, m1, d1, y2, m2, d2);
        lemma_later_head(date_part(y1, m1, d1), date_part(y2, m2, d2), s1, s2);
    }
    let k = choose|k: int| #[trigger] differ_first_at(first, second, k);
    assert(first[k] != second[k]);
}

proof fn lemma_ranked_at(list: Seq<Encoder>, k: int)
    ensures
        forall|e: Encoder| #[trigger]
            ranked_at(list, k).contains(e) <==> list.contains(e) && rank(e) == k,
        list.no_duplicates() ==> ranked_at(list, k).no_duplicates(),
    decreases list.len(),
{
    reveal(Seq::filter);
    if list.len() == 0 {
        assert(ranked_at(list, k) =~= Seq::empty());
    } else {
        let less = list.drop_last();
        let last = list.last();
        lemma_ranked_at(less, k);
        assert forall|e: Encoder| list.contains(e) <==> less.contains(e) || e == last by {
            if list.contains(e) {
                let i = choose|i: int| 0 <= i < list.len() && list[i] == e;
                if i < less.len() {
                    assert(less[i] == e);
                }
            }
            if less.contains(e) {
                let i = choose|i: int| 0 <= i < less.len() && less[i] == e;
                assert(list[i] == e);
            }
            assert(list[list.len() - 1] == last);
        }
        let before = ranked_at(less, k);
        let after = ranked_at(list, k);
        if rank(last) == k {
            assert(after == before.push(last));
            assert forall|e: Encoder| #[trigger] after.contains(e) <==> before.contains(e) || e
                == last by {
                if after.contains(e) {
                    let i = choose|i: int| 0 <= i < after.len() && after[i] == e;
                    if i < before.len() {
                        assert(before[i] == e);
                    }
                }
                if before.contains(e) {
                    let i = choose|i: int| 0 <= i < before.len() && before[i] == e;
                    assert(after[i] == e);
                }
                assert(after[after.len() - 1] == last);
            }
            if list.no_duplicates() {
                assert(!less.contains(last));
                assert(!before.contains(last));
            }
        } else {
            assert(after == before);
        }
    }
}

proof fn lemma_listed_is_concrete(lines: Seq<Seq<char>>)
    ensures
        forall|i: int| 0 <= i < listed(lines).len() ==> !(#[trigger] listed(lines)[i] is Auto),
    decreases lines.len(),
{
    if lines.len() > 0 {
        lemma_listed_is_concrete(lines.drop_last());
    }
}

/// Sorting the encoders neither adds nor loses one.
pub proof fn sorting_keeps_the_encoders(lines: Seq<Seq<char>>)
    ensures
        forall|e: Encoder| #[trigger]
            by_rank(listed(lines)).contains(e) <==> listed(lines).contains(e),
        by_rank(listed(lines)).no_duplicates(),
{
    let list = listed(lines);
    let (a, b, c, d) = (
        ranked_at(list, 0),
        ranked_at(list, 1),
        ranked_at(list, 2),
        ranked_at(list, 3),
    );
    listing_names_each_encoder_once(lines);
    lemma_ranked_at(list, 0);
    lemma_ranked_at(list, 1);
    lemma_ranked_at(list, 2);
    lemma_ranked_at(list, 3);
    let all = by_rank(list);
    assert forall|i: int| 0 <= i < all.len() implies list.contains(#[trigger] all[i]) by {
        lemma_segment(a, b, c, d, i);
    }
    assert forall|e: Encoder| #[trigger] all.contains(e) <==> list.contains(e) by {
        if list.contains(e) {
            lemma_in_segment(a, b, c, d, e);
        }
    }
    assert forall|i: int, j: int| 0 <= i < all.len() && 0 <= j < all.len() && i != j implies all[i]
        != all[j] by {
        lemma_segment(a, b, c, d, i);
        lemma_segment(a, b, c, d, j);
    }
}

proof fn lemma_segment(
    a: Seq<Encoder>,
    b: Seq<Encoder>,
    c: Seq<Encoder>,
    d: Seq<Encoder>,
    i: int,
)
    requires
        0 <= i < (a + b + c + d).len(),
    ensures
        ({
            let x = (a + b + c + d)[i];
            let n1 = a.len() as int;
            let n2 = n1 + b.len();
            let n3 = n2 + c.len();
            if i < n1 {
                x == a[i] && a.contains(x)
            } else if i < n2 {
                x == b[i - n1] && b.contains(x)
            } else if i < n3 {
                x == c[i - n2] && c.contains(x)
            } else {
                x == d[i - n3] && d.contains(x)
            }
        }),
{
}

proof fn lemma_in_segment(
    a: Seq<Encoder>,
    b: Seq<Encoder>,
    c: Seq<Encoder>,
    d: Seq<Encoder>,
    e: Encoder,
)
    requires
        a.contains(e) || b.contains(e) || c.contains(e) || d.contains(e),
    ensures
        (a + b + c + d).contains(e),
{
    let all = a + b + c + d;
    if a.contains(e) {
        let i = choose|i: int| 0 <= i < a.len() && a[i] == e;
        assert(all[i] == e);
    } else if b.contains(e) {
        let i = choose|i: int| 0 <= i < b.len() && b[i] == e;
        assert(all[a.len() + i] == e);
    } else if c.contains(e) {
        let i = choose|i: int| 0 <= i < c.len() && c[i] == e;
        assert(all[a.len() + b.len() + i] == e);
    } else {
        let i = choose|i: int| 0 <= i < d.len() && d[i] == e;
        assert(all[a.len() + b.len() + c.len() + i] == e);
    }
}

/// Among the candidates NVENC comes first, then QuickSync, then AMF, then the CPU
/// encoder, each once at most, and nothing else.
pub proof fn candidates_come_nvenc_quicksync_amf_cpu(lines: Seq<Seq<char>>, i: int, j: int)
    requires
        0 <= i < j < by_rank(listed(lines)).len(),
    ensures
        ({
            let c = by_rank(listed(lines));
            &&& c[j] is Qsv || c[j] is Amf || c[j] is X264
            &&& c[j] is Qsv ==> c[i] is Nvenc
            &&& c[j] is Amf ==> c[i] is Nvenc || c[i] is Qsv
            &&& c[j] is X264 ==> c[i] is Nvenc || c[i] is Qsv || c[i] is Amf
        }),
{
    let c = by_rank(listed(lines));
    lemma_by_rank_in_order(listed(lines));
    sorting_keeps_the_encoders(lines);
    lemma_listed_is_concrete(lines);
    assert(c.contains(c[i]) && c.contains(c[j]));
    assert(rank(c[i]) <= rank(c[j]));
    assert(c[i] != c[j]);
}

/// Those of a list whose verdict is good, each at its place: `at` says which.
pub open spec fn picks(list: Seq<Encoder>, verdicts: Seq<bool>, at: Seq<int>) -> bool {
    &&& forall|k: int, l: int| 0 <= k < l < at.len() ==> (#[trigger] at[k]) < (#[trigger] at[l])
    &&& forall|k: int| 0 <= k < at.len() ==> 0 <= (#[trigger] at[k]) < list.len() && verdicts[at[k]]
    &&& forall|i: int| 0 <= i < list.len() && #[trigger] verdicts[i] ==> at.contains(i)
}

/// The usable encoders are the candidates that passed their trial, all of them, in
/// the order they had.
pub proof fn all_that_passed_are_offered_in_order(list: Seq<Encoder>, verdicts: Seq<bool>)
    ensures
        exists|at: Seq<int>| #[trigger]
            picks(list, verdicts, at) && approved(list, verdicts).len() == at.len()
                && forall|k: int|
                0 <= k < at.len() ==> #[trigger] approved(list, verdicts)[k] == list[at[k]],
    decreases list.len(),
{
    if list.len() == 0 {
        assert(picks(list, verdicts, Seq::empty()));
    } else {
        let less = list.drop_last();
        let n = list.len() - 1;
        all_that_passed_are_offered_in_order(less, verdicts);
        let was = choose|at: Seq<int>| #[trigger]
            picks(less, verdicts, at) && approved(less, verdicts).len() == at.len()
                && forall|k: int|
                0 <= k < at.len() ==> #[trigger] approved(less, verdicts)[k] == less[at[k]];
        let at = if verdicts[n] {
            was.push(n)
        } else {
            was
        };
        assert forall|i: int| 0 <= i < list.len() && #[trigger] verdicts[i] implies at.contains(
            i,
        ) by {
            if i < n {
                let k = choose|k: int| 0 <= k < was.len() && was[k] == i;
                assert(at[k] == i);
            } else {
                assert(at[at.len() - 1] == i);
            }
        }
        assert forall|k: int| 0 <= k < at.len() implies 0 <= (#[trigger] at[k]) < list.len()
            && verdicts[at[k]] by {
            if k < was.len() {
                assert(at[k] == was[k]);
            }
        }
        assert forall|k: int, l: int| 0 <= k < l < at.len() implies (#[trigger] at[k]) < (
        #[trigger] at[l]) by {
            assert(at[k] == was[k]);
            if l < was.len() {
                assert(at[l] == was[l]);
            }
        }
        assert(picks(list, verdicts, at));
        assert forall|k: int| 0 <= k < at.len() implies #[trigger] approved(list, verdicts)[k]
            == list[at[k]] by {
            if k < was.len() {
                assert(at[k] == was[k]);
                assert(approved(less, verdicts)[k] == less[was[k]]);
            }
        }
    }
}

/// The automatic choice is NVENC where it is usable, else QuickSync where that is,
/// else AMF where that is, else the CPU encoder.
pub proof fn automatic_choice_goes_by_name(lines: Seq<Seq<char>>, verdicts: Seq<bool>)
    ensures
        ({
            let usable = approved(by_rank(listed(lines)), verdicts);
            let auto = usable[0];
            usable.len() > 0 ==> {
                &&& usable.contains(Encoder::Nvenc) ==> auto is Nvenc
                &&& !usable.contains(Encoder::Nvenc) && usable.contains(Encoder::Qsv) ==> auto is Qsv
                &&& !usable.contains(Encoder::Nvenc) && !usable.contains(Encoder::Qsv)
                    && usable.contains(Encoder::Amf) ==> auto is Amf
                &&& !usable.contains(Encoder::Nvenc) && !usable.contains(Encoder::Qsv)
                    && !usable.contains(Encoder::Amf) ==> auto is X264
            }
        }),
{
    let list = by_rank(listed(lines));
    let usable = approved(list, verdicts);
    all_that_passed_are_offered_in_order(list, verdicts);
    let at = choose|at: Seq<int>| #[trigger]
        picks(list, verdicts, at) && usable.len() == at.len() && forall|k: int|
            0 <= k < at.len() ==> #[trigger] usable[k] == list[at[k]];
    sorting_keeps_the_encoders(lines);
    lemma_listed_is_concrete(lines);
    if usable.len() > 0 {
        assert(usable[0] == list[at[0]]);
        assert(list.contains(list[at[0]]));
        assert forall|e: Encoder| usable.contains(e) && e != usable[0] implies exists|m: int|
            at[0] < m < list.len() && #[trigger] list[m] == e by {
            let k = choose|k: int| 0 <= k < usable.len() && usable[k] == e;
            assert(usable[k] == list[at[k]]);
            assert(at[0] < at[k]);
        }
        assert forall|m: int| at[0] < m < list.len() implies {
            &&& !(#[trigger] list[m] is Nvenc)
            &&& list[m] is Qsv ==> usable[0] is Nvenc
            &&& list[m] is Amf ==> usable[0] is Nvenc || usable[0] is Qsv
        } by {
            candidates_come_nvenc_quicksync_amf_cpu(lines, at[0], m);
        }
        assert(usable.contains(usable[0]));
    }
}

/// An encoder is listed only if a line names it that is marked as one of an audio or
/// video encoder.
pub proof fn listed_encoder_is_named(lines: Seq<Seq<char>>, e: Encoder)
    requires
        listed(lines).contains(e),
    ensures
        exists|i: int|
            0 <= i < lines.len() && (first_visible(#[trigger] lines[i]) == Some('A')
                || first_visible(lines[i]) == Some('V')) && (e is Nvenc && holds_word(
                lines[i],
                "h264_nvenc"@,
            ) || e is Qsv && holds_word(lines[i], "h264_qsv"@) || e is Amf && holds_word(
                lines[i],
                "h264_amf"@,
            ) || e is X264 && holds_word(lines[i], "libx264"@)),
    decreases lines.len(),
{
    if lines.len() > 0 {
        let less = lines.drop_last();
        let known = listed(less);
        let k = choose|k: int| 0 <= k < listed(lines).len() && listed(lines)[k] == e;
        if k < known.len() {
            assert(known[k] == e);
            listed_encoder_is_named(less, e);
            let i = choose|i: int|
                0 <= i < less.len() && (first_visible(#[trigger] less[i]) == Some('A')
                    || first_visible(less[i]) == Some('V')) && (e is Nvenc && holds_word(
                    less[i],
                    "h264_nvenc"@,
                ) || e is Qsv && holds_word(less[i], "h264_qsv"@) || e is Amf && holds_word(
                    less[i],
                    "h264_amf"@,
                ) || e is X264 && holds_word(less[i], "libx264"@));
            assert(lines[i] == less[i]);
        } else {
            assert(lines[lines.len() - 1] == lines.last());
        }
    }
}

/// An encoder that a marked line names is listed, if the line names no other.
pub proof fn named_encoder_is_listed(lines: Seq<Seq<char>>, i: int)
    requires
        0 <= i < lines.len(),
        first_visible(lines[i]) == Some('A') || first_visible(lines[i]) == Some('V'),
    ensures
        ({
            let nvenc = holds_word(lines[i], "h264_nvenc"@);
            let qsv = holds_word(lines[i], "h264_qsv"@);
            let amf = holds_word(lines[i], "h264_amf"@);
            let cpu = holds_word(lines[i], "libx264"@);
            &&& nvenc ==> listed(lines).contains(Encoder::Nvenc)
            &&& qsv && !nvenc ==> listed(lines).contains(Encoder::Qsv)
            &&& amf && !nvenc && !qsv ==> listed(lines).contains(Encoder::Amf)
            &&& cpu && !nvenc && !qsv && !amf ==> listed(lines).contains(Encoder::X264)
        }),
    decreases lines.len(),
{
    let less = lines.drop_last();
    let known = listed(less);
    let all = listed(lines);
    assert forall|e: Encoder| known.contains(e) implies all.contains(e) by {
        let k = choose|k: int| 0 <= k < known.len() && known[k] == e;
        assert(all[k] == e);
    }
    if i < less.len() {
        assert(less[i] == lines[i]);
        named_encoder_is_listed(less, i);
    } else {
        assert(lines[i] == lines.last());
        if all.len() > known.len() {
            assert(all.contains(all[known.len() as int]));
        }
    }
}

/// The presets, by name: constant-quality level, megabits per second, speed preset of
/// the CPU encoder.
pub proof fn presets_by_name()
    ensures
        cq_of(Quality::Ultra) == 18 && bitrate_of(Quality::Ultra) == 80,
        cq_of(Quality::High) == 21 && bitrate_of(Quality::High) == 50,
        cq_of(Quality::Medium) == 24 && bitrate_of(Quality::Medium) == 30,
        cq_of(Quality::Low) == 28 && bitrate_of(Quality::Low) == 15,
        x264_preset_of(Quality::Ultra) == "slow"@,
        x264_preset_of(Quality::High) == "medium"@,
        x264_preset_of(Quality::Medium) == "veryfast"@,
        x264_preset_of(Quality::Low) == "ultrafast"@,
{
}

/// The label of an encoder names it, and so does that of a preset.
pub proof fn labels_name_what_they_stand_for()
    ensures
        holds_word(encoder_label(Encoder::Auto), "Auto"@),
        holds_word(encoder_label(Encoder::Nvenc), "NVENC"@),
        holds_word(encoder_label(Encoder::Qsv), "QuickSync"@),
        holds_word(encoder_label(Encoder::Amf), "AMF"@),
        holds_word(encoder_label(Encoder::X264), "x264"@),
        holds_word(quality_label(Quality::Ultra), "Ultra"@),
        holds_word(quality_label(Quality::High), "High"@),
        holds_word(quality_label(Quality::Medium), "Medium"@),
        holds_word(quality_label(Quality::Low), "Low"@),
{
    reveal_strlit("Auto (best available)");
    reveal_strlit("NVIDIA NVENC (GPU)");
    reveal_strlit("Intel QuickSync (GPU)");
    reveal_strlit("AMD AMF (GPU)");
    reveal_strlit("CPU x264");
    reveal_strlit("Auto");
    reveal_strlit("NVENC");
    reveal_strlit("QuickSync");
    reveal_strlit("AMF");
    reveal_strlit("x264");
    assert(encoder_label(Encoder::Auto).subrange(0, 4) =~= "Auto"@);
    assert(encoder_label(Encoder::Nvenc).subrange(7, 12) =~= "NVENC"@);
    assert(encoder_label(Encoder::Qsv).subrange(6, 15) =~= "QuickSync"@);
    assert(encoder_label(Encoder::Amf).subrange(4, 7) =~= "AMF"@);
    assert(encoder_label(Encoder::X264).subrange(4, 8) =~= "x264"@);
    assert(stands_at(encoder_label(Encoder::Auto), "Auto"@, 0));
    assert(stands_at(encoder_label(Encoder::Nvenc), "NVENC"@, 7));
    assert(stands_at(encoder_label(Encoder::Qsv), "QuickSync"@, 6));
    assert(stands_at(encoder_label(Encoder::Amf), "AMF"@, 4));
    assert(stands_at(encoder_label(Encoder::X264), "x264"@, 4));
    assert("Ultra"@.subrange(0, "Ultra"@.len() as int) =~= "Ultra"@);
    assert("High"@.subrange(0, "High"@.len() as int) =~= "High"@);
    assert("Medium"@.subrange(0, "Medium"@.len() as int) =~= "Medium"@);
    assert("Low"@.subrange(0, "Low"@.len() as int) =~= "Low"@);
    assert(stands_at(quality_label(Quality::Ultra), "Ultra"@, 0));
    assert(stands_at(quality_label(Quality::High), "High"@, 0));
    assert(stands_at(quality_label(Quality::Medium), "Medium"@, 0));
    assert(stands_at(quality_label(Quality::Low), "Low"@, 0));
}

/// The trial run of a hardware encoder is made with that encoder, and writes nothing.
pub proof fn trial_run_is_with_the_encoder(e: Encoder)
    requires
        e is Nvenc || e is Qsv || e is Amf,
    ensures
        ({
            let line = probe_line(hardware_name(e));
            &&& line.len() == 14
            &&& line[9] == "-c:v"@
            &&& e is Nvenc ==> line[10] == "h264_nvenc"@
            &&& e is Qsv ==> line[10] == "h264_qsv"@
            &&& e is Amf ==> line[10] == "h264_amf"@
            &&& line[11] == "-f"@ && line[12] == "null"@ && line[13] == "-"@
        }),
{
}

/// Where the desktop is grabbed on the CPU, the arguments read back as what was asked
/// for: the frame rate of the settings, whether the cursor is drawn, and the region,
/// or none for the whole screen.
pub proof fn cpu_grab_reads_back(
    s: Settings,
    ddagrab: bool,
    mode: Mode,
    encoder: Encoder,
    out_path: Seq<char>,
)
    requires
        !(mode is FullScreen && encoder is Nvenc && ddagrab),
    ensures
        ({
            let line = recorder_line(s, ddagrab, mode, encoder, out_path);
            &&& line[0] == "-y"@ && line[1] == "-hide_banner"@
            &&& line[2] == "-loglevel"@ && line[3] == "warning"@
            &&& line[4] == "-f"@ && line[5] == "gdigrab"@
            &&& line[6] == "-framerate"@ && unsigned(line[7]) == Some(s.fps as nat)
            &&& line[8] == "-draw_mouse"@
            &&& s.capture_mouse ==> line[9] == "1"@
            &&& !s.capture_mouse ==> line[9] == "0"@
            &&& mode is FullScreen ==> line[10] == "-i"@ && line[11] == "desktop"@
            &&& mode matches Mode::Area(r) ==> {
                &&& line[10] == "-offset_x"@ && integer(line[11]) == Some(r.x as int)
                &&& line[12] == "-offset_y"@ && integer(line[13]) == Some(r.y as int)
                &&& line[14] == "-video_size"@
                &&& exists|k: int|
                    0 <= k < line[15].len() && #[trigger] line[15][k] == 'x' && unsigned(
                        line[15].take(k),
                    ) == Some(r.w as nat) && unsigned(line[15].skip(k + 1)) == Some(r.h as nat)
                &&& line[16] == "-i"@ && line[17] == "desktop"@
            }
        }),
{
    let line = recorder_line(s, ddagrab, mode, encoder, out_path);
    written_number_reads_back(s.fps as nat);
    lemma_cpu_line(s, ddagrab, mode, encoder, out_path);
    if let Mode::Area(r) = mode {
        signed_number_reads_back(r.x as int);
        signed_number_reads_back(r.y as int);
        written_number_reads_back(r.w as nat);
        written_number_reads_back(r.h as nat);
        let size = line[15];
        let k = decimal(r.w as nat).len() as int;
        assert(size == decimal(r.w as nat).push('x') + decimal(r.h as nat));
        assert(size[k] == 'x');
        assert(size.take(k) =~= decimal(r.w as nat));
        assert(size.skip(k + 1) =~= decimal(r.h as nat));
    }
}

/// The argument list where the desktop is grabbed on the CPU, part by part.
proof fn lemma_cpu_line(
    s: Settings,
    ddagrab: bool,
    mode: Mode,
    encoder: Encoder,
    out_path: Seq<char>,
)
    requires
        !gpu_grab(mode, encoder, ddagrab),
    ensures
        ({
            let line = recorder_line(s, ddagrab, mode, encoder, out_path);
            let grab = grab_line(s.fps, s.capture_mouse, mode);
            let enc = encoder_line(encoder, s);
            let fmt = format_line(encoder);
            &&& line.len() == 4 + grab.len() + enc.len() + fmt.len() + 3
            &&& line.subrange(0, 4) == head_line()
            &&& forall|i: int| 0 <= i < 4 ==> line[i] == head_line()[i]
            &&& forall|i: int| 4 <= i < 4 + grab.len() ==> line[i] == grab[i - 4]
            &&& forall|i: int|
                4 + grab.len() <= i < 4 + grab.len() + enc.len() ==> line[i] == enc[i - 4
                    - grab.len()]
            &&& forall|i: int|
                4 + grab.len() + enc.len() <= i < 4 + grab.len() + enc.len() + fmt.len()
                    ==> line[i] == fmt[i - 4 - grab.len() - enc.len()]
        }),
{
    let line = recorder_line(s, ddagrab, mode, encoder, out_path);
    assert(line.subrange(0, 4) =~= head_line());
}

/// Where the desktop is grabbed on the GPU, the filter reads back as what was asked
/// for: the frame rate of the settings, and whether the cursor is drawn.
pub proof fn gpu_grab_reads_back(s: Settings, out_path: Seq<char>)
    ensures
        ({
            let line = recorder_line(s, true, Mode::FullScreen, Encoder::Nvenc, out_path);
            &&& line[0] == "-y"@ && line[1] == "-hide_banner"@
            &&& line[2] == "-loglevel"@ && line[3] == "warning"@
            &&& line[4] == "-filter_complex"@
            &&& exists|rate: Seq<char>| #[trigger]
                unsigned(rate) == Some(s.fps as nat) && line[5]
                    == "ddagrab=output_idx=0:framerate="@ + rate + ":draw_mouse="@ + (if s.capture_mouse {
                    "1"@
                } else {
                    "0"@
                })
        }),
{
    written_number_reads_back(s.fps as nat);
}

/// Two argument lists for one encoder on one machine are the same only if the frame
/// rate, the cursor setting, what is recorded and the output path are.
pub proof fn arguments_tell_requests_apart(
    s1: Settings,
    s2: Settings,
    ddagrab: bool,
    mode1: Mode,
    mode2: Mode,
    encoder: Encoder,
    path1: Seq<char>,
    path2: Seq<char>,
)
    requires
        recorder_line(s1, ddagrab, mode1, encoder, path1) == recorder_line(
            s2,
            ddagrab,
            mode2,
            encoder,
            path2,
        ),
    ensures
        s1.fps == s2.fps,
        s1.capture_mouse == s2.capture_mouse,
        mode1 == mode2,
        path1 == path2,
{
    let line = recorder_line(s1, ddagrab, mode1, encoder, path1);
    output_path_comes_last(s1, ddagrab, mode1, encoder, path1);
    output_path_comes_last(s2, ddagrab, mode2, encoder, path2);
    grabber_is_named_first(s1, ddagrab, mode1, encoder, path1);
    grabber_is_named_first(s2, ddagrab, mode2, encoder, path2);
    reveal_strlit("1");
    reveal_strlit("0");
    assert("1"@[0] == '1' && "0"@[0] == '0');
    if gpu_grab(mode1, encoder, ddagrab) {
        written_number_reads_back(s1.fps as nat);
        written_number_reads_back(s2.fps as nat);
        let (d1, d2) = (decimal(s1.fps as nat), decimal(s2.fps as nat));
        let a = "ddagrab=output_idx=0:framerate="@;
        let t = line[5];
        assert(t == gpu_filter(s1.fps, s1.capture_mouse));
        assert(t == gpu_filter(s2.fps, s2.capture_mouse));
        assert(d1.len() == d2.len());
        assert(t.subrange(a.len() as int, (a.len() + d1.len()) as int) =~= d1);
        assert(t.subrange(a.len() as int, (a.len() + d2.len()) as int) =~= d2);
        assert(t.last() == flag(s1.capture_mouse)[0]);
        assert(t.last() == flag(s2.capture_mouse)[0]);
    } else {
        cpu_grab_reads_back(s1, ddagrab, mode1, encoder, path1);
        cpu_grab_reads_back(s2, ddagrab, mode2, encoder, path2);
        reveal_strlit("-i");
        reveal_strlit("-offset_x");
        assert("-i"@.len() == 2 && "-offset_x"@.len() == 9);
        if let Mode::Area(r1) = mode1 {
            if let Mode::Area(r2) = mode2 {
                lemma_size_reads_once(line[15], r1.w as nat, r1.h as nat, r2.w as nat, r2.h as nat);
            }
        }
    }
}

/// A text holds one pair of numbers at most with an `x` between them.
proof fn lemma_size_reads_once(t: Seq<char>, w1: nat, h1: nat, w2: nat, h2: nat)
    requires
        exists|k: int|
            0 <= k < t.len() && #[trigger] t[k] == 'x' && unsigned(t.take(k)) == Some(w1)
                && unsigned(t.skip(k + 1)) == Some(h1),
        exists|k: int|
            0 <= k < t.len() && #[trigger] t[k] == 'x' && unsigned(t.take(k)) == Some(w2)
                && unsigned(t.skip(k + 1)) == Some(h2),
    ensures
        w1 == w2,
        h1 == h2,
{
    let a = choose|k: int|
        0 <= k < t.len() && #[trigger] t[k] == 'x' && unsigned(t.take(k)) == Some(w1) && unsigned(
            t.skip(k + 1),
        ) == Some(h1);
    let b = choose|k: int|
        0 <= k < t.len() && #[trigger] t[k] == 'x' && unsigned(t.take(k)) == Some(w2) && unsigned(
            t.skip(k + 1),
        ) == Some(h2);
    if a < b {
        if a > 0 {
            assert(t.take(b)[a] == 'x');
            other_text_is_no_number(t.take(b), a);
        } else {
            assert(t.take(0).len() == 0);
        }
    } else if b < a {
        if b > 0 {
            assert(t.take(a)[b] == 'x');
            other_text_is_no_number(t.take(a), b);
        } else {
            assert(t.take(0).len() == 0);
        }
    }
}

/// `t` is a bitrate of `n` megabits per second.
pub open spec fn reads_megabits(t: Seq<char>, n: int) -> bool {
    t.len() > 0 && t.last() == 'M' && unsigned(t.drop_last()) == Some(n as nat)
}

proof fn lemma_megabits(n: int)
    requires
        0 <= n,
    ensures
        reads_megabits(megabits(n), n),
{
    written_number_reads_back(n as nat);
    assert(megabits(n).drop_last() =~= decimal(n as nat));
}

/// Place of the first encoder argument: behind the filter that grabs on the GPU, or
/// behind the arguments that grab on the CPU, of which a region takes six more.
pub open spec fn encoder_place(ddagrab: bool, mode: Mode, encoder: Encoder) -> int {
    if mode is Area {
        18
    } else if encoder is Nvenc && ddagrab {
        6
    } else {
        12
    }
}

proof fn lemma_encoder_part(
    s: Settings,
    ddagrab: bool,
    mode: Mode,
    encoder: Encoder,
    out_path: Seq<char>,
)
    ensures
        ({
            let line = recorder_line(s, ddagrab, mode, encoder, out_path);
            let at = encoder_place(ddagrab, mode, encoder);
            forall|i: int|
                at <= i < at + encoder_line(encoder, s).len() ==> #[trigger] line[i]
                    == encoder_line(encoder, s)[i - at]
        }),
{
    let line = recorder_line(s, ddagrab, mode, encoder, out_path);
    let enc = encoder_line(encoder, s);
    let at = encoder_place(ddagrab, mode, encoder);
    if gpu_grab(mode, encoder, ddagrab) {
        assert forall|i: int| at <= i < at + enc.len() implies #[trigger] line[i] == enc[i - at] by {
            assert(gpu_line(s)[i - 4] == enc[i - at]);
        }
    } else {
        lemma_cpu_line(s, ddagrab, mode, encoder, out_path);
        assert(grab_line(s.fps, s.capture_mouse, mode).len() == at - 4);
    }
}

/// Behind the arguments that grab come those of the encoder that was asked for.
pub proof fn encoder_is_the_one_asked_for(
    s: Settings,
    ddagrab: bool,
    mode: Mode,
    encoder: Encoder,
    out_path: Seq<char>,
)
    ensures
        ({
            let line = recorder_line(s, ddagrab, mode, encoder, out_path);
            let at = encoder_place(ddagrab, mode, encoder);
            &&& line[at] == "-c:v"@
            &&& encoder is Nvenc ==> line[at + 1] == "h264_nvenc"@
            &&& encoder is Qsv ==> line[at + 1] == "h264_qsv"@
            &&& encoder is Amf ==> line[at + 1] == "h264_amf"@
            &&& encoder is X264 || encoder is Auto ==> line[at + 1] == "libx264"@
        }),
{
    lemma_encoder_part(s, ddagrab, mode, encoder, out_path);
    let enc = encoder_line(encoder, s);
    assert(enc.len() >= 2 && enc[0] == "-c:v"@);
}

/// In performance mode NVENC is asked for speed, no delay, and a constant bitrate: the
/// preset's, but at least sixty megabits, with room for two seconds of it.
pub proof fn fast_nvenc_follows_the_settings(
    s: Settings,
    ddagrab: bool,
    mode: Mode,
    out_path: Seq<char>,
)
    requires
        s.performance_mode,
    ensures
        ({
            let line = recorder_line(s, ddagrab, mode, Encoder::Nvenc, out_path);
            let at = encoder_place(ddagrab, mode, Encoder::Nvenc);
            let rate = if bitrate_of(s.quality) < 60 {
                60
            } else {
                bitrate_of(s.quality)
            };
            &&& line[at + 2] == "-preset"@ && line[at + 3] == "p1"@
            &&& line[at + 4] == "-tune"@ && line[at + 5] == "ll"@
            &&& line[at + 6] == "-rc"@ && line[at + 7] == "cbr"@
            &&& line[at + 8] == "-delay"@ && line[at + 9] == "0"@
            &&& line[at + 10] == "-b:v"@ && reads_megabits(line[at + 11], rate)
            &&& line[at + 12] == "-bufsize"@ && reads_megabits(line[at + 13], 2 * rate)
            &&& line[at + 14] == "-profile:v"@ && line[at + 15] == "high"@
        }),
{
    let rate = if bitrate_of(s.quality) < 60 {
        60
    } else {
        bitrate_of(s.quality)
    };
    lemma_encoder_part(s, ddagrab, mode, Encoder::Nvenc, out_path);
    lemma_megabits(rate);
    lemma_megabits(2 * rate);
    let enc = nvenc_line(s.quality, true);
    assert(enc.len() == 16);
    assert(enc[2] == "-preset"@ && enc[3] == "p1"@ && enc[4] == "-tune"@ && enc[5] == "ll"@);
    assert(enc[6] == "-rc"@ && enc[7] == "cbr"@ && enc[8] == "-delay"@ && enc[9] == "0"@);
    assert(enc[10] == "-b:v"@ && enc[11] == megabits(rate) && enc[12] == "-bufsize"@);
    assert(enc[13] == megabits(2 * rate) && enc[14] == "-profile:v"@ && enc[15] == "high"@);
}

/// Otherwise NVENC is asked for the preset's constant quality, up to the preset's
/// bitrate, with room for two seconds of it.
pub proof fn nvenc_follows_the_settings(
    s: Settings,
    ddagrab: bool,
    mode: Mode,
    out_path: Seq<char>,
)
    requires
        !s.performance_mode,
    ensures
        ({
            let line = recorder_line(s, ddagrab, mode, Encoder::Nvenc, out_path);
            let at = encoder_place(ddagrab, mode, Encoder::Nvenc);
            let rate = bitrate_of(s.quality);
            &&& line[at + 2] == "-preset"@ && line[at + 3] == "p5"@
            &&& line[at + 4] == "-tune"@ && line[at + 5] == "hq"@
            &&& line[at + 6] == "-rc"@ && line[at + 7] == "vbr"@
            &&& line[at + 8] == "-cq"@ && unsigned(line[at + 9]) == Some(cq_of(s.quality) as nat)
            &&& line[at + 10] == "-b:v"@ && line[at + 11] == "0"@
            &&& line[at + 12] == "-maxrate"@ && reads_megabits(line[at + 13], rate)
            &&& line[at + 14] == "-bufsize"@ && reads_megabits(line[at + 15], 2 * rate)
            &&& line[at + 16] == "-profile:v"@ && line[at + 17] == "high"@
        }),
{
    let rate = bitrate_of(s.quality);
    lemma_encoder_part(s, ddagrab, mode, Encoder::Nvenc, out_path);
    lemma_megabits(rate);
    lemma_megabits(2 * rate);
    written_number_reads_back(cq_of(s.quality) as nat);
    let enc = nvenc_line(s.quality, false);
    assert(enc.len() == 18);
    assert(enc[2] == "-preset"@ && enc[3] == "p5"@ && enc[4] == "-tune"@ && enc[5] == "hq"@);
    assert(enc[6] == "-rc"@ && enc[7] == "vbr"@ && enc[8] == "-cq"@);
    assert(enc[9] == decimal(cq_of(s.quality) as nat) && enc[10] == "-b:v"@ && enc[11] == "0"@);
    assert(enc[12] == "-maxrate"@ && enc[13] == megabits(rate) && enc[14] == "-bufsize"@);
    assert(enc[15] == megabits(2 * rate) && enc[16] == "-profile:v"@ && enc[17] == "high"@);
}

/// QuickSync is asked for the preset's bitrate in performance mode, else for its
/// constant quality.
pub proof fn quicksync_follows_the_settings(
    s: Settings,
    ddagrab: bool,
    mode: Mode,
    out_path: Seq<char>,
)
    ensures
        ({
            let line = recorder_line(s, ddagrab, mode, Encoder::Qsv, out_path);
            let at = encoder_place(ddagrab, mode, Encoder::Qsv);
            &&& line[at + 2] == "-preset"@
            &&& s.performance_mode ==> line[at + 3] == "veryfast"@ && line[at + 4] == "-b:v"@
                && reads_megabits(line[at + 5], bitrate_of(s.quality))
            &&& !s.performance_mode ==> line[at + 3] == "medium"@ && line[at + 4]
                == "-global_quality"@ && unsigned(line[at + 5]) == Some(cq_of(s.quality) as nat)
        }),
{
    lemma_encoder_part(s, ddagrab, mode, Encoder::Qsv, out_path);
    lemma_megabits(bitrate_of(s.quality));
    written_number_reads_back(cq_of(s.quality) as nat);
    assert(qsv_line(s.quality, s.performance_mode).len() == 6);
}

/// AMF is asked for the preset's bitrate, constant and fast in performance mode.
pub proof fn amf_follows_the_settings(
    s: Settings,
    ddagrab: bool,
    mode: Mode,
    out_path: Seq<char>,
)
    ensures
        ({
            let line = recorder_line(s, ddagrab, mode, Encoder::Amf, out_path);
            let at = encoder_place(ddagrab, mode, Encoder::Amf);
            &&& line[at + 2] == "-quality"@ && line[at + 4] == "-rc"@
            &&& s.performance_mode ==> line[at + 3] == "speed"@ && line[at + 5] == "cbr"@
            &&& !s.performance_mode ==> line[at + 3] == "balanced"@ && line[at + 5] == "vbr_peak"@
            &&& line[at + 6] == "-b:v"@ && reads_megabits(line[at + 7], bitrate_of(s.quality))
        }),
{
    lemma_encoder_part(s, ddagrab, mode, Encoder::Amf, out_path);
    lemma_megabits(bitrate_of(s.quality));
    let enc = amf_line(s.quality, s.performance_mode);
    assert(enc.len() == 8);
    assert(enc[2] == "-quality"@ && enc[4] == "-rc"@ && enc[6] == "-b:v"@);
    assert(enc[7] == megabits(bitrate_of(s.quality)));
}

/// The CPU encoder is asked for the preset's constant quality, at the preset's speed
/// or the highest one in performance mode, and with the number of threads that was
/// set, if there is one.
pub proof fn cpu_encoder_follows_the_settings(
    s: Settings,
    ddagrab: bool,
    mode: Mode,
    out_path: Seq<char>,
)
    ensures
        ({
            let line = recorder_line(s, ddagrab, mode, Encoder::X264, out_path);
            let at = encoder_place(ddagrab, mode, Encoder::X264);
            &&& line[at + 2] == "-preset"@
            &&& s.performance_mode ==> line[at + 3] == "ultrafast"@
            &&& !s.performance_mode ==> line[at + 3] == x264_preset_of(s.quality)
            &&& line[at + 4] == "-crf"@ && unsigned(line[at + 5]) == Some(cq_of(s.quality) as nat)
            &&& s.cpu_threads > 0 ==> line[at + 6] == "-threads"@ && unsigned(line[at + 7]) == Some(
                s.cpu_threads as nat,
            )
            &&& s.cpu_threads == 0 ==> line[at + 6] == "-pix_fmt"@
        }),
{
    lemma_encoder_part(s, ddagrab, mode, Encoder::X264, out_path);
    written_number_reads_back(cq_of(s.quality) as nat);
    written_number_reads_back(s.cpu_threads as nat);
    let enc = x264_line(s.quality, s.performance_mode, s.cpu_threads);
    assert(enc[2] == "-preset"@ && enc[4] == "-crf"@ && enc[5] == decimal(cq_of(s.quality) as nat));
    if s.cpu_threads > 0 {
        assert(enc.len() == 10);
        assert(enc[6] == "-threads"@ && enc[7] == decimal(s.cpu_threads as nat));
    } else {
        assert(enc.len() == 8);
        assert(enc[6] == "-pix_fmt"@);
    }
}

/// What is grabbed on the CPU is always asked for in the pixel format that every
/// player takes, right before the output.
pub proof fn cpu_grab_ends_with_the_pixel_format(
    s: Settings,
    ddagrab: bool,
    mode: Mode,
    encoder: Encoder,
    out_path: Seq<char>,
)
    requires
        !(mode is FullScreen && encoder is Nvenc && ddagrab),
    ensures
        ({
            let line = recorder_line(s, ddagrab, mode, encoder, out_path);
            let n = line.len() as int;
            &&& line[n - 5] == "-pix_fmt"@ && line[n - 4] == "yuv420p"@
            &&& line[n - 3] == "-movflags"@ && line[n - 2] == "+faststart"@
            &&& line[n - 1] == out_path
        }),
{
    lemma_cpu_line(s, ddagrab, mode, encoder, out_path);
    output_path_comes_last(s, ddagrab, mode, encoder, out_path);
    let line = recorder_line(s, ddagrab, mode, encoder, out_path);
    let n = line.len() as int;
    let enc = encoder_line(encoder, s);
    if encoder is X264 {
        assert(enc[enc.len() - 1] == "yuv420p"@);
        assert(enc[enc.len() - 2] == "-pix_fmt"@);
    }
}

/// A typed line holds its words in order with a space between each two, and those
/// that hold a space themselves, and only those, in quotation marks.
pub proof fn typed_line_holds_its_words(a: Seq<Seq<char>>, b: Seq<Seq<char>>, word: Seq<char>)
    ensures
        a.len() > 0 && b.len() > 0 ==> shell_line(a + b) == shell_line(a) + seq![' '] + shell_line(
            b,
        ),
        !word.contains(' ') ==> shell_line(seq![word]) == word,
        word.contains(' ') ==> shell_line(seq![word]) == seq!['"'] + word + seq!['"'],
        shell_line(Seq::empty()) == Seq::<char>::empty(),
    decreases b.len(),
{
    if a.len() > 0 && b.len() > 0 {
        let less = b.drop_last();
        assert((a + b).drop_last() =~= a + less);
        assert((a + b).last() == b.last());
        if less.len() == 0 {
            assert(a + less =~= a);
            assert(shell_line(b) == shell_word(b[0]));
        } else {
            typed_line_holds_its_words(a, less, word);
            let (x, y, z) = (shell_line(a), shell_line(less), shell_word(b.last()));
            assert(shell_line(a + b) == (x + seq![' '] + y) + seq![' '] + z);
            assert((x + seq![' '] + y) + seq![' '] + z =~= x + seq![' '] + (y + seq![' '] + z));
        }
    }
}

/// Up to the year 9999 the name of a recording reads back as the second it was begun
/// in: four digits of the year, two each of month and day, then two each of hour,
/// minute and second.
pub proof fn name_reads_back_as_its_time(name: Seq<char>, t: int)
    requires
        named_for(name, t),
        0 <= t < YEAR_10000,
    ensures
        name.len() == 23,
        name.subrange(0, 4) == "ORR_"@,
        name[12] == '_',
        name.subrange(19, 23) == ".mp4"@,
        exists|y: nat, m: nat, d: nat|
            {
                &&& unsigned(name.subrange(4, 8)) == Some(y)
                &&& unsigned(name.subrange(8, 10)) == Some(m)
                &&& unsigned(name.subrange(10, 12)) == Some(d)
                &&& valid_date(y as int, m as int, d as int)
                &&& #[trigger] day_number(y as int, m as int, d as int) == t / 86400
            },
        exists|hour: nat, minute: nat, second: nat|
            {
                &&& unsigned(name.subrange(13, 15)) == Some(hour)
                &&& unsigned(name.subrange(15, 17)) == Some(minute)
                &&& unsigned(name.subrange(17, 19)) == Some(second)
                &&& minute < 60
                &&& second < 60
                &&& #[trigger] second_of_day(hour, minute, second) == t % 86400
            },
{
    let (y, m, d) = choose|y: int, m: int, d: int|
        valid_date(y, m, d) && #[trigger] day_number(y, m, d) == t / 86400 && y >= 1970 && name
            == recording_name(y, m, d, t % 86400);
    let second = t % 86400;
    year_has_four_digits(y, m, d);
    lemma_name_reads(name, y as nat, m as nat, d as nat, second);
    let (h, n, z) = ((second / 3600) as nat, ((second % 3600) / 60) as nat, (second % 60) as nat);
    assert(second_of_day(h, n, z) == second);
    assert(day_number((y as nat) as int, (m as nat) as int, (d as nat) as int) == t / 86400);
}

proof fn lemma_name_reads(name: Seq<char>, y: nat, m: nat, d: nat, second: int)
    requires
        name == recording_name(y as int, m as int, d as int, second),
        y < 10000,
        m < 100,
        d < 100,
        0 <= second < 86400,
    ensures
        name.len() == 23,
        name.subrange(0, 4) == "ORR_"@,
        name[12] == '_',
        name.subrange(19, 23) == ".mp4"@,
        unsigned(name.subrange(4, 8)) == Some(y),
        unsigned(name.subrange(8, 10)) == Some(m),
        unsigned(name.subrange(10, 12)) == Some(d),
        unsigned(name.subrange(13, 15)) == Some((second / 3600) as nat),
        unsigned(name.subrange(15, 17)) == Some(((second % 3600) / 60) as nat),
        unsigned(name.subrange(17, 19)) == Some((second % 60) as nat),
{
    let (h, n, z) = ((second / 3600) as nat, ((second % 3600) / 60) as nat, (second % 60) as nat);
    lemma_two_digits(m);
    lemma_two_digits(d);
    lemma_two_digits(h);
    lemma_two_digits(n);
    lemma_two_digits(z);
    padded_numbers_sort(y, 0);
    padded_number_reads_back(y, 4);
    reveal_strlit("ORR_");
    reveal_strlit("_");
    reveal_strlit(".mp4");
    lemma_name_parts(
        name,
        padded(y, 4),
        padded(m, 2),
        padded(d, 2),
        padded(h, 2),
        padded(n, 2),
        padded(z, 2),
    );
}

proof fn lemma_two_digits(n: nat)
    requires
        n < 100,
    ensures
        padded(n, 2).len() == 2,
        unsigned(padded(n, 2)) == Some(n),
{
    padded_numbers_sort(n, 0);
    padded_number_reads_back(n, 2);
}

/// The second of the day at a time of day.
pub open spec fn second_of_day(hour: nat, minute: nat, second: nat) -> int {
    (3600 * hour + 60 * minute + second) as int
}

proof fn lemma_name_parts(
    name: Seq<char>,
    ty: Seq<char>,
    tm: Seq<char>,
    td: Seq<char>,
    th: Seq<char>,
    tn: Seq<char>,
    tz: Seq<char>,
)
    requires
        name == "ORR_"@ + ty + tm + td + "_"@ + th + tn + tz + ".mp4"@,
        "ORR_"@.len() == 4,
        "_"@.len() == 1,
        ".mp4"@.len() == 4,
        ty.len() == 4,
        tm.len() == 2,
        td.len() == 2,
        th.len() == 2,
        tn.len() == 2,
        tz.len() == 2,
    ensures
        name.subrange(0, 4) == "ORR_"@,
        name.subrange(4, 8) == ty,
        name.subrange(8, 10) == tm,
        name.subrange(10, 12) == td,
        name.len() == 23,
        name[12] == "_"@[0],
        name.subrange(13, 15) == th,
        name.subrange(15, 17) == tn,
        name.subrange(17, 19) == tz,
        name.subrange(19, 23) == ".mp4"@,
{
    assert(name.subrange(0, 4) =~= "ORR_"@);
    assert(name.subrange(4, 8) =~= ty);
    assert(name.subrange(8, 10) =~= tm);
    assert(name.subrange(10, 12) =~= td);
    assert(name.subrange(13, 15) =~= th);
    assert(name.subrange(15, 17) =~= tn);
    assert(name.subrange(17, 19) =~= tz);
    assert(name.subrange(19, 23) =~= ".mp4"@);
}

/// A marked line adds one encoder at most: the first that it names and that was not
/// known yet, in the order NVENC, QuickSync, AMF, CPU. Another line adds none, and
/// what was known stays known.
pub proof fn line_adds_the_first_encoder_not_known_yet(before: Seq<Seq<char>>, line: Seq<char>)
    ensures
        ({
            let known = listed(before);
            let all = listed(before.push(line));
            let marked = first_visible(line) == Some('A') || first_visible(line) == Some('V');
            let nvenc = holds_word(line, "h264_nvenc"@) && !known.contains(Encoder::Nvenc);
            let qsv = holds_word(line, "h264_qsv"@) && !known.contains(Encoder::Qsv);
            let amf = holds_word(line, "h264_amf"@) && !known.contains(Encoder::Amf);
            let cpu = holds_word(line, "libx264"@) && !known.contains(Encoder::X264);
            &&& all.len() <= known.len() + 1
            &&& forall|i: int| 0 <= i < known.len() ==> #[trigger] all[i] == known[i]
            &&& all.len() > known.len() <==> marked && (nvenc || qsv || amf || cpu)
            &&& marked && nvenc ==> all.last() is Nvenc
            &&& marked && qsv && !nvenc ==> all.last() is Qsv
            &&& marked && amf && !qsv && !nvenc ==> all.last() is Amf
            &&& marked && cpu && !amf && !qsv && !nvenc ==> all.last() is X264
        }),
{
    assert(before.push(line).drop_last() =~= before);
}

} // verus!
