//! The command line.

use crate::recorder::{encoder_label, Capabilities, Rect};
use crate::text::{
    decimal, integer, parse_i64, parse_u64, push_str, push_string, same_text, signed_decimal,
    signed_number_reads_back, texts, unsigned, within_u64, written_number_reads_back,
};
use vstd::prelude::*;

verus! {

/// What the command line asks for.
#[derive(Clone, Debug)]
pub enum Command {
    /// Run the tray application.
    Tray,
    Version,
    Help,
    /// Show what the machine can record with.
    Probe,
    /// Record the whole screen.
    Record { seconds: u64, out: Option<String> },
    /// Record a fixed region.
    RecordArea { rect: Rect, seconds: u64, out: Option<String> },
    /// The region is not given in full.
    AreaUsage,
}

/// A number cut to 64 bits, signed: `None` beyond them.
pub open spec fn within_i64(n: Option<int>) -> Option<i64> {
    match n {
        Some(n) => if i64::MIN <= n <= i64::MAX {
            Some(n as i64)
        } else {
            None
        },
        None => None,
    }
}

/// The numbers among `words`, in order; other words are passed over.
pub open spec fn numbers(words: Seq<Seq<char>>) -> Seq<i64>
    decreases words.len(),
{
    if words.len() == 0 {
        Seq::empty()
    } else {
        let before = numbers(words.drop_last());
        match within_i64(integer(words.last())) {
            Some(n) => before.push(n),
            None => before,
        }
    }
}

/// The argument at place `i`, if there is one.
pub open spec fn nth(args: Seq<String>, i: int) -> Option<Seq<char>> {
    if i < args.len() {
        Some(args[i]@)
    } else {
        None
    }
}

/// The text of an optional string.
pub open spec fn text_of(s: Option<String>) -> Option<Seq<char>> {
    match s {
        Some(s) => Some(s@),
        None => None,
    }
}

/// Copies the argument at place `i`, if there is one.
fn argument(args: &Vec<String>, i: usize) -> (r: Option<String>)
    ensures
        text_of(r) == nth(args@, i as int),
{
    if i < args.len() {
        Some(args[i].clone())
    } else {
        None
    }
}

/// Seconds to record the whole screen: the first argument, five without a number
/// there.
pub open spec fn record_seconds(args: Seq<String>) -> u64 {
    match nth(args, 2) {
        Some(word) => match within_u64(unsigned(word)) {
            Some(n) => n,
            None => 5,
        },
        None => 5,
    }
}

/// The numbers that a region command gives.
pub open spec fn area_numbers(args: Seq<String>) -> Seq<i64> {
    numbers(texts(args).skip(2))
}

/// What `cmd` has to be for the given command line (the first argument is the
/// program's own name). A region takes four numbers; the fifth, if given, is the
/// time in seconds, three without one.
pub open spec fn asks_for(args: Seq<String>, cmd: Command) -> bool {
    match nth(args, 1) {
        None => cmd is Tray,
        Some(word) => if word == "--version"@ {
            cmd is Version
        } else if word == "-h"@ || word == "--help"@ {
            cmd is Help
        } else if word == "probe"@ {
            cmd is Probe
        } else if word == "cli-rec"@ {
            cmd matches Command::Record { seconds, out } && seconds == record_seconds(args)
                && text_of(out) == nth(args, 3)
        } else if word == "cli-area"@ {
            let n = area_numbers(args);
            if n.len() < 4 {
                cmd is AreaUsage
            } else {
                cmd matches Command::RecordArea { rect, seconds, out } && rect == (Rect {
                    x: n[0] as i32,
                    y: n[1] as i32,
                    w: n[2] as u32,
                    h: n[3] as u32,
                }) && seconds == (if n.len() > 4 {
                    n[4] as u64
                } else {
                    3
                }) && text_of(out) == nth(args, 7)
            }
        } else {
            cmd is Tray
        },
    }
}

/// Collects the numbers among the arguments from place `from` on.
fn collect_numbers(args: &Vec<String>, from: usize) -> (r: Vec<i64>)
    requires
        from <= args@.len(),
    ensures
        r@ == numbers(texts(args@).skip(from as int)),
{
    let mut out: Vec<i64> = Vec::new();
    let mut i: usize = from;
    let ghost words = texts(args@).skip(from as int);
    assert(words.take(0) =~= Seq::empty());
    while i < args.len()
        invariant
            from <= i <= args@.len(),
            words == texts(args@).skip(from as int),
            out@ == numbers(words.take(i - from)),
        decreases args@.len() - i,
    {
        proof {
            assert(words.take(i - from + 1).drop_last() =~= words.take(i - from));
            assert(words.take(i - from + 1).last() == args@[i as int]@);
        }
        if let Some(n) = parse_i64(args[i].as_str()) {
            out.push(n);
        }
        i = i + 1;
    }
    assert(words.take(i - from) =~= words);
    out
}

/// Reads the command line.
pub fn parse_command(args: &Vec<String>) -> (r: Command)
    ensures
        asks_for(args@, r),
{
    if args.len() < 2 {
        return Command::Tray;
    }
    let word = args[1].as_str();
    if same_text(word, "--version") {
        return Command::Version;
    }
    if same_text(word, "-h") || same_text(word, "--help") {
        return Command::Help;
    }
    if same_text(word, "probe") {
        return Command::Probe;
    }
    if same_text(word, "cli-rec") {
        let mut seconds: u64 = 5;
        if args.len() > 2 {
            if let Some(n) = parse_u64(args[2].as_str()) {
                seconds = n;
            }
        }
        return Command::Record { seconds, out: argument(args, 3) };
    }
    if same_text(word, "cli-area") {
        let n = collect_numbers(args, 2);
        if n.len() < 4 {
            return Command::AreaUsage;
        }
        let rect = Rect { x: n[0] as i32, y: n[1] as i32, w: n[2] as u32, h: n[3] as u32 };
        let seconds: u64 = if n.len() > 4 {
            n[4] as u64
        } else {
            3
        };
        return Command::RecordArea { rect, seconds, out: argument(args, 7) };
    }
    Command::Tray
}

/// A label, two spaces in.
pub open spec fn indented(label: Seq<char>) -> Seq<char> {
    "  "@ + label
}

/// Yes or no.
pub open spec fn truth(b: bool) -> Seq<char> {
    if b {
        "true"@
    } else {
        "false"@
    }
}

/// What the probe prints: the recorder's path, whether the GPU grabber is there,
/// the usable encoders, and the one that is picked automatically.
pub open spec fn probe_text(path: Seq<char>, caps: Capabilities) -> Seq<Seq<char>> {
    seq!["ffmpeg: "@ + path, "ddagrab filter: "@ + truth(caps.ddagrab), "encoders:"@] + Seq::new(
        caps.encoders@.len(),
        |i: int| indented(encoder_label(caps.encoders@[i])),
    ) + seq![
        "auto: "@ + (if caps.encoders@.len() == 0 {
            "none"@
        } else {
            encoder_label(caps.encoders@[0])
        }),
    ]
}

/// Writes what the probe prints, line by line.
pub fn probe_lines(path: &str, caps: &Capabilities) -> (r: Vec<String>)
    ensures
        texts(r@) == probe_text(path@, *caps),
{
    let mut out: Vec<String> = Vec::new();
    let mut first = "ffmpeg: ".to_owned();
    first.append(path);
    push_string(&mut out, first);
    let mut second = "ddagrab filter: ".to_owned();
    if caps.ddagrab {
        second.append("true");
    } else {
        second.append("false");
    }
    push_string(&mut out, second);
    push_str(&mut out, "encoders:");
    let ghost head = texts(out@);
    assert(head =~= seq![
        "ffmpeg: "@ + path@,
        "ddagrab filter: "@ + truth(caps.ddagrab),
        "encoders:"@,
    ]);
    let mut i: usize = 0;
    assert(texts(out@) =~= head + Seq::new(
        0,
        |j: int| indented(encoder_label(caps.encoders@[j])),
    ));
    while i < caps.encoders.len()
        invariant
            i <= caps.encoders@.len(),
            texts(out@) == head + Seq::new(
                i as nat,
                |j: int| indented(encoder_label(caps.encoders@[j])),
            ),
        decreases caps.encoders@.len() - i,
    {
        let mut line = "  ".to_owned();
        line.append(caps.encoders[i].label());
        push_string(&mut out, line);
        i = i + 1;
        assert(texts(out@) =~= head + Seq::new(
            i as nat,
            |j: int| indented(encoder_label(caps.encoders@[j])),
        ));
    }
    let mut last = "auto: ".to_owned();
    if caps.encoders.len() == 0 {
        last.append("none");
    } else {
        last.append(caps.encoders[0].label());
    }
    push_string(&mut out, last);
    assert(texts(out@) =~= probe_text(path@, *caps));
    out
}

/// How a recording is made.
#[derive(Clone, Copy, PartialEq, Eq, Debug, Structural)]
pub enum RecordPath {
    /// Within the process.
    Native,
    /// By the external recorder.
    External,
    /// Not at all: the external recorder's arguments are printed instead.
    PrintOnly,
}

/// How recordings are made, given the value of the switch that asks for the
/// external recorder, if it is set, and whether its arguments are to be printed.
pub fn record_path(external: Option<&str>, print_only: bool) -> (r: RecordPath)
    ensures
        print_only ==> r is PrintOnly,
        !print_only && external is Some && external->0@ == "1"@ ==> r is External,
        !print_only && !(external is Some && external->0@ == "1"@) ==> r is Native,
{
    if print_only {
        return RecordPath::PrintOnly;
    }
    match external {
        Some(value) => {
            if same_text(value, "1") {
                RecordPath::External
            } else {
                RecordPath::Native
            }
        },
        None => RecordPath::Native,
    }
}

proof fn lemma_command_words_differ()
    ensures
        "--version"@ != "-h"@,
        "--version"@ != "--help"@,
        "--version"@ != "probe"@,
        "--version"@ != "cli-rec"@,
        "--version"@ != "cli-area"@,
        "-h"@ != "probe"@,
        "-h"@ != "cli-rec"@,
        "-h"@ != "cli-area"@,
        "--help"@ != "probe"@,
        "--help"@ != "cli-rec"@,
        "--help"@ != "cli-area"@,
        "probe"@ != "cli-rec"@,
        "probe"@ != "cli-area"@,
        "cli-rec"@ != "cli-area"@,
{
    reveal_strlit("--version");
    reveal_strlit("-h");
    reveal_strlit("--help");
    reveal_strlit("probe");
    reveal_strlit("cli-rec");
    reveal_strlit("cli-area");
    assert("--version"@.len() == 9 && "-h"@.len() == 2 && "--help"@.len() == 6);
    assert("probe"@.len() == 5 && "cli-rec"@.len() == 7 && "cli-area"@.len() == 8);
}

/// The first word decides what is done; without one, or with one that is not known,
/// the tray application runs.
pub proof fn first_word_decides(args: Seq<String>, cmd: Command)
    requires
        asks_for(args, cmd),
    ensures
        args.len() < 2 ==> cmd is Tray,
        args.len() >= 2 ==> {
            let word = args[1]@;
            &&& word == "--version"@ ==> cmd is Version
            &&& word == "-h"@ || word == "--help"@ ==> cmd is Help
            &&& word == "probe"@ ==> cmd is Probe
            &&& word == "cli-rec"@ ==> cmd is Record
            &&& word == "cli-area"@ ==> cmd is RecordArea || cmd is AreaUsage
            &&& word != "--version"@ && word != "-h"@ && word != "--help"@ && word != "probe"@
                && word != "cli-rec"@ && word != "cli-area"@ ==> cmd is Tray
        },
{
    lemma_command_words_differ();
}

/// Recording the whole screen from the command line takes as many seconds as the word
/// behind the command says, five if there is no number, and goes to the path behind
/// that, if there is one.
pub proof fn recording_command_reads_back(args: Seq<String>, cmd: Command, n: u64)
    requires
        asks_for(args, cmd),
        args.len() >= 2,
        args[1]@ == "cli-rec"@,
    ensures
        cmd is Record,
        args.len() > 2 && args[2]@ == decimal(n as nat) ==> cmd->Record_seconds == n,
        args.len() == 2 ==> cmd->Record_seconds == 5,
        args.len() > 2 && unsigned(args[2]@) is None ==> cmd->Record_seconds == 5,
        args.len() > 3 ==> cmd->Record_out is Some && cmd->Record_out->0@ == args[3]@,
        args.len() <= 3 ==> cmd->Record_out is None,
{
    lemma_command_words_differ();
    written_number_reads_back(n as nat);
}

proof fn lemma_numbers_prefix(words: Seq<Seq<char>>, k: int)
    requires
        0 <= k <= words.len(),
    ensures
        numbers(words.take(k)).len() <= numbers(words).len(),
        forall|i: int|
            0 <= i < numbers(words.take(k)).len() ==> #[trigger] numbers(words)[i] == numbers(
                words.take(k),
            )[i],
    decreases words.len() - k,
{
    if k < words.len() {
        lemma_numbers_prefix(words, k + 1);
        assert(words.take(k + 1).drop_last() =~= words.take(k));
        assert forall|i: int| 0 <= i < numbers(words.take(k)).len() implies #[trigger] numbers(
            words,
        )[i] == numbers(words.take(k))[i] by {
            assert(numbers(words.take(k + 1))[i] == numbers(words.take(k))[i]);
        }
    } else {
        assert(words.take(k) =~= words);
    }
}

proof fn lemma_all_numbers(words: Seq<Seq<char>>)
    requires
        forall|i: int| 0 <= i < words.len() ==> within_i64(integer(#[trigger] words[i])) is Some,
    ensures
        numbers(words).len() == words.len(),
        forall|i: int|
            0 <= i < words.len() ==> #[trigger] numbers(words)[i] == within_i64(
                integer(words[i]),
            )->0,
    decreases words.len(),
{
    if words.len() > 0 {
        let less = words.drop_last();
        assert forall|i: int| 0 <= i < less.len() implies within_i64(
            integer(#[trigger] less[i]),
        ) is Some by {
            assert(less[i] == words[i]);
        }
        lemma_all_numbers(less);
        assert(words.last() == words[words.len() - 1]);
        assert forall|i: int| 0 <= i < words.len() implies #[trigger] numbers(words)[i]
            == within_i64(integer(words[i]))->0 by {
            if i < less.len() {
                assert(less[i] == words[i]);
                assert(numbers(less)[i] == within_i64(integer(less[i]))->0);
            }
        }
    }
}

/// Recording a region from the command line takes the region from the four numbers
/// behind the command, left, top, width, height, and the seconds from the fifth, three
/// without one; and goes to the path behind that, if there is one.
pub proof fn region_command_reads_back(args: Seq<String>, cmd: Command, rect: Rect, seconds: u64)
    requires
        asks_for(args, cmd),
        args.len() >= 6,
        args[1]@ == "cli-area"@,
        args[2]@ == signed_decimal(rect.x as int),
        args[3]@ == signed_decimal(rect.y as int),
        args[4]@ == decimal(rect.w as nat),
        args[5]@ == decimal(rect.h as nat),
        args.len() > 6 ==> args[6]@ == decimal(seconds as nat),
        seconds <= i64::MAX,
    ensures
        cmd is RecordArea,
        cmd->RecordArea_rect == rect,
        args.len() > 6 ==> cmd->RecordArea_seconds == seconds,
        args.len() == 6 ==> cmd->RecordArea_seconds == 3,
        args.len() > 7 ==> cmd->RecordArea_out is Some && cmd->RecordArea_out->0@ == args[7]@,
        args.len() <= 7 ==> cmd->RecordArea_out is None,
{
    lemma_command_words_differ();
    let words = texts(args).skip(2);
    let k: int = if args.len() > 6 {
        5
    } else {
        4
    };
    let first = words.take(k);
    signed_number_reads_back(rect.x as int);
    signed_number_reads_back(rect.y as int);
    signed_number_reads_back(rect.w as int);
    signed_number_reads_back(rect.h as int);
    signed_number_reads_back(seconds as int);
    assert(first[0] == args[2]@ && first[1] == args[3]@ && first[2] == args[4]@ && first[3]
        == args[5]@);
    assert(k == 5 ==> first[4] == args[6]@);
    assert forall|i: int| 0 <= i < first.len() implies within_i64(
        integer(#[trigger] first[i]),
    ) is Some by {}
    lemma_all_numbers(first);
    lemma_numbers_prefix(words, k);
    let n = area_numbers(args);
    assert(n[0] == rect.x && n[1] == rect.y && n[2] == rect.w && n[3] == rect.h);
    assert(k == 5 ==> n[4] == seconds);
    if k == 4 {
        assert(words.take(4) =~= words);
    }
}

/// Fewer than four words behind the command are too few for a region.
pub proof fn region_command_needs_four_numbers(args: Seq<String>, cmd: Command)
    requires
        asks_for(args, cmd),
        2 <= args.len() < 6,
        args[1]@ == "cli-area"@,
    ensures
        cmd is AreaUsage,
{
    lemma_command_words_differ();
    lemma_numbers_are_words(texts(args).skip(2));
}

proof fn lemma_numbers_are_words(words: Seq<Seq<char>>)
    ensures
        numbers(words).len() <= words.len(),
    decreases words.len(),
{
    if words.len() > 0 {
        lemma_numbers_are_words(words.drop_last());
    }
}

/// The probe names the recorder's path, says whether the GPU grabber is there, lists
/// the usable encoders by their labels in order, and names the first as the automatic
/// choice.
pub proof fn probe_tells_what_there_is(path: Seq<char>, caps: Capabilities, i: int)
    requires
        0 <= i < caps.encoders@.len(),
    ensures
        ({
            let t = probe_text(path, caps);
            &&& t.len() == caps.encoders@.len() + 4
            &&& t[0] == "ffmpeg: "@ + path
            &&& caps.ddagrab ==> t[1] == "ddagrab filter: "@ + "true"@
            &&& !caps.ddagrab ==> t[1] == "ddagrab filter: "@ + "false"@
            &&& t[3 + i] == "  "@ + encoder_label(caps.encoders@[i])
            &&& t.last() == "auto: "@ + encoder_label(caps.encoders@[0])
        }),
{
}

/// Without an encoder the probe says that there is none to choose.
pub proof fn probe_tells_that_there_is_none(path: Seq<char>, caps: Capabilities)
    requires
        caps.encoders@.len() == 0,
    ensures
        probe_text(path, caps).len() == 4,
        probe_text(path, caps).last() == "auto: "@ + "none"@,
{
}

/// The numbers among words are picked one by one, in order, and other words are passed
/// over, wherever they stand.
pub proof fn other_words_are_passed_over(a: Seq<Seq<char>>, b: Seq<Seq<char>>, word: Seq<char>, n: int)
    ensures
        numbers(a + b) == numbers(a) + numbers(b),
        integer(word) is None ==> numbers(seq![word]).len() == 0,
        i64::MIN <= n <= i64::MAX && integer(word) == Some(n) ==> numbers(seq![word]) == seq![
            n as i64,
        ],
    decreases b.len(),
{
    assert(seq![word].drop_last() =~= Seq::empty());
    assert(numbers(Seq::empty()) =~= Seq::empty());
    assert(i64::MIN <= n <= i64::MAX && integer(word) == Some(n) ==> numbers(seq![word]) =~= seq![
        n as i64,
    ]);
    if b.len() == 0 {
        assert(a + b =~= a);
        assert(numbers(a) + numbers(b) =~= numbers(a));
    } else {
        assert((a + b).drop_last() =~= a + b.drop_last());
        other_words_are_passed_over(a, b.drop_last(), word, n);
        assert(numbers(a + b) =~= numbers(a) + numbers(b));
    }
}

} // verus!
