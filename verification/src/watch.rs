//! Watching the external recorder: what it writes to its error stream, and what
//! is reported when it ends.

use crate::decode::{decode_lossy, lossy_text};
use crate::text::chars_of;
use vstd::prelude::*;
use vstd::utf8::{decode_utf8, encode_scalar, encode_utf8, valid_utf8};

verus! {

/// How much of the recorder's error stream is kept, in bytes.
pub const TAIL_BYTES: u64 = 4000;

/// Bytes that a character takes up in a string.
pub open spec fn width(c: char) -> nat {
    if (c as u32) < 0x80 {
        1
    } else if (c as u32) < 0x800 {
        2
    } else if (c as u32) < 0x10000 {
        3
    } else {
        4
    }
}

fn char_width(c: char) -> (r: u64)
    ensures
        r == width(c),
{
    let code: u32 = c as u32;
    if code < 0x80 {
        1
    } else if code < 0x800 {
        2
    } else if code < 0x10000 {
        3
    } else {
        4
    }
}

/// The longest end of `text` that takes up no more than `room` bytes.
pub open spec fn end_within(text: Seq<char>, room: nat) -> Seq<char>
    decreases text.len(),
{
    if text.len() == 0 || width(text.last()) > room {
        Seq::empty()
    } else {
        end_within(text.drop_last(), (room - width(text.last())) as nat).push(text.last())
    }
}

/// What is kept of a text: its end.
pub open spec fn tail_of(text: Seq<char>) -> Seq<char> {
    end_within(text, TAIL_BYTES as nat)
}

/// Adds a piece of the error stream, decoded by itself, and forgets what is too old.
pub fn keep_tail(tail: &mut String, chunk: &[u8])
    ensures
        final(tail)@ == tail_of(old(tail)@ + lossy_text(chunk@)),
        valid_utf8(chunk@) ==> final(tail)@ == tail_of(old(tail)@ + decode_utf8(chunk@)),
{
    let text = decode_lossy(chunk);
    keep_text(tail, text.as_str());
}

/// Adds a piece of text and forgets what is too old.
pub fn keep_text(tail: &mut String, text: &str)
    ensures
        final(tail)@ == tail_of(old(tail)@ + text@),
{
    tail.append(text);
    let letters = chars_of(tail.as_str());
    let n: usize = letters.len();
    let mut i: usize = n;
    let mut room: u64 = TAIL_BYTES;
    let ghost all = old(tail)@ + text@;
    assert(all.skip(n as int) =~= Seq::empty());
    assert(all.take(n as int) =~= all);
    assert(end_within(all, TAIL_BYTES as nat) + Seq::empty() =~= tail_of(all));
    while i > 0 && char_width(letters[i - 1]) <= room
        invariant
            i <= n,
            n == letters@.len(),
            letters@ == all,
            room <= TAIL_BYTES,
            end_within(all.take(i as int), room as nat) + all.skip(i as int) == tail_of(all),
        decreases i,
    {
        let ghost here = all.take(i as int);
        let c: char = letters[i - 1];
        proof {
            assert(here.last() == c);
            assert(here.drop_last() =~= all.take(i - 1));
            assert(end_within(here, room as nat) == end_within(
                all.take(i - 1),
                (room - width(c)) as nat,
            ).push(c));
            assert(end_within(all.take(i - 1), (room - width(c)) as nat) + all.skip(i - 1)
                =~= end_within(here, room as nat) + all.skip(i as int));
        }
        room = room - char_width(c);
        i = i - 1;
    }
    proof {
        if i > 0 {
            assert(all.take(i as int).last() == letters@[i - 1]);
        }
        assert(end_within(all.take(i as int), room as nat) =~= Seq::empty());
        assert(all.skip(i as int) =~= tail_of(all));
        assert(all.skip(i as int) =~= all.subrange(i as int, n as int));
    }
    if i > 0 {
        let kept = tail.as_str().substring_char(i, n).to_owned();
        *tail = kept;
    } else {
        assert(all.skip(0) =~= all);
    }
}

/// Keeping the end of a text piece by piece keeps the same as keeping it at once.
pub proof fn tail_does_not_depend_on_pieces(a: Seq<char>, b: Seq<char>)
    ensures
        tail_of(tail_of(a) + b) == tail_of(a + b),
{
    lemma_pieces(a, b, TAIL_BYTES as nat, TAIL_BYTES as nat);
}

proof fn lemma_pieces(a: Seq<char>, b: Seq<char>, first: nat, room: nat)
    requires
        room <= first,
    ensures
        end_within(end_within(a, first) + b, room) == end_within(a + b, room),
    decreases b.len(),
{
    let e = end_within(a, first);
    if b.len() == 0 {
        lemma_end_of_end(a, first, room);
        assert(e + b =~= e);
        assert(a + b =~= a);
    } else {
        assert((e + b).last() == b.last());
        assert((a + b).last() == b.last());
        assert((e + b).drop_last() =~= e + b.drop_last());
        assert((a + b).drop_last() =~= a + b.drop_last());
        if width(b.last()) <= room {
            lemma_pieces(a, b.drop_last(), first, (room - width(b.last())) as nat);
        }
    }
}

proof fn lemma_end_of_end(a: Seq<char>, first: nat, room: nat)
    requires
        room <= first,
    ensures
        end_within(end_within(a, first), room) == end_within(a, room),
    decreases a.len(),
{
    if a.len() > 0 && width(a.last()) <= first {
        let w = width(a.last());
        let less = end_within(a.drop_last(), (first - w) as nat);
        assert(less.push(a.last()).drop_last() =~= less);
        if w <= room {
            lemma_end_of_end(a.drop_last(), (first - w) as nat, (room - w) as nat);
        }
    }
}

/// What asking after the recorder brought.
#[derive(Clone, Debug)]
pub enum Poll {
    /// It is still running.
    Running,
    /// It ended well, or with the given status.
    Ended { success: bool, status: String },
    /// Asking failed, for the given reason.
    Lost(String),
}

/// What the application is told.
#[derive(Clone, Debug)]
pub enum Report {
    /// A second went by.
    Tick,
    /// The recording ended: with a file, or with the given failure.
    Finished(Option<String>),
}

/// What the failure of a recorder that ended badly says.
pub open spec fn exit_text(status: Seq<char>, tail: Seq<char>) -> Seq<char> {
    "ffmpeg exited with "@ + status + "\n"@ + tail
}

/// What the failure says when the recorder could not be asked after.
pub open spec fn lost_text(reason: Seq<char>) -> Seq<char> {
    "ffmpeg wait failed: "@ + reason
}

/// What is reported for what asking brought; `tail` is the end of the error
/// stream.
pub open spec fn reported(poll: Poll, tail: Seq<char>, r: Report) -> bool {
    match poll {
        Poll::Running => r is Tick,
        Poll::Ended { success, status } => match r {
            Report::Finished(None) => success,
            Report::Finished(Some(failure)) => !success && failure@ == exit_text(status@, tail),
            Report::Tick => false,
        },
        Poll::Lost(reason) => r matches Report::Finished(Some(failure)) && failure@ == lost_text(
            reason@,
        ),
    }
}

/// Turns what asking after the recorder brought into a report.
pub fn report(poll: Poll, tail: &str) -> (r: Report)
    ensures
        reported(poll, tail@, r),
{
    match poll {
        Poll::Running => Report::Tick,
        Poll::Ended { success, status } => {
            if success {
                Report::Finished(None)
            } else {
                let mut failure = "ffmpeg exited with ".to_owned();
                failure.append(status.as_str());
                failure.append("\n");
                failure.append(tail);
                Report::Finished(Some(failure))
            }
        },
        Poll::Lost(reason) => {
            let mut failure = "ffmpeg wait failed: ".to_owned();
            failure.append(reason.as_str());
            Report::Finished(Some(failure))
        },
    }
}

/// The watch goes on exactly as long as the recorder runs.
pub proof fn watch_ends_with_the_recorder(poll: Poll, tail: Seq<char>, r: Report)
    requires
        reported(poll, tail, r),
    ensures
        r is Tick <==> poll is Running,
{
}

proof fn lemma_one_more_character(s: Seq<char>, c: char)
    ensures
        encode_utf8(s.push(c)).len() == encode_utf8(s).len() + width(c),
    decreases s.len(),
{
    if s.len() == 0 {
        assert(s.push(c).drop_first() =~= Seq::empty());
        assert(encode_utf8(s.push(c)) == encode_scalar(c as u32) + encode_utf8(Seq::empty()));
    } else {
        lemma_one_more_character(s.drop_first(), c);
        assert(s.push(c).drop_first() =~= s.drop_first().push(c));
        assert(s.push(c)[0] == s[0]);
    }
}

proof fn lemma_end_within(text: Seq<char>, room: nat)
    ensures
        ({
            let t = end_within(text, room);
            let k = text.len() - t.len();
            &&& 0 <= k
            &&& t == text.skip(k)
            &&& encode_utf8(t).len() <= room
            &&& k > 0 ==> encode_utf8(text.skip(k - 1)).len() > room
        }),
    decreases text.len(),
{
    let t = end_within(text, room);
    if text.len() == 0 {
        assert(t =~= text.skip(0));
    } else {
        let c = text.last();
        let less = text.drop_last();
        if width(c) > room {
            assert(t =~= text.skip(text.len() as int));
            assert(text.skip(text.len() - 1) =~= Seq::empty().push(c));
            lemma_one_more_character(Seq::empty(), c);
        } else {
            let small = (room - width(c)) as nat;
            lemma_end_within(less, small);
            let s = end_within(less, small);
            let k = less.len() - s.len();
            assert(t =~= text.skip(k));
            lemma_one_more_character(s, c);
            if k > 0 {
                assert(text.skip(k - 1) =~= less.skip(k - 1).push(c));
                lemma_one_more_character(less.skip(k - 1), c);
            }
        }
    }
}

/// What is kept of a text is its end, at most 4000 bytes of it as UTF-8 has them, and
/// no whole character less than that.
pub proof fn kept_tail_is_the_longest_end(text: Seq<char>)
    ensures
        ({
            let t = tail_of(text);
            let k = text.len() - t.len();
            &&& 0 <= k
            &&& t == text.skip(k)
            &&& encode_utf8(t).len() <= 4000
            &&& k > 0 ==> encode_utf8(text.skip(k - 1)).len() > 4000
        }),
{
    lemma_end_within(text, 4000);
}

/// A recorder that ended well is reported without a failure. One that did not is
/// reported with its status and with what it wrote last; one that was lost, with the
/// reason.
pub proof fn failure_tells_what_happened(poll: Poll, tail: Seq<char>, r: Report)
    requires
        reported(poll, tail, r),
    ensures
        poll matches Poll::Ended { success, status } ==> {
            &&& r is Finished
            &&& success ==> r->Finished_0 is None
            &&& !success ==> r->Finished_0 is Some && r->Finished_0->0@ == "ffmpeg exited with "@
                + status@ + "\n"@ + tail
        },
        poll matches Poll::Lost(reason) ==> r is Finished && r->Finished_0 is Some
            && r->Finished_0->0@ == "ffmpeg wait failed: "@ + reason@,
        poll is Running ==> r is Tick,
{
}

} // verus!
