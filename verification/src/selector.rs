//! The rubber band: picking a screen region with the mouse.

use crate::capture::gdi::Screen;
use crate::capture::wgcap::ScreenRect;
use crate::num::{larger, smaller};
use crate::recorder::Rect;
use vstd::prelude::*;

verus! {

/// How picking a region ended.
#[derive(Clone, Debug)]
pub enum Outcome {
    Selected(Rect),
    Cancelled(String),
}

/// Smallest width and height of a region that can be picked.
pub const MIN_EXTENT: u32 = 16;

/// A colour as the window system packs it: red in the lowest byte.
pub fn rgb(r: u32, g: u32, b: u32) -> (c: u32)
    ensures
        c == r | (g << 8) | (b << 16),
        r < 256 && g < 256 && b < 256 ==> c == r + 256 * g + 65536 * b,
{
    assert(r < 256 && g < 256 && b < 256 ==> r | (g << 8) | (b << 16) == r + 256 * g + 65536 * b)
        by (bit_vector);
    r | (g << 8) | (b << 16)
}

/// Sixteen bits read as a signed number.
pub open spec fn signed_16(n: int) -> int {
    if n < 0x8000 {
        n
    } else {
        n - 0x10000
    }
}

fn sign_extend(n: i64) -> (r: i32)
    requires
        0 <= n <= 0xffff,
    ensures
        r == signed_16(n as int),
{
    if n < 0x8000 {
        n as i32
    } else {
        (n - 0x10000) as i32
    }
}

/// The point that a mouse message carries: x in the lowest sixteen bits, y in the
/// next sixteen, both signed.
pub fn pt(lparam: i64) -> (r: (i32, i32))
    ensures
        r.0 == signed_16((lparam & 0xffff) as int),
        r.1 == signed_16(((lparam >> 16) & 0xffff) as int),
        r == point_of(lparam),
        message_point(r),
{
    assert(0 <= lparam & 0xffff <= 0xffff) by (bit_vector);
    assert(0 <= (lparam >> 16) & 0xffff <= 0xffff) by (bit_vector);
    (sign_extend(lparam & 0xffff), sign_extend((lparam >> 16) & 0xffff))
}

/// A point that a mouse message can carry.
pub open spec fn message_point(p: (i32, i32)) -> bool {
    -0x8000 <= p.0 < 0x8000 && -0x8000 <= p.1 < 0x8000
}

/// Distance of two numbers.
pub open spec fn gap(a: i32, b: i32) -> int {
    larger(a as int, b as int) - smaller(a as int, b as int)
}

fn distance(a: i32, b: i32) -> (r: u32)
    ensures
        r == gap(a, b),
{
    if a >= b {
        (a as i64 - b as i64) as u32
    } else {
        (b as i64 - a as i64) as u32
    }
}

/// The rectangle spanned by two corners.
pub open spec fn spanned(a: (i32, i32), b: (i32, i32)) -> Rect {
    Rect {
        x: smaller(a.0 as int, b.0 as int) as i32,
        y: smaller(a.1 as int, b.1 as int) as i32,
        w: gap(a.0, b.0) as u32,
        h: gap(a.1, b.1) as u32,
    }
}

/// Computes [`spanned`].
fn span(a: (i32, i32), b: (i32, i32)) -> (r: Rect)
    ensures
        r == spanned(a, b),
{
    Rect {
        x: if a.0 <= b.0 {
            a.0
        } else {
            b.0
        },
        y: if a.1 <= b.1 {
            a.1
        } else {
            b.1
        },
        w: distance(a.0, b.0),
        h: distance(a.1, b.1),
    }
}

/// Large enough to be picked.
pub open spec fn large_enough(r: Rect) -> bool {
    r.w >= MIN_EXTENT && r.h >= MIN_EXTENT
}

/// The direction of the drag does not matter: both orders of two corners span
/// the same rectangle.
pub proof fn drag_direction_does_not_matter(a: (i32, i32), b: (i32, i32))
    ensures
        spanned(a, b) == spanned(b, a),
{
}

/// `origin` moved by `by`, no further than the coordinates go.
pub open spec fn moved(origin: i32, by: i32) -> i32 {
    let at = origin + by;
    if at < i32::MIN {
        i32::MIN
    } else if at > i32::MAX {
        i32::MAX
    } else {
        at as i32
    }
}

fn move_by(origin: i32, by: i32) -> (r: i32)
    ensures
        r == moved(origin, by),
{
    let at: i64 = origin as i64 + by as i64;
    if at < i32::MIN as i64 {
        i32::MIN
    } else if at > i32::MAX as i64 {
        i32::MAX
    } else {
        at as i32
    }
}

/// The region of the screen that a rectangle on the overlay covers: the overlay
/// lies over the whole virtual screen.
pub open spec fn on_the_screen(r: Rect, screen: Screen) -> Rect {
    Rect { x: moved(screen.0, r.x), y: moved(screen.1, r.y), w: r.w, h: r.h }
}

/// State of the overlay while a region is picked. Points are relative to the
/// overlay; the region that is picked is in screen coordinates.
#[derive(Debug)]
pub struct OverlayState {
    /// The virtual screen, which the overlay covers.
    pub screen: Screen,
    /// Where the drag began, while one is under way.
    pub origin: Option<(i32, i32)>,
    pub current: (i32, i32),
    pub result: Option<Outcome>,
}

/// The button went up at `at`: the state after it, and whether picking is over.
pub open spec fn released(s: OverlayState, at: (i32, i32), t: OverlayState, done: bool) -> bool {
    &&& t.origin is None
    &&& t.current == s.current
    &&& t.screen == s.screen
    &&& match s.origin {
        None => !done && t.result == s.result,
        Some(from) => {
            &&& done == large_enough(spanned(from, at))
            &&& done ==> t.result == Some(
                Outcome::Selected(on_the_screen(spanned(from, at), s.screen)),
            )
            &&& !done ==> t.result is Some && is_too_small(t.result->0)
        },
    }
}

/// The reason given for a region that is too small.
pub open spec fn is_too_small(o: Outcome) -> bool {
    o matches Outcome::Cancelled(why) && why@ == "selection too small"@
}

/// The reason given when the user pressed the escape key.
pub open spec fn is_cancelled(o: Outcome) -> bool {
    o matches Outcome::Cancelled(why) && why@ == "cancelled"@
}

/// The reason given when the overlay was closed without a result.
pub open spec fn is_closed(o: Outcome) -> bool {
    o matches Outcome::Cancelled(why) && why@ == "closed"@
}

/// What the window does in answer to a message.
#[derive(Clone, Copy, PartialEq, Eq, Debug, Structural)]
pub enum Reaction {
    /// Hand the message on to the system.
    PassOn,
    /// Nothing more.
    Done,
    /// Take hold of the mouse and paint again.
    Grab,
    /// Paint again.
    Repaint,
    /// Let go of the mouse.
    LetGo,
    /// Let go of the mouse and close.
    LetGoAndClose,
    /// Close.
    Close,
    /// Paint what [`OverlayState::painting`] says.
    Paint,
}

/// Message: the window is closing.
pub const DESTROY: u32 = 0x0002;

/// Message: the window has to be painted.
pub const PAINT: u32 = 0x000F;

/// Message: a key went down.
pub const KEY_DOWN: u32 = 0x0100;

/// Message: the mouse moved.
pub const MOUSE_MOVE: u32 = 0x0200;

/// Message: the left button went down.
pub const BUTTON_DOWN: u32 = 0x0201;

/// Message: the left button went up.
pub const BUTTON_UP: u32 = 0x0202;

/// Code of the escape key.
pub const ESCAPE: u64 = 0x1B;

/// The point in a message, as [`pt`] reads it.
pub open spec fn point_of(lparam: i64) -> (i32, i32) {
    (
        signed_16((lparam & 0xffff) as int) as i32,
        signed_16(((lparam >> 16) & 0xffff) as int) as i32,
    )
}

/// What a message does: the state before it, the state after it, the answer.
pub open spec fn handled(
    s: OverlayState,
    msg: u32,
    wparam: u64,
    lparam: i64,
    t: OverlayState,
    r: Reaction,
) -> bool {
    let at = point_of(lparam);
    if msg == BUTTON_DOWN {
        t == (OverlayState { origin: Some(at), current: at, ..s }) && r == Reaction::Grab
    } else if msg == MOUSE_MOVE && s.origin is Some {
        t == (OverlayState { current: at, ..s }) && r == Reaction::Repaint
    } else if msg == BUTTON_UP {
        ||| r == Reaction::LetGo && released(s, at, t, false)
        ||| r == Reaction::LetGoAndClose && released(s, at, t, true)
    } else if msg == KEY_DOWN && wparam % 0x10000 == ESCAPE {
        &&& t.origin is None
        &&& t.current == s.current
        &&& t.screen == s.screen
        &&& t.result is Some
        &&& is_cancelled(t.result->0)
        &&& r == Reaction::Close
    } else {
        &&& t == s
        &&& r == if msg == DESTROY {
            Reaction::Close
        } else if msg == PAINT {
            Reaction::Paint
        } else if msg == MOUSE_MOVE || msg == KEY_DOWN {
            Reaction::Done
        } else {
            Reaction::PassOn
        }
    }
}

/// What the overlay shows.
#[derive(Debug)]
pub struct Painting {
    /// Colour that the whole overlay is filled with.
    pub background: u32,
    /// Colour of the bars.
    pub foreground: u32,
    /// The bars, in the order in which they are painted.
    pub bars: Vec<ScreenRect>,
}

impl OverlayState {
    /// Both ends of a drag are points that messages carry.
    pub open spec fn inv(self) -> bool {
        &&& self.origin matches Some(o) ==> message_point(o)
        &&& message_point(self.current)
    }

    /// Handles one message of the window: `wparam` holds the key of a key message,
    /// `lparam` the point of a mouse message.
    pub fn handle(&mut self, msg: u32, wparam: u64, lparam: i64) -> (r: Reaction)
        ensures
            handled(*old(self), msg, wparam, lparam, *final(self), r),
            old(self).inv() ==> final(self).inv(),
    {
        if msg == BUTTON_DOWN {
            self.press(pt(lparam));
            Reaction::Grab
        } else if msg == MOUSE_MOVE {
            if self.drag(pt(lparam)) {
                Reaction::Repaint
            } else {
                Reaction::Done
            }
        } else if msg == BUTTON_UP {
            if self.release(pt(lparam)) {
                Reaction::LetGoAndClose
            } else {
                Reaction::LetGo
            }
        } else if msg == KEY_DOWN {
            if wparam % 0x10000 == ESCAPE {
                self.escape();
                Reaction::Close
            } else {
                Reaction::Done
            }
        } else if msg == DESTROY {
            Reaction::Close
        } else if msg == PAINT {
            Reaction::Paint
        } else {
            Reaction::PassOn
        }
    }

    /// What to paint: a dark ground, and the green bars of the rubber band while
    /// a drag is under way.
    pub fn painting(&self) -> (r: Painting)
        requires
            self.inv(),
        ensures
            r.background == 18 + 256 * 18 + 65536 * 24,
            r.foreground == 60 + 256 * 232 + 65536 * 110,
            self.origin is None ==> r.bars@.len() == 0,
            self.origin matches Some(o) ==> r.bars@ == band(spanned(o, self.current)),
    {
        Painting {
            background: rgb(18, 18, 24),
            foreground: rgb(60, 232, 110),
            bars: self.bars(),
        }
    }

    /// Nothing happened yet on an overlay over the given screen.
    pub fn new(screen: Screen) -> (r: OverlayState)
        ensures
            r == (OverlayState { screen, origin: None, current: (0, 0), result: None }),
            r.inv(),
    {
        OverlayState { screen, origin: None, current: (0, 0), result: None }
    }

    /// The mouse button went down: a drag begins.
    pub fn press(&mut self, at: (i32, i32))
        ensures
            *final(self) == (OverlayState { origin: Some(at), current: at, ..*old(self) }),
    {
        self.origin = Some(at);
        self.current = at;
    }

    /// The mouse moved; says whether the overlay has to be painted again.
    pub fn drag(&mut self, to: (i32, i32)) -> (repaint: bool)
        ensures
            repaint == old(self).origin is Some,
            repaint ==> *final(self) == (OverlayState { current: to, ..*old(self) }),
            !repaint ==> *final(self) == *old(self),
    {
        if self.origin.is_some() {
            self.current = to;
            true
        } else {
            false
        }
    }

    /// The mouse button went up: the drag ends. Says whether picking is over; a
    /// region that is too small is noted, and the user may try again.
    pub fn release(&mut self, at: (i32, i32)) -> (done: bool)
        ensures
            released(*old(self), at, *final(self), done),
    {
        match self.origin {
            None => false,
            Some(from) => {
                self.origin = None;
                let r = span(from, at);
                if r.w >= MIN_EXTENT && r.h >= MIN_EXTENT {
                    let x: i32 = move_by(self.screen.0, r.x);
                    let y: i32 = move_by(self.screen.1, r.y);
                    self.result = Some(Outcome::Selected(Rect { x, y, w: r.w, h: r.h }));
                    true
                } else {
                    self.result = Some(Outcome::Cancelled("selection too small".to_owned()));
                    false
                }
            },
        }
    }

    /// The escape key was pressed: picking is over.
    pub fn escape(&mut self)
        ensures
            final(self).origin is None,
            final(self).current == old(self).current,
            final(self).screen == old(self).screen,
            final(self).result is Some,
            is_cancelled(final(self).result->0),
    {
        self.origin = None;
        self.result = Some(Outcome::Cancelled("cancelled".to_owned()));
    }

    /// Takes the result; without one the overlay was closed.
    pub fn take_result(&mut self) -> (r: Outcome)
        ensures
            old(self).result matches Some(o) ==> r == o,
            old(self).result is None ==> is_closed(r),
            *final(self) == (OverlayState { result: None, ..*old(self) }),
    {
        match self.result.take() {
            Some(o) => o,
            None => Outcome::Cancelled("closed".to_owned()),
        }
    }

    /// The four bars, two pixels thick, of the rubber band between the drag's
    /// origin and the current point; none without a drag.
    pub fn bars(&self) -> (r: Vec<ScreenRect>)
        requires
            self.inv(),
        ensures
            self.origin is None ==> r@.len() == 0,
            self.origin matches Some(o) ==> r@ == band(spanned(o, self.current)),
    {
        let mut bars: Vec<ScreenRect> = Vec::new();
        if let Some(o) = self.origin {
            let r = span(o, self.current);
            let right: i32 = r.x + r.w as i32;
            let bottom: i32 = r.y + r.h as i32;
            bars.push(ScreenRect { left: r.x, top: r.y, right, bottom: r.y + 2 });
            bars.push(ScreenRect { left: r.x, top: bottom - 2, right, bottom });
            bars.push(ScreenRect { left: r.x, top: r.y, right: r.x + 2, bottom });
            bars.push(ScreenRect { left: right - 2, top: r.y, right, bottom });
            assert(bars@ =~= band(spanned(o, self.current)));
        }
        bars
    }
}

/// Top, bottom, left and right bar along the inside of a rectangle.
pub open spec fn band(r: Rect) -> Seq<ScreenRect> {
    let right = (r.x + r.w) as i32;
    let bottom = (r.y + r.h) as i32;
    seq![
        ScreenRect { left: r.x, top: r.y, right, bottom: (r.y + 2) as i32 },
        ScreenRect { left: r.x, top: (r.y + r.h - 2) as i32, right, bottom },
        ScreenRect { left: r.x, top: r.y, right: (r.x + 2) as i32, bottom },
        ScreenRect { left: (r.x + r.w - 2) as i32, top: r.y, right, bottom },
    ]
}

/// A drag: the button goes down at `from`, the mouse moves over `over`, the button
/// goes up at `to`. The overlay goes through `states`: before the drag, after the
/// button went down, and after each move; then it is in state `ended` and answers
/// `end`. The messages carry `keys`, which does not matter.
pub open spec fn dragged(
    states: Seq<OverlayState>,
    keys: u64,
    from: i64,
    over: Seq<i64>,
    to: i64,
    ended: OverlayState,
    end: Reaction,
) -> bool {
    &&& states.len() == over.len() + 2
    &&& handled(states[0], BUTTON_DOWN, keys, from, states[1], Reaction::Grab)
    &&& forall|i: int|
        0 <= i < over.len() ==> handled(
            states[i + 1],
            MOUSE_MOVE,
            keys,
            #[trigger] over[i],
            states[i + 2],
            Reaction::Repaint,
        )
    &&& handled(states.last(), BUTTON_UP, keys, to, ended, end)
}

/// A drag from one point to another, with any movements in between, picks the part
/// of the screen between the two points, and no other; if that is too small the
/// overlay stays open and nothing is picked.
pub proof fn drag_picks_what_it_spans(
    states: Seq<OverlayState>,
    keys: u64,
    from: i64,
    over: Seq<i64>,
    to: i64,
    ended: OverlayState,
    end: Reaction,
)
    requires
        dragged(states, keys, from, over, to, ended, end),
    ensures
        end == Reaction::LetGoAndClose <==> large_enough(spanned(point_of(from), point_of(to))),
        end == Reaction::LetGoAndClose ==> ended.result == Some(
            Outcome::Selected(
                on_the_screen(spanned(point_of(from), point_of(to)), states[0].screen),
            ),
        ),
        end != Reaction::LetGoAndClose ==> !(ended.result is Some && ended.result->0 is Selected),
{
    lemma_drag_keeps_its_origin(states, keys, from, over, over.len() as int);
    assert(states.last() == states[(over.len() + 1) as int]);
}

proof fn lemma_drag_keeps_its_origin(
    states: Seq<OverlayState>,
    keys: u64,
    from: i64,
    over: Seq<i64>,
    n: int,
)
    requires
        states.len() == over.len() + 2,
        handled(states[0], BUTTON_DOWN, keys, from, states[1], Reaction::Grab),
        forall|i: int|
            0 <= i < over.len() ==> handled(
                states[i + 1],
                MOUSE_MOVE,
                keys,
                #[trigger] over[i],
                states[i + 2],
                Reaction::Repaint,
            ),
        0 <= n <= over.len(),
    ensures
        states[n + 1].origin == Some(point_of(from)),
        states[n + 1].screen == states[0].screen,
    decreases n,
{
    if n > 0 {
        lemma_drag_keeps_its_origin(states, keys, from, over, n - 1);
        assert(handled(
            states[n],
            MOUSE_MOVE,
            keys,
            over[n - 1],
            states[n + 1],
            Reaction::Repaint,
        ));
    }
}

/// Picked corners are those of the screen: a drag from a monitor left of or above
/// the primary one picks that monitor's part.
pub proof fn picked_corner_is_on_the_screen(a: (i32, i32), b: (i32, i32), screen: Screen)
    requires
        message_point(a),
        message_point(b),
        -0x4000_0000 <= screen.0 <= 0x4000_0000,
        -0x4000_0000 <= screen.1 <= 0x4000_0000,
    ensures
        ({
            let r = on_the_screen(spanned(a, b), screen);
            &&& r.x == screen.0 + smaller(a.0 as int, b.0 as int)
            &&& r.y == screen.1 + smaller(a.1 as int, b.1 as int)
            &&& r.w == gap(a.0, b.0)
            &&& r.h == gap(a.1, b.1)
        }),
{
}

/// A message packs a point as two halves of sixteen bits, x below y, negative numbers
/// counted down from the top; whatever stands above them does not matter.
pub proof fn message_carries_its_point(high: int, y: int, x: int, lparam: i64)
    requires
        0 <= x < 0x10000,
        0 <= y < 0x10000,
        lparam == high * 0x1_0000_0000 + y * 0x10000 + x,
    ensures
        point_of(lparam).0 == (if x < 0x8000 {
            x
        } else {
            x - 0x10000
        }),
        point_of(lparam).1 == (if y < 0x8000 {
            y
        } else {
            y - 0x10000
        }),
{
    lemma_low_half(lparam);
    lemma_high_half(lparam);
    let n = lparam as int;
    let above = high * 0x10000 + y;
    assert(n == above * 0x10000 + x);
    assert(n % 0x10000 == x && n / 0x10000 == above);
    assert(above % 0x10000 == y);
}

proof fn lemma_low_half(n: i64)
    ensures
        (n & 0xffff) as int == n as int % 0x10000,
{
    let q = n >> 16;
    let r = n & 0xffff;
    assert(n == q * 0x10000 + r && 0 <= r < 0x10000) by (bit_vector)
        requires
            q == n >> 16,
            r == n & 0xffff,
    ;
}

proof fn lemma_high_half(n: i64)
    ensures
        ((n >> 16) & 0xffff) as int == (n as int / 0x10000) % 0x10000,
{
    let q = n >> 16;
    let r = n & 0xffff;
    assert(n == q * 0x10000 + r && 0 <= r < 0x10000) by (bit_vector)
        requires
            q == n >> 16,
            r == n & 0xffff,
    ;
    lemma_low_half(q);
}

/// Two points span the rectangle that has them as opposite corners.
pub proof fn points_are_opposite_corners(a: (i32, i32), b: (i32, i32))
    ensures
        ({
            let r = spanned(a, b);
            &&& r.x == a.0 && r.x + r.w == b.0 || r.x == b.0 && r.x + r.w == a.0
            &&& r.y == a.1 && r.y + r.h == b.1 || r.y == b.1 && r.y + r.h == a.1
        }),
{
}

/// A drag picks the region of the screen whose opposite corners are the points where
/// the button went down and up, if it is at least sixteen pixels wide and high, and
/// then the overlay closes; else the overlay stays open and nothing is picked.
pub proof fn drag_picks_between_its_ends(
    states: Seq<OverlayState>,
    keys: u64,
    from: i64,
    over: Seq<i64>,
    to: i64,
    ended: OverlayState,
    end: Reaction,
)
    requires
        dragged(states, keys, from, over, to, ended, end),
        -0x4000_0000 <= states[0].screen.0 <= 0x4000_0000,
        -0x4000_0000 <= states[0].screen.1 <= 0x4000_0000,
    ensures
        ({
            let (a, b) = (point_of(from), point_of(to));
            let (left, top) = (states[0].screen.0, states[0].screen.1);
            let wide = a.0 - b.0 >= 16 || b.0 - a.0 >= 16;
            let high = a.1 - b.1 >= 16 || b.1 - a.1 >= 16;
            &&& end == Reaction::LetGoAndClose || end == Reaction::LetGo
            &&& end == Reaction::LetGoAndClose <==> wide && high
            &&& wide && high ==> {
                let r = ended.result->0->Selected_0;
                &&& ended.result is Some && ended.result->0 is Selected
                &&& r.x == left + a.0 && r.x + r.w == left + b.0 || r.x == left + b.0 && r.x + r.w
                    == left + a.0
                &&& r.y == top + a.1 && r.y + r.h == top + b.1 || r.y == top + b.1 && r.y + r.h
                    == top + a.1
            }
            &&& !(wide && high) ==> ended.result is Some && ended.result->0 is Cancelled
            &&& ended.origin is None
        }),
{
    drag_picks_what_it_spans(states, keys, from, over, to, ended, end);
    points_are_opposite_corners(point_of(from), point_of(to));
    lemma_drag_keeps_its_origin(states, keys, from, over, over.len() as int);
    assert(states.last() == states[(over.len() + 1) as int]);
    lemma_point_is_small(from);
    lemma_point_is_small(to);
}

proof fn lemma_point_is_small(lparam: i64)
    ensures
        message_point(point_of(lparam)),
{
    lemma_low_half(lparam);
    lemma_high_half(lparam);
}

/// The left button going down (message 0x201) begins a drag at the point of the
/// message, moving (0x200) leads it on, and does nothing without one.
pub proof fn button_begins_a_drag(
    s: OverlayState,
    wparam: u64,
    lparam: i64,
    t: OverlayState,
    r: Reaction,
)
    ensures
        handled(s, 0x201, wparam, lparam, t, r) ==> {
            &&& t.origin == Some(point_of(lparam)) && t.current == point_of(lparam)
            &&& t.screen == s.screen && t.result == s.result
            &&& r is Grab
        },
        handled(s, 0x200, wparam, lparam, t, r) && s.origin is Some ==> {
            &&& t.origin == s.origin && t.current == point_of(lparam)
            &&& t.screen == s.screen && t.result == s.result
            &&& r is Repaint
        },
        handled(s, 0x200, wparam, lparam, t, r) && s.origin is None ==> t == s && r is Done,
{
}

/// The escape key (code 27 in a key message, 0x100) ends picking without a region;
/// another key does nothing. A message that asks for painting (0x0f) changes nothing.
pub proof fn escape_ends_picking(
    s: OverlayState,
    wparam: u64,
    lparam: i64,
    t: OverlayState,
    r: Reaction,
)
    ensures
        handled(s, 0x100, wparam, lparam, t, r) && wparam % 0x10000 == 27 ==> {
            &&& t.origin is None
            &&& t.result is Some && t.result->0 is Cancelled
            &&& t.result->0->Cancelled_0@ == "cancelled"@
            &&& r is Close
        },
        handled(s, 0x100, wparam, lparam, t, r) && wparam % 0x10000 != 27 ==> t == s && r is Done,
        handled(s, 0x0f, wparam, lparam, t, r) ==> t == s && r is Paint,
        handled(s, 0x02, wparam, lparam, t, r) ==> t == s && r is Close,
{
}

/// The bars of the rubber band lie along the four edges of the rectangle, on the
/// inside, each two pixels thick and as long as its edge.
pub proof fn bars_lie_along_the_edges(r: Rect)
    requires
        -0x8000 <= r.x < 0x8000,
        -0x8000 <= r.y < 0x8000,
        r.w <= 0x10000,
        r.h <= 0x10000,
    ensures
        ({
            let bars = band(r);
            let (top, bottom, left, right) = (bars[0], bars[1], bars[2], bars[3]);
            &&& bars.len() == 4
            &&& top.left == r.x && top.right == r.x + r.w && top.top == r.y && top.bottom == r.y + 2
            &&& bottom.left == r.x && bottom.right == r.x + r.w && bottom.bottom == r.y + r.h
                && bottom.top == r.y + r.h - 2
            &&& left.top == r.y && left.bottom == r.y + r.h && left.left == r.x && left.right == r.x
                + 2
            &&& right.top == r.y && right.bottom == r.y + r.h && right.right == r.x + r.w
                && right.left == r.x + r.w - 2
        }),
{
}

/// Moving goes as far as it says, and no further than the coordinates go.
pub proof fn moving_goes_as_far_as_it_says(origin: i32, by: i32)
    ensures
        i32::MIN <= origin + by <= i32::MAX ==> moved(origin, by) == origin + by,
        origin + by > i32::MAX ==> moved(origin, by) == i32::MAX,
        origin + by < i32::MIN ==> moved(origin, by) == i32::MIN,
{
}

} // verus!
