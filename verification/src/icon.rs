//! The tray icon: a red disc with a white rim.

use vstd::arithmetic::div_mod::lemma_fundamental_div_mod_converse;
use vstd::prelude::*;

verus! {

/// Width and height of the icon.
pub const ICON_SIZE: u32 = 64;

/// Four times the squared distance of the middle of a pixel from the centre.
pub open spec fn distance_4(x: int, y: int) -> int {
    (2 * x - 63) * (2 * x - 63) + (2 * y - 63) * (2 * y - 63)
}

/// Colour of the pixel at `(x, y)`: red within 25 pixels of the centre, white
/// within 28, transparent beyond.
pub open spec fn icon_pixel(x: int, y: int) -> (u8, u8, u8, u8) {
    if distance_4(x, y) <= 2500 {
        (232, 64, 56, 255)
    } else if distance_4(x, y) <= 3136 {
        (255, 255, 255, 255)
    } else {
        (0, 0, 0, 0)
    }
}

/// Component `c` of a colour: red, green, blue, alpha.
pub open spec fn component(p: (u8, u8, u8, u8), c: int) -> u8 {
    if c == 0 {
        p.0
    } else if c == 1 {
        p.1
    } else if c == 2 {
        p.2
    } else {
        p.3
    }
}

/// The icon as rows of RGBA pixels.
pub open spec fn icon_bytes() -> Seq<u8> {
    Seq::new(16384, |i: int| component(icon_pixel((i / 4) % 64, i / 256), i % 4))
}

fn pixel(x: i32, y: i32) -> (r: (u8, u8, u8, u8))
    requires
        0 <= x < 64,
        0 <= y < 64,
    ensures
        r == icon_pixel(x as int, y as int),
{
    let dx: i32 = 2 * x - 63;
    let dy: i32 = 2 * y - 63;
    assert(0 <= dx * dx <= 4096) by (nonlinear_arith)
        requires
            -64 <= dx <= 64,
    ;
    assert(0 <= dy * dy <= 4096) by (nonlinear_arith)
        requires
            -64 <= dy <= 64,
    ;
    let d: i32 = dx * dx + dy * dy;
    if d <= 2500 {
        (232, 64, 56, 255)
    } else if d <= 3136 {
        (255, 255, 255, 255)
    } else {
        (0, 0, 0, 0)
    }
}

/// Draws the icon: 64 by 64 RGBA pixels.
pub fn app_icon() -> (r: Vec<u8>)
    ensures
        r@ == icon_bytes(),
        r@.len() == ICON_SIZE * ICON_SIZE * 4,
{
    let mut out: Vec<u8> = Vec::new();
    let mut n: i32 = 0;
    while n < 4096
        invariant
            0 <= n <= 4096,
            out@.len() == 4 * n,
            forall|i: int| 0 <= i < 4 * n ==> out@[i] == icon_bytes()[i],
        decreases 4096 - n,
    {
        let p = pixel(n % 64, n / 64);
        let ghost before = out@;
        out.push(p.0);
        out.push(p.1);
        out.push(p.2);
        out.push(p.3);
        assert forall|i: int| 0 <= i < 4 * n + 4 implies out@[i] == icon_bytes()[i] by {
            if i < 4 * n {
                assert(out@[i] == before[i]);
            } else {
                let c = i - 4 * n;
                lemma_fundamental_div_mod_converse(i, 4, n as int, c);
                assert(i / 256 == n as int / 64);
            }
        }
        n = n + 1;
    }
    assert(out@ =~= icon_bytes());
    out
}

/// The icon is a red disc of 25 pixels around its centre with a white rim of three
/// more, opaque, on nothing: the four bytes of the pixel at column `x` and row `y` are
/// its red, green, blue and opacity.
pub proof fn icon_is_a_disc_with_a_rim(x: int, y: int)
    requires
        0 <= x < 64,
        0 <= y < 64,
    ensures
        ({
            let icon = icon_bytes();
            let at = 4 * (64 * y + x);
            let d = (2 * x - 63) * (2 * x - 63) + (2 * y - 63) * (2 * y - 63);
            let p = (icon[at], icon[at + 1], icon[at + 2], icon[at + 3]);
            &&& icon.len() == 64 * 64 * 4
            &&& d <= 50 * 50 ==> p == (232u8, 64u8, 56u8, 255u8)
            &&& 50 * 50 < d <= 56 * 56 ==> p == (255u8, 255u8, 255u8, 255u8)
            &&& 56 * 56 < d ==> p == (0u8, 0u8, 0u8, 0u8)
        }),
{
    let at = 4 * (64 * y + x);
    assert(at / 4 == 64 * y + x && (at + 1) / 4 == 64 * y + x && (at + 2) / 4 == 64 * y + x && (at
        + 3) / 4 == 64 * y + x);
    assert((64 * y + x) % 64 == x);
    assert(at / 256 == y && (at + 1) / 256 == y && (at + 2) / 256 == y && (at + 3) / 256 == y);
}

} // verus!
