//! BGRA8 to planar I420 (BT.601, limited range, fixed point).

use crate::num::{larger, smaller};
use vstd::arithmetic::div_mod::lemma_fundamental_div_mod;
use vstd::arithmetic::div_mod::lemma_fundamental_div_mod_converse;
use vstd::prelude::*;

verus! {

/// Luma of one pixel: studio swing, 8-bit fixed point.
pub open spec fn luma(r: int, g: int, b: int) -> int {
    (66 * r + 129 * g + 25 * b + 128) / 256 + 16
}

/// Blue-difference chroma of one averaged block.
pub open spec fn chroma_u(r: int, g: int, b: int) -> int {
    (-38 * r - 74 * g + 112 * b + 128) / 256 + 128
}

/// Red-difference chroma of one averaged block.
pub open spec fn chroma_v(r: int, g: int, b: int) -> int {
    (112 * r - 94 * g - 18 * b + 128) / 256 + 128
}

/// Channel `c` (0 = blue, 1 = green, 2 = red) of the pixel at `(x, y)` of a
/// packed BGRA image whose rows are `stride` bytes apart.
pub open spec fn channel(bgra: Seq<u8>, stride: int, x: int, y: int, c: int) -> int {
    bgra[y * stride + 4 * x + c] as int
}

/// Channel `c` averaged over the block of two by two pixels at `(2 * cx, 2 * cy)`,
/// rounded down.
pub open spec fn block_average(bgra: Seq<u8>, stride: int, cx: int, cy: int, c: int) -> int {
    (channel(bgra, stride, 2 * cx, 2 * cy, c) + channel(bgra, stride, 2 * cx + 1, 2 * cy, c)
        + channel(bgra, stride, 2 * cx, 2 * cy + 1, c) + channel(
        bgra,
        stride,
        2 * cx + 1,
        2 * cy + 1,
        c,
    )) / 4
}

/// The luma byte for the pixel at `(x, y)`.
pub open spec fn luma_at(bgra: Seq<u8>, stride: int, x: int, y: int) -> u8 {
    luma(
        channel(bgra, stride, x, y, 2),
        channel(bgra, stride, x, y, 1),
        channel(bgra, stride, x, y, 0),
    ) as u8
}

/// The U byte for the block at `(cx, cy)`.
pub open spec fn u_at(bgra: Seq<u8>, stride: int, cx: int, cy: int) -> u8 {
    chroma_u(
        block_average(bgra, stride, cx, cy, 2),
        block_average(bgra, stride, cx, cy, 1),
        block_average(bgra, stride, cx, cy, 0),
    ) as u8
}

/// The V byte for the block at `(cx, cy)`.
pub open spec fn v_at(bgra: Seq<u8>, stride: int, cx: int, cy: int) -> u8 {
    chroma_v(
        block_average(bgra, stride, cx, cy, 2),
        block_average(bgra, stride, cx, cy, 1),
        block_average(bgra, stride, cx, cy, 0),
    ) as u8
}

/// Luma plane of rows `row_start..row_end`, `w` bytes each.
pub open spec fn luma_rows(
    bgra: Seq<u8>,
    stride: int,
    w: int,
    row_start: int,
    row_end: int,
) -> Seq<u8> {
    Seq::new(
        ((row_end - row_start) * w) as nat,
        |i: int| luma_at(bgra, stride, i % w, row_start + i / w),
    )
}

/// U plane of block rows `row_start..row_end`, `cw` bytes each.
pub open spec fn u_rows(
    bgra: Seq<u8>,
    stride: int,
    cw: int,
    row_start: int,
    row_end: int,
) -> Seq<u8> {
    Seq::new(
        ((row_end - row_start) * cw) as nat,
        |i: int| u_at(bgra, stride, i % cw, row_start + i / cw),
    )
}

/// V plane of block rows `row_start..row_end`, `cw` bytes each.
pub open spec fn v_rows(
    bgra: Seq<u8>,
    stride: int,
    cw: int,
    row_start: int,
    row_end: int,
) -> Seq<u8> {
    Seq::new(
        ((row_end - row_start) * cw) as nat,
        |i: int| v_at(bgra, stride, i % cw, row_start + i / cw),
    )
}

/// Luma stays within studio swing, 16 to 235, for every colour.
pub proof fn luma_is_studio_swing(r: int, g: int, b: int)
    requires
        0 <= r <= 255,
        0 <= g <= 255,
        0 <= b <= 255,
    ensures
        16 <= luma(r, g, b) <= 235,
{
}

/// Chroma stays within studio swing, 16 to 240, for every colour.
pub proof fn chroma_is_studio_swing(r: int, g: int, b: int)
    requires
        0 <= r <= 255,
        0 <= g <= 255,
        0 <= b <= 255,
    ensures
        16 <= chroma_u(r, g, b) <= 240,
        16 <= chroma_v(r, g, b) <= 240,
{
}

/// A colour with equal red, green and blue has neutral chroma.
pub proof fn gray_has_neutral_chroma(v: int)
    requires
        0 <= v <= 255,
    ensures
        chroma_u(v, v, v) == 128,
        chroma_v(v, v, v) == 128,
{
}

proof fn lemma_row_fits(row: int, end: int, stride: int, tail: int, len: int)
    by (nonlinear_arith)
    requires
        0 <= row < end,
        0 <= stride,
        (end - 1) * stride + tail <= len,
    ensures
        0 <= row * stride,
        row * stride + tail <= len,
{
}

proof fn lemma_plane_index(row: int, x: int, w: int)
    requires
        0 <= x < w,
        0 <= row,
    ensures
        (row * w + x) / w == row,
        (row * w + x) % w == x,
{
    lemma_fundamental_div_mod_converse(row * w + x, w, row, x);
}

proof fn lemma_plane_offset(row: int, x: int, rows: int, w: int)
    by (nonlinear_arith)
    requires
        0 <= x < w,
        0 <= row < rows,
    ensures
        0 <= row * w,
        row * w + x < rows * w,
        (row + 1) * w == row * w + w,
{
}

fn luma_byte(r: u8, g: u8, b: u8) -> (y: u8)
    ensures
        y == luma(r as int, g as int, b as int),
{
    ((66 * (r as u32) + 129 * (g as u32) + 25 * (b as u32) + 128) / 256 + 16) as u8
}

/// Sum of one channel over four pixels, divided by four.
fn average(a: u8, b: u8, c: u8, d: u8) -> (m: u8)
    ensures
        m == (a + b + c + d) / 4,
{
    ((a as u32 + b as u32 + c as u32 + d as u32) / 4) as u8
}

/// The `+ 128` offset is folded in before the division, which keeps the
/// numerator non-negative.
fn u_byte(r: u8, g: u8, b: u8) -> (u: u8)
    ensures
        u == chroma_u(r as int, g as int, b as int),
{
    ((112 * (b as u32) + 32896 - 38 * (r as u32) - 74 * (g as u32)) / 256) as u8
}

fn v_byte(r: u8, g: u8, b: u8) -> (v: u8)
    ensures
        v == chroma_v(r as int, g as int, b as int),
{
    ((112 * (r as u32) + 32896 - 94 * (g as u32) - 18 * (b as u32)) / 256) as u8
}

fn convert_luma_rows(bgra: &[u8], stride: usize, w: usize, row_start: usize, row_end: usize, y: &mut [u8])
    requires
        0 < w,
        row_start <= row_end,
        row_start < row_end ==> (row_end - 1) * stride + 4 * w <= bgra@.len(),
        old(y)@.len() == (row_end - row_start) * w,
    ensures
        final(y)@ == luma_rows(bgra@, stride as int, w as int, row_start as int, row_end as int),
{
    let len: usize = bgra.len();
    let rows: usize = row_end - row_start;
    let mut row: usize = 0;
    let mut out: usize = 0;
    while row < rows
        invariant
            0 < w,
            len == bgra@.len(),
            row_start <= row_end,
            rows == row_end - row_start,
            row <= rows,
            row_start < row_end ==> (row_end - 1) * stride + 4 * w <= bgra@.len(),
            y@.len() == rows * w,
            out == row * w,
            forall|k: int|
                0 <= k < out ==> y@[k] == luma_at(
                    bgra@,
                    stride as int,
                    k % (w as int),
                    row_start + k / (w as int),
                ),
        decreases rows - row,
    {
        proof {
            lemma_row_fits(
                row_start + row,
                row_end as int,
                stride as int,
                4 * w,
                bgra@.len() as int,
            );
            lemma_plane_offset(row as int, w - 1, rows as int, w as int);
        }
        let src: usize = (row_start + row) * stride;
        let mut x: usize = 0;
        while x < w
            invariant
                0 < w,
                len == bgra@.len(),
                row_start <= row_end,
                rows == row_end - row_start,
                row < rows,
                src == (row_start + row) * stride,
                src + 4 * w <= bgra@.len(),
                y@.len() == rows * w,
                x <= w,
                out == row * w + x,
                row * w + w <= rows * w,
                forall|k: int|
                    0 <= k < out ==> y@[k] == luma_at(
                        bgra@,
                        stride as int,
                        k % (w as int),
                        row_start + k / (w as int),
                    ),
            decreases w - x,
        {
            let p: usize = src + 4 * x;
            proof {
                lemma_plane_index(row as int, x as int, w as int);
            }
            y[out] = luma_byte(bgra[p + 2], bgra[p + 1], bgra[p]);
            out = out + 1;
            x = x + 1;
        }
        row = row + 1;
    }
    assert(y@ =~= luma_rows(bgra@, stride as int, w as int, row_start as int, row_end as int));
}

fn convert_chroma_rows(
    bgra: &[u8],
    stride: usize,
    w: usize,
    row_start: usize,
    row_end: usize,
    u: &mut [u8],
    v: &mut [u8],
)
    requires
        row_start % 2 == 0,
        row_end % 2 == 0,
        row_start <= row_end,
        row_start < row_end ==> (row_end - 1) * stride + 4 * w <= bgra@.len(),
        old(u)@.len() == ((row_end - row_start) / 2) * (w / 2),
        old(v)@.len() == ((row_end - row_start) / 2) * (w / 2),
    ensures
        final(u)@ == u_rows(
            bgra@,
            stride as int,
            (w / 2) as int,
            row_start as int / 2,
            row_end as int / 2,
        ),
        final(v)@ == v_rows(
            bgra@,
            stride as int,
            (w / 2) as int,
            row_start as int / 2,
            row_end as int / 2,
        ),
{
    let len: usize = bgra.len();
    let cw: usize = w / 2;
    let first: usize = row_start / 2;
    let rows: usize = row_end / 2 - first;
    assert(rows == (row_end - row_start) / 2);
    let mut row: usize = 0;
    let mut out: usize = 0;
    while row < rows
        invariant
            len == bgra@.len(),
            row_start <= row_end,
            row_end % 2 == 0,
            cw == w / 2,
            first == row_start / 2,
            rows == row_end / 2 - first,
            row <= rows,
            row_start < row_end ==> (row_end - 1) * stride + 4 * w <= bgra@.len(),
            u@.len() == rows * cw,
            v@.len() == rows * cw,
            out == row * cw,
            forall|k: int|
                0 <= k < out ==> u@[k] == u_at(
                    bgra@,
                    stride as int,
                    k % (cw as int),
                    first + k / (cw as int),
                ),
            forall|k: int|
                0 <= k < out ==> v@[k] == v_at(
                    bgra@,
                    stride as int,
                    k % (cw as int),
                    first + k / (cw as int),
                ),
        decreases rows - row,
    {
        let cy: usize = first + row;
        proof {
            lemma_row_fits(2 * cy, row_end as int, stride as int, 4 * w, bgra@.len() as int);
            lemma_row_fits(2 * cy + 1, row_end as int, stride as int, 4 * w, bgra@.len() as int);
            assert((row + 1) * cw == row * cw + cw) by (nonlinear_arith);
            assert((row + 1) * cw <= rows * cw) by (nonlinear_arith)
                requires
                    row + 1 <= rows,
            ;
        }
        let top: usize = (2 * cy) * stride;
        let bottom: usize = (2 * cy + 1) * stride;
        let mut cx: usize = 0;
        while cx < cw
            invariant
                len == bgra@.len(),
                cw == w / 2,
                cy == first + row,
                row < rows,
                top == (2 * cy) * stride,
                bottom == (2 * cy + 1) * stride,
                top + 4 * w <= len,
                bottom + 4 * w <= len,
                u@.len() == rows * cw,
                v@.len() == rows * cw,
                cx <= cw,
                out == row * cw + cx,
                row * cw + cw <= rows * cw,
                forall|k: int|
                    0 <= k < out ==> u@[k] == u_at(
                        bgra@,
                        stride as int,
                        k % (cw as int),
                        first + k / (cw as int),
                    ),
                forall|k: int|
                    0 <= k < out ==> v@[k] == v_at(
                        bgra@,
                        stride as int,
                        k % (cw as int),
                        first + k / (cw as int),
                    ),
            decreases cw - cx,
        {
            let t: usize = top + 8 * cx;
            let d: usize = bottom + 8 * cx;
            let r: u8 = average(bgra[t + 2], bgra[t + 6], bgra[d + 2], bgra[d + 6]);
            let g: u8 = average(bgra[t + 1], bgra[t + 5], bgra[d + 1], bgra[d + 5]);
            let b: u8 = average(bgra[t], bgra[t + 4], bgra[d], bgra[d + 4]);
            proof {
                lemma_plane_index(row as int, cx as int, cw as int);
                assert(r == block_average(bgra@, stride as int, cx as int, cy as int, 2));
                assert(g == block_average(bgra@, stride as int, cx as int, cy as int, 1));
                assert(b == block_average(bgra@, stride as int, cx as int, cy as int, 0));
            }
            u[out] = u_byte(r, g, b);
            v[out] = v_byte(r, g, b);
            out = out + 1;
            cx = cx + 1;
        }
        row = row + 1;
    }
    assert(u@ =~= u_rows(
        bgra@,
        stride as int,
        cw as int,
        row_start as int / 2,
        row_end as int / 2,
    ));
    assert(v@ =~= v_rows(
        bgra@,
        stride as int,
        cw as int,
        row_start as int / 2,
        row_end as int / 2,
    ));
}

/// Converts rows `row_start..row_end` (even-aligned) of a packed BGRA image
/// into the given plane slices. `y` holds `row_end - row_start` rows of `w`
/// bytes, `u` and `v` half as many rows of `w / 2` bytes.
pub fn convert_band(
    bgra: &[u8],
    stride: usize,
    w: usize,
    row_start: usize,
    row_end: usize,
    y: &mut [u8],
    u: &mut [u8],
    v: &mut [u8],
)
    requires
        0 < w,
        row_start % 2 == 0,
        row_end % 2 == 0,
        row_start <= row_end,
        row_start < row_end ==> (row_end - 1) * stride + 4 * w <= bgra@.len(),
        old(y)@.len() == (row_end - row_start) * w,
        old(u)@.len() == ((row_end - row_start) / 2) * (w / 2),
        old(v)@.len() == ((row_end - row_start) / 2) * (w / 2),
    ensures
        final(y)@ == luma_rows(bgra@, stride as int, w as int, row_start as int, row_end as int),
        final(u)@ == u_rows(
            bgra@,
            stride as int,
            (w / 2) as int,
            row_start as int / 2,
            row_end as int / 2,
        ),
        final(v)@ == v_rows(
            bgra@,
            stride as int,
            (w / 2) as int,
            row_start as int / 2,
            row_end as int / 2,
        ),
{
    convert_luma_rows(bgra, stride, w, row_start, row_end, y);
    convert_chroma_rows(bgra, stride, w, row_start, row_end, u, v);
}

/// What an [`I420Frame`] holds.
#[verifier::ext_equal]
pub struct Picture {
    pub width: nat,
    pub height: nat,
    pub y: Seq<u8>,
    pub u: Seq<u8>,
    pub v: Seq<u8>,
}

impl Picture {
    /// Even dimensions, a full luma plane, and chroma planes of a quarter the size.
    pub open spec fn wf(self) -> bool {
        &&& self.width % 2 == 0
        &&& self.height % 2 == 0
        &&& self.y.len() == self.width * self.height
        &&& self.u.len() == (self.width / 2) * (self.height / 2)
        &&& self.v.len() == (self.width / 2) * (self.height / 2)
    }
}

/// The picture a packed BGRA image converts to: dimensions rounded down to
/// even, odd trailing columns and rows dropped.
pub open spec fn picture_of(bgra: Seq<u8>, width: nat, height: nat) -> Picture {
    let w = (width - width % 2) as nat;
    let h = (height - height % 2) as nat;
    let stride = 4 * width as int;
    Picture {
        width: w,
        height: h,
        y: luma_rows(bgra, stride, w as int, 0, h as int),
        u: u_rows(bgra, stride, w as int / 2, 0, h as int / 2),
        v: v_rows(bgra, stride, w as int / 2, 0, h as int / 2),
    }
}

/// `s` cut or zero-extended to `n` bytes.
pub open spec fn resized(s: Seq<u8>, n: nat) -> Seq<u8> {
    Seq::new(
        n,
        |i: int|
            if i < s.len() {
                s[i]
            } else {
                0u8
            },
    )
}

/// `n` zero bytes.
pub open spec fn zero_bytes(n: nat) -> Seq<u8> {
    Seq::new(n, |i: int| 0u8)
}

/// An I420 (YUV 4:2:0, planar) frame that the software encoder takes directly.
pub struct I420Frame {
    width: usize,
    height: usize,
    y: Vec<u8>,
    u: Vec<u8>,
    v: Vec<u8>,
}

impl View for I420Frame {
    type V = Picture;

    closed spec fn view(&self) -> Picture {
        Picture {
            width: self.width as nat,
            height: self.height as nat,
            y: self.y@,
            u: self.u@,
            v: self.v@,
        }
    }
}

proof fn lemma_quarter_plane(w: int, h: int)
    by (nonlinear_arith)
    requires
        0 <= w,
        0 <= h,
    ensures
        0 <= (w / 2) * (h / 2) <= w * h,
{
}

impl I420Frame {
    /// Plane sizes for the given dimensions (width and height must be even).
    pub fn with_capacity(width: usize, height: usize) -> (r: I420Frame)
        requires
            width % 2 == 0,
            height % 2 == 0,
            width * height <= usize::MAX,
        ensures
            r@.wf(),
            r@ == (Picture {
                width: width as nat,
                height: height as nat,
                y: zero_bytes((width * height) as nat),
                u: zero_bytes(((width / 2) * (height / 2)) as nat),
                v: zero_bytes(((width / 2) * (height / 2)) as nat),
            }),
    {
        proof {
            lemma_quarter_plane(width as int, height as int);
        }
        let chroma: usize = (width / 2) * (height / 2);
        let r = I420Frame {
            width,
            height,
            y: vec![0u8; width * height],
            u: vec![0u8; chroma],
            v: vec![0u8; chroma],
        };
        assert(r@.y =~= zero_bytes((width * height) as nat));
        assert(r@.u =~= zero_bytes(((width / 2) * (height / 2)) as nat));
        assert(r@.v =~= zero_bytes(((width / 2) * (height / 2)) as nat));
        r
    }

    fn resize(&mut self, width: usize, height: usize)
        requires
            width * height <= usize::MAX,
        ensures
            final(self)@ == (Picture {
                width: width as nat,
                height: height as nat,
                y: resized(old(self)@.y, (width * height) as nat),
                u: resized(old(self)@.u, ((width / 2) * (height / 2)) as nat),
                v: resized(old(self)@.v, ((width / 2) * (height / 2)) as nat),
            }),
    {
        proof {
            lemma_quarter_plane(width as int, height as int);
        }
        self.width = width;
        self.height = height;
        self.y.resize(width * height, 0);
        let chroma: usize = (width / 2) * (height / 2);
        self.u.resize(chroma, 0);
        self.v.resize(chroma, 0);
        proof {
            lemma_resized(old(self).y@, self.y@, (width * height) as nat);
            lemma_resized(old(self).u@, self.u@, chroma as nat);
            lemma_resized(old(self).v@, self.v@, chroma as nat);
        }
    }

    /// `(width, height)`.
    pub fn dimensions(&self) -> (r: (usize, usize))
        ensures
            r.0 == self@.width,
            r.1 == self@.height,
    {
        (self.width, self.height)
    }

    /// Bytes per row of the Y, U and V plane.
    pub fn strides(&self) -> (r: (usize, usize, usize))
        ensures
            r.0 == self@.width,
            r.1 == self@.width / 2,
            r.2 == self@.width / 2,
    {
        (self.width, self.width / 2, self.width / 2)
    }

    /// The luma plane.
    pub fn y(&self) -> (r: &[u8])
        ensures
            r@ == self@.y,
    {
        self.y.as_slice()
    }

    /// The blue-difference plane.
    pub fn u(&self) -> (r: &[u8])
        ensures
            r@ == self@.u,
    {
        self.u.as_slice()
    }

    /// The red-difference plane.
    pub fn v(&self) -> (r: &[u8])
        ensures
            r@ == self@.v,
    {
        self.v.as_slice()
    }
}

proof fn lemma_resized(before: Seq<u8>, after: Seq<u8>, n: nat)
    requires
        n <= before.len() ==> after == before.subrange(0, n as int),
        n > before.len() ==> {
            &&& after.len() == n
            &&& after.subrange(0, before.len() as int) == before
            &&& forall|i: int| before.len() <= i < n ==> #[trigger] after[i] == 0
        },
    ensures
        after == resized(before, n),
{
    assert(after.len() == n);
    assert forall|i: int| 0 <= i < n implies after[i] == resized(before, n)[i] by {
        if n > before.len() && i < before.len() {
            assert(after.subrange(0, before.len() as int)[i] == after[i]);
        }
    }
    assert(after =~= resized(before, n));
}

/// Number of bands to split a `w` x `h` conversion into on a machine that runs
/// `cores` threads at once (1 = one pass over the whole frame).
pub fn band_threads(w: usize, h: usize, cores: usize) -> (r: usize)
    requires
        w * h <= usize::MAX,
    ensures
        w * h < 1280 * 720 ==> r == 1,
        w * h >= 1280 * 720 ==> r == larger(smaller(smaller(cores as int, 8), h as int / 2), 1),
{
    if w * h < 1280 * 720 {
        return 1;
    }
    let mut n: usize = cores;
    if n > 8 {
        n = 8;
    }
    if n > h / 2 {
        n = h / 2;
    }
    if n < 1 {
        n = 1;
    }
    n
}

/// Rows per band when `h` rows are shared out over `threads` bands: the share
/// rounded up, then up to even so that every band owns whole chroma blocks, and
/// never fewer than two.
pub open spec fn band_share(h: int, threads: int) -> int {
    let share = (h + threads - 1) / threads;
    let even = share + share % 2;
    if even < 2 {
        2
    } else {
        even
    }
}

/// Computes [`band_share`].
pub fn band_rows(h: usize, threads: usize) -> (r: usize)
    requires
        0 < threads,
        h < usize::MAX,
    ensures
        r == band_share(h as int, threads as int),
        r % 2 == 0,
        r >= 2,
{
    proof {
        lemma_share(h as int, threads as int);
    }
    let share: usize = if h % threads == 0 {
        h / threads
    } else {
        h / threads + 1
    };
    let even: usize = share + share % 2;
    if even < 2 {
        2
    } else {
        even
    }
}

proof fn lemma_share(h: int, t: int)
    requires
        0 <= h,
        0 < t,
    ensures
        h % t == 0 ==> (h + t - 1) / t == h / t,
        h % t != 0 ==> (h + t - 1) / t == h / t + 1,
        0 <= h / t <= h,
        h % t != 0 ==> t >= 2 && 2 * (h / t) <= h,
{
    lemma_fundamental_div_mod(h, t);
    let q = h / t;
    let m = h % t;
    assert(0 <= m < t) by (nonlinear_arith)
        requires
            m == h % t,
            0 < t,
    ;
    if m == 0 {
        assert(h + t - 1 == q * t + (t - 1)) by (nonlinear_arith)
            requires
                h == t * q + m,
                m == 0,
        ;
        lemma_fundamental_div_mod_converse(h + t - 1, t, q, t - 1);
    } else {
        assert(h + t - 1 == (q + 1) * t + (m - 1)) by (nonlinear_arith)
            requires
                h == t * q + m,
        ;
        lemma_fundamental_div_mod_converse(h + t - 1, t, q + 1, m - 1);
        assert(2 * q <= h) by (nonlinear_arith)
            requires
                h == t * q + m,
                t >= 2,
                m >= 0,
                q >= 0,
        ;
    }
    assert(0 <= q <= h) by (nonlinear_arith)
        requires
            h == t * q + m,
            0 <= m < t,
            0 <= h,
            0 < t,
    ;
}

proof fn lemma_rows_join(w: int, a: int, b: int, c: int)
    requires
        0 <= w,
        a <= b <= c,
    ensures
        (b - a) * w + (c - b) * w == (c - a) * w,
        0 <= (b - a) * w,
        0 <= (c - b) * w,
        forall|i: int|
            #![trigger i / w]
            #![trigger i % w]
            (b - a) * w <= i < (c - a) * w ==> (i - (b - a) * w) % w == i % w && b + (i - (b - a)
                * w) / w == a + i / w,
{
    assert((b - a) * w + (c - b) * w == (c - a) * w && 0 <= (b - a) * w && 0 <= (c - b) * w)
        by (nonlinear_arith)
        requires
            0 <= w,
            a <= b <= c,
    ;
    assert forall|i: int|
        #![trigger i / w]
        #![trigger i % w]
        (b - a) * w <= i < (c - a) * w implies (i - (b - a) * w) % w == i % w && b + (i - (b - a)
        * w) / w == a + i / w by {
        if w == 0 {
            assert((b - a) * w == 0 && (c - a) * w == 0) by (nonlinear_arith)
                requires
                    w == 0,
            ;
        } else {
            let q = i / w;
            let r = i % w;
            lemma_fundamental_div_mod(i, w);
            assert(i - (b - a) * w == (q - (b - a)) * w + r) by (nonlinear_arith)
                requires
                    i == w * q + r,
            ;
            lemma_fundamental_div_mod_converse(i - (b - a) * w, w, q - (b - a), r);
        }
    }
}

/// Bands join: converting rows `a..b` and rows `b..c` apart and putting the
/// planes behind each other gives what converting rows `a..c` at once gives.
pub proof fn bands_join(bgra: Seq<u8>, stride: int, w: int, a: int, b: int, c: int)
    requires
        0 <= w,
        a <= b <= c,
    ensures
        luma_rows(bgra, stride, w, a, b) + luma_rows(bgra, stride, w, b, c) == luma_rows(
            bgra,
            stride,
            w,
            a,
            c,
        ),
        u_rows(bgra, stride, w, a, b) + u_rows(bgra, stride, w, b, c) == u_rows(
            bgra,
            stride,
            w,
            a,
            c,
        ),
        v_rows(bgra, stride, w, a, b) + v_rows(bgra, stride, w, b, c) == v_rows(
            bgra,
            stride,
            w,
            a,
            c,
        ),
{
    lemma_rows_join(w, a, b, c);
    assert(luma_rows(bgra, stride, w, a, b) + luma_rows(bgra, stride, w, b, c) =~= luma_rows(
        bgra,
        stride,
        w,
        a,
        c,
    ));
    assert(u_rows(bgra, stride, w, a, b) + u_rows(bgra, stride, w, b, c) =~= u_rows(
        bgra,
        stride,
        w,
        a,
        c,
    ));
    assert(v_rows(bgra, stride, w, a, b) + v_rows(bgra, stride, w, b, c) =~= v_rows(
        bgra,
        stride,
        w,
        a,
        c,
    ));
}

/// Converts rows `start..h` band by band, `band` rows at a time.
fn convert_bands(
    bgra: &[u8],
    stride: usize,
    w: usize,
    start: usize,
    h: usize,
    band: usize,
    y: &mut [u8],
    u: &mut [u8],
    v: &mut [u8],
)
    requires
        0 < w,
        2 <= band,
        band % 2 == 0,
        start % 2 == 0,
        h % 2 == 0,
        start <= h,
        start < h ==> (h - 1) * stride + 4 * w <= bgra@.len(),
        old(y)@.len() == (h - start) * w,
        old(u)@.len() == ((h - start) / 2) * (w / 2),
        old(v)@.len() == ((h - start) / 2) * (w / 2),
    ensures
        final(y)@ == luma_rows(bgra@, stride as int, w as int, start as int, h as int),
        final(u)@ == u_rows(bgra@, stride as int, (w / 2) as int, start as int / 2, h as int / 2),
        final(v)@ == v_rows(bgra@, stride as int, (w / 2) as int, start as int / 2, h as int / 2),
    decreases h - start,
{
    if h - start <= band {
        convert_band(bgra, stride, w, start, h, y, u, v);
        return;
    }
    let end: usize = start + band;
    let cw: usize = w / 2;
    let len: usize = bgra.len();
    let y_len: usize = y.len();
    let u_len: usize = u.len();
    proof {
        lemma_rows_join(w as int, start as int, end as int, h as int);
        lemma_rows_join(cw as int, start as int / 2, end as int / 2, h as int / 2);
        bands_join(bgra@, stride as int, w as int, start as int, end as int, h as int);
        bands_join(
            bgra@,
            stride as int,
            cw as int,
            start as int / 2,
            end as int / 2,
            h as int / 2,
        );
        assert((end - 1) * stride <= (h - 1) * stride) by (nonlinear_arith)
            requires
                end <= h,
                stride >= 0,
        ;
        assert((end - start) / 2 == end / 2 - start / 2);
        assert((h - end) / 2 == h / 2 - end / 2);
        assert((h - start) / 2 == h / 2 - start / 2);
    }
    let (y_head, y_rest) = y.split_at_mut(band * w);
    let (u_head, u_rest) = u.split_at_mut((band / 2) * cw);
    let (v_head, v_rest) = v.split_at_mut((band / 2) * cw);
    convert_band(bgra, stride, w, start, end, y_head, u_head, v_head);
    convert_bands(bgra, stride, w, end, h, band, y_rest, u_rest, v_rest);
}

/// Converts a packed BGRA8 image to planar I420 (BT.601, limited range).
///
/// `out` is resized to the coded size, which is the input size rounded down to
/// even dimensions; odd trailing columns and rows are dropped.
pub fn bgra_to_i420(bgra: &[u8], width: u32, height: u32, out: &mut I420Frame)
    requires
        2 <= width,
        4 * width * height <= bgra@.len(),
    ensures
        final(out)@ == picture_of(bgra@, width as nat, height as nat),
        final(out)@.wf(),
{
    bgra_to_i420_in_bands(bgra, width, height, 1, out);
}

/// Converts like [`bgra_to_i420`], in as many horizontal bands as
/// [`band_threads`] gives a machine that runs `cores` threads at once. The
/// result does not depend on `cores`.
pub fn bgra_to_i420_in_bands(
    bgra: &[u8],
    width: u32,
    height: u32,
    cores: usize,
    out: &mut I420Frame,
)
    requires
        2 <= width,
        4 * width * height <= bgra@.len(),
    ensures
        final(out)@ == picture_of(bgra@, width as nat, height as nat),
        final(out)@.wf(),
{
    let len: usize = bgra.len();
    let w: usize = width as usize - width as usize % 2;
    let h: usize = height as usize - height as usize % 2;
    proof {
        lemma_image_fits(width as int, height as int, w as int, h as int, len as int);
        lemma_quarter_plane(w as int, h as int);
    }
    if height == 0 {
        out.resize(w, h);
        assert(out@ =~= picture_of(bgra@, width as nat, height as nat));
        return;
    }
    let stride: usize = 4 * width as usize;
    out.resize(w, h);
    let threads: usize = band_threads(w, h, cores);
    let band: usize = band_rows(h, threads);
    convert_bands(
        bgra,
        stride,
        w,
        0,
        h,
        band,
        out.y.as_mut_slice(),
        out.u.as_mut_slice(),
        out.v.as_mut_slice(),
    );
    assert(out@ =~= picture_of(bgra@, width as nat, height as nat));
}

proof fn lemma_image_fits(width: int, height: int, w: int, h: int, len: int)
    requires
        2 <= width,
        0 <= height,
        w == width - width % 2,
        h == height - height % 2,
        4 * width * height <= len,
    ensures
        0 <= w * h <= len,
        0 < h ==> (h - 1) * (4 * width) + 4 * w <= len,
        0 < height ==> 4 * width <= len,
        h < len || h == 0,
        h * w == w * h,
        (h / 2) * (w / 2) == (w / 2) * (h / 2),
        h == 0 ==> w * h == 0 && (w / 2) * (h / 2) == 0,
{
    assert(h * w == w * h) by (nonlinear_arith);
    assert((h / 2) * (w / 2) == (w / 2) * (h / 2)) by (nonlinear_arith);
    assert(h == 0 ==> w * h == 0 && (w / 2) * (h / 2) == 0) by (nonlinear_arith);
    assert(0 <= w * h <= len) by (nonlinear_arith)
        requires
            0 <= w <= width,
            0 <= h <= height,
            4 * width * height <= len,
    ;
    if 0 < h {
        assert((h - 1) * (4 * width) + 4 * w <= len) by (nonlinear_arith)
            requires
                0 < h <= height,
                0 <= w <= width,
                4 * width * height <= len,
        ;
        assert(h < len) by (nonlinear_arith)
            requires
                0 < h <= height,
                2 <= width,
                4 * width * height <= len,
        ;
    }
    if 0 < height {
        assert(4 * width <= len) by (nonlinear_arith)
            requires
                0 < height,
                2 <= width,
                4 * width * height <= len,
        ;
    }
}

/// The luma byte at row `y` and column `x` of a plane is made of the pixel at row
/// `y` and column `x` of the image, and of nothing else: 66 parts of red, 129 of
/// green and 25 of blue out of 256, rounded, above a black level of 16.
pub proof fn luma_byte_is_of_the_pixel_at_its_place(
    bgra: Seq<u8>,
    stride: int,
    w: int,
    row_start: int,
    row_end: int,
    x: int,
    y: int,
)
    requires
        0 <= x < w,
        row_start <= y < row_end,
    ensures
        ({
            let plane = luma_rows(bgra, stride, w, row_start, row_end);
            let at = y * stride + 4 * x;
            &&& plane.len() == (row_end - row_start) * w
            &&& 0 <= (y - row_start) * w + x < plane.len()
            &&& plane[(y - row_start) * w + x] == (66 * bgra[at + 2] + 129 * bgra[at + 1] + 25
                * bgra[at] + 128) / 256 + 16
        }),
{
    lemma_plane_index(y - row_start, x, w);
    lemma_plane_offset(y - row_start, x, row_end - row_start, w);
    let at = y * stride + 4 * x;
    luma_is_studio_swing(bgra[at + 2] as int, bgra[at + 1] as int, bgra[at] as int);
}

/// The chroma bytes at row `cy` and column `cx` are made of the block of two by two
/// pixels at row `2 * cy` and column `2 * cx` of the image, and of nothing else: each
/// channel is averaged over the four pixels, rounded down, and weighed; grey gives
/// 128.
pub proof fn chroma_bytes_are_of_the_block_at_their_place(
    bgra: Seq<u8>,
    stride: int,
    cw: int,
    row_start: int,
    row_end: int,
    cx: int,
    cy: int,
)
    requires
        0 <= cx < cw,
        row_start <= cy < row_end,
    ensures
        ({
            let u = u_rows(bgra, stride, cw, row_start, row_end);
            let v = v_rows(bgra, stride, cw, row_start, row_end);
            let top = 2 * cy * stride + 8 * cx;
            let low = (2 * cy + 1) * stride + 8 * cx;
            let blue = (bgra[top] + bgra[top + 4] + bgra[low] + bgra[low + 4]) / 4;
            let green = (bgra[top + 1] + bgra[top + 5] + bgra[low + 1] + bgra[low + 5]) / 4;
            let red = (bgra[top + 2] + bgra[top + 6] + bgra[low + 2] + bgra[low + 6]) / 4;
            let i = (cy - row_start) * cw + cx;
            &&& u.len() == (row_end - row_start) * cw
            &&& v.len() == (row_end - row_start) * cw
            &&& 0 <= i < u.len()
            &&& u[i] == (112 * blue - 74 * green - 38 * red + 128) / 256 + 128
            &&& v[i] == (112 * red - 94 * green - 18 * blue + 128) / 256 + 128
        }),
{
    lemma_plane_index(cy - row_start, cx, cw);
    lemma_plane_offset(cy - row_start, cx, row_end - row_start, cw);
    let top = 2 * cy * stride + 8 * cx;
    let low = (2 * cy + 1) * stride + 8 * cx;
    let blue = (bgra[top] + bgra[top + 4] + bgra[low] + bgra[low + 4]) / 4;
    let green = (bgra[top + 1] + bgra[top + 5] + bgra[low + 1] + bgra[low + 5]) / 4;
    let red = (bgra[top + 2] + bgra[top + 6] + bgra[low + 2] + bgra[low + 6]) / 4;
    assert((2 * cy) * stride == 2 * cy * stride);
    assert(block_average(bgra, stride, cx, cy, 0) == blue);
    assert(block_average(bgra, stride, cx, cy, 1) == green);
    assert(block_average(bgra, stride, cx, cy, 2) == red);
    chroma_is_studio_swing(red, green, blue);
}

/// A converted picture has the size of the image, without an odd last column or row,
/// and every pixel and every block of two by two pixels keeps its place in it.
pub proof fn picture_shows_the_image(bgra: Seq<u8>, width: nat, height: nat, x: int, y: int)
    requires
        0 <= x < width - width % 2,
        0 <= y < height - height % 2,
    ensures
        ({
            let p = picture_of(bgra, width, height);
            let at = 4 * (y * width + x);
            let top = 4 * (2 * (y / 2) * width + 2 * (x / 2));
            let low = 4 * ((2 * (y / 2) + 1) * width + 2 * (x / 2));
            let blue = (bgra[top] + bgra[top + 4] + bgra[low] + bgra[low + 4]) / 4;
            let green = (bgra[top + 1] + bgra[top + 5] + bgra[low + 1] + bgra[low + 5]) / 4;
            let red = (bgra[top + 2] + bgra[top + 6] + bgra[low + 2] + bgra[low + 6]) / 4;
            let i = (y / 2) * (p.width as int / 2) + x / 2;
            &&& p.width == width - width % 2
            &&& p.height == height - height % 2
            &&& p.y.len() == p.height * p.width
            &&& p.u.len() == (p.height / 2) * (p.width / 2)
            &&& p.v.len() == (p.height / 2) * (p.width / 2)
            &&& 0 <= y * p.width + x < p.y.len()
            &&& 0 <= i < p.u.len()
            &&& p.y[y * p.width + x] == (66 * bgra[at + 2] + 129 * bgra[at + 1] + 25 * bgra[at]
                + 128) / 256 + 16
            &&& p.u[i] == (112 * blue - 74 * green - 38 * red + 128) / 256 + 128
            &&& p.v[i] == (112 * red - 94 * green - 18 * blue + 128) / 256 + 128
        }),
{
    let w = width - width % 2;
    let h = height - height % 2;
    let stride = 4 * width as int;
    luma_byte_is_of_the_pixel_at_its_place(bgra, stride, w, 0, h, x, y);
    chroma_bytes_are_of_the_block_at_their_place(bgra, stride, w / 2, 0, h / 2, x / 2, y / 2);
    let n = width as int;
    assert(y * stride + 4 * x == 4 * (y * n + x)) by (nonlinear_arith)
        requires
            stride == 4 * n,
    ;
    let b = y / 2;
    let c = x / 2;
    assert(2 * b * stride + 8 * c == 4 * (2 * b * n + 2 * c)) by (nonlinear_arith)
        requires
            stride == 4 * n,
    ;
    assert((2 * b + 1) * stride + 8 * c == 4 * ((2 * b + 1) * n + 2 * c)) by (nonlinear_arith)
        requires
            stride == 4 * n,
    ;
}

/// Two images of one size that differ in one pixel at most have pictures that differ
/// in that pixel's luma byte, and in the chroma bytes of its block, at most.
pub proof fn pixel_changes_nothing_but_its_own_bytes(
    a: Seq<u8>,
    b: Seq<u8>,
    width: nat,
    height: nat,
    x: int,
    y: int,
    i: int,
    j: int,
)
    requires
        0 <= x < width,
        0 <= y < height,
        forall|k: int|
            0 <= k && !(4 * (y * width + x) <= k < 4 * (y * width + x) + 4) ==> #[trigger] a[k]
                == b[k],
        0 <= i < width - width % 2,
        0 <= j < height - height % 2,
    ensures
        ({
            let p = picture_of(a, width, height);
            let q = picture_of(b, width, height);
            let c = (j / 2) * (p.width as int / 2) + i / 2;
            &&& i != x || j != y ==> p.y[j * p.width + i] == q.y[j * p.width + i]
            &&& i / 2 != x / 2 || j / 2 != y / 2 ==> p.u[c] == q.u[c] && p.v[c] == q.v[c]
        }),
{
    picture_shows_the_image(a, width, height, i, j);
    picture_shows_the_image(b, width, height, i, j);
    let n = width as int;
    if i != x || j != y {
        lemma_other_pixel(n, x, y, i, j);
    }
    if i / 2 != x / 2 || j / 2 != y / 2 {
        let l = 2 * (i / 2);
        let t = 2 * (j / 2);
        lemma_other_pixel(n, x, y, l, t);
        lemma_other_pixel(n, x, y, l + 1, t);
        lemma_other_pixel(n, x, y, l, t + 1);
        lemma_other_pixel(n, x, y, l + 1, t + 1);
    }
}

/// Different pixels take up different bytes.
proof fn lemma_other_pixel(n: int, x: int, y: int, i: int, j: int)
    requires
        0 <= x < n,
        0 <= i < n,
        0 <= y,
        0 <= j,
        i != x || j != y,
    ensures
        4 * (j * n + i) + 4 <= 4 * (y * n + x) || 4 * (y * n + x) + 4 <= 4 * (j * n + i),
        0 <= 4 * (j * n + i),
{
    if j < y {
        assert(j * n + n <= y * n) by (nonlinear_arith)
            requires
                j + 1 <= y,
                0 <= n,
        ;
    } else if y < j {
        assert(y * n + n <= j * n) by (nonlinear_arith)
            requires
                y + 1 <= j,
                0 <= n,
        ;
    }
    assert(0 <= j * n) by (nonlinear_arith)
        requires
            0 <= j,
            0 <= n,
    ;
}

/// What a pixel's fourth byte holds does not matter anywhere in the picture.
pub proof fn transparency_does_not_matter(
    a: Seq<u8>,
    b: Seq<u8>,
    width: nat,
    height: nat,
    x: int,
    y: int,
)
    requires
        forall|k: int| 0 <= k && k % 4 != 3 ==> #[trigger] a[k] == b[k],
        0 <= x < width - width % 2,
        0 <= y < height - height % 2,
    ensures
        ({
            let p = picture_of(a, width, height);
            let q = picture_of(b, width, height);
            let c = (y / 2) * (p.width as int / 2) + x / 2;
            &&& p.y[y * p.width + x] == q.y[y * p.width + x]
            &&& p.u[c] == q.u[c]
            &&& p.v[c] == q.v[c]
        }),
{
    picture_shows_the_image(a, width, height, x, y);
    picture_shows_the_image(b, width, height, x, y);
    lemma_byte_place(y, x, width as int);
    lemma_byte_place(2 * (y / 2), 2 * (x / 2), width as int);
    lemma_byte_place(2 * (y / 2) + 1, 2 * (x / 2), width as int);
}

proof fn lemma_byte_place(row: int, x: int, n: int)
    requires
        0 <= row,
        0 <= x,
        0 <= n,
    ensures
        0 <= 4 * (row * n + x),
{
    assert(0 <= row * n) by (nonlinear_arith)
        requires
            0 <= row,
            0 <= n,
    ;
}

/// The bands that a picture is shared out in are of whole blocks and cover it.
pub proof fn bands_cover_the_picture(h: int, threads: int)
    requires
        0 <= h,
        0 < threads,
    ensures
        band_share(h, threads) % 2 == 0,
        band_share(h, threads) >= 2,
        band_share(h, threads) * threads >= h,
{
    lemma_share(h, threads);
    lemma_fundamental_div_mod(h, threads);
    let share = (h + threads - 1) / threads;
    assert(share * threads >= h) by (nonlinear_arith)
        requires
            h == threads * (h / threads) + h % threads,
            0 <= h % threads < threads,
            h % threads == 0 ==> share == h / threads,
            h % threads != 0 ==> share == h / threads + 1,
    ;
    assert(band_share(h, threads) * threads >= share * threads) by (nonlinear_arith)
        requires
            band_share(h, threads) >= share,
            0 < threads,
    ;
}

/// A frame that nothing was converted into yet is all zero bytes.
pub proof fn new_planes_are_zero(n: nat, i: int)
    requires
        0 <= i < n,
    ensures
        zero_bytes(n).len() == n,
        zero_bytes(n)[i] == 0,
{
}

} // verus!
