//! Copying rows of pixels out of captured buffers.

use vstd::arithmetic::div_mod::lemma_fundamental_div_mod_converse;
use vstd::prelude::*;
use vstd::slice::slice_subrange;

verus! {

/// `h` rows of `row` bytes from `base`, whose rows are `pitch` bytes apart.
pub open spec fn packed_rows(base: Seq<u8>, pitch: int, row: int, h: int) -> Seq<u8> {
    Seq::new((h * row) as nat, |i: int| base[(i / row) * pitch + i % row])
}

/// Byte `at` of `base`, zero beyond its end.
pub open spec fn byte_or_zero(base: Seq<u8>, at: int) -> u8 {
    if at < base.len() {
        base[at]
    } else {
        0
    }
}

/// The rectangle of four-byte pixels at `(x, y)`, `w` wide and `h` high, from
/// `base`, whose rows are `pitch` bytes apart; zero where `base` has ended.
pub open spec fn cut_out(base: Seq<u8>, pitch: int, x: int, y: int, w: int, h: int) -> Seq<u8> {
    Seq::new(
        (h * (4 * w)) as nat,
        |i: int| byte_or_zero(base, (y + i / (4 * w)) * pitch + 4 * x + i % (4 * w)),
    )
}

proof fn lemma_row_place(r: int, k: int, row: int, h: int)
    requires
        0 <= k < row,
        0 <= r < h,
    ensures
        (r * row + k) / row == r,
        (r * row + k) % row == k,
        0 <= r * row,
        r * row + k < h * row,
        (r + 1) * row == r * row + row,
        (r + 1) * row <= h * row,
{
    lemma_fundamental_div_mod_converse(r * row + k, row, r, k);
    assert(0 <= r * row && r * row + k < h * row && (r + 1) * row == r * row + row && (r + 1) * row
        <= h * row) by (nonlinear_arith)
        requires
            0 <= k < row,
            0 <= r < h,
    ;
}

/// Packs the rows of a mapped texture tightly.
pub fn unpack_rows(base: &[u8], pitch: usize, row: usize, height: usize) -> (out: Vec<u8>)
    requires
        height > 0 ==> (height - 1) * pitch + row <= base@.len(),
        height * row <= usize::MAX,
    ensures
        out@ == packed_rows(base@, pitch as int, row as int, height as int),
{
    let len: usize = base.len();
    let mut out: Vec<u8> = Vec::new();
    let mut r: usize = 0;
    while r < height
        invariant
            len == base@.len(),
            r <= height,
            height > 0 ==> (height - 1) * pitch + row <= base@.len(),
            out@.len() == r * row,
            forall|i: int|
                0 <= i < out@.len() ==> out@[i] == base@[(i / (row as int)) * pitch + i % (
                row as int)],
        decreases height - r,
    {
        assert(0 <= r * pitch && r * pitch + row <= len) by (nonlinear_arith)
            requires
                0 <= r < height,
                (height - 1) * pitch + row <= len,
                pitch >= 0,
        ;
        let from: usize = r * pitch;
        let ghost before = out@;
        out.extend_from_slice(slice_subrange(base, from, from + row));
        assert((r + 1) * row == r * row + row) by (nonlinear_arith);
        assert forall|i: int| 0 <= i < out@.len() implies out@[i] == base@[(i / (row as int))
            * pitch + i % (row as int)] by {
            if i >= before.len() {
                lemma_row_place(r as int, i - r * row, row as int, height as int);
            } else {
                assert(out@[i] == before[i]);
            }
        }
        r = r + 1;
    }
    assert(out@ =~= packed_rows(base@, pitch as int, row as int, height as int));
    out
}

/// Cuts a rectangle of four-byte pixels out of a buffer. What the buffer does
/// not reach stays zero.
pub fn cut_pixels(base: &[u8], pitch: usize, x: usize, y: usize, w: usize, h: usize) -> (out: Vec<
    u8,
>)
    requires
        (y + h) * pitch + 4 * x + 4 * w <= usize::MAX,
        h * (4 * w) <= usize::MAX,
    ensures
        out@ == cut_out(base@, pitch as int, x as int, y as int, w as int, h as int),
{
    let row: usize = 4 * w;
    let len: usize = base.len();
    let mut out: Vec<u8> = Vec::new();
    let mut r: usize = 0;
    while r < h
        invariant
            len == base@.len(),
            row == 4 * w,
            r <= h,
            (y + h) * pitch + 4 * x + row <= usize::MAX,
            h * row <= usize::MAX,
            out@.len() == r * row,
            forall|i: int|
                0 <= i < out@.len() ==> out@[i] == byte_or_zero(
                    base@,
                    (y + i / (row as int)) * pitch + 4 * x + i % (row as int),
                ),
        decreases h - r,
    {
        assert(y + r <= usize::MAX && 0 <= (y + r) * pitch && (y + r) * pitch + 4 * x + row
            <= usize::MAX || pitch == 0) by (nonlinear_arith)
            requires
                0 <= r < h,
                (y + h) * pitch + 4 * x + row <= usize::MAX,
                pitch >= 0,
        ;
        let from: usize = if pitch == 0 {
            4 * x
        } else {
            (y + r) * pitch + 4 * x
        };
        assert(from == (y + r) * pitch + 4 * x) by (nonlinear_arith)
            requires
                pitch == 0 && from == 4 * x || from == (y + r) * pitch + 4 * x,
        ;
        let end: usize = if from + row < len {
            from + row
        } else {
            len
        };
        let ghost before = out@;
        if from < end {
            out.extend_from_slice(slice_subrange(base, from, end));
        }
        assert((r + 1) * row == r * row + row && (r + 1) * row <= h * row) by (nonlinear_arith)
            requires
                r < h,
        ;
        let ghost copied = out@;
        out.resize((r + 1) * row, 0);
        assert forall|i: int| 0 <= i < copied.len() implies out@[i] == copied[i] by {
            assert(out@.subrange(0, copied.len() as int)[i] == out@[i]);
        }
        assert forall|i: int| 0 <= i < out@.len() implies out@[i] == byte_or_zero(
            base@,
            (y + i / (row as int)) * pitch + 4 * x + i % (row as int),
        ) by {
            if i >= before.len() {
                let k = i - r * row;
                lemma_row_place(r as int, k, row as int, h as int);
                assert((y + i / (row as int)) * pitch + 4 * x + i % (row as int) == from + k);
                if i < copied.len() {
                    assert(copied[i] == base@.subrange(from as int, end as int)[k]);
                }
            } else {
                assert(out@[i] == copied[i] && copied[i] == before[i]);
            }
        }
        r = r + 1;
    }
    assert(out@ =~= cut_out(base@, pitch as int, x as int, y as int, w as int, h as int));
    out
}

/// Packed rows are the rows of the buffer: byte `k` of row `r` is byte `k` of the row
/// that begins `r` pitches into the buffer.
pub proof fn packed_byte_is_of_its_row(base: Seq<u8>, pitch: int, row: int, h: int, r: int, k: int)
    requires
        0 <= r < h,
        0 <= k < row,
    ensures
        packed_rows(base, pitch, row, h).len() == h * row,
        0 <= r * row + k < h * row,
        packed_rows(base, pitch, row, h)[r * row + k] == base[r * pitch + k],
{
    lemma_row_place(r, k, row, h);
}

/// Component `c` of the pixel at column `i` and row `j` of a piece that was cut out is
/// that of the pixel `x` columns and `y` rows further in the buffer, and zero where
/// the buffer has ended.
pub proof fn cut_pixel_is_of_its_place(
    base: Seq<u8>,
    pitch: int,
    x: int,
    y: int,
    w: int,
    h: int,
    i: int,
    j: int,
    c: int,
)
    requires
        0 <= i < w,
        0 <= j < h,
        0 <= c < 4,
    ensures
        ({
            let piece = cut_out(base, pitch, x, y, w, h);
            let from = (y + j) * pitch + 4 * (x + i) + c;
            &&& piece.len() == 4 * (w * h)
            &&& 0 <= 4 * (j * w + i) + c < piece.len()
            &&& from < base.len() ==> piece[4 * (j * w + i) + c] == base[from]
            &&& from >= base.len() ==> piece[4 * (j * w + i) + c] == 0
        }),
{
    lemma_row_place(j, 4 * i + c, 4 * w, h);
    assert(j * (4 * w) + (4 * i + c) == 4 * (j * w + i) + c) by (nonlinear_arith);
    assert(h * (4 * w) == 4 * (w * h)) by (nonlinear_arith);
}

/// Cutting out all of a tightly packed picture leaves it as it is.
pub proof fn cutting_everything_changes_nothing(base: Seq<u8>, w: int, h: int)
    requires
        0 < w,
        0 <= h,
        base.len() == 4 * (w * h),
    ensures
        cut_out(base, 4 * w, 0, 0, w, h) == base,
{
    let piece = cut_out(base, 4 * w, 0, 0, w, h);
    assert(h * (4 * w) == 4 * (w * h)) by (nonlinear_arith);
    assert forall|k: int| 0 <= k < piece.len() implies piece[k] == base[k] by {
        let row = 4 * w;
        vstd::arithmetic::div_mod::lemma_fundamental_div_mod(k, row);
        assert((k / row) * row + k % row == k) by (nonlinear_arith)
            requires
                k == row * (k / row) + k % row,
        ;
    }
    assert(piece =~= base);
}

} // verus!
