//! The pixel canvas of a sprite: one flat buffer of two bytes per pixel,
//! row after row, addressed by a computed byte index.
use vstd::prelude::*;

verus! {

/// A sprite whose width or height reaches this limit gets no canvas of its
/// size and no pixel data.
pub const SIZE_LIMIT: u32 = 8000;

/// True when a sprite of this size is a sentinel: too large to be decoded.
pub open spec fn is_sentinel(width: u32, height: u32) -> bool {
    width >= SIZE_LIMIT || height >= SIZE_LIMIT
}

/// `n` zero bytes.
pub open spec fn zeros(n: int) -> Seq<u8> {
    Seq::new(n as nat, |i: int| 0u8)
}

/// The canvas a sprite starts with: two zero bytes per pixel, or the two-byte
/// placeholder of a sentinel.
pub open spec fn blank_canvas(width: u32, height: u32) -> Seq<u8> {
    if is_sentinel(width, height) {
        zeros(2)
    } else {
        zeros(width * height * 2)
    }
}

/// The byte index of pixel `(x, y)` in a canvas of rows `width` pixels wide.
/// Nothing clips `x` to the row: a pixel past the end of a row lies in the
/// following row.
pub open spec fn address_of(x: int, y: int, width: int) -> int {
    y * 2 * width + x * 2
}

/// `canvas` with the bytes of `src` written over it from index `at` on.
pub open spec fn overwrite(canvas: Seq<u8>, at: int, src: Seq<u8>) -> Seq<u8> {
    Seq::new(
        canvas.len(),
        |i: int|
            if at <= i < at + src.len() {
                src[i - at]
            } else {
                canvas[i]
            },
    )
}

/// True when the two bytes of a pixel at byte index `addr` lie within a
/// canvas of `len` bytes.
pub open spec fn in_canvas(len: int, addr: int) -> bool {
    0 <= addr && addr + 2 <= len
}

/// How many whole pixels fit into `canvas` from byte index `addr` on; none
/// where `addr` itself lies outside.
pub open spec fn room_at(canvas: Seq<u8>, addr: int) -> int {
    if in_canvas(canvas.len() as int, addr) {
        (canvas.len() - addr) / 2
    } else {
        0
    }
}

/// Allocates the canvas of a sprite, all zero.
pub fn new_canvas(width: u32, height: u32) -> (canvas: Vec<u8>)
    ensures
        canvas@ == blank_canvas(width, height),
{
    if width < SIZE_LIMIT && height < SIZE_LIMIT {
        assert(width * height * 2 <= 7999 * 7999 * 2) by (nonlinear_arith)
            requires
                0 <= width < 8000,
                0 <= height < 8000,
        ;
        assert(0 <= width * height) by (nonlinear_arith)
            requires
                0 <= width,
                0 <= height,
        ;
        let n: usize = (width as usize) * (height as usize) * 2;
        let canvas = vec![0u8; n];
        assert(canvas@ =~= blank_canvas(width, height));
        canvas
    } else {
        let canvas = vec![0u8; 2];
        assert(canvas@ =~= blank_canvas(width, height));
        canvas
    }
}

/// Writes one packed pixel, low byte first, at byte index `at`.
pub fn put_pixel(canvas: &mut Vec<u8>, at: usize, lo: u8, hi: u8)
    requires
        at + 2 <= old(canvas)@.len(),
    ensures
        final(canvas)@ == overwrite(old(canvas)@, at as int, seq![lo, hi]),
{
    let len: usize = canvas.len();
    let next: usize = at + 1;
    canvas[at] = lo;
    canvas[next] = hi;
    assert(canvas@ =~= overwrite(old(canvas)@, at as int, seq![lo, hi]));
}

} // verus!
