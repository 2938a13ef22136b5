//! Layout of a row-major RGBA8 pixel buffer: where each pixel and channel
//! lives, and how many bytes an image of given extents takes.

use vstd::prelude::*;

verus! {

/// Byte offset of pixel `(x, y)` in a row-major RGBA8 buffer of the given width.
pub open spec fn byte_offset(width: int, x: int, y: int) -> int {
    (y * width + x) * 4
}

/// Index of channel `c` of pixel `(x, y)` in a row-major RGBA8 buffer.
pub open spec fn channel_index(width: int, x: int, y: int, c: int) -> int {
    byte_offset(width, x, y) + c
}

/// The number of bytes that a `width` x `height` RGBA8 image occupies, when it
/// fits in a `usize`; `None` when the product overflows.
pub fn rgba_len(width: u32, height: u32) -> (r: Option<usize>)
    ensures
        match r {
            Some(n) => n == width * height * 4,
            None => width * height * 4 > usize::MAX,
        },
{
    let w = width as usize;
    let h = height as usize;
    match w.checked_mul(h) {
        Some(pixels) => {
            assert(w * h * 4 == pixels * 4);
            pixels.checked_mul(4)
        },
        None => {
            assert(w * h * 4 >= w * h) by (nonlinear_arith)
                requires
                    0 <= w * h,
            ;
            None
        },
    }
}

/// Every channel of every pixel lies inside the first `width * height * 4` bytes.
pub proof fn lemma_channel_in_image(width: int, height: int, x: int, y: int, c: int)
    requires
        0 <= x < width,
        0 <= y < height,
        0 <= c < 4,
    ensures
        0 <= byte_offset(width, x, y),
        channel_index(width, x, y, c) < width * height * 4,
        byte_offset(width, x, y) + 4 <= width * height * 4,
{
    assert(0 <= y * width) by (nonlinear_arith)
        requires
            0 <= y,
            0 <= width,
    ;
    assert(y * width + width <= height * width) by (nonlinear_arith)
        requires
            y < height,
            0 <= width,
    ;
    assert(width * height == height * width) by (nonlinear_arith);
}

/// Every index inside the image is channel `i % 4` of pixel `((i / 4) % width, (i / 4) / width)`.
pub proof fn lemma_index_decomposition(width: int, height: int, i: int)
    requires
        0 < width,
        0 <= i < width * height * 4,
    ensures
        0 <= (i / 4) % width < width,
        0 <= (i / 4) / width < height,
        0 <= i % 4 < 4,
        channel_index(width, (i / 4) % width, (i / 4) / width, i % 4) == i,
{
    let p = i / 4;
    assert(i == p * 4 + i % 4);
    assert(p == (p / width) * width + p % width) by (nonlinear_arith)
        requires
            0 < width,
    ;
    assert(0 <= p % width < width) by (nonlinear_arith)
        requires
            0 < width,
    ;
    assert(0 <= p < width * height);
    assert(0 <= p / width < height) by (nonlinear_arith)
        requires
            0 < width,
            0 <= p < width * height,
    ;
    assert((p / width) * width == width * (p / width)) by (nonlinear_arith);
}

/// A pixel that comes earlier in row-major order lies wholly before a later one.
pub proof fn lemma_earlier_pixel(width: int, xx: int, yy: int, x: int, y: int, c: int)
    requires
        0 <= xx < width,
        0 <= x,
        yy < y || (yy == y && xx < x),
        0 <= c < 4,
    ensures
        channel_index(width, xx, yy, c) < byte_offset(width, x, y),
{
    if yy < y {
        assert(yy * width + width <= y * width) by (nonlinear_arith)
            requires
                yy + 1 <= y,
                0 <= width,
        ;
    }
}

/// Channel `c` of pixel `(x, y)` of an image sits at `i` exactly when `i`
/// decomposes into that pixel and channel.
pub proof fn lemma_channel_index_inverse(width: int, height: int, x: int, y: int, c: int)
    requires
        0 <= x < width,
        0 <= y < height,
        0 <= c < 4,
    ensures
        channel_index(width, x, y, c) / 4 % width == x,
        channel_index(width, x, y, c) / 4 / width == y,
        channel_index(width, x, y, c) % 4 == c,
        channel_index(width, x, y, c) < width * height * 4,
{
    let i = channel_index(width, x, y, c);
    lemma_channel_in_image(width, height, x, y, c);
    vstd::arithmetic::div_mod::lemma_fundamental_div_mod_converse(i, 4, y * width + x, c);
    assert(y * width + x == y * width + x);
    assert(y * width == width * y) by (nonlinear_arith);
    vstd::arithmetic::div_mod::lemma_fundamental_div_mod_converse(y * width + x, width, y, x);
}

} // verus!
