//! Box blur of an RGBA8 pixel buffer: every channel of every pixel becomes the
//! average of that channel over the square window of the given radius around
//! it, clipped to the image, repeated for the given number of passes.

use vstd::prelude::*;

use crate::mirror::{lemma_mirrored_at, mirrored, source_coord, Params as MirrorParams};
use crate::raster::{
    byte_offset, channel_index, lemma_channel_in_image, lemma_channel_index_inverse,
    lemma_earlier_pixel, lemma_index_decomposition, rgba_len,
};

verus! {

/// How a blur is done.
pub struct Params {
    /// Half the side of the averaging window, not counting the centre pixel.
    pub radius: usize,
    /// How many times the blur is applied; zero counts as one.
    pub iterations: usize,
}

impl Clone for Params {
    fn clone(&self) -> (r: Self)
        ensures
            r == *self,
    {
        Params { radius: self.radius, iterations: self.iterations }
    }
}

impl Copy for Params {}

impl Default for Params {
    /// Both fields zero: a single pass whose window is the pixel itself.
    fn default() -> (r: Self)
        ensures
            r.radius == 0,
            r.iterations == 0,
    {
        Params { radius: 0, iterations: 0 }
    }
}

/// The radius used when parameter text names none.
pub fn default_radius() -> (r: usize)
    ensures
        r == 1,
{
    1
}

/// The number of passes used when parameter text names none.
pub fn default_iterations() -> (r: usize)
    ensures
        r == 1,
{
    1
}

/// Returns the byte offset of pixel `(x, y)` in a row-major RGBA8 buffer.
pub fn offset(width: usize, x: usize, y: usize) -> (r: usize)
    requires
        byte_offset(width as int, x as int, y as int) <= usize::MAX,
    ensures
        r == byte_offset(width as int, x as int, y as int),
{
    (y * width + x) * 4
}

/// First coordinate of the window around `coord`: `coord - radius`, or 0.
pub open spec fn window_start(coord: int, radius: int) -> int {
    if coord >= radius {
        coord - radius
    } else {
        0
    }
}

/// Last coordinate of the window around `coord` along an axis of length `extent`:
/// `coord + radius`, or the last coordinate of the axis.
pub open spec fn window_end(coord: int, radius: int, extent: int) -> int {
    if coord + radius < extent - 1 {
        coord + radius
    } else {
        extent - 1
    }
}

/// Sum of channel `c` over pixels `x0..=x1` of row `y`.
pub open spec fn row_sum(s: Seq<u8>, width: int, c: int, y: int, x0: int, x1: int) -> int
    decreases x1 - x0 + 1,
{
    if x1 < x0 {
        0
    } else {
        row_sum(s, width, c, y, x0, x1 - 1) + s[channel_index(width, x1, y, c)]
    }
}

/// Sum of channel `c` over the pixels of columns `x0..=x1` and rows `y0..=y1`.
pub open spec fn window_sum(
    s: Seq<u8>,
    width: int,
    c: int,
    x0: int,
    x1: int,
    y0: int,
    y1: int,
) -> int
    decreases y1 - y0 + 1,
{
    if y1 < y0 {
        0
    } else {
        window_sum(s, width, c, x0, x1, y0, y1 - 1) + row_sum(s, width, c, y1, x0, x1)
    }
}

/// Channel `c` of pixel `(x, y)` after one pass: the integer average of that
/// channel over the window around the pixel.
pub open spec fn blurred_value(
    s: Seq<u8>,
    width: int,
    height: int,
    radius: int,
    x: int,
    y: int,
    c: int,
) -> int {
    let x0 = window_start(x, radius);
    let x1 = window_end(x, radius, width);
    let y0 = window_start(y, radius);
    let y1 = window_end(y, radius, height);
    window_sum(s, width, c, x0, x1, y0, y1) / ((x1 - x0 + 1) * (y1 - y0 + 1))
}

/// One blur pass over the `width` x `height` image at the start of `s`; the bytes
/// past the image stay as they are.
pub open spec fn blur_pass(width: int, height: int, radius: int, s: Seq<u8>) -> Seq<u8> {
    Seq::new(
        s.len(),
        |i: int|
            if i < width * height * 4 {
                let p = i / 4;
                blurred_value(s, width, height, radius, p % width, p / width, i % 4) as u8
            } else {
                s[i]
            },
    )
}

/// `passes` blur passes, one after the other.
pub open spec fn blurred(width: int, height: int, radius: int, passes: nat, s: Seq<u8>) -> Seq<
    u8,
>
    decreases passes,
{
    if passes == 0 {
        s
    } else {
        blur_pass(width, height, radius, blurred(width, height, radius, (passes - 1) as nat, s))
    }
}

/// The number of passes a blur makes for the given `iterations`: at least one.
pub open spec fn pass_count(iterations: int) -> nat {
    if iterations < 1 {
        1
    } else {
        iterations as nat
    }
}

/// A row sum lies between 0 and 255 times the number of pixels summed.
pub proof fn lemma_row_sum_bounds(s: Seq<u8>, width: int, c: int, y: int, x0: int, x1: int)
    requires
        x0 <= x1 + 1,
    ensures
        0 <= row_sum(s, width, c, y, x0, x1) <= 255 * (x1 - x0 + 1),
    decreases x1 - x0 + 1,
{
    if x1 >= x0 {
        lemma_row_sum_bounds(s, width, c, y, x0, x1 - 1);
    }
}

/// A window sum lies between 0 and 255 times the number of pixels summed.
pub proof fn lemma_window_sum_bounds(
    s: Seq<u8>,
    width: int,
    c: int,
    x0: int,
    x1: int,
    y0: int,
    y1: int,
)
    requires
        x0 <= x1 + 1,
        y0 <= y1 + 1,
    ensures
        0 <= window_sum(s, width, c, x0, x1, y0, y1) <= 255 * ((x1 - x0 + 1) * (y1 - y0 + 1)),
    decreases y1 - y0 + 1,
{
    if y1 >= y0 {
        lemma_window_sum_bounds(s, width, c, x0, x1, y0, y1 - 1);
        lemma_row_sum_bounds(s, width, c, y1, x0, x1);
        assert((x1 - x0 + 1) * (y1 - y0 + 1) == (x1 - x0 + 1) * (y1 - 1 - y0 + 1) + (x1 - x0
            + 1)) by (nonlinear_arith);
    } else {
        assert((x1 - x0 + 1) * (y1 - y0 + 1) == 0) by (nonlinear_arith)
            requires
                y1 - y0 + 1 == 0,
        ;
    }
}

/// Sum of channel `c` over the window of columns `x0..=x1` and rows `y0..=y1`.
fn channel_window_sum(
    src: &Vec<u8>,
    width: usize,
    height: usize,
    c: usize,
    x0: usize,
    x1: usize,
    y0: usize,
    y1: usize,
) -> (r: u128)
    requires
        x0 <= x1 < width,
        y0 <= y1 < height,
        c < 4,
        width * height * 4 <= src@.len(),
    ensures
        r == window_sum(src@, width as int, c as int, x0 as int, x1 as int, y0 as int, y1 as int),
{
    let ghost w = width as int;
    let n = src.len();
    let ghost len = n as int;
    proof {
        assert((x1 - x0 + 1) * (y1 - y0 + 1) <= width * height) by (nonlinear_arith)
            requires
                0 <= x0 <= x1 < width,
                0 <= y0 <= y1 < height,
        ;
        assert(width * height <= usize::MAX) by (nonlinear_arith)
            requires
                width * height * 4 <= len,
                len <= usize::MAX,
        ;
    }
    let mut total: u128 = 0;
    let mut ny = y0;
    while ny <= y1
        invariant
            x0 <= x1 < width,
            y0 <= ny <= y1 + 1,
            y1 < height,
            c < 4,
            w == width,
            width * height * 4 <= len <= usize::MAX,
            len == src@.len(),
            (x1 - x0 + 1) * (y1 - y0 + 1) <= width * height <= usize::MAX,
            total == window_sum(src@, w, c as int, x0 as int, x1 as int, y0 as int, ny - 1),
        decreases y1 + 1 - ny,
    {
        let mut row: u128 = 0;
        let mut nx = x0;
        while nx <= x1
            invariant
                x0 <= nx <= x1 + 1,
                x1 < width,
                y0 <= ny <= y1,
                y1 < height,
                c < 4,
                w == width,
                width * height * 4 <= len <= usize::MAX,
                len == src@.len(),
                row == row_sum(src@, w, c as int, ny as int, x0 as int, nx - 1),
            decreases x1 + 1 - nx,
        {
            proof {
                lemma_channel_in_image(w, height as int, nx as int, ny as int, c as int);
                lemma_row_sum_bounds(src@, w, c as int, ny as int, x0 as int, nx - 1);
            }
            let idx = offset(width, nx, ny) + c;
            row = row + src[idx] as u128;
            nx = nx + 1;
        }
        proof {
            lemma_window_sum_bounds(src@, w, c as int, x0 as int, x1 as int, y0 as int, ny as int);
            assert((x1 - x0 + 1) * (ny - y0 + 1) <= (x1 - x0 + 1) * (y1 - y0 + 1)) by (
            nonlinear_arith)
                requires
                    x0 <= x1,
                    ny <= y1,
            ;
            lemma_row_sum_bounds(src@, w, c as int, ny as int, x0 as int, x1 as int);
            lemma_window_sum_bounds(
                src@,
                w,
                c as int,
                x0 as int,
                x1 as int,
                y0 as int,
                ny - 1,
            );
        }
        total = total + row;
        ny = ny + 1;
    }
    total
}

/// Channel `c` of pixel `(x, y)` after one blur pass over `src`.
fn blurred_channel(
    src: &Vec<u8>,
    width: usize,
    height: usize,
    radius: usize,
    x: usize,
    y: usize,
    c: usize,
) -> (v: u8)
    requires
        x < width,
        y < height,
        c < 4,
        width * height * 4 <= src@.len(),
        width - 1 + radius <= usize::MAX,
        height - 1 + radius <= usize::MAX,
    ensures
        v == blurred_value(
            src@,
            width as int,
            height as int,
            radius as int,
            x as int,
            y as int,
            c as int,
        ),
{
    let y_start = y.saturating_sub(radius);
    let y_end = (y + radius).min(height - 1);
    let x_start = x.saturating_sub(radius);
    let x_end = (x + radius).min(width - 1);
    assert(y_start == window_start(y as int, radius as int));
    assert(y_end == window_end(y as int, radius as int, height as int));
    assert(x_start == window_start(x as int, radius as int));
    assert(x_end == window_end(x as int, radius as int, width as int));
    let sum = channel_window_sum(src, width, height, c, x_start, x_end, y_start, y_end);
    let n = src.len();
    let span_x = (x_end - x_start + 1) as u128;
    let span_y = (y_end - y_start + 1) as u128;
    proof {
        let len = n as int;
        assert(span_x * span_y <= width * height) by (nonlinear_arith)
            requires
                1 <= span_x <= width,
                1 <= span_y <= height,
        ;
        assert(span_x * span_y > 0) by (nonlinear_arith)
            requires
                1 <= span_x,
                1 <= span_y,
        ;
        assert(width * height <= usize::MAX) by (nonlinear_arith)
            requires
                width * height * 4 <= len,
                len <= usize::MAX,
        ;
    }
    let count = span_x * span_y;
    proof {
        lemma_window_sum_bounds(
            src@,
            width as int,
            c as int,
            x_start as int,
            x_end as int,
            y_start as int,
            y_end as int,
        );
        assert(sum / count <= 255) by (nonlinear_arith)
            requires
                0 <= sum <= 255 * count,
                count > 0,
        ;
    }
    (sum / count) as u8
}

/// Writes the four channel values of one pixel to `rgba[dst..dst + 4]`.
fn store_pixel(rgba: &mut Vec<u8>, dst: usize, v0: u8, v1: u8, v2: u8, v3: u8)
    requires
        dst + 4 <= old(rgba).len(),
    ensures
        final(rgba)@ == old(rgba)@.update(dst as int, v0).update(dst + 1, v1).update(
            dst + 2,
            v2,
        ).update(dst + 3, v3),
{
    rgba.set(dst, v0);
    rgba.set(dst + 1, v1);
    rgba.set(dst + 2, v2);
    rgba.set(dst + 3, v3);
}

/// Applies one blur pass to the `width` x `height` image at the start of `rgba`.
fn blur_step(width: usize, height: usize, radius: usize, rgba: &mut Vec<u8>)
    requires
        0 < width,
        0 < height,
        width * height * 4 <= old(rgba).len(),
        width - 1 + radius <= usize::MAX,
        height - 1 + radius <= usize::MAX,
    ensures
        final(rgba)@ == blur_pass(width as int, height as int, radius as int, old(rgba)@),
{
    let ghost w = width as int;
    let ghost h = height as int;
    let ghost r = radius as int;
    let src = rgba.clone();
    assert(src@ =~= rgba@);
    let n = src.len();
    let ghost len = n as int;
    let mut y: usize = 0;
    while y < height
        invariant
            w == width,
            h == height,
            r == radius,
            0 < width,
            0 < height,
            width - 1 + radius <= usize::MAX,
            height - 1 + radius <= usize::MAX,
            w * h * 4 <= len <= usize::MAX,
            src@.len() == len,
            rgba@.len() == len,
            src@ == old(rgba)@,
            0 <= y <= height,
            forall|xx: int, yy: int, c: int|
                0 <= xx < w && 0 <= yy < h && yy < y && 0 <= c < 4 ==> rgba@[#[trigger] channel_index(
                    w,
                    xx,
                    yy,
                    c,
                )] == blurred_value(src@, w, h, r, xx, yy, c) as u8,
            forall|i: int| byte_offset(w, 0, y as int) <= i < len ==> rgba@[i] == src@[i],
        decreases height - y,
    {
        let mut x: usize = 0;
        while x < width
            invariant
                w == width,
                h == height,
                r == radius,
                0 < width,
                0 < height,
                width - 1 + radius <= usize::MAX,
                height - 1 + radius <= usize::MAX,
                w * h * 4 <= len <= usize::MAX,
                src@.len() == len,
                rgba@.len() == len,
                src@ == old(rgba)@,
                0 <= y < height,
                0 <= x <= width,
                forall|xx: int, yy: int, c: int|
                    0 <= xx < w && 0 <= yy < h && (yy < y || (yy == y && xx < x)) && 0 <= c < 4
                        ==> rgba@[#[trigger] channel_index(w, xx, yy, c)] == blurred_value(
                        src@,
                        w,
                        h,
                        r,
                        xx,
                        yy,
                        c,
                    ) as u8,
                forall|i: int| byte_offset(w, x as int, y as int) <= i < len ==> rgba@[i] == src@[i],
            decreases width - x,
        {
            let v0 = blurred_channel(&src, width, height, radius, x, y, 0);
            let v1 = blurred_channel(&src, width, height, radius, x, y, 1);
            let v2 = blurred_channel(&src, width, height, radius, x, y, 2);
            let v3 = blurred_channel(&src, width, height, radius, x, y, 3);
            proof {
                lemma_channel_in_image(w, h, x as int, y as int, 0);
            }
            let dst = offset(width, x, y);
            let ghost before = rgba@;
            store_pixel(rgba, dst, v0, v1, v2, v3);
            proof {
                assert forall|xx: int, yy: int, c: int|
                    0 <= xx < w && 0 <= yy < h && (yy < y || (yy == y && xx < x + 1)) && 0 <= c
                        < 4 implies rgba@[#[trigger] channel_index(w, xx, yy, c)]
                    == blurred_value(src@, w, h, r, xx, yy, c) as u8 by {
                    if yy != y || xx != x {
                        lemma_earlier_pixel(w, xx, yy, x as int, y as int, c);
                    }
                }
            }
            x = x + 1;
        }
        proof {
            assert(byte_offset(w, w, y as int) == byte_offset(w, 0, y + 1)) by (nonlinear_arith);
        }
        y = y + 1;
    }
    proof {
        assert forall|i: int| 0 <= i < len implies #[trigger] blur_pass(w, h, r, src@)[i]
            == rgba@[i] by {
            if i < w * h * 4 {
                lemma_index_decomposition(w, h, i);
            } else {
                assert(byte_offset(w, 0, h) == w * h * 4) by (nonlinear_arith);
            }
        }
        assert(blur_pass(w, h, r, src@) =~= rgba@);
    }
}

/// An image with no pixels is left as it is by any number of passes.
pub proof fn lemma_blur_of_empty_image(width: int, height: int, radius: int, passes: nat, s: Seq<u8>)
    requires
        width * height * 4 <= 0,
    ensures
        blurred(width, height, radius, passes, s) == s,
    decreases passes,
{
    if passes > 0 {
        lemma_blur_of_empty_image(width, height, radius, (passes - 1) as nat, s);
        assert(blur_pass(width, height, radius, s) =~= s);
    }
}

/// Blurs the `width` x `height` RGBA8 image held in the first
/// `width * height * 4` bytes of `rgba`: `max(iterations, 1)` passes, each of
/// which replaces every channel of every pixel by its integer average over the
/// window of the given radius around the pixel, clipped to the image, taken
/// from the image as it was before that pass.
pub fn blur(width: usize, height: usize, rgba: &mut Vec<u8>, params: Params)
    requires
        width == 0 || height == 0 || (width * height * 4 <= old(rgba).len() && width - 1
            + params.radius <= usize::MAX && height - 1 + params.radius <= usize::MAX),
    ensures
        final(rgba)@ == blurred(
            width as int,
            height as int,
            params.radius as int,
            pass_count(params.iterations as int),
            old(rgba)@,
        ),
{
    if width == 0 || height == 0 {
        proof {
            assert(width * height * 4 == 0) by (nonlinear_arith)
                requires
                    width == 0 || height == 0,
            ;
            lemma_blur_of_empty_image(
                width as int,
                height as int,
                params.radius as int,
                pass_count(params.iterations as int),
                rgba@,
            );
        }
        return ;
    }
    let radius = params.radius;
    let iterations = params.iterations.max(1);
    let ghost start = rgba@;
    let mut done: usize = 0;
    while done < iterations
        invariant
            0 < width,
            0 < height,
            width * height * 4 <= start.len(),
            width - 1 + radius <= usize::MAX,
            height - 1 + radius <= usize::MAX,
            radius == params.radius,
            iterations == pass_count(params.iterations as int),
            done <= iterations,
            rgba@ == blurred(width as int, height as int, radius as int, done as nat, start),
            start == old(rgba)@,
            rgba@.len() == start.len(),
        decreases iterations - done,
    {
        blur_step(width, height, radius, rgba);
        done = done + 1;
    }
}

/// Blurs a `width` x `height` RGBA8 image in place as the plugin entry point
/// does: the image occupies the first `width * height * 4` bytes of `rgba`;
/// when that byte count overflows a `usize`, nothing is done. `params` is what
/// was parsed from the caller's parameter text, if anything was; without it both
/// fields are zero.
pub fn process_image(width: u32, height: u32, rgba: &mut Vec<u8>, params: Option<Params>)
    requires
        width * height * 4 <= usize::MAX ==> width * height * 4 <= old(rgba).len(),
        width * height * 4 <= usize::MAX && width > 0 && height > 0 ==> width - 1
            + effective_params(params).radius <= usize::MAX && height - 1 + effective_params(
            params,
        ).radius <= usize::MAX,
    ensures
        final(rgba)@ == if width * height * 4 <= usize::MAX {
            blurred(
                width as int,
                height as int,
                effective_params(params).radius as int,
                pass_count(effective_params(params).iterations as int),
                old(rgba)@,
            )
        } else {
            old(rgba)@
        },
        params matches Some(p) ==> width * height * 4 <= usize::MAX ==> final(rgba)@ == blurred(
            width as int,
            height as int,
            p.radius as int,
            pass_count(p.iterations as int),
            old(rgba)@,
        ),
        params is None ==> final(rgba)@ == old(rgba)@,
{
    proof {
        lemma_blur_without_params_keeps_image(width as int, height as int, rgba@);
    }
    if rgba_len(width, height).is_none() {
        return ;
    }
    let current_params = match params {
        Some(p) => p,
        None => Params::default(),
    };
    blur(width as usize, height as usize, rgba, current_params);
}

/// The parameters a plugin call works with: those parsed, or the default ones.
pub open spec fn effective_params(params: Option<Params>) -> Params {
    match params {
        Some(p) => p,
        None => Params { radius: 0, iterations: 0 },
    }
}

/// Whether every pixel of the `width` x `height` image at the start of `s` has
/// the same channel values as the first pixel.
pub open spec fn is_uniform(width: int, height: int, s: Seq<u8>) -> bool {
    forall|x: int, y: int, c: int|
        0 <= x < width && 0 <= y < height && 0 <= c < 4 ==> s[#[trigger] channel_index(
            width,
            x,
            y,
            c,
        )] == s[c]
}

/// Over a uniform image a row sum is the common value times the pixel count.
proof fn lemma_uniform_row_sum(
    s: Seq<u8>,
    width: int,
    height: int,
    c: int,
    y: int,
    x0: int,
    x1: int,
)
    requires
        is_uniform(width, height, s),
        0 <= x0 <= x1 + 1,
        x1 < width,
        0 <= y < height,
        0 <= c < 4,
    ensures
        row_sum(s, width, c, y, x0, x1) == s[c] * (x1 - x0 + 1),
    decreases x1 - x0 + 1,
{
    if x1 >= x0 {
        lemma_uniform_row_sum(s, width, height, c, y, x0, x1 - 1);
        assert(s[channel_index(width, x1, y, c)] == s[c]);
        assert(s[c] * (x1 - x0 + 1) == s[c] * (x1 - 1 - x0 + 1) + s[c]) by (nonlinear_arith);
    } else {
        assert(s[c] * (x1 - x0 + 1) == 0) by (nonlinear_arith)
            requires
                x1 - x0 + 1 == 0,
        ;
    }
}

/// Over a uniform image a window sum is the common value times the pixel count.
proof fn lemma_uniform_window_sum(
    s: Seq<u8>,
    width: int,
    height: int,
    c: int,
    x0: int,
    x1: int,
    y0: int,
    y1: int,
)
    requires
        is_uniform(width, height, s),
        0 <= x0 <= x1 < width,
        0 <= y0 <= y1 + 1,
        y1 < height,
        0 <= c < 4,
    ensures
        window_sum(s, width, c, x0, x1, y0, y1) == s[c] * ((x1 - x0 + 1) * (y1 - y0 + 1)),
    decreases y1 - y0 + 1,
{
    if y1 >= y0 {
        lemma_uniform_window_sum(s, width, height, c, x0, x1, y0, y1 - 1);
        lemma_uniform_row_sum(s, width, height, c, y1, x0, x1);
        assert(s[c] * ((x1 - x0 + 1) * (y1 - y0 + 1)) == s[c] * ((x1 - x0 + 1) * (y1 - 1 - y0
            + 1)) + s[c] * (x1 - x0 + 1)) by (nonlinear_arith);
    } else {
        assert(s[c] * ((x1 - x0 + 1) * (y1 - y0 + 1)) == 0) by (nonlinear_arith)
            requires
                y1 - y0 + 1 == 0,
        ;
    }
}

/// One blur pass leaves a uniform image as it is.
pub proof fn lemma_blur_pass_keeps_uniform_image(
    width: int,
    height: int,
    radius: int,
    s: Seq<u8>,
)
    requires
        0 < width,
        0 < height,
        0 <= radius,
        width * height * 4 <= s.len(),
        is_uniform(width, height, s),
    ensures
        blur_pass(width, height, radius, s) == s,
{
    assert forall|i: int| 0 <= i < s.len() implies #[trigger] blur_pass(width, height, radius, s)[i]
        == s[i] by {
        if i < width * height * 4 {
            lemma_index_decomposition(width, height, i);
            let x = (i / 4) % width;
            let y = (i / 4) / width;
            let c = i % 4;
            let x0 = window_start(x, radius);
            let x1 = window_end(x, radius, width);
            let y0 = window_start(y, radius);
            let y1 = window_end(y, radius, height);
            lemma_uniform_window_sum(s, width, height, c, x0, x1, y0, y1);
            let k = (x1 - x0 + 1) * (y1 - y0 + 1);
            assert(k > 0) by (nonlinear_arith)
                requires
                    x0 <= x1,
                    y0 <= y1,
                    k == (x1 - x0 + 1) * (y1 - y0 + 1),
            ;
            assert((s[c] * k) / k == s[c]) by (nonlinear_arith)
                requires
                    k > 0,
            ;
            assert(s[channel_index(width, x, y, c)] == s[c]);
        }
    }
    assert(blur_pass(width, height, radius, s) =~= s);
}

/// Any number of blur passes leaves a uniform image as it is.
pub proof fn lemma_blur_keeps_uniform_image(
    width: int,
    height: int,
    radius: int,
    passes: nat,
    s: Seq<u8>,
)
    requires
        0 < width,
        0 < height,
        0 <= radius,
        width * height * 4 <= s.len(),
        is_uniform(width, height, s),
    ensures
        blurred(width, height, radius, passes, s) == s,
    decreases passes,
{
    if passes > 0 {
        lemma_blur_keeps_uniform_image(width, height, radius, (passes - 1) as nat, s);
        lemma_blur_pass_keeps_uniform_image(width, height, radius, s);
    }
}

/// With radius zero the window of a pixel is the pixel itself.
proof fn lemma_zero_radius_value(s: Seq<u8>, width: int, height: int, x: int, y: int, c: int)
    requires
        0 <= x < width,
        0 <= y < height,
    ensures
        blurred_value(s, width, height, 0, x, y, c) == s[channel_index(width, x, y, c)],
{
    assert(window_start(x, 0) == x && window_end(x, 0, width) == x);
    assert(window_start(y, 0) == y && window_end(y, 0, height) == y);
    assert(row_sum(s, width, c, y, x, x - 1) == 0);
    assert(row_sum(s, width, c, y, x, x) == s[channel_index(width, x, y, c)]);
    assert(window_sum(s, width, c, x, x, y, y - 1) == 0);
    assert(window_sum(s, width, c, x, x, y, y) == s[channel_index(width, x, y, c)]);
    assert((x - x + 1) * (y - y + 1) == 1) by (nonlinear_arith);
}

/// A blur with radius zero averages each pixel with itself alone, so any number
/// of passes leaves the buffer as it is.
pub proof fn lemma_blur_with_zero_radius_is_identity(
    width: int,
    height: int,
    passes: nat,
    s: Seq<u8>,
)
    requires
        0 <= width,
        0 <= height,
    ensures
        blurred(width, height, 0, passes, s) == s,
    decreases passes,
{
    if passes > 0 {
        lemma_blur_with_zero_radius_is_identity(width, height, (passes - 1) as nat, s);
        assert forall|i: int| 0 <= i < s.len() implies #[trigger] blur_pass(width, height, 0, s)[i]
            == s[i] by {
            if i < width * height * 4 {
                if width == 0 {
                    assert(width * height * 4 == 0);
                } else {
                    lemma_index_decomposition(width, height, i);
                    let x = (i / 4) % width;
                    let y = (i / 4) / width;
                    let c = i % 4;
                    lemma_zero_radius_value(s, width, height, x, y, c);
                    assert(channel_index(width, x, y, c) == i);
                }
            }
        }
        assert(blur_pass(width, height, 0, s) =~= s);
    }
}

/// A plugin call without parameters blurs with radius zero, so it leaves the
/// image as it is.
pub proof fn lemma_blur_without_params_keeps_image(width: int, height: int, s: Seq<u8>)
    requires
        0 <= width,
        0 <= height,
    ensures
        blurred(
            width,
            height,
            effective_params(None).radius as int,
            pass_count(effective_params(None).iterations as int),
            s,
        ) == s,
{
    lemma_blur_with_zero_radius_is_identity(width, height, pass_count(0), s);
}

/// Blurring never changes the bytes that follow the image in the buffer, nor the
/// buffer's length.
pub proof fn lemma_blur_keeps_trailing_bytes(
    width: int,
    height: int,
    radius: int,
    passes: nat,
    s: Seq<u8>,
    i: int,
)
    requires
        0 <= width,
        0 <= height,
        width * height * 4 <= i < s.len(),
    ensures
        blurred(width, height, radius, passes, s).len() == s.len(),
        blurred(width, height, radius, passes, s)[i] == s[i],
    decreases passes,
{
    if passes > 0 {
        lemma_blur_keeps_trailing_bytes(width, height, radius, (passes - 1) as nat, s, i);
    }
}

/// Blurring `a` passes after `b` passes is blurring `a + b` passes.
pub proof fn lemma_blur_passes_add(
    width: int,
    height: int,
    radius: int,
    a: nat,
    b: nat,
    s: Seq<u8>,
)
    ensures
        blurred(width, height, radius, a, blurred(width, height, radius, b, s)) == blurred(
            width,
            height,
            radius,
            a + b,
            s,
        ),
    decreases a,
{
    if a > 0 {
        lemma_blur_passes_add(width, height, radius, (a - 1) as nat, b, s);
        assert((a + b - 1) as nat == ((a - 1) as nat + b) as nat);
    }
}

/// A row sum splits into its first term and the sum of the rest.
proof fn lemma_row_sum_first(s: Seq<u8>, width: int, c: int, y: int, a: int, b: int)
    requires
        a <= b,
    ensures
        row_sum(s, width, c, y, a, b) == s[channel_index(width, a, y, c)] + row_sum(
            s,
            width,
            c,
            y,
            a + 1,
            b,
        ),
    decreases b - a,
{
    if a < b {
        lemma_row_sum_first(s, width, c, y, a, b - 1);
    } else {
        assert(row_sum(s, width, c, y, a, a - 1) == 0);
        assert(row_sum(s, width, c, y, a + 1, a) == 0);
    }
}

/// A window sum splits into its first row and the sum over the other rows.
proof fn lemma_window_sum_first(
    s: Seq<u8>,
    width: int,
    c: int,
    x0: int,
    x1: int,
    a: int,
    b: int,
)
    requires
        a <= b,
    ensures
        window_sum(s, width, c, x0, x1, a, b) == row_sum(s, width, c, a, x0, x1) + window_sum(
            s,
            width,
            c,
            x0,
            x1,
            a + 1,
            b,
        ),
    decreases b - a,
{
    if a < b {
        lemma_window_sum_first(s, width, c, x0, x1, a, b - 1);
    } else {
        assert(window_sum(s, width, c, x0, x1, a, a - 1) == 0);
        assert(window_sum(s, width, c, x0, x1, a + 1, a) == 0);
    }
}

/// The columns `lo..=hi` of the mirrored image come from these columns of the source.
pub open spec fn source_span(extent: int, lo: int, hi: int, flip: bool) -> (int, int) {
    if flip {
        (extent - 1 - hi, extent - 1 - lo)
    } else {
        (lo, hi)
    }
}

/// A row sum of a mirrored image is the row sum over the source row and columns.
proof fn lemma_row_sum_of_mirrored(
    s: Seq<u8>,
    width: int,
    height: int,
    params: MirrorParams,
    c: int,
    y: int,
    x0: int,
    x1: int,
)
    requires
        0 <= x0 <= x1 + 1,
        x1 < width,
        0 <= y < height,
        0 <= c < 4,
        width * height * 4 <= s.len(),
    ensures
        row_sum(mirrored(width, height, params, s), width, c, y, x0, x1) == row_sum(
            s,
            width,
            c,
            source_coord(height, y, params.vertical),
            source_span(width, x0, x1, params.horizontal).0,
            source_span(width, x0, x1, params.horizontal).1,
        ),
    decreases x1 - x0 + 1,
{
    let sy = source_coord(height, y, params.vertical);
    if x1 >= x0 {
        lemma_row_sum_of_mirrored(s, width, height, params, c, y, x0, x1 - 1);
        lemma_mirrored_at(width, height, params, s, x1, y, c);
        if params.horizontal {
            lemma_row_sum_first(s, width, c, sy, width - 1 - x1, width - 1 - x0);
        }
    }
}

/// A window sum of a mirrored image is the window sum over the source rows and columns.
proof fn lemma_window_sum_of_mirrored(
    s: Seq<u8>,
    width: int,
    height: int,
    params: MirrorParams,
    c: int,
    x0: int,
    x1: int,
    y0: int,
    y1: int,
)
    requires
        0 <= x0 <= x1 < width,
        0 <= y0 <= y1 + 1,
        y1 < height,
        0 <= c < 4,
        width * height * 4 <= s.len(),
    ensures
        window_sum(mirrored(width, height, params, s), width, c, x0, x1, y0, y1) == window_sum(
            s,
            width,
            c,
            source_span(width, x0, x1, params.horizontal).0,
            source_span(width, x0, x1, params.horizontal).1,
            source_span(height, y0, y1, params.vertical).0,
            source_span(height, y0, y1, params.vertical).1,
        ),
    decreases y1 - y0 + 1,
{
    let xs = source_span(width, x0, x1, params.horizontal);
    if y1 >= y0 {
        lemma_window_sum_of_mirrored(s, width, height, params, c, x0, x1, y0, y1 - 1);
        lemma_row_sum_of_mirrored(s, width, height, params, c, y1, x0, x1);
        if params.vertical {
            lemma_window_sum_first(s, width, c, xs.0, xs.1, height - 1 - y1, height - 1 - y0);
        }
    }
}

/// Each pixel of a blurred mirrored image has the value of its source pixel in
/// the blurred source image: the window of a reflected pixel is the reflected window.
proof fn lemma_blurred_value_of_mirrored(
    s: Seq<u8>,
    width: int,
    height: int,
    radius: int,
    params: MirrorParams,
    x: int,
    y: int,
    c: int,
)
    requires
        0 <= x < width,
        0 <= y < height,
        0 <= c < 4,
        0 <= radius,
        width * height * 4 <= s.len(),
    ensures
        blurred_value(mirrored(width, height, params, s), width, height, radius, x, y, c)
            == blurred_value(
            s,
            width,
            height,
            radius,
            source_coord(width, x, params.horizontal),
            source_coord(height, y, params.vertical),
            c,
        ),
{
    let x0 = window_start(x, radius);
    let x1 = window_end(x, radius, width);
    let y0 = window_start(y, radius);
    let y1 = window_end(y, radius, height);
    lemma_window_sum_of_mirrored(s, width, height, params, c, x0, x1, y0, y1);
    let sx = source_coord(width, x, params.horizontal);
    let sy = source_coord(height, y, params.vertical);
    assert(source_span(width, x0, x1, params.horizontal) == (
        window_start(sx, radius),
        window_end(sx, radius, width),
    ));
    assert(source_span(height, y0, y1, params.vertical) == (
        window_start(sy, radius),
        window_end(sy, radius, height),
    ));
}

/// One blur pass commutes with mirroring: blurring the mirrored image gives the
/// mirrored blurred image.
pub proof fn lemma_blur_pass_commutes_with_mirror(
    width: int,
    height: int,
    radius: int,
    params: MirrorParams,
    s: Seq<u8>,
)
    requires
        0 <= width,
        0 <= height,
        0 <= radius,
        width * height * 4 <= s.len(),
    ensures
        blur_pass(width, height, radius, mirrored(width, height, params, s)) == mirrored(
            width,
            height,
            params,
            blur_pass(width, height, radius, s),
        ),
{
    let m = mirrored(width, height, params, s);
    let b = blur_pass(width, height, radius, s);
    assert forall|i: int| 0 <= i < s.len() implies #[trigger] blur_pass(width, height, radius, m)[i]
        == mirrored(width, height, params, b)[i] by {
        if i < width * height * 4 {
            if width == 0 {
                assert(width * height * 4 == 0);
            } else {
                lemma_index_decomposition(width, height, i);
                let x = (i / 4) % width;
                let y = (i / 4) / width;
                let c = i % 4;
                let sx = source_coord(width, x, params.horizontal);
                let sy = source_coord(height, y, params.vertical);
                lemma_blurred_value_of_mirrored(s, width, height, radius, params, x, y, c);
                lemma_mirrored_at(width, height, params, b, x, y, c);
                lemma_channel_index_inverse(width, height, sx, sy, c);
            }
        }
    }
    assert(blur_pass(width, height, radius, m) =~= mirrored(width, height, params, b));
}

/// Any number of blur passes commutes with mirroring.
pub proof fn lemma_blur_commutes_with_mirror(
    width: int,
    height: int,
    radius: int,
    params: MirrorParams,
    passes: nat,
    s: Seq<u8>,
)
    requires
        0 <= width,
        0 <= height,
        0 <= radius,
        width * height * 4 <= s.len(),
    ensures
        blurred(width, height, radius, passes, mirrored(width, height, params, s)) == mirrored(
            width,
            height,
            params,
            blurred(width, height, radius, passes, s),
        ),
    decreases passes,
{
    if passes > 0 {
        let prev = blurred(width, height, radius, (passes - 1) as nat, s);
        lemma_blur_commutes_with_mirror(width, height, radius, params, (passes - 1) as nat, s);
        lemma_blur_keeps_length(width, height, radius, (passes - 1) as nat, s);
        lemma_blur_pass_commutes_with_mirror(width, height, radius, params, prev);
    }
}

/// Blurring keeps the buffer's length.
pub proof fn lemma_blur_keeps_length(width: int, height: int, radius: int, passes: nat, s: Seq<u8>)
    ensures
        blurred(width, height, radius, passes, s).len() == s.len(),
    decreases passes,
{
    if passes > 0 {
        lemma_blur_keeps_length(width, height, radius, (passes - 1) as nat, s);
    }
}

/// A plugin call with parsed parameters blurs with exactly those parameters,
/// and the number of passes it makes is the parsed iteration count, or one
/// when that count is zero.
pub proof fn lemma_plugin_uses_parsed_params(p: Params)
    ensures
        effective_params(Some(p)).radius == p.radius,
        effective_params(Some(p)).iterations == p.iterations,
        pass_count(p.iterations as int) == if p.iterations == 0 {
            1
        } else {
            p.iterations as int
        },
{
}

/// Whether channel `c` of the `width` x `height` image at the start of `s` is
/// zero at every pixel but `(kx, ky)`.
pub open spec fn is_single_point(
    width: int,
    height: int,
    s: Seq<u8>,
    c: int,
    kx: int,
    ky: int,
) -> bool {
    forall|x: int, y: int|
        0 <= x < width && 0 <= y < height && (x != kx || y != ky) ==> s[#[trigger] channel_index(
            width,
            x,
            y,
            c,
        )] == 0
}

/// Over a row of a single-point channel, a sum is the point's value when the
/// row and the columns cover it, and zero otherwise.
proof fn lemma_single_point_row_sum(
    s: Seq<u8>,
    width: int,
    height: int,
    c: int,
    kx: int,
    ky: int,
    y: int,
    x0: int,
    x1: int,
)
    requires
        is_single_point(width, height, s, c, kx, ky),
        0 <= x0 <= x1 + 1,
        x1 < width,
        0 <= y < height,
    ensures
        row_sum(s, width, c, y, x0, x1) == if y == ky && x0 <= kx <= x1 {
            s[channel_index(width, kx, ky, c) as int] as int
        } else {
            0
        },
    decreases x1 - x0 + 1,
{
    if x1 >= x0 {
        lemma_single_point_row_sum(s, width, height, c, kx, ky, y, x0, x1 - 1);
        if x1 != kx || y != ky {
            assert(s[channel_index(width, x1, y, c)] == 0);
        }
    }
}

/// Over a single-point channel, a window sum is the point's value when the
/// window covers it, and zero otherwise.
proof fn lemma_single_point_window_sum(
    s: Seq<u8>,
    width: int,
    height: int,
    c: int,
    kx: int,
    ky: int,
    x0: int,
    x1: int,
    y0: int,
    y1: int,
)
    requires
        is_single_point(width, height, s, c, kx, ky),
        0 <= x0 <= x1 < width,
        0 <= y0 <= y1 + 1,
        y1 < height,
    ensures
        window_sum(s, width, c, x0, x1, y0, y1) == if x0 <= kx <= x1 && y0 <= ky <= y1 {
            s[channel_index(width, kx, ky, c) as int] as int
        } else {
            0
        },
    decreases y1 - y0 + 1,
{
    if y1 >= y0 {
        lemma_single_point_window_sum(s, width, height, c, kx, ky, x0, x1, y0, y1 - 1);
        lemma_single_point_row_sum(s, width, height, c, kx, ky, y1, x0, x1);
    }
}

/// One blur pass spreads a single non-zero point over the pixels within
/// `radius` of it in both directions: such a pixel gets the point's value
/// divided by the number of image pixels within `radius` of it (its window,
/// clipped at the image's edges); every other pixel stays zero.
pub proof fn lemma_blur_spreads_single_point(
    width: int,
    height: int,
    radius: int,
    s: Seq<u8>,
    c: int,
    kx: int,
    ky: int,
    x: int,
    y: int,
)
    requires
        0 <= radius,
        0 <= kx < width,
        0 <= ky < height,
        0 <= x < width,
        0 <= y < height,
        0 <= c < 4,
        width * height * 4 <= s.len(),
        is_single_point(width, height, s, c, kx, ky),
    ensures
        blurred(width, height, radius, 1, s)[channel_index(width, x, y, c)] as int == if x
            - radius <= kx <= x + radius && y - radius <= ky <= y + radius {
            s[channel_index(width, kx, ky, c)] as int / (((if x + radius > width - 1 {
                width - 1
            } else {
                x + radius
            }) - (if x - radius < 0 {
                0
            } else {
                x - radius
            }) + 1) * ((if y + radius > height - 1 {
                height - 1
            } else {
                y + radius
            }) - (if y - radius < 0 {
                0
            } else {
                y - radius
            }) + 1))
        } else {
            0
        },
{
    assert(blurred(width, height, radius, 0, s) == s);
    let x0 = window_start(x, radius);
    let x1 = window_end(x, radius, width);
    let y0 = window_start(y, radius);
    let y1 = window_end(y, radius, height);
    lemma_single_point_window_sum(s, width, height, c, kx, ky, x0, x1, y0, y1);
    lemma_channel_index_inverse(width, height, x, y, c);
    let v = s[channel_index(width, kx, ky, c)] as int;
    let count = (x1 - x0 + 1) * (y1 - y0 + 1);
    assert(count >= 1) by (nonlinear_arith)
        requires
            x0 <= x1,
            y0 <= y1,
            count == (x1 - x0 + 1) * (y1 - y0 + 1),
    ;
    assert(0 <= v / count <= v) by (nonlinear_arith)
        requires
            count >= 1,
            0 <= v,
    ;
    assert(0int / count == 0) by (nonlinear_arith)
        requires
            count >= 1,
    ;
}

} // verus!
