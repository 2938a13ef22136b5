//! Mirroring of an RGBA8 pixel buffer along its vertical and/or horizontal axis.

use vstd::prelude::*;

use crate::raster::{
    byte_offset, channel_index, lemma_channel_in_image, lemma_channel_index_inverse,
    lemma_earlier_pixel, lemma_index_decomposition, rgba_len,
};

verus! {

/// Returns the byte offset of pixel `(x, y)` in a row-major RGBA8 buffer.
pub fn offset(width: usize, x: usize, y: usize) -> (r: usize)
    requires
        byte_offset(width as int, x as int, y as int) <= usize::MAX,
    ensures
        r == byte_offset(width as int, x as int, y as int),
{
    (y * width + x) * 4
}

/// Which axes a mirror operation flips.
pub struct Params {
    /// Swap left and right (each row is reversed).
    pub horizontal: bool,
    /// Swap top and bottom (the order of the rows is reversed).
    pub vertical: bool,
}

impl Clone for Params {
    fn clone(&self) -> (r: Self)
        ensures
            r == *self,
    {
        Params { horizontal: self.horizontal, vertical: self.vertical }
    }
}

impl Copy for Params {}

impl Default for Params {
    /// Neither axis is flipped.
    fn default() -> (r: Self)
        ensures
            !r.horizontal,
            !r.vertical,
    {
        Params { horizontal: false, vertical: false }
    }
}

/// The coordinate that coordinate `coord` takes its value from along an axis of
/// length `extent`: reflected when the axis is flipped, itself otherwise.
pub open spec fn source_coord(extent: int, coord: int, flip: bool) -> int {
    if flip {
        extent - 1 - coord
    } else {
        coord
    }
}

/// The buffer `s`, seen as a `width` x `height` RGBA8 image, mirrored as
/// `params` asks. Bytes past the image are left as they are.
pub open spec fn mirrored(width: int, height: int, params: Params, s: Seq<u8>) -> Seq<u8> {
    Seq::new(
        s.len(),
        |i: int|
            if i < width * height * 4 {
                let p = i / 4;
                s[channel_index(
                    width,
                    source_coord(width, p % width, params.horizontal),
                    source_coord(height, p / width, params.vertical),
                    i % 4,
                )]
            } else {
                s[i]
            },
    )
}

/// Copies the four bytes of one pixel from `src[from..from + 4]` to `rgba[dst..dst + 4]`.
fn copy_pixel(rgba: &mut Vec<u8>, src: &Vec<u8>, dst: usize, from: usize)
    requires
        dst + 4 <= old(rgba).len(),
        from + 4 <= src.len(),
    ensures
        final(rgba)@.len() == old(rgba)@.len(),
        forall|i: int|
            0 <= i < old(rgba)@.len() ==> #[trigger] final(rgba)@[i] == if dst <= i < dst + 4 {
                src@[from + (i - dst)]
            } else {
                old(rgba)@[i]
            },
{
    rgba.set(dst, src[from]);
    rgba.set(dst + 1, src[from + 1]);
    rgba.set(dst + 2, src[from + 2]);
    rgba.set(dst + 3, src[from + 3]);
}

/// Mirrors the `width` x `height` RGBA8 image held in the first
/// `width * height * 4` bytes of `rgba`. Nothing changes when an extent is zero
/// or neither axis is flipped.
pub fn mirror(width: usize, height: usize, rgba: &mut Vec<u8>, params: Params)
    requires
        width == 0 || height == 0 || (!params.horizontal && !params.vertical) || width * height
            * 4 <= old(rgba).len(),
    ensures
        final(rgba)@ == mirrored(width as int, height as int, params, old(rgba)@),
{
    let ghost w = width as int;
    let ghost h = height as int;
    if width == 0 || height == 0 || (!params.horizontal && !params.vertical) {
        proof {
            assert forall|i: int| 0 <= i < rgba@.len() implies #[trigger] mirrored(
                w,
                h,
                params,
                rgba@,
            )[i] == rgba@[i] by {
                if i < w * h * 4 {
                    assert(w != 0);
                    lemma_index_decomposition(w, h, i);
                }
            }
            assert(mirrored(w, h, params, rgba@) =~= rgba@);
        }
        return ;
    }
    let src = rgba.clone();
    assert(src@ =~= rgba@);
    let n = src.len();
    let ghost len = n as int;
    let mut y: usize = 0;
    while y < height
        invariant
            w == width,
            h == height,
            0 < width,
            0 < height,
            w * h * 4 <= len <= usize::MAX,
            src@.len() == len,
            rgba@.len() == len,
            src@ == old(rgba)@,
            0 <= y <= height,
            forall|xx: int, yy: int, c: int|
                0 <= xx < w && 0 <= yy < h && yy < y && 0 <= c < 4 ==> rgba@[#[trigger] channel_index(
                    w,
                    xx,
                    yy,
                    c,
                )] == src@[channel_index(
                    w,
                    source_coord(w, xx, params.horizontal),
                    source_coord(h, yy, params.vertical),
                    c,
                )],
            forall|i: int| byte_offset(w, 0, y as int) <= i < len ==> rgba@[i] == src@[i],
        decreases height - y,
    {
        let mut x: usize = 0;
        while x < width
            invariant
                w == width,
                h == height,
                0 < width,
                0 < height,
                w * h * 4 <= len <= usize::MAX,
                src@.len() == len,
                rgba@.len() == len,
                src@ == old(rgba)@,
                0 <= y < height,
                0 <= x <= width,
                forall|xx: int, yy: int, c: int|
                    0 <= xx < w && 0 <= yy < h && (yy < y || (yy == y && xx < x)) && 0 <= c < 4
                        ==> rgba@[#[trigger] channel_index(w, xx, yy, c)] == src@[channel_index(
                        w,
                        source_coord(w, xx, params.horizontal),
                        source_coord(h, yy, params.vertical),
                        c,
                    )],
                forall|i: int| byte_offset(w, x as int, y as int) <= i < len ==> rgba@[i] == src@[i],
            decreases width - x,
        {
            let src_x = if params.horizontal {
                width - 1 - x
            } else {
                x
            };
            let src_y = if params.vertical {
                height - 1 - y
            } else {
                y
            };
            proof {
                lemma_channel_in_image(w, h, x as int, y as int, 0);
                lemma_channel_in_image(w, h, src_x as int, src_y as int, 0);
            }
            let dst_idx = offset(width, x, y);
            let src_idx = offset(width, src_x, src_y);
            let ghost before = rgba@;
            copy_pixel(rgba, &src, dst_idx, src_idx);
            proof {
                assert forall|xx: int, yy: int, c: int|
                    0 <= xx < w && 0 <= yy < h && (yy < y || (yy == y && xx < x + 1)) && 0 <= c
                        < 4 implies rgba@[#[trigger] channel_index(w, xx, yy, c)]
                    == src@[channel_index(
                    w,
                    source_coord(w, xx, params.horizontal),
                    source_coord(h, yy, params.vertical),
                    c,
                )] by {
                    if yy != y || xx != x {
                        lemma_earlier_pixel(w, xx, yy, x as int, y as int, c);
                    }
                }
            }
            x = x + 1;
        }
        proof {
            assert(byte_offset(w, w, y as int) == byte_offset(w, 0, y + 1)) by (nonlinear_arith);
        }
        y = y + 1;
    }
    proof {
        assert forall|i: int| 0 <= i < len implies #[trigger] mirrored(w, h, params, src@)[i]
            == rgba@[i] by {
            if i < w * h * 4 {
                lemma_index_decomposition(w, h, i);
            } else {
                assert(byte_offset(w, 0, h) == w * h * 4) by (nonlinear_arith);
            }
        }
        assert(mirrored(w, h, params, src@) =~= rgba@);
    }
}

/// Mirrors a `width` x `height` RGBA8 image in place as the plugin entry point
/// does: the image occupies the first `width * height * 4` bytes of `rgba`;
/// when that byte count overflows a `usize`, nothing is done. `params` is what
/// was parsed from the caller's parameter text, if anything was; without it
/// neither axis is flipped.
pub fn process_image(width: u32, height: u32, rgba: &mut Vec<u8>, params: Option<Params>)
    requires
        width * height * 4 <= usize::MAX ==> width * height * 4 <= old(rgba).len(),
    ensures
        final(rgba)@ == if width * height * 4 <= usize::MAX {
            mirrored(width as int, height as int, effective_params(params), old(rgba)@)
        } else {
            old(rgba)@
        },
        params matches Some(p) ==> width * height * 4 <= usize::MAX ==> final(rgba)@ == mirrored(
            width as int,
            height as int,
            p,
            old(rgba)@,
        ),
        params is None ==> final(rgba)@ == old(rgba)@,
{
    proof {
        lemma_mirror_without_flips_is_identity(width as int, height as int, rgba@);
    }
    if rgba_len(width, height).is_none() {
        return ;
    }
    let current_params = match params {
        Some(p) => p,
        None => Params::default(),
    };
    mirror(width as usize, height as usize, rgba, current_params);
}

/// The parameters a plugin call works with: those parsed, or the default ones.
pub open spec fn effective_params(params: Option<Params>) -> Params {
    match params {
        Some(p) => p,
        None => Params { horizontal: false, vertical: false },
    }
}

/// Inside an image that the buffer holds whole, each channel of the mirrored
/// buffer is the same channel of the source pixel.
pub proof fn lemma_mirrored_at(
    width: int,
    height: int,
    params: Params,
    s: Seq<u8>,
    x: int,
    y: int,
    c: int,
)
    requires
        0 <= x < width,
        0 <= y < height,
        0 <= c < 4,
        width * height * 4 <= s.len(),
    ensures
        mirrored(width, height, params, s)[channel_index(width, x, y, c)] == s[channel_index(
            width,
            source_coord(width, x, params.horizontal),
            source_coord(height, y, params.vertical),
            c,
        )],
{
    lemma_channel_index_inverse(width, height, x, y, c);
}

/// A plugin call with parsed flags mirrors with exactly those flags.
pub proof fn lemma_plugin_uses_parsed_flags(p: Params)
    ensures
        effective_params(Some(p)).horizontal == p.horizontal,
        effective_params(Some(p)).vertical == p.vertical,
{
}

/// Where each pixel of a mirrored image comes from: column `width - 1 - x`
/// instead of `x` when the horizontal flag is set, row `height - 1 - y` instead
/// of `y` when the vertical one is; every channel moves with its pixel.
pub proof fn lemma_mirror_moves_pixels(
    width: int,
    height: int,
    params: Params,
    s: Seq<u8>,
    x: int,
    y: int,
    c: int,
)
    requires
        0 <= x < width,
        0 <= y < height,
        0 <= c < 4,
        width * height * 4 <= s.len(),
    ensures
        mirrored(width, height, params, s).len() == s.len(),
        mirrored(width, height, params, s)[(y * width + x) * 4 + c] == s[((if params.vertical {
            height - 1 - y
        } else {
            y
        }) * width + (if params.horizontal {
            width - 1 - x
        } else {
            x
        })) * 4 + c],
{
    lemma_mirrored_at(width, height, params, s, x, y, c);
}

/// Mirroring an image with no axis flipped leaves it unchanged.
pub proof fn lemma_mirror_without_flips_is_identity(width: int, height: int, s: Seq<u8>)
    requires
        0 <= width,
        0 <= height,
    ensures
        mirrored(width, height, Params { horizontal: false, vertical: false }, s) == s,
{
    let p = Params { horizontal: false, vertical: false };
    assert forall|i: int| 0 <= i < s.len() implies #[trigger] mirrored(width, height, p, s)[i]
        == s[i] by {
        if i < width * height * 4 {
            if width == 0 {
                assert(width * height * 4 == 0);
            } else {
                lemma_index_decomposition(width, height, i);
            }
        }
    }
    assert(mirrored(width, height, p, s) =~= s);
}

/// A plugin call without parameters, or with parameters that flip no axis,
/// leaves the image as it is.
pub proof fn lemma_mirror_without_usable_params_keeps_image(
    width: int,
    height: int,
    params: Option<Params>,
    s: Seq<u8>,
)
    requires
        0 <= width,
        0 <= height,
        params matches Some(p) ==> !p.horizontal && !p.vertical,
    ensures
        mirrored(width, height, effective_params(params), s) == s,
{
    lemma_mirror_without_flips_is_identity(width, height, s);
}

/// Mirroring twice with the same parameters gives back the buffer it started from.
pub proof fn lemma_mirror_is_involution(width: int, height: int, params: Params, s: Seq<u8>)
    requires
        0 <= width,
        0 <= height,
        width * height * 4 <= s.len(),
    ensures
        mirrored(width, height, params, mirrored(width, height, params, s)) == s,
{
    let once = mirrored(width, height, params, s);
    assert forall|i: int| 0 <= i < s.len() implies #[trigger] mirrored(
        width,
        height,
        params,
        once,
    )[i] == s[i] by {
        if i < width * height * 4 {
            if width == 0 {
                assert(width * height * 4 == 0);
            } else {
                lemma_index_decomposition(width, height, i);
                let x = (i / 4) % width;
                let y = (i / 4) / width;
                let c = i % 4;
                let sx = source_coord(width, x, params.horizontal);
                let sy = source_coord(height, y, params.vertical);
                lemma_channel_index_inverse(width, height, sx, sy, c);
                let j = channel_index(width, sx, sy, c);
                assert(source_coord(width, sx, params.horizontal) == x);
                assert(source_coord(height, sy, params.vertical) == y);
                assert(once[j] == s[channel_index(width, x, y, c)]);
                assert(mirrored(width, height, params, once)[i] == once[j]);
            }
        }
    }
    assert(mirrored(width, height, params, once) =~= s);
}

/// Mirroring along one axis and then along the other is the same as mirroring
/// along both at once.
pub proof fn lemma_mirror_axes_compose(width: int, height: int, s: Seq<u8>)
    requires
        0 <= width,
        0 <= height,
        width * height * 4 <= s.len(),
    ensures
        mirrored(
            width,
            height,
            Params { horizontal: false, vertical: true },
            mirrored(width, height, Params { horizontal: true, vertical: false }, s),
        ) == mirrored(width, height, Params { horizontal: true, vertical: true }, s),
{
    let ph = Params { horizontal: true, vertical: false };
    let pv = Params { horizontal: false, vertical: true };
    let pb = Params { horizontal: true, vertical: true };
    let once = mirrored(width, height, ph, s);
    assert forall|i: int| 0 <= i < s.len() implies #[trigger] mirrored(width, height, pv, once)[i]
        == mirrored(width, height, pb, s)[i] by {
        if i < width * height * 4 {
            if width == 0 {
                assert(width * height * 4 == 0);
            } else {
                lemma_index_decomposition(width, height, i);
                let x = (i / 4) % width;
                let y = (i / 4) / width;
                let c = i % 4;
                let sy = height - 1 - y;
                lemma_channel_index_inverse(width, height, x, sy, c);
                let j = channel_index(width, x, sy, c);
                assert(mirrored(width, height, pv, once)[i] == once[j]);
                assert(once[j] == s[channel_index(width, width - 1 - x, sy, c)]);
            }
        }
    }
    assert(mirrored(width, height, pv, once) =~= mirrored(width, height, pb, s));
}

} // verus!
