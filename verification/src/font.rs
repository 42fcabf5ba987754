//! Drawing a rasterised glyph: its coverage bitmap blended over a BGRA buffer in
//! the text colour, clipped to the buffer.
use vstd::prelude::*;
use crate::components::card::{blend_alpha, blend_channel, pixel_blended};
use crate::render::Color;

verus! {

/// The opacity a glyph pixel of coverage `alpha` is drawn with: the coverage
/// scaled by the colour's alpha.
pub open spec fn glyph_opacity(alpha: u8, c: Color) -> u8 {
    ((alpha as int * c.a as int) / 255) as u8
}

/// The bytes after drawing glyph pixel `(x, y)` of coverage `alpha`: nothing off
/// the `buf_w x buf_h` area or for no coverage.
pub open spec fn glyph_pixel(p: Seq<u8>, stride: int, buf_w: int, buf_h: int, x: int, y: int, alpha: u8, c: Color) -> Seq<u8> {
    if y < 0 || y >= buf_h || x < 0 || x >= buf_w || alpha == 0 {
        p
    } else {
        pixel_blended(p, y * stride + x * 4, glyph_opacity(alpha, c), c)
    }
}

/// The bytes after the first `k` pixels of glyph row `gy`.
pub open spec fn glyph_row(
    p: Seq<u8>,
    stride: int,
    buf_w: int,
    buf_h: int,
    gx0: int,
    gy0: int,
    gw: int,
    bitmap: Seq<u8>,
    gy: int,
    c: Color,
    k: nat,
) -> Seq<u8>
    decreases k,
{
    if k == 0 {
        p
    } else {
        let gx = k - 1;
        glyph_pixel(
            glyph_row(p, stride, buf_w, buf_h, gx0, gy0, gw, bitmap, gy, c, (k - 1) as nat),
            stride,
            buf_w,
            buf_h,
            gx0 + gx,
            gy0 + gy,
            bitmap[gy * gw + gx],
            c,
        )
    }
}

/// The bytes after the first `r` rows of a `gw`-wide glyph drawn from `(gx0, gy0)`.
pub open spec fn glyph_blended(
    p: Seq<u8>,
    stride: int,
    buf_w: int,
    buf_h: int,
    gx0: int,
    gy0: int,
    gw: int,
    bitmap: Seq<u8>,
    c: Color,
    r: nat,
) -> Seq<u8>
    decreases r,
{
    if r == 0 {
        p
    } else {
        glyph_row(
            glyph_blended(p, stride, buf_w, buf_h, gx0, gy0, gw, bitmap, c, (r - 1) as nat),
            stride,
            buf_w,
            buf_h,
            gx0,
            gy0,
            gw,
            bitmap,
            r - 1,
            c,
            gw as nat,
        )
    }
}

/// Some row of a glyph `gh` rows high drawn from row `gy0` lies on the buffer.
pub open spec fn some_row_visible(buf_h: int, gy0: int, gh: int) -> bool {
    gh > 0 && buf_h > 0 && gy0 < buf_h && gy0 + gh > 0
}

/// What `blend_glyph` needs: a bitmap of `gw x gh` coverages, glyph sizes within
/// `i32`, the row of its last line an `i32`, the column of its last pixel an `i32`
/// when a row of it lies on the buffer (only then are columns computed), and byte
/// offsets of visible pixels within `usize`.
pub open spec fn glyph_ok(stride: int, buf_w: int, buf_h: int, gx0: int, gy0: int, gw: int, gh: int, bitmap_len: int) -> bool {
    &&& gw * gh <= bitmap_len
    &&& gw <= i32::MAX
    &&& gh <= i32::MAX
    &&& (gw > 0 && some_row_visible(buf_h, gy0, gh) ==> gx0 + gw - 1 <= i32::MAX)
    &&& (gh > 0 ==> gy0 + gh - 1 <= i32::MAX)
    &&& buf_h > 0 ==> (buf_h - 1) * stride + buf_w * 4 <= usize::MAX
}

/// A glyph row off the buffer leaves it as it is.
proof fn lemma_row_off(
    p: Seq<u8>,
    stride: int,
    buf_w: int,
    buf_h: int,
    gx0: int,
    gy0: int,
    gw: int,
    bitmap: Seq<u8>,
    gy: int,
    c: Color,
    k: nat,
)
    requires
        gy0 + gy < 0 || gy0 + gy >= buf_h,
    ensures
        glyph_row(p, stride, buf_w, buf_h, gx0, gy0, gw, bitmap, gy, c, k) == p,
    decreases k,
{
    if k > 0 {
        lemma_row_off(p, stride, buf_w, buf_h, gx0, gy0, gw, bitmap, gy, c, (k - 1) as nat);
    }
}

/// Draws a glyph's coverage bitmap (`gw x gh`, row by row) with its top-left
/// corner at `(gx0, gy0)`, blended in `color`; see `glyph_blended`.
pub fn blend_glyph(
    buf: &mut [u8],
    buf_w: usize,
    buf_h: usize,
    stride: usize,
    gx0: i32,
    gy0: i32,
    gw: usize,
    gh: usize,
    bitmap: &[u8],
    color: Color,
)
    requires
        glyph_ok(stride as int, buf_w as int, buf_h as int, gx0 as int, gy0 as int, gw as int, gh as int, bitmap@.len() as int),
    ensures
        final(buf)@ == glyph_blended(
            old(buf)@,
            stride as int,
            buf_w as int,
            buf_h as int,
            gx0 as int,
            gy0 as int,
            gw as int,
            bitmap@,
            color,
            gh as nat,
        ),
{
    let ghost p0 = buf@;
    let blen = bitmap.len();
    let mut gy: usize = 0;
    while gy < gh
        invariant
            gy <= gh,
            blen == bitmap@.len(),
            glyph_ok(stride as int, buf_w as int, buf_h as int, gx0 as int, gy0 as int, gw as int, gh as int, bitmap@.len() as int),
            buf@ == glyph_blended(p0, stride as int, buf_w as int, buf_h as int, gx0 as int, gy0 as int, gw as int, bitmap@, color, gy as nat),
        decreases gh - gy,
    {
        let ghost start = buf@;
        let dst_y: i32 = gy0 + gy as i32;
        if !(dst_y >= 0 && (dst_y as usize) < buf_h) {
            proof {
                lemma_row_off(start, stride as int, buf_w as int, buf_h as int, gx0 as int, gy0 as int, gw as int, bitmap@, gy as int, color, gw as nat);
            }
            gy = gy + 1;
            continue;
        }
        let mut gx: usize = 0;
        while gx < gw
            invariant
                gx <= gw,
                gy < gh,
                blen == bitmap@.len(),
                dst_y == gy0 + gy,
                0 <= dst_y < buf_h,
                glyph_ok(stride as int, buf_w as int, buf_h as int, gx0 as int, gy0 as int, gw as int, gh as int, bitmap@.len() as int),
                buf@ == glyph_row(start, stride as int, buf_w as int, buf_h as int, gx0 as int, gy0 as int, gw as int, bitmap@, gy as int, color, gx as nat),
            decreases gw - gx,
        {
            let dst_x: i32 = gx0 + gx as i32;
            proof {
                assert(gy * gw + gx < gw * gh) by (nonlinear_arith)
                    requires gy < gh, gx < gw;
            }
            let alpha = bitmap[gy * gw + gx];
            if dst_y >= 0 && (dst_y as usize) < buf_h && dst_x >= 0 && (dst_x as usize) < buf_w && alpha != 0 {
                let yy = dst_y as usize;
                let xx = dst_x as usize;
                proof {
                    assert(yy * stride <= (buf_h - 1) * stride) by (nonlinear_arith)
                        requires yy <= buf_h - 1, 0 <= stride;
                }
                let off = yy * stride + xx * 4;
                assert((alpha as u32) * (color.a as u32) <= 255 * 255) by (nonlinear_arith)
                    requires alpha <= 255, color.a <= 255;
                let sa = ((alpha as u32) * (color.a as u32) / 255) as u8;
                if sa != 0 && off + 3 < buf.len() {
                    if sa == 255 {
                        buf[off] = color.b;
                        buf[off + 1] = color.g;
                        buf[off + 2] = color.r;
                        buf[off + 3] = color.a;
                    } else {
                        let b0 = blend_channel(sa, color.b, buf[off]);
                        let b1 = blend_channel(sa, color.g, buf[off + 1]);
                        let b2 = blend_channel(sa, color.r, buf[off + 2]);
                        let b3 = blend_alpha(sa, buf[off + 3]);
                        buf[off] = b0;
                        buf[off + 1] = b1;
                        buf[off + 2] = b2;
                        buf[off + 3] = b3;
                    }
                }
            }
            gx = gx + 1;
        }
        gy = gy + 1;
    }
}

} // verus!
