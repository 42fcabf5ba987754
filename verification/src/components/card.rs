//! A card: a rounded rectangle with a background colour, placed in the area it is
//! given or at an absolute position.
use vstd::prelude::*;
use crate::render::{rect_clip, rect_end_wraps, Color};

verus! {

pub struct Card {
    pub width: i32,
    pub height: i32,
    pub bg: Color,
    pub radius: i32,
    pub absolute: bool,
    pub left: i32,
    pub top: i32,
}

/// Where a card draws itself within the area `(x, y, w, h)` it is given: at its
/// absolute position when it has one; otherwise at its own size, capped by the
/// area and centred in it; nothing when the area is empty.
pub open spec fn card_area(c: Card, x: int, y: int, w: int, h: int) -> Option<(int, int, int, int)> {
    if c.absolute {
        Some((c.left as int, c.top as int, c.width as int, c.height as int))
    } else if w <= 0 || h <= 0 {
        None
    } else {
        let dw = if w < c.width { w } else { c.width as int };
        let dh = if h < c.height { h } else { c.height as int };
        let cx = if w > dw { x + (w - dw) / 2 } else { x };
        let cy = if h > dh { y + (h - dh) / 2 } else { y };
        Some((cx, cy, dw, dh))
    }
}

/// The arithmetic of `card_area` stays within `i32`.
pub open spec fn card_area_ok(c: Card, x: int, y: int, w: int, h: int) -> bool {
    c.absolute || w <= 0 || h <= 0 || {
        let dw = if w < c.width { w } else { c.width as int };
        let dh = if h < c.height { h } else { c.height as int };
        &&& (w > dw ==> w - dw <= i32::MAX && i32::MIN <= x + (w - dw) / 2 <= i32::MAX)
        &&& (h > dh ==> h - dh <= i32::MAX && i32::MIN <= y + (h - dh) / 2 <= i32::MAX)
    }
}

/// One colour channel after drawing `src` with opacity `sa` (out of 255) over `dst`.
pub open spec fn blend_channel_spec(sa: int, src: int, dst: int) -> int {
    (sa * src + (255 - sa) * dst) / 255
}

/// The alpha channel after drawing with opacity `sa` over a pixel of alpha `dst_a`.
pub open spec fn blend_alpha_spec(sa: int, dst_a: int) -> int {
    let a = sa + ((255 - sa) * dst_a) / 255;
    if a < 255 {
        a
    } else {
        255
    }
}

impl Card {
    /// A card of the given size and colour, corner radius 20, laid out in flow.
    pub fn new(w: i32, h: i32, color: Color) -> (c: Self)
        ensures
            c == (Card { width: w, height: h, bg: color, radius: 20, absolute: false, left: 0, top: 0 }),
    {
        Card { width: w, height: h, bg: color, radius: 20, absolute: false, left: 0, top: 0 }
    }

    pub fn set_size(self, w: i32, h: i32) -> (c: Self)
        ensures
            c == (Card { width: w, height: h, ..self }),
    {
        Card { width: w, height: h, ..self }
    }

    pub fn set_bg(self, c: Color) -> (r: Self)
        ensures
            r == (Card { bg: c, ..self }),
    {
        Card { bg: c, ..self }
    }

    pub fn set_radius(self, r: i32) -> (c: Self)
        ensures
            c == (Card { radius: r, ..self }),
    {
        Card { radius: r, ..self }
    }

    /// Places the card at `(left, top)`, outside the layout flow.
    pub fn set_position_absolute(self, left: i32, top: i32) -> (c: Self)
        ensures
            c == (Card { absolute: true, left, top, ..self }),
    {
        Card { absolute: true, left, top, ..self }
    }

    /// Puts the card back into the layout flow.
    pub fn unset_absolute(self) -> (c: Self)
        ensures
            c == (Card { absolute: false, ..self }),
    {
        Card { absolute: false, ..self }
    }

    /// The rectangle `(x, y, w, h)` the card draws within the area it is given.
    pub fn draw_area(&self, x: i32, y: i32, w: i32, h: i32) -> (r: Option<(i32, i32, i32, i32)>)
        requires
            card_area_ok(*self, x as int, y as int, w as int, h as int),
        ensures
            r matches Some(a) ==> card_area(*self, x as int, y as int, w as int, h as int) == Some(
                (a.0 as int, a.1 as int, a.2 as int, a.3 as int),
            ),
            r is None ==> card_area(*self, x as int, y as int, w as int, h as int) is None,
    {
        if self.absolute {
            return Some((self.left, self.top, self.width, self.height));
        }
        if w <= 0 || h <= 0 {
            return None;
        }
        let dw = if w < self.width { w } else { self.width };
        let dh = if h < self.height { h } else { self.height };
        let cx = if w > dw { x + (w - dw) / 2 } else { x };
        let cy = if h > dh { y + (h - dh) / 2 } else { y };
        Some((cx, cy, dw, dh))
    }

    /// `draw_area`, or an error where its arithmetic would leave `i32`.
    pub fn try_draw_area(&self, x: i32, y: i32, w: i32, h: i32) -> (r: Result<Option<(i32, i32, i32, i32)>, &'static str>)
        ensures
            r is Err <==> !card_area_ok(*self, x as int, y as int, w as int, h as int),
            r matches Err(e) ==> e@ == "attempt to add with overflow"@,
            r matches Ok(Some(a)) ==> card_area(*self, x as int, y as int, w as int, h as int) == Some(
                (a.0 as int, a.1 as int, a.2 as int, a.3 as int),
            ),
            r matches Ok(None) ==> card_area(*self, x as int, y as int, w as int, h as int) is None,
    {
        if !self.absolute && w > 0 && h > 0 {
            let dw: i64 = if w < self.width { w as i64 } else { self.width as i64 };
            let dh: i64 = if h < self.height { h as i64 } else { self.height as i64 };
            let max: i64 = i32::MAX as i64;
            let min: i64 = i32::MIN as i64;
            if (w as i64) > dw {
                let d = w as i64 - dw;
                if d > max || x as i64 + d / 2 > max || x as i64 + d / 2 < min {
                    return Err("attempt to add with overflow");
                }
            }
            if (h as i64) > dh {
                let d = h as i64 - dh;
                if d > max || y as i64 + d / 2 > max || y as i64 + d / 2 < min {
                    return Err("attempt to add with overflow");
                }
            }
        }
        Ok(self.draw_area(x, y, w, h))
    }
}

/// A colour channel after source-over blending with opacity `sa`.
pub fn blend_channel(sa: u8, src: u8, dst: u8) -> (r: u8)
    ensures
        r as int == blend_channel_spec(sa as int, src as int, dst as int),
{
    let s = sa as u32;
    let inv = 255 - s;
    assert(s * (src as u32) <= 255 * 255) by (nonlinear_arith)
        requires s <= 255, src <= 255;
    assert(inv * (dst as u32) <= 255 * 255) by (nonlinear_arith)
        requires inv <= 255, dst <= 255;
    assert((s * (src as u32) + inv * (dst as u32)) / 255 <= 255) by (nonlinear_arith)
        requires s + inv == 255, src <= 255, dst <= 255, s <= 255;
    ((s * (src as u32) + inv * (dst as u32)) / 255) as u8
}

/// The alpha channel after source-over blending with opacity `sa`.
pub fn blend_alpha(sa: u8, dst_a: u8) -> (r: u8)
    ensures
        r as int == blend_alpha_spec(sa as int, dst_a as int),
{
    let s = sa as u32;
    let inv = 255 - s;
    assert(inv * (dst_a as u32) <= 255 * 255) by (nonlinear_arith)
        requires inv <= 255, dst_a <= 255;
    let a = s + (inv * (dst_a as u32)) / 255;
    if a < 255 {
        a as u8
    } else {
        255
    }
}

/// The bytes after drawing one pixel at byte offset `off` with opacity `sa` (out
/// of 255): nothing for a transparent pixel or one past the buffer; the colour's
/// bytes for an opaque one; else each channel blended over what is there.
pub open spec fn pixel_blended(p: Seq<u8>, off: int, sa: u8, c: Color) -> Seq<u8> {
    if sa == 0 || off + 3 >= p.len() {
        p
    } else if sa == 255 {
        p.update(off, c.b).update(off + 1, c.g).update(off + 2, c.r).update(off + 3, c.a)
    } else {
        p.update(off, blend_channel_spec(sa as int, c.b as int, p[off] as int) as u8).update(
            off + 1,
            blend_channel_spec(sa as int, c.g as int, p[off + 1] as int) as u8,
        ).update(off + 2, blend_channel_spec(sa as int, c.r as int, p[off + 2] as int) as u8).update(
            off + 3,
            blend_alpha_spec(sa as int, p[off + 3] as int) as u8,
        )
    }
}

/// The bytes after drawing the first `k` pixels of row `yy` from column `x0`, with
/// the opacities `row`.
pub open spec fn row_blended(p: Seq<u8>, stride: int, yy: int, x0: int, row: Seq<u8>, c: Color, k: nat) -> Seq<u8>
    decreases k,
{
    if k == 0 {
        p
    } else {
        pixel_blended(
            row_blended(p, stride, yy, x0, row, c, (k - 1) as nat),
            yy * stride + (x0 + k - 1) * 4,
            row[k - 1],
            c,
        )
    }
}

/// The bytes after drawing the first `r` rows of the box `[x0, x1) x [y0, _)`,
/// row by row, with the opacities `alphas` (one list per row).
pub open spec fn area_blended(p: Seq<u8>, stride: int, x0: int, x1: int, y0: int, alphas: Seq<Seq<u8>>, c: Color, r: nat) -> Seq<u8>
    decreases r,
{
    if r == 0 {
        p
    } else {
        row_blended(
            area_blended(p, stride, x0, x1, y0, alphas, c, (r - 1) as nat),
            stride,
            y0 + r - 1,
            x0,
            alphas[r - 1],
            c,
            (x1 - x0) as nat,
        )
    }
}

/// The bytes after drawing the rectangle `(x, y, w, h)` clipped to the buffer,
/// each pixel with its opacity from `alphas`.
pub open spec fn coverage_blended(
    p: Seq<u8>,
    buf_w: int,
    buf_h: int,
    stride: int,
    x: int,
    y: int,
    w: int,
    h: int,
    c: Color,
    alphas: Seq<Seq<u8>>,
) -> Seq<u8> {
    match rect_clip(x, y, w, h, buf_w, buf_h) {
        Some((x0, x1, y0, y1)) => area_blended(p, stride, x0, x1, y0, alphas, c, (y1 - y0) as nat),
        None => p,
    }
}

/// What `blend_coverage` needs: no `i32` overflow, a clipped box whose right and
/// bottom edges are not negative, byte offsets that fit in `usize`, and one opacity
/// for each pixel of the clipped box.
pub open spec fn blend_ok(buf_w: int, buf_h: int, stride: int, x: int, y: int, w: int, h: int, alphas: Seq<Seq<u8>>) -> bool {
    &&& buf_w <= i32::MAX
    &&& buf_h <= i32::MAX
    &&& (w > 0 && h > 0 ==> x + w <= i32::MAX && y + h <= i32::MAX)
    &&& !rect_end_wraps(x, y, w, h, buf_w, buf_h)
    &&& match rect_clip(x, y, w, h, buf_w, buf_h) {
        Some((x0, x1, y0, y1)) => {
            &&& (y1 - 1) * stride + (x1 - 1) * 4 + 3 <= usize::MAX
            &&& alphas.len() == y1 - y0
            &&& forall|r: int| 0 <= r < alphas.len() ==> (#[trigger] alphas[r]).len() == x1 - x0
        },
        None => true,
    }
}

proof fn lemma_offset_bound(yy: int, y1: int, xx: int, x1: int, stride: int)
    requires
        0 <= yy < y1,
        0 <= xx < x1,
        0 <= stride,
    ensures
        0 <= yy * stride,
        yy * stride + xx * 4 + 3 <= (y1 - 1) * stride + (x1 - 1) * 4 + 3,
{
    assert(0 <= yy * stride) by (nonlinear_arith)
        requires 0 <= yy, 0 <= stride;
    assert(yy * stride <= (y1 - 1) * stride) by (nonlinear_arith)
        requires 0 <= yy <= y1 - 1, 0 <= stride;
}

impl Card {
    /// Draws the rectangle `(x, y, w, h)`, clipped to the buffer, into a BGRA
    /// buffer, pixel by pixel with the opacity `alphas` gives it (row by row over
    /// the clipped box): a pixel of opacity 0 is left alone, one of 255 takes the
    /// colour, any other is blended source-over.
    pub fn blend_coverage(
        &self,
        buf: &mut [u8],
        buf_w: usize,
        buf_h: usize,
        stride: usize,
        x: i32,
        y: i32,
        w: i32,
        h: i32,
        color: Color,
        alphas: &Vec<Vec<u8>>,
    )
        requires
            blend_ok(buf_w as int, buf_h as int, stride as int, x as int, y as int, w as int, h as int, alphas@.map_values(|r: Vec<u8>| r@)),
        ensures
            final(buf)@ == coverage_blended(
                old(buf)@,
                buf_w as int,
                buf_h as int,
                stride as int,
                x as int,
                y as int,
                w as int,
                h as int,
                color,
                alphas@.map_values(|r: Vec<u8>| r@),
            ),
    {
        let ghost al = alphas@.map_values(|r: Vec<u8>| r@);
        if w <= 0 || h <= 0 {
            return;
        }
        let x0: usize = if x > 0 { x as usize } else { 0 };
        let y0: usize = if y > 0 { y as usize } else { 0 };
        let xe: i32 = x + w;
        let ye: i32 = y + h;
        let wi: i32 = buf_w as i32;
        let hi: i32 = buf_h as i32;
        let x1i: i32 = if xe < wi { xe } else { wi };
        let y1i: i32 = if ye < hi { ye } else { hi };
        if x1i <= 0 || y1i <= 0 {
            return;
        }
        let x1: usize = x1i as usize;
        let y1: usize = y1i as usize;
        if x0 >= x1 || y0 >= y1 {
            return;
        }
        let ghost p0 = buf@;
        let mut yy = y0;
        while yy < y1
            invariant
                y0 <= yy <= y1,
                x0 < x1,
                al == alphas@.map_values(|r: Vec<u8>| r@),
                rect_clip(x as int, y as int, w as int, h as int, buf_w as int, buf_h as int) == Some(
                    (x0 as int, x1 as int, y0 as int, y1 as int),
                ),
                blend_ok(buf_w as int, buf_h as int, stride as int, x as int, y as int, w as int, h as int, al),
                buf@ == area_blended(p0, stride as int, x0 as int, x1 as int, y0 as int, al, color, (yy - y0) as nat),
            decreases y1 - yy,
        {
            let r = yy - y0;
            let row = &alphas[r];
            assert(al[r as int] == row@);
            let ghost start = buf@;
            let mut xx = x0;
            while xx < x1
                invariant
                    x0 <= xx <= x1,
                    y0 <= yy < y1,
                    r == yy - y0,
                    row@.len() == x1 - x0,
                    blend_ok(buf_w as int, buf_h as int, stride as int, x as int, y as int, w as int, h as int, al),
                    rect_clip(x as int, y as int, w as int, h as int, buf_w as int, buf_h as int) == Some(
                        (x0 as int, x1 as int, y0 as int, y1 as int),
                    ),
                    buf@ == row_blended(start, stride as int, yy as int, x0 as int, row@, color, (xx - x0) as nat),
                decreases x1 - xx,
            {
                proof {
                    lemma_offset_bound(yy as int, y1 as int, xx as int, x1 as int, stride as int);
                }
                let off = yy * stride + xx * 4;
                let sa = row[xx - x0];
                if sa != 0 && off + 3 < buf.len() {
                    if sa == 255 {
                        buf[off] = color.b;
                        buf[off + 1] = color.g;
                        buf[off + 2] = color.r;
                        buf[off + 3] = color.a;
                    } else {
                        let b0 = blend_channel(sa, color.b, buf[off]);
                        let b1 = blend_channel(sa, color.g, buf[off + 1]);
                        let b2 = blend_channel(sa, color.r, buf[off + 2]);
                        let b3 = blend_alpha(sa, buf[off + 3]);
                        buf[off] = b0;
                        buf[off + 1] = b1;
                        buf[off + 2] = b2;
                        buf[off + 3] = b3;
                    }
                }
                xx = xx + 1;
            }
            yy = yy + 1;
        }
    }
}

} // verus!
