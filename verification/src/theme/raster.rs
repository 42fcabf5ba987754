//! Drawing primitives on a 32-bit raster stored row by row, `stride` pixels per
//! row; a pixel off the raster is never written.
use vstd::prelude::*;
use vstd::arithmetic::div_mod::{
    lemma_fundamental_div_mod, lemma_fundamental_div_mod_converse, lemma_mod_bound,
    lemma_div_pos_is_pos,
};
use vstd::arithmetic::mul::lemma_mul_inequality;
use vstd::string::StringSliceAdditionalSpecFns;

verus! {

/// The pixels after painting with `c` every pixel `(cx, cy)` of the raster for
/// which `cover(cx, cy)` holds. Rows are `stride` pixels long; a trailing partial
/// row is not part of the raster.
pub open spec fn painted(old: Seq<u32>, stride: int, c: u32, cover: spec_fn(int, int) -> bool) -> Seq<u32> {
    Seq::new(
        old.len(),
        |i: int|
            if stride > 0 && i / stride < (old.len() as int) / stride && cover(i % stride, i / stride) {
                c
            } else {
                old[i]
            },
    )
}

pub proof fn lemma_coords(i: int, stride: int)
    requires
        stride > 0,
        0 <= i,
    ensures
        i == (i / stride) * stride + i % stride,
        0 <= i % stride < stride,
        0 <= i / stride,
{
    lemma_fundamental_div_mod(i, stride);
    lemma_mod_bound(i, stride);
    lemma_div_pos_is_pos(i, stride);
    assert(stride * (i / stride) == (i / stride) * stride) by (nonlinear_arith);
}

pub proof fn lemma_index(len: int, stride: int, x: int, y: int)
    requires
        stride > 0,
        0 <= x < stride,
        0 <= y < len / stride,
        0 <= len,
    ensures
        (y * stride + x) % stride == x,
        (y * stride + x) / stride == y,
        0 <= y * stride + x < len,
{
    lemma_fundamental_div_mod_converse(y * stride + x, stride, y, x);
    lemma_mul_inequality(y + 1, len / stride, stride);
    assert((y + 1) * stride == y * stride + stride) by (nonlinear_arith);
    lemma_coords(len, stride);
    assert(0 <= y * stride) by (nonlinear_arith)
        requires 0 <= y, 0 < stride;
}

/// Painting twice with one colour paints the union.
pub proof fn lemma_painted_twice(old: Seq<u32>, stride: int, c: u32, p: spec_fn(int, int) -> bool, q: spec_fn(int, int) -> bool)
    ensures
        painted(painted(old, stride, c, p), stride, c, q) == painted(old, stride, c, |cx: int, cy: int| p(cx, cy) || q(cx, cy)),
{
    assert(painted(painted(old, stride, c, p), stride, c, q) =~= painted(old, stride, c, |cx: int, cy: int| p(cx, cy) || q(cx, cy)));
}

/// Painting depends only on which pixels of the raster are covered.
pub proof fn lemma_painted_same(old: Seq<u32>, stride: int, c: u32, p: spec_fn(int, int) -> bool, q: spec_fn(int, int) -> bool)
    requires
        forall|cx: int, cy: int| 0 <= cx < stride && 0 <= cy < (old.len() as int) / stride ==> #[trigger] p(cx, cy) == q(cx, cy),
    ensures
        painted(old, stride, c, p) == painted(old, stride, c, q),
{
    assert forall|i: int| 0 <= i < old.len() implies #[trigger] painted(old, stride, c, p)[i] == painted(old, stride, c, q)[i] by {
        if stride > 0 {
            lemma_coords(i, stride);
        }
    }
    assert(painted(old, stride, c, p) =~= painted(old, stride, c, q));
}

/// The single pixel `(x, y)`.
pub open spec fn at_point(x: int, y: int) -> spec_fn(int, int) -> bool {
    |cx: int, cy: int| cx == x && cy == y
}

/// The rectangle `(x, y, w, h)`.
pub open spec fn in_box(x: int, y: int, w: int, h: int) -> spec_fn(int, int) -> bool {
    |cx: int, cy: int| x <= cx < x + w && y <= cy < y + h
}

/// Writes one pixel; a pixel off the raster is ignored.
pub fn put(px: &mut [u32], stride: usize, x: i32, y: i32, color: u32)
    requires
        x >= 0 && y >= 0 ==> stride > 0,
    ensures
        final(px)@ == painted(old(px)@, stride as int, color, at_point(x as int, y as int)),
{
    let ghost old_px = px@;
    if x < 0 || y < 0 {
        assert(px@ =~= painted(old_px, stride as int, color, at_point(x as int, y as int)));
        return;
    }
    let xu = x as usize;
    let yu = y as usize;
    let h = px.len() / stride;
    if xu >= stride || yu >= h {
        proof {
            assert forall|i: int| 0 <= i < old_px.len() implies #[trigger] painted(old_px, stride as int, color, at_point(x as int, y as int))[i] == old_px[i] by {
                lemma_coords(i, stride as int);
            }
        }
        assert(px@ =~= painted(old_px, stride as int, color, at_point(x as int, y as int)));
        return;
    }
    proof {
        lemma_index(old_px.len() as int, stride as int, x as int, y as int);
    }
    let idx = yu * stride + xu;
    px[idx] = color;
    proof {
        assert forall|i: int| 0 <= i < old_px.len() implies #[trigger] px@[i] == painted(old_px, stride as int, color, at_point(x as int, y as int))[i] by {
            lemma_coords(i, stride as int);
            if i % (stride as int) == x && i / (stride as int) == y {
                assert(i == idx);
            }
        }
    }
    assert(px@ =~= painted(old_px, stride as int, color, at_point(x as int, y as int)));
}

/// What `fill_rect` needs: a non-zero stride when it draws, and no `i32` overflow.
pub open spec fn fill_rect_ok(stride: int, x: int, y: int, w: int, h: int) -> bool {
    w > 0 && h > 0 ==> stride > 0 && w <= i32::MAX && h <= i32::MAX && x + w <= i32::MAX && y + h
        <= i32::MAX
}

/// Fills the part of the rectangle `(x, y, w, h)` that lies on the raster.
pub fn fill_rect(px: &mut [u32], stride: usize, x: i32, y: i32, w: usize, h: usize, color: u32)
    requires
        fill_rect_ok(stride as int, x as int, y as int, w as int, h as int),
    ensures
        final(px)@ == painted(old(px)@, stride as int, color, in_box(x as int, y as int, w as int, h as int)),
{
    let ghost old_px = px@;
    let ghost S = stride as int;
    if w == 0 || h == 0 {
        assert(px@ =~= painted(old_px, S, color, in_box(x as int, y as int, w as int, h as int)));
        return;
    }
    let n = px.len();
    let height = n / stride;
    let x0: usize = if x > 0 { x as usize } else { 0 };
    let y0: usize = if y > 0 { y as usize } else { 0 };
    let xe: i32 = x + w as i32;
    let ye: i32 = y + h as i32;
    let x1a: usize = if xe > 0 { xe as usize } else { 0 };
    let y1a: usize = if ye > 0 { ye as usize } else { 0 };
    let x1: usize = if x1a < stride { x1a } else { stride };
    let y1: usize = if y1a < height { y1a } else { height };
    let mut yy = y0;
    while yy < y1
        invariant
            n == old_px.len(),
            px@.len() == n,
            S == stride,
            S > 0,
            height == (n as int) / S,
            x1 <= S,
            y1 <= height,
            y0 <= yy,
            y0 < y1 ==> yy <= y1,
            y0 >= y1 ==> yy == y0,
            px@ == painted(old_px, S, color, |cx: int, cy: int| y0 <= cy < yy && x0 <= cx < x1),
        decreases y1 - yy,
    {
        let ghost row_start = px@;
        let mut xx = x0;
        while xx < x1
            invariant
                n == old_px.len(),
                px@.len() == n,
                S == stride,
                S > 0,
                height == (n as int) / S,
                x1 <= S,
                y0 <= yy < y1,
                y1 <= height,
                x0 <= xx,
                x0 < x1 ==> xx <= x1,
                x0 >= x1 ==> xx == x0,
                px@ == painted(old_px, S, color, |cx: int, cy: int| (y0 <= cy < yy && x0 <= cx < x1) || (cy == yy && x0 <= cx < xx)),
            decreases x1 - xx,
        {
            proof {
                lemma_index(n as int, S, xx as int, yy as int);
            }
            let ghost before = px@;
            px[yy * stride + xx] = color;
            proof {
                let idx = yy * S + xx;
                assert forall|i: int| 0 <= i < n implies #[trigger] px@[i] == painted(old_px, S, color, |cx: int, cy: int| (y0 <= cy < yy && x0 <= cx < x1) || (cy == yy && x0 <= cx < xx + 1))[i] by {
                    lemma_coords(i, S);
                    if i % S == xx && i / S == yy {
                        assert(i == idx);
                    }
                }
            }
            xx = xx + 1;
            assert(px@ =~= painted(old_px, S, color, |cx: int, cy: int| (y0 <= cy < yy && x0 <= cx < x1) || (cy == yy && x0 <= cx < xx)));
        }
        proof {
            let p = |cx: int, cy: int| (y0 <= cy < yy && x0 <= cx < x1) || (cy == yy && x0 <= cx < xx);
            let q = |cx: int, cy: int| y0 <= cy < yy + 1 && x0 <= cx < x1;
            assert forall|cx: int, cy: int| 0 <= cx < S && 0 <= cy < (old_px.len() as int) / S implies #[trigger] p(cx, cy) == q(cx, cy) by {}
            lemma_painted_same(old_px, S, color,
                |cx: int, cy: int| (y0 <= cy < yy && x0 <= cx < x1) || (cy == yy && x0 <= cx < xx),
                |cx: int, cy: int| y0 <= cy < yy + 1 && x0 <= cx < x1);
        }
        yy = yy + 1;
    }
    proof {
        let p = |cx: int, cy: int| y0 <= cy < yy && x0 <= cx < x1;
        let q = in_box(x as int, y as int, w as int, h as int);
        assert forall|cx: int, cy: int| 0 <= cx < S && 0 <= cy < (old_px.len() as int) / S implies #[trigger] p(cx, cy) == q(cx, cy) by {}
        lemma_painted_same(old_px, S, color,
            |cx: int, cy: int| y0 <= cy < yy && x0 <= cx < x1,
            in_box(x as int, y as int, w as int, h as int));
    }
}

} // verus!

verus! {

/// The one-pixel outline of the rectangle `(x, y, w, h)`.
pub open spec fn on_frame(x: int, y: int, w: int, h: int) -> spec_fn(int, int) -> bool {
    |cx: int, cy: int|
        in_box(x, y, w, h)(cx, cy) && (cy == y || cy == y + h - 1 || cx == x || cx == x + w - 1)
}

pub open spec fn stroke_rect_ok(stride: int, x: int, y: int, w: int, h: int) -> bool {
    w >= 2 && h >= 2 ==> stride > 0 && w <= i32::MAX && h <= i32::MAX && x + w <= i32::MAX && y
        + h <= i32::MAX
}

/// Draws the one-pixel outline of a rectangle at least 2x2; smaller ones draw nothing.
pub fn stroke_rect(px: &mut [u32], stride: usize, x: i32, y: i32, w: usize, h: usize, color: u32)
    requires
        stroke_rect_ok(stride as int, x as int, y as int, w as int, h as int),
    ensures
        final(px)@ == if w >= 2 && h >= 2 {
            painted(old(px)@, stride as int, color, on_frame(x as int, y as int, w as int, h as int))
        } else {
            old(px)@
        },
{
    if w < 2 || h < 2 {
        return;
    }
    let ghost old_px = px@;
    let ghost S = stride as int;
    let bottom = y + h as i32 - 1;
    let right = x + w as i32 - 1;
    fill_rect(px, stride, x, y, w, 1, color);
    fill_rect(px, stride, x, bottom, w, 1, color);
    fill_rect(px, stride, x, y, 1, h, color);
    fill_rect(px, stride, right, y, 1, h, color);
    proof {
        let a = in_box(x as int, y as int, w as int, 1);
        let b = in_box(x as int, bottom as int, w as int, 1);
        let c = in_box(x as int, y as int, 1, h as int);
        let d = in_box(right as int, y as int, 1, h as int);
        lemma_painted_twice(old_px, S, color, a, b);
        let ab = |cx: int, cy: int| a(cx, cy) || b(cx, cy);
        lemma_painted_twice(old_px, S, color, ab, c);
        let abc = |cx: int, cy: int| ab(cx, cy) || c(cx, cy);
        lemma_painted_twice(old_px, S, color, abc, d);
        let abcd = |cx: int, cy: int| abc(cx, cy) || d(cx, cy);
        let f = on_frame(x as int, y as int, w as int, h as int);
        assert forall|cx: int, cy: int| 0 <= cx < S && 0 <= cy < (old_px.len() as int) / S implies #[trigger] abcd(cx, cy) == f(cx, cy) by {}
        lemma_painted_same(old_px, S, color, abcd, f);
    }
}

/// Whether `(xx, yy)` lies inside a `w x h` rectangle with corners rounded to
/// radius `r`: inside the rectangle, and either in the cross that the corners leave
/// or within `r` of the centre of its corner's circle.
pub open spec fn inside_rounded(xx: int, yy: int, w: int, h: int, r: int) -> bool {
    if xx < 0 || yy < 0 || xx >= w || yy >= h {
        false
    } else if r <= 0 {
        true
    } else if xx >= r && xx < w - r {
        true
    } else if yy >= r && yy < h - r {
        true
    } else {
        let cx = if xx < r { r - 1 } else { w - r };
        let cy = if yy < r { r - 1 } else { h - r };
        (xx - cx) * (xx - cx) + (yy - cy) * (yy - cy) <= r * r
    }
}

/// The radius fits the rectangle and its square fits in `i32`.
pub open spec fn rounded_ok(w: int, h: int, r: int) -> bool {
    r <= 0 || (r <= 32768 && 2 * r <= w && 2 * r <= h)
}

pub fn inside_rounded_rect(xx: i32, yy: i32, w: i32, h: i32, r: i32) -> (b: bool)
    requires
        rounded_ok(w as int, h as int, r as int),
    ensures
        b == inside_rounded(xx as int, yy as int, w as int, h as int, r as int),
{
    if xx < 0 || yy < 0 || xx >= w || yy >= h {
        return false;
    }
    if r <= 0 {
        return true;
    }
    if xx >= r && xx < w - r {
        return true;
    }
    if yy >= r && yy < h - r {
        return true;
    }
    let cx = if xx < r { r - 1 } else { w - r };
    let cy = if yy < r { r - 1 } else { h - r };
    let dx = xx - cx;
    let dy = yy - cy;
    assert(-r < dx < r && -r < dy < r);
    assert(0 <= dx * dx && 0 <= dy * dy && dx * dx <= 32767 * 32767 && dy * dy <= 32767 * 32767 && r * r <= 32768 * 32768) by (nonlinear_arith)
        requires -r < dx < r, -r < dy < r, 0 < r <= 32768;
    dx * dx + dy * dy <= r * r
}

/// The rounded rectangle at `(x, y)`.
pub open spec fn in_rounded(x: int, y: int, w: int, h: int, r: int) -> spec_fn(int, int) -> bool {
    |cx: int, cy: int| inside_rounded(cx - x, cy - y, w, h, r)
}

/// The one-pixel outline of the rounded rectangle at `(x, y)`: inside it, but not
/// inside the rounded rectangle inset by one pixel.
pub open spec fn on_rounded_outline(x: int, y: int, w: int, h: int, r: int) -> spec_fn(int, int) -> bool {
    |cx: int, cy: int|
        inside_rounded(cx - x, cy - y, w, h, r) && !inside_rounded(
            cx - x - 1,
            cy - y - 1,
            w - 2,
            h - 2,
            if r - 1 > 0 { r - 1 } else { 0 },
        )
}

/// The radius actually used: `radius`, capped by half the width and half the height.
pub open spec fn capped_radius(w: int, h: int, radius: int) -> int {
    let a = if radius < w / 2 { radius } else { w / 2 };
    if a < h / 2 { a } else { h / 2 }
}

/// What `fill_rounded_rect` needs: a non-zero stride when it draws, sizes that are
/// `i32`, its last pixel's coordinates `i32`, and a radius whose square fits.
pub open spec fn rounded_rect_ok(stride: int, x: int, y: int, w: int, h: int, radius: int) -> bool {
    w > 0 && h > 0 ==> stride > 0 && w <= i32::MAX && h <= i32::MAX && x + w - 1 <= i32::MAX && y + h - 1
        <= i32::MAX && capped_radius(w, h, radius) <= 32768
}

/// Fills a rounded rectangle.
pub fn fill_rounded_rect(
    px: &mut [u32],
    stride: usize,
    x: i32,
    y: i32,
    w: usize,
    h: usize,
    radius: usize,
    color: u32,
)
    requires
        rounded_rect_ok(stride as int, x as int, y as int, w as int, h as int, radius as int),
    ensures
        final(px)@ == if w == 0 || h == 0 {
            old(px)@
        } else {
            painted(
                old(px)@,
                stride as int,
                color,
                in_rounded(x as int, y as int, w as int, h as int, capped_radius(w as int, h as int, radius as int)),
            )
        },
{
    if w == 0 || h == 0 {
        return;
    }
    let ghost old_px = px@;
    let ghost S = stride as int;
    let r1 = if radius < w / 2 { radius } else { w / 2 };
    let r = if r1 < h / 2 { r1 } else { h / 2 };
    let wi = w as i32;
    let hi = h as i32;
    let ri = r as i32;
    let ghost R = ri as int;
    let mut yy: i32 = 0;
    while yy < hi
        invariant
            0 <= yy <= hi,
            wi == w,
            hi == h,
            R == capped_radius(w as int, h as int, radius as int),
            ri == R,
            rounded_ok(wi as int, hi as int, R),
            S == stride,
            S > 0,
            x + w - 1 <= i32::MAX,
            y + h - 1 <= i32::MAX,
            px@ == painted(old_px, S, color, |cx: int, cy: int| cy - y < yy && inside_rounded(cx - x, cy - y, w as int, h as int, R)),
        decreases hi - yy,
    {
        let mut xx: i32 = 0;
        while xx < wi
            invariant
                0 <= xx <= wi,
                0 <= yy < hi,
                wi == w,
                hi == h,
                ri == R,
                rounded_ok(wi as int, hi as int, R),
                S == stride,
                S > 0,
                x + w - 1 <= i32::MAX,
                y + h - 1 <= i32::MAX,
                px@ == painted(old_px, S, color, |cx: int, cy: int| (cy - y < yy || (cy - y == yy && cx - x < xx)) && inside_rounded(cx - x, cy - y, w as int, h as int, R)),
            decreases wi - xx,
        {
            if inside_rounded_rect(xx, yy, wi, hi, ri) {
                let ghost before = px@;
                put(px, stride, x + xx, y + yy, color);
                proof {
                    let p = |cx: int, cy: int| (cy - y < yy || (cy - y == yy && cx - x < xx)) && inside_rounded(cx - x, cy - y, w as int, h as int, R);
                    lemma_painted_twice(old_px, S, color, p, at_point(x + xx, y + yy));
                    lemma_painted_same(old_px, S, color,
                        |cx: int, cy: int| p(cx, cy) || at_point(x + xx, y + yy)(cx, cy),
                        |cx: int, cy: int| (cy - y < yy || (cy - y == yy && cx - x < xx + 1)) && inside_rounded(cx - x, cy - y, w as int, h as int, R));
                }
            } else {
                proof {
                    lemma_painted_same(old_px, S, color,
                        |cx: int, cy: int| (cy - y < yy || (cy - y == yy && cx - x < xx)) && inside_rounded(cx - x, cy - y, w as int, h as int, R),
                        |cx: int, cy: int| (cy - y < yy || (cy - y == yy && cx - x < xx + 1)) && inside_rounded(cx - x, cy - y, w as int, h as int, R));
                }
            }
            xx = xx + 1;
        }
        proof {
            lemma_painted_same(old_px, S, color,
                |cx: int, cy: int| (cy - y < yy || (cy - y == yy && cx - x < xx)) && inside_rounded(cx - x, cy - y, w as int, h as int, R),
                |cx: int, cy: int| cy - y < yy + 1 && inside_rounded(cx - x, cy - y, w as int, h as int, R));
        }
        yy = yy + 1;
    }
    proof {
        lemma_painted_same(old_px, S, color,
            |cx: int, cy: int| cy - y < yy && inside_rounded(cx - x, cy - y, w as int, h as int, R),
            in_rounded(x as int, y as int, w as int, h as int, R));
    }
}

} // verus!

verus! {

/// What `stroke_rounded_rect` needs; see `rounded_rect_ok`.
pub open spec fn stroke_rounded_ok(stride: int, x: int, y: int, w: int, h: int, radius: int) -> bool {
    w >= 2 && h >= 2 ==> stride > 0 && w <= i32::MAX && h <= i32::MAX && x + w - 1 <= i32::MAX && y
        + h - 1 <= i32::MAX && capped_radius(w, h, radius) <= 32768
}

/// Draws the one-pixel outline of a rounded rectangle at least 2x2; smaller ones
/// draw nothing.
pub fn stroke_rounded_rect(
    px: &mut [u32],
    stride: usize,
    x: i32,
    y: i32,
    w: usize,
    h: usize,
    radius: usize,
    color: u32,
)
    requires
        stroke_rounded_ok(stride as int, x as int, y as int, w as int, h as int, radius as int),
    ensures
        final(px)@ == if w < 2 || h < 2 {
            old(px)@
        } else {
            painted(
                old(px)@,
                stride as int,
                color,
                on_rounded_outline(x as int, y as int, w as int, h as int, capped_radius(w as int, h as int, radius as int)),
            )
        },
{
    if w < 2 || h < 2 {
        return;
    }
    let ghost old_px = px@;
    let ghost S = stride as int;
    let r1 = if radius < w / 2 { radius } else { w / 2 };
    let r2 = if r1 < h / 2 { r1 } else { h / 2 };
    let r = r2 as i32;
    let ghost R = r as int;
    let wi = w as i32;
    let hi = h as i32;
    let ri = if r - 1 > 0 { r - 1 } else { 0 };
    let mut yy: i32 = 0;
    while yy < hi
        invariant
            0 <= yy <= hi,
            wi == w,
            hi == h,
            w >= 2,
            h >= 2,
            R == capped_radius(w as int, h as int, radius as int),
            r == R,
            ri == if R - 1 > 0 { R - 1 } else { 0 },
            rounded_ok(wi as int, hi as int, R),
            S == stride,
            S > 0,
            x + w - 1 <= i32::MAX,
            y + h - 1 <= i32::MAX,
            px@ == painted(old_px, S, color, |cx: int, cy: int| cy - y < yy && on_rounded_outline(x as int, y as int, w as int, h as int, R)(cx, cy)),
        decreases hi - yy,
    {
        let mut xx: i32 = 0;
        while xx < wi
            invariant
                0 <= xx <= wi,
                0 <= yy < hi,
                wi == w,
                hi == h,
                w >= 2,
                h >= 2,
                r == R,
                ri == if R - 1 > 0 { R - 1 } else { 0 },
                rounded_ok(wi as int, hi as int, R),
                S == stride,
                S > 0,
                x + w - 1 <= i32::MAX,
                y + h - 1 <= i32::MAX,
                px@ == painted(old_px, S, color, |cx: int, cy: int| (cy - y < yy || (cy - y == yy && cx - x < xx)) && on_rounded_outline(x as int, y as int, w as int, h as int, R)(cx, cy)),
            decreases wi - xx,
        {
            let outer = inside_rounded_rect(xx, yy, wi, hi, r);
            let inner = inside_rounded_rect(xx - 1, yy - 1, wi - 2, hi - 2, ri);
            if outer && !inner {
                put(px, stride, x + xx, y + yy, color);
                proof {
                    let p = |cx: int, cy: int| (cy - y < yy || (cy - y == yy && cx - x < xx)) && on_rounded_outline(x as int, y as int, w as int, h as int, R)(cx, cy);
                    lemma_painted_twice(old_px, S, color, p, at_point(x + xx, y + yy));
                    lemma_painted_same(old_px, S, color,
                        |cx: int, cy: int| p(cx, cy) || at_point(x + xx, y + yy)(cx, cy),
                        |cx: int, cy: int| (cy - y < yy || (cy - y == yy && cx - x < xx + 1)) && on_rounded_outline(x as int, y as int, w as int, h as int, R)(cx, cy));
                }
            } else {
                proof {
                    lemma_painted_same(old_px, S, color,
                        |cx: int, cy: int| (cy - y < yy || (cy - y == yy && cx - x < xx)) && on_rounded_outline(x as int, y as int, w as int, h as int, R)(cx, cy),
                        |cx: int, cy: int| (cy - y < yy || (cy - y == yy && cx - x < xx + 1)) && on_rounded_outline(x as int, y as int, w as int, h as int, R)(cx, cy));
                }
            }
            xx = xx + 1;
        }
        proof {
            lemma_painted_same(old_px, S, color,
                |cx: int, cy: int| (cy - y < yy || (cy - y == yy && cx - x < xx)) && on_rounded_outline(x as int, y as int, w as int, h as int, R)(cx, cy),
                |cx: int, cy: int| cy - y < yy + 1 && on_rounded_outline(x as int, y as int, w as int, h as int, R)(cx, cy));
        }
        yy = yy + 1;
    }
    proof {
        lemma_painted_same(old_px, S, color,
            |cx: int, cy: int| cy - y < yy && on_rounded_outline(x as int, y as int, w as int, h as int, R)(cx, cy),
            on_rounded_outline(x as int, y as int, w as int, h as int, R));
    }
}

/// The 5x7 bitmap of a character byte, one row per entry, bit 4 leftmost; bytes
/// without a glyph of their own share a placeholder glyph.
pub open spec fn glyph_rows(ch: u8) -> Seq<u8> {
    if ch == 65 { seq![0x0Eu8, 0x11, 0x11, 0x1F, 0x11, 0x11, 0x11] }
    else if ch == 66 { seq![0x1Eu8, 0x11, 0x11, 0x1E, 0x11, 0x11, 0x1E] }
    else if ch == 67 { seq![0x0Eu8, 0x11, 0x10, 0x10, 0x10, 0x11, 0x0E] }
    else if ch == 68 { seq![0x1Eu8, 0x11, 0x11, 0x11, 0x11, 0x11, 0x1E] }
    else if ch == 69 { seq![0x1Fu8, 0x10, 0x10, 0x1E, 0x10, 0x10, 0x1F] }
    else if ch == 70 { seq![0x1Fu8, 0x10, 0x10, 0x1E, 0x10, 0x10, 0x10] }
    else if ch == 71 { seq![0x0Eu8, 0x11, 0x10, 0x17, 0x11, 0x11, 0x0E] }
    else if ch == 72 { seq![0x11u8, 0x11, 0x11, 0x1F, 0x11, 0x11, 0x11] }
    else if ch == 73 { seq![0x1Fu8, 0x04, 0x04, 0x04, 0x04, 0x04, 0x1F] }
    else if ch == 75 { seq![0x11u8, 0x12, 0x14, 0x18, 0x14, 0x12, 0x11] }
    else if ch == 76 { seq![0x10u8, 0x10, 0x10, 0x10, 0x10, 0x10, 0x1F] }
    else if ch == 77 { seq![0x11u8, 0x1B, 0x15, 0x15, 0x11, 0x11, 0x11] }
    else if ch == 78 { seq![0x11u8, 0x11, 0x19, 0x15, 0x13, 0x11, 0x11] }
    else if ch == 79 { seq![0x0Eu8, 0x11, 0x11, 0x11, 0x11, 0x11, 0x0E] }
    else if ch == 80 { seq![0x1Eu8, 0x11, 0x11, 0x1E, 0x10, 0x10, 0x10] }
    else if ch == 82 { seq![0x1Eu8, 0x11, 0x11, 0x1E, 0x14, 0x12, 0x11] }
    else if ch == 83 { seq![0x0Eu8, 0x11, 0x10, 0x0E, 0x01, 0x11, 0x0E] }
    else if ch == 84 { seq![0x1Fu8, 0x04, 0x04, 0x04, 0x04, 0x04, 0x04] }
    else if ch == 85 { seq![0x11u8, 0x11, 0x11, 0x11, 0x11, 0x11, 0x0E] }
    else if ch == 86 { seq![0x11u8, 0x11, 0x11, 0x11, 0x11, 0x0A, 0x04] }
    else if ch == 87 { seq![0x11u8, 0x11, 0x11, 0x15, 0x15, 0x15, 0x0A] }
    else if ch == 88 { seq![0x11u8, 0x11, 0x0A, 0x04, 0x0A, 0x11, 0x11] }
    else if ch == 89 { seq![0x11u8, 0x11, 0x0A, 0x04, 0x04, 0x04, 0x04] }
    else if ch == 97 { seq![0x00u8, 0x0E, 0x01, 0x0F, 0x11, 0x13, 0x0D] }
    else if ch == 98 { seq![0x10u8, 0x10, 0x16, 0x19, 0x11, 0x11, 0x1E] }
    else if ch == 99 { seq![0x00u8, 0x0E, 0x11, 0x10, 0x10, 0x11, 0x0E] }
    else if ch == 100 { seq![0x01u8, 0x01, 0x0D, 0x13, 0x11, 0x11, 0x0F] }
    else if ch == 101 { seq![0x00u8, 0x0E, 0x11, 0x1F, 0x10, 0x11, 0x0E] }
    else if ch == 105 { seq![0x04u8, 0x00, 0x0C, 0x04, 0x04, 0x04, 0x0E] }
    else if ch == 109 { seq![0x00u8, 0x1A, 0x15, 0x15, 0x15, 0x15, 0x15] }
    else if ch == 110 { seq![0x00u8, 0x16, 0x19, 0x11, 0x11, 0x11, 0x11] }
    else if ch == 111 { seq![0x00u8, 0x0E, 0x11, 0x11, 0x11, 0x11, 0x0E] }
    else if ch == 112 { seq![0x00u8, 0x1E, 0x11, 0x1E, 0x10, 0x10, 0x10] }
    else if ch == 114 { seq![0x00u8, 0x16, 0x19, 0x10, 0x10, 0x10, 0x10] }
    else if ch == 116 { seq![0x04u8, 0x04, 0x1F, 0x04, 0x04, 0x04, 0x03] }
    else if ch == 121 { seq![0x00u8, 0x11, 0x11, 0x0F, 0x01, 0x11, 0x0E] }
    else if ch == 32 { seq![0u8, 0, 0, 0, 0, 0, 0] }
    else { seq![0x1Fu8, 0x01, 0x02, 0x04, 0x08, 0x00, 0x08] }
}

pub fn glyph(ch: u8) -> (g: [u8; 7])
    ensures
        g@ == glyph_rows(ch),
{
    let g: [u8; 7] = match ch {
        65 => [0x0E, 0x11, 0x11, 0x1F, 0x11, 0x11, 0x11],
        66 => [0x1E, 0x11, 0x11, 0x1E, 0x11, 0x11, 0x1E],
        67 => [0x0E, 0x11, 0x10, 0x10, 0x10, 0x11, 0x0E],
        68 => [0x1E, 0x11, 0x11, 0x11, 0x11, 0x11, 0x1E],
        69 => [0x1F, 0x10, 0x10, 0x1E, 0x10, 0x10, 0x1F],
        70 => [0x1F, 0x10, 0x10, 0x1E, 0x10, 0x10, 0x10],
        71 => [0x0E, 0x11, 0x10, 0x17, 0x11, 0x11, 0x0E],
        72 => [0x11, 0x11, 0x11, 0x1F, 0x11, 0x11, 0x11],
        73 => [0x1F, 0x04, 0x04, 0x04, 0x04, 0x04, 0x1F],
        75 => [0x11, 0x12, 0x14, 0x18, 0x14, 0x12, 0x11],
        76 => [0x10, 0x10, 0x10, 0x10, 0x10, 0x10, 0x1F],
        77 => [0x11, 0x1B, 0x15, 0x15, 0x11, 0x11, 0x11],
        78 => [0x11, 0x11, 0x19, 0x15, 0x13, 0x11, 0x11],
        79 => [0x0E, 0x11, 0x11, 0x11, 0x11, 0x11, 0x0E],
        80 => [0x1E, 0x11, 0x11, 0x1E, 0x10, 0x10, 0x10],
        82 => [0x1E, 0x11, 0x11, 0x1E, 0x14, 0x12, 0x11],
        83 => [0x0E, 0x11, 0x10, 0x0E, 0x01, 0x11, 0x0E],
        84 => [0x1F, 0x04, 0x04, 0x04, 0x04, 0x04, 0x04],
        85 => [0x11, 0x11, 0x11, 0x11, 0x11, 0x11, 0x0E],
        86 => [0x11, 0x11, 0x11, 0x11, 0x11, 0x0A, 0x04],
        87 => [0x11, 0x11, 0x11, 0x15, 0x15, 0x15, 0x0A],
        88 => [0x11, 0x11, 0x0A, 0x04, 0x0A, 0x11, 0x11],
        89 => [0x11, 0x11, 0x0A, 0x04, 0x04, 0x04, 0x04],
        97 => [0x00, 0x0E, 0x01, 0x0F, 0x11, 0x13, 0x0D],
        98 => [0x10, 0x10, 0x16, 0x19, 0x11, 0x11, 0x1E],
        99 => [0x00, 0x0E, 0x11, 0x10, 0x10, 0x11, 0x0E],
        100 => [0x01, 0x01, 0x0D, 0x13, 0x11, 0x11, 0x0F],
        101 => [0x00, 0x0E, 0x11, 0x1F, 0x10, 0x11, 0x0E],
        105 => [0x04, 0x00, 0x0C, 0x04, 0x04, 0x04, 0x0E],
        109 => [0x00, 0x1A, 0x15, 0x15, 0x15, 0x15, 0x15],
        110 => [0x00, 0x16, 0x19, 0x11, 0x11, 0x11, 0x11],
        111 => [0x00, 0x0E, 0x11, 0x11, 0x11, 0x11, 0x0E],
        112 => [0x00, 0x1E, 0x11, 0x1E, 0x10, 0x10, 0x10],
        114 => [0x00, 0x16, 0x19, 0x10, 0x10, 0x10, 0x10],
        116 => [0x04, 0x04, 0x1F, 0x04, 0x04, 0x04, 0x03],
        121 => [0x00, 0x11, 0x11, 0x0F, 0x01, 0x11, 0x0E],
        32 => [0; 7],
        _ => [0x1F, 0x01, 0x02, 0x04, 0x08, 0x00, 0x08],
    };
    assert(g@ =~= glyph_rows(ch));
    g
}

/// Whether the glyph of `ch` has its pixel `(col, row)` set.
pub open spec fn glyph_bit(ch: u8, row: int, col: int) -> bool {
    0 <= row < 7 && 0 <= col < 5 && (glyph_rows(ch)[row] >> ((4 - col) as u8)) & 1u8 == 1u8
}

/// The pixels of the glyph of `ch` drawn at `(x, y)`.
pub open spec fn in_glyph(x: int, y: int, ch: u8) -> spec_fn(int, int) -> bool {
    |cx: int, cy: int| glyph_bit(ch, cy - y, cx - x)
}

/// Draws the glyph of one character byte with its top-left corner at `(x, y)`.
pub fn draw_char(px: &mut [u32], stride: usize, x: i32, y: i32, ch: u8, color: u32)
    requires
        stride > 0,
        x + 4 <= i32::MAX,
        y + 6 <= i32::MAX,
    ensures
        final(px)@ == painted(old(px)@, stride as int, color, in_glyph(x as int, y as int, ch)),
{
    let ghost old_px = px@;
    let ghost S = stride as int;
    let g = glyph(ch);
    let mut row: usize = 0;
    while row < 7
        invariant
            row <= 7,
            g@ == glyph_rows(ch),
            S == stride,
            S > 0,
            x + 4 <= i32::MAX,
            y + 6 <= i32::MAX,
            px@ == painted(old_px, S, color, |cx: int, cy: int| cy - y < row && in_glyph(x as int, y as int, ch)(cx, cy)),
        decreases 7 - row,
    {
        let bits = g[row];
        let mut col: usize = 0;
        while col < 5
            invariant
                col <= 5,
                row < 7,
                bits == glyph_rows(ch)[row as int],
                S == stride,
                S > 0,
                x + 4 <= i32::MAX,
                y + 6 <= i32::MAX,
                px@ == painted(old_px, S, color, |cx: int, cy: int| (cy - y < row || (cy - y == row && cx - x < col)) && in_glyph(x as int, y as int, ch)(cx, cy)),
            decreases 5 - col,
        {
            let shift = (4 - col) as u8;
            if (bits >> shift) & 1 == 1 {
                put(px, stride, x + col as i32, y + row as i32, color);
                proof {
                    let p = |cx: int, cy: int| (cy - y < row || (cy - y == row && cx - x < col)) && in_glyph(x as int, y as int, ch)(cx, cy);
                    lemma_painted_twice(old_px, S, color, p, at_point(x + col, y + row));
                    lemma_painted_same(old_px, S, color,
                        |cx: int, cy: int| p(cx, cy) || at_point(x + col, y + row)(cx, cy),
                        |cx: int, cy: int| (cy - y < row || (cy - y == row && cx - x < col + 1)) && in_glyph(x as int, y as int, ch)(cx, cy));
                }
            } else {
                proof {
                    lemma_painted_same(old_px, S, color,
                        |cx: int, cy: int| (cy - y < row || (cy - y == row && cx - x < col)) && in_glyph(x as int, y as int, ch)(cx, cy),
                        |cx: int, cy: int| (cy - y < row || (cy - y == row && cx - x < col + 1)) && in_glyph(x as int, y as int, ch)(cx, cy));
                }
            }
            col = col + 1;
        }
        proof {
            lemma_painted_same(old_px, S, color,
                |cx: int, cy: int| (cy - y < row || (cy - y == row && cx - x < col)) && in_glyph(x as int, y as int, ch)(cx, cy),
                |cx: int, cy: int| cy - y < row + 1 && in_glyph(x as int, y as int, ch)(cx, cy));
        }
        row = row + 1;
    }
    proof {
        lemma_painted_same(old_px, S, color,
            |cx: int, cy: int| cy - y < row && in_glyph(x as int, y as int, ch)(cx, cy),
            in_glyph(x as int, y as int, ch));
    }
}

/// The pixels after drawing the bytes `bytes[..n]` from `(x, y)`, 6 pixels apart.
pub open spec fn text_painted(old: Seq<u32>, stride: int, x: int, y: int, bytes: Seq<u8>, c: u32, n: nat) -> Seq<u32>
    decreases n,
{
    if n == 0 {
        old
    } else {
        painted(
            text_painted(old, stride, x, y, bytes, c, (n - 1) as nat),
            stride,
            c,
            in_glyph(x + 6 * (n - 1), y, bytes[n - 1]),
        )
    }
}

/// Draws the UTF-8 bytes of `text`, one glyph per byte, 6 pixels apart.
pub fn draw_text(px: &mut [u32], stride: usize, x: i32, y: i32, text: &str, color: u32)
    requires
        text.spec_bytes().len() > 0 ==> stride > 0 && x + 6 * text.spec_bytes().len() <= i32::MAX && y + 6 <= i32::MAX,
    ensures
        final(px)@ == text_painted(old(px)@, stride as int, x as int, y as int, text.spec_bytes(), color, text.spec_bytes().len()),
{
    let bytes = text.as_bytes();
    let n = bytes.len();
    let mut pen_x = x;
    let mut k: usize = 0;
    while k < n
        invariant
            k <= n,
            n == text.spec_bytes().len(),
            bytes@ == text.spec_bytes(),
            n > 0 ==> stride > 0 && x + 6 * n <= i32::MAX && y + 6 <= i32::MAX,
            pen_x == x + 6 * k,
            px@ == text_painted(old(px)@, stride as int, x as int, y as int, bytes@, color, k as nat),
        decreases n - k,
    {
        draw_char(px, stride, pen_x, y, bytes[k], color);
        pen_x = pen_x + 6;
        k = k + 1;
    }
}

} // verus!
