//! Minimal software renderer that writes straight into a raw BGRA byte buffer
//! (four bytes per pixel: blue, green, red, alpha; rows `stride` bytes apart).
use vstd::prelude::*;
use vstd::arithmetic::mul::*;

verus! {

/// An RGBA colour with 8 bits per channel.
#[derive(Clone, Copy, Debug, PartialEq, Eq, Structural)]
pub struct Color {
    pub r: u8,
    pub g: u8,
    pub b: u8,
    pub a: u8,
}

impl Color {
    pub fn new(r: u8, g: u8, b: u8, a: u8) -> (c: Self)
        ensures
            c == (Color { r, g, b, a }),
    {
        Color { r, g, b, a }
    }
}

/// Byte `k` (0..4) of a pixel stored in BGRA order.
pub open spec fn bgra_channel(c: Color, k: int) -> u8 {
    if k == 0 {
        c.b
    } else if k == 1 {
        c.g
    } else if k == 2 {
        c.r
    } else {
        c.a
    }
}

/// Byte `i` lies inside one of the pixels `x0 <= x < x1` of row `y`.
pub open spec fn row_covers(i: int, stride: int, y: int, x0: int, x1: int) -> bool {
    4 * x0 <= i - y * stride < 4 * x1
}

/// The last row among `y0 <= y < y1` (rows are painted top to bottom) whose span
/// `x0 <= x < x1` holds byte `i`.
pub open spec fn last_covering_row(i: int, stride: int, x0: int, x1: int, y0: int, y1: int) -> Option<
    int,
>
    decreases y1 - y0,
{
    if y1 <= y0 {
        None
    } else if row_covers(i, stride, y1 - 1, x0, x1) {
        Some(y1 - 1)
    } else {
        last_covering_row(i, stride, x0, x1, y0, y1 - 1)
    }
}

/// The buffer after painting every pixel of `[x0, x1) x [y0, y1)` with `c`, row by
/// row: a byte takes the channel it has in the last pixel written over it.
pub open spec fn filled_bytes(
    old: Seq<u8>,
    stride: int,
    x0: int,
    x1: int,
    y0: int,
    y1: int,
    c: Color,
) -> Seq<u8> {
    Seq::new(
        old.len(),
        |i: int|
            match last_covering_row(i, stride, x0, x1, y0, y1) {
                Some(y) => bgra_channel(c, (i - y * stride) % 4),
                None => old[i],
            },
    )
}

/// Every pixel of the span lies inside a buffer of `len` bytes.
pub open spec fn span_fits(len: int, stride: int, x0: int, x1: int, y0: int, y1: int) -> bool {
    y0 < y1 && x0 < x1 ==> (y1 - 1) * stride + 4 * x1 <= len
}

/// The row offsets `y * stride` of the span never overflow.
pub open spec fn rows_addressable(stride: int, y0: int, y1: int) -> bool {
    y0 < y1 ==> (y1 - 1) * stride <= usize::MAX
}

proof fn lemma_row_offset_bound(y: int, y1: int, stride: int)
    requires
        0 <= y < y1,
        0 <= stride,
    ensures
        y * stride <= (y1 - 1) * stride,
        (y + 1) * stride == y * stride + stride,
{
    lemma_mul_inequality(y, y1 - 1, stride);
    assert((y + 1) * stride == y * stride + stride) by (nonlinear_arith);
}

/// Paints the pixels `[x0, x1) x [y0, y1)` of a BGRA buffer with `color`.
fn fill_span(
    buf: &mut [u8],
    stride: usize,
    x0: usize,
    x1: usize,
    y0: usize,
    y1: usize,
    color: Color,
)
    requires
        span_fits(old(buf)@.len() as int, stride as int, x0 as int, x1 as int, y0 as int, y1 as int),
        rows_addressable(stride as int, y0 as int, y1 as int),
    ensures
        final(buf)@ == filled_bytes(
            old(buf)@,
            stride as int,
            x0 as int,
            x1 as int,
            y0 as int,
            y1 as int,
            color,
        ),
{
    let ghost start = buf@;
    let n = buf.len();
    let mut y = y0;
    assert(buf@ =~= filled_bytes(start, stride as int, x0 as int, x1 as int, y0 as int, y0 as int, color));
    while y < y1
        invariant
            y0 <= y,
            y0 < y1 ==> y <= y1,
            y0 >= y1 ==> y == y0,
            buf@.len() == start.len(),
            n == start.len(),
            span_fits(start.len() as int, stride as int, x0 as int, x1 as int, y0 as int, y1 as int),
            rows_addressable(stride as int, y0 as int, y1 as int),
            buf@ == filled_bytes(start, stride as int, x0 as int, x1 as int, y0 as int, y as int, color),
        decreases y1 - y,
    {
        proof {
            lemma_row_offset_bound(y as int, y1 as int, stride as int);
        }
        let row = y * stride;
        let ghost before = buf@;
        let mut x = x0;
        while x < x1
            invariant
                y0 <= y < y1,
                x0 <= x,
                x0 < x1 ==> x <= x1,
                x0 >= x1 ==> x == x0,
                row == y * stride,
                y * stride <= (y1 - 1) * stride,
                buf@.len() == start.len(),
                n == start.len(),
                span_fits(start.len() as int, stride as int, x0 as int, x1 as int, y0 as int, y1 as int),
                before == filled_bytes(start, stride as int, x0 as int, x1 as int, y0 as int, y as int, color),
                buf@ == Seq::new(
                    start.len(),
                    |i: int|
                        if row_covers(i, stride as int, y as int, x0 as int, x as int) {
                            bgra_channel(color, (i - y * stride) % 4)
                        } else {
                            before[i]
                        },
                ),
            decreases x1 - x,
        {
            assert(row + 4 * x1 <= start.len());
            let off = row + x * 4;
            buf[off] = color.b;
            buf[off + 1] = color.g;
            buf[off + 2] = color.r;
            buf[off + 3] = color.a;
            x = x + 1;
            assert(buf@ =~= Seq::new(
                start.len(),
                |i: int|
                    if row_covers(i, stride as int, y as int, x0 as int, x as int) {
                        bgra_channel(color, (i - y * stride) % 4)
                    } else {
                        before[i]
                    },
            ));
        }
        assert(x0 < x1 ==> x == x1);
        assert(x0 >= x1 ==> x == x0);
        assert forall|i: int| 0 <= i < buf@.len() implies row_covers(i, stride as int, y as int, x0 as int, x as int)
            == row_covers(i, stride as int, y as int, x0 as int, x1 as int) by {
            if x0 < x1 {
                assert(x == x1);
            } else {
                assert(!row_covers(i, stride as int, y as int, x0 as int, x as int));
            }
        }
        assert(buf@ =~= Seq::new(
            start.len(),
            |i: int|
                if row_covers(i, stride as int, y as int, x0 as int, x1 as int) {
                    bgra_channel(color, (i - y * stride) % 4)
                } else {
                    before[i]
                },
        ));
        proof {
            let next = filled_bytes(start, stride as int, x0 as int, x1 as int, y0 as int, y + 1, color);
            assert forall|i: int| 0 <= i < buf@.len() implies buf@[i] == next[i] by {
                reveal_with_fuel(last_covering_row, 2);
                assert(last_covering_row(i, stride as int, x0 as int, x1 as int, y0 as int, y + 1)
                    == if row_covers(i, stride as int, y as int, x0 as int, x1 as int) {
                        Some(y as int)
                    } else {
                        last_covering_row(i, stride as int, x0 as int, x1 as int, y0 as int, y as int)
                    });
            }
            assert(buf@ =~= next);
        }
        y = y + 1;
    }
    assert(buf@ =~= filled_bytes(start, stride as int, x0 as int, x1 as int, y0 as int, y1 as int, color));
}

/// Fills the whole `width x height` area of the buffer with `color`.
pub fn clear(buf: &mut [u8], width: usize, height: usize, stride: usize, color: Color)
    requires
        span_fits(old(buf)@.len() as int, stride as int, 0, width as int, 0, height as int),
        rows_addressable(stride as int, 0, height as int),
    ensures
        final(buf)@ == filled_bytes(old(buf)@, stride as int, 0, width as int, 0, height as int, color),
{
    fill_span(buf, stride, 0, width, 0, height, color);
}

/// The part `[x0, x1) x [y0, y1)` of the rectangle at `(x, y)` of size `w x h`
/// that lies on a `width x height` buffer, or `None` when nothing of it is visible.
pub open spec fn rect_clip(x: int, y: int, w: int, h: int, width: int, height: int) -> Option<(int, int, int, int)> {
    if w <= 0 || h <= 0 {
        None
    } else {
        let x0 = if x > 0 { x } else { 0 };
        let y0 = if y > 0 { y } else { 0 };
        let x1 = if x + w < width { x + w } else { width };
        let y1 = if y + h < height { y + h } else { height };
        if x0 >= x1 || y0 >= y1 {
            None
        } else {
            Some((x0, x1, y0, y1))
        }
    }
}

/// The buffer after drawing the rectangle `(x, y, w, h)` clipped to `width x height`.
pub open spec fn drawn_rect(
    old: Seq<u8>,
    width: int,
    height: int,
    stride: int,
    x: int,
    y: int,
    w: int,
    h: int,
    c: Color,
) -> Seq<u8> {
    match rect_clip(x, y, w, h, width, height) {
        Some((x0, x1, y0, y1)) => filled_bytes(old, stride, x0, x1, y0, y1, c),
        None => old,
    }
}

/// The clipped right (or bottom) edge is negative while the other axis still spans
/// some pixels: the edge, taken as an unsigned index, then runs far past the buffer.
pub open spec fn rect_end_wraps(x: int, y: int, w: int, h: int, width: int, height: int) -> bool {
    let x0 = if x > 0 { x } else { 0 };
    let y0 = if y > 0 { y } else { 0 };
    let x1 = if x + w < width { x + w } else { width };
    let y1 = if y + h < height { y + h } else { height };
    &&& w > 0 && h > 0
    &&& (x1 < 0 || y1 < 0)
    &&& (x1 < 0 || x0 < x1)
    &&& (y1 < 0 || y0 < y1)
}

/// What `draw_rect` needs so that it neither overflows nor indexes past the buffer.
pub open spec fn draw_rect_ok(len: int, width: int, height: int, stride: int, x: int, y: int, w: int, h: int) -> bool {
    &&& width <= i32::MAX
    &&& height <= i32::MAX
    &&& (w > 0 && h > 0 ==> x + w <= i32::MAX && y + h <= i32::MAX)
    &&& !rect_end_wraps(x, y, w, h, width, height)
    &&& match rect_clip(x, y, w, h, width, height) {
        Some((x0, x1, y0, y1)) => span_fits(len, stride, x0, x1, y0, y1) && rows_addressable(
            stride,
            y0,
            y1,
        ),
        None => true,
    }
}

/// Draws an axis-aligned rectangle, clipped to the `width x height` area.
pub fn draw_rect(
    buf: &mut [u8],
    width: usize,
    height: usize,
    stride: usize,
    x: i32,
    y: i32,
    w: i32,
    h: i32,
    color: Color,
)
    requires
        draw_rect_ok(
            old(buf)@.len() as int,
            width as int,
            height as int,
            stride as int,
            x as int,
            y as int,
            w as int,
            h as int,
        ),
    ensures
        final(buf)@ == drawn_rect(
            old(buf)@,
            width as int,
            height as int,
            stride as int,
            x as int,
            y as int,
            w as int,
            h as int,
            color,
        ),
{
    if w <= 0 || h <= 0 {
        return;
    }
    let x0: usize = if x > 0 { x as usize } else { 0 };
    let y0: usize = if y > 0 { y as usize } else { 0 };
    let xe: i32 = x + w;
    let ye: i32 = y + h;
    let wi: i32 = width as i32;
    let hi: i32 = height as i32;
    let x1i: i32 = if xe < wi { xe } else { wi };
    let y1i: i32 = if ye < hi { ye } else { hi };
    if x1i <= 0 || y1i <= 0 {
        return;
    }
    let x1: usize = x1i as usize;
    let y1: usize = y1i as usize;
    if x0 >= x1 || y0 >= y1 {
        return;
    }
    fill_span(buf, stride, x0, x1, y0, y1, color);
}

} // verus!
