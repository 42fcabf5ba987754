//! The frame of the simple application view: a dark background and a red 80 x 60
//! rectangle that moves along with the animation phase.
use vstd::prelude::*;
use crate::render::{clear, draw_rect, drawn_rect, filled_bytes, rows_addressable, span_fits, Color};

verus! {

/// The background colour of the view.
pub open spec fn view_bg() -> Color {
    Color { r: 0x10, g: 0x18, b: 0x20, a: 0xff }
}

/// The colour of the moving rectangle.
pub open spec fn view_rect_color() -> Color {
    Color { r: 0xd0, g: 0x30, b: 0x30, a: 0xff }
}

/// The left edge of the rectangle: three pixels a phase step, wrapping before the
/// last 80 columns.
pub open spec fn rect_x(phase: u8, width: int) -> int {
    (phase * 3) % (width - 80)
}

/// The top edge of the rectangle: centred vertically, not above the top.
pub open spec fn rect_y(height: int) -> int {
    if height / 2 > 30 { height / 2 - 30 } else { 0 }
}

/// The buffer after drawing the frame of `phase`.
pub open spec fn view_frame(old: Seq<u8>, width: int, height: int, stride: int, phase: u8) -> Seq<u8> {
    drawn_rect(
        filled_bytes(old, stride, 0, width, 0, height, view_bg()),
        width,
        height,
        stride,
        rect_x(phase, width),
        rect_y(height),
        80,
        60,
        view_rect_color(),
    )
}

/// Draws the frame of `phase` into a BGRA buffer of `width x height` pixels; see
/// `view_frame`. The view must be wider than the rectangle.
pub fn render_view_frame(back: &mut [u8], width: usize, height: usize, stride: usize, phase: u8)
    requires
        80 < width <= i32::MAX,
        height <= i32::MAX,
        span_fits(old(back)@.len() as int, stride as int, 0, width as int, 0, height as int),
        rows_addressable(stride as int, 0, height as int),
    ensures
        final(back)@ == view_frame(old(back)@, width as int, height as int, stride as int, phase),
{
    clear(back, width, height, stride, Color::new(0x10, 0x18, 0x20, 0xff));
    let x = ((phase as usize) * 3) % (width.saturating_sub(80));
    let y = (height / 2).saturating_sub(30);
    proof {
        let x1 = if x + 80 < width { x + 80 } else { width as int };
        let y1 = if y + 60 < height { y + 60 } else { height as int };
        if y < y1 {
            assert((y1 - 1) * stride <= (height - 1) * stride) by (nonlinear_arith)
                requires 0 <= y1 - 1 <= height - 1, 0 <= stride;
        }
    }
    draw_rect(back, width, height, stride, x as i32, y as i32, 80, 60, Color::new(0xd0, 0x30, 0x30, 0xff));
}

/// What drawing a frame needs: a view wider than the rectangle, `i32` sizes, and
/// every row of the view inside the buffer.
pub open spec fn view_frame_ok(len: int, width: int, height: int, stride: int) -> bool {
    &&& 80 < width <= i32::MAX
    &&& height <= i32::MAX
    &&& span_fits(len, stride, 0, width, 0, height)
    &&& rows_addressable(stride, 0, height)
}

/// `render_view_frame`, or, leaving the buffer as it is, an error where drawing
/// would fail: "view too narrow" for a view no wider than the rectangle (a
/// remainder by zero), "view too large" past `i32`, and "buffer too small" when a
/// row lies outside the buffer.
pub fn try_render_view_frame(back: &mut [u8], width: usize, height: usize, stride: usize, phase: u8) -> (r: Result<(), &'static str>)
    ensures
        r is Ok <==> view_frame_ok(old(back)@.len() as int, width as int, height as int, stride as int),
        r is Ok ==> final(back)@ == view_frame(old(back)@, width as int, height as int, stride as int, phase),
        r is Err ==> final(back)@ == old(back)@,
        r matches Err(e) ==> (e@ == "view too narrow"@ <==> width <= 80),
{
    proof {
        reveal_strlit("view too narrow");
        reveal_strlit("view too large");
        reveal_strlit("buffer too small");
        assert("view too large"@.len() != "view too narrow"@.len());
        assert("buffer too small"@.len() != "view too narrow"@.len());
    }
    if width <= 80 {
        return Err("view too narrow");
    }
    if width > i32::MAX as usize || height > i32::MAX as usize {
        return Err("view too large");
    }
    if height > 0 {
        let rows = (height - 1).checked_mul(stride);
        match rows {
            None => {
                return Err("buffer too small");
            },
            Some(r) => {
                if r > back.len() || width > (back.len() - r) / 4 {
                    return Err("buffer too small");
                }
            },
        }
    }
    render_view_frame(back, width, height, stride, phase);
    Ok(())
}

} // verus!
