//! A component that fills its area with one colour.
use vstd::prelude::*;
use crate::render::{clear, filled_bytes, rows_addressable, span_fits, Color};

verus! {

pub struct Canvas {
    pub color: Color,
    pub pref_w: i32,
    pub pref_h: i32,
}

/// One axis of `Canvas::layout`: the preferred extent capped by the available one,
/// or all of the available extent when no preference is set, never negative.
pub open spec fn canvas_extent(pref: int, avail: int) -> int {
    let e = if pref <= 0 {
        avail
    } else if pref < avail {
        pref
    } else {
        avail
    };
    if e > 0 {
        e
    } else {
        0
    }
}

impl Canvas {
    pub fn new(color: Color, pref_w: i32, pref_h: i32) -> (c: Self)
        ensures
            c == (Canvas { color, pref_w, pref_h }),
    {
        Canvas { color, pref_w, pref_h }
    }

    pub fn set_color(&mut self, color: Color)
        ensures
            *final(self) == (Canvas { color, ..*old(self) }),
    {
        self.color = color;
    }

    /// The size the canvas takes within the available space.
    pub fn layout(&self, avail_w: i32, avail_h: i32) -> (r: (i32, i32))
        ensures
            r.0 == canvas_extent(self.pref_w as int, avail_w as int),
            r.1 == canvas_extent(self.pref_h as int, avail_h as int),
    {
        let w = if self.pref_w <= 0 {
            avail_w
        } else if self.pref_w < avail_w {
            self.pref_w
        } else {
            avail_w
        };
        let h = if self.pref_h <= 0 {
            avail_h
        } else if self.pref_h < avail_h {
            self.pref_h
        } else {
            avail_h
        };
        (if w > 0 { w } else { 0 }, if h > 0 { h } else { 0 })
    }

    /// Fills the `width x height` area of the BGRA buffer with the canvas colour.
    pub fn render(&self, buf: &mut [u8], width: usize, height: usize, stride: usize)
        requires
            span_fits(old(buf)@.len() as int, stride as int, 0, width as int, 0, height as int),
            rows_addressable(stride as int, 0, height as int),
        ensures
            final(buf)@ == filled_bytes(old(buf)@, stride as int, 0, width as int, 0, height as int, self.color),
    {
        clear(buf, width, height, stride, self.color);
    }
}

} // verus!
