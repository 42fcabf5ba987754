//! A 32-bit-per-pixel raster, stored row by row.
use vstd::prelude::*;
use vstd::arithmetic::div_mod::lemma_fundamental_div_mod_converse;
use vstd::arithmetic::mul::lemma_mul_inequality;

verus! {

#[derive(Debug, Clone)]
pub struct Framebuffer {
    pub width: u32,
    pub height: u32,
    pub pixels: Vec<u32>,
}

/// The colour a new framebuffer starts with: opaque black.
pub open spec fn initial_pixel() -> u32 {
    0xFF000000
}

/// Pixel `(x, y)` lies on a `width x height` raster.
pub open spec fn on_raster(width: int, height: int, x: int, y: int) -> bool {
    0 <= x < width && 0 <= y < height
}

/// Pixel `(x, y)` of the raster is stored at `y * width + x`, which is a valid
/// `u32` index of `len` pixels.
pub open spec fn index_ok(width: int, len: int, x: int, y: int) -> bool {
    y * width + x <= u32::MAX && y * width + x < len
}

/// Whether the pixel stored at index `i` of a `width x height` raster lies in the
/// rectangle `(x, y, w, h)`.
pub open spec fn in_rect_at(i: int, width: int, height: int, x: int, y: int, w: int, h: int) -> bool {
    width > 0 && {
        let px = i % width;
        let py = i / width;
        &&& 0 <= py < height
        &&& x <= px < x + w
        &&& y <= py < y + h
    }
}

/// The pixels after filling the part of rectangle `(x, y, w, h)` that lies on the raster.
pub open spec fn filled_rect(
    old: Seq<u32>,
    width: int,
    height: int,
    x: int,
    y: int,
    w: int,
    h: int,
    c: u32,
) -> Seq<u32> {
    Seq::new(old.len(), |i: int| if in_rect_at(i, width, height, x, y, w, h) { c } else { old[i] })
}

/// Every pixel of the rectangle that lies on the raster has a valid index.
pub open spec fn rect_addressable(width: int, height: int, len: int, x: int, y: int, w: int, h: int) -> bool {
    forall|px: int, py: int|
        on_raster(width, height, px, py) && x <= px < x + w && y <= py < y + h ==> #[trigger] index_ok(
            width,
            len,
            px,
            py,
        )
}

/// `fill_rect`'s loop bounds stay within `i32`.
pub open spec fn rect_bounds_ok(x: int, y: int, w: int, h: int) -> bool {
    w > 0 && h > 0 ==> x + w <= i32::MAX && y + h <= i32::MAX
}

impl Framebuffer {
    /// The pixel count equals `width * height` and every index fits in `u32`.
    pub open spec fn addressable(&self) -> bool {
        &&& self.pixels@.len() == self.width * self.height
        &&& self.width * self.height <= u32::MAX
    }

    /// A `width x height` raster of opaque black pixels.
    pub fn new(width: u32, height: u32) -> (fb: Self)
        requires
            width * height <= u32::MAX,
        ensures
            fb.width == width,
            fb.height == height,
            fb.pixels@ == Seq::new((width * height) as nat, |i: int| initial_pixel()),
            fb.addressable(),
    {
        let n = width * height;
        let pixels = vec![0xFF000000u32; n as usize];
        assert(pixels@ =~= Seq::new((width * height) as nat, |i: int| initial_pixel()));
        Framebuffer { width, height, pixels }
    }

    /// Sets every pixel to `color`.
    pub fn clear(&mut self, color: u32)
        ensures
            final(self).width == old(self).width,
            final(self).height == old(self).height,
            final(self).pixels@ == Seq::new(old(self).pixels@.len(), |i: int| color),
    {
        let n = self.pixels.len();
        let mut i: usize = 0;
        while i < n
            invariant
                n == self.pixels@.len(),
                i <= n,
                self.width == old(self).width,
                self.height == old(self).height,
                forall|k: int| 0 <= k < i ==> self.pixels@[k] == color,
            decreases n - i,
        {
            self.pixels.set(i, color);
            i = i + 1;
        }
        assert(self.pixels@ =~= Seq::new(old(self).pixels@.len(), |i: int| color));
    }

    /// Sets pixel `(x, y)` to `color`; a pixel off the raster is ignored.
    pub fn set_pixel(&mut self, x: i32, y: i32, color: u32)
        requires
            on_raster(old(self).width as int, old(self).height as int, x as int, y as int)
                ==> index_ok(old(self).width as int, old(self).pixels@.len() as int, x as int, y as int),
        ensures
            final(self).width == old(self).width,
            final(self).height == old(self).height,
            final(self).pixels@ == if on_raster(old(self).width as int, old(self).height as int, x as int, y as int) {
                old(self).pixels@.update(y * old(self).width + x, color)
            } else {
                old(self).pixels@
            },
    {
        if x < 0 || y < 0 {
            return;
        }
        let xu = x as u32;
        let yu = y as u32;
        if xu >= self.width || yu >= self.height {
            return;
        }
        let index = yu * self.width + xu;
        self.pixels.set(index as usize, color);
    }

    /// Fills the part of rectangle `(x, y, width, height)` that lies on the raster.
    pub fn fill_rect(&mut self, x: i32, y: i32, width: i32, height: i32, color: u32)
        requires
            rect_bounds_ok(x as int, y as int, width as int, height as int),
            rect_addressable(
                old(self).width as int,
                old(self).height as int,
                old(self).pixels@.len() as int,
                x as int,
                y as int,
                width as int,
                height as int,
            ),
        ensures
            final(self).width == old(self).width,
            final(self).height == old(self).height,
            final(self).pixels@ == filled_rect(
                old(self).pixels@,
                old(self).width as int,
                old(self).height as int,
                x as int,
                y as int,
                width as int,
                height as int,
                color,
            ),
    {
        let ghost W = self.width as int;
        let ghost H = self.height as int;
        let ghost start = self.pixels@;
        if width <= 0 || height <= 0 {
            assert(self.pixels@ =~= filled_rect(start, W, H, x as int, y as int, width as int, height as int, color));
            return;
        }
        let ye = y + height;
        let xe = x + width;
        let mut yy = y;
        while yy < ye
            invariant
                y <= yy <= ye,
                ye == y + height,
                xe == x + width,
                height > 0,
                width > 0,
                self.width == W,
                self.height == H,
                self.pixels@.len() == start.len(),
                rect_addressable(W, H, start.len() as int, x as int, y as int, width as int, height as int),
                self.pixels@ == filled_rect(start, W, H, x as int, y as int, width as int, yy - y, color),
            decreases ye - yy,
        {
            let ghost row_start = self.pixels@;
            let mut xx = x;
            while xx < xe
                invariant
                    x <= xx <= xe,
                    y <= yy < ye,
                    ye == y + height,
                    xe == x + width,
                    self.width == W,
                    self.height == H,
                    self.pixels@.len() == start.len(),
                    rect_addressable(W, H, start.len() as int, x as int, y as int, width as int, height as int),
                    row_start == filled_rect(start, W, H, x as int, y as int, width as int, yy - y, color),
                    self.pixels@ == Seq::new(
                        start.len(),
                        |i: int|
                            if W > 0 && i / W == yy && x <= i % W < xx && i / W < H {
                                color
                            } else {
                                row_start[i]
                            },
                    ),
                decreases xe - xx,
            {
                let ghost before = self.pixels@;
                proof {
                    if on_raster(W, H, xx as int, yy as int) {
                        assert(index_ok(W, start.len() as int, xx as int, yy as int));
                    }
                }
                self.set_pixel(xx, yy, color);
                proof {
                    let idx = yy * W + xx;
                    assert forall|i: int| 0 <= i < start.len() implies #[trigger] self.pixels@[i] == (
                    if W > 0 && i / W == yy && x <= i % W < xx + 1 && i / W < H {
                        color
                    } else {
                        row_start[i]
                    }) by {
                        if W > 0 {
                            vstd::arithmetic::div_mod::lemma_mod_bound(i, W);
                            vstd::arithmetic::div_mod::lemma_fundamental_div_mod(i, W);
                            assert(W * (i / W) == (i / W) * W) by (nonlinear_arith);
                        }
                        if on_raster(W, H, xx as int, yy as int) {
                            lemma_fundamental_div_mod_converse(idx, W, yy as int, xx as int);
                        }
                    }
                }
                xx = xx + 1;
                assert(self.pixels@ =~= Seq::new(
                    start.len(),
                    |i: int|
                        if W > 0 && i / W == yy && x <= i % W < xx && i / W < H {
                            color
                        } else {
                            row_start[i]
                        },
                ));
            }
            yy = yy + 1;
            assert(self.pixels@ =~= filled_rect(start, W, H, x as int, y as int, width as int, yy - y, color));
        }
        assert(self.pixels@ =~= filled_rect(start, W, H, x as int, y as int, width as int, height as int, color));
    }
}

/// On an addressable framebuffer every rectangle is addressable.
pub proof fn lemma_addressable_rect(fb: Framebuffer, x: int, y: int, w: int, h: int)
    requires
        fb.addressable(),
    ensures
        rect_addressable(fb.width as int, fb.height as int, fb.pixels@.len() as int, x, y, w, h),
{
    assert forall|px: int, py: int|
        on_raster(fb.width as int, fb.height as int, px, py) && x <= px < x + w && y <= py < y + h
        implies index_ok(fb.width as int, fb.pixels@.len() as int, px, py) by {
        lemma_mul_inequality(py + 1, fb.height as int, fb.width as int);
        assert((py + 1) * fb.width == py * fb.width + fb.width) by (nonlinear_arith);
        assert(fb.height * fb.width == fb.width * fb.height) by (nonlinear_arith);
    }
}

} // verus!
