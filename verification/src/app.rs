//! An application: a window of a given size showing a component tree. The builder
//! collects the size and the component; building takes the host display and
//! surface the caller connected, and fails without a component.
use vstd::prelude::*;
use crate::components::VComponent;

verus! {

pub struct AppBuilder<H> {
    pub width: u32,
    pub height: u32,
    pub ui: Option<VComponent<H>>,
}

pub struct App<H, D, S> {
    pub host: D,
    pub surface: S,
    pub ui: VComponent<H>,
    pub width: u32,
    pub height: u32,
}

/// The error of building without a component.
pub open spec fn ui_not_set() -> Seq<char> {
    "UI not set"@
}

impl<H> AppBuilder<H> {
    /// A builder for a `width x height` window with no component yet.
    pub fn new(width: u32, height: u32) -> (b: Self)
        ensures
            b.width == width,
            b.height == height,
            b.ui is None,
    {
        AppBuilder { width, height, ui: None }
    }

    /// The builder with `ui` as its component; this never fails.
    pub fn with_ui(self, ui: VComponent<H>) -> (r: Result<Self, String>)
        ensures
            r matches Ok(b) && b.width == self.width && b.height == self.height && b.ui == Some(ui),
    {
        let mut b = self;
        b.ui = Some(ui);
        Ok(b)
    }

    /// The application on the given display and surface; an error when no
    /// component was set.
    pub fn build<D, S>(self, host: D, surface: S) -> (r: Result<App<H, D, S>, String>)
        ensures
            r is Err <==> self.ui is None,
            r matches Err(e) ==> e@ == ui_not_set(),
            r matches Ok(app) ==> app.host == host && app.surface == surface && Some(app.ui) == self.ui
                && app.width == self.width && app.height == self.height,
    {
        match self.ui {
            Some(ui) => Ok(App { host, surface, ui, width: self.width, height: self.height }),
            None => Err("UI not set".to_owned()),
        }
    }
}

impl<H, D, S> App<H, D, S> {
    /// A builder for a `width x height` application.
    pub fn new(width: u32, height: u32) -> (b: AppBuilder<H>)
        ensures
            b.width == width,
            b.height == height,
            b.ui is None,
    {
        AppBuilder::new(width, height)
    }

    /// The component shown.
    pub fn ui(&self) -> (r: &VComponent<H>)
        ensures
            *r == self.ui,
    {
        &self.ui
    }

    /// The component shown, to change it.
    pub fn ui_mut(&mut self) -> (r: &mut VComponent<H>)
        ensures
            *r == old(self).ui,
            final(self).ui == *final(r),
            final(self).host == old(self).host,
            final(self).surface == old(self).surface,
            final(self).width == old(self).width,
            final(self).height == old(self).height,
    {
        &mut self.ui
    }
}

/// The little-endian and big-endian bytes of a pixel.
pub open spec fn le_bytes(v: u32) -> Seq<u8> {
    seq![(v & 0xffu32) as u8, ((v >> 8u32) & 0xffu32) as u8, ((v >> 16u32) & 0xffu32) as u8, (v >> 24u32) as u8]
}

pub open spec fn be_bytes(v: u32) -> Seq<u8> {
    seq![(v >> 24u32) as u8, ((v >> 16u32) & 0xffu32) as u8, ((v >> 8u32) & 0xffu32) as u8, (v & 0xffu32) as u8]
}

/// `u32::to_ne_bytes`: the bytes of `v` in the machine's byte order, which is
/// little- or big-endian.
#[verifier::external_body]
fn native_bytes(v: u32) -> (r: [u8; 4])
    ensures
        r@ == le_bytes(v) || r@ == be_bytes(v),
{
    v.to_ne_bytes()
}

/// How many pixels a copy into a byte buffer writes: as many as both hold.
pub open spec fn blit_count(src_len: int, dst_len: int) -> int {
    if src_len < dst_len / 4 { src_len } else { dst_len / 4 }
}

/// Bytes `4 * i .. 4 * i + 4` of `d` hold pixel `v`: its first three bytes in
/// little-endian order (`little`) or big-endian order, then a zero byte.
pub open spec fn pixel_copied(d: Seq<u8>, i: int, v: u32, little: bool) -> bool {
    &&& d.subrange(4 * i, 4 * i + 3) == (if little { le_bytes(v) } else { be_bytes(v) }).take(3)
    &&& d[4 * i + 3] == 0
}

/// The first `n` pixels of `src` are copied into `d`, all in the one byte order.
pub open spec fn all_copied(d: Seq<u8>, src: Seq<u32>, n: int, little: bool) -> bool {
    forall|i: int| 0 <= i < n ==> #[trigger] pixel_copied(d, i, src[i], little)
}

/// Whether this machine stores integers little-endian: whether the first native
/// byte of 1 is 1. Which order the machine has is not stated.
fn native_is_little() -> bool {
    let probe = native_bytes(1u32);
    probe[0] == 1
}

/// The first three bytes of `v` in the given order.
fn pixel_bytes(v: u32, little: bool) -> (b: [u8; 3])
    ensures
        b@ == (if little { le_bytes(v) } else { be_bytes(v) }).take(3),
{
    let b: [u8; 3] = if little {
        [(v & 0xff) as u8, ((v >> 8) & 0xff) as u8, ((v >> 16) & 0xff) as u8]
    } else {
        [(v >> 24) as u8, ((v >> 16) & 0xff) as u8, ((v >> 8) & 0xff) as u8]
    };
    assert(b@ =~= (if little { le_bytes(v) } else { be_bytes(v) }).take(3));
    b
}

/// Copies pixels into a 4-bytes-per-pixel buffer: the first three bytes of each
/// pixel in the machine's byte order, the same for every pixel, then a zero byte;
/// bytes past the copied pixels are kept.
pub fn blit_framebuffer_to_surface(src_argb: &[u32], dst: &mut [u8])
    ensures
        final(dst)@.len() == old(dst)@.len(),
        all_copied(final(dst)@, src_argb@, blit_count(src_argb@.len() as int, old(dst)@.len() as int), true)
            || all_copied(final(dst)@, src_argb@, blit_count(src_argb@.len() as int, old(dst)@.len() as int), false),
        forall|k: int|
            4 * blit_count(src_argb@.len() as int, old(dst)@.len() as int) <= k < old(dst)@.len() ==> #[trigger] final(dst)@[k]
                == old(dst)@[k],
{
    let little = native_is_little();
    let dn = dst.len();
    let n4 = dn / 4;
    let pixel_count = if src_argb.len() < n4 { src_argb.len() } else { n4 };
    let ghost d0 = dst@;
    let mut i: usize = 0;
    while i < pixel_count
        invariant
            i <= pixel_count,
            pixel_count == blit_count(src_argb@.len() as int, d0.len() as int),
            pixel_count <= src_argb@.len(),
            4 * pixel_count <= d0.len(),
            dst@.len() == d0.len(),
            d0.len() == dn,
            all_copied(dst@, src_argb@, i as int, little),
            forall|k: int| 4 * i <= k < d0.len() ==> #[trigger] dst@[k] == d0[k],
        decreases pixel_count - i,
    {
        let bytes = pixel_bytes(src_argb[i], little);
        assert(i * 4 < d0.len());
        let base = i * 4;
        let ghost before = dst@;
        dst[base] = bytes[0];
        dst[base + 1] = bytes[1];
        dst[base + 2] = bytes[2];
        dst[base + 3] = 0x00;
        proof {
            assert(dst@.subrange(4 * i, 4 * i + 3) =~= bytes@);
            assert forall|j: int| 0 <= j < i + 1 implies #[trigger] pixel_copied(dst@, j, src_argb@[j], little) by {
                if j < i {
                    assert(pixel_copied(before, j, src_argb@[j], little));
                    assert(dst@.subrange(4 * j, 4 * j + 3) =~= before.subrange(4 * j, 4 * j + 3));
                }
            }
        }
        i = i + 1;
    }
}

} // verus!
