//! Turns a display list into pixels.
use vstd::prelude::*;
use vstd::string::StrSliceExecFns;
use super::display_list::{DisplayCommand, DisplayList};
use super::framebuffer::{filled_rect, lemma_addressable_rect, Framebuffer};
use crate::text::chars_of;

verus! {

/// The background of a rasterised page.
pub open spec fn page_background() -> u32 {
    0xFF111111
}

/// Text is drawn as one 6x10 block per character, advancing 8 pixels each time.
pub open spec fn text_blocks(px: Seq<u32>, w: int, h: int, x: int, y: int, c: u32, n: nat) -> Seq<u32>
    decreases n,
{
    if n == 0 {
        px
    } else {
        filled_rect(text_blocks(px, w, h, x, y, c, (n - 1) as nat), w, h, x + 8 * (n - 1), y, 6, 10, c)
    }
}

/// The pixels after drawing one command.
pub open spec fn apply_command(px: Seq<u32>, w: int, h: int, cmd: DisplayCommand) -> Seq<u32> {
    match cmd {
        DisplayCommand::FillRect { rect, color } => filled_rect(
            px,
            w,
            h,
            rect.x as int,
            rect.y as int,
            rect.width as int,
            rect.height as int,
            color,
        ),
        DisplayCommand::DrawText { x, y, color, text } => text_blocks(
            px,
            w,
            h,
            x as int,
            y as int,
            color,
            text@.len(),
        ),
    }
}

/// The pixels after drawing the commands in order.
pub open spec fn apply_commands(px: Seq<u32>, w: int, h: int, cmds: Seq<DisplayCommand>) -> Seq<u32>
    decreases cmds.len(),
{
    if cmds.len() == 0 {
        px
    } else {
        apply_command(apply_commands(px, w, h, cmds.drop_last()), w, h, cmds.last())
    }
}

/// A command's coordinates stay within `i32` while it is drawn.
pub open spec fn command_ok(cmd: DisplayCommand) -> bool {
    match cmd {
        DisplayCommand::FillRect { rect, .. } => (rect.width > 0 && rect.height > 0) ==> (
        rect.x + rect.width <= i32::MAX && rect.y + rect.height <= i32::MAX),
        DisplayCommand::DrawText { x, y, text, .. } => text@.len() > 0 ==> (x + 8 * text@.len()
            <= i32::MAX && y + 10 <= i32::MAX),
    }
}

fn rasterize_text(fb: &mut Framebuffer, x: i32, y: i32, color: u32, text: &str)
    requires
        old(fb).addressable(),
        text@.len() > 0 ==> x + 8 * text@.len() <= i32::MAX && y + 10 <= i32::MAX,
    ensures
        final(fb).width == old(fb).width,
        final(fb).height == old(fb).height,
        final(fb).addressable(),
        final(fb).pixels@ == text_blocks(
            old(fb).pixels@,
            old(fb).width as int,
            old(fb).height as int,
            x as int,
            y as int,
            color,
            text@.len(),
        ),
{
    let chars = chars_of(text);
    let n = chars.len();
    let mut pen_x = x;
    let mut k: usize = 0;
    while k < n
        invariant
            k <= n,
            n == text@.len(),
            n > 0 ==> x + 8 * n <= i32::MAX && y + 10 <= i32::MAX,
            pen_x == x + 8 * k,
            fb.width == old(fb).width,
            fb.height == old(fb).height,
            fb.addressable(),
            fb.pixels@ == text_blocks(
                old(fb).pixels@,
                old(fb).width as int,
                old(fb).height as int,
                x as int,
                y as int,
                color,
                k as nat,
            ),
        decreases n - k,
    {
        proof {
            lemma_addressable_rect(*fb, pen_x as int, y as int, 6, 10);
        }
        fb.fill_rect(pen_x, y, 6, 10, color);
        pen_x = pen_x + 8;
        k = k + 1;
    }
}

/// Paints the page background, then each command in order, on a `width x height` raster.
pub fn rasterize(display_list: &DisplayList, width: u32, height: u32) -> (fb: Framebuffer)
    requires
        width * height <= u32::MAX,
        forall|i: int| 0 <= i < display_list.items@.len() ==> command_ok(#[trigger] display_list.items@[i]),
    ensures
        fb.width == width,
        fb.height == height,
        fb.pixels@ == apply_commands(
            Seq::new((width * height) as nat, |i: int| page_background()),
            width as int,
            height as int,
            display_list.items@,
        ),
{
    let mut fb = Framebuffer::new(width, height);
    fb.clear(0xFF111111);
    let ghost base = fb.pixels@;
    assert(base =~= Seq::new((width * height) as nat, |i: int| page_background()));
    let mut i: usize = 0;
    while i < display_list.items.len()
        invariant
            i <= display_list.items@.len(),
            fb.width == width,
            fb.height == height,
            fb.addressable(),
            forall|j: int| 0 <= j < display_list.items@.len() ==> command_ok(#[trigger] display_list.items@[j]),
            fb.pixels@ == apply_commands(base, width as int, height as int, display_list.items@.take(i as int)),
        decreases display_list.items.len() - i,
    {
        let item = &display_list.items[i];
        assert(command_ok(display_list.items@[i as int]));
        match item {
            DisplayCommand::FillRect { rect, color } => {
                proof {
                    lemma_addressable_rect(fb, rect.x as int, rect.y as int, rect.width as int, rect.height as int);
                }
                fb.fill_rect(rect.x, rect.y, rect.width, rect.height, *color);
            },
            DisplayCommand::DrawText { x, y, color, text } => {
                rasterize_text(&mut fb, *x, *y, *color, text.as_str());
            },
        }
        assert(display_list.items@.take(i + 1).drop_last() =~= display_list.items@.take(i as int));
        i = i + 1;
    }
    assert(display_list.items@.take(display_list.items@.len() as int) =~= display_list.items@);
    fb
}

/// Whether drawing `cmd` keeps its coordinates within `i32`; see `command_ok`.
fn command_check(cmd: &DisplayCommand) -> (b: bool)
    ensures
        b == command_ok(*cmd),
{
    let m: i64 = i32::MAX as i64;
    match cmd {
        DisplayCommand::FillRect { rect, .. } => {
            !(rect.width > 0 && rect.height > 0) || (rect.x as i64 + rect.width as i64 <= m
                && rect.y as i64 + rect.height as i64 <= m)
        },
        DisplayCommand::DrawText { x, y, text, .. } => {
            let n = text.as_str().unicode_len();
            if n == 0 {
                return true;
            }
            if n > i32::MAX as usize {
                return false;
            }
            *x as i64 + 8 * (n as i64) <= m && *y as i64 + 10 <= m
        },
    }
}

/// `rasterize`, or `None` when the raster has more than `u32::MAX` pixels or a
/// command would leave `i32` coordinates.
pub fn try_rasterize(display_list: &DisplayList, width: u32, height: u32) -> (r: Option<Framebuffer>)
    ensures
        r is None <==> !(width * height <= u32::MAX && forall|i: int|
            0 <= i < display_list.items@.len() ==> command_ok(#[trigger] display_list.items@[i])),
        r matches Some(fb) ==> fb.width == width && fb.height == height && fb.pixels@ == apply_commands(
            Seq::new((width * height) as nat, |i: int| page_background()),
            width as int,
            height as int,
            display_list.items@,
        ),
{
    if width.checked_mul(height).is_none() {
        return None;
    }
    let mut i: usize = 0;
    while i < display_list.items.len()
        invariant
            i <= display_list.items@.len(),
            forall|j: int| 0 <= j < i ==> command_ok(#[trigger] display_list.items@[j]),
        decreases display_list.items.len() - i,
    {
        if !command_check(&display_list.items[i]) {
            return None;
        }
        i = i + 1;
    }
    Some(rasterize(display_list, width, height))
}

} // verus!
