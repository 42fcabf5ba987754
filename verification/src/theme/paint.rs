//! Painting a component: each node's style box (shadow, background, border), its
//! text, and its children, positioned by the node's computed style.
use vstd::prelude::*;
use vstd::utf8::encode_utf8;
use super::{CssDeclBuild, ParsedValue, Shadow, Style, ThemeComponent, ThemeNode};
use super::css::{css_vars, node_style, parse_css_vars, style_for_node};
use crate::keyed::keyed_view;
use vstd::string::StrSliceExecFns;
use super::raster::{
    capped_radius, fill_rounded_rect, in_rounded, on_rounded_outline, painted, rounded_rect_ok,
    stroke_rounded_ok, stroke_rounded_rect, text_painted, draw_text, fill_rect, stroke_rect,
    in_box, on_frame,
};

verus! {

/// Whether `v` is an `i32` value.
pub open spec fn fits(v: int) -> bool {
    i32::MIN <= v <= i32::MAX
}

/// The pixels after `fill_rounded_rect` with these arguments.
pub open spec fn rounded_filled(p: Seq<u32>, stride: int, x: int, y: int, w: int, h: int, radius: int, c: u32) -> Seq<u32> {
    if w <= 0 || h <= 0 {
        p
    } else {
        painted(p, stride, c, in_rounded(x, y, w, h, capped_radius(w, h, radius)))
    }
}

/// The pixels after `stroke_rounded_rect` with these arguments.
pub open spec fn rounded_stroked(p: Seq<u32>, stride: int, x: int, y: int, w: int, h: int, radius: int, c: u32) -> Seq<u32> {
    if w < 2 || h < 2 {
        p
    } else {
        painted(p, stride, c, on_rounded_outline(x, y, w, h, capped_radius(w, h, radius)))
    }
}

/// How many outline layers a shadow is drawn with: its blur, clamped to `2..=8`.
pub open spec fn shadow_layers(s: Shadow) -> int {
    let b: int = if s.blur > 2 { s.blur as int } else { 2 };
    if b < 8 { b } else { 8 }
}

/// The colour of shadow layer `i`: the shadow's colour with its alpha lowered by
/// `18 * i`, and not below zero.
pub open spec fn layer_color(c: u32, i: int) -> u32 {
    let alpha = ((c >> 24u32) & 0xFFu32) as u8;
    let m = (i * 18) as u8;
    let decay: u8 = if m < alpha { m } else { alpha };
    (((alpha - decay) as u32) << 24u32) | (c & 0x00FF_FFFFu32)
}

/// Where layer `i` of a shadow of the box `(x, y, w, h)` lies: moved by the offset
/// and spread, and grown by `i` on every side.
pub open spec fn layer_x(x: int, s: Shadow, i: int) -> int {
    x + s.dx - i + s.spread
}

pub open spec fn layer_y(y: int, s: Shadow, i: int) -> int {
    y + s.dy - i + s.spread
}

/// The pixels after the first `n` layers of the shadow of the box `(x, y, w, h)`
/// with corner radius `r`.
pub open spec fn shadow_painted(p: Seq<u32>, stride: int, x: int, y: int, w: int, h: int, r: int, s: Shadow, n: nat) -> Seq<u32>
    decreases n,
{
    if n == 0 {
        p
    } else {
        let i = n - 1;
        rounded_stroked(
            shadow_painted(p, stride, x, y, w, h, r, s, (n - 1) as nat),
            stride,
            layer_x(x, s, i),
            layer_y(y, s, i),
            w + 2 * i,
            h + 2 * i,
            r + i,
            layer_color(s.color, i),
        )
    }
}

/// The corner radius a style asks for, not below zero.
pub open spec fn box_radius(st: Style) -> int {
    if st.border_radius > 0 { st.border_radius as int } else { 0 }
}

/// The pixels after drawing the style box `(x, y, w, h)`: nothing unless it has
/// area; else its shadow layers, then its background, then its border (when it has
/// a positive width and a colour).
pub open spec fn box_painted(p: Seq<u32>, stride: int, x: int, y: int, w: int, h: int, st: Style) -> Seq<u32> {
    if w <= 0 || h <= 0 {
        p
    } else {
        let r = box_radius(st);
        let p1 = match st.box_shadow {
            Some(s) => shadow_painted(p, stride, x, y, w, h, r, s, shadow_layers(s) as nat),
            None => p,
        };
        let p2 = match st.background {
            Some(bg) => rounded_filled(p1, stride, x, y, w, h, r, bg),
            None => p1,
        };
        match st.border_color {
            Some(bc) => if st.border_width > 0 {
                rounded_stroked(p2, stride, x, y, w, h, r, bc)
            } else {
                p2
            },
            None => p2,
        }
    }
}

/// The integer bounds the drawing of shadow layer `i` needs.
pub open spec fn layer_fits(stride: int, x: int, y: int, w: int, h: int, r: int, s: Shadow, i: int) -> bool {
    &&& fits(x + s.dx) && fits(x + s.dx - i) && fits(layer_x(x, s, i))
    &&& fits(y + s.dy) && fits(y + s.dy - i) && fits(layer_y(y, s, i))
    &&& stroke_rounded_ok(stride, layer_x(x, s, i), layer_y(y, s, i), w + 2 * i, h + 2 * i, r + i)
}

/// The integer bounds drawing the style box `(x, y, w, h)` needs.
pub open spec fn box_fits(stride: int, x: int, y: int, w: int, h: int, st: Style) -> bool {
    w > 0 && h > 0 ==> {
        let r = box_radius(st);
        &&& match st.box_shadow {
            Some(s) => forall|i: int| 0 <= i < shadow_layers(s) ==> #[trigger] layer_fits(stride, x, y, w, h, r, s, i),
            None => true,
        }
        &&& (st.background is Some ==> rounded_rect_ok(stride, x, y, w, h, r))
        &&& (st.border_color is Some && st.border_width > 0 ==> stroke_rounded_ok(stride, x, y, w, h, r))
    }
}

/// Draws the style box `(x, y, w, h)`; see `box_painted`.
pub fn draw_style_box(px: &mut [u32], stride: usize, x: i32, y: i32, w: i32, h: i32, style: &Style)
    requires
        box_fits(stride as int, x as int, y as int, w as int, h as int, *style),
    ensures
        final(px)@ == box_painted(old(px)@, stride as int, x as int, y as int, w as int, h as int, *style),
{
    if w <= 0 || h <= 0 {
        return;
    }
    let ghost p0 = px@;
    let ghost S = stride as int;
    let wu = w as usize;
    let hu = h as usize;
    let radius: usize = if style.border_radius > 0 { style.border_radius as usize } else { 0 };
    let ghost R = box_radius(*style);
    match style.box_shadow {
        Some(shadow) => {
            let b: i32 = if shadow.blur > 2 { shadow.blur } else { 2 };
            let layers: usize = if b < 8 { b as usize } else { 8 };
            let mut i: usize = 0;
            while i < layers
                invariant
                    i <= layers,
                    layers == shadow_layers(shadow),
                    style.box_shadow == Some(shadow),
                    w > 0 && h > 0,
                    wu == w,
                    hu == h,
                    radius == R,
                    R == box_radius(*style),
                    box_fits(S, x as int, y as int, w as int, h as int, *style),
                    S == stride,
                    px@ == shadow_painted(p0, S, x as int, y as int, w as int, h as int, R, shadow, i as nat),
                decreases layers - i,
            {
                assert(style.box_shadow matches Some(s) && s == shadow);
                assert(layer_fits(S, x as int, y as int, w as int, h as int, R, shadow, i as int));
                let alpha = ((shadow.color >> 24) & 0xFF) as u8;
                let m = (i * 18) as u8;
                let decay = if m < alpha { m } else { alpha };
                let layer_color = (((alpha - decay) as u32) << 24) | (shadow.color & 0x00FF_FFFF);
                let ii = i as i32;
                let lx = x + shadow.dx - ii + shadow.spread;
                let ly = y + shadow.dy - ii + shadow.spread;
                stroke_rounded_rect(px, stride, lx, ly, wu + i * 2, hu + i * 2, radius + i, layer_color);
                i = i + 1;
            }
        },
        None => {},
    }
    match style.background {
        Some(bg) => {
            fill_rounded_rect(px, stride, x, y, wu, hu, radius, bg);
        },
        None => {},
    }
    if style.border_width > 0 {
        match style.border_color {
            Some(border) => {
                stroke_rounded_rect(px, stride, x, y, wu, hu, radius, border);
            },
            None => {},
        }
    }
}

} // verus!

verus! {

/// The computed style of a node under a component's declarations and their
/// value readings.
pub open spec fn sty(node: ThemeNode, ds: Seq<CssDeclBuild>, vs: Seq<ParsedValue>) -> Style {
    node_style(node, ds, vs, css_vars(ds))
}

/// Whether the node has text of its own.
pub open spec fn has_text(node: ThemeNode) -> bool {
    node.text@.len() > 0
}

/// The height of a line of text: the line height, and at least the font's.
pub open spec fn text_line(st: Style) -> int {
    if st.line_height > 7 { st.line_height as int } else { 7 }
}

/// The height a box of one line of text asks for: a line and the padding.
pub open spec fn text_box_h(st: Style) -> int {
    text_line(st) + st.padding * 2
}

/// The width a node takes: its own, else its parent's.
pub open spec fn used_w(st: Style, pw: int) -> int {
    if st.width > 0 { st.width as int } else { pw }
}

/// The height a node takes: its own, else that of its line of text, else its
/// parent's.
pub open spec fn used_h(st: Style, text: bool, ph: int) -> int {
    if st.height > 0 {
        st.height as int
    } else if text && text_box_h(st) > 0 {
        text_box_h(st)
    } else {
        ph
    }
}

/// The padding, not below zero.
pub open spec fn pad0(st: Style) -> int {
    if st.padding > 0 { st.padding as int } else { 0 }
}

/// A length less the padding on both sides, not below zero.
pub open spec fn inner(len: int, st: Style) -> int {
    let v = len - st.padding * 2;
    if v > 0 { v } else { 0 }
}

/// Half of what `inner` leaves of `outer`, not below zero.
pub open spec fn half_gap(outer: int, inner: int) -> int {
    let d = outer - inner;
    if d > 0 { d / 2 } else { 0 }
}

/// Where a node lies: its origin and size, and its content box.
pub struct Place {
    pub ox: int,
    pub oy: int,
    pub w: int,
    pub h: int,
    pub cx: int,
    pub cy: int,
    pub cw: int,
    pub ch: int,
}

/// The place of a node with style `st` drawn at `(x, y)` in a parent box `pw x ph`.
pub open spec fn place(st: Style, text: bool, x: int, y: int, pw: int, ph: int) -> Place {
    let w = used_w(st, pw);
    let h = used_h(st, text, ph);
    let ox = x + st.left;
    let oy = y + st.top;
    Place { ox, oy, w, h, cx: ox + pad0(st), cy: oy + pad0(st), cw: inner(w, st), ch: inner(h, st) }
}

/// The colour of a node's text: the style's, else near-black.
pub open spec fn text_color(st: Style) -> u32 {
    match st.color {
        Some(c) => c,
        None => 0xFF1D_1D1Fu32,
    }
}

/// The width a text is taken to have: 6 pixels a character.
pub open spec fn text_width(s: Seq<char>) -> int {
    (s.len() * 6) as int
}

/// Where a node's text starts: the content box's corner, centred along an axis
/// that a flex container centres.
pub open spec fn text_x(st: Style, pl: Place, node: ThemeNode) -> int {
    if st.display_flex && st.justify_center {
        pl.cx + half_gap(pl.cw, text_width(node.text@))
    } else {
        pl.cx
    }
}

pub open spec fn text_y(st: Style, pl: Place) -> int {
    if st.display_flex && st.align_center {
        pl.cy + half_gap(pl.ch, text_line(st))
    } else {
        pl.cy
    }
}

/// The bytes a node's text is drawn with.
pub open spec fn text_bytes(node: ThemeNode) -> Seq<u8> {
    encode_utf8(node.text@)
}

/// The width and height a child in the flow takes inside the content box.
pub open spec fn child_w(cs: Style, pl: Place) -> int {
    used_w(cs, pl.cw)
}

pub open spec fn child_h(cs: Style, text: bool, pl: Place) -> int {
    if cs.height > 0 {
        cs.height as int
    } else if text {
        text_box_h(cs)
    } else {
        pl.ch
    }
}

/// Where a child in the flow is drawn: at the content box's left and at the flow
/// position, centred along an axis that a flex container centres.
pub open spec fn child_x(st: Style, cs: Style, pl: Place) -> int {
    if st.display_flex && st.justify_center {
        pl.cx + half_gap(pl.cw, child_w(cs, pl))
    } else {
        pl.cx
    }
}

pub open spec fn child_y(st: Style, cs: Style, text: bool, pl: Place, flow: int) -> int {
    if st.display_flex && st.align_center {
        pl.cy + half_gap(pl.ch, child_h(cs, text, pl))
    } else {
        flow
    }
}

/// How far a child moves the flow position down: nothing for an absolutely
/// positioned child or inside a flex container; else its height (7 when not
/// positive) and its bottom margin.
pub open spec fn flow_step(st: Style, cs: Style, text: bool, pl: Place) -> int {
    if cs.position_absolute || st.display_flex {
        0
    } else {
        let hh = child_h(cs, text, pl);
        (if hh <= 0 { 7 } else { hh }) + (if cs.margin_bottom > 0 { cs.margin_bottom as int } else { 0 })
    }
}

/// The flow position before child `k`.
pub open spec fn flow_at(node: ThemeNode, ds: Seq<CssDeclBuild>, vs: Seq<ParsedValue>, st: Style, pl: Place, k: nat) -> int
    decreases k,
{
    if k == 0 {
        pl.cy
    } else {
        let c = node.children@[k - 1];
        flow_at(node, ds, vs, st, pl, (k - 1) as nat) + flow_step(st, sty(c, ds, vs), has_text(c), pl)
    }
}

/// The box child `j` is drawn in, as `(x, y, width, height)`: an absolutely
/// positioned child gets the node's own box.
pub open spec fn child_box(node: ThemeNode, ds: Seq<CssDeclBuild>, vs: Seq<ParsedValue>, st: Style, pl: Place, j: int) -> (int, int, int, int) {
    let c = node.children@[j];
    let cs = sty(c, ds, vs);
    if cs.position_absolute {
        (pl.ox, pl.oy, pl.w, pl.h)
    } else {
        (
            child_x(st, cs, pl),
            child_y(st, cs, has_text(c), pl, flow_at(node, ds, vs, st, pl, j as nat)),
            child_w(cs, pl),
            child_h(cs, has_text(c), pl),
        )
    }
}

/// The pixels after drawing a node at `(x, y)` in a parent box `pw x ph`: its
/// style box, then its text, then its children in order.
pub open spec fn node_painted(
    p: Seq<u32>,
    stride: int,
    node: ThemeNode,
    ds: Seq<CssDeclBuild>,
    vs: Seq<ParsedValue>,
    x: int,
    y: int,
    pw: int,
    ph: int,
) -> Seq<u32>
    decreases node, node.children@.len() + 1,
{
    let st = sty(node, ds, vs);
    let pl = place(st, has_text(node), x, y, pw, ph);
    let p1 = box_painted(p, stride, pl.ox, pl.oy, pl.w, pl.h, st);
    let p2 = if has_text(node) {
        text_painted(p1, stride, text_x(st, pl, node), text_y(st, pl), text_bytes(node), text_color(st), text_bytes(node).len())
    } else {
        p1
    };
    children_painted(p2, stride, node, ds, vs, st, pl, node.children@.len())
}

/// The pixels after drawing the first `k` children of a node.
pub open spec fn children_painted(
    p: Seq<u32>,
    stride: int,
    node: ThemeNode,
    ds: Seq<CssDeclBuild>,
    vs: Seq<ParsedValue>,
    st: Style,
    pl: Place,
    k: nat,
) -> Seq<u32>
    decreases node, k,
{
    if k == 0 || k > node.children@.len() {
        p
    } else {
        let prev = children_painted(p, stride, node, ds, vs, st, pl, (k - 1) as nat);
        let b = child_box(node, ds, vs, st, pl, k - 1);
        node_painted(prev, stride, node.children@[k - 1], ds, vs, b.0, b.1, b.2, b.3)
    }
}

/// A flex container that centres along the main axis starts its text half the
/// room its content box leaves past the text to the right of the content box's
/// left edge (text is 6 pixels a character; no room, no shift): with
/// `justify-content: center`, "OK" in a 40-wide box starts 14 pixels in.
pub proof fn lemma_flex_text_centred(st: Style, pl: Place, node: ThemeNode)
    requires
        st.display_flex,
        st.justify_center,
    ensures
        text_x(st, pl, node) == pl.cx + (if pl.cw > 6 * node.text@.len() { (pl.cw - 6 * node.text@.len()) / 2 } else { 0 }),
        text_x(st, pl, node) >= pl.cx,
        text_x(st, pl, node) + 6 * node.text@.len() <= pl.cx + pl.cw || text_x(st, pl, node) == pl.cx,
{
}

/// A flex container that centres across the main axis places its line of text
/// half the room its content box leaves below the line down from the content
/// box's top (a line is the line height, at least 7 pixels); otherwise the text
/// starts at the content box's top.
pub proof fn lemma_flex_text_middle(st: Style, pl: Place)
    ensures
        st.display_flex && st.align_center ==> text_y(st, pl) == pl.cy + (if pl.ch > (if st.line_height > 7 { st.line_height as int } else { 7 }) {
            (pl.ch - (if st.line_height > 7 { st.line_height as int } else { 7 })) / 2
        } else {
            0
        }),
        !(st.display_flex && st.align_center) ==> text_y(st, pl) == pl.cy,
{
}

/// Children of a centring flex container start half the room the content box
/// leaves past them to the right of its left edge; other children in the flow
/// start at the left edge.
pub proof fn lemma_child_x(st: Style, cs: Style, pl: Place)
    ensures
        st.display_flex && st.justify_center ==> child_x(st, cs, pl) == pl.cx + (if pl.cw > child_w(cs, pl) {
            (pl.cw - child_w(cs, pl)) / 2
        } else {
            0
        }),
        !(st.display_flex && st.justify_center) ==> child_x(st, cs, pl) == pl.cx,
        child_w(cs, pl) == if cs.width > 0 { cs.width as int } else { pl.cw },
{
}

/// Outside a centring flex container, a node's text starts at the left edge of
/// its content box.
pub proof fn lemma_text_at_content_left(st: Style, pl: Place, node: ThemeNode)
    requires
        !(st.display_flex && st.justify_center),
    ensures
        text_x(st, pl, node) == pl.cx,
{
}

/// Drawing a leaf node with text in a centring flex style paints its box, then its
/// text starting at `x + left + padding + max(content width - 6 * characters, 0) / 2`,
/// where the content width is the node's width (its own, else the parent's) less
/// the padding on both sides, not below zero.
pub proof fn lemma_leaf_text_centred(
    p: Seq<u32>,
    stride: int,
    node: ThemeNode,
    ds: Seq<CssDeclBuild>,
    vs: Seq<ParsedValue>,
    x: int,
    y: int,
    pw: int,
    ph: int,
)
    requires
        sty(node, ds, vs).display_flex,
        sty(node, ds, vs).justify_center,
        node.text@.len() > 0,
        node.children@.len() == 0,
    ensures
        ({
            let st = sty(node, ds, vs);
            let w = if st.width > 0 { st.width as int } else { pw };
            let pad = if st.padding > 0 { st.padding as int } else { 0 };
            let cw = if w - st.padding * 2 > 0 { w - st.padding * 2 } else { 0 };
            let n = 6 * node.text@.len();
            let tx = x + st.left + pad + (if cw > n { (cw - n) / 2 } else { 0 });
            let pl = place(st, true, x, y, pw, ph);
            node_painted(p, stride, node, ds, vs, x, y, pw, ph) == text_painted(
                box_painted(p, stride, x + st.left, y + st.top, w, pl.h, st),
                stride,
                tx,
                text_y(st, pl),
                text_bytes(node),
                text_color(st),
                text_bytes(node).len(),
            )
        }),
{
    let st = sty(node, ds, vs);
    let pl = place(st, true, x, y, pw, ph);
    lemma_flex_text_centred(st, pl, node);
}

} // verus!

verus! {

/// The integer bounds placing and drawing a node's text needs.
pub open spec fn text_fits(st: Style, pl: Place, node: ThemeNode) -> bool {
    &&& (st.display_flex && st.justify_center ==> {
        &&& node.text@.len() <= i32::MAX
        &&& fits(text_width(node.text@))
        &&& fits(pl.cw - text_width(node.text@))
        &&& fits(text_x(st, pl, node))
    })
    &&& (st.display_flex && st.align_center ==> fits(pl.ch - text_line(st)) && fits(text_y(st, pl)))
    &&& text_x(st, pl, node) + 6 * text_bytes(node).len() <= i32::MAX
    &&& text_y(st, pl) + 6 <= i32::MAX
}

/// The integer bounds placing child `j` in the flow needs.
pub open spec fn child_fits(node: ThemeNode, ds: Seq<CssDeclBuild>, vs: Seq<ParsedValue>, st: Style, pl: Place, j: int) -> bool {
    let c = node.children@[j];
    let cs = sty(c, ds, vs);
    let t = has_text(c);
    !cs.position_absolute ==> {
        &&& (cs.height <= 0 && t ==> fits(cs.padding * 2) && fits(text_box_h(cs)))
        &&& (st.display_flex && st.justify_center ==> fits(pl.cw - child_w(cs, pl)) && fits(child_x(st, cs, pl)))
        &&& (st.display_flex && st.align_center ==> fits(pl.ch - child_h(cs, t, pl)) && fits(
            child_y(st, cs, t, pl, flow_at(node, ds, vs, st, pl, j as nat)),
        ))
        &&& (!st.display_flex ==> fits(flow_step(st, cs, t, pl)) && fits(
            flow_at(node, ds, vs, st, pl, (j + 1) as nat),
        ))
    }
}

/// The integer bounds drawing a node at `(x, y)` in a parent box `pw x ph` needs,
/// for the node and all below it: every value the drawing computes is an `i32`.
pub open spec fn node_fits(
    stride: int,
    node: ThemeNode,
    ds: Seq<CssDeclBuild>,
    vs: Seq<ParsedValue>,
    x: int,
    y: int,
    pw: int,
    ph: int,
) -> bool
    decreases node,
{
    let st = sty(node, ds, vs);
    let pl = place(st, has_text(node), x, y, pw, ph);
    &&& fits(st.padding * 2)
    &&& (has_text(node) ==> fits(text_box_h(st)))
    &&& fits(pl.ox) && fits(pl.oy)
    &&& box_fits(stride, pl.ox, pl.oy, pl.w, pl.h, st)
    &&& fits(pl.cx) && fits(pl.cy) && fits(pl.w - st.padding * 2) && fits(pl.h - st.padding * 2)
    &&& (has_text(node) ==> text_fits(st, pl, node))
    &&& forall|j: int| 0 <= j < node.children@.len() ==> #[trigger] child_fits(node, ds, vs, st, pl, j)
    &&& forall|j: int|
        0 <= j < node.children@.len() ==> {
            let b = child_box(node, ds, vs, st, pl, j);
            node_fits(stride, #[trigger] node.children@[j], ds, vs, b.0, b.1, b.2, b.3)
        }
}

fn estimate_text_width(s: &str) -> (w: i32)
    requires
        s@.len() <= i32::MAX,
        fits(text_width(s@)),
    ensures
        w == text_width(s@),
{
    (s.unicode_len() as i32) * 6
}

/// Draws a node and all below it; see `node_painted`.
pub fn draw_node(
    px: &mut [u32],
    stride: usize,
    node: &ThemeNode,
    decls: &Vec<CssDeclBuild>,
    values: &Vec<ParsedValue>,
    vars: &Vec<(String, String)>,
    x: i32,
    y: i32,
    parent_w: i32,
    parent_h: i32,
)
    requires
        stride > 0,
        values@.len() == decls@.len(),
        keyed_view(vars@) == css_vars(decls@),
        node_fits(stride as int, *node, decls@, values@, x as int, y as int, parent_w as int, parent_h as int),
    ensures
        final(px)@ == node_painted(old(px)@, stride as int, *node, decls@, values@, x as int, y as int, parent_w as int, parent_h as int),
    decreases node,
{
    let ghost S = stride as int;
    let ghost ds = decls@;
    let ghost vs = values@;
    let style = style_for_node(node, decls, values, vars);
    let ghost st = style;
    let texted = !node.text.as_str().is_empty();
    let ghost pl = place(st, has_text(*node), x as int, y as int, parent_w as int, parent_h as int);
    let line: i32 = if style.line_height > 7 { style.line_height } else { 7 };
    let w = if style.width > 0 { style.width } else { parent_w };
    let auto_text_h: i32 = if texted { line + style.padding * 2 } else { 0 };
    let h = if style.height > 0 {
        style.height
    } else if auto_text_h > 0 {
        auto_text_h
    } else {
        parent_h
    };
    let origin_x = x + style.left;
    let origin_y = y + style.top;
    if w > 0 && h > 0 {
        draw_style_box(px, stride, origin_x, origin_y, w, h, &style);
    }
    let pad: i32 = if style.padding > 0 { style.padding } else { 0 };
    let content_x = origin_x + pad;
    let content_y = origin_y + pad;
    let cw0 = w - style.padding * 2;
    let content_w = if cw0 > 0 { cw0 } else { 0 };
    let ch0 = h - style.padding * 2;
    let content_h = if ch0 > 0 { ch0 } else { 0 };
    assert(pl == (Place { ox: origin_x as int, oy: origin_y as int, w: w as int, h: h as int, cx: content_x as int, cy: content_y as int, cw: content_w as int, ch: content_h as int }));
    if texted {
        let mut tx = content_x;
        let mut ty = content_y;
        if style.display_flex && style.justify_center {
            let tw = estimate_text_width(node.text.as_str());
            let d = content_w - tw;
            tx = content_x + (if d > 0 { d } else { 0 }) / 2;
        }
        if style.display_flex && style.align_center {
            let d = content_h - line;
            ty = content_y + (if d > 0 { d } else { 0 }) / 2;
        }
        let color = match style.color {
            Some(c) => c,
            None => 0xFF1D_1D1F,
        };
        draw_text(px, stride, tx, ty, node.text.as_str(), color);
    }
    let ghost p2 = px@;
    let mut flow_y = content_y;
    let mut i: usize = 0;
    while i < node.children.len()
        invariant
            i <= node.children@.len(),
            S == stride,
            S > 0,
            ds == decls@,
            vs == values@,
            values@.len() == decls@.len(),
            keyed_view(vars@) == css_vars(decls@),
            st == style,
            st == sty(*node, ds, vs),
            pl == place(st, has_text(*node), x as int, y as int, parent_w as int, parent_h as int),
            pl == (Place { ox: origin_x as int, oy: origin_y as int, w: w as int, h: h as int, cx: content_x as int, cy: content_y as int, cw: content_w as int, ch: content_h as int }),
            node_fits(S, *node, ds, vs, x as int, y as int, parent_w as int, parent_h as int),
            flow_y == flow_at(*node, ds, vs, st, pl, i as nat),
            px@ == children_painted(p2, S, *node, ds, vs, st, pl, i as nat),
        decreases node.children.len() - i,
    {
        let child = &node.children[i];
        assert(child_fits(*node, ds, vs, st, pl, i as int));
        let ghost b = child_box(*node, ds, vs, st, pl, i as int);
        assert(node_fits(S, node.children@[i as int], ds, vs, b.0, b.1, b.2, b.3));
        let child_style = style_for_node(child, decls, values, vars);
        if child_style.position_absolute {
            draw_node(px, stride, child, decls, values, vars, origin_x, origin_y, w, h);
        } else {
            let child_text = !child.text.as_str().is_empty();
            let child_w = if child_style.width > 0 { child_style.width } else { content_w };
            let mut child_h = if child_style.height > 0 {
                child_style.height
            } else if child_text {
                let cl: i32 = if child_style.line_height > 7 { child_style.line_height } else { 7 };
                cl + child_style.padding * 2
            } else {
                content_h
            };
            let mut child_x = content_x;
            let mut child_y = flow_y;
            if style.display_flex {
                if style.justify_center {
                    let d = content_w - child_w;
                    child_x = content_x + (if d > 0 { d } else { 0 }) / 2;
                }
                if style.align_center {
                    let d = content_h - child_h;
                    child_y = content_y + (if d > 0 { d } else { 0 }) / 2;
                }
            }
            draw_node(px, stride, child, decls, values, vars, child_x, child_y, child_w, child_h);
            if !style.display_flex {
                if child_h <= 0 {
                    child_h = 7;
                }
                let m: i32 = if child_style.margin_bottom > 0 { child_style.margin_bottom } else { 0 };
                flow_y = flow_y + (child_h + m);
            }
        }
        i = i + 1;
    }
}

} // verus!

verus! {

/// The pixels after drawing a component into the box `(x, y, w, h)`: its root
/// drawn from the box's corner moved by the root's `left` and `top`, in a box of
/// the root's own size where it sets one and the given size otherwise.
pub open spec fn component_painted(p: Seq<u32>, stride: int, comp: ThemeComponent, x: int, y: int, w: int, h: int) -> Seq<u32> {
    let ds = comp.declarations@;
    let vs = comp.values@;
    let st = sty(comp.root, ds, vs);
    node_painted(
        p,
        stride,
        comp.root,
        ds,
        vs,
        x + st.left,
        y + st.top,
        used_w(st, w),
        if st.height > 0 { st.height as int } else { h },
    )
}

/// What drawing a component into the box `(x, y, w, h)` needs: a reading for each
/// declaration, and every value the drawing computes an `i32`.
pub open spec fn component_fits(stride: int, comp: ThemeComponent, x: int, y: int, w: int, h: int) -> bool {
    let ds = comp.declarations@;
    let vs = comp.values@;
    let st = sty(comp.root, ds, vs);
    &&& vs.len() == ds.len()
    &&& fits(x + st.left)
    &&& fits(y + st.top)
    &&& node_fits(stride, comp.root, ds, vs, x + st.left, y + st.top, used_w(st, w), if st.height > 0 { st.height as int } else { h })
}

/// Draws a component into the box `(x, y, w, h)`; see `component_painted`.
pub fn render_component_into(px: &mut [u32], stride: usize, comp: &ThemeComponent, x: i32, y: i32, w: i32, h: i32)
    requires
        stride > 0,
        component_fits(stride as int, *comp, x as int, y as int, w as int, h as int),
    ensures
        final(px)@ == component_painted(old(px)@, stride as int, *comp, x as int, y as int, w as int, h as int),
{
    let vars = parse_css_vars(&comp.declarations);
    let root_style = style_for_node(&comp.root, &comp.declarations, &comp.values, &vars);
    let root_w = if root_style.width > 0 { root_style.width } else { w };
    let root_h = if root_style.height > 0 { root_style.height } else { h };
    draw_node(
        px,
        stride,
        &comp.root,
        &comp.declarations,
        &comp.values,
        &vars,
        x + root_style.left,
        y + root_style.top,
        root_w,
        root_h,
    );
}

pub const BG: u32 = 0xFF1B_1E28;

pub const PANEL: u32 = 0xFF22_2633;

pub const PANEL_BORDER: u32 = 0xFF4C_556E;

pub const TITLE: u32 = 0xFFE8_ECF7;

pub const ROW_TEXT: u32 = 0xFFCB_D4EA;

pub const PREVIEW_BG: u32 = 0xFF20_2532;

/// The frame before any component: the background, the panel and its outline
/// (12 pixels in from every edge), and the title.
pub open spec fn frame_base(width: int, height: int) -> Seq<u32> {
    let p0 = Seq::new((width * height) as nat, |i: int| BG);
    let pw = if width > 24 { width - 24 } else { 0 };
    let ph = if height > 24 { height - 24 } else { 0 };
    let p1 = painted(p0, width, PANEL, in_box(12, 12, pw, ph));
    let p2 = if pw >= 2 && ph >= 2 { painted(p1, width, PANEL_BORDER, on_frame(12, 12, pw, ph)) } else { p1 };
    let t = encode_utf8("VIEWKIT RUNTIME THEME RENDER"@);
    text_painted(p2, width, 24, 24, t, TITLE, t.len())
}

/// The top of the preview of component `k`.
pub open spec fn row_y(k: int) -> int {
    56 + 138 * k
}

/// Whether component `k` is drawn: the first always, a later one when its preview
/// ends at least 16 pixels above the bottom.
pub open spec fn row_drawn(height: int, k: int) -> bool {
    k == 0 || row_y(k) + 120 <= height - 16
}

/// The pixels after drawing component `k`'s row: its name 10 pixels above its
/// preview, the preview's 160 x 120 background and outline, and the component.
pub open spec fn row_painted(p: Seq<u32>, width: int, comp: ThemeComponent, k: int) -> Seq<u32> {
    let y = row_y(k);
    let name = encode_utf8(comp.name@);
    let p1 = text_painted(p, width, 24, y - 10, name, ROW_TEXT, name.len());
    let p2 = painted(p1, width, PREVIEW_BG, in_box(24, y, 160, 120));
    let p3 = painted(p2, width, PANEL_BORDER, on_frame(24, y, 160, 120));
    component_painted(p3, width, comp, 24, y, 160, 120)
}

/// The pixels after the rows of the first `k` components, each drawn when
/// `row_drawn` says so.
pub open spec fn rows_painted(p: Seq<u32>, width: int, height: int, comps: Seq<ThemeComponent>, k: nat) -> Seq<u32>
    decreases k,
{
    if k == 0 {
        p
    } else {
        let prev = rows_painted(p, width, height, comps, (k - 1) as nat);
        if row_drawn(height, k - 1) {
            row_painted(prev, width, comps[k - 1], k - 1)
        } else {
            prev
        }
    }
}

/// The preview frame of a theme's components: none without components.
pub open spec fn theme_frame(width: int, height: int, comps: Seq<ThemeComponent>) -> Option<Seq<u32>> {
    if comps.len() == 0 {
        None
    } else {
        Some(rows_painted(frame_base(width, height), width, height, comps, comps.len()))
    }
}

/// What drawing component `k`'s row needs.
pub open spec fn row_fits(width: int, comp: ThemeComponent, k: int) -> bool {
    &&& 24 + 6 * encode_utf8(comp.name@).len() <= i32::MAX
    &&& component_fits(width, comp, 24, row_y(k), 160, 120)
}

/// What building a frame needs: a non-empty frame whose size fits the machine and
/// `i32` coordinates, rows that can be drawn, and, after each drawn row, the
/// bottom of the next preview still an `i32`.
pub open spec fn frame_fits(width: int, height: int, comps: Seq<ThemeComponent>) -> bool {
    &&& 0 < width <= i32::MAX
    &&& 0 <= height <= i32::MAX
    &&& width * height <= usize::MAX
    &&& forall|k: int| 0 <= k < comps.len() && row_drawn(height, k) ==> row_fits(width, #[trigger] comps[k], k)
    &&& forall|k: int| 0 <= k < comps.len() && #[trigger] row_drawn(height, k) ==> row_y(k) + 258 <= i32::MAX
}

/// Once a row is not drawn, no later row is.
pub proof fn lemma_rows_stop(p: Seq<u32>, width: int, height: int, comps: Seq<ThemeComponent>, a: nat, b: nat)
    requires
        1 <= a <= b,
        !row_drawn(height, a as int),
    ensures
        rows_painted(p, width, height, comps, b) == rows_painted(p, width, height, comps, a),
    decreases b,
{
    if b > a {
        lemma_rows_stop(p, width, height, comps, a, (b - 1) as nat);
        assert(!row_drawn(height, b - 1));
    }
}

/// Renders the preview frame of a theme's components, `width x height` pixels row
/// by row; see `theme_frame`.
pub fn build_runtime_theme_frame(width: usize, height: usize, components: &Vec<ThemeComponent>) -> (r: Option<Vec<u32>>)
    requires
        components@.len() > 0 ==> frame_fits(width as int, height as int, components@),
    ensures
        match r {
            Some(v) => theme_frame(width as int, height as int, components@) == Some(v@),
            None => theme_frame(width as int, height as int, components@) is None,
        },
{
    if components.len() == 0 {
        return None;
    }
    let ghost W = width as int;
    let ghost H = height as int;
    let mut px = vec![BG; width * height];
    assert(px@ =~= Seq::new((W * H) as nat, |i: int| BG));
    fill_rect(&mut px, width, 12, 12, width.saturating_sub(24), height.saturating_sub(24), PANEL);
    stroke_rect(&mut px, width, 12, 12, width.saturating_sub(24), height.saturating_sub(24), PANEL_BORDER);
    let title = "VIEWKIT RUNTIME THEME RENDER";
    proof {
        reveal_strlit("VIEWKIT RUNTIME THEME RENDER");
        vstd::utf8::is_ascii_chars_encode_utf8(title@);
    }
    draw_text(&mut px, width, 24, 24, title, TITLE);
    let ghost base = px@;
    assert(base == frame_base(W, H));
    let mut y: i32 = 56;
    let mut i: usize = 0;
    let n = components.len();
    while i < n
        invariant_except_break
            i <= n,
            i == 0 || row_drawn(H, i as int),
        invariant
            n == components@.len(),
            W == width,
            H == height,
            frame_fits(W, H, components@),
            y == row_y(i as int),
            px@ == rows_painted(base, W, H, components@, i as nat),
        ensures
            i == n || (1 <= i <= n && !row_drawn(H, i as int)),
        decreases n - i,
    {
        let comp = &components[i];
        assert(row_fits(W, components@[i as int], i as int));
        draw_text(&mut px, width, 24, y - 10, comp.name.as_str(), ROW_TEXT);
        fill_rect(&mut px, width, 24, y, 160, 120, PREVIEW_BG);
        stroke_rect(&mut px, width, 24, y, 160, 120, PANEL_BORDER);
        render_component_into(&mut px, width, comp, 24, y, 160, 120);
        y = y + 138;
        i = i + 1;
        let limit = height as i32 - 16;
        if y + 120 > limit {
            break;
        }
    }
    proof {
        if i < n {
            lemma_rows_stop(base, W, H, components@, i as nat, n as nat);
        }
    }
    Some(px)
}

} // verus!
