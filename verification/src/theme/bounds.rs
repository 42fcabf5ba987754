//! Deciding, before drawing, whether drawing a theme's preview frame keeps every
//! value it computes an `i32` (past that the drawing overflows, and panics).
use vstd::prelude::*;
use vstd::utf8::encode_utf8;
use vstd::string::{StrSliceExecFns, StringSliceAdditionalSpecFns};
use super::{CssDeclBuild, ParsedValue, Style, ThemeComponent, ThemeNode};
use super::css::{css_vars, parse_css_vars, style_for_node};
use super::paint::{
    box_fits, box_radius, build_runtime_theme_frame, child_box, child_fits, child_h, child_w, child_x, child_y,
    component_fits, fits, flow_at, flow_step, frame_fits, has_text, layer_fits, layer_x, layer_y, node_fits, place,
    row_drawn, row_fits, row_y, shadow_layers, sty, text_box_h, text_bytes, text_fits, text_line,
    text_x, text_y, theme_frame, used_w, Place,
};
use super::raster::{capped_radius, rounded_rect_ok, stroke_rounded_ok};
use crate::keyed::keyed_view;

verus! {

fn fits64(v: i64) -> (b: bool)
    ensures
        b == fits(v as int),
{
    i32::MIN as i64 <= v && v <= i32::MAX as i64
}

/// `v` lies within `2^40` of zero.
pub open spec fn small(v: int) -> bool {
    -0x100_0000_0000 <= v <= 0x100_0000_0000
}

fn capped(w: i64, h: i64, radius: i64) -> (c: i64)
    requires
        w >= 0,
        h >= 0,
    ensures
        c == capped_radius(w as int, h as int, radius as int),
{
    let a = if radius < w / 2 { radius } else { w / 2 };
    if a < h / 2 { a } else { h / 2 }
}

fn stroke_ok(stride: usize, x: i64, y: i64, w: i64, h: i64, radius: i64) -> (b: bool)
    requires
        small(x as int),
        small(y as int),
        small(w as int),
        small(h as int),
    ensures
        b == stroke_rounded_ok(stride as int, x as int, y as int, w as int, h as int, radius as int),
{
    if !(w >= 2 && h >= 2) {
        return true;
    }
    let m = i32::MAX as i64;
    stride > 0 && w <= m && h <= m && x + w - 1 <= m && y + h - 1 <= m && capped(w, h, radius) <= 32768
}

fn fill_ok(stride: usize, x: i64, y: i64, w: i64, h: i64, radius: i64) -> (b: bool)
    requires
        small(x as int),
        small(y as int),
        small(w as int),
        small(h as int),
    ensures
        b == rounded_rect_ok(stride as int, x as int, y as int, w as int, h as int, radius as int),
{
    if !(w > 0 && h > 0) {
        return true;
    }
    let m = i32::MAX as i64;
    stride > 0 && w <= m && h <= m && x + w - 1 <= m && y + h - 1 <= m && capped(w, h, radius) <= 32768
}

/// See `box_fits`.
fn box_check(stride: usize, x: i32, y: i32, w: i32, h: i32, st: &Style) -> (b: bool)
    ensures
        b == box_fits(stride as int, x as int, y as int, w as int, h as int, *st),
{
    if w <= 0 || h <= 0 {
        return true;
    }
    let r: i64 = if st.border_radius > 0 { st.border_radius as i64 } else { 0 };
    assert(r == box_radius(*st));
    let shadow_ok = match st.box_shadow {
        Some(s) => {
            let b0: i64 = if s.blur > 2 { s.blur as i64 } else { 2 };
            let n: i64 = if b0 < 8 { b0 } else { 8 };
            assert(n == shadow_layers(s));
            let mut ok = true;
            let mut i: i64 = 0;
            while i < n
                invariant
                    0 <= i <= n <= 8,
                    0 <= r <= i32::MAX,
                    n == shadow_layers(s),
                    ok == forall|k: int| 0 <= k < i ==> #[trigger] layer_fits(stride as int, x as int, y as int, w as int, h as int, r as int, s, k),
                decreases n - i,
            {
                let ax = x as i64 + s.dx as i64;
                let ay = y as i64 + s.dy as i64;
                let lx = ax - i + s.spread as i64;
                let ly = ay - i + s.spread as i64;
                assert(lx == layer_x(x as int, s, i as int));
                assert(ly == layer_y(y as int, s, i as int));
                let here = fits64(ax) && fits64(ax - i) && fits64(lx) && fits64(ay) && fits64(ay - i) && fits64(ly)
                    && stroke_ok(stride, lx, ly, w as i64 + 2 * i, h as i64 + 2 * i, r + i);
                assert(here == layer_fits(stride as int, x as int, y as int, w as int, h as int, r as int, s, i as int));
                ok = ok && here;
                i = i + 1;
            }
            ok
        },
        None => true,
    };
    if !shadow_ok {
        return false;
    }
    if st.background.is_some() && !fill_ok(stride, x as i64, y as i64, w as i64, h as i64, r) {
        return false;
    }
    if st.border_color.is_some() && st.border_width > 0 && !stroke_ok(stride, x as i64, y as i64, w as i64, h as i64, r) {
        return false;
    }
    true
}

fn half_gap64(outer: i64, inner: i64) -> (g: i64)
    requires
        small(outer as int),
        small(inner as int),
    ensures
        g == super::paint::half_gap(outer as int, inner as int),
{
    let d = outer - inner;
    if d > 0 { d / 2 } else { 0 }
}

/// See `text_fits`.
fn text_check(st: &Style, pl: Ghost<Place>, cx: i32, cy: i32, cw: i32, ch: i32, node: &ThemeNode) -> (b: bool)
    requires
        pl@.cx == cx,
        pl@.cy == cy,
        pl@.cw == cw,
        pl@.ch == ch,
    ensures
        b == text_fits(*st, pl@, *node),
{
    let m = i32::MAX as i64;
    let flex_x = st.display_flex && st.justify_center;
    let flex_y = st.display_flex && st.align_center;
    let mut tx: i64 = cx as i64;
    if flex_x {
        let len = node.text.as_str().unicode_len();
        if len > i32::MAX as usize {
            return false;
        }
        let tw: i64 = len as i64 * 6;
        if !fits64(tw) || !fits64(cw as i64 - tw) {
            return false;
        }
        tx = cx as i64 + half_gap64(cw as i64, tw);
        if !fits64(tx) {
            return false;
        }
    }
    assert(tx == text_x(*st, pl@, *node));
    let line: i64 = if st.line_height > 7 { st.line_height as i64 } else { 7 };
    assert(line == text_line(*st));
    let mut ty: i64 = cy as i64;
    if flex_y {
        if !fits64(ch as i64 - line) {
            return false;
        }
        ty = cy as i64 + half_gap64(ch as i64, line);
        if !fits64(ty) {
            return false;
        }
    }
    assert(ty == text_y(*st, pl@));
    let text = node.text.as_str();
    let bytes = text.as_bytes();
    let nb = bytes.len();
    assert(text@ == node.text@);
    assert(nb == bytes@.len());
    assert(text.spec_bytes() == encode_utf8(text@));
    assert(nb == text_bytes(*node).len());
    let room: i64 = m - tx;
    let fits_x = nb as u64 <= (room / 6) as u64;
    assert(fits_x == (tx + 6 * nb <= m)) by (nonlinear_arith)
        requires
            room == m - tx,
            room >= 0,
            fits_x == (nb <= room / 6),
    ;
    fits_x && ty + 6 <= m
}

/// Where child `j` of a node is drawn, and the flow position after it; `None`
/// when placing it leaves `i32`. See `child_fits` and `child_box`.
fn child_place(
    node: &ThemeNode,
    decls: &Vec<CssDeclBuild>,
    values: &Vec<ParsedValue>,
    vars: &Vec<(String, String)>,
    style: &Style,
    pl: Ghost<Place>,
    ox: i64,
    oy: i64,
    w: i64,
    h: i64,
    cx: i64,
    cy: i64,
    cw: i64,
    ch: i64,
    flow: i64,
    j: usize,
) -> (r: Option<(i64, i64, i64, i64, i64)>)
    requires
        j < node.children@.len(),
        values@.len() == decls@.len(),
        keyed_view(vars@) == css_vars(decls@),
        *style == sty(*node, decls@, values@),
        pl@ == (Place { ox: ox as int, oy: oy as int, w: w as int, h: h as int, cx: cx as int, cy: cy as int, cw: cw as int, ch: ch as int }),
        fits(ox as int) && fits(oy as int) && fits(w as int) && fits(h as int),
        fits(cx as int) && fits(cy as int) && fits(cw as int) && fits(ch as int),
        flow == flow_at(*node, decls@, values@, *style, pl@, j as nat),
        fits(flow as int),
    ensures
        r is None <==> !child_fits(*node, decls@, values@, *style, pl@, j as int),
        r matches Some(v) ==> {
            &&& child_box(*node, decls@, values@, *style, pl@, j as int) == (v.0 as int, v.1 as int, v.2 as int, v.3 as int)
            &&& v.4 == flow_at(*node, decls@, values@, *style, pl@, (j + 1) as nat)
            &&& fits(v.0 as int) && fits(v.1 as int) && fits(v.2 as int) && fits(v.3 as int) && fits(v.4 as int)
        },
{
    let ghost ds = decls@;
    let ghost vs = values@;
    let ghost st = *style;
    let child = &node.children[j];
    let cs = style_for_node(child, decls, values, vars);
    let t = !child.text.as_str().is_empty();
    assert(cs == sty(node.children@[j as int], ds, vs));
    assert(t == has_text(node.children@[j as int]));
    if cs.position_absolute {
        return Some((ox, oy, w, h, flow));
    }
    let cpad2: i64 = cs.padding as i64 * 2;
    let cline: i64 = if cs.line_height > 7 { cs.line_height as i64 } else { 7 };
    let ctbh: i64 = cline + cpad2;
    assert(ctbh == text_box_h(cs));
    if cs.height <= 0 && t && (!fits64(cpad2) || !fits64(ctbh)) {
        return None;
    }
    let chw: i64 = if cs.width > 0 { cs.width as i64 } else { cw };
    let chh: i64 = if cs.height > 0 {
        cs.height as i64
    } else if t {
        ctbh
    } else {
        ch
    };
    assert(chw == child_w(cs, pl@));
    assert(chh == child_h(cs, t, pl@));
    let mut px: i64 = cx;
    let mut py: i64 = flow;
    if style.display_flex && style.justify_center {
        if !fits64(cw - chw) {
            return None;
        }
        px = cx + half_gap64(cw, chw);
        if !fits64(px) {
            return None;
        }
    }
    if style.display_flex && style.align_center {
        if !fits64(ch - chh) {
            return None;
        }
        py = cy + half_gap64(ch, chh);
        if !fits64(py) {
            return None;
        }
    }
    assert(px == child_x(st, cs, pl@));
    assert(py == child_y(st, cs, t, pl@, flow as int));
    let mut next: i64 = flow;
    if !style.display_flex {
        let hh: i64 = if chh <= 0 { 7 } else { chh };
        let mb: i64 = if cs.margin_bottom > 0 { cs.margin_bottom as i64 } else { 0 };
        let step = hh + mb;
        assert(step == flow_step(st, cs, t, pl@));
        assert(flow_at(*node, ds, vs, st, pl@, (j + 1) as nat) == flow + step);
        if !fits64(step) || !fits64(flow + step) {
            return None;
        }
        next = flow + step;
    } else {
        assert(flow_at(*node, ds, vs, st, pl@, (j + 1) as nat) == flow);
    }
    Some((px, py, chw, chh, next))
}

/// See `node_fits`.
pub fn node_check(
    stride: usize,
    node: &ThemeNode,
    decls: &Vec<CssDeclBuild>,
    values: &Vec<ParsedValue>,
    vars: &Vec<(String, String)>,
    x: i32,
    y: i32,
    pw: i32,
    ph: i32,
) -> (b: bool)
    requires
        values@.len() == decls@.len(),
        keyed_view(vars@) == css_vars(decls@),
    ensures
        b == node_fits(stride as int, *node, decls@, values@, x as int, y as int, pw as int, ph as int),
    decreases node,
{
    let ghost ds = decls@;
    let ghost vs = values@;
    let style = style_for_node(node, decls, values, vars);
    let ghost st = style;
    assert(st == sty(*node, ds, vs));
    let texted = !node.text.as_str().is_empty();
    assert(texted == has_text(*node));
    let ghost pl = place(st, has_text(*node), x as int, y as int, pw as int, ph as int);
    let pad2: i64 = style.padding as i64 * 2;
    if !fits64(pad2) {
        return false;
    }
    let line: i64 = if style.line_height > 7 { style.line_height as i64 } else { 7 };
    let tbh: i64 = line + pad2;
    assert(tbh == text_box_h(st));
    if texted && !fits64(tbh) {
        return false;
    }
    let w: i64 = if style.width > 0 { style.width as i64 } else { pw as i64 };
    let h: i64 = if style.height > 0 {
        style.height as i64
    } else if texted && tbh > 0 {
        tbh
    } else {
        ph as i64
    };
    let ox: i64 = x as i64 + style.left as i64;
    let oy: i64 = y as i64 + style.top as i64;
    if !fits64(ox) || !fits64(oy) {
        return false;
    }
    assert(pl.ox == ox && pl.oy == oy && pl.w == w && pl.h == h);
    if !box_check(stride, ox as i32, oy as i32, w as i32, h as i32, &style) {
        return false;
    }
    let pad0: i64 = if style.padding > 0 { style.padding as i64 } else { 0 };
    let cx = ox + pad0;
    let cy = oy + pad0;
    if !fits64(cx) || !fits64(cy) || !fits64(w - pad2) || !fits64(h - pad2) {
        return false;
    }
    let cw: i64 = if w - pad2 > 0 { w - pad2 } else { 0 };
    let ch: i64 = if h - pad2 > 0 { h - pad2 } else { 0 };
    assert(pl == (Place { ox: ox as int, oy: oy as int, w: w as int, h: h as int, cx: cx as int, cy: cy as int, cw: cw as int, ch: ch as int }));
    if texted && !text_check(&style, Ghost(pl), cx as i32, cy as i32, cw as i32, ch as i32, node) {
        return false;
    }
    let mut flow: i64 = cy;
    let mut j: usize = 0;
    while j < node.children.len()
        invariant
            j <= node.children@.len(),
            ds == decls@,
            vs == values@,
            values@.len() == decls@.len(),
            keyed_view(vars@) == css_vars(decls@),
            st == style,
            st == sty(*node, ds, vs),
            pl == place(st, has_text(*node), x as int, y as int, pw as int, ph as int),
            pl == (Place { ox: ox as int, oy: oy as int, w: w as int, h: h as int, cx: cx as int, cy: cy as int, cw: cw as int, ch: ch as int }),
            fits(ox as int) && fits(oy as int) && fits(w as int) && fits(h as int),
            fits(cx as int) && fits(cy as int) && fits(cw as int) && fits(ch as int),
            flow == flow_at(*node, ds, vs, st, pl, j as nat),
            fits(flow as int),
            forall|k: int| 0 <= k < j ==> #[trigger] child_fits(*node, ds, vs, st, pl, k),
            forall|k: int|
                0 <= k < j ==> {
                    let b = child_box(*node, ds, vs, st, pl, k);
                    node_fits(stride as int, #[trigger] node.children@[k], ds, vs, b.0, b.1, b.2, b.3)
                },
        decreases node.children.len() - j,
    {
        let child = &node.children[j];
        let placed = child_place(node, decls, values, vars, &style, Ghost(pl), ox, oy, w, h, cx, cy, cw, ch, flow, j);
        let (bx, by, bw, bh, next) = match placed {
            None => {
                return false;
            },
            Some(v) => v,
        };
        if !node_check(stride, child, decls, values, vars, bx as i32, by as i32, bw as i32, bh as i32) {
            return false;
        }
        flow = next;
        j = j + 1;
    }
    true
}

/// See `component_fits`.
fn component_check(stride: usize, comp: &ThemeComponent, x: i32, y: i32, w: i32, h: i32) -> (b: bool)
    ensures
        b == component_fits(stride as int, *comp, x as int, y as int, w as int, h as int),
{
    if comp.values.len() != comp.declarations.len() {
        return false;
    }
    let vars = parse_css_vars(&comp.declarations);
    let st = style_for_node(&comp.root, &comp.declarations, &comp.values, &vars);
    assert(st == sty(comp.root, comp.declarations@, comp.values@));
    let rx: i64 = x as i64 + st.left as i64;
    let ry: i64 = y as i64 + st.top as i64;
    if !fits64(rx) || !fits64(ry) {
        return false;
    }
    let rw = if st.width > 0 { st.width } else { w };
    let rh = if st.height > 0 { st.height } else { h };
    assert(rw == used_w(st, w as int));
    node_check(stride, &comp.root, &comp.declarations, &comp.values, &vars, rx as i32, ry as i32, rw, rh)
}

/// Once a row after the first is not drawn, no later row is.
proof fn lemma_rows_end(height: int, k: int)
    requires
        k >= 1,
        !row_drawn(height, k),
    ensures
        forall|m: int| m >= k ==> !#[trigger] row_drawn(height, m),
{
}

/// Whether a frame of these components can be built; see `frame_fits`.
pub fn frame_check(width: usize, height: usize, comps: &Vec<ThemeComponent>) -> (b: bool)
    ensures
        b == frame_fits(width as int, height as int, comps@),
{
    if width == 0 || width > i32::MAX as usize || height > i32::MAX as usize {
        return false;
    }
    if width.checked_mul(height).is_none() {
        return false;
    }
    let m: i64 = i32::MAX as i64;
    let mut k: usize = 0;
    let mut y: i64 = 56;
    while k < comps.len()
        invariant
            0 < width <= i32::MAX,
            height <= i32::MAX,
            width * height <= usize::MAX,
            k <= comps@.len(),
            y == row_y(k as int),
            m == i32::MAX,
            y <= i32::MAX,
            forall|q: int| 0 <= q < k && row_drawn(height as int, q) ==> row_fits(width as int, #[trigger] comps@[q], q),
            forall|q: int| 0 <= q < k && #[trigger] row_drawn(height as int, q) ==> row_y(q) + 258 <= i32::MAX,
        decreases comps.len() - k,
    {
        if k > 0 && y + 120 > height as i64 - 16 {
            proof {
                lemma_rows_end(height as int, k as int);
            }
            return true;
        }
        assert(row_drawn(height as int, k as int));
        if y + 258 > m {
            return false;
        }
        let comp = &comps[k];
        let nb = comp.name.as_str().as_bytes().len();
        if nb as u64 > ((m - 24) / 6) as u64 {
            assert(24 + 6 * encode_utf8(comp.name@).len() > i32::MAX) by (nonlinear_arith)
                requires
                    nb == encode_utf8(comp.name@).len(),
                    nb > (i32::MAX - 24) / 6,
            ;
            return false;
        }
        if !component_check(width, comp, 24, y as i32, 160, 120) {
            return false;
        }
        assert(row_fits(width as int, comps@[k as int], k as int)) by (nonlinear_arith)
            requires
                nb == encode_utf8(comps@[k as int].name@).len(),
                nb <= (i32::MAX - 24) / 6,
                component_fits(width as int, comps@[k as int], 24, row_y(k as int), 160, 120),
        ;
        y = y + 138;
        k = k + 1;
    }
    true
}

/// `build_runtime_theme_frame`, or an error where building the frame would fail:
/// an empty or oversized frame, or a row whose drawing leaves `i32`.
pub fn try_build_runtime_theme_frame(width: usize, height: usize, components: &Vec<ThemeComponent>) -> (r: Result<Option<Vec<u32>>, &'static str>)
    ensures
        r is Err <==> components@.len() > 0 && !frame_fits(width as int, height as int, components@),
        r matches Err(e) ==> e@ == "theme frame out of range"@,
        r matches Ok(Some(v)) ==> theme_frame(width as int, height as int, components@) == Some(v@),
        r matches Ok(None) ==> theme_frame(width as int, height as int, components@) is None,
{
    if components.len() > 0 && !frame_check(width, height, components) {
        return Err("theme frame out of range");
    }
    Ok(build_runtime_theme_frame(width, height, components))
}

} // verus!
