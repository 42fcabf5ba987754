//! What a declaration's value is read as, short of the numbers themselves: which
//! reading its property takes, the number text of a pixel length, the words of a
//! border and of a box shadow, and the choices made from their readings. The
//! numbers are decimal fractions and are read by the caller, which hands them
//! back here.
use vstd::prelude::*;
use super::{ParsedValue, Shadow};
use super::color::{color_reading, color_value, color_value_of, hex_cut_inside_char, try_read_color, ColorReading, ColorText};
use super::css::trimmed;
use crate::pipeline::layout::{ends_with, ends_with_exec};
use crate::text::{chars_of, find, find_chars, lemma_find_from_some, str_eq, string_from_chars, string_from_range, split_words, trim, words};

verus! {

/// The reading a property's value takes.
#[derive(Clone, Copy, Debug, PartialEq, Eq, Structural)]
pub enum ReadingKind {
    Px,
    Color,
    Shadow,
    Border,
    Other,
}

pub open spec fn reading_kind_of(p: Seq<char>) -> ReadingKind {
    if p == "left"@ || p == "top"@ || p == "width"@ || p == "height"@ || p == "padding"@ || p == "margin-bottom"@
        || p == "line-height"@ || p == "border-radius"@ {
        ReadingKind::Px
    } else if p == "background"@ || p == "background-color"@ || p == "color"@ {
        ReadingKind::Color
    } else if p == "box-shadow"@ {
        ReadingKind::Shadow
    } else if p == "border"@ {
        ReadingKind::Border
    } else {
        ReadingKind::Other
    }
}

/// The reading `property` takes; see `reading_kind_of`.
pub fn reading_kind(property: &str) -> (k: ReadingKind)
    ensures
        k == reading_kind_of(property@),
{
    if str_eq(property, "left") || str_eq(property, "top") || str_eq(property, "width") || str_eq(property, "height")
        || str_eq(property, "padding") || str_eq(property, "margin-bottom") || str_eq(property, "line-height")
        || str_eq(property, "border-radius") {
        ReadingKind::Px
    } else if str_eq(property, "background") || str_eq(property, "background-color") || str_eq(property, "color") {
        ReadingKind::Color
    } else if str_eq(property, "box-shadow") {
        ReadingKind::Shadow
    } else if str_eq(property, "border") {
        ReadingKind::Border
    } else {
        ReadingKind::Other
    }
}

/// The number text of a pixel length: the value trimmed, without a `px` ending.
pub open spec fn px_number(v: Seq<char>) -> Seq<char> {
    let t = trim(v);
    if ends_with(t, "px"@) {
        t.subrange(0, t.len() - 2)
    } else {
        t
    }
}

/// See `px_number`.
pub fn px_text(v: &str) -> (r: String)
    ensures
        r@ == px_number(v@),
{
    let c = chars_of(v);
    let t = trimmed(c.as_slice(), 0, c.len());
    assert(c@.subrange(0, c@.len() as int) =~= c@);
    proof {
        reveal_strlit("px");
    }
    if ends_with_exec(&t, "px") {
        string_from_range(t.as_slice(), 0, t.len() - 2)
    } else {
        string_from_chars(t.as_slice())
    }
}

/// A word of a border value: a width (its number text), a colour reading, or a
/// colour text whose reading would cut a hex part inside a character.
pub enum BorderWord {
    Width(String),
    Color(ColorText),
    CutColor,
}

pub enum BorderWordReading {
    Width(Seq<char>),
    Color(ColorReading),
    CutColor,
}

impl View for BorderWord {
    type V = BorderWordReading;

    open spec fn view(&self) -> BorderWordReading {
        match self {
            BorderWord::Width(s) => BorderWordReading::Width(s@),
            BorderWord::Color(c) => BorderWordReading::Color(c@),
            BorderWord::CutColor => BorderWordReading::CutColor,
        }
    }
}

/// How one word of a border reads: a word ending in `px` is a width, any other a
/// colour.
pub open spec fn border_word(w: Seq<char>) -> BorderWordReading {
    if ends_with(w, "px"@) {
        BorderWordReading::Width(px_number(w))
    } else if hex_cut_inside_char(w) {
        BorderWordReading::CutColor
    } else {
        BorderWordReading::Color(color_reading(w))
    }
}

/// The words of a border value, each read; see `border_word`.
pub fn border_words(v: &str) -> (r: Vec<BorderWord>)
    ensures
        r@.len() == words(v@).len(),
        forall|i: int| 0 <= i < r@.len() ==> (#[trigger] r@[i])@ == border_word(words(v@)[i]),
{
    let c = chars_of(v);
    let ws = split_words(c.as_slice(), 0, c.len());
    assert(c@.subrange(0, c@.len() as int) =~= v@);
    proof {
        reveal_strlit("px");
    }
    let mut r: Vec<BorderWord> = Vec::new();
    let mut i: usize = 0;
    while i < ws.len()
        invariant
            i <= ws@.len(),
            ws@.len() == words(v@).len(),
            forall|k: int| 0 <= k < ws@.len() ==> (#[trigger] ws@[k])@ == words(v@)[k],
            r@.len() == i,
            forall|k: int| 0 <= k < i ==> (#[trigger] r@[k])@ == border_word(words(v@)[k]),
        decreases ws.len() - i,
    {
        let w = ws[i].as_str();
        let wc = chars_of(w);
        let item = if ends_with_exec(&wc, "px") {
            BorderWord::Width(px_text(w))
        } else {
            match try_read_color(w) {
                Ok(ct) => BorderWord::Color(ct),
                Err(_) => BorderWord::CutColor,
            }
        };
        r.push(item);
        i = i + 1;
    }
    r
}

/// The border width and colour after its first `n` words, given the number each
/// width word reads as (`pxs`) and the alpha each `rgba` colour reads as
/// (`alphas`): the last width, none reading as 0; the first word that reads as a
/// colour; `None` once a colour word is read whose reading cuts a character.
pub open spec fn border_state(
    ws: Seq<BorderWordReading>,
    pxs: Seq<Option<i32>>,
    alphas: Seq<Option<u32>>,
    n: nat,
) -> Option<(i32, Option<u32>)>
    decreases n,
{
    if n == 0 {
        Some((0i32, None))
    } else {
        match border_state(ws, pxs, alphas, (n - 1) as nat) {
            None => None,
            Some((w, c)) => match ws[n - 1] {
                BorderWordReading::Width(_) => Some(
                    (
                        match pxs[n - 1] {
                            Some(p) => p,
                            None => 0i32,
                        },
                        c,
                    ),
                ),
                BorderWordReading::Color(cr) => if c is Some {
                    Some((w, c))
                } else {
                    Some((w, color_value_of(cr, alphas[n - 1])))
                },
                BorderWordReading::CutColor => if c is Some {
                    Some((w, c))
                } else {
                    None
                },
            },
        }
    }
}

pub open spec fn border_views(ws: Seq<BorderWord>) -> Seq<BorderWordReading> {
    Seq::new(ws.len(), |i: int| ws[i]@)
}

/// A border's width and colour from its words and their number readings; see
/// `border_state`. Reading a colour word that cuts a character is an error.
pub fn border_choice(ws: &Vec<BorderWord>, pxs: &Vec<Option<i32>>, alphas: &Vec<Option<u32>>) -> (r: Result<(i32, Option<u32>), &'static str>)
    requires
        pxs@.len() == ws@.len(),
        alphas@.len() == ws@.len(),
    ensures
        match border_state(border_views(ws@), pxs@, alphas@, ws@.len()) {
            Some(s) => r == Ok::<(i32, Option<u32>), &'static str>(s),
            None => r matches Err(e) && e@ == "byte index is not a char boundary"@,
        },
{
    let ghost bv = border_views(ws@);
    let mut width: i32 = 0;
    let mut color: Option<u32> = None;
    let mut i: usize = 0;
    while i < ws.len()
        invariant
            i <= ws@.len(),
            pxs@.len() == ws@.len(),
            alphas@.len() == ws@.len(),
            bv == border_views(ws@),
            border_state(bv, pxs@, alphas@, i as nat) == Some((width, color)),
        decreases ws.len() - i,
    {
        assert(bv[i as int] == ws@[i as int]@);
        match &ws[i] {
            BorderWord::Width(_) => {
                width = match pxs[i] {
                    Some(p) => p,
                    None => 0,
                };
            },
            BorderWord::Color(ct) => {
                if color.is_none() {
                    color = color_value(ct, alphas[i]);
                }
            },
            BorderWord::CutColor => {
                if color.is_none() {
                    proof {
                        lemma_border_stuck(bv, pxs@, alphas@, (i + 1) as nat, ws@.len());
                    }
                    return Err("byte index is not a char boundary");
                }
            },
        }
        i = i + 1;
    }
    Ok((width, color))
}

/// Once the state is `None`, it stays `None`.
proof fn lemma_border_stuck(ws: Seq<BorderWordReading>, pxs: Seq<Option<i32>>, alphas: Seq<Option<u32>>, a: nat, b: nat)
    requires
        a <= b,
        border_state(ws, pxs, alphas, a) is None,
    ensures
        border_state(ws, pxs, alphas, b) is None,
    decreases b,
{
    if b > a {
        lemma_border_stuck(ws, pxs, alphas, a, (b - 1) as nat);
    }
}

/// Where the colour part of a box shadow starts: at its first `rgb`, or at the end.
pub open spec fn shadow_color_start(v: Seq<char>) -> int {
    match find(v, "rgb"@) {
        Some(k) => k,
        None => v.len() as int,
    }
}

/// The number texts of a box shadow: of each word before its colour part.
pub open spec fn shadow_numbers(v: Seq<char>) -> Seq<Seq<char>> {
    let ws = words(v.subrange(0, shadow_color_start(v)));
    Seq::new(ws.len(), |i: int| px_number(ws[i]))
}

/// The colour text of a box shadow.
pub open spec fn shadow_color_text(v: Seq<char>) -> Seq<char> {
    v.subrange(shadow_color_start(v), v.len() as int)
}

/// A box shadow's number texts and colour reading: none with fewer than five
/// words; an error when reading its colour text would cut a character.
pub fn shadow_words(v: &str) -> (r: Result<Option<(Vec<String>, ColorText)>, &'static str>)
    ensures
        r is Err <==> words(v@).len() >= 5 && hex_cut_inside_char(shadow_color_text(v@)),
        r matches Err(e) ==> e@ == "byte index is not a char boundary"@,
        r matches Ok(None) <==> words(v@).len() < 5,
        r matches Ok(Some((ns, ct))) ==> {
            &&& ns@.len() == shadow_numbers(v@).len()
            &&& forall|i: int| 0 <= i < ns@.len() ==> (#[trigger] ns@[i])@ == shadow_numbers(v@)[i]
            &&& ct@ == color_reading(shadow_color_text(v@))
        },
{
    let c = chars_of(v);
    assert(c@.subrange(0, c@.len() as int) =~= v@);
    let all = split_words(c.as_slice(), 0, c.len());
    if all.len() < 5 {
        return Ok(None);
    }
    let rgb = chars_of("rgb");
    proof {
        lemma_find_from_some(c@, rgb@, 0);
    }
    let start = match find_chars(c.as_slice(), rgb.as_slice(), 0) {
        Some(k) => k,
        None => c.len(),
    };
    let tail = string_from_range(c.as_slice(), start, c.len());
    let ct = match try_read_color(tail.as_str()) {
        Ok(ct) => ct,
        Err(e) => {
            return Err(e);
        },
    };
    let ws = split_words(c.as_slice(), 0, start);
    let mut ns: Vec<String> = Vec::new();
    let mut i: usize = 0;
    while i < ws.len()
        invariant
            i <= ws@.len(),
            ws@.len() == words(v@.subrange(0, start as int)).len(),
            forall|k: int| 0 <= k < ws@.len() ==> (#[trigger] ws@[k])@ == words(v@.subrange(0, start as int))[k],
            ns@.len() == i,
            forall|k: int| 0 <= k < i ==> (#[trigger] ns@[k])@ == px_number(words(v@.subrange(0, start as int))[k]),
        decreases ws.len() - i,
    {
        ns.push(px_text(ws[i].as_str()));
        i = i + 1;
    }
    Ok(Some((ns, ct)))
}

/// The values among `vals` that are there, in order.
pub open spec fn present(vals: Seq<Option<i32>>) -> Seq<i32>
    decreases vals.len(),
{
    if vals.len() == 0 {
        seq![]
    } else {
        present(vals.drop_last()) + match vals.last() {
            Some(x) => seq![x],
            None => seq![],
        }
    }
}

pub open spec fn nth_or_zero(s: Seq<i32>, i: int) -> i32 {
    if i < s.len() {
        s[i]
    } else {
        0i32
    }
}

/// The shadow of the number readings `vals` and a colour reading: offsets, blur
/// and spread from the first four numbers read (0 for those missing), and the
/// colour, or translucent black when it reads as none.
pub open spec fn shadow_of(vals: Seq<Option<i32>>, color: ColorReading, alpha: Option<u32>) -> Shadow {
    let p = present(vals);
    Shadow {
        dx: nth_or_zero(p, 0),
        dy: nth_or_zero(p, 1),
        blur: nth_or_zero(p, 2),
        spread: nth_or_zero(p, 3),
        color: match color_value_of(color, alpha) {
            Some(c) => c,
            None => 0x3300_0000u32,
        },
    }
}

/// See `shadow_of`.
pub fn shadow_choice(vals: &Vec<Option<i32>>, color: &ColorText, alpha: Option<u32>) -> (r: Shadow)
    ensures
        r == shadow_of(vals@, color@, alpha),
{
    let mut p: Vec<i32> = Vec::new();
    let mut i: usize = 0;
    while i < vals.len()
        invariant
            i <= vals@.len(),
            p@ == present(vals@.take(i as int)),
        decreases vals.len() - i,
    {
        assert(vals@.take(i + 1).drop_last() =~= vals@.take(i as int));
        match vals[i] {
            Some(x) => p.push(x),
            None => {},
        }
        i = i + 1;
        assert(p@ =~= present(vals@.take(i as int)));
    }
    assert(vals@.take(vals@.len() as int) =~= vals@);
    let dx = if p.len() > 0 { p[0] } else { 0 };
    let dy = if p.len() > 1 { p[1] } else { 0 };
    let blur = if p.len() > 2 { p[2] } else { 0 };
    let spread = if p.len() > 3 { p[3] } else { 0 };
    let c = match color_value(color, alpha) {
        Some(c) => c,
        None => 0x3300_0000,
    };
    Shadow { dx, dy, blur, spread, color: c }
}

/// The readings a declaration's value keeps, by the reading its property takes:
/// a pixel length, a colour, a box shadow, or a border width and colour; the
/// others are left empty.
pub open spec fn parsed_value_of(
    kind: ReadingKind,
    px: Option<i32>,
    color: Option<u32>,
    border: (i32, Option<u32>),
    shadow: Option<Shadow>,
) -> ParsedValue {
    let none = ParsedValue { px: None, color: None, border_width: 0, border_color: None, shadow: None };
    match kind {
        ReadingKind::Px => ParsedValue { px: px, ..none },
        ReadingKind::Color => ParsedValue { color: color, ..none },
        ReadingKind::Shadow => ParsedValue { shadow: shadow, ..none },
        ReadingKind::Border => ParsedValue { border_width: border.0, border_color: border.1, ..none },
        ReadingKind::Other => none,
    }
}

/// See `parsed_value_of`.
pub fn parsed_value(
    kind: ReadingKind,
    px: Option<i32>,
    color: Option<u32>,
    border: (i32, Option<u32>),
    shadow: Option<Shadow>,
) -> (r: ParsedValue)
    ensures
        r == parsed_value_of(kind, px, color, border, shadow),
{
    let none = ParsedValue { px: None, color: None, border_width: 0, border_color: None, shadow: None };
    match kind {
        ReadingKind::Px => ParsedValue { px: px, ..none },
        ReadingKind::Color => ParsedValue { color: color, ..none },
        ReadingKind::Shadow => ParsedValue { shadow: shadow, ..none },
        ReadingKind::Border => ParsedValue { border_width: border.0, border_color: border.1, ..none },
        ReadingKind::Other => none,
    }
}

} // verus!
