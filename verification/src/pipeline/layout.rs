//! Layout boxes: each node of the laid-out tree with its border box in pixels,
//! and the reading of the style properties the layout engine is given.
use vstd::prelude::*;
use crate::keyed::{get_entry, lookup};
use crate::text::{chars_eq, chars_of, range_eq, string_from_range, trim, trim_bounds};

verus! {

#[derive(Debug, Clone, Copy, PartialEq, Eq, Structural)]
pub struct Rect {
    pub x: i32,
    pub y: i32,
    pub width: i32,
    pub height: i32,
}

#[derive(Debug)]
pub struct LayoutTree {
    pub root: LayoutNode,
}

#[derive(Debug)]
pub struct LayoutNode {
    pub rect: Rect,
    pub styles: Vec<(String, String)>,
    pub kind: LayoutNodeKind,
    pub children: Vec<LayoutNode>,
}

#[derive(Debug, Clone)]
pub enum LayoutNodeKind {
    Element { tag_name: String },
    Text { content: String },
}

} // verus!

verus! {

/// `char::to_ascii_lowercase`.
pub open spec fn lower_char(c: char) -> char {
    if 'A' <= c <= 'Z' {
        ((c as u32) + 32) as char
    } else {
        c
    }
}

/// The text with its ASCII letters in lower case.
pub open spec fn lower(s: Seq<char>) -> Seq<char> {
    Seq::new(s.len(), |i: int| lower_char(s[i]))
}

/// Maps an ASCII upper-case letter to lower case and keeps any other character
/// (what `char::to_ascii_lowercase` does).
fn ascii_lower(c: char) -> (r: char)
    ensures
        r == lower_char(c),
{
    if 'A' <= c && c <= 'Z' {
        let b: u8 = (c as u8) + 32;
        b as char
    } else {
        c
    }
}

/// How a length text reads: no value, `auto`, or a number of pixels, percent, or
/// viewport width or height units whose number is still text; anything else is
/// invalid.
pub enum LengthReading {
    Missing,
    Auto,
    Px(Seq<char>),
    Percent(Seq<char>),
    Vw(Seq<char>),
    Vh(Seq<char>),
    Invalid,
}

#[derive(Debug, Clone, PartialEq, Eq)]
pub enum LengthText {
    Missing,
    Auto,
    Px(String),
    Percent(String),
    Vw(String),
    Vh(String),
    Invalid,
}

impl View for LengthText {
    type V = LengthReading;

    open spec fn view(&self) -> LengthReading {
        match self {
            LengthText::Missing => LengthReading::Missing,
            LengthText::Auto => LengthReading::Auto,
            LengthText::Px(s) => LengthReading::Px(s@),
            LengthText::Percent(s) => LengthReading::Percent(s@),
            LengthText::Vw(s) => LengthReading::Vw(s@),
            LengthText::Vh(s) => LengthReading::Vh(s@),
            LengthText::Invalid => LengthReading::Invalid,
        }
    }
}

/// `s` ends with `suffix`.
pub open spec fn ends_with(s: Seq<char>, suffix: Seq<char>) -> bool {
    s.len() >= suffix.len() && s.subrange(s.len() - suffix.len(), s.len() as int) == suffix
}

/// The number before a unit of `n` characters, trimmed.
pub open spec fn before_unit(s: Seq<char>, n: int) -> Seq<char> {
    trim(s.subrange(0, s.len() - n))
}

/// How a length value reads, after trimming and lowering its case.
pub open spec fn length_reading(value: Option<Seq<char>>) -> LengthReading {
    match value {
        None => LengthReading::Missing,
        Some(raw) => {
            let s = lower(trim(raw));
            if s == "auto"@ {
                LengthReading::Auto
            } else if ends_with(s, "px"@) {
                LengthReading::Px(before_unit(s, 2))
            } else if ends_with(s, "%"@) {
                LengthReading::Percent(before_unit(s, 1))
            } else if ends_with(s, "vw"@) {
                LengthReading::Vw(before_unit(s, 2))
            } else if ends_with(s, "vh"@) {
                LengthReading::Vh(before_unit(s, 2))
            } else {
                LengthReading::Invalid
            }
        },
    }
}

fn lowered_trim(raw: &str) -> (s: Vec<char>)
    ensures
        s@ == lower(trim(raw@)),
{
    let c = chars_of(raw);
    assert(c@.subrange(0, c@.len() as int) =~= c@);
    let (a, b) = trim_bounds(c.as_slice(), 0, c.len());
    let mut s: Vec<char> = Vec::new();
    let mut i = a;
    while i < b
        invariant
            a <= i <= b <= c@.len(),
            s@ == lower(c@.subrange(a as int, i as int)),
        decreases b - i,
    {
        s.push(ascii_lower(c[i]));
        i = i + 1;
        assert(s@ =~= lower(c@.subrange(a as int, i as int)));
    }
    s
}

pub(crate) fn ends_with_exec(s: &Vec<char>, suffix: &str) -> (b: bool)
    ensures
        b == ends_with(s@, suffix@),
{
    let p = chars_of(suffix);
    if p.len() > s.len() {
        return false;
    }
    range_eq(s.as_slice(), s.len() - p.len(), s.len(), p.as_slice())
}

fn number_before(s: &Vec<char>, n: usize) -> (r: String)
    requires
        n <= s@.len(),
    ensures
        r@ == before_unit(s@, n as int),
{
    let (a, b) = trim_bounds(s.as_slice(), 0, s.len() - n);
    string_from_range(s.as_slice(), a, b)
}

/// Reads a length value; see `length_reading`.
pub fn parse_length(value: Option<&String>) -> (r: LengthText)
    ensures
        r@ == length_reading(
            match value {
                Some(v) => Some(v@),
                None => None,
            },
        ),
{
    let raw = match value {
        Some(v) => v,
        None => {
            return LengthText::Missing;
        },
    };
    let s = lowered_trim(raw.as_str());
    let auto = chars_of("auto");
    if chars_eq(s.as_slice(), auto.as_slice()) {
        LengthText::Auto
    } else if ends_with_exec(&s, "px") {
        proof {
            reveal_strlit("px");
        }
        LengthText::Px(number_before(&s, 2))
    } else if ends_with_exec(&s, "%") {
        proof {
            reveal_strlit("%");
        }
        LengthText::Percent(number_before(&s, 1))
    } else if ends_with_exec(&s, "vw") {
        proof {
            reveal_strlit("vw");
        }
        LengthText::Vw(number_before(&s, 2))
    } else if ends_with_exec(&s, "vh") {
        proof {
            reveal_strlit("vh");
        }
        LengthText::Vh(number_before(&s, 2))
    } else {
        LengthText::Invalid
    }
}

/// How a box is laid out.
#[derive(Debug, Clone, Copy, PartialEq, Eq, Structural)]
pub enum DisplayKind {
    FlexRow,
    FlexColumn,
    Inline,
    Hidden,
    Block,
}

/// The layout kind a `display` value (and `flex-direction`) asks for: `flex` in
/// a row only for direction `row`, `inline`, `none`, and block for anything else.
pub open spec fn display_of(display: Seq<char>, direction: Option<Seq<char>>) -> DisplayKind {
    let d = trim(display);
    if d == "flex"@ {
        match direction {
            Some(dir) => if trim(dir) == "row"@ {
                DisplayKind::FlexRow
            } else {
                DisplayKind::FlexColumn
            },
            None => DisplayKind::FlexColumn,
        }
    } else if d == "inline"@ {
        DisplayKind::Inline
    } else if d == "none"@ {
        DisplayKind::Hidden
    } else {
        DisplayKind::Block
    }
}

/// The display words, read after trimming: `inline` lays an element out inline,
/// `none` hides it, `flex` makes a flex box (a row only for direction `row`), and
/// anything else is a block.
pub proof fn lemma_display_words(display: Seq<char>, direction: Option<Seq<char>>)
    ensures
        trim(display) == "inline"@ ==> display_of(display, direction) == DisplayKind::Inline,
        trim(display) == "none"@ ==> display_of(display, direction) == DisplayKind::Hidden,
        trim(display) == "flex"@ ==> (display_of(display, direction) == DisplayKind::FlexRow <==> (direction matches Some(d) && trim(d) == "row"@)),
        trim(display) == "flex"@ ==> (display_of(display, direction) == DisplayKind::FlexRow || display_of(display, direction) == DisplayKind::FlexColumn),
        trim(display) != "inline"@ && trim(display) != "none"@ && trim(display) != "flex"@ ==> display_of(display, direction) == DisplayKind::Block,
{
    reveal_strlit("inline");
    reveal_strlit("none");
    reveal_strlit("flex");
    assert("inline"@ != "flex"@) by { assert("inline"@.len() != "flex"@.len()); }
    assert("none"@ != "flex"@) by { assert("none"@[0] != "flex"@[0]); }
    assert("none"@ != "inline"@) by { assert("none"@.len() != "inline"@.len()); }
}

/// A style table whose `display` value is `inline` (after trimming) asks for an
/// inline layout, whatever else it holds.
pub proof fn lemma_inline_styles(styles: Seq<(String, String)>)
    requires
        style_value(styles, "display"@) matches Some(d) && trim(d) == "inline"@,
    ensures
        (match style_value(styles, "display"@) {
            Some(d) => Some(display_of(d, style_value(styles, "flex-direction"@))),
            None => None,
        }) == Some(DisplayKind::Inline),
{
    let d = style_value(styles, "display"@)->0;
    lemma_display_words(d, style_value(styles, "flex-direction"@));
}

/// The layout-relevant properties of a style table, before their numbers are
/// read: the display kind (none when `display` is not set) and the six sizes.
pub struct BoxStyleText {
    pub display: Option<DisplayKind>,
    pub width: LengthText,
    pub height: LengthText,
    pub min_width: LengthText,
    pub max_width: LengthText,
    pub min_height: LengthText,
    pub max_height: LengthText,
}

/// The value a style table holds for a property.
pub open spec fn style_value(styles: Seq<(String, String)>, prop: Seq<char>) -> Option<Seq<char>> {
    match lookup(styles, prop) {
        Some(v) => Some(v@),
        None => None,
    }
}

fn trimmed_eq(s: &String, lit: &str) -> (b: bool)
    ensures
        b == (trim(s@) == lit@),
{
    let c = chars_of(s.as_str());
    assert(c@.subrange(0, c@.len() as int) =~= c@);
    let (a, e) = trim_bounds(c.as_slice(), 0, c.len());
    let l = chars_of(lit);
    range_eq(c.as_slice(), a, e, l.as_slice())
}

fn length_of(styles: &Vec<(String, String)>, prop: &str) -> (r: LengthText)
    ensures
        r@ == length_reading(style_value(styles@, prop@)),
{
    parse_length(get_entry(styles, prop))
}

/// Reads the layout properties of a style table; see `display_of` and
/// `length_reading`.
pub fn style_from_css(styles: &Vec<(String, String)>) -> (r: BoxStyleText)
    ensures
        r.display == match style_value(styles@, "display"@) {
            Some(d) => Some(display_of(d, style_value(styles@, "flex-direction"@))),
            None => None,
        },
        r.width@ == length_reading(style_value(styles@, "width"@)),
        r.height@ == length_reading(style_value(styles@, "height"@)),
        r.min_width@ == length_reading(style_value(styles@, "min-width"@)),
        r.max_width@ == length_reading(style_value(styles@, "max-width"@)),
        r.min_height@ == length_reading(style_value(styles@, "min-height"@)),
        r.max_height@ == length_reading(style_value(styles@, "max-height"@)),
{
    let display = match get_entry(styles, "display") {
        Some(d) => Some(
            if trimmed_eq(d, "flex") {
                match get_entry(styles, "flex-direction") {
                    Some(dir) => if trimmed_eq(dir, "row") {
                        DisplayKind::FlexRow
                    } else {
                        DisplayKind::FlexColumn
                    },
                    None => DisplayKind::FlexColumn,
                }
            } else if trimmed_eq(d, "inline") {
                DisplayKind::Inline
            } else if trimmed_eq(d, "none") {
                DisplayKind::Hidden
            } else {
                DisplayKind::Block
            },
        ),
        None => None,
    };
    BoxStyleText {
        display,
        width: length_of(styles, "width"),
        height: length_of(styles, "height"),
        min_width: length_of(styles, "min-width"),
        max_width: length_of(styles, "max-width"),
        min_height: length_of(styles, "min-height"),
        max_height: length_of(styles, "max-height"),
    }
}

} // verus!
