//! Reading CSS colours: `#rrggbb`, `#rgb`, `rgb(r, g, b)` and `rgba(r, g, b, a)`.
//! The alpha of `rgba` is a decimal fraction; it is handed back as text for the
//! caller to read.
use vstd::prelude::*;
use vstd::utf8::encode_utf8;
use super::css::{find_char, slice_of, trimmed};
use crate::pipeline::layout::{lower, lower_char};
use crate::text::{chars_eq, chars_of, find, lemma_find_from_some, string_from_range, trim, trim_bounds};

verus! {

/// The value of a digit in base 10 or 16 (either case), if it is one.
pub open spec fn digit_value(c: char, radix: u32) -> Option<int> {
    if '0' <= c <= '9' {
        Some(c as int - '0' as int)
    } else if radix == 16 && 'a' <= c <= 'f' {
        Some(c as int - 'a' as int + 10)
    } else if radix == 16 && 'A' <= c <= 'F' {
        Some(c as int - 'A' as int + 10)
    } else {
        None
    }
}

/// Every character is a digit.
pub open spec fn all_digits(s: Seq<char>, radix: u32) -> bool {
    forall|i: int| 0 <= i < s.len() ==> (#[trigger] digit_value(s[i], radix)) is Some
}

/// The number the digits spell, most significant first.
pub open spec fn digits_value(s: Seq<char>, radix: u32) -> int
    decreases s.len(),
{
    if s.len() == 0 {
        0
    } else {
        digits_value(s.drop_last(), radix) * radix + digit_value(s.last(), radix).unwrap()
    }
}

/// `u32::from_str_radix` for base 10 or 16: an optional `+`, then one digit or
/// more; nothing when a character is no digit or the number exceeds `u32::MAX`.
pub open spec fn parse_u32(s: Seq<char>, radix: u32) -> Option<u32> {
    let d = if s.len() > 0 && s[0] == '+' { s.drop_first() } else { s };
    if d.len() == 0 || !all_digits(d, radix) {
        None
    } else if digits_value(d, radix) > u32::MAX {
        None
    } else {
        Some(digits_value(d, radix) as u32)
    }
}

proof fn lemma_digits_grow(s: Seq<char>, radix: u32, k: int)
    requires
        0 <= k <= s.len(),
        radix >= 1,
        all_digits(s, radix),
    ensures
        0 <= digits_value(s.take(k), radix) <= digits_value(s, radix),
    decreases s.len(),
{
    if s.len() == 0 {
        assert(s.take(k) =~= s);
    } else {
        let p = s.drop_last();
        assert(all_digits(p, radix)) by {
            assert forall|i: int| 0 <= i < p.len() implies (#[trigger] digit_value(p[i], radix)) is Some by {
                assert(digit_value(s[i], radix) is Some);
            }
        }
        lemma_digits_grow(p, radix, p.len() as int);
        assert(p.take(p.len() as int) =~= p);
        if k < s.len() {
            lemma_digits_grow(p, radix, k);
            assert(p.take(k) =~= s.take(k));
        } else {
            assert(s.take(k) =~= s);
        }
        assert(digit_value(s[s.len() - 1], radix) is Some);
        let v = digits_value(p, radix);
        assert(v <= v * radix) by (nonlinear_arith)
            requires 0 <= v, radix >= 1;
    }
}

/// Parses `s[from..to]`; see `parse_u32`.
pub fn parse_u32_exec(s: &[char], from: usize, to: usize, radix: u32) -> (r: Option<u32>)
    requires
        from <= to <= s@.len(),
        radix == 10 || radix == 16,
    ensures
        r == parse_u32(s@.subrange(from as int, to as int), radix),
{
    let ghost t = s@.subrange(from as int, to as int);
    let mut a = from;
    if a < to && s[a] == '+' {
        a = a + 1;
    }
    let ghost d = s@.subrange(a as int, to as int);
    assert(d == if t.len() > 0 && t[0] == '+' { t.drop_first() } else { t });
    if a == to {
        return None;
    }
    let mut acc: u64 = 0;
    let mut i = a;
    while i < to
        invariant
            a <= i <= to <= s@.len(),
            a < to,
            radix == 10 || radix == 16,
            d == s@.subrange(a as int, to as int),
            t == s@.subrange(from as int, to as int),
            d == if t.len() > 0 && t[0] == '+' { t.drop_first() } else { t },
            all_digits(d.take(i - a), radix),
            acc == digits_value(d.take(i - a), radix),
            acc <= u32::MAX,
        decreases to - i,
    {
        let c = s[i];
        let dv: u64 = if '0' <= c && c <= '9' {
            (c as u64) - ('0' as u64)
        } else if radix == 16 && 'a' <= c && c <= 'f' {
            (c as u64) - ('a' as u64) + 10
        } else if radix == 16 && 'A' <= c && c <= 'F' {
            (c as u64) - ('A' as u64) + 10
        } else {
            assert(!all_digits(d, radix)) by {
                assert(digit_value(d[i - a], radix) is None);
            }
            return None;
        };
        assert(d.take(i - a + 1).drop_last() =~= d.take(i - a));
        assert(d.take(i - a + 1).last() == c);
        assert(dv == digit_value(c, radix).unwrap());
        assert(acc * (radix as u64) + dv <= 0xFFFF_FFFF * 16 + 15) by (nonlinear_arith)
            requires acc <= 0xFFFF_FFFF, radix <= 16, dv <= 15;
        acc = acc * (radix as u64) + dv;
        assert(all_digits(d.take(i - a + 1), radix)) by {
            assert forall|j: int| 0 <= j < d.take(i - a + 1).len() implies (#[trigger] digit_value(d.take(i - a + 1)[j], radix)) is Some by {
                if j < i - a {
                    assert(d.take(i - a + 1)[j] == d.take(i - a)[j]);
                }
            }
        }
        i = i + 1;
        if acc > 0xFFFF_FFFF {
            proof {
                if all_digits(d, radix) {
                    lemma_digits_grow(d, radix, i - a);
                }
            }
            return None;
        }
    }
    assert(d.take(to - a) =~= d);
    Some(acc as u32)
}

/// What a colour text reads as: a colour, the parts of an `rgba()` colour whose
/// alpha is still text, or no colour.
pub enum ColorReading {
    Color(u32),
    Rgba(u32, u32, u32, Seq<char>),
    NotColor,
}

/// A colour text as read by `read_color`.
#[derive(Debug, Clone, PartialEq, Eq)]
pub enum ColorText {
    Color(u32),
    Rgba { r: u32, g: u32, b: u32, alpha: String },
    NotColor,
}

impl View for ColorText {
    type V = ColorReading;

    open spec fn view(&self) -> ColorReading {
        match self {
            ColorText::Color(c) => ColorReading::Color(*c),
            ColorText::Rgba { r, g, b, alpha } => ColorReading::Rgba(*r, *g, *b, alpha@),
            ColorText::NotColor => ColorReading::NotColor,
        }
    }
}

/// The pieces of `s` between commas, each trimmed (`str::split(',')` then
/// `str::trim`).
pub open spec fn trimmed_pieces(s: Seq<char>) -> Seq<Seq<char>>
    decreases s.len(),
{
    match find(s, seq![',']) {
        None => seq![trim(s)],
        Some(k) => {
            proof {
                lemma_find_from_some(s, seq![','], 0);
            }
            seq![trim(s.subrange(0, k))] + trimmed_pieces(s.subrange(k + 1, s.len() as int))
        },
    }
}

/// The colour `#hex` reads as, when it is a hex colour the reader decides on:
/// six bytes of hex digits, or three characters each a hex digit.
pub open spec fn hex_reading(hex: Seq<char>) -> Option<ColorReading> {
    let nb = encode_utf8(hex).len();
    if nb == 6 {
        Some(
            match parse_u32(hex, 16) {
                Some(rgb) => ColorReading::Color(0xFF00_0000u32 | rgb),
                None => ColorReading::NotColor,
            },
        )
    } else if nb == 3 {
        Some(
            if hex.len() == 3 {
                match (parse_u32(hex.subrange(0, 1), 16), parse_u32(hex.subrange(1, 2), 16), parse_u32(hex.subrange(2, 3), 16)) {
                    (Some(r), Some(g), Some(b)) => ColorReading::Color(
                        0xFF00_0000u32 | (((r * 17) as u32) << 16u32) | (((g * 17) as u32) << 8u32) | ((b * 17) as u32),
                    ),
                    _ => ColorReading::NotColor,
                }
            } else {
                ColorReading::NotColor
            },
        )
    } else {
        None
    }
}

/// `s` is `name(` ... `)`: the text between is `inner(s, name.len() + 1)`.
pub open spec fn is_call(s: Seq<char>, name: Seq<char>) -> bool {
    s.len() >= name.len() + 1 && s.subrange(0, name.len() as int) == name && s[name.len() as int] == '('
        && s.last() == ')'
}

pub open spec fn inner_of(s: Seq<char>, open: int) -> Seq<char> {
    s.subrange(open, s.len() - 1)
}

/// The trimmed comma-separated values inside a call.
pub open spec fn call_values(s: Seq<char>, open: int) -> Seq<Seq<char>> {
    trimmed_pieces(inner_of(s, open))
}

/// What a colour text reads as (`#rrggbb`, `#rgb`, `rgba(..)` with four values,
/// `rgb(..)` with three), after trimming; the numbers must parse as `u32`.
pub open spec fn color_reading(v: Seq<char>) -> ColorReading {
    let s = trim(v);
    let hex = if s.len() > 0 && s[0] == '#' { hex_reading(s.drop_first()) } else { None };
    match hex {
        Some(h) => h,
        None => if is_call(s, "rgba"@) && call_values(s, 5).len() == 4 {
            let vals = call_values(s, 5);
            match (parse_u32(vals[0], 10), parse_u32(vals[1], 10), parse_u32(vals[2], 10)) {
                (Some(r), Some(g), Some(b)) => ColorReading::Rgba(r, g, b, vals[3]),
                _ => ColorReading::NotColor,
            }
        } else if is_call(s, "rgb"@) && call_values(s, 4).len() == 3 {
            let vals = call_values(s, 4);
            match (parse_u32(vals[0], 10), parse_u32(vals[1], 10), parse_u32(vals[2], 10)) {
                (Some(r), Some(g), Some(b)) => ColorReading::Color(
                    0xFF00_0000u32 | (r << 16u32) | (g << 8u32) | b,
                ),
                _ => ColorReading::NotColor,
            }
        } else {
            ColorReading::NotColor
        },
    }
}

/// A three-byte hex part that the reader would cut inside a character: its first
/// character takes more than one byte, or it is a hex digit followed by a
/// two-byte character.
pub open spec fn hex_cut_inside_char(v: Seq<char>) -> bool {
    let s = trim(v);
    let hex = s.drop_first();
    &&& s.len() > 0 && s[0] == '#'
    &&& encode_utf8(hex).len() == 3
    &&& (hex[0] as u32 >= 0x80 || (hex.len() == 2 && digit_value(hex[0], 16) is Some))
}

/// Splits `s` at its commas and trims each piece; see `trimmed_pieces`.
fn split_trimmed(s: &[char]) -> (r: Vec<Vec<char>>)
    ensures
        r@.len() == trimmed_pieces(s@).len(),
        forall|i: int| 0 <= i < r@.len() ==> (#[trigger] r@[i])@ == trimmed_pieces(s@)[i],
    decreases s@.len(),
{
    let n = s.len();
    let mut r: Vec<Vec<char>> = Vec::new();
    match find_char(s, ',') {
        None => {
            r.push(trimmed(s, 0, n));
            assert(s@.subrange(0, n as int) =~= s@);
        },
        Some(k) => {
            r.push(trimmed(s, 0, k));
            let tail = slice_of(s, k + 1, n);
            let rest = split_trimmed(tail.as_slice());
            let mut j: usize = 0;
            while j < rest.len()
                invariant
                    j <= rest@.len(),
                    r@.len() == 1 + j,
                    r@[0]@ == trim(s@.subrange(0, k as int)),
                    forall|i: int| 0 <= i < j ==> (#[trigger] r@[1 + i])@ == rest@[i]@,
                decreases rest.len() - j,
            {
                r.push(slice_of(rest[j].as_slice(), 0, rest[j].len()));
                proof {
                    assert(rest@[j as int]@.subrange(0, rest@[j as int]@.len() as int) =~= rest@[j as int]@);
                }
                j = j + 1;
            }
            proof {
                let want = trimmed_pieces(s@);
                assert(want == seq![trim(s@.subrange(0, k as int))] + trimmed_pieces(tail@));
                assert forall|i: int| 0 <= i < r@.len() implies (#[trigger] r@[i])@ == want[i] by {
                    if i > 0 {
                        assert(r@[1 + (i - 1)] == r@[i]);
                    }
                }
            }
        },
    }
    r
}

fn is_call_exec(s: &Vec<char>, name: &str) -> (b: bool)
    ensures
        b == is_call(s@, name@),
{
    let nm = chars_of(name);
    let k = nm.len();
    if k >= s.len() {
        return false;
    }
    let head = slice_of(s.as_slice(), 0, k);
    chars_eq(head.as_slice(), nm.as_slice()) && s[k] == '(' && s[s.len() - 1] == ')'
}

/// Packs colour channels as `0xAARRGGBB`: each channel moved to its byte.
pub fn pack_rgba(r: u32, g: u32, b: u32, alpha: u32) -> (c: u32)
    ensures
        c == (alpha << 24u32) | (r << 16u32) | (g << 8u32) | b,
{
    (alpha << 24) | (r << 16) | (g << 8) | b
}

/// The view of an optional reading.
pub open spec fn opt_view(r: Option<ColorText>) -> Option<ColorReading> {
    match r {
        Some(c) => Some(c@),
        None => None,
    }
}

fn hex_color(s: &Vec<char>, nb: usize) -> (r: Option<ColorText>)
    requires
        s@.len() > 0,
        s@[0] == '#',
        nb == if encode_utf8(s@.drop_first()).len() < 7 { encode_utf8(s@.drop_first()).len() } else { 7 },
    ensures
        opt_view(r) == hex_reading(s@.drop_first()),
{
    let ghost hex = s@.drop_first();
    if nb == 6 {
        assert(s@.subrange(1, s@.len() as int) =~= hex);
        match parse_u32_exec(s.as_slice(), 1, s.len(), 16) {
            Some(rgb) => Some(ColorText::Color(0xFF00_0000 | rgb)),
            None => Some(ColorText::NotColor),
        }
    } else if nb == 3 {
        if s.len() == 4 {
            assert(s@.subrange(1, 2) =~= hex.subrange(0, 1));
            assert(s@.subrange(2, 3) =~= hex.subrange(1, 2));
            assert(s@.subrange(3, 4) =~= hex.subrange(2, 3));
            let r = parse_u32_exec(s.as_slice(), 1, 2, 16);
            let g = parse_u32_exec(s.as_slice(), 2, 3, 16);
            let bl = parse_u32_exec(s.as_slice(), 3, 4, 16);
            match (r, g, bl) {
                (Some(r), Some(g), Some(bl)) => {
                    proof {
                        lemma_one_digit(s@.subrange(1, 2), 16);
                        lemma_one_digit(s@.subrange(2, 3), 16);
                        lemma_one_digit(s@.subrange(3, 4), 16);
                    }
                    Some(ColorText::Color(0xFF00_0000 | ((r * 17) << 16) | ((g * 17) << 8) | (bl * 17)))
                },
                _ => Some(ColorText::NotColor),
            }
        } else {
            Some(ColorText::NotColor)
        }
    } else {
        None
    }
}

proof fn lemma_one_digit(s: Seq<char>, radix: u32)
    requires
        s.len() == 1,
        radix == 16,
    ensures
        parse_u32(s, radix) matches Some(v) ==> v < 16,
{
    if parse_u32(s, radix) is Some {
        assert(s[0] != '+');
        assert(s.drop_last().len() == 0);
        assert(digits_value(s.drop_last(), radix) == 0);
        assert(s.last() == s[0]);
        assert(digit_value(s[0], radix) is Some);
        assert(digit_value(s[0], radix).unwrap() <= 15);
    }
}

/// The three numbers `vals[0..3]` read as `u32`, when all three are numbers.
pub open spec fn three_u32(vals: Seq<Seq<char>>) -> Option<(u32, u32, u32)> {
    match (parse_u32(vals[0], 10), parse_u32(vals[1], 10), parse_u32(vals[2], 10)) {
        (Some(r), Some(g), Some(b)) => Some((r, g, b)),
        _ => None,
    }
}

fn three_u32_exec(vals: &Vec<Vec<char>>) -> (r: Option<(u32, u32, u32)>)
    requires
        vals@.len() >= 3,
    ensures
        r == three_u32(Seq::new(vals@.len(), |i: int| vals@[i]@)),
{
    let ghost vv = Seq::new(vals@.len(), |i: int| vals@[i]@);
    assert(vals@[0]@.subrange(0, vals@[0]@.len() as int) =~= vv[0]);
    assert(vals@[1]@.subrange(0, vals@[1]@.len() as int) =~= vv[1]);
    assert(vals@[2]@.subrange(0, vals@[2]@.len() as int) =~= vv[2]);
    let r = parse_u32_exec(vals[0].as_slice(), 0, vals[0].len(), 10);
    let g = parse_u32_exec(vals[1].as_slice(), 0, vals[1].len(), 10);
    let b = parse_u32_exec(vals[2].as_slice(), 0, vals[2].len(), 10);
    match (r, g, b) {
        (Some(r), Some(g), Some(b)) => Some((r, g, b)),
        _ => None,
    }
}

fn call_values_exec(s: &Vec<char>, open: usize) -> (r: Vec<Vec<char>>)
    requires
        open < s@.len(),
    ensures
        Seq::new(r@.len(), |i: int| r@[i]@) == call_values(s@, open as int),
{
    let inner = slice_of(s.as_slice(), open, s.len() - 1);
    let vals = split_trimmed(inner.as_slice());
    assert(Seq::new(vals@.len(), |i: int| vals@[i]@) =~= call_values(s@, open as int));
    vals
}

/// The number of bytes UTF-8 takes for `s[from..]`, or 7 when that is more.
fn utf8_len_capped(s: &[char], from: usize) -> (n: usize)
    requires
        from <= s@.len(),
    ensures
        n == if encode_utf8(s@.subrange(from as int, s@.len() as int)).len() < 7 {
            encode_utf8(s@.subrange(from as int, s@.len() as int)).len()
        } else {
            7
        },
{
    let len = s.len();
    let mut i = len;
    let mut acc: usize = 0;
    assert(s@.subrange(len as int, len as int) =~= Seq::<char>::empty());
    while i > from
        invariant
            from <= i <= len,
            len == s@.len(),
            acc == encode_utf8(s@.subrange(i as int, len as int)).len(),
            acc <= 6,
        decreases i,
    {
        let c = s[i - 1];
        let u = c as u32;
        let w: usize = if u <= 0x7F { 1 } else if u <= 0x7FF { 2 } else if u <= 0xFFFF { 3 } else { 4 };
        proof {
            vstd::utf8::char_is_scalar(c);
            assert(s@.subrange(i - 1, len as int).drop_first() =~= s@.subrange(i as int, len as int));
            assert(s@.subrange(i - 1, len as int)[0] == c);
            assert(encode_utf8(s@.subrange(i - 1, len as int)) == vstd::utf8::encode_scalar(u) + encode_utf8(s@.subrange(i as int, len as int)));
            assert(vstd::utf8::encode_scalar(u).len() == w);
        }
        acc = acc + w;
        i = i - 1;
        if acc > 6 {
            proof {
                lemma_utf8_len_grows(s@, from as int, i as int);
            }
            return 7;
        }
    }
    acc
}

proof fn lemma_utf8_len_grows(s: Seq<char>, from: int, i: int)
    requires
        0 <= from <= i <= s.len(),
    ensures
        encode_utf8(s.subrange(i, s.len() as int)).len() <= encode_utf8(s.subrange(from, s.len() as int)).len(),
    decreases i - from,
{
    if from < i {
        lemma_utf8_len_grows(s, from + 1, i);
        assert(s.subrange(from, s.len() as int).drop_first() =~= s.subrange(from + 1, s.len() as int));
    }
}

/// Reads a colour text; see `color_reading`.
pub fn read_color(v: &str) -> (r: ColorText)
    requires
        !hex_cut_inside_char(v@),
    ensures
        r@ == color_reading(v@),
{
    let c = chars_of(v);
    let (a, b) = trim_bounds(c.as_slice(), 0, c.len());
    assert(c@.subrange(0, c@.len() as int) =~= c@);
    let s = slice_of(c.as_slice(), a, b);
    if s.len() > 0 && s[0] == '#' {
        let nb = utf8_len_capped(s.as_slice(), 1);
        assert(s@.subrange(1, s@.len() as int) =~= s@.drop_first());
        match hex_color(&s, nb) {
            Some(r) => {
                return r;
            },
            None => {},
        }
    }
    if is_call_exec(&s, "rgba") {
        proof {
            reveal_strlit("rgba");
        }
        let vals = call_values_exec(&s, 5);
        if vals.len() == 4 {
            assert(vals@[3]@.subrange(0, vals@[3]@.len() as int) =~= vals@[3]@);
            assert(call_values(s@, 5)[3] == vals@[3]@);
            return match three_u32_exec(&vals) {
                Some((r, g, bl)) => ColorText::Rgba {
                    r,
                    g,
                    b: bl,
                    alpha: string_from_range(vals[3].as_slice(), 0, vals[3].len()),
                },
                None => ColorText::NotColor,
            };
        }
    }
    if is_call_exec(&s, "rgb") {
        proof {
            reveal_strlit("rgb");
        }
        let vals = call_values_exec(&s, 4);
        if vals.len() == 3 {
            return match three_u32_exec(&vals) {
                Some((r, g, bl)) => ColorText::Color(0xFF00_0000 | (r << 16) | (g << 8) | bl),
                None => ColorText::NotColor,
            };
        }
    }
    ColorText::NotColor
}

/// Whether `c` is a hex digit.
fn is_hex_digit(c: char) -> (b: bool)
    ensures
        b == digit_value(c, 16) is Some,
{
    ('0' <= c && c <= '9') || ('a' <= c && c <= 'f') || ('A' <= c && c <= 'F')
}

/// Whether reading `v` would cut its hex part inside a character; see
/// `hex_cut_inside_char`.
pub fn hex_cut(v: &str) -> (b: bool)
    ensures
        b == hex_cut_inside_char(v@),
{
    let c = chars_of(v);
    let (a, e) = trim_bounds(c.as_slice(), 0, c.len());
    assert(c@.subrange(0, c@.len() as int) =~= c@);
    let s = slice_of(c.as_slice(), a, e);
    if s.len() == 0 || s[0] != '#' {
        return false;
    }
    let nb = utf8_len_capped(s.as_slice(), 1);
    assert(s@.subrange(1, s@.len() as int) =~= s@.drop_first());
    if nb != 3 {
        return false;
    }
    if s.len() == 1 {
        assert(s@.drop_first() =~= Seq::<char>::empty());
        assert(encode_utf8(Seq::<char>::empty()) =~= Seq::<u8>::empty());
        return false;
    }
    let h0 = s[1];
    assert(s@.drop_first()[0] == h0);
    h0 as u32 >= 0x80 || (s.len() == 3 && is_hex_digit(h0))
}

/// Reads a colour text as `read_color` does, or, where that reading would cut a
/// hex part inside a character (which panics), an error.
pub fn try_read_color(v: &str) -> (r: Result<ColorText, &'static str>)
    ensures
        r is Err <==> hex_cut_inside_char(v@),
        r matches Ok(c) ==> c@ == color_reading(v@),
        r matches Err(e) ==> e@ == "byte index is not a char boundary"@,
{
    if hex_cut(v) {
        Err("byte index is not a char boundary")
    } else {
        Ok(read_color(v))
    }
}

/// The colour a reading stands for: a colour as it is, none for no colour, and for
/// `rgba` the channels packed with the reading `alpha` of its alpha text (none
/// when that text is no number).
pub open spec fn color_value_of(c: ColorReading, alpha: Option<u32>) -> Option<u32> {
    match c {
        ColorReading::Color(v) => Some(v),
        ColorReading::NotColor => None,
        ColorReading::Rgba(r, g, b, _) => match alpha {
            Some(a) => Some((a << 24u32) | (r << 16u32) | (g << 8u32) | b),
            None => None,
        },
    }
}

/// See `color_value_of`.
pub fn color_value(c: &ColorText, alpha: Option<u32>) -> (r: Option<u32>)
    ensures
        r == color_value_of(c@, alpha),
{
    match c {
        ColorText::Color(v) => Some(*v),
        ColorText::NotColor => None,
        ColorText::Rgba { r, g, b, .. } => match alpha {
            Some(a) => Some(pack_rgba(*r, *g, *b, a)),
            None => None,
        },
    }
}

/// A digit reads the same in either case.
proof fn lemma_digit_case(c: char, radix: u32)
    ensures
        digit_value(lower_char(c), radix) == digit_value(c, radix),
{
}

/// Digit texts that differ only in letter case are all digits alike and spell the
/// same number.
proof fn lemma_digits_case(s: Seq<char>, radix: u32)
    ensures
        all_digits(lower(s), radix) == all_digits(s, radix),
        all_digits(s, radix) ==> digits_value(lower(s), radix) == digits_value(s, radix),
    decreases s.len(),
{
    let l = lower(s);
    assert forall|i: int| 0 <= i < s.len() implies #[trigger] digit_value(l[i], radix) == digit_value(s[i], radix) by {
        lemma_digit_case(s[i], radix);
    }
    if !all_digits(s, radix) {
        let i = choose|i: int| 0 <= i < s.len() && !(#[trigger] digit_value(s[i], radix) is Some);
        assert(!(digit_value(l[i], radix) is Some));
    }
    if s.len() > 0 {
        assert(lower(s.drop_last()) =~= l.drop_last());
        lemma_digits_case(s.drop_last(), radix);
        if all_digits(s, radix) {
            assert forall|i: int| 0 <= i < s.drop_last().len() implies (#[trigger] digit_value(s.drop_last()[i], radix)) is Some by {
                assert(digit_value(s[i], radix) is Some);
            }
            assert(digit_value(l.last(), radix) == digit_value(s.last(), radix));
        }
    }
}

/// Hex and decimal numbers are read without regard to letter case:
/// `parse_u32("FF", 16) == parse_u32("ff", 16) == Some(255)`, as
/// `u32::from_str_radix` reads them.
pub proof fn lemma_parse_case_insensitive(s: Seq<char>, radix: u32)
    ensures
        parse_u32(s, radix) == parse_u32(lower(s), radix),
{
    let l = lower(s);
    if s.len() > 0 && s[0] == '+' {
        assert(l[0] == '+');
        assert(lower(s.drop_first()) =~= l.drop_first());
        lemma_digits_case(s.drop_first(), radix);
    } else {
        if s.len() > 0 {
            assert(l[0] != '+');
        }
        lemma_digits_case(s, radix);
    }
}

/// The letters `A`..`F` are hex digits worth 10..15, as `a`..`f` are.
pub proof fn lemma_hex_letters(c: char)
    requires
        'a' <= c <= 'f',
    ensures
        digit_value(c, 16) == Some(c as int - 'a' as int + 10),
        digit_value(((c as u32) - 32) as char, 16) == digit_value(c, 16),
{
}

/// A colour written as hex or with `rgb()` is opaque: its alpha byte is `0xFF`.
pub proof fn lemma_read_colors_opaque(v: Seq<char>)
    ensures
        color_reading(v) matches ColorReading::Color(c) ==> c >> 24u32 == 0xFFu32,
{
    assert(forall|x: u32| #[trigger] (0xFF00_0000u32 | x) >> 24u32 == 0xFFu32) by (bit_vector);
    assert(forall|x: u32, y: u32, z: u32| #[trigger] (0xFF00_0000u32 | x | y | z) >> 24u32 == 0xFFu32) by (bit_vector);
}

} // verus!
