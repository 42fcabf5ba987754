//! The theme's CSS: declarations split out of the source text, custom properties,
//! `var()` substitution, selector matching and per-node style computation.
use vstd::prelude::*;
use super::{CssDeclBuild, ParsedValue, Style, ThemeNode};
use crate::keyed::{find_key, insert_entry, keyed_view, lemma_inserted_view, lemma_key_pos_view, set_key, value_of};
use crate::text::{
    chars_of, chars_eq, find, find_chars, is_whitespace, is_ws, lemma_find_from_some, push_range, str_eq,
    string_from_chars, trim, trim_bounds,
};

verus! {

/// The parts of a declaration.
pub open spec fn decl_parts(d: CssDeclBuild) -> (Seq<char>, Seq<char>, Seq<char>) {
    (d.selector@, d.property@, d.value@)
}

/// `property: value` text under selector `sel`: nothing without a colon or when the
/// trimmed property or value is empty.
pub open spec fn one_decl(sel: Seq<char>, d: Seq<char>) -> Seq<(Seq<char>, Seq<char>, Seq<char>)> {
    match find(d, seq![':']) {
        None => seq![],
        Some(k) => {
            let p = trim(d.subrange(0, k));
            let v = trim(d.subrange(k + 1, d.len() as int));
            if p.len() == 0 || v.len() == 0 {
                seq![]
            } else {
                seq![(sel, p, v)]
            }
        },
    }
}

/// The declarations of a rule body: its `;`-separated pieces in order.
pub open spec fn body_decls(sel: Seq<char>, b: Seq<char>) -> Seq<(Seq<char>, Seq<char>, Seq<char>)>
    decreases b.len(),
{
    match find(b, seq![';']) {
        None => one_decl(sel, b),
        Some(k) => {
            proof {
                lemma_find_from_some(b, seq![';'], 0);
            }
            one_decl(sel, b.subrange(0, k)) + body_decls(sel, b.subrange(k + 1, b.len() as int))
        },
    }
}

/// The declarations of one `selector { body` block: nothing without a `{` or with
/// an empty selector.
pub open spec fn block_decls(blk: Seq<char>) -> Seq<(Seq<char>, Seq<char>, Seq<char>)> {
    match find(blk, seq!['{']) {
        None => seq![],
        Some(k) => {
            let sel = trim(blk.subrange(0, k));
            if sel.len() == 0 {
                seq![]
            } else {
                body_decls(sel, blk.subrange(k + 1, blk.len() as int))
            }
        },
    }
}

/// The declarations of a style sheet: its `}`-separated blocks in order.
pub open spec fn css_decls(s: Seq<char>) -> Seq<(Seq<char>, Seq<char>, Seq<char>)>
    decreases s.len(),
{
    match find(s, seq!['}']) {
        None => block_decls(s),
        Some(k) => {
            proof {
                lemma_find_from_some(s, seq!['}'], 0);
            }
            block_decls(s.subrange(0, k)) + css_decls(s.subrange(k + 1, s.len() as int))
        },
    }
}

/// Every part of every declaration is non-empty.
pub open spec fn all_parts_nonempty(ds: Seq<(Seq<char>, Seq<char>, Seq<char>)>) -> bool {
    forall|i: int| 0 <= i < ds.len() ==> (#[trigger] ds[i]).0.len() > 0 && ds[i].1.len() > 0 && ds[i].2.len() > 0
}

proof fn lemma_concat_nonempty(a: Seq<(Seq<char>, Seq<char>, Seq<char>)>, b: Seq<(Seq<char>, Seq<char>, Seq<char>)>)
    requires
        all_parts_nonempty(a),
        all_parts_nonempty(b),
    ensures
        all_parts_nonempty(a + b),
{
    assert forall|i: int| 0 <= i < (a + b).len() implies (#[trigger] (a + b)[i]).0.len() > 0 && (a + b)[i].1.len() > 0
        && (a + b)[i].2.len() > 0 by {
        if i < a.len() {
            assert((a + b)[i] == a[i]);
        } else {
            assert((a + b)[i] == b[i - a.len()]);
        }
    }
}

proof fn lemma_body_nonempty(sel: Seq<char>, b: Seq<char>)
    requires
        sel.len() > 0,
    ensures
        all_parts_nonempty(body_decls(sel, b)),
    decreases b.len(),
{
    match find(b, seq![';']) {
        None => {},
        Some(k) => {
            lemma_find_from_some(b, seq![';'], 0);
            lemma_body_nonempty(sel, b.subrange(k + 1, b.len() as int));
            lemma_concat_nonempty(one_decl(sel, b.subrange(0, k)), body_decls(sel, b.subrange(k + 1, b.len() as int)));
        },
    }
}

/// A style sheet never yields a declaration with an empty selector, property or
/// value.
pub proof fn lemma_decls_nonempty(s: Seq<char>)
    ensures
        all_parts_nonempty(css_decls(s)),
    decreases s.len(),
{
    match find(s, seq!['{']) {
        None => {},
        Some(k) => {
            if trim(s.subrange(0, k)).len() > 0 {
                lemma_body_nonempty(trim(s.subrange(0, k)), s.subrange(k + 1, s.len() as int));
            }
        },
    }
    match find(s, seq!['}']) {
        None => {},
        Some(k) => {
            lemma_find_from_some(s, seq!['}'], 0);
            let blk = s.subrange(0, k);
            match find(blk, seq!['{']) {
                None => {},
                Some(j) => {
                    if trim(blk.subrange(0, j)).len() > 0 {
                        lemma_body_nonempty(trim(blk.subrange(0, j)), blk.subrange(j + 1, blk.len() as int));
                    }
                },
            }
            lemma_decls_nonempty(s.subrange(k + 1, s.len() as int));
            lemma_concat_nonempty(block_decls(blk), css_decls(s.subrange(k + 1, s.len() as int)));
        },
    }
}

pub(crate) fn find_char(s: &[char], c: char) -> (r: Option<usize>)
    ensures
        r matches Some(k) ==> find(s@, seq![c]) == Some(k as int) && k < s@.len(),
        r is None ==> find(s@, seq![c]) is None,
{
    let pat = vec![c];
    assert(pat@ =~= seq![c]);
    proof {
        lemma_find_from_some(s@, seq![c], 0);
    }
    find_chars(s, pat.as_slice(), 0)
}

pub(crate) fn slice_of(s: &[char], a: usize, b: usize) -> (r: Vec<char>)
    requires
        a <= b <= s@.len(),
    ensures
        r@ == s@.subrange(a as int, b as int),
{
    let mut r: Vec<char> = Vec::new();
    push_range(&mut r, s, a, b);
    assert(r@ =~= s@.subrange(a as int, b as int));
    r
}

pub(crate) fn trimmed(s: &[char], a: usize, b: usize) -> (r: Vec<char>)
    requires
        a <= b <= s@.len(),
    ensures
        r@ == trim(s@.subrange(a as int, b as int)),
{
    let (p, q) = trim_bounds(s, a, b);
    slice_of(s, p, q)
}

fn push_decls(out: &mut Vec<CssDeclBuild>, more: Vec<CssDeclBuild>)
    ensures
        final(out)@ == old(out)@ + more@,
{
    let mut m = more;
    out.append(&mut m);
}

/// The views of a list of declarations.
pub open spec fn decls_view(ds: Seq<CssDeclBuild>) -> Seq<(Seq<char>, Seq<char>, Seq<char>)> {
    Seq::new(ds.len(), |i: int| decl_parts(ds[i]))
}

proof fn lemma_decls_view_add(a: Seq<CssDeclBuild>, b: Seq<CssDeclBuild>)
    ensures
        decls_view(a + b) == decls_view(a) + decls_view(b),
{
    assert(decls_view(a + b) =~= decls_view(a) + decls_view(b));
}

fn one_decl_exec(sel: &Vec<char>, d: &[char]) -> (r: Vec<CssDeclBuild>)
    ensures
        decls_view(r@) == one_decl(sel@, d@),
{
    let mut r: Vec<CssDeclBuild> = Vec::new();
    let n = d.len();
    match find_char(d, ':') {
        None => {},
        Some(k) => {
            let p = trimmed(d, 0, k);
            let v = trimmed(d, k + 1, n);
            if p.len() > 0 && v.len() > 0 {
                r.push(
                    CssDeclBuild {
                        selector: string_from_chars(sel.as_slice()),
                        property: string_from_chars(p.as_slice()),
                        value: string_from_chars(v.as_slice()),
                    },
                );
            }
        },
    }
    assert(decls_view(r@) =~= one_decl(sel@, d@));
    r
}

fn body_decls_exec(sel: &Vec<char>, b: &[char]) -> (r: Vec<CssDeclBuild>)
    ensures
        decls_view(r@) == body_decls(sel@, b@),
    decreases b@.len(),
{
    let n = b.len();
    match find_char(b, ';') {
        None => one_decl_exec(sel, b),
        Some(k) => {
            let head = slice_of(b, 0, k);
            let tail = slice_of(b, k + 1, n);
            let mut r = one_decl_exec(sel, head.as_slice());
            let rest = body_decls_exec(sel, tail.as_slice());
            proof {
                lemma_decls_view_add(r@, rest@);
            }
            push_decls(&mut r, rest);
            r
        },
    }
}

fn block_decls_exec(blk: &[char]) -> (r: Vec<CssDeclBuild>)
    ensures
        decls_view(r@) == block_decls(blk@),
{
    let n = blk.len();
    match find_char(blk, '{') {
        None => {
            let r: Vec<CssDeclBuild> = Vec::new();
            assert(decls_view(r@) =~= block_decls(blk@));
            r
        },
        Some(k) => {
            let sel = trimmed(blk, 0, k);
            if sel.len() == 0 {
                let r: Vec<CssDeclBuild> = Vec::new();
                assert(decls_view(r@) =~= block_decls(blk@));
                r
            } else {
                let body = slice_of(blk, k + 1, n);
                body_decls_exec(&sel, body.as_slice())
            }
        },
    }
}

fn css_decls_exec(s: &[char]) -> (r: Vec<CssDeclBuild>)
    ensures
        decls_view(r@) == css_decls(s@),
    decreases s@.len(),
{
    let n = s.len();
    match find_char(s, '}') {
        None => block_decls_exec(s),
        Some(k) => {
            let head = slice_of(s, 0, k);
            let tail = slice_of(s, k + 1, n);
            let mut r = block_decls_exec(head.as_slice());
            let rest = css_decls_exec(tail.as_slice());
            proof {
                lemma_decls_view_add(r@, rest@);
            }
            push_decls(&mut r, rest);
            r
        },
    }
}

/// The declarations of a style sheet, in source order; see `css_decls`.
pub fn parse_css_declarations(css: &str) -> (r: Vec<CssDeclBuild>)
    ensures
        decls_view(r@) == css_decls(css@),
{
    let s = chars_of(css);
    css_decls_exec(s.as_slice())
}

} // verus!

verus! {

/// A declaration of a custom property: under `:root`, with a name starting `--`.
pub open spec fn is_var_decl(d: CssDeclBuild) -> bool {
    d.selector@ == ":root"@ && d.property@.len() >= 2 && d.property@[0] == '-' && d.property@[1] == '-'
}

/// The custom properties declared by `ds`, a later declaration of a name
/// replacing an earlier one.
pub open spec fn css_vars(ds: Seq<CssDeclBuild>) -> Seq<(Seq<char>, String)>
    decreases ds.len(),
{
    if ds.len() == 0 {
        seq![]
    } else {
        let prev = css_vars(ds.drop_last());
        if is_var_decl(ds.last()) {
            set_key(prev, ds.last().property@, ds.last().value)
        } else {
            prev
        }
    }
}

fn starts_with_dashes(s: &str) -> (r: bool)
    ensures
        r == (s@.len() >= 2 && s@[0] == '-' && s@[1] == '-'),
{
    let v = chars_of(s);
    v.len() >= 2 && v[0] == '-' && v[1] == '-'
}

/// The custom properties of the declarations.
pub fn parse_css_vars(decls: &Vec<CssDeclBuild>) -> (vars: Vec<(String, String)>)
    ensures
        keyed_view(vars@) == css_vars(decls@),
{
    let mut vars: Vec<(String, String)> = Vec::new();
    let mut i: usize = 0;
    while i < decls.len()
        invariant
            i <= decls@.len(),
            keyed_view(vars@) == css_vars(decls@.take(i as int)),
        decreases decls.len() - i,
    {
        let d = &decls[i];
        assert(decls@.take(i + 1).drop_last() =~= decls@.take(i as int));
        if str_eq(d.selector.as_str(), ":root") && starts_with_dashes(d.property.as_str()) {
            let k = d.property.clone();
            let v = d.value.clone();
            proof {
                lemma_inserted_view(vars@, k, v);
            }
            insert_entry(&mut vars, k, v);
        }
        i = i + 1;
    }
    assert(decls@.take(decls@.len() as int) =~= decls@);
    vars
}

/// A value after `var()` substitution: the trimmed value, or, when it reads
/// `var(name)` and `name` (trimmed) is a known custom property, that property's value.
pub open spec fn resolved(value: Seq<char>, vars: Seq<(Seq<char>, String)>) -> Seq<char> {
    let s = trim(value);
    if s.len() >= 5 && s.subrange(0, 4) == "var("@ && s.last() == ')' {
        match value_of(vars, trim(s.subrange(4, s.len() - 1))) {
            Some(v) => v@,
            None => s,
        }
    } else {
        s
    }
}

/// Substitutes a `var()` reference.
pub fn resolve_vars(value: &str, vars: &Vec<(String, String)>) -> (r: String)
    ensures
        r@ == resolved(value@, keyed_view(vars@)),
{
    let v = chars_of(value);
    assert(v@.subrange(0, v@.len() as int) =~= v@);
    let (a, b) = trim_bounds(v.as_slice(), 0, v.len());
    let s = slice_of(v.as_slice(), a, b);
    let prefix = chars_of("var(");
    proof {
        reveal_strlit("var(");
    }
    if s.len() >= 5 && s[s.len() - 1] == ')' {
        let head = slice_of(s.as_slice(), 0, 4);
        if chars_eq(head.as_slice(), prefix.as_slice()) {
            let key = trimmed(s.as_slice(), 4, s.len() - 1);
            let key_s = string_from_chars(key.as_slice());
            proof {
                lemma_key_pos_view(vars@, key@);
                crate::keyed::lemma_key_index(vars@, key@);
            }
            match find_key(vars, key_s.as_str()) {
                Some(i) => {
                    return vars[i].1.clone();
                },
                None => {},
            }
        }
    }
    string_from_chars(s.as_slice())
}

/// The selector text names the node: after trimming, `:root` names no node; a
/// selector with spaces is decided by its last word; `.name` names nodes with that
/// class; anything else names nodes with that tag.
pub open spec fn theme_selector_matches(selector: Seq<char>, node: ThemeNode) -> bool {
    let s = trim(selector);
    if s == ":root"@ {
        false
    } else if s.contains(' ') {
        simple_selector_matches(last_word(s), node)
    } else {
        simple_selector_matches(s, node)
    }
}

/// A selector without spaces: `.name` or a tag.
pub open spec fn simple_selector_matches(s: Seq<char>, node: ThemeNode) -> bool {
    if s.len() > 0 && s[0] == '.' {
        exists|i: int| 0 <= i < node.classes@.len() && (#[trigger] node.classes@[i])@ == s.subrange(1, s.len() as int)
    } else {
        s == node.tag@
    }
}

/// The last word of a string that ends in a non-whitespace character: what
/// follows its last whitespace character.
pub open spec fn last_word(s: Seq<char>) -> Seq<char>
    decreases s.len(),
{
    if s.len() == 0 {
        s
    } else if is_ws(s.last()) {
        seq![]
    } else {
        last_word(s.drop_last()).push(s.last())
    }
}

proof fn lemma_last_word(s: Seq<char>, k: int)
    requires
        0 <= k <= s.len(),
        forall|j: int| k <= j < s.len() ==> !is_ws(#[trigger] s[j]),
        k > 0 ==> is_ws(s[k - 1]),
    ensures
        last_word(s) == s.subrange(k, s.len() as int),
    decreases s.len(),
{
    if s.len() > k {
        lemma_last_word(s.drop_last(), k);
        assert(s.drop_last().subrange(k, s.len() - 1).push(s.last()) =~= s.subrange(k, s.len() as int));
    } else if k > 0 {
        assert(s.subrange(k, s.len() as int) =~= seq![]);
    } else {
        assert(s.subrange(k, s.len() as int) =~= s);
    }
}

fn simple_selector_matches_exec(s: &Vec<char>, node: &ThemeNode) -> (r: bool)
    ensures
        r == simple_selector_matches(s@, *node),
{
    if s.len() > 0 && s[0] == '.' {
        let class = slice_of(s.as_slice(), 1, s.len());
        let mut i: usize = 0;
        while i < node.classes.len()
            invariant
                i <= node.classes@.len(),
                s@.len() > 0,
                s@[0] == '.',
                class@ == s@.subrange(1, s@.len() as int),
                forall|j: int| 0 <= j < i ==> (#[trigger] node.classes@[j])@ != class@,
            decreases node.classes.len() - i,
        {
            let c = chars_of(node.classes[i].as_str());
            if chars_eq(c.as_slice(), class.as_slice()) {
                assert(node.classes@[i as int]@ == s@.subrange(1, s@.len() as int));
                assert(s@[0] == '.');
                assert(exists|j: int| 0 <= j < node.classes@.len() && (#[trigger] node.classes@[j])@ == s@.subrange(1, s@.len() as int));
                return true;
            }
            i = i + 1;
        }
        false
    } else {
        let t = chars_of(node.tag.as_str());
        chars_eq(s.as_slice(), t.as_slice())
    }
}

/// Whether a theme selector matches the node; see `theme_selector_matches`.
pub fn selector_matches(selector: &str, node: &ThemeNode) -> (r: bool)
    ensures
        r == theme_selector_matches(selector@, *node),
{
    let v = chars_of(selector);
    let s = trimmed(v.as_slice(), 0, v.len());
    assert(v@.subrange(0, v@.len() as int) =~= v@);
    let root = chars_of(":root");
    if chars_eq(s.as_slice(), root.as_slice()) {
        return false;
    }
    let mut has_space = false;
    let mut i: usize = 0;
    while i < s.len()
        invariant
            i <= s@.len(),
            has_space == exists|j: int| 0 <= j < i && s@[j] == ' ',
        decreases s.len() - i,
    {
        if s[i] == ' ' {
            has_space = true;
        }
        i = i + 1;
    }
    assert(has_space == s@.contains(' '));
    if has_space {
        let mut k = s.len();
        while k > 0 && !is_whitespace(s[k - 1])
            invariant
                k <= s@.len(),
                forall|j: int| k <= j < s@.len() ==> !is_ws(#[trigger] s@[j]),
            decreases k,
        {
            k = k - 1;
        }
        proof {
            lemma_last_word(s@, k as int);
        }
        let last = slice_of(s.as_slice(), k, s.len());
        simple_selector_matches_exec(&last, node)
    } else {
        simple_selector_matches_exec(&s, node)
    }
}

/// The value a length property takes: its pixel reading, or the current value
/// when the text is not a length.
pub open spec fn px_or(pv: ParsedValue, current: i32) -> i32 {
    match pv.px {
        Some(v) => v,
        None => current,
    }
}

/// The style after one matching declaration `prop: v` whose value reads as `pv`.
pub open spec fn apply_decl(st: Style, prop: Seq<char>, v: Seq<char>, pv: ParsedValue) -> Style {
    if prop == "display"@ {
        Style { display_flex: v == "flex"@, ..st }
    } else if prop == "justify-content"@ {
        Style { justify_center: v == "center"@, ..st }
    } else if prop == "align-items"@ {
        Style { align_center: v == "center"@, ..st }
    } else if prop == "position"@ {
        Style { position_absolute: v == "absolute"@, position_relative: v == "relative"@, ..st }
    } else if prop == "left"@ {
        Style { left: px_or(pv, st.left), ..st }
    } else if prop == "top"@ {
        Style { top: px_or(pv, st.top), ..st }
    } else if prop == "width"@ {
        Style { width: px_or(pv, st.width), ..st }
    } else if prop == "height"@ {
        Style { height: px_or(pv, st.height), ..st }
    } else if prop == "padding"@ {
        Style { padding: px_or(pv, st.padding), ..st }
    } else if prop == "margin-bottom"@ {
        Style { margin_bottom: px_or(pv, st.margin_bottom), ..st }
    } else if prop == "line-height"@ {
        Style { line_height: px_or(pv, st.line_height), ..st }
    } else if prop == "background"@ || prop == "background-color"@ {
        Style { background: pv.color, ..st }
    } else if prop == "color"@ {
        Style { color: pv.color, ..st }
    } else if prop == "border-radius"@ {
        Style { border_radius: px_or(pv, st.border_radius), ..st }
    } else if prop == "box-shadow"@ {
        Style { box_shadow: pv.shadow, ..st }
    } else if prop == "border"@ {
        Style { border_width: pv.border_width, border_color: pv.border_color, ..st }
    } else {
        st
    }
}

/// `background-color` sets a style's background just as `background` does: to
/// the colour the value reads as (none when it reads as no colour), leaving every
/// other property as it was.
pub proof fn lemma_background_properties(st: Style, v: Seq<char>, pv: ParsedValue)
    ensures
        apply_decl(st, "background-color"@, v, pv) == (Style { background: pv.color, ..st }),
        apply_decl(st, "background"@, v, pv) == (Style { background: pv.color, ..st }),
{
    reveal_strlit("display");
    reveal_strlit("justify-content");
    reveal_strlit("align-items");
    reveal_strlit("position");
    reveal_strlit("left");
    reveal_strlit("top");
    reveal_strlit("width");
    reveal_strlit("height");
    reveal_strlit("padding");
    reveal_strlit("margin-bottom");
    reveal_strlit("line-height");
    reveal_strlit("background");
    reveal_strlit("background-color");
    assert("background"@ != "display"@) by { assert("background"@.len() != "display"@.len()); }
    assert("background"@ != "justify-content"@) by { assert("background"@.len() != "justify-content"@.len()); }
    assert("background"@ != "align-items"@) by { assert("background"@.len() != "align-items"@.len()); }
    assert("background"@ != "position"@) by { assert("background"@.len() != "position"@.len()); }
    assert("background"@ != "left"@) by { assert("background"@.len() != "left"@.len()); }
    assert("background"@ != "top"@) by { assert("background"@.len() != "top"@.len()); }
    assert("background"@ != "width"@) by { assert("background"@.len() != "width"@.len()); }
    assert("background"@ != "height"@) by { assert("background"@.len() != "height"@.len()); }
    assert("background"@ != "padding"@) by { assert("background"@.len() != "padding"@.len()); }
    assert("background"@ != "margin-bottom"@) by { assert("background"@.len() != "margin-bottom"@.len()); }
    assert("background"@ != "line-height"@) by { assert("background"@.len() != "line-height"@.len()); }
    assert("background-color"@ != "display"@) by { assert("background-color"@.len() != "display"@.len()); }
    assert("background-color"@ != "justify-content"@) by { assert("background-color"@.len() != "justify-content"@.len()); }
    assert("background-color"@ != "align-items"@) by { assert("background-color"@.len() != "align-items"@.len()); }
    assert("background-color"@ != "position"@) by { assert("background-color"@.len() != "position"@.len()); }
    assert("background-color"@ != "left"@) by { assert("background-color"@.len() != "left"@.len()); }
    assert("background-color"@ != "top"@) by { assert("background-color"@.len() != "top"@.len()); }
    assert("background-color"@ != "width"@) by { assert("background-color"@.len() != "width"@.len()); }
    assert("background-color"@ != "height"@) by { assert("background-color"@.len() != "height"@.len()); }
    assert("background-color"@ != "padding"@) by { assert("background-color"@.len() != "padding"@.len()); }
    assert("background-color"@ != "margin-bottom"@) by { assert("background-color"@.len() != "margin-bottom"@.len()); }
    assert("background-color"@ != "line-height"@) by { assert("background-color"@.len() != "line-height"@.len()); }
}

/// The last declaration decides a node's background when it matches the node and
/// sets `background` or `background-color`: the node's style then has that
/// declaration's colour reading as its background.
pub proof fn lemma_last_background_wins(
    node: ThemeNode,
    ds: Seq<CssDeclBuild>,
    vs: Seq<ParsedValue>,
    vars: Seq<(Seq<char>, String)>,
)
    requires
        ds.len() > 0,
        vs.len() == ds.len(),
        theme_selector_matches(ds.last().selector@, node),
        ds.last().property@ == "background"@ || ds.last().property@ == "background-color"@,
    ensures
        node_style(node, ds, vs, vars).background == vs.last().color,
{
    let n = ds.len();
    let prev = styled_by(node, ds, vs, vars, (n - 1) as nat);
    lemma_background_properties(prev, resolved(ds[n - 1].value@, vars), vs[n - 1]);
}

/// The style with nothing set.
pub open spec fn empty_style() -> Style {
    Style {
        position_relative: false,
        position_absolute: false,
        display_flex: false,
        justify_center: false,
        align_center: false,
        left: 0,
        top: 0,
        width: 0,
        height: 0,
        padding: 0,
        margin_bottom: 0,
        line_height: 0,
        background: None,
        color: None,
        border_radius: 0,
        border_width: 0,
        border_color: None,
        box_shadow: None,
    }
}

/// The style after the first `n` declarations, each applied when it matches the node.
pub open spec fn styled_by(
    node: ThemeNode,
    ds: Seq<CssDeclBuild>,
    vs: Seq<ParsedValue>,
    vars: Seq<(Seq<char>, String)>,
    n: nat,
) -> Style
    decreases n,
{
    if n == 0 {
        empty_style()
    } else {
        let prev = styled_by(node, ds, vs, vars, (n - 1) as nat);
        let d = ds[n - 1];
        if theme_selector_matches(d.selector@, node) {
            apply_decl(prev, d.property@, resolved(d.value@, vars), vs[n - 1])
        } else {
            prev
        }
    }
}

/// The line height used when none is set.
pub open spec fn font_h() -> i32 {
    7
}

/// The computed style of a node: the matching declarations applied in order, and
/// a line height of `font_h()` where none (or none positive) is set.
pub open spec fn node_style(
    node: ThemeNode,
    ds: Seq<CssDeclBuild>,
    vs: Seq<ParsedValue>,
    vars: Seq<(Seq<char>, String)>,
) -> Style {
    let st = styled_by(node, ds, vs, vars, ds.len());
    if st.line_height <= 0 {
        Style { line_height: font_h(), ..st }
    } else {
        st
    }
}

fn is(a: &String, lit: &str) -> (r: bool)
    ensures
        r == (a@ == lit@),
{
    str_eq(a.as_str(), lit)
}

fn apply_decl_exec(st: Style, prop: &String, v: &String, pv: ParsedValue) -> (r: Style)
    ensures
        r == apply_decl(st, prop@, v@, pv),
{
    let px = match pv.px {
        Some(p) => Some(p),
        None => None,
    };
    if is(prop, "display") {
        Style { display_flex: is(v, "flex"), ..st }
    } else if is(prop, "justify-content") {
        Style { justify_center: is(v, "center"), ..st }
    } else if is(prop, "align-items") {
        Style { align_center: is(v, "center"), ..st }
    } else if is(prop, "position") {
        Style { position_absolute: is(v, "absolute"), position_relative: is(v, "relative"), ..st }
    } else if is(prop, "left") {
        Style { left: match px { Some(p) => p, None => st.left }, ..st }
    } else if is(prop, "top") {
        Style { top: match px { Some(p) => p, None => st.top }, ..st }
    } else if is(prop, "width") {
        Style { width: match px { Some(p) => p, None => st.width }, ..st }
    } else if is(prop, "height") {
        Style { height: match px { Some(p) => p, None => st.height }, ..st }
    } else if is(prop, "padding") {
        Style { padding: match px { Some(p) => p, None => st.padding }, ..st }
    } else if is(prop, "margin-bottom") {
        Style { margin_bottom: match px { Some(p) => p, None => st.margin_bottom }, ..st }
    } else if is(prop, "line-height") {
        Style { line_height: match px { Some(p) => p, None => st.line_height }, ..st }
    } else if is(prop, "background") || is(prop, "background-color") {
        Style { background: pv.color, ..st }
    } else if is(prop, "color") {
        Style { color: pv.color, ..st }
    } else if is(prop, "border-radius") {
        Style { border_radius: match px { Some(p) => p, None => st.border_radius }, ..st }
    } else if is(prop, "box-shadow") {
        Style { box_shadow: pv.shadow, ..st }
    } else if is(prop, "border") {
        Style { border_width: pv.border_width, border_color: pv.border_color, ..st }
    } else {
        st
    }
}

fn default_style() -> (s: Style)
    ensures
        s == empty_style(),
{
    Style {
        position_relative: false,
        position_absolute: false,
        display_flex: false,
        justify_center: false,
        align_center: false,
        left: 0,
        top: 0,
        width: 0,
        height: 0,
        padding: 0,
        margin_bottom: 0,
        line_height: 0,
        background: None,
        color: None,
        border_radius: 0,
        border_width: 0,
        border_color: None,
        box_shadow: None,
    }
}

/// The value of each declaration after `var()` substitution, in order.
pub fn resolved_values(decls: &Vec<CssDeclBuild>) -> (r: Vec<String>)
    ensures
        r@.len() == decls@.len(),
        forall|i: int| 0 <= i < r@.len() ==> (#[trigger] r@[i])@ == resolved(decls@[i].value@, css_vars(decls@)),
{
    let vars = parse_css_vars(decls);
    let mut r: Vec<String> = Vec::new();
    let mut i: usize = 0;
    while i < decls.len()
        invariant
            i <= decls@.len(),
            keyed_view(vars@) == css_vars(decls@),
            r@.len() == i,
            forall|j: int| 0 <= j < i ==> (#[trigger] r@[j])@ == resolved(decls@[j].value@, css_vars(decls@)),
        decreases decls.len() - i,
    {
        r.push(resolve_vars(decls[i].value.as_str(), &vars));
        i = i + 1;
    }
    r
}

/// The computed style of a node; see `node_style`.
pub fn style_for_node(
    node: &ThemeNode,
    decls: &Vec<CssDeclBuild>,
    values: &Vec<ParsedValue>,
    vars: &Vec<(String, String)>,
) -> (st: Style)
    requires
        values@.len() == decls@.len(),
    ensures
        st == node_style(*node, decls@, values@, keyed_view(vars@)),
{
    let mut style = default_style();
    let mut i: usize = 0;
    while i < decls.len()
        invariant
            i <= decls@.len(),
            values@.len() == decls@.len(),
            style == styled_by(*node, decls@, values@, keyed_view(vars@), i as nat),
        decreases decls.len() - i,
    {
        let d = &decls[i];
        if selector_matches(d.selector.as_str(), node) {
            let value = resolve_vars(d.value.as_str(), vars);
            style = apply_decl_exec(style, &d.property, &value, values[i]);
        }
        i = i + 1;
    }
    if style.line_height <= 0 {
        style.line_height = 7;
    }
    style
}

} // verus!
