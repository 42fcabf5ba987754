//! The theme's component index (`index.toml`): the names listed in its
//! `components` array, and the declarations each component is styled with.
use vstd::prelude::*;
use super::CssDeclBuild;
use super::css::{css_decls, decls_view, parse_css_declarations};
use crate::text::{chars_of, string_from_range, trim, trim_bounds};

verus! {

/// The items of the array under `key` in a TOML document as `toml` reads it: each
/// a string or not; `None` when the text is no TOML document or the key holds no
/// array.
pub uninterp spec fn toml_array_strings(text: Seq<char>, key: Seq<char>) -> Option<Seq<Option<Seq<char>>>>;

/// The characters of each item that is a string.
pub open spec fn items_view(items: Seq<Option<String>>) -> Seq<Option<Seq<char>>> {
    Seq::new(
        items.len(),
        |i: int|
            match items[i] {
                Some(s) => Some(s@),
                None => None,
            },
    )
}

/// Parses `text` as a TOML document with `toml::Value`'s `FromStr` and reads the
/// array under `key` (`Value::get`), mapping each item to its string, if it is one.
/// Claimed: the result depends on `text` and `key` alone.
#[verifier::external_body]
fn toml_string_array(text: &str, key: &str) -> (r: Option<Vec<Option<String>>>)
    ensures
        toml_array_strings(text@, key@) == match r {
            Some(v) => Some(items_view(v@)),
            None => None,
        },
{
    match text.parse::<toml::Value>() {
        Ok(v) => match v.get(key) {
            Some(toml::Value::Array(items)) => Some(
                items.iter().map(|i| match i {
                    toml::Value::String(s) => Some(s.clone()),
                    _ => None,
                }).collect(),
            ),
            _ => None,
        },
        Err(_) => None,
    }
}

/// The component names of an index: each string item, trimmed, that is not empty.
pub open spec fn names_of(items: Seq<Option<Seq<char>>>) -> Seq<Seq<char>>
    decreases items.len(),
{
    if items.len() == 0 {
        seq![]
    } else {
        names_of(items.drop_last()) + match items.last() {
            Some(s) => if trim(s).len() > 0 {
                seq![trim(s)]
            } else {
                seq![]
            },
            None => seq![],
        }
    }
}

/// The component names of an index read as `items`; none when it has no
/// `components` array.
pub open spec fn index_names(items: Option<Seq<Option<Seq<char>>>>) -> Seq<Seq<char>> {
    match items {
        Some(v) => names_of(v),
        None => seq![],
    }
}

/// The component names from the items of an index's `components` array; see
/// `index_names`.
pub fn component_names(items: Option<Vec<Option<String>>>) -> (r: Vec<String>)
    ensures
        r@.len() == index_names(
            match items {
                Some(v) => Some(items_view(v@)),
                None => None,
            },
        ).len(),
        forall|i: int|
            0 <= i < r@.len() ==> (#[trigger] r@[i])@ == index_names(
                match items {
                    Some(v) => Some(items_view(v@)),
                    None => None,
                },
            )[i],
{
    let mut out: Vec<String> = Vec::new();
    let v = match items {
        Some(v) => v,
        None => {
            return out;
        },
    };
    let ghost iv = items_view(v@);
    let mut k: usize = 0;
    while k < v.len()
        invariant
            k <= v@.len(),
            iv == items_view(v@),
            out@.len() == names_of(iv.take(k as int)).len(),
            forall|i: int| 0 <= i < out@.len() ==> (#[trigger] out@[i])@ == names_of(iv.take(k as int))[i],
        decreases v.len() - k,
    {
        assert(iv.take(k + 1).drop_last() =~= iv.take(k as int));
        assert(iv.take(k + 1).last() == iv[k as int]);
        match &v[k] {
            Some(name) => {
                let c = chars_of(name.as_str());
                assert(c@.subrange(0, c@.len() as int) =~= c@);
                let (a, b) = trim_bounds(c.as_slice(), 0, c.len());
                if a < b {
                    out.push(string_from_range(c.as_slice(), a, b));
                }
            },
            None => {},
        }
        k = k + 1;
    }
    assert(iv.take(v@.len() as int) =~= iv);
    out
}

/// The component names an index file lists; see `index_names`.
pub fn parse_component_index(text: &str) -> (r: Vec<String>)
    ensures
        r@.len() == index_names(toml_array_strings(text@, "components"@)).len(),
        forall|i: int|
            0 <= i < r@.len() ==> (#[trigger] r@[i])@ == index_names(toml_array_strings(text@, "components"@))[i],
{
    let items = toml_string_array(text, "components");
    component_names(items)
}

fn copy_decl(d: &CssDeclBuild) -> (r: CssDeclBuild)
    ensures
        r.selector@ == d.selector@,
        r.property@ == d.property@,
        r.value@ == d.value@,
{
    CssDeclBuild { selector: d.selector.clone(), property: d.property.clone(), value: d.value.clone() }
}

/// The declarations a component is styled with: the theme's common ones, then
/// those of its own style sheet.
pub fn component_declarations(common: &Vec<CssDeclBuild>, css: &str) -> (r: Vec<CssDeclBuild>)
    ensures
        decls_view(r@) == decls_view(common@) + css_decls(css@),
{
    let mut r: Vec<CssDeclBuild> = Vec::new();
    let mut i: usize = 0;
    while i < common.len()
        invariant
            i <= common@.len(),
            r@.len() == i,
            decls_view(r@) == decls_view(common@.take(i as int)),
        decreases common.len() - i,
    {
        let ghost old_r = r@;
        r.push(copy_decl(&common[i]));
        i = i + 1;
        assert forall|k: int| 0 <= k < r@.len() implies #[trigger] decls_view(r@)[k] == decls_view(common@.take(i as int))[k] by {
            if k < i - 1 {
                assert(decls_view(old_r)[k] == decls_view(common@.take(i - 1))[k]);
            }
        }
        assert(decls_view(r@) =~= decls_view(common@.take(i as int)));
    }
    assert(common@.take(common@.len() as int) =~= common@);
    let own = parse_css_declarations(css);
    let mut j: usize = 0;
    let ghost mid = r@;
    while j < own.len()
        invariant
            j <= own@.len(),
            r@.len() == mid.len() + j,
            decls_view(r@) == decls_view(mid) + decls_view(own@.take(j as int)),
        decreases own.len() - j,
    {
        let ghost old_r = r@;
        r.push(copy_decl(&own[j]));
        j = j + 1;
        assert forall|k: int| 0 <= k < r@.len() implies #[trigger] decls_view(r@)[k] == (decls_view(mid) + decls_view(own@.take(j as int)))[k] by {
            if k < r@.len() - 1 {
                assert(decls_view(old_r)[k] == (decls_view(mid) + decls_view(own@.take(j - 1)))[k]);
            }
        }
        assert(decls_view(r@) =~= decls_view(mid) + decls_view(own@.take(j as int)));
    }
    assert(own@.take(own@.len() as int) =~= own@);
    r
}

} // verus!
