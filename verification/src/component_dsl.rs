//! Component templates compiled in ahead of time from the component sources.
use vstd::prelude::*;

verus! {

/// One CSS declaration of a template.
#[derive(Debug)]
pub struct CssDecl {
    pub selector: &'static str,
    pub property: &'static str,
    pub value: &'static str,
}

/// A component template: its root element and its CSS declarations.
#[derive(Debug)]
pub struct ComponentTemplate {
    pub name: &'static str,
    pub root_tag: &'static str,
    pub class_name: &'static str,
    pub hx_get: Option<&'static str>,
    pub hx_post: Option<&'static str>,
    pub declarations: &'static [CssDecl],
}

/// The compiled-in templates. The component source directory of this crate lists
/// no component in an index, so the table is empty.
pub fn templates() -> (r: &'static [ComponentTemplate])
    ensures
        r@.len() == 0,
{
    &[]
}

} // verus!
