//! Rendering a preview frame of a component theme from its sources: the theme's
//! CSS declarations, each component's markup tree, and the numeric readings of
//! the declaration values.
use vstd::prelude::*;

pub mod color;
pub mod css;
pub mod index;
pub mod markup;
pub mod paint;
pub mod raster;
pub mod reading;
pub mod bounds;

verus! {

/// One declaration `selector { property: value }`, each part trimmed.
#[derive(Debug, Clone)]
pub struct CssDeclBuild {
    pub selector: String,
    pub property: String,
    pub value: String,
}

/// An element of a component's markup: its tag, classes, the text directly inside
/// it (trimmed pieces joined by spaces) and its child elements.
#[derive(Debug)]
pub struct ThemeNode {
    pub tag: String,
    pub classes: Vec<String>,
    pub text: String,
    pub children: Vec<ThemeNode>,
}

#[derive(Clone, Copy, Debug, PartialEq, Eq, Structural)]
pub struct Shadow {
    pub dx: i32,
    pub dy: i32,
    pub blur: i32,
    pub spread: i32,
    pub color: u32,
}

/// The numeric readings of a declaration's value (after `var()` substitution): as
/// a pixel length, as a colour, as a border shorthand and as a box shadow.
#[derive(Clone, Copy, Debug, PartialEq, Eq, Structural)]
pub struct ParsedValue {
    pub px: Option<i32>,
    pub color: Option<u32>,
    pub border_width: i32,
    pub border_color: Option<u32>,
    pub shadow: Option<Shadow>,
}

/// A component of the theme: its name, its markup tree, its declarations (the
/// common ones first) and, for each declaration, the readings of its value.
#[derive(Debug)]
pub struct ThemeComponent {
    pub name: String,
    pub root: ThemeNode,
    pub declarations: Vec<CssDeclBuild>,
    pub values: Vec<ParsedValue>,
}

/// The computed style of a node.
#[derive(Clone, Copy, Debug, PartialEq, Eq, Structural)]
pub struct Style {
    pub position_relative: bool,
    pub position_absolute: bool,
    pub display_flex: bool,
    pub justify_center: bool,
    pub align_center: bool,
    pub left: i32,
    pub top: i32,
    pub width: i32,
    pub height: i32,
    pub padding: i32,
    pub margin_bottom: i32,
    pub line_height: i32,
    pub background: Option<u32>,
    pub color: Option<u32>,
    pub border_radius: i32,
    pub border_width: i32,
    pub border_color: Option<u32>,
    pub box_shadow: Option<Shadow>,
}

} // verus!
