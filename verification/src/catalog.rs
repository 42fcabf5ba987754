//! The catalogue of built-in UI component kinds.
use vstd::prelude::*;

verus! {

#[derive(Clone, Copy, Debug, PartialEq, Eq, Structural)]
pub enum UiComponent {
    Button,
    Label,
    TextField,
    Checkbox,
    Slider,
    ListView,
    Stack,
    Image,
    ScrollView,
    Canvas,
}

/// The upper-case name of each kind.
pub open spec fn ui_component_name(c: UiComponent) -> Seq<char> {
    match c {
        UiComponent::Button => "BUTTON"@,
        UiComponent::Label => "LABEL"@,
        UiComponent::TextField => "TEXTFIELD"@,
        UiComponent::Checkbox => "CHECKBOX"@,
        UiComponent::Slider => "SLIDER"@,
        UiComponent::ListView => "LISTVIEW"@,
        UiComponent::Stack => "STACK"@,
        UiComponent::Image => "IMAGE"@,
        UiComponent::ScrollView => "SCROLLVIEW"@,
        UiComponent::Canvas => "CANVAS"@,
    }
}

impl UiComponent {
    pub fn name(self) -> (r: &'static str)
        ensures
            r@ == ui_component_name(self),
    {
        match self {
            UiComponent::Button => "BUTTON",
            UiComponent::Label => "LABEL",
            UiComponent::TextField => "TEXTFIELD",
            UiComponent::Checkbox => "CHECKBOX",
            UiComponent::Slider => "SLIDER",
            UiComponent::ListView => "LISTVIEW",
            UiComponent::Stack => "STACK",
            UiComponent::Image => "IMAGE",
            UiComponent::ScrollView => "SCROLLVIEW",
            UiComponent::Canvas => "CANVAS",
        }
    }
}

/// Every kind, in declaration order.
pub fn component_catalog() -> (r: [UiComponent; 10])
    ensures
        r@ == seq![
            UiComponent::Button,
            UiComponent::Label,
            UiComponent::TextField,
            UiComponent::Checkbox,
            UiComponent::Slider,
            UiComponent::ListView,
            UiComponent::Stack,
            UiComponent::Image,
            UiComponent::ScrollView,
            UiComponent::Canvas,
        ],
{
    let r = [
        UiComponent::Button,
        UiComponent::Label,
        UiComponent::TextField,
        UiComponent::Checkbox,
        UiComponent::Slider,
        UiComponent::ListView,
        UiComponent::Stack,
        UiComponent::Image,
        UiComponent::ScrollView,
        UiComponent::Canvas,
    ];
    assert(r@ =~= seq![
        UiComponent::Button,
        UiComponent::Label,
        UiComponent::TextField,
        UiComponent::Checkbox,
        UiComponent::Slider,
        UiComponent::ListView,
        UiComponent::Stack,
        UiComponent::Image,
        UiComponent::ScrollView,
        UiComponent::Canvas,
    ]);
    r
}

} // verus!
