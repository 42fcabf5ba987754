use std::sync::atomic::{AtomicUsize, Ordering};
use viewkit::components::{VComponent, VContent};

type C = VComponent<fn()>;

static CLICKS: AtomicUsize = AtomicUsize::new(0);

fn count_click() {
    CLICKS.fetch_add(1, Ordering::SeqCst);
}

#[test]
fn from_str_splits_embedded_style() {
    let c = C::from_str("  <div>A</div>\n<style> .a{x:1} </style>\n<p>B</p> ");
    assert_eq!(c.render(), "<div>A</div>\n<p>B</p>");
    assert_eq!(c.css(), ".vk-img{width:100%;height:100%;}\n.a{x:1}");
}

#[test]
fn from_str_without_style_keeps_document() {
    let c = C::from_str(" <div>A</div> ");
    assert_eq!(c.render(), " <div>A</div> ");
    assert_eq!(c.css(), ".vk-img{width:100%;height:100%;}");
    let reversed = C::from_str("</style><div/><style>");
    assert_eq!(reversed.render(), "</style><div/><style>");
}

#[test]
fn children_are_rendered_and_joined() {
    let parent = C::from_str("<div><Children /></div>")
        .child(C::from_str("<p>1</p>"))
        .children(vec![C::from_str("<p>2</p>"), C::from_str("<p>3</p>").if_visible(false)]);
    assert_eq!(parent.render(), "<div><p>1</p>\n<p>2</p>\n</div>");
    let other_forms = C::from_str("<a><Children/></a><b><Children></Children></b>").child(C::from_str("x"));
    assert_eq!(other_forms.render(), "<a>x</a><b>x</b>");
}

#[test]
fn content_items_fill_placeholders_in_order() {
    let c = C::from_str("<span><Content type=\"Text\" /></span><i><Content type='text'/></i><Content type='image'/>")
        .text("a<b & c".to_string())
        .text("second".to_string())
        .image("x\"y.png".to_string());
    assert_eq!(
        c.render(),
        "<span>a&lt;b &amp; c</span><i>second</i><img class=\"vk-img\" src=\"x&quot;y.png\" />"
    );
    let spare = C::from_str("<p>no slot</p>").text("lost".to_string());
    assert_eq!(spare.render(), "<p>no slot</p>");
}

#[test]
fn attributes_replace_placeholders() {
    let c = C::from_str("<b id=\"{{ id }}\" class=\"{{ class }}\">{{ label }}{{ label }}</b>")
        .label("Hi".to_string())
        .id("main".to_string())
        .class("big".to_string())
        .label("Hello".to_string());
    assert_eq!(c.render(), "<b id=\"main\" class=\"big\">HelloHello</b>");
    let attrs = c.get_attributes();
    assert_eq!(attrs.len(), 3);
    assert_eq!(attrs[0], ("label".to_string(), "Hello".to_string()));
    assert_eq!(attrs[1], ("id".to_string(), "main".to_string()));
}

#[test]
fn hidden_component_renders_nothing() {
    let c = C::from_str("<div>shown</div>").label("x".to_string()).if_visible(false);
    assert_eq!(c.render(), "");
    assert_eq!(c.if_visible(true).render(), "<div>shown</div>");
}

#[test]
fn css_merges_children_css() {
    let child = C::from_str("<p></p><style>.c{a:b}</style>");
    let parent = C::from_str("<div></div><style>.p{a:b}</style>").child(child).child(C::from_str("<i></i>"));
    let base = ".vk-img{width:100%;height:100%;}";
    assert_eq!(
        parent.css(),
        format!("{base}\n.p{{a:b}}\n{base}\n.c{{a:b}}\n{base}")
    );
}

#[test]
fn click_handler_registered_and_triggered() {
    let c = C::from_str("<button></button>").on_click(count_click);
    assert!(c.has_handler("click"));
    assert!(!c.has_handler("hover"));
    assert!(c.get_handler("hover").is_none());
    let before = CLICKS.load(Ordering::SeqCst);
    c.trigger_handler("click");
    c.trigger_handler("hover");
    assert_eq!(CLICKS.load(Ordering::SeqCst), before + 1);
}

#[test]
fn new_returns_the_component() {
    let c = C::from_str("<x/>").new();
    assert_eq!(c.render(), "<x/>");
    let _ = VContent::string("s".to_string());
    let _ = VContent::image("p".to_string());
}

#[test]
fn string_content_tag_takes_text() {
    let c = C::from_str("<p><Content type='String' /></p>").text("hi".to_string());
    assert_eq!(c.render(), "<p>hi</p>");
    let d = C::from_str("<p><Content type=\"string\"/></p>").text("a<b".to_string());
    assert_eq!(d.render(), "<p>a&lt;b</p>");
}

#[test]
fn hide_then_show_renders_like_shown() {
    let c1 = C::from_str("<b>{{ id }}</b><style>.x{}</style>").id("k".to_string());
    let c2 = C::from_str("<b>{{ id }}</b><style>.x{}</style>").id("k".to_string());
    let hidden = c1.if_visible(false);
    assert_eq!(hidden.render(), "");
    let shown = hidden.if_visible(true);
    let shown2 = c2.if_visible(true);
    assert_eq!(shown.render(), shown2.render());
    assert_eq!(shown.css(), shown2.css());
}

#[test]
fn children_at_once_like_one_by_one() {
    let mk = || C::from_str("<div><Children /></div>");
    let a = || C::from_str("<i>a</i><style>.a{}</style>");
    let b = || C::from_str("<u>b</u>");
    let at_once = mk().children(vec![a(), b()]);
    let one_by_one = mk().child(a()).child(b());
    assert_eq!(at_once.render(), one_by_one.render());
    assert_eq!(at_once.render(), "<div><i>a</i>\n\n<u>b</u></div>");
    assert_eq!(at_once.css(), one_by_one.css());
}
