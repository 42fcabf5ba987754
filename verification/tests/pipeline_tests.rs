use viewkit::pipeline::display_list::{build, DisplayCommand, DisplayList};
use viewkit::pipeline::dom::{DomDocument, DomNode, DomNodeKind, ElementData};
use viewkit::pipeline::framebuffer::Framebuffer;
use viewkit::pipeline::layout::{LayoutNode, LayoutNodeKind, LayoutTree, Rect};
use viewkit::pipeline::rasterizer::{rasterize, try_rasterize};
use viewkit::pipeline::style::{compute_styles, stylesheet_of, Rule, Stylesheet};
use viewkit::theme::markup::parse_document;

fn el(tag: &str, children: Vec<DomNode>) -> DomNode {
    DomNode {
        kind: DomNodeKind::Element(ElementData { tag_name: tag.to_string(), attributes: vec![] }),
        children,
    }
}

fn text(t: &str) -> DomNode {
    DomNode { kind: DomNodeKind::Text(t.to_string()), children: vec![] }
}

fn pair(k: &str, v: &str) -> (String, String) {
    (k.to_string(), v.to_string())
}

#[test]
fn new_framebuffer_is_opaque_black() {
    let fb = Framebuffer::new(3, 2);
    assert_eq!(fb.width, 3);
    assert_eq!(fb.height, 2);
    assert_eq!(fb.pixels, vec![0xFF000000; 6]);
}

#[test]
fn framebuffer_set_pixel_ignores_off_raster() {
    let mut fb = Framebuffer::new(3, 2);
    fb.set_pixel(2, 1, 7);
    fb.set_pixel(-1, 0, 9);
    fb.set_pixel(3, 0, 9);
    fb.set_pixel(0, 2, 9);
    assert_eq!(fb.pixels, vec![0xFF000000, 0xFF000000, 0xFF000000, 0xFF000000, 0xFF000000, 7]);
}

#[test]
fn framebuffer_fill_rect_clips() {
    let mut fb = Framebuffer::new(4, 3);
    fb.clear(0);
    fb.fill_rect(-1, 1, 3, 5, 5);
    assert_eq!(fb.pixels, vec![0, 0, 0, 0, 5, 5, 0, 0, 5, 5, 0, 0]);
    fb.fill_rect(0, 0, 0, 3, 9);
    assert_eq!(fb.pixels, vec![0, 0, 0, 0, 5, 5, 0, 0, 5, 5, 0, 0]);
}

#[test]
fn styles_apply_matching_rules_last_wins() {
    let dom = DomDocument { root: el("body", vec![el("p", vec![text("hi")]), el("div", vec![])]) };
    let sheet = Stylesheet {
        rules: vec![
            Rule { selector: "*".to_string(), declarations: vec![pair("color", "red"), pair("width", "1px")] },
            Rule { selector: "p".to_string(), declarations: vec![pair("color", "blue")] },
            Rule { selector: "span".to_string(), declarations: vec![pair("color", "green")] },
        ],
    };
    let t = compute_styles(&dom, &sheet);
    assert_eq!(t.root.styles, vec![pair("color", "red"), pair("width", "1px")]);
    assert_eq!(t.root.children[0].styles, vec![pair("color", "blue"), pair("width", "1px")]);
    assert_eq!(t.root.children[1].styles, vec![pair("color", "red"), pair("width", "1px")]);
    // a text node gets no styles
    assert!(t.root.children[0].children[0].styles.is_empty());
}

fn layout_node(rect: Rect, kind: LayoutNodeKind, children: Vec<LayoutNode>) -> LayoutNode {
    LayoutNode { rect, styles: vec![], kind, children }
}

#[test]
fn display_list_is_preorder() {
    let r = |x, y, w, h| Rect { x, y, width: w, height: h };
    let tree = LayoutTree {
        root: layout_node(
            r(0, 0, 10, 10),
            LayoutNodeKind::Element { tag_name: "body".to_string() },
            vec![
                layout_node(r(1, 1, 4, 4), LayoutNodeKind::Element { tag_name: "div".to_string() }, vec![
                    layout_node(r(2, 3, 0, 0), LayoutNodeKind::Text { content: "ab".to_string() }, vec![]),
                ]),
                layout_node(r(5, 5, 2, 2), LayoutNodeKind::Element { tag_name: "p".to_string() }, vec![]),
            ],
        ),
    };
    let d = build(&tree);
    assert_eq!(d.items.len(), 4);
    match &d.items[0] {
        DisplayCommand::FillRect { rect, color } => {
            assert_eq!(*rect, r(0, 0, 10, 10));
            assert_eq!(*color, 0xFF202020);
        },
        _ => panic!("expected a box"),
    }
    match &d.items[1] {
        DisplayCommand::FillRect { color, .. } => assert_eq!(*color, 0xFF2D2D2D),
        _ => panic!("expected a box"),
    }
    match &d.items[2] {
        DisplayCommand::DrawText { x, y, color, text } => {
            assert_eq!((*x, *y, *color, text.as_str()), (2, 3, 0xFFFFFFFF, "ab"));
        },
        _ => panic!("expected text"),
    }
    match &d.items[3] {
        DisplayCommand::FillRect { rect, .. } => assert_eq!(*rect, r(5, 5, 2, 2)),
        _ => panic!("expected a box"),
    }
}

#[test]
fn rasterize_paints_background_then_commands() {
    let list = DisplayList {
        items: vec![
            DisplayCommand::FillRect { rect: Rect { x: 1, y: 0, width: 2, height: 1 }, color: 3 },
            DisplayCommand::DrawText { x: 0, y: 1, color: 4, text: "a".to_string() },
        ],
    };
    let fb = rasterize(&list, 4, 2);
    assert_eq!(fb.width, 4);
    assert_eq!(fb.pixels, vec![0xFF111111, 3, 3, 0xFF111111, 4, 4, 4, 4]);
}

#[test]
fn rasterize_text_blocks_advance_eight() {
    let list = DisplayList { items: vec![DisplayCommand::DrawText { x: 0, y: 0, color: 1, text: "ab".to_string() }] };
    let fb = rasterize(&list, 16, 1);
    let expected: Vec<u32> = (0..16).map(|x| if x < 6 || (8..14).contains(&x) { 1 } else { 0xFF111111 }).collect();
    assert_eq!(fb.pixels, expected);
}

#[test]
fn try_rasterize_checks_size_and_commands() {
    let list = DisplayList { items: vec![DisplayCommand::FillRect { rect: Rect { x: 1, y: 0, width: 2, height: 1 }, color: 3 }] };
    assert_eq!(try_rasterize(&list, 4, 2).unwrap().pixels, rasterize(&list, 4, 2).pixels);
    assert!(try_rasterize(&list, 0x1_0000, 0x1_0000).is_none());
    let far = DisplayList { items: vec![DisplayCommand::DrawText { x: i32::MAX - 7, y: 0, color: 1, text: "ab".to_string() }] };
    assert!(try_rasterize(&far, 4, 2).is_none());
    let edge = DisplayList { items: vec![DisplayCommand::DrawText { x: i32::MAX - 8, y: 0, color: 1, text: "a".to_string() }] };
    assert!(try_rasterize(&edge, 4, 2).is_some());
}

#[test]
fn stylesheet_rule_per_declaration() {
    let s = stylesheet_of("p { color: red; width: 3px } * { margin: 0 }");
    let got: Vec<(String, Vec<(String, String)>)> = s.rules.iter().map(|r| (r.selector.clone(), r.declarations.clone())).collect();
    assert_eq!(
        got,
        vec![
            ("p".to_string(), vec![("color".to_string(), "red".to_string())]),
            ("p".to_string(), vec![("width".to_string(), "3px".to_string())]),
            ("*".to_string(), vec![("margin".to_string(), "0".to_string())]),
        ]
    );
}

#[test]
fn parse_document_gives_html_tree() {
    let d = parse_document("<p>hi</p>");
    // document -> html -> (head, body) -> p -> "hi"
    let html = &d.root.children[0];
    assert!(matches!(&html.kind, DomNodeKind::Element(e) if e.tag_name == "html"));
    let body = &html.children[1];
    let p = &body.children[0];
    assert!(matches!(&p.kind, DomNodeKind::Element(e) if e.tag_name == "p"));
    assert!(matches!(&p.children[0].kind, DomNodeKind::Text(t) if t == "hi"));
}
