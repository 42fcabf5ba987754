use viewkit::pipeline::dom::{DomNode, DomNodeKind, ElementData};
use viewkit::theme::color::{color_value, pack_rgba, read_color, try_read_color, ColorText};
use viewkit::theme::reading::{border_choice, border_words, px_text, reading_kind, shadow_choice, shadow_words, BorderWord, ReadingKind};
use viewkit::theme::css::{parse_css_declarations, parse_css_vars, resolve_vars, resolved_values, selector_matches, style_for_node};
use viewkit::theme::index::{component_declarations, component_names, parse_component_index};
use viewkit::theme::markup::{build_node, find_first_renderable_element, parse_theme_root_node, theme_root_of};
use viewkit::theme::{CssDeclBuild, ParsedValue, Shadow, ThemeNode};

fn decl(s: &str, p: &str, v: &str) -> CssDeclBuild {
    CssDeclBuild { selector: s.to_string(), property: p.to_string(), value: v.to_string() }
}

fn parts(ds: &[CssDeclBuild]) -> Vec<(String, String, String)> {
    ds.iter().map(|d| (d.selector.clone(), d.property.clone(), d.value.clone())).collect()
}

fn t3(a: &str, b: &str, c: &str) -> (String, String, String) {
    (a.to_string(), b.to_string(), c.to_string())
}

fn node(tag: &str, classes: &[&str]) -> ThemeNode {
    ThemeNode {
        tag: tag.to_string(),
        classes: classes.iter().map(|c| c.to_string()).collect(),
        text: String::new(),
        children: vec![],
    }
}

fn none() -> ParsedValue {
    ParsedValue { px: None, color: None, border_width: 0, border_color: None, shadow: None }
}

fn px(v: i32) -> ParsedValue {
    ParsedValue { px: Some(v), ..none() }
}

fn color(c: u32) -> ParsedValue {
    ParsedValue { color: Some(c), ..none() }
}

#[test]
fn css_declarations_skip_empty_parts() {
    let ds = parse_css_declarations("a { color: red; width:1px;; :x; y: } b{} {z:1} .c { p : v }");
    assert_eq!(parts(&ds), vec![t3("a", "color", "red"), t3("a", "width", "1px"), t3(".c", "p", "v")]);
    assert!(parse_css_declarations("").is_empty());
    assert!(parse_css_declarations("no braces here").is_empty());
}

#[test]
fn css_vars_last_declaration_wins() {
    let ds = vec![
        decl(":root", "--main", "#fff"),
        decl(":root", "color", "x"),
        decl("a", "--x", "1"),
        decl(" :root", "--y", "2"),
        decl(":root", "--main", "#000"),
    ];
    let vars = parse_css_vars(&ds);
    assert_eq!(vars, vec![("--main".to_string(), "#000".to_string())]);
    assert_eq!(resolve_vars(" var( --main ) ", &vars), "#000");
    assert_eq!(resolve_vars("var(--nope)", &vars), "var(--nope)");
    assert_eq!(resolve_vars("  12px ", &vars), "12px");
    assert_eq!(resolved_values(&ds), vec!["#fff", "x", "1", "2", "#000"]);
}

#[test]
fn selectors_match_classes_tags_and_last_word() {
    let n = node("div", &["a", "b"]);
    assert!(selector_matches(".a", &n));
    assert!(selector_matches(" .b ", &n));
    assert!(!selector_matches(".c", &n));
    assert!(selector_matches("div", &n));
    assert!(!selector_matches(":root", &n));
    assert!(selector_matches("section  .a", &n));
    assert!(!selector_matches(".a span", &n));
    assert!(!selector_matches("span", &n));
}

#[test]
fn style_applies_matching_declarations_in_order() {
    let n = node("div", &["card"]);
    let ds = vec![
        decl(".card", "width", "10px"),
        decl("div", "display", "flex"),
        decl(".other", "height", "5px"),
        decl(".card", "line-height", "0"),
        decl("div", "color", "var(--c)"),
        decl(":root", "--c", "#fff"),
        decl(".card", "width", "oops"),
        decl(".card", "position", "absolute"),
        decl(".card", "border", "2px #000"),
    ];
    let values = vec![
        px(10),
        none(),
        px(5),
        px(0),
        color(0xFFFFFFFF),
        none(),
        none(),
        none(),
        ParsedValue { border_width: 2, border_color: Some(0xFF000000), ..none() },
    ];
    let vars = parse_css_vars(&ds);
    let st = style_for_node(&n, &ds, &values, &vars);
    assert_eq!(st.width, 10);
    assert!(st.display_flex);
    assert_eq!(st.height, 0);
    assert_eq!(st.line_height, 7);
    assert_eq!(st.color, Some(0xFFFFFFFF));
    assert!(st.position_absolute);
    assert!(!st.position_relative);
    assert_eq!((st.border_width, st.border_color), (2, Some(0xFF000000)));
    assert_eq!(st.background, None);
}

#[test]
fn colors_read_hex_and_rgb() {
    assert_eq!(read_color("#ff0000"), ColorText::Color(0xFFFF0000));
    assert_eq!(read_color(" #abc "), ColorText::Color(0xFFAABBCC));
    assert_eq!(read_color("rgb(1, 2, 3)"), ColorText::Color(0xFF010203));
    assert_eq!(read_color("rgb(300, 0, 0)"), ColorText::Color(0xFF2C0000));
    assert_eq!(read_color("#+12345"), ColorText::Color(0xFF012345));
    assert_eq!(
        read_color("rgba(1,2,3, 0.5 )"),
        ColorText::Rgba { r: 1, g: 2, b: 3, alpha: "0.5".to_string() }
    );
}

#[test]
fn colors_that_do_not_read() {
    assert_eq!(read_color("#12345"), ColorText::NotColor);
    assert_eq!(read_color("#zzzzzz"), ColorText::NotColor);
    assert_eq!(read_color("#ab"), ColorText::NotColor);
    assert_eq!(read_color("rgb(1,2)"), ColorText::NotColor);
    assert_eq!(read_color("rgb(1,-2,3)"), ColorText::NotColor);
    assert_eq!(read_color("rgba(1,2,x,1)"), ColorText::NotColor);
    assert_eq!(read_color("red"), ColorText::NotColor);
    assert_eq!(read_color("rgb(99999999999,0,0)"), ColorText::NotColor);
    assert_eq!(pack_rgba(1, 2, 3, 128), 0x8001_0203);
}

fn dom_el(tag: &str, attrs: &[(&str, &str)], children: Vec<DomNode>) -> DomNode {
    DomNode {
        kind: DomNodeKind::Element(ElementData {
            tag_name: tag.to_string(),
            attributes: attrs.iter().map(|(k, v)| (k.to_string(), v.to_string())).collect(),
        }),
        children,
    }
}

fn dom_text(t: &str) -> DomNode {
    DomNode { kind: DomNodeKind::Text(t.to_string()), children: vec![] }
}

#[test]
fn theme_node_from_dom() {
    let dom = DomNode {
        kind: DomNodeKind::Other,
        children: vec![dom_el("html", &[], vec![
            dom_el("head", &[], vec![]),
            dom_el("body", &[], vec![dom_el("section", &[("class", " card  big "), ("id", "x")], vec![
                dom_text("  Hello "),
                DomNode { kind: DomNodeKind::Other, children: vec![] },
                dom_el("span", &[("class", "s")], vec![dom_text("x")]),
                dom_text("   "),
                dom_text("world"),
            ])]),
        ])],
    };
    let found = find_first_renderable_element(&dom).unwrap();
    match &found.kind {
        DomNodeKind::Element(e) => assert_eq!(e.tag_name, "section"),
        _ => panic!("expected an element"),
    }
    let t = theme_root_of(&dom).unwrap();
    assert_eq!(t.tag, "section");
    assert_eq!(t.classes, vec!["card".to_string(), "big".to_string()]);
    assert_eq!(t.text, "Hello world");
    assert_eq!(t.children.len(), 1);
    assert_eq!(t.children[0].tag, "span");
    assert_eq!(t.children[0].text, "x");
    assert!(build_node(&dom_text("x")).is_none());
    let bare = DomNode { kind: DomNodeKind::Other, children: vec![dom_el("body", &[], vec![])] };
    assert!(theme_root_of(&bare).is_none());
}

#[test]
fn theme_root_from_html_text() {
    let t = parse_theme_root_node("<div class='card big'>  Hello  <span>x</span> world </div>").unwrap();
    assert_eq!(t.tag, "div");
    assert_eq!(t.classes, vec!["card".to_string(), "big".to_string()]);
    assert_eq!(t.text, "Hello world");
    assert_eq!(t.children.len(), 1);
    assert_eq!(t.children[0].tag, "span");
    assert!(parse_theme_root_node("").is_none());
    assert!(parse_theme_root_node("just text").is_none());
}

#[test]
fn component_index_lists_trimmed_names() {
    assert_eq!(
        parse_component_index("components = [\" card \", \"\", 3, \"button\"]\n"),
        vec!["card".to_string(), "button".to_string()]
    );
    assert!(parse_component_index("x = 1").is_empty());
    assert!(parse_component_index("components = \"card\"").is_empty());
    assert!(parse_component_index("not toml = =").is_empty());
    assert_eq!(
        component_names(Some(vec![Some("  a ".to_string()), None, Some(" ".to_string())])),
        vec!["a".to_string()]
    );
    assert!(component_names(None).is_empty());
}

#[test]
fn component_declarations_put_common_first() {
    let common = vec![decl(":root", "--c", "#fff")];
    let ds = component_declarations(&common, ".card { color: var(--c) }");
    assert_eq!(parts(&ds), vec![t3(":root", "--c", "#fff"), t3(".card", "color", "var(--c)")]);
}

#[test]
fn hex_and_rgb_colors_are_opaque() {
    for text in ["#000000", "#123", "rgb(0,0,0)", "rgb(70000, 5, 5)", "#+00000"] {
        match read_color(text) {
            ColorText::Color(c) => assert_eq!(c >> 24, 0xFF),
            other => panic!("{text} read as {other:?}"),
        }
    }
}

#[test]
fn declarations_never_have_empty_parts() {
    let ds = parse_css_declarations(" { a: b } x { : y; z : ; ;; w:v } y{q:r}}}{");
    assert_eq!(parts(&ds), vec![t3("x", "w", "v"), t3("y", "q", "r")]);
    assert!(ds.iter().all(|d| !d.selector.is_empty() && !d.property.is_empty() && !d.value.is_empty()));
}

#[test]
fn reading_kinds_by_property() {
    assert_eq!(reading_kind("margin-bottom"), ReadingKind::Px);
    assert_eq!(reading_kind("background-color"), ReadingKind::Color);
    assert_eq!(reading_kind("box-shadow"), ReadingKind::Shadow);
    assert_eq!(reading_kind("border"), ReadingKind::Border);
    assert_eq!(reading_kind("display"), ReadingKind::Other);
}

#[test]
fn px_number_texts() {
    assert_eq!(px_text(" 12px "), "12");
    assert_eq!(px_text("1.5"), "1.5");
    assert_eq!(px_text("px"), "");
}

#[test]
fn hex_cut_is_an_error() {
    assert_eq!(try_read_color("#é1"), Err("byte index is not a char boundary"));
    assert_eq!(try_read_color("#1é"), Err("byte index is not a char boundary"));
    assert_eq!(try_read_color("#abc"), Ok(ColorText::Color(0xFFAA_BBCC)));
}

#[test]
fn colour_values_from_readings() {
    assert_eq!(color_value(&ColorText::Color(5), None), Some(5));
    assert_eq!(color_value(&ColorText::NotColor, Some(1)), None);
    let rgba = ColorText::Rgba { r: 1, g: 2, b: 3, alpha: "0.5".to_string() };
    assert_eq!(color_value(&rgba, Some(128)), Some(0x8001_0203));
    assert_eq!(color_value(&rgba, None), None);
}

#[test]
fn border_words_and_choice() {
    let ws = border_words("2px solid #ff0000 1px #00ff00");
    assert_eq!(ws.len(), 5);
    assert!(matches!(&ws[0], BorderWord::Width(t) if t == "2"));
    assert!(matches!(&ws[1], BorderWord::Color(ColorText::NotColor)));
    assert!(matches!(&ws[2], BorderWord::Color(ColorText::Color(0xFFFF_0000))));
    assert!(matches!(&ws[3], BorderWord::Width(t) if t == "1"));
    let pxs = vec![Some(2), None, None, Some(1), None];
    let alphas = vec![None; 5];
    // The last width wins; the first colour that reads wins.
    assert_eq!(border_choice(&ws, &pxs, &alphas), Ok((1, Some(0xFFFF_0000))));
    let cut = border_words("#é1 1px");
    assert!(matches!(&cut[0], BorderWord::CutColor));
    assert_eq!(border_choice(&cut, &vec![None, Some(1)], &vec![None, None]), Err("byte index is not a char boundary"));
    let late = border_words("#00ff00 #é1");
    assert_eq!(border_choice(&late, &vec![None, None], &vec![None, None]), Ok((0, Some(0xFF00_FF00))));
}

#[test]
fn shadow_words_and_choice() {
    assert_eq!(shadow_words("0 1px 2px rgb(0,0,0)"), Ok(None));
    let (ns, c) = shadow_words("1px 2px x 4px rgba(0, 0, 0, 0.25)").unwrap().unwrap();
    assert_eq!(ns, vec!["1", "2", "x", "4"]);
    assert_eq!(c, ColorText::Rgba { r: 0, g: 0, b: 0, alpha: "0.25".to_string() });
    let s = shadow_choice(&vec![Some(1), Some(2), None, Some(4)], &c, Some(64));
    assert_eq!(s, Shadow { dx: 1, dy: 2, blur: 4, spread: 0, color: 0x4000_0000 });
    let d = shadow_choice(&vec![], &ColorText::NotColor, None);
    assert_eq!(d, Shadow { dx: 0, dy: 0, blur: 0, spread: 0, color: 0x3300_0000 });
}
