use viewkit::theme::css::parse_css_vars;
use viewkit::theme::paint::draw_node;
use viewkit::theme::bounds::{frame_check, try_build_runtime_theme_frame};
use viewkit::theme::paint::{build_runtime_theme_frame, draw_style_box, render_component_into, BG, PANEL, PANEL_BORDER, PREVIEW_BG};
use viewkit::theme::raster::{draw_char, draw_text, fill_rect, fill_rounded_rect, glyph, inside_rounded_rect, put, stroke_rect, stroke_rounded_rect};
use viewkit::theme::{CssDeclBuild, ParsedValue, Shadow, Style, ThemeComponent, ThemeNode};

fn grid(px: &[u32], w: usize, c: u32) -> Vec<String> {
    px.chunks(w).map(|row| row.iter().map(|&p| if p == c { '#' } else { '.' }).collect()).collect()
}

#[test]
fn put_ignores_pixels_off_the_raster() {
    let mut px = vec![0u32; 6];
    put(&mut px, 3, 2, 1, 5);
    put(&mut px, 3, 3, 0, 9);
    put(&mut px, 3, -1, 0, 9);
    put(&mut px, 3, 0, 2, 9);
    assert_eq!(px, vec![0, 0, 0, 0, 0, 5]);
}

#[test]
fn fill_and_stroke_rect() {
    let mut px = vec![0u32; 25];
    fill_rect(&mut px, 5, -1, 1, 3, 2, 1);
    assert_eq!(grid(&px, 5, 1), vec![".....", "##...", "##...", ".....", "....."]);
    let mut px = vec![0u32; 25];
    stroke_rect(&mut px, 5, 1, 1, 4, 3, 2);
    assert_eq!(grid(&px, 5, 2), vec![".....", ".####", ".#..#", ".####", "....."]);
    let mut px = vec![0u32; 25];
    stroke_rect(&mut px, 5, 1, 1, 1, 3, 2);
    assert_eq!(px, vec![0u32; 25]);
}

#[test]
fn rounded_corners() {
    assert!(inside_rounded_rect(0, 0, 10, 10, 0));
    assert!(inside_rounded_rect(0, 0, 10, 10, 3));
    assert!(!inside_rounded_rect(0, 0, 10, 10, 4));
    assert!(inside_rounded_rect(1, 0, 10, 10, 4));
    assert!(inside_rounded_rect(3, 0, 10, 10, 3));
    assert!(!inside_rounded_rect(10, 5, 10, 10, 3));
    let mut px = vec![0u32; 100];
    fill_rounded_rect(&mut px, 10, 0, 0, 10, 10, 4, 1);
    let g = grid(&px, 10, 1);
    assert_eq!(g[0], ".########.");
    assert_eq!(g[1], "##########");
    assert_eq!(g[9], ".########.");
    let mut px = vec![0u32; 36];
    stroke_rounded_rect(&mut px, 6, 0, 0, 6, 6, 0, 1);
    assert_eq!(grid(&px, 6, 1), vec!["######", "#....#", "#....#", "#....#", "#....#", "######"]);
}

#[test]
fn glyphs_and_text() {
    assert_eq!(glyph(b'A'), [0x0E, 0x11, 0x11, 0x1F, 0x11, 0x11, 0x11]);
    assert_eq!(glyph(b'?'), [0x1F, 0x01, 0x02, 0x04, 0x08, 0x00, 0x08]);
    assert_eq!(glyph(b' '), [0; 7]);
    let mut px = vec![0u32; 5 * 7];
    draw_char(&mut px, 5, 0, 0, b'T', 3);
    assert_eq!(grid(&px, 5, 3), vec!["#####", "..#..", "..#..", "..#..", "..#..", "..#..", "..#.."]);
    let mut px = vec![0u32; 12 * 7];
    draw_text(&mut px, 12, 0, 0, "IT", 4);
    let g = grid(&px, 12, 4);
    assert_eq!(g[0], "#####.#####.");
    assert_eq!(g[6], "#####...#...");
}

fn plain_style() -> Style {
    Style {
        position_relative: false,
        position_absolute: false,
        display_flex: false,
        justify_center: false,
        align_center: false,
        left: 0,
        top: 0,
        width: 0,
        height: 0,
        padding: 0,
        margin_bottom: 0,
        line_height: 7,
        background: None,
        color: None,
        border_radius: 0,
        border_width: 0,
        border_color: None,
        box_shadow: None,
    }
}

#[test]
fn style_box_background_and_border() {
    let mut px = vec![0u32; 25];
    let st = Style { background: Some(1), border_width: 1, border_color: Some(2), ..plain_style() };
    draw_style_box(&mut px, 5, 1, 1, 3, 3, &st);
    assert_eq!(grid(&px, 5, 2), vec![".....", ".###.", ".#.#.", ".###.", "....."]);
    assert_eq!(px[12], 1);
    let mut untouched = vec![0u32; 4];
    draw_style_box(&mut untouched, 2, 0, 0, 0, 2, &st);
    assert_eq!(untouched, vec![0u32; 4]);
}

#[test]
fn style_box_shadow_layers_fade() {
    let mut px = vec![0u32; 100];
    let shadow = Shadow { dx: 0, dy: 0, blur: 2, spread: 0, color: 0x8000_0000 };
    let st = Style { box_shadow: Some(shadow), ..plain_style() };
    draw_style_box(&mut px, 10, 4, 4, 2, 2, &st);
    // layer 0 outlines the box itself, layer 1 one pixel further out with alpha lowered by 18
    assert_eq!(px[4 * 10 + 4], 0x8000_0000);
    assert_eq!(px[3 * 10 + 3], 0x6E00_0000);
    assert_eq!(px[2 * 10 + 2], 0);
}

fn decl(s: &str, p: &str, v: &str) -> CssDeclBuild {
    CssDeclBuild { selector: s.to_string(), property: p.to_string(), value: v.to_string() }
}

fn none() -> ParsedValue {
    ParsedValue { px: None, color: None, border_width: 0, border_color: None, shadow: None }
}

fn card_component() -> ThemeComponent {
    ThemeComponent {
        name: "card".to_string(),
        root: ThemeNode {
            tag: "div".to_string(),
            classes: vec!["card".to_string()],
            text: String::new(),
            children: vec![ThemeNode {
                tag: "p".to_string(),
                classes: vec!["label".to_string()],
                text: "Hi".to_string(),
                children: vec![],
            }],
        },
        declarations: vec![
            decl(".card", "background", "#fff"),
            decl(".card", "width", "20px"),
            decl(".card", "height", "12px"),
            decl(".label", "color", "#000"),
        ],
        values: vec![
            ParsedValue { color: Some(0xFFFF_FFFF), ..none() },
            ParsedValue { px: Some(20), ..none() },
            ParsedValue { px: Some(12), ..none() },
            ParsedValue { color: Some(0xFF00_0000), ..none() },
        ],
    }
}

#[test]
fn component_drawn_into_its_box() {
    let comp = card_component();
    let mut px = vec![0u32; 30 * 20];
    render_component_into(&mut px, 30, &comp, 2, 3, 25, 15);
    // the card is 20 x 12 at (2, 3)
    assert_eq!(px[3 * 30 + 21], 0xFFFF_FFFF);
    assert_eq!(px[14 * 30 + 21], 0xFFFF_FFFF);
    assert_eq!(px[14 * 30 + 22], 0);
    assert_eq!(px[15 * 30 + 2], 0);
    // the label's "H" starts at the content corner: its top rows have the outer
    // columns set; the "i" follows 6 pixels on with its dot in column 2
    assert_eq!(px[3 * 30 + 2], 0xFF00_0000);
    assert_eq!(px[3 * 30 + 6], 0xFF00_0000);
    assert_eq!(px[3 * 30 + 3], 0xFFFF_FFFF);
    assert_eq!(px[4 * 30 + 2], 0xFF00_0000);
    assert_eq!(px[3 * 30 + 10], 0xFF00_0000);
    assert_eq!(px[3 * 30 + 8], 0xFFFF_FFFF);
}

#[test]
fn theme_frame_draws_panel_and_rows() {
    assert!(build_runtime_theme_frame(100, 100, &vec![]).is_none());
    let frame = build_runtime_theme_frame(200, 200, &vec![card_component()]).unwrap();
    assert_eq!(frame.len(), 200 * 200);
    assert_eq!(frame[0], BG);
    assert_eq!(frame[12 * 200 + 12], PANEL_BORDER);
    assert_eq!(frame[13 * 200 + 13], PANEL);
    // the card's top-left pixel carries the "H" of its label; the next one is card
    assert_eq!(frame[56 * 200 + 24], 0xFF00_0000);
    assert_eq!(frame[56 * 200 + 25], 0xFFFF_FFFF);
    assert_eq!(frame[67 * 200 + 43], 0xFFFF_FFFF);
    assert_eq!(frame[56 * 200 + 44], PANEL_BORDER);
    assert_eq!(frame[60 * 200 + 50], PREVIEW_BG);
}

fn tn(tag: &str, class: &str, text: &str, children: Vec<ThemeNode>) -> ThemeNode {
    ThemeNode { tag: tag.to_string(), classes: vec![class.to_string()], text: text.to_string(), children }
}

#[test]
fn flex_container_centres_its_child() {
    let root = tn("div", "box", "", vec![tn("span", "dot", "", vec![])]);
    let decls = vec![
        decl(".box", "display", "flex"),
        decl(".box", "justify-content", "center"),
        decl(".box", "align-items", "center"),
        decl(".dot", "width", "4px"),
        decl(".dot", "height", "2px"),
        decl(".dot", "background", "#111"),
    ];
    let values = vec![
        none(),
        none(),
        none(),
        ParsedValue { px: Some(4), ..none() },
        ParsedValue { px: Some(2), ..none() },
        ParsedValue { color: Some(9), ..none() },
    ];
    let vars = parse_css_vars(&decls);
    let mut px = vec![0u32; 20 * 10];
    draw_node(&mut px, 20, &root, &decls, &values, &vars, 0, 0, 20, 10);
    let g = grid(&px, 20, 9);
    assert_eq!(g[3], "....................");
    assert_eq!(g[4], "........####........");
    assert_eq!(g[5], "........####........");
    assert_eq!(g[6], "....................");
}

#[test]
fn flow_stacks_children_and_absolute_ones_do_not_move_it() {
    let root = tn("div", "col", "", vec![
        tn("p", "a", "", vec![]),
        tn("p", "c", "", vec![]),
        tn("p", "b", "", vec![]),
    ]);
    let decls = vec![
        decl(".a", "height", "3px"),
        decl(".a", "margin-bottom", "1px"),
        decl(".a", "background", "x"),
        decl(".b", "height", "2px"),
        decl(".b", "background", "y"),
        decl(".c", "position", "absolute"),
        decl(".c", "left", "5px"),
        decl(".c", "top", "6px"),
        decl(".c", "width", "1px"),
        decl(".c", "height", "1px"),
        decl(".c", "background", "z"),
    ];
    let values = vec![
        ParsedValue { px: Some(3), ..none() },
        ParsedValue { px: Some(1), ..none() },
        ParsedValue { color: Some(1), ..none() },
        ParsedValue { px: Some(2), ..none() },
        ParsedValue { color: Some(2), ..none() },
        none(),
        ParsedValue { px: Some(5), ..none() },
        ParsedValue { px: Some(6), ..none() },
        ParsedValue { px: Some(1), ..none() },
        ParsedValue { px: Some(1), ..none() },
        ParsedValue { color: Some(3), ..none() },
    ];
    let vars = parse_css_vars(&decls);
    let mut px = vec![0u32; 8 * 10];
    draw_node(&mut px, 8, &root, &decls, &values, &vars, 0, 0, 8, 10);
    let rows: Vec<Vec<u32>> = px.chunks(8).map(|r| r.to_vec()).collect();
    assert_eq!(rows[0], vec![1; 8]);
    assert_eq!(rows[2], vec![1; 8]);
    assert_eq!(rows[3], vec![0; 8]);
    assert_eq!(rows[4], vec![2; 8]);
    assert_eq!(rows[5], vec![2; 8]);
    assert_eq!(rows[6], vec![0, 0, 0, 0, 0, 3, 0, 0]);
    assert_eq!(rows[7], vec![0; 8]);
}

#[test]
fn frame_checked_before_building() {
    assert_eq!(try_build_runtime_theme_frame(0, 0, &vec![]), Ok(None));
    assert!(frame_check(200, 200, &vec![card_component()]));
    assert_eq!(
        try_build_runtime_theme_frame(200, 200, &vec![card_component()]),
        Ok(build_runtime_theme_frame(200, 200, &vec![card_component()]))
    );
    // an empty row length, and a frame taller than i32, are refused
    assert!(!frame_check(0, 200, &vec![card_component()]));
    assert_eq!(try_build_runtime_theme_frame(0, 200, &vec![card_component()]), Err("theme frame out of range"));
    assert!(!frame_check(1, i32::MAX as usize + 1, &vec![card_component()]));
    // a component whose left offset leaves i32
    let mut far = card_component();
    far.declarations.push(decl(".card", "left", "2147483647px"));
    far.values.push(ParsedValue { px: Some(i32::MAX), color: None, border_width: 0, border_color: None, shadow: None });
    assert!(!frame_check(200, 200, &vec![far]));
    // a reading missing for a declaration
    let mut short = card_component();
    short.values.pop();
    assert!(!frame_check(200, 200, &vec![short]));
}

#[test]
fn rounded_boxes_may_end_on_the_last_i32_pixel() {
    let mut px = vec![0u32; 4];
    fill_rounded_rect(&mut px, 2, i32::MAX - 1, i32::MAX - 1, 2, 2, 0, 9);
    stroke_rounded_rect(&mut px, 2, i32::MAX - 1, 0, 2, 2, 0, 9);
    assert_eq!(px, vec![0, 0, 0, 0]);
    fill_rounded_rect(&mut px, 2, 0, 0, 2, 2, 0, 9);
    assert_eq!(px, vec![9, 9, 9, 9]);
}
