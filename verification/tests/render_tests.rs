use viewkit::font::blend_glyph;
use viewkit::components::canvas::Canvas;
use viewkit::components::card::{blend_alpha, blend_channel, Card};
use viewkit::render::{clear, draw_rect, Color};
use viewkit::view::{render_view_frame, try_render_view_frame};

#[test]
fn clear_fills_rows_bgra() {
    let mut buf = vec![9u8; 20];
    clear(&mut buf, 2, 2, 10, Color::new(1, 2, 3, 4));
    assert_eq!(buf, vec![3, 2, 1, 4, 3, 2, 1, 4, 9, 9, 3, 2, 1, 4, 3, 2, 1, 4, 9, 9]);
}

#[test]
fn draw_rect_clips_to_buffer() {
    let mut buf = vec![0u8; 3 * 2 * 4];
    draw_rect(&mut buf, 3, 2, 12, -1, 1, 3, 5, Color::new(10, 20, 30, 40));
    let px = |x: usize, y: usize| buf[y * 12 + x * 4..y * 12 + x * 4 + 4].to_vec();
    assert_eq!(px(0, 0), vec![0, 0, 0, 0]);
    assert_eq!(px(0, 1), vec![30, 20, 10, 40]);
    assert_eq!(px(1, 1), vec![30, 20, 10, 40]);
    assert_eq!(px(2, 1), vec![0, 0, 0, 0]);
}

#[test]
fn draw_rect_empty_does_nothing() {
    let mut buf = vec![0u8; 16];
    draw_rect(&mut buf, 2, 2, 8, 0, 0, 0, 2, Color::new(1, 1, 1, 1));
    draw_rect(&mut buf, 2, 2, 8, 5, 0, 2, 2, Color::new(1, 1, 1, 1));
    assert_eq!(buf, vec![0u8; 16]);
}

#[test]
fn canvas_layout_caps_and_fills() {
    let c = Canvas::new(Color::new(0, 0, 0, 255), 100, 0);
    assert_eq!(c.layout(50, 30), (50, 30));
    assert_eq!(c.layout(200, -5), (100, 0));
    let mut c2 = Canvas::new(Color::new(0, 0, 0, 255), -1, 20);
    assert_eq!(c2.layout(40, 10), (40, 10));
    c2.set_color(Color::new(5, 6, 7, 8));
    let mut buf = vec![0u8; 8];
    c2.render(&mut buf, 2, 1, 8);
    assert_eq!(buf, vec![7, 6, 5, 8, 7, 6, 5, 8]);
}

#[test]
fn card_area_centres_in_flow() {
    let card = Card::new(10, 4, Color::new(0, 0, 0, 255));
    assert_eq!(card.draw_area(0, 0, 20, 10), Some((5, 3, 10, 4)));
    assert_eq!(card.draw_area(0, 0, 6, 2), Some((0, 0, 6, 2)));
    assert_eq!(card.draw_area(0, 0, 0, 10), None);
    let abs = card.set_position_absolute(7, 8).set_size(3, 3);
    assert_eq!(abs.draw_area(0, 0, 0, 0), Some((7, 8, 3, 3)));
    assert_eq!(abs.unset_absolute().draw_area(1, 1, 3, 3), Some((1, 1, 3, 3)));
}

#[test]
fn card_builders() {
    let c = Card::new(1, 2, Color::new(1, 2, 3, 4)).set_bg(Color::new(9, 9, 9, 9)).set_radius(5);
    assert_eq!(c.radius, 5);
    assert_eq!(c.bg, Color::new(9, 9, 9, 9));
    assert_eq!((c.width, c.height, c.absolute), (1, 2, false));
    assert_eq!(Card::new(1, 1, Color::new(0, 0, 0, 0)).radius, 20);
}

#[test]
fn blending_formula() {
    assert_eq!(blend_channel(255, 200, 10), 200);
    assert_eq!(blend_channel(0, 200, 10), 10);
    assert_eq!(blend_channel(128, 200, 100), ((128 * 200 + 127 * 100) / 255) as u8);
    assert_eq!(blend_alpha(128, 255), 255);
    assert_eq!(blend_alpha(100, 0), 100);
    assert_eq!(blend_alpha(0, 77), 77);
}

#[test]
fn card_blend_coverage_writes_opaque_blends_partial_skips_zero() {
    let card = Card::new(2, 1, Color::new(100, 150, 200, 255));
    let mut buf = vec![10u8; 3 * 4];
    let alphas = vec![vec![255u8, 128u8]];
    card.blend_coverage(&mut buf, 3, 1, 12, 1, 0, 2, 1, Color::new(100, 150, 200, 255), &alphas);
    assert_eq!(&buf[0..4], &[10, 10, 10, 10]);
    assert_eq!(&buf[4..8], &[200, 150, 100, 255]);
    let b = ((128u32 * 200 + 127 * 10) / 255) as u8;
    let g = ((128u32 * 150 + 127 * 10) / 255) as u8;
    let r = ((128u32 * 100 + 127 * 10) / 255) as u8;
    let a = (128u32 + (127 * 10) / 255).min(255) as u8;
    assert_eq!(&buf[8..12], &[b, g, r, a]);
    let mut untouched = vec![1u8; 8];
    card.blend_coverage(&mut untouched, 2, 1, 8, 0, 0, 2, 1, Color::new(0, 0, 0, 255), &vec![vec![0u8, 0u8]]);
    assert_eq!(untouched, vec![1u8; 8]);
}

#[test]
fn view_frame_moves_with_phase() {
    let (w, h) = (100usize, 80usize);
    let mut buf = vec![0u8; w * h * 4];
    render_view_frame(&mut buf, w, h, w * 4, 2);
    let px = |x: usize, y: usize| buf[y * w * 4 + x * 4..y * w * 4 + x * 4 + 4].to_vec();
    // background
    assert_eq!(px(0, 0), vec![0x20, 0x18, 0x10, 0xff]);
    // rectangle from x = 6 (2 * 3 % 20), y = 10 (80 / 2 - 30), 80 x 60, clipped
    assert_eq!(px(6, 10), vec![0x30, 0x30, 0xd0, 0xff]);
    assert_eq!(px(5, 10), vec![0x20, 0x18, 0x10, 0xff]);
    assert_eq!(px(85, 69), vec![0x30, 0x30, 0xd0, 0xff]);
    assert_eq!(px(86, 10), vec![0x20, 0x18, 0x10, 0xff]);
    assert_eq!(px(50, 9), vec![0x20, 0x18, 0x10, 0xff]);
    assert_eq!(px(50, 70), vec![0x20, 0x18, 0x10, 0xff]);
    let mut buf2 = vec![0u8; w * h * 4];
    render_view_frame(&mut buf2, w, h, w * 4, 7);
    // 7 * 3 % 20 == 1
    assert_eq!(buf2[10 * w * 4 + 4..10 * w * 4 + 8].to_vec(), vec![0x30, 0x30, 0xd0, 0xff]);
    assert_eq!(buf2[10 * w * 4..10 * w * 4 + 4].to_vec(), vec![0x20, 0x18, 0x10, 0xff]);
}

#[test]
fn glyph_blend_clips_and_blends() {
    let mut buf = vec![0u8; 2 * 2 * 4];
    // a 2 x 2 glyph drawn one pixel left of the buffer: its right column lands on column 0
    let bitmap = [0u8, 255, 0, 128];
    blend_glyph(&mut buf, 2, 2, 8, -1, 0, 2, 2, &bitmap, Color::new(10, 20, 30, 255));
    assert_eq!(&buf[0..4], &[30, 20, 10, 255]);
    assert_eq!(&buf[4..8], &[0, 0, 0, 0]);
    let sa = 128u32;
    let expect = |c: u32| ((sa * c) / 255) as u8;
    assert_eq!(&buf[8..12], &[expect(30), expect(20), expect(10), 128]);
    assert_eq!(&buf[12..16], &[0, 0, 0, 0]);
    // the colour's alpha scales the coverage
    let mut half = vec![0u8; 4];
    blend_glyph(&mut half, 1, 1, 4, 0, 0, 1, 1, &[255], Color::new(0, 0, 200, 102));
    assert_eq!(half, vec![(102u32 * 200 / 255) as u8, 0, 0, 102]);
}

#[test]
fn card_area_checked_for_overflow() {
    let c = Card::new(10, 10, Color::new(1, 2, 3, 255));
    assert_eq!(c.try_draw_area(0, 0, 20, 30), Ok(Some((5, 10, 10, 10))));
    assert_eq!(c.try_draw_area(0, 0, 0, 30), Ok(None));
    assert_eq!(c.try_draw_area(i32::MAX, 0, 20, 10), Err("attempt to add with overflow"));
}

#[test]
fn view_frame_checked_before_drawing() {
    let mut buf = vec![0u8; 100 * 4 * 2];
    assert_eq!(try_render_view_frame(&mut buf, 80, 2, 400, 0), Err("view too narrow"));
    assert_eq!(try_render_view_frame(&mut buf, 100, 3, 400, 0), Err("buffer too small"));
    assert!(buf.iter().all(|&b| b == 0));
    assert_eq!(try_render_view_frame(&mut buf, 100, 2, 400, 0), Ok(()));
    assert_eq!(&buf[0..4], &[0x30, 0x30, 0xd0, 0xff]);
    assert_eq!(&buf[360..364], &[0x20, 0x18, 0x10, 0xff]);
    assert_eq!(try_render_view_frame(&mut buf, 100, 0, 400, 0), Ok(()));
}

#[test]
fn glyph_may_end_on_the_last_i32_column() {
    let mut buf = vec![7u8; 4];
    // its only column is i32::MAX, off the buffer: nothing changes
    blend_glyph(&mut buf, 1, 1, 4, i32::MAX, 0, 1, 1, &[255], Color::new(1, 2, 3, 255));
    assert_eq!(buf, vec![7, 7, 7, 7]);
    // a glyph whose rows all lie below the buffer computes no columns
    blend_glyph(&mut buf, 1, 1, 4, i32::MAX, 5, 4, 1, &[255, 255, 255, 255], Color::new(1, 2, 3, 255));
    assert_eq!(buf, vec![7, 7, 7, 7]);
}
