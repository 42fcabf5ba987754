use viewkit::app::{blit_framebuffer_to_surface, App, AppBuilder};
use viewkit::catalog::{component_catalog, UiComponent};
use viewkit::component_dsl::templates;
use viewkit::components::VComponent;
use viewkit::libkagami::{host_connect_wayland, host_create_shm_buffer, shm_layout, BufferFlip};
use viewkit::pipeline::layout::{parse_length, style_from_css, DisplayKind, LengthText};

type C = VComponent<fn()>;

#[test]
fn build_needs_a_ui() {
    let b: AppBuilder<fn()> = AppBuilder::new(10, 20);
    match b.build(1u8, 2u8) {
        Err(e) => assert_eq!(e, "UI not set"),
        Ok(_) => panic!("built without a UI"),
    }
    let b = App::<fn(), u8, u8>::new(30, 40).with_ui(C::from_str("<p>x</p>")).unwrap();
    let mut app = b.build(7u8, 8u8).unwrap();
    assert_eq!((app.host, app.surface, app.width, app.height), (7, 8, 30, 40));
    assert_eq!(app.ui().render(), "<p>x</p>");
    *app.ui_mut() = C::from_str("<q/>");
    assert_eq!(app.ui().render(), "<q/>");
}

#[test]
fn blit_copies_three_native_bytes_and_zero() {
    let src = [0x1122_3344u32, 0xAABB_CCDD];
    let mut dst = vec![9u8; 12];
    blit_framebuffer_to_surface(&src, &mut dst);
    let a = src[0].to_ne_bytes();
    let b = src[1].to_ne_bytes();
    assert_eq!(dst, vec![a[0], a[1], a[2], 0, b[0], b[1], b[2], 0, 9, 9, 9, 9]);
    let mut short = vec![5u8; 6];
    blit_framebuffer_to_surface(&src, &mut short);
    assert_eq!(short, vec![a[0], a[1], a[2], 0, 5, 5]);
}

#[test]
fn buffer_flip_alternates() {
    let mut f = BufferFlip::new();
    assert_eq!(f.back(), 1);
    assert_eq!(f.swap(), 1);
    assert_eq!(f.back(), 0);
    assert_eq!(f.swap(), 0);
    assert_eq!(f.commit(), 0);
    f.front = 5;
    assert_eq!(f.commit(), 1);
    assert_eq!(f.front, 1);
}

#[test]
fn shm_layout_sizes() {
    assert_eq!(shm_layout(10, 5), Ok((40, 200)));
    assert_eq!(shm_layout(0, 5), Ok((0, 0)));
    if usize::BITS == 64 {
        assert_eq!(shm_layout(-1, 2), Err("size overflow".to_string()));
    }
}

#[test]
fn host_stubs_fail() {
    let msg = "libkagami host shim is only available on unix hosts".to_string();
    assert_eq!(host_connect_wayland(), Err(msg.clone()));
    assert_eq!(host_create_shm_buffer(&(), 1, 1), Err(msg));
}

#[test]
fn lengths_read_units() {
    let s = |v: &str| Some(v.to_string());
    assert_eq!(parse_length(s(" 12PX ").as_ref()), LengthText::Px("12".to_string()));
    assert_eq!(parse_length(s("AUTO").as_ref()), LengthText::Auto);
    assert_eq!(parse_length(s("50 %").as_ref()), LengthText::Percent("50".to_string()));
    assert_eq!(parse_length(s("3vw").as_ref()), LengthText::Vw("3".to_string()));
    assert_eq!(parse_length(s("1.5Vh").as_ref()), LengthText::Vh("1.5".to_string()));
    assert_eq!(parse_length(s("px").as_ref()), LengthText::Px("".to_string()));
    assert_eq!(parse_length(s("abc").as_ref()), LengthText::Invalid);
    assert_eq!(parse_length(None), LengthText::Missing);
}

#[test]
fn box_style_from_css_table() {
    let table = vec![
        ("display".to_string(), " flex ".to_string()),
        ("flex-direction".to_string(), "row".to_string()),
        ("width".to_string(), "10px".to_string()),
        ("max-height".to_string(), "auto".to_string()),
    ];
    let st = style_from_css(&table);
    assert_eq!(st.display, Some(DisplayKind::FlexRow));
    assert_eq!(st.width, LengthText::Px("10".to_string()));
    assert_eq!(st.height, LengthText::Missing);
    assert_eq!(st.max_height, LengthText::Auto);
    let column = vec![("display".to_string(), "flex".to_string())];
    assert_eq!(style_from_css(&column).display, Some(DisplayKind::FlexColumn));
    let hidden = vec![("display".to_string(), "none".to_string())];
    assert_eq!(style_from_css(&hidden).display, Some(DisplayKind::Hidden));
    let other = vec![("display".to_string(), "grid".to_string())];
    assert_eq!(style_from_css(&other).display, Some(DisplayKind::Block));
    assert_eq!(style_from_css(&vec![]).display, None);
}

#[test]
fn catalog_names() {
    let all = component_catalog();
    assert_eq!(all.len(), 10);
    assert_eq!(all[0], UiComponent::Button);
    assert_eq!(UiComponent::TextField.name(), "TEXTFIELD");
    assert_eq!(UiComponent::Canvas.name(), "CANVAS");
    assert!(templates().is_empty());
}

#[test]
fn blit_uses_one_byte_order_for_every_pixel() {
    let src = [0x0102_0304u32, 0x0506_0708, 0x090A_0B0C];
    let mut dst = vec![0xFFu8; 12];
    blit_framebuffer_to_surface(&src, &mut dst);
    let little: Vec<u8> = src.iter().flat_map(|p| { let b = p.to_le_bytes(); vec![b[0], b[1], b[2], 0] }).collect();
    let big: Vec<u8> = src.iter().flat_map(|p| { let b = p.to_be_bytes(); vec![b[0], b[1], b[2], 0] }).collect();
    assert!(dst == little || dst == big);
    let native: Vec<u8> = src.iter().flat_map(|p| { let b = p.to_ne_bytes(); vec![b[0], b[1], b[2], 0] }).collect();
    assert_eq!(dst, native);
}
