use overlay_widget::color::Color;
use overlay_widget::margin::Margin;

fn rgba(r: u8, g: u8, b: u8, a: u8) -> Color {
    Color { r, g, b, a }
}

#[test]
fn color_from_u32_is_little_endian() {
    let c: Color = 0x4433_2211u32.into();
    assert_eq!(c, rgba(0x11, 0x22, 0x33, 0x44));
    let red: Color = 0x00FF_0000u32.into();
    assert_eq!(red, rgba(0, 0, 0xFF, 0));
}

#[test]
fn lerp_full_coverage_is_foreground() {
    let fg = rgba(10, 200, 33, 255);
    let bg = rgba(250, 0, 77, 1);
    assert_eq!(fg.lerp(bg, 255), fg);
}

#[test]
fn lerp_zero_coverage_is_background() {
    let fg = rgba(10, 200, 33, 255);
    let bg = rgba(250, 0, 77, 1);
    assert_eq!(fg.lerp(bg, 0), bg);
}

#[test]
fn lerp_rounds_to_nearest() {
    // (128 * 200 + 127 * 100) / 255 = 150.2
    let fg = rgba(200, 0, 255, 0);
    let bg = rgba(100, 255, 0, 0);
    let m = fg.lerp(bg, 128);
    assert_eq!(m.r, 150);
    // (128 * 0 + 127 * 255) / 255 = 127
    assert_eq!(m.g, 127);
    // 128 * 255 / 255 = 128
    assert_eq!(m.b, 128);
    assert_eq!(m.a, 0);
}

#[test]
fn margin_builders_set_one_side_each() {
    let m = Margin::new();
    assert_eq!(m, Margin { top: 0, bottom: 0, left: 0, right: 0 });
    let m = m.top(1).bottom(2).left(3).right(4);
    assert_eq!(m.top, 1);
    assert_eq!(m.bottom, 2);
    assert_eq!(m.left, 3);
    assert_eq!(m.right, 4);
    let m = m.left(9);
    assert_eq!(m, Margin { top: 1, bottom: 2, left: 9, right: 4 });
}
