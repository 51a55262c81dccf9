use overlay_widget::color::Color;
use overlay_widget::geometry::Vector2;
use overlay_widget::raster::{Glyph, PixelBuffer};

fn rgba(r: u8, g: u8, b: u8, a: u8) -> Color {
    Color { r, g, b, a }
}

const BLANK: Color = Color { r: 0, g: 0, b: 0, a: 0 };

fn painted(buf: &PixelBuffer) -> Vec<(u32, u32)> {
    let mut out = Vec::new();
    for y in 0..buf.height() {
        for x in 0..buf.width() {
            if buf.pixel(x, y) != Some(BLANK) {
                out.push((x, y));
            }
        }
    }
    out
}

#[test]
fn new_buffer_is_zeroed() {
    let buf = PixelBuffer::new(3, 2);
    assert_eq!(buf.bytes().len(), 24);
    assert!(buf.bytes().iter().all(|b| *b == 0));
    assert_eq!(buf.pixel(2, 1), Some(BLANK));
    assert_eq!(buf.pixel(3, 0), None);
    assert_eq!(buf.pixel(0, 2), None);
}

#[test]
fn write_pixel_layout_and_bounds() {
    let mut buf = PixelBuffer::new(3, 2);
    buf.write_pixel(1, 1, rgba(1, 2, 3, 4));
    assert_eq!(&buf.bytes()[16..20], &[1, 2, 3, 4]);
    buf.write_pixel(2, 1, rgba(5, 6, 7, 8));
    assert_eq!(&buf.bytes()[20..24], &[5, 6, 7, 8]);
    let snapshot = buf.bytes().clone();
    buf.write_pixel(-1, 0, rgba(9, 9, 9, 9));
    buf.write_pixel(3, 0, rgba(9, 9, 9, 9));
    buf.write_pixel(0, 2, rgba(9, 9, 9, 9));
    assert_eq!(buf.bytes(), &snapshot);
}

#[test]
fn draw_rect_fills_exactly_the_rectangle() {
    let mut buf = PixelBuffer::new(100, 100);
    let color = rgba(255, 0, 0, 255);
    buf.draw_rect(color, Vector2::new(10, 10), Vector2::new(20, 20));
    let p = painted(&buf);
    assert_eq!(p.len(), 400);
    for (x, y) in p {
        assert!((10..30).contains(&x) && (10..30).contains(&y));
        assert_eq!(buf.pixel(x, y), Some(color));
    }
}

#[test]
fn draw_rect_is_clipped() {
    let mut buf = PixelBuffer::new(10, 10);
    let color = rgba(1, 1, 1, 1);
    buf.draw_rect(color, Vector2::new(-5, 8), Vector2::new(7, 100));
    let p = painted(&buf);
    assert_eq!(p.len(), 4);
    assert!(p.contains(&(0, 8)) && p.contains(&(1, 9)));
}

#[test]
fn draw_line_horizontal() {
    let mut buf = PixelBuffer::new(100, 100);
    let color = rgba(0, 255, 0, 255);
    buf.draw_line(color, Vector2::new(0, 0), Vector2::new(10, 0), 1);
    for x in 0..=10 {
        assert_eq!(buf.pixel(x, 0), Some(color));
    }
    for x in 0..100 {
        assert_eq!(buf.pixel(x, 5), Some(BLANK));
    }
    assert_eq!(painted(&buf).len(), 11);
}

#[test]
fn draw_line_thickness_three() {
    let mut buf = PixelBuffer::new(20, 20);
    let color = rgba(0, 0, 255, 255);
    buf.draw_line(color, Vector2::new(5, 10), Vector2::new(15, 10), 3);
    assert_eq!(buf.pixel(10, 8), Some(color));
    assert_eq!(buf.pixel(10, 12), Some(color));
    assert_eq!(buf.pixel(10, 7), Some(BLANK));
    assert_eq!(buf.pixel(3, 10), Some(color));
    assert_eq!(buf.pixel(2, 10), Some(BLANK));
}

#[test]
fn draws_outside_the_grid_change_nothing() {
    let mut buf = PixelBuffer::new(10, 10);
    let color = rgba(9, 9, 9, 9);
    buf.draw_rect(color, Vector2::new(10, 0), Vector2::new(5, 5));
    buf.draw_rect(color, Vector2::new(-8, -8), Vector2::new(8, 8));
    buf.draw_line(color, Vector2::new(-50, -50), Vector2::new(-20, -30), 5);
    buf.draw_where(color, |_| true, Vector2::new(0, 10), Vector2::new(10, 20));
    let glyph = Glyph { min_x: 12, min_y: 0, width: 2, height: 2, coverage: vec![255; 4], color };
    buf.draw_text(&vec![glyph], BLANK);
    assert!(buf.bytes().iter().all(|b| *b == 0));
}

#[test]
fn draw_where_follows_predicate() {
    let mut buf = PixelBuffer::new(8, 8);
    let color = rgba(3, 3, 3, 3);
    buf.draw_where(color, |v: Vector2| (v.x + v.y) % 2 == 0, Vector2::new(2, 2), Vector2::new(4, 4));
    let p = painted(&buf);
    assert_eq!(p, vec![(2, 2), (3, 3)]);
}

#[test]
fn draw_text_empty_changes_nothing() {
    let mut buf = PixelBuffer::new(10, 10);
    buf.draw_rect(rgba(5, 5, 5, 5), Vector2::new(0, 0), Vector2::new(3, 3));
    let snapshot = buf.bytes().clone();
    buf.draw_text(&Vec::new(), rgba(1, 2, 3, 4));
    assert_eq!(buf.bytes(), &snapshot);
}

#[test]
fn draw_text_blends_and_later_glyph_wins() {
    let mut buf = PixelBuffer::new(10, 10);
    let bg = rgba(0, 0, 0, 0);
    let first = Glyph { min_x: 1, min_y: 1, width: 2, height: 1, coverage: vec![255, 0], color: rgba(200, 200, 200, 200) };
    let second = Glyph { min_x: 2, min_y: 1, width: 1, height: 2, coverage: vec![255, 51], color: rgba(100, 50, 0, 255) };
    buf.draw_text(&vec![first, second], bg);
    assert_eq!(buf.pixel(1, 1), Some(rgba(200, 200, 200, 200)));
    assert_eq!(buf.pixel(2, 1), Some(rgba(100, 50, 0, 255)));
    // 51 / 255 = 0.2 of the colour
    assert_eq!(buf.pixel(2, 2), Some(rgba(20, 10, 0, 51)));
    assert_eq!(painted(&buf).len(), 3);
}

#[test]
fn draw_text_skips_negative_targets() {
    let mut buf = PixelBuffer::new(4, 4);
    let g = Glyph { min_x: -1, min_y: -1, width: 2, height: 2, coverage: vec![255; 4], color: rgba(7, 7, 7, 7) };
    buf.draw_text(&vec![g], BLANK);
    assert_eq!(painted(&buf), vec![(0, 0)]);
}
