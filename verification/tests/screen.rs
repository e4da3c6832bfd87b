use hbview3::screen::{rgba_of, VirtualScreen, BLACK, TEXT_X};

#[test]
fn new_screen_is_black() {
    let s = VirtualScreen::new(4, 3);
    assert_eq!(s.pixels.len(), 12);
    assert!(s.pixels.iter().all(|p| *p == BLACK));
    assert!(s.text.is_empty());
}

#[test]
fn set_pixel_on_and_off_screen() {
    let mut s = VirtualScreen::new(4, 3);
    s.set_pixel(1, 2, 0xFF0000FF);
    assert_eq!(s.pixels[2 * 4 + 1], 0xFF0000FF);
    s.set_pixel(4, 0, 0x00FF00FF);
    s.set_pixel(0, 3, 0x00FF00FF);
    assert_eq!(s.pixels.iter().filter(|p| **p != BLACK).count(), 1);
}

#[test]
fn draw_rect_is_clipped() {
    let mut s = VirtualScreen::new(4, 3);
    s.draw_rect(2, 1, 5, 5, 7);
    for y in 0..3 {
        for x in 0..4 {
            let expected = if x >= 2 && y >= 1 { 7 } else { BLACK };
            assert_eq!(s.pixels[y * 4 + x], expected);
        }
    }
}

#[test]
fn clear_forgets_text_and_pixels() {
    let mut s = VirtualScreen::new(2, 2);
    s.write_text("hello");
    s.set_pixel(0, 0, 1);
    s.clear();
    assert!(s.text.is_empty());
    assert!(s.pixels.iter().all(|p| *p == BLACK));
    s.clear_color(5);
    assert!(s.pixels.iter().all(|p| *p == 5));
}

#[test]
fn write_text_places_lines() {
    let mut s = VirtualScreen::new(2, 2);
    s.write_text("a\nb");
    s.write_text("c");
    let texts: Vec<&str> = s.text.iter().map(|l| l.text.as_str()).collect();
    assert_eq!(texts, vec!["a", "b", "c"]);
    assert_eq!(s.text[2].x, TEXT_X);
    assert_eq!(s.text[0].y, 8);
    assert_eq!(s.text[2].y, 40);
}

#[test]
fn rgba_splits_channels() {
    assert_eq!(rgba_of(0x11223344), (0x11, 0x22, 0x33, 0x44));
    let s = VirtualScreen::new(1, 1);
    assert_eq!(s.rgba_pixels(), vec![(0, 0, 0, 255)]);
}
