use grindlewald::icon::{tray_icon_pixels, ICON_SIZE};

#[test]
fn tray_icon_draws_the_glyph_in_alpha_only() {
    let pixels = tray_icon_pixels();
    assert_eq!(pixels.len(), ICON_SIZE * ICON_SIZE * 4);
    let opaque = pixels.chunks(4).filter(|pixel| pixel[3] == 255).count();
    assert_eq!(opaque, 17 * 9);
    assert!(pixels.chunks(4).all(|pixel| pixel[0] == 0 && pixel[1] == 0 && pixel[2] == 0));
    assert_eq!(pixels[((2 * 32) + 10) * 4 + 3], 255);
    assert_eq!(pixels[((2 * 32) + 6) * 4 + 3], 0);
    assert_eq!(pixels[((5 * 32) + 10) * 4 + 3], 0);
}
