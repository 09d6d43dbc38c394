use rusticnes_wasm::compositor::{
    blend_interpolate, blend_multiply, draw_screen_pixels, frame_is_valid, render_screen_pixels,
    Compositor, BACKGROUND, OPAQUE, PALETTE_BYTES, PALETTE_ENTRIES, SCREEN_BYTES, SCREEN_HEIGHT,
    SCREEN_PIXELS, SCREEN_WIDTH,
};

fn palette() -> Vec<u8> {
    (0..PALETTE_BYTES).map(|i| (i * 5 % 256) as u8).collect()
}

fn screen(seed: usize) -> Vec<u8> {
    (0..SCREEN_PIXELS).map(|p| ((p * 13 + seed) % PALETTE_ENTRIES) as u8).collect()
}

fn overlay() -> Vec<u8> {
    (0..SCREEN_BYTES).map(|i| (i * 3 % 256) as u8).collect()
}

fn compositor_with(overlay: Vec<u8>) -> Compositor {
    match Compositor::new(overlay) {
        Some(compositor) => compositor,
        None => panic!("the overlay covers the screen"),
    }
}

#[test]
fn screen_is_256_by_240() {
    assert_eq!(SCREEN_WIDTH, 256);
    assert_eq!(SCREEN_HEIGHT, 240);
    assert_eq!(SCREEN_PIXELS, 256 * 240);
    assert_eq!(SCREEN_BYTES, 256 * 240 * 4);
    assert_eq!(PALETTE_ENTRIES, 64);
    assert_eq!(PALETTE_BYTES, 64 * 3);
    assert_eq!(BACKGROUND, 3);
    assert_eq!(OPAQUE, 255);
}

#[test]
fn blend_interpolate_rounds_down() {
    assert_eq!(blend_interpolate(200, 128, 3), 101);
    assert_eq!(blend_interpolate(255, 1, 3), 3);
    assert_eq!(blend_interpolate(255, 2, 3), 4);
    assert_eq!(blend_interpolate(100, 254, 0), 99);
    assert_eq!(blend_interpolate(0, 128, 255), 127);
}

#[test]
fn blend_multiply_rounds_down() {
    assert_eq!(blend_multiply(200, 128), 100);
    assert_eq!(blend_multiply(255, 254), 254);
    assert_eq!(blend_multiply(1, 254), 0);
    assert_eq!(blend_multiply(128, 128), 64);
}

#[test]
fn both_blends_are_the_identity_at_full_opacity() {
    for base in 0..=255u8 {
        assert_eq!(blend_interpolate(base, 255, BACKGROUND), base);
        assert_eq!(blend_interpolate(base, 255, 200), base);
        assert_eq!(blend_multiply(base, 255), base);
    }
}

#[test]
fn blends_differ_below_full_opacity() {
    assert_eq!(blend_interpolate(200, 128, BACKGROUND), 101);
    assert_eq!(blend_multiply(200, 128), 100);
    assert_eq!(blend_interpolate(77, 0, BACKGROUND), BACKGROUND);
    assert_eq!(blend_multiply(77, 0), 0);
}

#[test]
fn compositor_needs_an_overlay_that_covers_the_screen() {
    assert!(Compositor::new(Vec::new()).is_none());
    assert!(Compositor::new(vec![255; SCREEN_BYTES - 1]).is_none());
    assert!(Compositor::new(vec![255; SCREEN_BYTES]).is_some());
    assert!(Compositor::new(vec![255; SCREEN_BYTES + 1024]).is_some());
}

#[test]
fn canvas_starts_out_cleared() {
    let compositor = compositor_with(overlay());
    assert_eq!(compositor.active_canvas(), &vec![0u8; SCREEN_BYTES][..]);
}

#[test]
fn frame_is_valid_checks_sizes_and_indices() {
    assert!(frame_is_valid(&screen(0), &palette()));
    assert!(!frame_is_valid(&screen(0)[1..], &palette()));
    assert!(!frame_is_valid(&screen(0), &palette()[..PALETTE_BYTES - 1]));
    assert!(!frame_is_valid(&[], &[]));
    let mut bad = screen(0);
    bad[SCREEN_PIXELS - 1] = 64;
    assert!(!frame_is_valid(&bad, &palette()));
    bad[SCREEN_PIXELS - 1] = 63;
    assert!(frame_is_valid(&bad, &palette()));
}

#[test]
fn render_blends_each_pixel_over_the_background() {
    let (screen, palette, overlay) = (screen(5), palette(), overlay());
    let mut compositor = compositor_with(overlay.clone());
    render_screen_pixels(&mut compositor, &screen, &palette);
    let canvas = compositor.active_canvas();
    assert_eq!(canvas.len(), SCREEN_BYTES);
    for p in 0..SCREEN_PIXELS {
        let alpha = overlay[4 * p] as u32;
        for channel in 0..3 {
            let base = palette[3 * screen[p] as usize + channel] as u32;
            let expected = (base * alpha + 3 * (255 - alpha)) / 255;
            assert_eq!(canvas[4 * p + channel] as u32, expected);
        }
        assert_eq!(canvas[4 * p + 3], 255);
    }
}

#[test]
fn render_of_a_known_pixel() {
    let mut screen = vec![0u8; SCREEN_PIXELS];
    let mut palette = vec![0u8; PALETTE_BYTES];
    let mut overlay = vec![255u8; SCREEN_BYTES];
    let at = 17 * SCREEN_WIDTH + 200;
    screen[at] = 33;
    palette[99] = 200;
    palette[100] = 100;
    palette[101] = 50;
    overlay[4 * at] = 128;
    overlay[4 * at + 1] = 7;
    overlay[4 * at + 2] = 9;
    overlay[4 * at + 3] = 11;
    let mut compositor = compositor_with(overlay);
    render_screen_pixels(&mut compositor, &screen, &palette);
    assert_eq!(compositor.active_canvas()[4 * at..4 * at + 4], [101, 51, 26, 255]);
    assert_eq!(compositor.active_canvas()[0..4], [0, 0, 0, 255]);
}

#[test]
fn opaque_overlay_shows_the_palette_colours() {
    let (screen, palette) = (screen(1), palette());
    let mut compositor = compositor_with(vec![255; SCREEN_BYTES]);
    render_screen_pixels(&mut compositor, &screen, &palette);
    let canvas = compositor.active_canvas();
    for p in 0..SCREEN_PIXELS {
        let entry = 3 * screen[p] as usize;
        assert_eq!(canvas[4 * p..4 * p + 3], palette[entry..entry + 3]);
    }
}

#[test]
fn clear_overlay_shows_the_background() {
    let mut compositor = compositor_with(vec![0; SCREEN_BYTES]);
    render_screen_pixels(&mut compositor, &screen(2), &palette());
    for pixel in compositor.active_canvas().chunks(4) {
        assert_eq!(pixel, [3, 3, 3, 255]);
    }
}

#[test]
fn drawing_twice_gives_the_same_bytes() {
    let (screen, palette) = (screen(9), palette());
    let mut compositor = compositor_with(overlay());
    let mut first = vec![0u8; SCREEN_BYTES];
    let mut second = vec![0x55u8; SCREEN_BYTES];
    draw_screen_pixels(&mut compositor, &screen, &palette, &mut first);
    draw_screen_pixels(&mut compositor, &screen, &palette, &mut second);
    assert_eq!(first, second);
}

#[test]
fn draw_writes_the_rendered_canvas() {
    let (screen, palette) = (screen(4), palette());
    let mut compositor = compositor_with(overlay());
    let mut pixels = vec![0u8; SCREEN_BYTES];
    draw_screen_pixels(&mut compositor, &screen, &palette, &mut pixels);
    assert_eq!(&pixels[..], compositor.active_canvas());
    let mut rendered = compositor_with(overlay());
    render_screen_pixels(&mut rendered, &screen, &palette);
    assert_eq!(&pixels[..], rendered.active_canvas());
}

#[test]
fn render_rewrites_the_whole_canvas() {
    let palette = palette();
    let mut reused = compositor_with(overlay());
    render_screen_pixels(&mut reused, &screen(1), &palette);
    render_screen_pixels(&mut reused, &screen(2), &palette);
    let mut fresh = compositor_with(overlay());
    render_screen_pixels(&mut fresh, &screen(2), &palette);
    assert_eq!(reused.active_canvas(), fresh.active_canvas());
}

#[test]
fn active_canvas_keeps_the_last_render() {
    let (screen, palette) = (screen(3), palette());
    let mut compositor = compositor_with(overlay());
    render_screen_pixels(&mut compositor, &screen, &palette);
    let first = compositor.active_canvas().to_vec();
    assert_eq!(compositor.active_canvas(), &first[..]);
}

#[test]
fn overlay_beyond_the_screen_is_not_read() {
    let (screen, palette) = (screen(6), palette());
    let mut long = overlay();
    long.extend_from_slice(&[1, 2, 3, 4, 5, 6, 7, 8]);
    let mut with_long = compositor_with(long);
    let mut with_exact = compositor_with(overlay());
    render_screen_pixels(&mut with_long, &screen, &palette);
    render_screen_pixels(&mut with_exact, &screen, &palette);
    assert_eq!(with_long.active_canvas(), with_exact.active_canvas());
}

#[test]
fn drawn_frame_is_256_by_240_and_opaque() {
    let mut compositor = compositor_with(overlay());
    let mut pixels = vec![0u8; 256 * 240 * 4];
    draw_screen_pixels(&mut compositor, &screen(0), &palette(), &mut pixels);
    assert_eq!(pixels.len(), 256 * 240 * 4);
    for pixel in pixels.chunks(4) {
        assert_eq!(pixel[3], 255);
    }
}
