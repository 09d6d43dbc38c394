//! The compositor: palette lookup and overlay blend, from the engine's indexed
//! framebuffer to presentation pixels.

use crate::pixels::copy_pixels;
use vstd::prelude::*;

verus! {

/// Width of the screen in pixels.
pub const SCREEN_WIDTH: usize = 256;

/// Height of the screen in pixels.
pub const SCREEN_HEIGHT: usize = 240;

/// Number of pixels on the screen.
pub const SCREEN_PIXELS: usize = 61440;

/// Number of bytes of one rendered screen: four per pixel.
pub const SCREEN_BYTES: usize = 245760;

/// Number of colours in the palette table.
pub const PALETTE_ENTRIES: usize = 64;

/// Number of bytes of the palette table: red, green and blue for each entry.
pub const PALETTE_BYTES: usize = 192;

/// The dark level, the same in each channel, that shows through where the
/// overlay is not opaque.
pub const BACKGROUND: u8 = 3;

/// The alpha of every rendered pixel.
pub const OPAQUE: u8 = 255;

/// One channel of `base` laid over `background` with opacity `alpha` out of
/// 255, rounded down.
pub open spec fn interpolate(base: u8, alpha: u8, background: u8) -> u8 {
    ((base * alpha + background * (255 - alpha)) / 255) as u8
}

/// One channel of `base` scaled by the matching overlay channel out of 255,
/// rounded down.
pub open spec fn multiply(base: u8, overlay: u8) -> u8 {
    ((base * overlay) / 255) as u8
}

/// A product of two bytes is at most 255 * 255.
proof fn lemma_byte_product(a: u8, b: u8)
    ensures
        0 <= a * b <= 65025,
        a * b <= 255 * b,
{
    assert(0 <= a * b <= 65025 && a * b <= 255 * b) by (nonlinear_arith)
        requires
            0 <= a <= 255,
            0 <= b <= 255,
    ;
}

/// The interpolating blend: `base` over `background` at opacity `alpha`.
pub fn blend_interpolate(base: u8, alpha: u8, background: u8) -> (out: u8)
    ensures
        out == interpolate(base, alpha, background),
{
    let inverse: u8 = 255 - alpha;
    proof {
        lemma_byte_product(base, alpha);
        lemma_byte_product(background, inverse);
    }
    let lit: u32 = base as u32 * alpha as u32;
    let dark: u32 = background as u32 * inverse as u32;
    ((lit + dark) / 255) as u8
}

/// The multiplying blend: `base` scaled by the overlay's matching channel.
pub fn blend_multiply(base: u8, overlay: u8) -> (out: u8)
    ensures
        out == multiply(base, overlay),
{
    proof {
        lemma_byte_product(base, overlay);
    }
    let scaled: u32 = base as u32 * overlay as u32;
    (scaled / 255) as u8
}

/// At full opacity either blend shows the base colour unchanged.
pub proof fn lemma_full_opacity_is_identity(base: u8, background: u8)
    ensures
        interpolate(base, 255, background) == base,
        multiply(base, 255) == base,
{
}

/// At zero opacity the interpolating blend shows the background alone, and
/// the multiplying blend shows black.
pub proof fn lemma_zero_opacity_hides_base(base: u8, background: u8)
    ensures
        interpolate(base, 0, background) == background,
        multiply(base, 0) == 0,
{
}

/// Whether `screen` and `palette` can be composited: the screen holds one
/// palette index below `PALETTE_ENTRIES` for each pixel, and the palette holds
/// three bytes for each entry.
pub open spec fn valid_frame(screen: Seq<u8>, palette: Seq<u8>) -> bool {
    &&& screen.len() == SCREEN_PIXELS
    &&& palette.len() == PALETTE_BYTES
    &&& forall|p: int| 0 <= p < screen.len() ==> screen[p] < PALETTE_ENTRIES
}

/// Byte `i` of the composited screen. Pixel `i / 4` takes its base colour from
/// the palette entry that the screen names, blends each colour channel over
/// `BACKGROUND` at the opacity given by the first byte of the overlay's pixel,
/// and is itself opaque.
pub open spec fn composite_byte(
    screen: Seq<u8>,
    palette: Seq<u8>,
    overlay: Seq<u8>,
    i: int,
) -> u8 {
    let pixel = i / 4;
    let channel = i % 4;
    if channel == 3 {
        OPAQUE
    } else {
        interpolate(palette[3 * screen[pixel] + channel], overlay[4 * pixel], BACKGROUND)
    }
}

/// The composited screen: `SCREEN_BYTES` bytes, pixel after pixel in row
/// order, red, green, blue and alpha for each.
pub open spec fn composite(screen: Seq<u8>, palette: Seq<u8>, overlay: Seq<u8>) -> Seq<u8> {
    Seq::new(SCREEN_BYTES as nat, |i: int| composite_byte(screen, palette, overlay, i))
}

/// A pixel by its coordinates: at column `x` of row `y`, each colour channel
/// of the rendered screen is the palette colour of the index that the screen
/// holds at that place, blended at the opacity that the overlay holds at the
/// same place; the fourth byte of the pixel is `OPAQUE`.
pub proof fn lemma_pixel_at(
    screen: Seq<u8>,
    palette: Seq<u8>,
    overlay: Seq<u8>,
    x: int,
    y: int,
    channel: int,
)
    requires
        0 <= x < SCREEN_WIDTH,
        0 <= y < SCREEN_HEIGHT,
        0 <= channel < 3,
    ensures
        0 <= y * SCREEN_WIDTH + x < SCREEN_PIXELS,
        composite(screen, palette, overlay)[4 * (y * SCREEN_WIDTH + x) + channel] == interpolate(
            palette[3 * screen[y * SCREEN_WIDTH + x] + channel],
            overlay[4 * (y * SCREEN_WIDTH + x)],
            BACKGROUND,
        ),
        composite(screen, palette, overlay)[4 * (y * SCREEN_WIDTH + x) + 3] == OPAQUE,
{
}

/// Tests whether a screen and a palette can be composited.
pub fn frame_is_valid(screen: &[u8], palette: &[u8]) -> (valid: bool)
    ensures
        valid == valid_frame(screen@, palette@),
{
    if screen.len() != SCREEN_PIXELS || palette.len() != PALETTE_BYTES {
        return false;
    }
    let mut p: usize = 0;
    while p < SCREEN_PIXELS
        invariant
            p <= SCREEN_PIXELS,
            screen@.len() == SCREEN_PIXELS,
            forall|q: int| 0 <= q < p ==> screen@[q] < PALETTE_ENTRIES,
        decreases SCREEN_PIXELS - p,
    {
        if screen[p] as usize >= PALETTE_ENTRIES {
            return false;
        }
        p += 1;
    }
    true
}

/// The compositor's state as contracts see it.
pub struct CompositorView {
    /// The overlay texture, fixed when the compositor is made.
    pub overlay: Seq<u8>,
    /// The pixels of the last render.
    pub canvas: Seq<u8>,
}

impl CompositorView {
    /// The state after rendering `screen` through `palette`: the canvas is
    /// rewritten in full, the overlay stays.
    pub open spec fn rendered(self, screen: Seq<u8>, palette: Seq<u8>) -> CompositorView {
        CompositorView { overlay: self.overlay, canvas: composite(screen, palette, self.overlay) }
    }
}

/// Owns the overlay texture and the canvas that each render rewrites.
pub struct Compositor {
    overlay: Vec<u8>,
    canvas: Vec<u8>,
}

impl View for Compositor {
    type V = CompositorView;

    closed spec fn view(&self) -> CompositorView {
        CompositorView { overlay: self.overlay@, canvas: self.canvas@ }
    }
}

impl Compositor {
    #[verifier::type_invariant]
    spec fn well_formed(&self) -> bool {
        &&& self.overlay.len() >= SCREEN_BYTES
        &&& self.canvas.len() == SCREEN_BYTES
    }

    /// Makes a compositor around an overlay texture of four bytes per pixel in
    /// rows of `SCREEN_WIDTH` pixels. The overlay has to cover the screen; the
    /// canvas starts out cleared.
    pub fn new(overlay: Vec<u8>) -> (made: Option<Compositor>)
        ensures
            made is Some <==> overlay@.len() >= SCREEN_BYTES,
            made matches Some(compositor) ==> compositor@.overlay == overlay@
                && compositor@.canvas == Seq::new(SCREEN_BYTES as nat, |i: int| 0u8),
    {
        if overlay.len() < SCREEN_BYTES {
            return None;
        }
        let canvas: Vec<u8> = vec![0u8; SCREEN_BYTES];
        assert(canvas@ =~= Seq::new(SCREEN_BYTES as nat, |i: int| 0u8));
        Some(Compositor { overlay, canvas })
    }

    /// The pixels of the last render, without rendering again.
    pub fn active_canvas(&self) -> (pixels: &[u8])
        ensures
            pixels@ == self@.canvas,
            pixels@.len() == SCREEN_BYTES,
    {
        proof {
            use_type_invariant(self);
        }
        self.canvas.as_slice()
    }
}

/// Renders the engine's framebuffer into the compositor's canvas.
pub fn render_screen_pixels(compositor: &mut Compositor, screen: &[u8], palette: &[u8])
    requires
        valid_frame(screen@, palette@),
    ensures
        final(compositor)@ == old(compositor)@.rendered(screen@, palette@),
{
    proof {
        use_type_invariant(&*compositor);
    }
    let mut p: usize = 0;
    while p < SCREEN_PIXELS
        invariant
            p <= SCREEN_PIXELS,
            valid_frame(screen@, palette@),
            compositor.overlay == old(compositor).overlay,
            compositor.overlay.len() >= SCREEN_BYTES,
            compositor.canvas.len() == SCREEN_BYTES,
            forall|i: int|
                0 <= i < 4 * p ==> compositor.canvas@[i] == composite_byte(
                    screen@,
                    palette@,
                    compositor.overlay@,
                    i,
                ),
        decreases SCREEN_PIXELS - p,
    {
        let entry: usize = screen[p] as usize * 3;
        let at: usize = p * 4;
        let alpha: u8 = compositor.overlay[at];
        let red: u8 = blend_interpolate(palette[entry], alpha, BACKGROUND);
        let green: u8 = blend_interpolate(palette[entry + 1], alpha, BACKGROUND);
        let blue: u8 = blend_interpolate(palette[entry + 2], alpha, BACKGROUND);
        compositor.canvas[at] = red;
        compositor.canvas[at + 1] = green;
        compositor.canvas[at + 2] = blue;
        compositor.canvas[at + 3] = OPAQUE;
        p += 1;
    }
    assert(compositor.canvas@ =~= composite(screen@, palette@, compositor.overlay@));
}

/// Renders the engine's framebuffer and writes the pixels to `pixels`, which
/// holds exactly one screen.
pub fn draw_screen_pixels(
    compositor: &mut Compositor,
    screen: &[u8],
    palette: &[u8],
    pixels: &mut [u8],
)
    requires
        valid_frame(screen@, palette@),
        old(pixels)@.len() == SCREEN_BYTES,
    ensures
        final(compositor)@ == old(compositor)@.rendered(screen@, palette@),
        final(pixels)@ == final(compositor)@.canvas,
{
    render_screen_pixels(compositor, screen, palette);
    copy_pixels(compositor.active_canvas(), pixels);
}

/// Drawing is idempotent: rendering again from the same framebuffer and
/// palette leaves the same state, and with it the same pixels, as rendering
/// once. What the canvas held before has no part in it: two compositors with
/// the same overlay render the same pixels.
pub proof fn lemma_render_is_idempotent(
    before: CompositorView,
    other: CompositorView,
    screen: Seq<u8>,
    palette: Seq<u8>,
)
    requires
        other.overlay == before.overlay,
    ensures
        before.rendered(screen, palette).rendered(screen, palette) == before.rendered(
            screen,
            palette,
        ),
        other.rendered(screen, palette) == before.rendered(screen, palette),
{
}

/// Every rendered screen holds `SCREEN_BYTES` bytes, and every fourth byte,
/// the alpha of its pixel, is `OPAQUE`.
pub proof fn lemma_rendered_pixels_are_opaque(
    screen: Seq<u8>,
    palette: Seq<u8>,
    overlay: Seq<u8>,
)
    ensures
        composite(screen, palette, overlay).len() == SCREEN_BYTES,
        forall|i: int|
            0 <= i < SCREEN_BYTES && i % 4 == 3 ==> #[trigger] composite(
                screen,
                palette,
                overlay,
            )[i] == OPAQUE,
{
}

/// Under an overlay that is fully opaque at every pixel, each colour byte of
/// the rendered screen is the palette's byte for that pixel and channel.
pub proof fn lemma_opaque_overlay_shows_palette(
    screen: Seq<u8>,
    palette: Seq<u8>,
    overlay: Seq<u8>,
)
    requires
        forall|i: int| 0 <= i < SCREEN_BYTES && i % 4 == 0 ==> #[trigger] overlay[i] == 255,
    ensures
        forall|i: int|
            0 <= i < SCREEN_BYTES && i % 4 != 3 ==> #[trigger] composite(
                screen,
                palette,
                overlay,
            )[i] == palette[3 * screen[i / 4] + i % 4],
{
    assert forall|i: int| 0 <= i < SCREEN_BYTES && i % 4 != 3 implies #[trigger] composite(
        screen,
        palette,
        overlay,
    )[i] == palette[3 * screen[i / 4] + i % 4] by {
        let base = palette[3 * screen[i / 4] + i % 4];
        assert(overlay[4 * (i / 4)] == 255);
        lemma_full_opacity_is_identity(base, BACKGROUND);
    }
}

} // verus!
