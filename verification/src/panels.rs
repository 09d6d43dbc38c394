//! Handing a panel's canvas to the host, into a buffer that the caller owns
//! and has sized.

use crate::pixels::copy_pixels;
use vstd::prelude::*;
use vstd::slice::slice_subrange;

verus! {

/// Width of the audio visualizer's canvas in pixels.
pub const APU_WINDOW_WIDTH: usize = 256;

/// Height of the audio visualizer's canvas in pixels.
pub const APU_WINDOW_HEIGHT: usize = 500;

/// Number of bytes of the audio visualizer's canvas: four per pixel.
pub const APU_WINDOW_BYTES: usize = 512000;

/// Writes the audio visualizer's canvas to `dest`, which holds exactly one
/// such canvas.
pub fn draw_apu_window(canvas: &[u8], dest: &mut [u8])
    requires
        canvas@.len() >= APU_WINDOW_BYTES,
        old(dest)@.len() == APU_WINDOW_BYTES,
    ensures
        final(dest)@ == canvas@.take(APU_WINDOW_BYTES as int),
{
    let shown = slice_subrange(canvas, 0, APU_WINDOW_BYTES);
    copy_pixels(shown, dest);
}

/// Writes the piano roll's canvas to `dest`, which is exactly as long.
pub fn draw_piano_roll_window(canvas: &[u8], dest: &mut [u8])
    requires
        old(dest)@.len() == canvas@.len(),
    ensures
        final(dest)@ == canvas@,
{
    copy_pixels(canvas, dest);
}

} // verus!
