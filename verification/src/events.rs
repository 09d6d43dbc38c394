//! The events that the host's calls start a resolution pass with.

use vstd::prelude::*;
use vstd::slice::slice_to_vec;

verus! {

/// What the host asks of the runtime and the panels. An event is a value: it
/// is copied to each handler and never changed.
#[derive(Clone, Debug, PartialEq, Eq)]
pub enum Event {
    /// Load a cartridge image, starting from the given save memory.
    LoadCartridge { rom: Vec<u8>, save: Vec<u8> },
    /// Run the engine for one scanline.
    RunScanline,
    /// Run the engine for one frame.
    RunFrame,
    /// Let each panel take in the runtime's state.
    Update,
    /// Render the panel's view again.
    RequestFrame,
    /// A click at a point of a panel's canvas.
    MouseClick { x: i32, y: i32 },
}

/// The events that loading a cartridge starts with: one cartridge load that
/// carries the image and no save memory. Save memory is never carried over
/// from an earlier cartridge.
pub fn load_rom(cart_data: &[u8]) -> (events: Vec<Event>)
    ensures
        events@.len() == 1,
        events@[0] matches Event::LoadCartridge { rom, save } && rom@ == cart_data@ && save@.len()
            == 0,
{
    let rom = slice_to_vec(cart_data);
    let save: Vec<u8> = Vec::new();
    vec![Event::LoadCartridge { rom, save }]
}

/// The events that an update of the panels starts with: one update tick.
pub fn update_windows() -> (events: Vec<Event>)
    ensures
        events@ == seq![Event::Update],
{
    vec![Event::Update]
}

/// The event that stands for a click at a point of the piano roll's canvas.
pub fn piano_roll_window_click(mx: i32, my: i32) -> (event: Event)
    ensures
        event == (Event::MouseClick { x: mx, y: my }),
{
    Event::MouseClick { x: mx, y: my }
}

} // verus!
