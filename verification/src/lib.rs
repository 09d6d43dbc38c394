//! Host-side core of an embedded console emulator: the event cascade, the
//! frame stepping decisions and the screen compositor, each with its contract.

pub mod bus;
pub mod compositor;
pub mod events;
pub mod panels;
pub mod pixels;
pub mod stepper;
