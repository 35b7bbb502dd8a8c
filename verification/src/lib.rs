//! Verified core of the Stipple UI toolkit: pixel buffers, colors, caret-aware
//! text editing, keyboard mapping, and the X11 / D-Bus wire codecs.

pub mod geometry;
pub mod utf8;
pub mod edit;
pub mod color;
pub mod pixmap;
pub mod wire;
pub mod x11;
pub mod input;
pub mod dbus;
pub mod gpu;
pub mod dialog;
pub mod errors;
pub mod style;
pub mod sandbox;
