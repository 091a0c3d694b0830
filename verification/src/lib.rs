//! Integer core of a small real-time ray tracer: colours and their CSS text,
//! the keyboard state that steers the camera, and the walk over the pixels
//! of the canvas.

pub mod color;
pub mod input;
pub mod controls;
pub mod screen;
