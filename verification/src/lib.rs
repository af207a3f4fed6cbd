//! Presentation layer of a small freestanding kernel: a bounds-checked
//! framebuffer, a pixel renderer on top of it, a scrolling text console, and
//! the registry that dispatches output to the one active hardware subsystem.
//!
//! Every drawing operation is specified against a mathematical model of the
//! framebuffer ([`drivers::framebuffer::Surface`]); coordinates that fall
//! outside the framebuffer are clipped silently and never fault.

pub mod drivers;
pub mod graphics;
pub mod font;
pub mod console;
pub mod platform;
pub mod system;
