//! Drivers for the devices the kernel renders to.
//!
//! Drivers keep the details of a device, its memory layout and its limits,
//! behind functions that do the work.

pub mod framebuffer;
pub mod vga_buffer;
