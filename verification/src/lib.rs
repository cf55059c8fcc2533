//! Real-time DVI video generation for small microcontrollers: the TMDS
//! encoder, the line-timing state machine, the scanline DMA chains, the
//! render-list and scan-list display programs, and the hand-off primitives
//! that keep rendering ahead of scan-out.
//!
//! Everything here is plain computation over plain values; the register
//! writes, interrupts and wait loops that drive it live with the firmware.

pub mod clock;
pub mod console;
pub mod demo;
pub mod dvi;
pub mod framebuffer;
pub mod render;
pub mod scanlist;
