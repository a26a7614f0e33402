//! A CHIP-8 virtual machine.
//!
//! The interpreter owns the full machine state — 4 KiB of memory, sixteen
//! 8-bit registers, the index register, program counter, call stack, delay
//! and sound timers, a 64×32 monochrome framebuffer, and the 16-key keypad —
//! and executes the complete CHIP-8 instruction set one fetch/decode/execute
//! cycle at a time.
//!
//! Every executable function states its effect on the abstract machine
//! (`model::Machine`), and `laws` proves properties that span operations.
use vstd::prelude::*;

pub mod error;
pub mod model;
pub mod draw;
pub mod bits;
pub mod machine;
mod instructions;
pub mod laws;
pub mod semantics;
pub mod frontend;
pub mod snapshot;

pub use error::Chip8Error;
pub use machine::Chip8;

verus! {

/// Width of the monochrome framebuffer in pixels.
pub const DISPLAY_WIDTH: usize = 64;

/// Height of the monochrome framebuffer in pixels.
pub const DISPLAY_HEIGHT: usize = 32;

/// Number of pixels in the framebuffer (`DISPLAY_WIDTH * DISPLAY_HEIGHT`).
pub const DISPLAY_PIXELS: usize = 2048;

/// Bytes of addressable memory.
pub const MEMORY_SIZE: usize = 4096;

/// Depth of the subroutine call stack.
pub const STACK_DEPTH: usize = 16;

/// Address at which ROMs are loaded and execution starts.
pub const PROGRAM_START: usize = 0x200;

/// Address of the built-in hexadecimal font.
pub const FONT_START: usize = 0x050;

} // verus!
