//! A verified CHIP-8 virtual machine: 16 general 8-bit registers, 4KB of
//! memory, a bounded call stack, two countdown timers, and a 64x32 monochrome
//! framebuffer. Each `handle_op` call executes exactly one instruction; the
//! whole effect of a step is pinned down by the spec-level interpreter in
//! `semantics`.

pub mod state;
pub mod semantics;
pub mod callstack;
pub mod rng;
pub mod vm;
pub mod laws;

pub use state::Chip8Error;
pub use state::StepOutcome;
pub use vm::Chip8;
pub use vm::SCREEN_WIDTH;
pub use vm::SCREEN_HEIGHT;
