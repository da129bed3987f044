//! A verified core for a small 1970s-era virtual machine with 16-bit opcodes:
//! 4096 bytes of memory, sixteen 8-bit registers, an index register, a call
//! stack, two countdown timers, a 64x32 monochrome display and 16 keys.
//!
//! The executable machine lives in [`emu`]; its behaviour is specified against
//! the mathematical model in [`model`], and general laws of the instruction
//! set are proved in [`laws`].

pub mod emu;
pub mod laws;
pub mod model;
