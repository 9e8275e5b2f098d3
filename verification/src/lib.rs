//! A verified interpreter for the classic CHIP-8 instruction set.
//!
//! The crate models a small virtual computer: 4096 bytes of memory with a
//! built-in font table, sixteen 8-bit data registers, a 64x32 monochrome
//! bitmap, a twelve-slot call stack, and two 60 Hz countdown timers.  The
//! execution engine fetches 16-bit opcode words, decodes them, and dispatches
//! to one handler per top nibble; every handler carries a contract that pins
//! down its effect on the machine state.

pub mod cpu;
pub mod display;
pub mod draw;
pub mod instruction;
pub mod laws;
pub mod machine;
pub mod ram;
