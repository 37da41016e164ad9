//! A verified CHIP-8 interpreter core: the fetch-decode-execute cycle, the
//! machine state it mutates, and the exact semantics of every opcode.

pub mod cycle;
pub mod draw;
pub mod laws;
pub mod ops;
mod rng;
pub mod state;
