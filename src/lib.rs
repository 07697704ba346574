//! An interpreter for the eight-command tape language: an auto-expanding data
//! tape of integer cells, a fixed instruction store and a dispatch loop whose
//! every step is specified and verified.

pub mod bf;
pub mod memory;

pub use bf::{Brainfuck, EngineState, ExecutionError, Status};
pub use memory::{AddressingError, Memory, MemoryState};
