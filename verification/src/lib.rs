//! A verified CHIP-8 virtual machine.
//!
//! The machine owns all emulated state (memory, registers, program counter,
//! call stack, timers, display buffer, key state) and is driven from outside
//! through four operations: single-step execution, timer decrement, and
//! key-down / key-up events. Every instruction's effect is stated by the
//! mathematical step function in [`semantics`] and proved of the executable
//! code in [`chip8`]; the general laws of the instruction set are proved in
//! [`laws`].

pub mod chip8;
pub mod laws;
pub mod semantics;

pub use chip8::Chip8;
pub use chip8::Fault;
pub use chip8::State;
