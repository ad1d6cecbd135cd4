//! A verified virtual machine for a classic 8-bit instruction set:
//! a decoder/encoder for 16-bit opcodes and an execution engine that
//! owns the machine state (memory, registers, stack, timers, display,
//! key states) and advances it one instruction at a time.

pub mod emulator;
pub mod instruction;
pub mod ui;

pub use emulator::DisplaySize;
pub use emulator::EmuError;
pub use emulator::Emulator;
