//! Capability interface for presentation layers: a screen is constructed
//! from a loaded machine, takes ownership of it, and drives it.

use crate::emulator::Emulator;
use vstd::prelude::*;

verus! {

/// A presentation layer over the machine: it is built from a loaded
/// `Emulator` and then drives it, issuing execution cycles, rendering the
/// display buffer, and feeding key states back in.
pub trait Screen: Sized {
    /// Take ownership of the machine.
    fn new(emu: Emulator) -> Self;

    /// Drive the machine.
    fn run(self);
}

} // verus!
