//! A verified CHIP-8 interpreter core.
//!
//! The library models the whole machine (registers, memory, stack, timers,
//! keyboard latch, display) and proves that every instruction of the
//! fetch-decode-execute cycle follows the mathematical semantics given in
//! [`semantics`].  Rendering, audio, keyboard polling and ROM reading are
//! left to the host.

pub mod state;
pub mod semantics;
pub mod clock;
pub mod rng;
pub mod emulator;
pub mod laws;
