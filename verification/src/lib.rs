//! A verified core for a plain-text note keeper.
//!
//! Notes are trees: a root note owns a file, children are nested inside the
//! parent's serialized text.  The crate provides the line-oriented checkbox
//! sub-language embedded in note bodies, the recursive document codec that
//! serializes and parses whole note trees, the in-memory note collection with
//! its command operations, and the pomodoro timer state machine.  File and
//! terminal I/O live outside the library; every function here is pure
//! computation on plain values.

pub mod checkbox;
pub mod codec;
pub mod model;
pub mod pomodoro;
pub mod roundtrip;
pub mod state;
pub mod text;
