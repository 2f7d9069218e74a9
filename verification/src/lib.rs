//! Verified core of a two-level quantum-state simulator: the register of
//! qubit slots, the circuit of gate instructions and its presets, the
//! sequencing of a circuit run, and the tally of measured outcomes.
//!
//! Amplitude arithmetic is left to the caller. The register is generic in the
//! type that holds one qubit's amplitudes. [`Circuit::run`] takes the caller's
//! two functions for the work on the amplitudes, one that applies a gate and
//! one that measures, and calls them as the circuit asks. Underneath it is
//! [`Run`], which hands out one action at a time and takes the report of
//! what came of it.

pub mod circuit;
pub mod error;
pub mod execute;
pub mod gate;
pub mod histogram;
pub mod outcome;
pub mod register;
pub mod run;

pub use circuit::{preset_program, Circuit};
pub use error::SimError;
pub use execute::{Ended, EndedView, Exchange};
pub use gate::{GateKind, Instruction, Operation};
pub use histogram::{histogram, occurrences, unmeasured, Histogram};
pub use outcome::Outcome;
pub use register::{Register, RegisterView};
pub use run::{Action, Event, Run, RunView};
