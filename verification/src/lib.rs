//! Verified core of a desktop hardware-tuning tool.
//!
//! The crate gathers point-in-time system state (CPU topology, discrete-GPU
//! mode, monitor refresh rates) from the textual output of external tools,
//! validates every user-supplied parameter against fixed policies, and builds
//! injection-resistant argument vectors for a privileged helper.  All parsing,
//! validation and argument construction is verified; the unverified shell
//! around the crate only performs the actual process launches and file reads
//! and hands the captured text in as plain values.

pub mod command;
pub mod cpu;
pub mod display;
pub mod gpu;
pub mod snapshot;
pub mod text;
pub mod validate;
