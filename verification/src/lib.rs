//! A resumable virtual machine over a flat memory of signed 32-bit integers,
//! together with a pipeline that chains several machine instances so a single
//! integer token flows through them, optionally in a feedback loop.

pub mod intcode;
pub mod solutions;
