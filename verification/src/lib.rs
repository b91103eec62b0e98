//! Client-side port knocking: a validated port-list parser, a restartable
//! single-flight knock sequencer, and a shutdown coordinator that lets a
//! close sequence run to completion before the process exits.

pub mod config;
pub mod knocker;
pub mod ports;
pub mod sequencer;
pub mod shutdown;
