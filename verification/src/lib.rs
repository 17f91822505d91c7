//! gartop: the verified core of a daemon-based system monitor.
//!
//! The library holds the logic of the monitor: the bounded sample history,
//! the parsers for the kernel's statistics files, the rate bookkeeping of the
//! collectors, the IPC protocol values and the state of the GUI components.
//! Reading files, talking to the kernel and drawing stay with the caller.

pub mod history;
pub mod temperature;
pub mod text;
pub mod config;
pub mod cpu;
pub mod daemon;
pub mod diag;
pub mod disk;
pub mod error;
pub mod format;
pub mod gpu;
pub mod gui;
pub mod marks;
pub mod memory;
pub mod network;
pub mod order;
pub mod process;
pub mod protocol;
pub mod socket;
pub mod subscriptions;
