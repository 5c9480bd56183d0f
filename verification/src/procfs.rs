//! What the kernel shows of processes.
pub mod listing;
pub mod process;
pub mod state;
