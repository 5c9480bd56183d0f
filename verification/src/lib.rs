//! Typed records from the text that a Linux kernel exposes under `/proc`:
//! the mount table and the per-process status line.
pub mod error;
pub mod mounts;
pub mod number;
pub mod pattern;
pub mod procfs;
pub mod text;
