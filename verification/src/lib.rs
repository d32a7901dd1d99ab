//! A process-monitoring engine.
//!
//! The engine turns snapshots of the operating system's process table into a
//! report of text lines: system-wide totals followed by one row per process,
//! either as a flat list or as a parent/child tree. Slow-changing attributes
//! of a process (name, executable, owning account) are resolved once and kept
//! in a cache; recomputation is throttled by a minimum interval.
//!
//! Reading the process table and the per-process status text is left to the
//! caller, who hands the engine plain values.

pub mod aggregate;
pub mod cache;
pub mod engine;
pub mod owner;
pub mod report;
pub mod scheduler;
pub mod snapshot;
pub mod text;
pub mod tree;
