//! Core of a hotkey listener for a remote timer server: decoding of raw
//! keyboard transition records, deduplication of redundant key state,
//! edge-triggered chord matching against configured bindings, and stateful
//! dispatch of protocol commands (pause toggling, cyclic comparison
//! selection).
//!
//! All I/O (device files, the settings file, the outbound connection) lives
//! outside this crate; the library works on plain values.

pub mod chord;
pub mod dedup;
pub mod dispatch;
pub mod input;
pub mod listener;
