//! Core of a download manager: the lifecycle state machine for download
//! jobs, the process-handle registry, the progress cache with its
//! persistence rules, the engine command-line protocol, and the stores
//! that model the persistent job, history and settings records.
//!
//! All I/O (process spawning, the database, the event bus) lives outside
//! this crate; the functions here take plain values and return plain
//! values, with contracts that pin down every decision the core makes.

pub mod args;
pub mod browser;
pub mod errors;
pub mod fmt;
pub mod ids;
pub mod lifecycle;
pub mod monitor;
pub mod logging;
pub mod paths;
pub mod jobs;
pub mod options;
pub mod progress;
pub mod registry;
pub mod scalar;
pub mod settings;
pub mod speedtest;
pub mod store;
pub mod strutil;
pub mod table;
pub mod theme;
pub mod updater;
pub mod wire;
