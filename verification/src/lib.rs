//! LifeOS synchronisation engine: entries, an append-only change log with
//! sequence numbers, per-device synchronisation checkpoints, and the push and
//! pull processing that keeps several devices in step.

pub mod ids;
pub mod clock;
pub mod models;
pub mod changelog;
pub mod api;
pub mod errors;
pub mod error;
pub mod repository_spec;
pub mod repository;
pub mod sync_spec;
pub mod processor;
pub mod pull_processor;
pub mod validator;
pub mod sync_engine;
pub mod laws;
pub mod operation_laws;
