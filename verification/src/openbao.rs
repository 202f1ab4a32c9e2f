//! The adapter that connects an OpenBao key-value store.

pub mod bridge;
pub mod client;
pub mod config;
pub mod config_laws;
pub mod error;
pub mod index;
pub mod laws;
pub mod mapping;
pub mod percent;
pub mod service;
pub mod sync;
pub mod sync_laws;
