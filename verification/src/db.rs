//! The adapter that connects databases: scheduled providers, queries on demand and
//! durable stores.

pub mod bridge;
pub mod callback;
pub mod config;
pub mod config_laws;
pub mod error;
pub mod laws;
pub mod plan;
pub mod publisher;
pub mod rows;
pub mod service;
