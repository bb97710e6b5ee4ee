//! Configuration, propagation and plan rewriting for distributed query execution.

pub mod config_extension_ext;
pub mod config_laws;
pub mod config_propagation;
pub mod distributed_config;
pub mod error;
pub mod extension_laws;
pub mod extension_text_laws;
pub mod headers;
pub mod large_batch;
pub mod session;
pub mod shared;
pub mod shuffle_laws;
pub mod text;
pub mod tune_shuffle_producer_batch_sizes;
pub mod worker_resolver;
