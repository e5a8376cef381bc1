//! A bounded, concurrency-friendly cache for converted animated images,
//! together with the fingerprinting, size-guarded download accounting,
//! and container transcoding logic that fills it.

pub mod cache;
pub mod download;
pub mod errors;
pub mod fingerprint;
pub mod orchestrator;
pub mod transcode;

pub use errors::Error;
