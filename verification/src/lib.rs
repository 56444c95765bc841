//! Incremental replication of commit histories into a façade repository.
//!
//! A façade repository receives one placeholder commit for every non-merge
//! commit of the configured source repositories. A watermark, the time of the
//! latest commit replicated so far, is persisted in the façade's working tree
//! so that a later run only replicates what is new.
//!
//! This library holds the decisions of that process as verified functions on
//! plain values; reading and writing repositories is left to the caller.

pub mod commit;
pub mod config;
pub mod decimal;
pub mod document;
pub mod facade;
pub mod failure;
pub mod laws;
pub mod run;
pub mod scheduler;
pub mod timestamp;
pub mod watermark;
