//! Collects the zombienet jobs of a GitLab project, finds out why the failed ones failed
//! and keeps them in a store.

pub mod analysis;
pub mod cause;
pub mod config;
pub mod db;
pub mod history;
pub mod job;
pub mod laws;
pub mod request;
pub mod run;
pub mod select;
pub mod store;
pub mod text;
