//! Credential rotation across password containers: the store model, the
//! container engines' parse and rewrite logic, routing of entries to
//! automation scripts, and the scheduling decisions of a rotation run.
pub mod model;
pub mod pwsafe;
pub mod kdbx;
pub mod config;
pub mod text;
pub mod routing;
pub mod chrome;
pub mod scheduler;
pub mod secrets;
pub mod unlock;
