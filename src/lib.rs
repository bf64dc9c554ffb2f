//! Reconciliation of synthetic workloads ("sysloads" and "sideloads") and a
//! memory balloon against a declarative target. The host's side effects
//! (directories, service units, job files) go through `runner::SideHost`.
pub mod balloon;
pub mod host;
pub mod model;
pub mod purge;
pub mod resolve;
pub mod runner;
pub mod text;
