//! Time-windowed domain blocking through a managed block of the hosts file.

pub mod text;
pub mod block;
pub mod schedule;
pub mod hosts;
pub mod convergence;
pub mod models;
pub mod domain_set;
pub mod json;
pub mod clock;
pub mod reconcile;
pub mod commands;
pub mod platform;
