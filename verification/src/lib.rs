//! Leader-elected scheduling of periodic jobs shared by a small fleet of
//! scheduler instances.

mod clock;
pub mod config;
pub mod db;
pub mod decimal;
pub mod election;
pub mod engine;
pub mod expression;
pub mod heartbeat;
pub mod job;
pub mod laws;
pub mod names;
pub mod reconcile;
pub mod scheduler;
pub mod server;
pub mod storage;
