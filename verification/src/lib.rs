//! Newsletter delivery: idempotent publication of issues and a durable
//! delivery queue drained by background workers.

pub mod authentication;
pub mod delivery_queue;
pub mod domain;
pub mod idempotency;
pub mod issue_delivery_worker;
pub mod issue_store;
pub mod laws;
pub mod routes;
pub mod rows;
pub mod startup;
pub mod store;
pub mod utils;
