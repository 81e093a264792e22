//! Logging in.

pub mod get;

pub use get::QueryParams;
