//! Who a request comes from.

pub mod middleware;

pub use middleware::BasicAuthError;
pub use middleware::UserId;
