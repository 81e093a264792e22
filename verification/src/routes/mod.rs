//! What the service answers to requests, as far as it can be decided
//! without touching the network.

pub mod admin;
pub mod error_chain;
pub mod login;
pub mod newsletters;
pub mod subscriptions;
pub mod subscriptions_confirm;

pub use error_chain::error_chain_fmt;
pub use login::QueryParams;
pub use newsletters::publish_newsletters;
pub use newsletters::SendIssueContent;
pub use subscriptions::generate_subscription_token;
pub use subscriptions::SubscribeError;
pub use subscriptions::SubscribeFormData;
pub use subscriptions_confirm::ConfirmationError;
pub use subscriptions_confirm::ConfirmationParameters;
