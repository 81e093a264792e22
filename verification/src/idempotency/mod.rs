//! Idempotent handling of repeated requests.

pub mod key;
pub mod persistence;
pub mod processing;
pub mod response;
pub mod retry;

pub use key::IdempotencyKey;
pub use key::IdempotencyKeyError;
pub use persistence::IdempotencyStore;
pub use persistence::Claim;
pub use processing::claim_outcome;
pub use processing::get_saved_response;
pub use processing::save_response;
pub use processing::saved_response;
pub use processing::try_processing;
pub use response::HeaderPairRecord;
pub use response::SavedResponse;
pub use retry::RetryPolicy;
