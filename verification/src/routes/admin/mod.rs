//! Requests of the logged-in administrator.

pub mod newsletters;

pub use newsletters::publish_issue_form_submission;
pub use newsletters::submit_issue;
pub use newsletters::IssueFormContent;
