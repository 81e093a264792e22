//! Subscriber data and the direct way of publishing an issue.

pub mod publish_issue;
pub mod subscriber_email;
pub mod subscriber_name;
pub mod subscriber_status;
pub mod subscribers;

pub use publish_issue::publish_issue;
pub use publish_issue::Content;
pub use publish_issue::IssueContent;
pub use subscriber_email::SubscriberEmail;
pub use subscriber_name::is_valid_name;
pub use subscriber_name::SubscriberName;
pub use subscriber_status::SubscriberStatus;
