//! Publishing an issue directly, on request.

use crate::domain::publish_issue::publish_issue;
use crate::domain::publish_issue::Content;
use crate::domain::publish_issue::IssueContent;
use crate::domain::publish_issue::IssueContentView;
use crate::domain::publish_issue::Publication;
use crate::domain::publish_issue::PublicationView;
use crate::domain::subscribers::confirmed_emails;
use crate::idempotency::key::is_valid_key;
use crate::idempotency::key::IdempotencyKey;
use crate::routes::admin::newsletters::key_error;
use crate::routes::admin::newsletters::PublishError;
use crate::store::Store;
use vstd::prelude::*;

verus! {

/// The request that publishes an issue directly.
#[derive(Debug)]
pub struct SendIssueContent {
    pub title: String,
    pub content: Content,
    pub idempotency_key: String,
}

impl SendIssueContent {
    /// The issue that the request asks to publish.
    pub open spec fn issue(self) -> IssueContentView {
        IssueContentView { title: self.title@, html: self.content.html@, text: self.content.text@ }
    }
}

impl From<SendIssueContent> for IssueContent {
    fn from(val: SendIssueContent) -> (issue: IssueContent) {
        IssueContent { title: val.title, content: val.content }
    }
}

impl vstd::std_specs::convert::FromSpecImpl<SendIssueContent> for IssueContent {
    open spec fn obeys_from_spec() -> bool {
        true
    }

    open spec fn from_spec(val: SendIssueContent) -> IssueContent {
        IssueContent { title: val.title, content: val.content }
    }
}

/// Handles a request to publish an issue directly: a malformed key is
/// refused, and every other request begins the publication to the
/// subscribers who are confirmed at this moment.
pub fn publish_newsletters(body: SendIssueContent, store: &Store) -> (result: Result<
    Publication,
    PublishError,
>)
    ensures
        !is_valid_key(body.idempotency_key@) ==> result is Err && result->Err_0
            == PublishError::ValidationError(key_error(body.idempotency_key@)),
        is_valid_key(body.idempotency_key@) ==> result is Ok && result->Ok_0@ == (PublicationView {
            issue: body.issue(),
            recipients: confirmed_emails(store@.subscribers),
            cursor: 0,
            aborted: false,
        }),
{
    match IdempotencyKey::try_from(body.idempotency_key.clone()) {
        Ok(_) => {
            let issue = IssueContent::from(body);
            Ok(publish_issue(&issue, store))
        },
        Err(error) => Err(PublishError::ValidationError(error)),
    }
}

} // verus!
