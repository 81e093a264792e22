//! Responses that several routes share.

use crate::idempotency::response::HeaderPairView;
use crate::idempotency::response::ResponseView;
use crate::idempotency::response::SavedResponse;
use vstd::prelude::*;
use vstd::string::*;

verus! {

/// The redirection to `route`: status 303 and the route as location.
pub open spec fn see_other_view(location: Seq<u8>) -> ResponseView {
    ResponseView {
        status_code: 303,
        headers: seq![HeaderPairView { name: "location"@, value: location }],
        body: Seq::empty(),
    }
}

/// The response that sends the client on to `route`.
pub fn see_other(route: &str) -> (response: SavedResponse)
    ensures
        response@ == see_other_view(route.spec_bytes()),
{
    let response = match SavedResponse::build(303) {
        Some(response) => response,
        None => vstd::pervasive::unreached(),
    };
    let response = response.append_header(String::from_str("location"), route.as_bytes_vec());
    proof {
        assert(response@.headers =~= see_other_view(route.spec_bytes()).headers);
    }
    response
}

/// The paragraphs that show `messages` above a form, one line each.
pub open spec fn flash_errors_text(messages: Seq<Seq<char>>) -> Seq<char>
    decreases messages.len(),
{
    if messages.len() == 0 {
        Seq::empty()
    } else {
        flash_errors_text(messages.drop_last()) + "<p><i>"@ + messages.last() + "</i></p>\n"@
    }
}

/// Sets the error messages of a form in paragraphs, one line each, in
/// their order.
pub fn flash_errors_html(messages: &Vec<String>) -> (html: String)
    ensures
        html@ == flash_errors_text(messages@.map_values(|message: String| message@)),
{
    let ghost all = messages@.map_values(|message: String| message@);
    let mut html = String::new();
    let mut i: usize = 0;
    while i < messages.len()
        invariant
            i <= messages.len(),
            all == messages@.map_values(|message: String| message@),
            html@ == flash_errors_text(all.subrange(0, i as int)),
        decreases messages.len() - i,
    {
        proof {
            assert(all.subrange(0, i + 1).drop_last() =~= all.subrange(0, i as int));
            assert(all.subrange(0, i + 1).last() == messages@[i as int]@);
        }
        html.append("<p><i>");
        html.append(messages[i].as_str());
        html.append("</i></p>\n");
        i += 1;
    }
    proof {
        assert(all.subrange(0, i as int) =~= all);
    }
    html
}

} // verus!
