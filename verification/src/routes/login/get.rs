//! The login form.

use vstd::prelude::*;
use vstd::string::*;

verus! {

/// What a rejected login brings back to the form.
#[derive(Debug)]
pub struct QueryParams {
    pub error: String,
    pub tag: String,
}

/// The paragraph that shows `message` above a form.
pub open spec fn error_paragraph(message: Seq<char>) -> Seq<char> {
    "<p><i>"@ + message + "</i></p>"@
}

/// The part of the login form that shows the message of a flash cookie:
/// nothing without a cookie, else the message set in a paragraph.
pub fn login_error_html(flash: Option<&str>) -> (html: String)
    ensures
        flash is None ==> html@ == Seq::<char>::empty(),
        flash is Some ==> html@ == error_paragraph(flash->0@),
{
    match flash {
        None => String::new(),
        Some(message) => {
            let mut html = String::from_str("<p><i>");
            html.append(message);
            html.append("</i></p>");
            html
        },
    }
}

} // verus!
