//! Names of subscribers.

use unicode_segmentation::UnicodeSegmentation;
use vstd::prelude::*;
use vstd::std_specs::iter::IteratorSpec;
use vstd::string::*;

verus! {

broadcast use vstd::string::group_string_axioms;

/// The longest name that is accepted, in grapheme clusters.
pub const MAX_NAME_LENGTH: usize = 256;

/// The number of extended grapheme clusters that the
/// `unicode-segmentation` crate finds in `s`.
pub uninterp spec fn grapheme_count(s: Seq<char>) -> nat;

/// Whether `c` is white space by the Unicode property of that name, as
/// `char::is_whitespace` tells it.
pub uninterp spec fn is_whitespace(c: char) -> bool;

/// Calls `UnicodeSegmentation::graphemes` on `s`, for extended grapheme
/// clusters, and counts what it yields.
///
/// The count depends on the characters of `s` alone; it is given the name
/// [`grapheme_count`]. Every cluster holds at least one character of `s`
/// and no character is in two of them, so there are no more clusters
/// than characters.
#[verifier::external_body]
fn count_graphemes(s: &str) -> (count: usize)
    ensures
        count == grapheme_count(s@),
        count <= s@.len(),
{
    s.graphemes(true).count()
}

/// Calls `char::is_whitespace` on `c`. The answer is given the name
/// [`is_whitespace`].
#[verifier::external_body]
fn char_is_whitespace(c: char) -> (white: bool)
    ensures
        white == is_whitespace(c),
{
    c.is_whitespace()
}

/// Whether `c` may not occur in a name.
pub open spec fn is_forbidden(c: char) -> bool {
    c == '/' || c == '(' || c == ')' || c == '"' || c == '<' || c == '>' || c == '\\' || c == '{'
        || c == '}'
}

/// Whether `s` has nothing but white space in it; the empty text has.
pub open spec fn is_blank(s: Seq<char>) -> bool {
    forall|i: int| 0 <= i < s.len() ==> is_whitespace(#[trigger] s[i])
}

/// Whether a character of `s` is forbidden.
pub open spec fn has_forbidden_character(s: Seq<char>) -> bool {
    exists|i: int| 0 <= i < s.len() && is_forbidden(#[trigger] s[i])
}

/// Whether `s` can be the name of a subscriber: not blank, no longer than
/// [`MAX_NAME_LENGTH`] grapheme clusters, and free of forbidden characters.
pub open spec fn name_is_valid(s: Seq<char>) -> bool {
    !is_blank(s) && grapheme_count(s) <= MAX_NAME_LENGTH && !has_forbidden_character(s)
}

/// What a refused name is answered with.
pub open spec fn invalid_name_message(s: Seq<char>) -> Seq<char> {
    s + " is not a valid subscriber name!"@
}

/// Whether `c` may not occur in a name.
pub fn is_forbidden_character(c: char) -> (forbidden: bool)
    ensures
        forbidden == is_forbidden(c),
{
    c == '/' || c == '(' || c == ')' || c == '"' || c == '<' || c == '>' || c == '\\' || c == '{'
        || c == '}'
}

/// Whether a character of `s` is forbidden.
pub fn contains_forbidden_character(s: &str) -> (found: bool)
    ensures
        found == has_forbidden_character(s@),
{
    let mut chars = s.chars();
    let ghost mut seen: int = 0;
    loop
        invariant
            0 <= seen <= s@.len(),
            chars.obeys_prophetic_iter_laws(),
            chars.remaining() == s@.subrange(seen, s@.len() as int),
            forall|i: int| 0 <= i < seen ==> !is_forbidden(#[trigger] s@[i]),
            chars.decrease() is Some,
        decreases s@.len() - seen,
    {
        match chars.next() {
            Some(c) => {
                assert(c == s@[seen]);
                if is_forbidden_character(c) {
                    return true;
                }
                proof {
                    assert(chars.remaining() =~= s@.subrange(seen + 1, s@.len() as int));
                    seen = seen + 1;
                }
            },
            None => {
                assert(seen == s@.len());
                return false;
            },
        }
    }
}

/// Whether `s` has nothing but white space in it.
pub fn is_blank_text(s: &str) -> (blank: bool)
    ensures
        blank == is_blank(s@),
{
    let mut chars = s.chars();
    let ghost mut seen: int = 0;
    loop
        invariant
            0 <= seen <= s@.len(),
            chars.obeys_prophetic_iter_laws(),
            chars.remaining() == s@.subrange(seen, s@.len() as int),
            forall|i: int| 0 <= i < seen ==> is_whitespace(#[trigger] s@[i]),
            chars.decrease() is Some,
        decreases s@.len() - seen,
    {
        match chars.next() {
            Some(c) => {
                assert(c == s@[seen]);
                if !char_is_whitespace(c) {
                    return false;
                }
                proof {
                    assert(chars.remaining() =~= s@.subrange(seen + 1, s@.len() as int));
                    seen = seen + 1;
                }
            },
            None => {
                assert(seen == s@.len());
                return true;
            },
        }
    }
}

/// Decides on a name from what was found out about it: whether it is
/// blank, how many grapheme clusters it has, and whether it holds a
/// forbidden character.
pub fn name_passes(blank: bool, graphemes: usize, forbidden: bool) -> (valid: bool)
    ensures
        valid == (!blank && graphemes <= MAX_NAME_LENGTH && !forbidden),
{
    let is_too_long = graphemes > MAX_NAME_LENGTH;
    !(blank || is_too_long || forbidden)
}

/// Whether `s` can be the name of a subscriber. A text has no more
/// grapheme clusters than characters, so that one of up to
/// [`MAX_NAME_LENGTH`] characters is never too long.
pub fn is_valid_name(s: &str) -> (valid: bool)
    ensures
        valid == name_is_valid(s@),
        grapheme_count(s@) <= s@.len(),
{
    let is_empty_or_whitespace = is_blank_text(s);
    let graphemes = count_graphemes(s);
    let contains_forbidden_chars = contains_forbidden_character(s);
    name_passes(is_empty_or_whitespace, graphemes, contains_forbidden_chars)
}

/// The name of a subscriber.
#[derive(Debug, PartialEq, Eq)]
pub struct SubscriberName(String);

impl View for SubscriberName {
    type V = Seq<char>;

    closed spec fn view(&self) -> Seq<char> {
        self.0@
    }
}

impl SubscriberName {
    #[verifier::type_invariant]
    spec fn well_formed(&self) -> bool {
        name_is_valid(self.0@)
    }

    /// Accepts `s` exactly when it can be a name; a refused text is
    /// answered with [`invalid_name_message`].
    pub fn parse(s: String) -> (result: Result<SubscriberName, String>)
        ensures
            name_is_valid(s@) ==> result is Ok && result->Ok_0@ == s@,
            !name_is_valid(s@) ==> result is Err && result->Err_0@ == invalid_name_message(s@),
            grapheme_count(s@) <= s@.len(),
    {
        if !is_valid_name(s.as_str()) {
            let message = s.concat(" is not a valid subscriber name!");
            Err(message)
        } else {
            Ok(SubscriberName(s))
        }
    }

    /// The name as a string slice. Every name is valid.
    pub fn as_ref(&self) -> (s: &str)
        ensures
            s@ == self@,
            name_is_valid(self@),
    {
        proof {
            use_type_invariant(self);
        }
        self.0.as_str()
    }
}

} // verus!
