//! The client-supplied token that identifies one logical request.

use vstd::prelude::*;
use vstd::string::*;

verus! {

/// Number of characters that a key has to stay under.
pub const MAX_KEY_LENGTH: usize = 50;

/// Whether `s` can serve as an idempotency key: not empty and shorter than
/// [`MAX_KEY_LENGTH`] characters.
pub open spec fn is_valid_key(s: Seq<char>) -> bool {
    0 < s.len() < MAX_KEY_LENGTH
}

/// Why a string was refused as an idempotency key.
#[derive(Debug, Clone, Copy, PartialEq, Eq, Structural)]
pub enum IdempotencyKeyError {
    /// The string has no characters.
    Empty,
    /// The string has [`MAX_KEY_LENGTH`] characters or more.
    TooLong,
}

impl IdempotencyKeyError {
    /// The text shown to the client for this error.
    pub fn message(&self) -> (text: String)
        ensures
            *self == IdempotencyKeyError::Empty ==> text@
                == "The idempotency key cannot be empty!"@,
            *self == IdempotencyKeyError::TooLong ==> text@
                == "The idempotency key must be shorter than 50 characters."@,
    {
        match self {
            IdempotencyKeyError::Empty => String::from_str("The idempotency key cannot be empty!"),
            IdempotencyKeyError::TooLong => String::from_str(
                "The idempotency key must be shorter than 50 characters.",
            ),
        }
    }
}

/// A validated idempotency key.
#[derive(Debug)]
pub struct IdempotencyKey(String);

impl View for IdempotencyKey {
    type V = Seq<char>;

    closed spec fn view(&self) -> Seq<char> {
        self.0@
    }
}

impl Clone for IdempotencyKey {
    fn clone(&self) -> (copy: Self)
        ensures
            copy@ == self@,
    {
        proof {
            use_type_invariant(self);
        }
        IdempotencyKey(self.0.clone())
    }
}

impl IdempotencyKey {
    /// Every key is valid.
    #[verifier::type_invariant]
    pub open spec fn well_formed(&self) -> bool {
        is_valid_key(self@)
    }

    /// Validates `string` as a key. The key holds exactly the characters it
    /// was made from.
    pub fn try_from(string: String) -> (result: Result<IdempotencyKey, IdempotencyKeyError>)
        ensures
            is_valid_key(string@) ==> result is Ok && result->Ok_0@ == string@,
            string@.len() == 0 ==> result == Err::<IdempotencyKey, _>(IdempotencyKeyError::Empty),
            string@.len() >= MAX_KEY_LENGTH ==> result == Err::<IdempotencyKey, _>(
                IdempotencyKeyError::TooLong,
            ),
    {
        let length: usize = string.as_str().unicode_len();
        if length == 0 {
            return Err(IdempotencyKeyError::Empty);
        }
        if length >= MAX_KEY_LENGTH {
            return Err(IdempotencyKeyError::TooLong);
        }
        Ok(IdempotencyKey(string))
    }

    /// The key as a string slice. Every key is valid.
    pub fn as_ref(&self) -> (s: &str)
        ensures
            s@ == self@,
            is_valid_key(self@),
    {
        proof {
            use_type_invariant(self);
        }
        self.0.as_str()
    }

    /// The key as a string.
    pub fn as_string(&self) -> (s: &String)
        ensures
            s@ == self@,
            is_valid_key(self@),
    {
        proof {
            use_type_invariant(self);
        }
        &self.0
    }

    /// Gives the string back.
    pub fn into_string(self) -> (s: String)
        ensures
            s@ == self@,
            is_valid_key(self@),
    {
        proof {
            use_type_invariant(&self);
        }
        self.0
    }
}

} // verus!
