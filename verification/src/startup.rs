//! What the service is started with.

use vstd::prelude::*;

verus! {

/// The address under which the service is reached from outside, as the
/// links in its emails need it.
#[derive(Debug)]
pub struct ApplicationBaseUrl(pub String);

} // verus!
