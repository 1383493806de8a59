//! Plain request and error shapes of the service boundary; the HTTP layer
//! itself lives outside the library.

use vstd::prelude::*;

verus! {

/// Body of a check-by-text request.
pub struct TextRequest {
    pub text: String,
}

/// Error payload returned after the retry budget is exhausted.
pub struct ErrorS {
    pub error: String,
}

} // verus!
