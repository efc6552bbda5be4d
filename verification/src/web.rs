//! Errors raised while decoding an HTTP request or building a response.

use vstd::prelude::*;

verus! {

/// Something went wrong with the http request or response.
#[derive(Clone, Copy, PartialEq, Eq, Structural, Debug)]
pub enum WebError {
    /// A parameter was encoded incorrectly.
    ///
    /// This may happen for example due to a query parameter that is not
    /// valid utf8 when the query parameters are necessary for OAuth
    /// processing.
    Encoding,
}

impl WebError {
    /// The error rendered as a message for a response body.
    pub fn into(self) -> (r: String)
        ensures
            r@ == "WebError::Encoding"@,
    {
        "WebError::Encoding".to_owned()
    }
}

} // verus!
