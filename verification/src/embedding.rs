//! The embedding-provider side of the data model: request and response
//! shapes, the provider client's configuration, and the verified reading of
//! a response. The HTTP call itself lives outside the library.

use vstd::prelude::*;

verus! {

/// Request body for the embedding provider.
pub struct Request {
    pub model_uri: String,
    pub text: String,
}

/// Provider response: the vector (already converted to fixed point), or an
/// in-band error message. An error message counts as a failure even when a
/// vector is also present.
pub struct Response {
    pub embedding: Option<Vec<i64>>,
    pub error: Option<String>,
}

/// Configuration of the embedding provider client: model, credential, and
/// endpoint.
pub struct YandexEmbedding {
    pub model: String,
    pub token: String,
    pub url: String,
}

impl YandexEmbedding {
    pub fn new(model: String, token: String, url: String) -> (r: Self)
        ensures
            r.model == model,
            r.token == token,
            r.url == url,
    {
        YandexEmbedding { model, token, url }
    }
}

/// Reads a provider response: an in-band error wins over a present vector;
/// a response with neither is an unknown error.
pub fn extract_embedding(resp: Response) -> (r: Result<Vec<i64>, String>)
    ensures
        match r {
            Ok(v) => resp.error is None && resp.embedding == Some(v),
            Err(m) => resp.error matches Some(e) && m == e || resp.error is None
                && resp.embedding is None && m@ == "Unknown embedding error"@,
        },
{
    match resp.error {
        Some(e) => Err(e),
        None => match resp.embedding {
            Some(v) => Ok(v),
            None => Err(String::from_str("Unknown embedding error")),
        },
    }
}

} // verus!
