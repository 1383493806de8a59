//! The entity-extraction side of the data model: the request sent to the
//! external extractor, the entities it returns, and the client's
//! configuration. The HTTP call itself lives outside the library.

use vstd::prelude::*;

verus! {

/// Request body for the external extractor.
#[derive(Clone)]
pub struct Request {
    pub text: String,
}

/// One extracted entity: surface form, normalized form, a type tag
/// (`PER`, `ORG` or another label), and the surrounding snippet.
#[derive(Debug, Clone)]
pub struct Entity {
    pub name: String,
    pub norm_name: String,
    pub entity_type: String,
    pub context: String,
}

/// Configuration of the external extractor client: its endpoint.
pub struct PythonEntities {
    pub url: String,
}

impl PythonEntities {
    pub fn new(url: String) -> (r: Self)
        ensures
            r.url == url,
    {
        PythonEntities { url }
    }
}

} // verus!
