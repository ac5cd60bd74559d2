//! The OpenAPI document of the service.

use vstd::prelude::*;

verus! {

/// The OpenAPI document of the service (paths, schemas, the bearer security
/// scheme), served at `/api-docs/openapi.json`. The document itself is derived
/// where the HTTP server is assembled.
pub struct ApiDoc;

} // verus!
