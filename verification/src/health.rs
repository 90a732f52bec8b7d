//! The answer to a health probe.
use vstd::prelude::*;

verus! {

/// What the service says about itself.
#[derive(Debug, Clone, Copy)]
pub struct HealthResponse {
    pub status: &'static str,
    pub repository: &'static str,
    pub version: &'static str,
}

/// Answers a health probe of the given version of the service.
pub fn health_handler(version: &'static str) -> (health: HealthResponse)
    ensures
        health.status@ == "online"@,
        health.repository@ == "antimony-labs/core"@,
        health.version@ == version@,
{
    HealthResponse { status: "online", repository: "antimony-labs/core", version }
}

} // verus!
