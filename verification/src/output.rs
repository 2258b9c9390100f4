//! The read-only `wlr-output-management` protocol: outputs are advertised,
//! configurations are refused.

use vstd::prelude::*;

verus! {

/// A request on an output configuration object.
#[derive(Clone, Copy, PartialEq, Eq, Debug, Structural)]
pub enum ConfigRequest {
    EnableHead,
    DisableHead,
    Apply,
    Test,
    Destroy,
    Other,
}

/// The answer to a configuration request.
#[derive(Clone, Copy, PartialEq, Eq, Debug, Structural)]
pub enum ConfigResponse {
    /// Create the configuration-head object the client asked for.
    InitHead,
    /// Send `failed`: output state cannot be changed.
    Failed,
    /// Nothing to do.
    Ignore,
}

/// Heads can be enabled (the object is created) but applying or testing a
/// configuration always fails.
pub open spec fn response_to(req: ConfigRequest) -> ConfigResponse {
    match req {
        ConfigRequest::EnableHead => ConfigResponse::InitHead,
        ConfigRequest::Apply | ConfigRequest::Test => ConfigResponse::Failed,
        _ => ConfigResponse::Ignore,
    }
}

pub fn configuration_response(req: ConfigRequest) -> (r: ConfigResponse)
    ensures
        r == response_to(req),
        r == (match req {
            ConfigRequest::EnableHead => ConfigResponse::InitHead,
            ConfigRequest::Apply | ConfigRequest::Test => ConfigResponse::Failed,
            _ => ConfigResponse::Ignore,
        }),
{
    match req {
        ConfigRequest::EnableHead => ConfigResponse::InitHead,
        ConfigRequest::Apply | ConfigRequest::Test => ConfigResponse::Failed,
        _ => ConfigResponse::Ignore,
    }
}

/// The position advertised for a head: where the output is mapped, or the
/// origin when it is not mapped.
pub fn head_position(loc: Option<(i32, i32)>) -> (r: (i32, i32))
    ensures
        r == (match loc {
            Some(p) => p,
            None => (0i32, 0i32),
        }),
{
    match loc {
        Some(p) => p,
        None => (0, 0),
    }
}

/// Output state cannot be changed: applying or testing a configuration
/// always fails, and no request other than enabling a head creates an
/// object or succeeds.
pub proof fn lemma_output_state_read_only(req: ConfigRequest)
    ensures
        (req == ConfigRequest::Apply || req == ConfigRequest::Test) ==> response_to(req)
            == ConfigResponse::Failed,
        response_to(req) == ConfigResponse::InitHead <==> req == ConfigRequest::EnableHead,
        response_to(req) == ConfigResponse::Failed ==> (req == ConfigRequest::Apply || req
            == ConfigRequest::Test),
{
}

} // verus!
