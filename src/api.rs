//! The REST surface: request routing and the mapping of errors to HTTP
//! status codes.
use vstd::prelude::*;

verus! {

/// An error of the REST surface, with a description for the response body.
#[derive(Debug, PartialEq, Eq)]
pub enum ApiError {
    MethodNotAllowed(String),
    ServerError(String),
    NotImplemented(String),
    InvalidQueryParams(String),
    NotFound(String),
    ImATeapot(String),
}

impl ApiError {
    /// The HTTP status code of the error.
    pub fn status_code(&self) -> (r: u16)
        ensures
            r == match self {
                ApiError::MethodNotAllowed(_) => 405u16,
                ApiError::ServerError(_) => 500u16,
                ApiError::NotImplemented(_) => 501u16,
                ApiError::InvalidQueryParams(_) => 400u16,
                ApiError::NotFound(_) => 404u16,
                ApiError::ImATeapot(_) => 418u16,
            },
    {
        match self {
            ApiError::MethodNotAllowed(_) => 405,
            ApiError::ServerError(_) => 500,
            ApiError::NotImplemented(_) => 501,
            ApiError::InvalidQueryParams(_) => 400,
            ApiError::NotFound(_) => 404,
            ApiError::ImATeapot(_) => 418,
        }
    }

    /// The description the error carries.
    pub fn description(&self) -> (r: &String)
        ensures
            r == match self {
                ApiError::MethodNotAllowed(d) => d,
                ApiError::ServerError(d) => d,
                ApiError::NotImplemented(d) => d,
                ApiError::InvalidQueryParams(d) => d,
                ApiError::NotFound(d) => d,
                ApiError::ImATeapot(d) => d,
            },
    {
        match self {
            ApiError::MethodNotAllowed(d) => d,
            ApiError::ServerError(d) => d,
            ApiError::NotImplemented(d) => d,
            ApiError::InvalidQueryParams(d) => d,
            ApiError::NotFound(d) => d,
            ApiError::ImATeapot(d) => d,
        }
    }
}

/// The HTTP methods the router tells apart.
#[derive(Clone, Copy, Debug, PartialEq, Eq, Structural)]
pub enum HttpMethod {
    Get,
    Post,
    Other,
}

/// The handlers a request can be routed to.
#[derive(Clone, Copy, Debug, PartialEq, Eq, Structural)]
pub enum Route {
    BeaconState,
    BeaconStateRoot,
    Metrics,
    NodeVersion,
    NodeGenesisTime,
    NodeSyncing,
    ValidatorDuties,
    ValidatorBlockGet,
    ValidatorBlockPost,
    ValidatorAttestationGet,
    ValidatorAttestationPost,
}

/// The handler for `method` on `path`, if there is one.
pub open spec fn route_of(method: HttpMethod, path: Seq<char>) -> Option<Route> {
    if method == HttpMethod::Get {
        if path == "/beacon/state"@ {
            Some(Route::BeaconState)
        } else if path == "/beacon/state_root"@ {
            Some(Route::BeaconStateRoot)
        } else if path == "/metrics"@ {
            Some(Route::Metrics)
        } else if path == "/node/version"@ {
            Some(Route::NodeVersion)
        } else if path == "/node/genesis_time"@ {
            Some(Route::NodeGenesisTime)
        } else if path == "/node/syncing"@ {
            Some(Route::NodeSyncing)
        } else if path == "/validator/duties"@ {
            Some(Route::ValidatorDuties)
        } else if path == "/validator/block"@ {
            Some(Route::ValidatorBlockGet)
        } else if path == "/validator/attestation"@ {
            Some(Route::ValidatorAttestationGet)
        } else {
            None
        }
    } else if method == HttpMethod::Post {
        if path == "/validator/block"@ {
            Some(Route::ValidatorBlockPost)
        } else if path == "/validator/attestation"@ {
            Some(Route::ValidatorAttestationPost)
        } else {
            None
        }
    } else {
        None
    }
}

/// Routes a request: the handler for the method and path, or
/// `MethodNotAllowed` with the path.
pub fn route(method: HttpMethod, path: &String) -> (r: Result<Route, ApiError>)
    ensures
        route_of(method, path@) matches Some(h) ==> r == Ok::<Route, ApiError>(h),
        route_of(method, path@) is None ==> (r matches Err(ApiError::MethodNotAllowed(p)) && p@ == path@),
{
    if method == HttpMethod::Get {
        if *path == "/beacon/state".to_owned() {
            return Ok(Route::BeaconState);
        } else if *path == "/beacon/state_root".to_owned() {
            return Ok(Route::BeaconStateRoot);
        } else if *path == "/metrics".to_owned() {
            return Ok(Route::Metrics);
        } else if *path == "/node/version".to_owned() {
            return Ok(Route::NodeVersion);
        } else if *path == "/node/genesis_time".to_owned() {
            return Ok(Route::NodeGenesisTime);
        } else if *path == "/node/syncing".to_owned() {
            return Ok(Route::NodeSyncing);
        } else if *path == "/validator/duties".to_owned() {
            return Ok(Route::ValidatorDuties);
        } else if *path == "/validator/block".to_owned() {
            return Ok(Route::ValidatorBlockGet);
        } else if *path == "/validator/attestation".to_owned() {
            return Ok(Route::ValidatorAttestationGet);
        }
    } else if method == HttpMethod::Post {
        if *path == "/validator/block".to_owned() {
            return Ok(Route::ValidatorBlockPost);
        } else if *path == "/validator/attestation".to_owned() {
            return Ok(Route::ValidatorAttestationPost);
        }
    }
    Err(ApiError::MethodNotAllowed(path.clone()))
}

/// The path of the node's database.
#[derive(Clone, Debug)]
pub struct DBPath(pub String);

impl core::ops::Deref for DBPath {
    type Target = String;

    fn deref(&self) -> (r: &String)
        ensures
            r == &self.0,
    {
        &self.0
    }
}

} // verus!
