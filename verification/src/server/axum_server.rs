//! The configuration of the axum-based server, and how it reads a request
//! path.
use vstd::prelude::*;

use crate::server::{api_parts, api_path_parts, duration_from_secs, duration_of_secs};

verus! {

#[derive(Debug)]
pub struct ServerConfig<R> {
    pub id: String,
    pub port: String,
    pub path: Option<String>,
    pub client_dir: Option<String>,
    pub router: R,
    pub heartbeat: Option<core::time::Duration>,
    pub allowed_origins: Option<Vec<String>>,
}

impl<R> ServerConfig<R> {
    /// A configuration; `heartbeat` is a number of seconds.
    pub fn new(
        id: &str,
        port: &str,
        client_dir: Option<String>,
        router: R,
        heartbeat: Option<u64>,
        allowed_origins: Option<Vec<String>>,
        path: Option<String>,
    ) -> (r: Self)
        ensures
            r.id@ == id@,
            r.port@ == port@,
            r.path == path,
            r.client_dir == client_dir,
            r.router == router,
            r.heartbeat == match heartbeat {
                Some(secs) => Some(duration_of_secs(secs)),
                None => None,
            },
            r.allowed_origins == allowed_origins,
    {
        ServerConfig {
            id: String::from_str(id),
            path,
            port: String::from_str(port),
            client_dir,
            router,
            heartbeat: match heartbeat {
                Some(secs) => Some(duration_from_secs(secs)),
                None => None,
            },
            allowed_origins,
        }
    }
}

pub struct CnctdServer;

impl CnctdServer {
    /// The resource and the operation that a request path names: the first
    /// `/`-separated part after the `/api/` prefix, and the second part if
    /// there is one.
    pub fn path_to_resource_and_operation(path: &str) -> (r: (String, Option<String>))
        ensures
            r.0@ == api_path_parts(path@)[0],
            match r.1 {
                Some(op) => api_path_parts(path@).len() > 1 && op@ == api_path_parts(path@)[1],
                None => api_path_parts(path@).len() <= 1,
            },
    {
        let parts = api_parts(path);
        let resource = parts[0].clone();
        let operation = if parts.len() > 1 {
            Some(parts[1].clone())
        } else {
            None
        };
        proof {
            assert(parts@.map_values(|x: String| x@)[0] == parts@[0]@);
            if parts@.len() > 1 {
                assert(parts@.map_values(|x: String| x@)[1] == parts@[1]@);
            }
        }
        (resource, operation)
    }
}

} // verus!
