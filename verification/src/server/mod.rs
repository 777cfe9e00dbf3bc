//! The HTTP server: its configuration, and how a request path names the
//! resource and the action that a router dispatches on.
pub mod axum_server;
pub mod extractors;
pub mod handlers;
pub mod server_info;

use vstd::prelude::*;

use crate::text::{lemma_split_nonempty, split_on, split_str, strip_prefixes, strip_prefixes_str};

verus! {

/// `core::time::Duration::from_secs(secs)`.
pub uninterp spec fn duration_of_secs(secs: u64) -> core::time::Duration;

/// `core::time::Duration::from_secs`, which makes a duration of `secs`
/// whole seconds and cannot fail.
#[verifier::external_body]
pub(crate) fn duration_from_secs(secs: u64) -> (d: core::time::Duration)
    ensures
        d == duration_of_secs(secs),
{
    core::time::Duration::from_secs(secs)
}

/// The prefix of the REST routes' paths.
pub open spec fn api_prefix() -> Seq<char> {
    seq!['/', 'a', 'p', 'i', '/']
}

/// The `/`-separated parts of a request path after its leading `/api/`
/// prefixes.
pub open spec fn api_path_parts(path: Seq<char>) -> Seq<Seq<char>> {
    split_on(strip_prefixes(path, api_prefix()), '/')
}

/// The path with the API prefixes removed, split on `/`.
pub(crate) fn api_parts(path: &str) -> (r: Vec<String>)
    ensures
        r@.map_values(|x: String| x@) == api_path_parts(path@),
        r@.len() >= 1,
{
    let prefix = "/api/";
    proof {
        reveal_strlit("/api/");
        assert(prefix@ =~= api_prefix());
    }
    let rest = strip_prefixes_str(path, prefix);
    let parts = split_str(rest, '/');
    proof {
        lemma_split_nonempty(rest@, '/');
    }
    parts
}

#[derive(Debug)]
pub struct ServerConfig<R> {
    pub id: String,
    pub port: String,
    pub client_dir: Option<String>,
    pub router: R,
    pub heartbeat: Option<core::time::Duration>,
}

impl<R> ServerConfig<R> {
    /// A configuration; `heartbeat` is a number of seconds.
    pub fn new(id: &str, port: &str, client_dir: Option<String>, router: R, heartbeat: Option<u64>) -> (r:
        Self)
        ensures
            r.id@ == id@,
            r.port@ == port@,
            r.client_dir == client_dir,
            r.router == router,
            r.heartbeat == match heartbeat {
                Some(secs) => Some(duration_of_secs(secs)),
                None => None,
            },
    {
        ServerConfig {
            id: String::from_str(id),
            port: String::from_str(port),
            client_dir,
            router,
            heartbeat: match heartbeat {
                Some(secs) => Some(duration_from_secs(secs)),
                None => None,
            },
        }
    }
}

pub struct CnctdServer;

impl CnctdServer {
    /// The resource and the action that a request path names: the first two
    /// `/`-separated parts after the `/api/` prefix, the action empty when
    /// there is no second part.
    pub fn path_to_resource_and_action(path: &str) -> (r: (String, String))
        ensures
            r.0@ == api_path_parts(path@)[0],
            r.1@ == if api_path_parts(path@).len() > 1 {
                api_path_parts(path@)[1]
            } else {
                Seq::<char>::empty()
            },
    {
        let parts = api_parts(path);
        let resource = parts[0].clone();
        let action = if parts.len() > 1 {
            parts[1].clone()
        } else {
            String::new()
        };
        proof {
            assert(parts@.map_values(|x: String| x@)[0] == parts@[0]@);
            if parts@.len() > 1 {
                assert(parts@.map_values(|x: String| x@)[1] == parts@[1]@);
            }
        }
        (resource, action)
    }
}

} // verus!
