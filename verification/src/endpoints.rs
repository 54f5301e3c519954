//! The deployment layer: namespace, router and per-node transport settings. Empty means
//! automatic discovery on the local network.
use vstd::prelude::*;

verus! {

/// The deployment settings of one environment.
#[derive(Debug, Clone, PartialEq)]
pub struct Endpoints {
    pub env: Option<String>,
    /// the default prefix of every connection key
    pub namespace: String,
    pub router: Option<Router>,
    pub nodes: Vec<(String, NodeEndpoint)>,
    pub plugins: Vec<String>,
}

#[derive(Debug, Clone, PartialEq)]
pub struct Router {
    pub enabled: bool,
    pub endpoint: Option<String>,
}

#[derive(Debug, Clone, PartialEq)]
pub struct NodeEndpoint {
    pub mode: Mode,
    pub connect: Vec<String>,
}

#[derive(Debug, Clone, Copy, PartialEq, Eq, Structural)]
pub enum Mode {
    Auto,
    Peer,
    Client,
}

/// The namespace when none is given.
pub open spec fn default_namespace() -> Seq<char> {
    "sahou"@
}

impl Default for Endpoints {
    fn default() -> (r: Endpoints)
        ensures
            r.env is None,
            r.namespace@ == default_namespace(),
            r.router is None,
            r.nodes@.len() == 0,
            r.plugins@.len() == 0,
    {
        Endpoints {
            env: None,
            namespace: String::from_str("sahou"),
            router: None,
            nodes: Vec::new(),
            plugins: Vec::new(),
        }
    }
}

impl Default for Router {
    fn default() -> (r: Router)
        ensures
            !r.enabled,
            r.endpoint is None,
    {
        Router { enabled: false, endpoint: None }
    }
}

impl Default for Mode {
    fn default() -> (r: Mode)
        ensures
            r == Mode::Auto,
    {
        Mode::Auto
    }
}

impl Default for NodeEndpoint {
    fn default() -> (r: NodeEndpoint)
        ensures
            r.mode == Mode::Auto,
            r.connect@.len() == 0,
    {
        NodeEndpoint { mode: Mode::Auto, connect: Vec::new() }
    }
}

} // verus!
