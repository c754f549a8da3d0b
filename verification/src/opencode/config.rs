//! Settings for OpenCode.

use vstd::prelude::*;

verus! {

/// Where the server is, and the password for it, as far as set.
#[derive(Clone, Debug)]
pub struct OpencodeServerConfig {
    pub url: Option<String>,
    pub password: Option<String>,
}

/// Settings for OpenCode.
#[derive(Clone, Debug)]
pub struct OpencodeConfig {
    pub server: OpencodeServerConfig,
}

impl Default for OpencodeConfig {
    fn default() -> (r: OpencodeConfig)
        ensures
            r.server.url is None,
            r.server.password is None,
    {
        OpencodeConfig { server: OpencodeServerConfig { url: None, password: None } }
    }
}

} // verus!
