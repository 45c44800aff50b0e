//! Runtime configuration: the upstream key, the per-visitor rate budget
//! and the listening port. Reading the environment is the caller's affair;
//! this module only assembles the values and applies the defaults.

use vstd::prelude::*;

verus! {

/// What the server runs with.
pub struct Config {
    /// Credential for the upstream generation service.
    pub groq_api_key: String,
    /// How many requests one visitor may make per minute.
    pub rate_limit_per_minute: usize,
    /// TCP port the web layer listens on.
    pub port: u16,
}

/// The rate budget used when none is configured.
pub fn default_limit() -> (r: usize)
    ensures
        r == 10,
{
    10
}

/// The port used when none is configured.
pub fn default_port() -> (r: u16)
    ensures
        r == 8080,
{
    8080
}

impl Config {
    /// Assemble a configuration from values read from the environment,
    /// falling back to the defaults where a value was absent or did not
    /// parse.
    pub fn from_parts(
        groq_api_key: String,
        rate_limit_per_minute: Option<usize>,
        port: Option<u16>,
    ) -> (r: Config)
        ensures
            r.groq_api_key == groq_api_key,
            r.rate_limit_per_minute == (match rate_limit_per_minute {
                Some(l) => l,
                None => 10usize,
            }),
            r.port == (match port {
                Some(p) => p,
                None => 8080u16,
            }),
    {
        let rate_limit_per_minute = match rate_limit_per_minute {
            Some(l) => l,
            None => default_limit(),
        };
        let port = match port {
            Some(p) => p,
            None => default_port(),
        };
        Config { groq_api_key, rate_limit_per_minute, port }
    }
}

} // verus!
