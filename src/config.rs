//! Connection settings.
use vstd::prelude::*;

verus! {

/// How the connection is secured.
#[derive(Clone, Copy, Debug, PartialEq, Eq, Structural)]
pub enum SecurityConfig {
    Unsecured,
    SSL,
}

impl Default for SecurityConfig {
    fn default() -> (r: SecurityConfig)
        ensures
            r == SecurityConfig::Unsecured,
    {
        SecurityConfig::Unsecured
    }
}

/// Client configuration.
#[derive(Clone, Copy, Debug, PartialEq, Eq, Structural)]
pub struct Config {
    pub security: SecurityConfig,
}

impl Default for Config {
    fn default() -> (r: Config)
        ensures
            r.security == SecurityConfig::Unsecured,
    {
        Config { security: SecurityConfig::Unsecured }
    }
}

} // verus!
