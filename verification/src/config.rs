//! The configuration the two query handlers run under. Loading it from disk
//! and the environment happens outside the library; the values are handed in
//! through these types.

use vstd::prelude::*;

verus! {

/// Everything the server needs at startup.
#[derive(Clone, Debug)]
pub struct Settings {
    pub application: ApplicationSettings,
    pub cdn: CdnSettings,
}

/// The listen socket and the mode switch between resolver and balancer.
#[derive(Clone, Debug)]
pub struct ApplicationSettings {
    pub is_load_balancer: bool,
    pub port: u16,
    pub host: String,
}

/// What the balancer serves: its hostname, the path of the affinity table,
/// the fallback upstream pool and the port its health endpoint answers on.
#[derive(Clone, Debug)]
pub struct CdnSettings {
    pub hostname: String,
    pub connections_path: String,
    pub up_servers: Vec<String>,
    pub port: u16,
}

impl CdnSettings {
    /// Replaces the upstream pool with the servers found healthy; the probe
    /// itself runs outside the library.
    pub fn check_up_servers(&mut self, up_servers: Vec<String>)
        ensures
            final(self).up_servers == up_servers,
            final(self).hostname == old(self).hostname,
            final(self).connections_path == old(self).connections_path,
            final(self).port == old(self).port,
    {
        self.up_servers = up_servers;
    }
}

/// The deployment environment a configuration is read for.
#[derive(Copy, Clone, Debug, PartialEq, Eq, Structural)]
pub enum Environment {
    Local,
    Production,
}

impl Environment {
    /// The environment's configuration-file name.
    pub fn as_str(self) -> (r: &'static str)
        ensures
            self is Local ==> r@ == "local"@,
            self is Production ==> r@ == "production"@,
    {
        match self {
            Environment::Local => "local",
            Environment::Production => "production",
        }
    }
}

} // verus!
