//! The daemon's configuration and its defaults.
use vstd::prelude::*;

verus! {

/// The whole configuration of the daemon.
pub struct Config {
    pub server: ServerConfig,
    pub nats: NatsConfig,
    pub sandbox: SandboxConfig,
    pub scanner: ScannerConfig,
    pub logging: LoggingConfig,
}

/// The HTTP server.
pub struct ServerConfig {
    pub port: u16,
}

/// The NATS connection and whether the JetStream sandbox consumer runs.
pub struct NatsConfig {
    pub url: String,
    pub jetstream_consumer: bool,
}

/// The sandbox: network blackhole, backend (`subprocess` or `firecracker`)
/// and seccomp filtering.
pub struct SandboxConfig {
    pub network_blackhole: bool,
    pub backend: String,
    pub seccomp: bool,
}

/// The vulnerability scanner.
pub struct ScannerConfig {
    pub osv_api_url: String,
}

/// Logging.
pub struct LoggingConfig {
    pub level: String,
}

/// The backend used when the configuration names none.
pub fn default_sandbox_backend() -> (r: String)
    ensures
        r@ == "subprocess"@,
{
    "subprocess".to_owned()
}

/// The value of seccomp filtering when the configuration leaves it out.
pub fn default_true() -> (r: bool)
    ensures
        r,
{
    true
}

/// Whether a configuration holds the built-in defaults.
pub open spec fn is_default_config(c: Config) -> bool {
    &&& c.server.port == 3106
    &&& c.nats.url@ == "nats://localhost:4222"@
    &&& c.nats.jetstream_consumer
    &&& c.sandbox.network_blackhole
    &&& c.sandbox.backend@ == "subprocess"@
    &&& c.sandbox.seccomp
    &&& c.scanner.osv_api_url@ == "https://api.osv.dev/v1"@
    &&& c.logging.level@ == "info"@
}

impl Default for Config {
    fn default() -> (r: Config)
        ensures
            is_default_config(r),
    {
        Config {
            server: ServerConfig { port: 3106 },
            nats: NatsConfig { url: "nats://localhost:4222".to_owned(), jetstream_consumer: true },
            sandbox: SandboxConfig {
                network_blackhole: true,
                backend: "subprocess".to_owned(),
                seccomp: true,
            },
            scanner: ScannerConfig { osv_api_url: "https://api.osv.dev/v1".to_owned() },
            logging: LoggingConfig { level: "info".to_owned() },
        }
    }
}

impl SandboxConfig {
    /// A copy of the sandbox section.
    pub fn duplicate(&self) -> (r: SandboxConfig)
        ensures
            r.network_blackhole == self.network_blackhole,
            r.backend@ == self.backend@,
            r.seccomp == self.seccomp,
    {
        SandboxConfig {
            network_blackhole: self.network_blackhole,
            backend: self.backend.clone(),
            seccomp: self.seccomp,
        }
    }
}

/// The values filled in for sandbox fields left out of a configuration file
/// (`default_sandbox_backend`, `default_true`) are those of the default
/// configuration.
pub proof fn law_field_defaults_match_default_config(c: Config)
    requires
        is_default_config(c),
    ensures
        c.sandbox.backend@ == "subprocess"@,
        c.sandbox.seccomp == true,
{
}

} // verus!
