//! The daemon's health report.
use vstd::prelude::*;
use crate::config::Config;

verus! {

/// The state shared by the HTTP handlers.
pub struct AppState {
    pub config: Config,
}

/// What the health endpoint reports.
pub struct HealthStatus {
    pub status: String,
    pub jetstream_consumer: bool,
    pub network_blackhole: bool,
    pub sandbox_backend: String,
    pub seccomp: bool,
    pub firecracker_ready: bool,
    pub nats_url: String,
}

/// The health report: always `ok`, with the configured consumer, sandbox
/// and NATS settings and whether Firecracker is ready.
pub fn health_status(state: &AppState, firecracker_ready: bool) -> (r: HealthStatus)
    ensures
        r.status@ == "ok"@,
        r.jetstream_consumer == state.config.nats.jetstream_consumer,
        r.network_blackhole == state.config.sandbox.network_blackhole,
        r.sandbox_backend@ == state.config.sandbox.backend@,
        r.seccomp == state.config.sandbox.seccomp,
        r.firecracker_ready == firecracker_ready,
        r.nats_url@ == state.config.nats.url@,
{
    HealthStatus {
        status: "ok".to_owned(),
        jetstream_consumer: state.config.nats.jetstream_consumer,
        network_blackhole: state.config.sandbox.network_blackhole,
        sandbox_backend: state.config.sandbox.backend.clone(),
        seccomp: state.config.sandbox.seccomp,
        firecracker_ready,
        nats_url: state.config.nats.url.clone(),
    }
}

} // verus!
