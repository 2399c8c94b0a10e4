use agent_immune::config::{default_sandbox_backend, default_true, Config};
use agent_immune::jetstream_consumer::{consumer_action, ConsumerAction, ConsumerEvent};
use agent_immune::sandbox::{SandboxExecute, SandboxOptions};
use agent_immune::serve::{health_status, AppState};

#[test]
fn default_configuration() {
    let c = Config::default();
    assert_eq!(c.server.port, 3106);
    assert_eq!(c.nats.url, "nats://localhost:4222");
    assert!(c.nats.jetstream_consumer);
    assert!(c.sandbox.network_blackhole);
    assert_eq!(c.sandbox.backend, "subprocess");
    assert!(c.sandbox.seccomp);
    assert_eq!(c.scanner.osv_api_url, "https://api.osv.dev/v1");
    assert_eq!(c.logging.level, "info");
    assert_eq!(default_sandbox_backend(), c.sandbox.backend);
    assert_eq!(default_true(), c.sandbox.seccomp);
}

#[test]
fn sandbox_options_follow_configuration() {
    let c = Config::default();
    let from_default = SandboxOptions::from(&c.sandbox);
    let d = SandboxOptions::default();
    assert_eq!(from_default.network_blackhole, d.network_blackhole);
    assert_eq!(from_default.backend, d.backend);
    assert_eq!(from_default.seccomp, d.seccomp);
    let mut s = c.sandbox.duplicate();
    s.backend = "firecracker".to_string();
    s.seccomp = false;
    let o = SandboxOptions::from(&s);
    assert_eq!(o.backend, "firecracker");
    assert!(!o.seccomp);
}

#[test]
fn health_reflects_configuration() {
    let state = AppState { config: Config::default() };
    let h = health_status(&state, false);
    assert_eq!(h.status, "ok");
    assert!(h.jetstream_consumer);
    assert_eq!(h.sandbox_backend, "subprocess");
    assert!(!h.firecracker_ready);
    assert_eq!(h.nats_url, "nats://localhost:4222");
}

#[test]
fn consumer_decisions() {
    assert!(matches!(consumer_action(ConsumerEvent::FetchFailed), ConsumerAction::Skip));
    assert!(matches!(consumer_action(ConsumerEvent::InvalidPayload), ConsumerAction::Acknowledge));
    let job = SandboxExecute {
        msg_id: "m".to_string(),
        job_id: "j".to_string(),
        command: "true".to_string(),
        cwd: None,
        memory_mb: None,
        backend: None,
    };
    match consumer_action(ConsumerEvent::Job(job)) {
        ConsumerAction::Execute(j) => assert_eq!(j.command, "true"),
        _ => panic!("expected execution"),
    }
}
