use agent_immune::sandbox::{
    execution_result, failure_result, first_step, step_after_firecracker, step_after_shell,
    FirecrackerOutcome, ProcessOutput, SandboxStep, plan_isolated, run_script_job, script_job, shell_escape,
    shell_invocation, wrap_with_resource_limits, SandboxExecute, SandboxOptions, TargetOs,
};

fn job(cwd: Option<&str>, memory_mb: Option<u32>, backend: Option<&str>) -> SandboxExecute {
    SandboxExecute {
        msg_id: "m1".to_string(),
        job_id: "j1".to_string(),
        command: "echo hi".to_string(),
        cwd: cwd.map(|s| s.to_string()),
        memory_mb,
        backend: backend.map(|s| s.to_string()),
    }
}

#[test]
fn shell_escape_quotes_spaces() {
    let p = "/tmp/my script.sh";
    assert!(shell_escape(p).starts_with('\''));
}

#[test]
fn shell_escape_exact_forms() {
    assert_eq!(shell_escape("/tmp/my script.sh"), "'/tmp/my script.sh'");
    assert_eq!(shell_escape("/tmp/it's.sh"), "'/tmp/it'\\''s.sh'");
    assert_eq!(shell_escape("/tmp/plain.sh"), "/tmp/plain.sh");
}

#[test]
fn resource_limits_on_linux() {
    assert_eq!(
        wrap_with_resource_limits("echo hi", 256, &TargetOs::Linux),
        "ulimit -v $((256 * 1024)) 2>/dev/null; ulimit -u 64 2>/dev/null; echo hi"
    );
    assert_eq!(wrap_with_resource_limits("echo hi", 256, &TargetOs::MacOs), "echo hi");
}

#[test]
fn plan_uses_defaults() {
    let options = SandboxOptions::default();
    let plan = plan_isolated(&job(None, None, None), &options, &TargetOs::Linux);
    assert_eq!(plan.cwd, ".");
    assert!(!plan.try_firecracker);
    assert_eq!(
        plan.command,
        "ulimit -v $((256 * 1024)) 2>/dev/null; ulimit -u 64 2>/dev/null; echo hi"
    );
}

#[test]
fn plan_honours_job_settings() {
    let options = SandboxOptions::default();
    let plan = plan_isolated(&job(Some("/work"), Some(1024), Some("firecracker")), &options, &TargetOs::Linux);
    assert_eq!(plan.cwd, "/work");
    assert!(plan.try_firecracker);
    assert!(plan.command.starts_with("ulimit -v $((1024 * 1024))"));
    let mut fc = SandboxOptions::default();
    fc.backend = "firecracker".to_string();
    assert!(plan_isolated(&job(None, None, None), &fc, &TargetOs::Linux).try_firecracker);
    assert!(!plan_isolated(&job(None, None, Some("subprocess")), &fc, &TargetOs::Linux).try_firecracker);
}

#[test]
fn shell_invocations() {
    let a = shell_invocation("ls", true, true, &TargetOs::Linux);
    assert_eq!(a.program, "unshare");
    assert_eq!(a.args, vec!["-n", "sh", "-c", "ls"]);
    assert!(a.seccomp);
    let b = shell_invocation("ls", true, true, &TargetOs::MacOs);
    assert_eq!(b.program, "sh");
    assert_eq!(b.args, vec!["-c", "ls"]);
    assert!(!b.seccomp);
    let c = shell_invocation("dir", false, false, &TargetOs::Windows);
    assert_eq!(c.program, "cmd");
    assert_eq!(c.args, vec!["/C", "dir"]);
    let d = shell_invocation("ls", false, true, &TargetOs::Linux);
    assert_eq!(d.program, "sh");
    assert!(d.seccomp);
}

#[test]
fn results_for_outcomes() {
    let j = job(None, None, None);
    let r = execution_result(&j, None, false, "out".to_string(), "err".to_string());
    assert_eq!(r.msg_id, "m1-result");
    assert_eq!(r.job_id, "j1");
    assert_eq!(r.exit_code, -1);
    assert_eq!(r.stdout, "out");
    assert!(!r.success);
    let ok = execution_result(&j, Some(0), true, String::new(), String::new());
    assert_eq!(ok.exit_code, 0);
    assert!(ok.success);
    let f = failure_result(&j, "spawn failed".to_string());
    assert_eq!(f.exit_code, -1);
    assert_eq!(f.stderr, "spawn failed");
    assert_eq!(f.stdout, "");
}

#[test]
fn script_jobs() {
    let ok = script_job("/tmp/a b.sh", Some("/tmp".to_string()), true, "m".to_string(), "j".to_string());
    match ok {
        Ok(job) => {
            assert_eq!(job.command, "sh '/tmp/a b.sh'");
            assert_eq!(job.cwd.as_deref(), Some("/tmp"));
            assert_eq!(job.msg_id, "m");
        }
        Err(_) => panic!("expected a job"),
    }
    let missing = script_job("/nope.sh", None, false, "m".to_string(), "j".to_string());
    match missing {
        Err(res) => {
            assert_eq!(res.stderr, "script not found: /nope.sh");
            assert_eq!(res.exit_code, -1);
        }
        Ok(_) => panic!("expected a failure"),
    }
}

#[test]
fn script_jobs_get_fresh_ids() {
    match run_script_job("/tmp/x.sh", None, true) {
        Ok(job) => {
            assert_eq!(job.command, "sh /tmp/x.sh");
            assert_eq!(job.msg_id.len(), 36);
            assert_ne!(job.msg_id, job.job_id);
            for id in [&job.msg_id, &job.job_id] {
                for (i, c) in id.chars().enumerate() {
                    if [8, 13, 18, 23].contains(&i) {
                        assert_eq!(c, '-');
                    } else {
                        assert!(c.is_ascii_digit() || ('a'..='f').contains(&c), "{id}");
                    }
                }
                assert_eq!(id.chars().nth(14), Some('7'));
            }
        }
        Err(_) => panic!("expected a job"),
    }
}

fn output(code: Option<i32>) -> ProcessOutput {
    ProcessOutput { exit_code: code, success: code == Some(0), stdout: "o".to_string(), stderr: "e".to_string() }
}

#[test]
fn firecracker_falls_back_to_the_shell() {
    let options = SandboxOptions::default();
    let j = job(None, None, Some("firecracker"));
    let plan = plan_isolated(&j, &options, &TargetOs::Linux);
    assert!(matches!(first_step(&plan, &options, &TargetOs::Linux), SandboxStep::BootFirecracker));
    for outcome in [FirecrackerOutcome::NotConfigured, FirecrackerOutcome::Failed("boom".to_string())] {
        match step_after_firecracker(&j, &plan, &options, &TargetOs::Linux, outcome) {
            SandboxStep::RunShell(inv) => {
                assert_eq!(inv.program, "unshare");
                assert!(inv.seccomp);
            }
            _ => panic!("expected the shell"),
        }
    }
    match step_after_firecracker(&j, &plan, &options, &TargetOs::Linux, FirecrackerOutcome::Finished(output(Some(0)))) {
        SandboxStep::Report(r) => {
            assert!(r.success);
            assert_eq!(r.msg_id, "m1-result");
            assert_eq!(r.stdout, "o");
        }
        _ => panic!("expected a report"),
    }
}

#[test]
fn subprocess_jobs_go_to_the_shell() {
    let mut options = SandboxOptions::default();
    options.network_blackhole = false;
    let j = job(None, None, None);
    let plan = plan_isolated(&j, &options, &TargetOs::MacOs);
    match first_step(&plan, &options, &TargetOs::MacOs) {
        SandboxStep::RunShell(inv) => {
            assert_eq!(inv.program, "sh");
            assert!(!inv.seccomp);
            assert_eq!(inv.args[1], "echo hi");
        }
        _ => panic!("expected the shell"),
    }
    let done = step_after_shell(&j, Ok(output(None)));
    assert_eq!(done.exit_code, -1);
    assert!(!done.success);
    let failed = step_after_shell(&j, Err("no such file".to_string()));
    assert_eq!(failed.stderr, "no such file");
    assert_eq!(failed.stdout, "");
}

#[test]
fn failures_also_get_fresh_ids() {
    match run_script_job("/nope.sh", None, false) {
        Err(res) => {
            assert_eq!(res.msg_id.len(), 36);
            assert_eq!(res.job_id.chars().nth(14), Some('7'));
            assert_eq!(res.stderr, "script not found: /nope.sh");
        }
        Ok(_) => panic!("expected a failure"),
    }
}
