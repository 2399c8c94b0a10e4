use agent_immune::firecracker::{
    binary_available, boot_args, firecracker_args, is_available, which_firecracker,
    which_output_path, FirecrackerConfig,
};

fn s(x: &str) -> Option<String> {
    Some(x.to_string())
}

#[test]
fn configuration_needs_kernel_and_rootfs_files() {
    assert!(FirecrackerConfig::from_env(None, s("/r"), true, true, None, None).is_none());
    assert!(FirecrackerConfig::from_env(s("/k"), None, true, true, None, None).is_none());
    assert!(FirecrackerConfig::from_env(s("/k"), s("/r"), false, true, None, None).is_none());
    assert!(FirecrackerConfig::from_env(s("/k"), s("/r"), true, false, None, None).is_none());
    let c = FirecrackerConfig::from_env(s("/k"), s("/r"), true, true, None, None).expect("complete");
    assert_eq!(c.kernel_path, "/k");
    assert_eq!(c.rootfs_path, "/r");
    assert_eq!(c.vcpu_count, 1);
    assert_eq!(c.mem_mib, 512);
}

#[test]
fn configuration_reads_sizes() {
    let c = FirecrackerConfig::from_env(s("/k"), s("/r"), true, true, s("4"), s("2048")).expect("complete");
    assert_eq!(c.vcpu_count, 4);
    assert_eq!(c.mem_mib, 2048);
    let d = FirecrackerConfig::from_env(s("/k"), s("/r"), true, true, s("four"), s("4294967296")).expect("complete");
    assert_eq!(d.vcpu_count, 1);
    assert_eq!(d.mem_mib, 512);
    let e = FirecrackerConfig::from_env(s("/k"), s("/r"), true, true, s("+2"), s(" 8")).expect("complete");
    assert_eq!(e.vcpu_count, 2);
    assert_eq!(e.mem_mib, 512);
}

#[test]
fn availability() {
    assert!(binary_available(&s("/usr/bin/firecracker")));
    assert!(!binary_available(&None));
    let c = FirecrackerConfig::from_env(s("/k"), s("/r"), true, true, None, None);
    assert!(is_available(true, &c));
    assert!(!is_available(false, &c));
    assert!(!is_available(true, &None));
}

#[test]
fn finds_the_binary() {
    assert_eq!(which_output_path(true, s("/usr/bin/firecracker\n")), s("/usr/bin/firecracker"));
    assert_eq!(which_output_path(false, s("/usr/bin/firecracker\n")), None);
    assert_eq!(which_output_path(true, None), None);
    assert_eq!(which_firecracker(s("/opt/fc"), true, s("/usr/bin/fc"), true), s("/opt/fc"));
    assert_eq!(which_firecracker(s("/opt/fc"), false, s("/usr/bin/fc"), true), s("/usr/bin/fc"));
    assert_eq!(which_firecracker(None, false, s("/usr/bin/fc"), false), None);
}

#[test]
fn boot_arguments_escape_the_command() {
    assert_eq!(
        boot_args("echo 'hi'\nls"),
        "console=ttyS0 reboot=k panic=1 pci=off init=/bin/sh -- -c 'echo '\\''hi'\\'' ls'"
    );
    assert_eq!(
        firecracker_args(s("/tmp/x/fc.sock"), None),
        vec!["--api-sock", "/tmp/x/fc.sock", "--config-file", "config.json", "--no-api"]
    );
}
