//! The decisions of the Firecracker backend: its configuration from the
//! environment, where its binary is, and how a command boots a microVM.
use vstd::prelude::*;
use crate::text::{parse_unsigned, parse_unsigned_text, replace_char, replaced, trim, trim_text};

verus! {

/// Where the kernel and root filesystem are, and the VM's size.
pub struct FirecrackerConfig {
    pub kernel_path: String,
    pub rootfs_path: String,
    pub vcpu_count: u32,
    pub mem_mib: u32,
}

/// The value of an optional setting read as a `u32`, or `default` when it
/// is missing or does not parse.
pub open spec fn u32_setting(v: Option<String>, default: u32) -> u32 {
    match v {
        Some(s) => match parse_unsigned(s@, u32::MAX as nat) {
            Some(n) => n as u32,
            None => default,
        },
        None => default,
    }
}

fn read_u32_setting(v: Option<String>, default: u32) -> (r: u32)
    ensures
        r == u32_setting(v, default),
{
    match v {
        Some(s) => match parse_unsigned_text(s.as_str(), 4294967295u64) {
            Some(n) => n as u32,
            None => default,
        },
        None => default,
    }
}

impl FirecrackerConfig {
    /// The configuration from the values of `AUTONOMIC_FC_KERNEL`,
    /// `AUTONOMIC_FC_ROOTFS`, `AUTONOMIC_FC_VCPUS` and `AUTONOMIC_FC_MEM_MIB`:
    /// present only when the kernel and the root filesystem are both set and
    /// both files; 1 vCPU and 512 MiB unless set to numbers.
    pub fn from_env(
        kernel: Option<String>,
        rootfs: Option<String>,
        kernel_is_file: bool,
        rootfs_is_file: bool,
        vcpus: Option<String>,
        mem_mib: Option<String>,
    ) -> (r: Option<FirecrackerConfig>)
        ensures
            (r is Some) == (kernel is Some && rootfs is Some && kernel_is_file && rootfs_is_file),
            r matches Some(c) ==> {
                &&& c.kernel_path@ == kernel->0@
                &&& c.rootfs_path@ == rootfs->0@
                &&& c.vcpu_count == u32_setting(vcpus, 1)
                &&& c.mem_mib == u32_setting(mem_mib, 512)
            },
    {
        let kernel = match kernel {
            Some(k) => k,
            None => {
                return None;
            },
        };
        let rootfs = match rootfs {
            Some(r) => r,
            None => {
                return None;
            },
        };
        if !kernel_is_file || !rootfs_is_file {
            return None;
        }
        Some(
            FirecrackerConfig {
                kernel_path: kernel,
                rootfs_path: rootfs,
                vcpu_count: read_u32_setting(vcpus, 1),
                mem_mib: read_u32_setting(mem_mib, 512),
            },
        )
    }
}

/// Whether the Firecracker binary was found.
pub fn binary_available(binary: &Option<String>) -> (r: bool)
    ensures
        r == binary is Some,
{
    binary.is_some()
}

/// Whether the Firecracker backend can run: the binary is there and the
/// configuration is complete.
pub fn is_available(binary_available: bool, config: &Option<FirecrackerConfig>) -> (r: bool)
    ensures
        r == (binary_available && config is Some),
{
    binary_available && config.is_some()
}

/// The path that `which firecracker` printed: its output trimmed, when the
/// command succeeded and printed UTF-8 (`stdout` is `None` otherwise).
pub fn which_output_path(success: bool, stdout: Option<String>) -> (r: Option<String>)
    ensures
        (r is Some) == (success && stdout is Some),
        r matches Some(p) ==> p@ == trim(stdout->0@),
{
    if !success {
        return None;
    }
    match stdout {
        Some(s) => Some(trim_text(s.as_str())),
        None => None,
    }
}

/// The Firecracker binary: the one named by `AUTONOMIC_FC_BIN` when it is a
/// file, else the one `which` found when it is a file.
pub fn which_firecracker(
    env_bin: Option<String>,
    env_bin_is_file: bool,
    which_path: Option<String>,
    which_path_is_file: bool,
) -> (r: Option<String>)
    ensures
        r == (if env_bin is Some && env_bin_is_file {
            env_bin
        } else if which_path is Some && which_path_is_file {
            which_path
        } else {
            None
        }),
{
    match env_bin {
        Some(b) => {
            if env_bin_is_file {
                return Some(b);
            }
        },
        None => {},
    }
    match which_path {
        Some(p) => if which_path_is_file {
            Some(p)
        } else {
            None
        },
        None => None,
    }
}

/// The text that a quote becomes inside a single-quoted shell word.
pub open spec fn quote_in_quotes() -> Seq<char> {
    seq!['\'', '\\', '\'', '\'']
}

/// The kernel command line that boots a microVM running `command` with
/// `/bin/sh -c`: quotes are escaped for the single-quoted word, and line
/// breaks become spaces.
pub open spec fn boot_args_for(command: Seq<char>) -> Seq<char> {
    "console=ttyS0 reboot=k panic=1 pci=off init=/bin/sh -- -c '"@ + replaced(
        replaced(command, '\'', quote_in_quotes()),
        '\n',
        seq![' '],
    ) + "'"@
}

/// Builds the kernel command line for a command.
pub fn boot_args(command: &str) -> (r: String)
    ensures
        r@ == boot_args_for(command@),
{
    let quote_escape = "'\\''";
    proof {
        reveal_strlit("'\\''");
        reveal_strlit(" ");
    }
    assert(quote_escape@ =~= quote_in_quotes());
    let escaped = replace_char(command, '\'', quote_escape);
    let one_line = replace_char(escaped.as_str(), '\n', " ");
    assert(" "@ =~= seq![' ']);
    let mut s = String::new();
    s.append("console=ttyS0 reboot=k panic=1 pci=off init=/bin/sh -- -c '");
    s.append(one_line.as_str());
    s.append("'");
    assert(s@ =~= boot_args_for(command@));
    s
}

proof fn lemma_replaced_removes(s: Seq<char>, from: char, to: Seq<char>, i: int)
    requires
        forall|k: int| 0 <= k < to.len() ==> to[k] != from,
        0 <= i < replaced(s, from, to).len(),
    ensures
        replaced(s, from, to)[i] != from,
    decreases s.len(),
{
    if s.len() > 0 {
        let prev = replaced(s.drop_last(), from, to);
        let tail = if s.last() == from { to } else { seq![s.last()] };
        assert(replaced(s, from, to) == prev + tail);
        if i < prev.len() {
            lemma_replaced_removes(s.drop_last(), from, to, i);
        } else {
            assert(replaced(s, from, to)[i] == tail[i - prev.len()]);
        }
    }
}

/// The command inside the boot arguments holds no line break, so it stays
/// on the kernel command line.
pub proof fn law_boot_command_has_no_line_break(command: Seq<char>, i: int)
    requires
        0 <= i < replaced(replaced(command, '\'', quote_in_quotes()), '\n', seq![' ']).len(),
    ensures
        replaced(replaced(command, '\'', quote_in_quotes()), '\n', seq![' '])[i] != '\n',
{
    lemma_replaced_removes(replaced(command, '\'', quote_in_quotes()), '\n', seq![' '], i);
}

/// The command-line arguments of the Firecracker binary: the API socket and
/// the configuration file (with fixed fallbacks for paths that are not
/// UTF-8), without the API server.
pub fn firecracker_args(socket_path: Option<String>, config_path: Option<String>) -> (r: Vec<String>)
    ensures
        r@.len() == 5,
        r@[0]@ == "--api-sock"@,
        r@[1]@ == (match socket_path {
            Some(p) => p@,
            None => "/tmp/fc.sock"@,
        }),
        r@[2]@ == "--config-file"@,
        r@[3]@ == (match config_path {
            Some(p) => p@,
            None => "config.json"@,
        }),
        r@[4]@ == "--no-api"@,
{
    let mut v: Vec<String> = Vec::new();
    v.push("--api-sock".to_owned());
    v.push(
        match socket_path {
            Some(p) => p,
            None => "/tmp/fc.sock".to_owned(),
        },
    );
    v.push("--config-file".to_owned());
    v.push(
        match config_path {
            Some(p) => p,
            None => "config.json".to_owned(),
        },
    );
    v.push("--no-api".to_owned());
    v
}

} // verus!
