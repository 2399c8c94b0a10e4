//! The decisions of the sandbox executor: which backend runs a job, the
//! shell command line with its resource limits, how the shell is invoked,
//! and the result reported for each outcome.
use vstd::prelude::*;
use crate::config::{is_default_config, Config, SandboxConfig};
use crate::text::{has_char, replace_char, replaced, same_text, text_has_char};

verus! {

/// How the sandbox runs commands.
pub struct SandboxOptions {
    pub network_blackhole: bool,
    pub backend: String,
    pub seccomp: bool,
}

/// Whether the options are the built-in defaults.
pub open spec fn is_default_options(o: SandboxOptions) -> bool {
    &&& o.network_blackhole
    &&& o.backend@ == "subprocess"@
    &&& o.seccomp
}

impl Default for SandboxOptions {
    fn default() -> (r: SandboxOptions)
        ensures
            is_default_options(r),
    {
        SandboxOptions { network_blackhole: true, backend: "subprocess".to_owned(), seccomp: true }
    }
}

impl<'a> From<&'a SandboxConfig> for SandboxOptions {
    /// The options that a sandbox configuration section sets.
    fn from(cfg: &'a SandboxConfig) -> (r: SandboxOptions) {
        SandboxOptions {
            network_blackhole: cfg.network_blackhole,
            backend: cfg.backend.clone(),
            seccomp: cfg.seccomp,
        }
    }
}

impl<'a> vstd::std_specs::convert::FromSpecImpl<&'a SandboxConfig> for SandboxOptions {
    open spec fn obeys_from_spec() -> bool {
        true
    }

    open spec fn from_spec(cfg: &'a SandboxConfig) -> SandboxOptions {
        SandboxOptions {
            network_blackhole: cfg.network_blackhole,
            backend: cfg.backend,
            seccomp: cfg.seccomp,
        }
    }
}

/// The options taken from a sandbox configuration keep its network
/// blackhole, backend and seccomp settings.
pub proof fn law_options_keep_configuration(cfg: &SandboxConfig)
    ensures
        <SandboxOptions as vstd::std_specs::convert::FromSpec<&SandboxConfig>>::obeys_from_spec(),
        <SandboxOptions as vstd::std_specs::convert::FromSpec<&SandboxConfig>>::from_spec(cfg).network_blackhole
            == cfg.network_blackhole,
        <SandboxOptions as vstd::std_specs::convert::FromSpec<&SandboxConfig>>::from_spec(cfg).backend@
            == cfg.backend@,
        <SandboxOptions as vstd::std_specs::convert::FromSpec<&SandboxConfig>>::from_spec(cfg).seccomp
            == cfg.seccomp,
{
}

/// The sandbox options built from the default configuration are the
/// default sandbox options.
pub proof fn law_default_options_from_default_config(c: Config, o: SandboxOptions)
    requires
        is_default_config(c),
        o.network_blackhole == c.sandbox.network_blackhole,
        o.backend@ == c.sandbox.backend@,
        o.seccomp == c.sandbox.seccomp,
    ensures
        is_default_options(o),
{
}

/// A job for the sandbox executor.
pub struct SandboxExecute {
    pub msg_id: String,
    pub job_id: String,
    pub command: String,
    pub cwd: Option<String>,
    pub memory_mb: Option<u32>,
    pub backend: Option<String>,
}

/// What the executor reports for a job.
pub struct ExecuteResult {
    pub msg_id: String,
    pub job_id: String,
    pub exit_code: i32,
    pub stdout: String,
    pub stderr: String,
    pub success: bool,
}

/// The operating system the executor runs on.
pub enum TargetOs {
    Linux,
    MacOs,
    Windows,
    Other,
}

/// The shell command with its resource limits: on Linux, virtual memory is
/// capped at `memory_mb` MiB and the number of processes at 64.
pub open spec fn limited_command(command: Seq<char>, memory_mb: u32, target: TargetOs) -> Seq<char> {
    if target is Linux {
        "ulimit -v $(("@ + crate::text::decimal(memory_mb as nat)
            + " * 1024)) 2>/dev/null; ulimit -u 64 2>/dev/null; "@ + command
    } else {
        command
    }
}

/// Prefixes a command with the resource limits of the target.
pub fn wrap_with_resource_limits(command: &str, memory_mb: u32, target: &TargetOs) -> (r: String)
    ensures
        r@ == limited_command(command@, memory_mb, *target),
{
    match target {
        TargetOs::Linux => {
            let mut s = String::new();
            s.append("ulimit -v $((");
            crate::text::push_decimal(&mut s, memory_mb as u64);
            s.append(" * 1024)) 2>/dev/null; ulimit -u 64 2>/dev/null; ");
            s.append(command);
            assert(s@ =~= limited_command(command@, memory_mb, *target));
            s
        },
        _ => command.to_owned(),
    }
}

/// How a job is to run: its working directory, the full command line, and
/// whether the Firecracker backend is to be tried first.
pub struct SandboxPlan {
    pub cwd: String,
    pub command: String,
    pub try_firecracker: bool,
}

/// The backend a job asks for, or the configured one.
pub open spec fn chosen_backend(job: SandboxExecute, options: SandboxOptions) -> Seq<char> {
    match job.backend {
        Some(b) => b@,
        None => options.backend@,
    }
}

/// Plans a job: the working directory defaults to `.`, memory to 256 MiB,
/// the backend to the configured one; Firecracker is tried when the chosen
/// backend is `firecracker`.
pub fn plan_isolated(job: &SandboxExecute, options: &SandboxOptions, target: &TargetOs) -> (r: SandboxPlan)
    ensures
        r.cwd@ == (match job.cwd {
            Some(c) => c@,
            None => "."@,
        }),
        r.command@ == limited_command(
            job.command@,
            match job.memory_mb {
                Some(m) => m,
                None => 256u32,
            },
            *target,
        ),
        r.try_firecracker == (chosen_backend(*job, *options) == "firecracker"@),
{
    let cwd = match &job.cwd {
        Some(c) => c.clone(),
        None => ".".to_owned(),
    };
    let try_firecracker = match &job.backend {
        Some(b) => same_text(b.as_str(), "firecracker"),
        None => same_text(options.backend.as_str(), "firecracker"),
    };
    let memory_mb = match job.memory_mb {
        Some(m) => m,
        None => 256,
    };
    let command = wrap_with_resource_limits(job.command.as_str(), memory_mb, target);
    SandboxPlan { cwd, command, try_firecracker }
}

/// How the shell is started: the program, its arguments, and whether the
/// seccomp filter is installed in the child.
pub struct ShellInvocation {
    pub program: String,
    pub args: Vec<String>,
    pub seccomp: bool,
}

/// The texts of a list of arguments.
pub open spec fn arg_texts(v: Seq<String>) -> Seq<Seq<char>> {
    v.map_values(|a: String| a@)
}

/// Whether the network blackhole is in force: it is asked for and the
/// target is Linux (where `unshare -n` provides it).
pub open spec fn blackhole_in_force(network_blackhole: bool, target: TargetOs) -> bool {
    network_blackhole && target is Linux
}

/// The program that runs a command.
pub open spec fn shell_program(network_blackhole: bool, target: TargetOs) -> Seq<char> {
    if blackhole_in_force(network_blackhole, target) {
        "unshare"@
    } else if target is Windows {
        "cmd"@
    } else {
        "sh"@
    }
}

/// The arguments that make the program run `command`.
pub open spec fn shell_args(command: Seq<char>, network_blackhole: bool, target: TargetOs) -> Seq<Seq<char>> {
    if blackhole_in_force(network_blackhole, target) {
        seq!["-n"@, "sh"@, "-c"@, command]
    } else if target is Windows {
        seq!["/C"@, command]
    } else {
        seq!["-c"@, command]
    }
}

/// How to start the shell for a command: through `unshare -n` when the
/// network blackhole is in force, through `cmd /C` on Windows, through
/// `sh -c` otherwise; the seccomp filter applies on Linux only.
pub fn shell_invocation(command: &str, network_blackhole: bool, seccomp: bool, target: &TargetOs) -> (r: ShellInvocation)
    ensures
        r.program@ == shell_program(network_blackhole, *target),
        arg_texts(r.args@) == shell_args(command@, network_blackhole, *target),
        r.seccomp == (seccomp && *target is Linux),
{
    let linux = match target {
        TargetOs::Linux => true,
        _ => false,
    };
    let windows = match target {
        TargetOs::Windows => true,
        _ => false,
    };
    let mut args: Vec<String> = Vec::new();
    let program;
    if network_blackhole && linux {
        program = "unshare".to_owned();
        args.push("-n".to_owned());
        args.push("sh".to_owned());
        args.push("-c".to_owned());
        args.push(command.to_owned());
    } else if windows {
        program = "cmd".to_owned();
        args.push("/C".to_owned());
        args.push(command.to_owned());
    } else {
        program = "sh".to_owned();
        args.push("-c".to_owned());
        args.push(command.to_owned());
    }
    assert(arg_texts(args@) =~= shell_args(command@, network_blackhole, *target));
    ShellInvocation { program, args, seccomp: seccomp && linux }
}

/// The message id of the result for a job.
pub open spec fn result_id(msg_id: Seq<char>) -> Seq<char> {
    msg_id + "-result"@
}

fn result_msg_id(msg_id: &str) -> (r: String)
    ensures
        r@ == result_id(msg_id@),
{
    let mut s = msg_id.to_owned();
    s.append("-result");
    s
}

/// The result of a job whose process ran: the exit code is -1 when the
/// process ended without one (killed by a signal).
pub fn execution_result(job: &SandboxExecute, exit_code: Option<i32>, success: bool, stdout: String, stderr: String) -> (r: ExecuteResult)
    ensures
        r.msg_id@ == result_id(job.msg_id@),
        r.job_id@ == job.job_id@,
        r.exit_code == (match exit_code {
            Some(c) => c,
            None => -1i32,
        }),
        r.stdout@ == stdout@,
        r.stderr@ == stderr@,
        r.success == success,
{
    ExecuteResult {
        msg_id: result_msg_id(job.msg_id.as_str()),
        job_id: job.job_id.clone(),
        exit_code: match exit_code {
            Some(c) => c,
            None => -1,
        },
        stdout,
        stderr,
        success,
    }
}

/// The result of a job whose process could not be started.
pub fn failure_result(job: &SandboxExecute, error: String) -> (r: ExecuteResult)
    ensures
        r.msg_id@ == result_id(job.msg_id@),
        r.job_id@ == job.job_id@,
        r.exit_code == -1,
        r.stdout@ == Seq::<char>::empty(),
        r.stderr@ == error@,
        !r.success,
{
    ExecuteResult {
        msg_id: result_msg_id(job.msg_id.as_str()),
        job_id: job.job_id.clone(),
        exit_code: -1,
        stdout: String::new(),
        stderr: error,
        success: false,
    }
}

/// What a finished process produced: its exit code (none when killed by a
/// signal), whether it succeeded, and its output as text.
pub struct ProcessOutput {
    pub exit_code: Option<i32>,
    pub success: bool,
    pub stdout: String,
    pub stderr: String,
}

/// How the attempt to run a job in a Firecracker microVM ended.
pub enum FirecrackerOutcome {
    /// The kernel and root filesystem are not configured.
    NotConfigured,
    /// The microVM could not be run; the error as text.
    Failed(String),
    /// The microVM ran the command.
    Finished(ProcessOutput),
}

/// The executor's next step for a job.
pub enum SandboxStep {
    /// Run the planned command in a Firecracker microVM.
    BootFirecracker,
    /// Run the planned command with this shell invocation.
    RunShell(ShellInvocation),
    /// The job is done; report this result.
    Report(ExecuteResult),
}

/// Whether `inv` starts the shell for `command` as `shell_invocation` does.
pub open spec fn invokes(inv: ShellInvocation, command: Seq<char>, network_blackhole: bool, seccomp: bool, target: TargetOs) -> bool {
    &&& inv.program@ == shell_program(network_blackhole, target)
    &&& arg_texts(inv.args@) == shell_args(command, network_blackhole, target)
    &&& inv.seccomp == (seccomp && target is Linux)
}

/// Whether `r` reports the output of a process run for `job`.
pub open spec fn reports_output(r: ExecuteResult, job: SandboxExecute, out: ProcessOutput) -> bool {
    &&& r.msg_id@ == result_id(job.msg_id@)
    &&& r.job_id@ == job.job_id@
    &&& r.exit_code == (match out.exit_code {
        Some(c) => c,
        None => -1i32,
    })
    &&& r.stdout@ == out.stdout@
    &&& r.stderr@ == out.stderr@
    &&& r.success == out.success
}

/// Whether `r` reports that the process for `job` could not be run.
pub open spec fn reports_failure(r: ExecuteResult, job: SandboxExecute, error: Seq<char>) -> bool {
    &&& r.msg_id@ == result_id(job.msg_id@)
    &&& r.job_id@ == job.job_id@
    &&& r.exit_code == -1
    &&& r.stdout@ == Seq::<char>::empty()
    &&& r.stderr@ == error
    &&& !r.success
}

/// The first step for a planned job: the microVM when Firecracker is to be
/// tried, the shell otherwise.
pub fn first_step(plan: &SandboxPlan, options: &SandboxOptions, target: &TargetOs) -> (r: SandboxStep)
    ensures
        plan.try_firecracker ==> r is BootFirecracker,
        !plan.try_firecracker ==> (r matches SandboxStep::RunShell(inv) && invokes(
            inv,
            plan.command@,
            options.network_blackhole,
            options.seccomp,
            *target,
        )),
{
    if plan.try_firecracker {
        SandboxStep::BootFirecracker
    } else {
        SandboxStep::RunShell(
            shell_invocation(plan.command.as_str(), options.network_blackhole, options.seccomp, target),
        )
    }
}

/// The step after the Firecracker attempt: its output is reported when the
/// microVM ran; otherwise the job falls back to the shell.
pub fn step_after_firecracker(
    job: &SandboxExecute,
    plan: &SandboxPlan,
    options: &SandboxOptions,
    target: &TargetOs,
    outcome: FirecrackerOutcome,
) -> (r: SandboxStep)
    ensures
        match outcome {
            FirecrackerOutcome::Finished(out) => r matches SandboxStep::Report(res) && reports_output(
                res,
                *job,
                out,
            ),
            _ => r matches SandboxStep::RunShell(inv) && invokes(
                inv,
                plan.command@,
                options.network_blackhole,
                options.seccomp,
                *target,
            ),
        },
{
    match outcome {
        FirecrackerOutcome::Finished(out) => SandboxStep::Report(
            execution_result(job, out.exit_code, out.success, out.stdout, out.stderr),
        ),
        _ => SandboxStep::RunShell(
            shell_invocation(plan.command.as_str(), options.network_blackhole, options.seccomp, target),
        ),
    }
}

/// The result once the shell has run the job, or could not be started.
pub fn step_after_shell(job: &SandboxExecute, outcome: Result<ProcessOutput, String>) -> (r: ExecuteResult)
    ensures
        match outcome {
            Ok(out) => reports_output(r, *job, out),
            Err(e) => reports_failure(r, *job, e@),
        },
{
    match outcome {
        Ok(out) => execution_result(job, out.exit_code, out.success, out.stdout, out.stderr),
        Err(e) => failure_result(job, e),
    }
}

/// A path quoted for the shell: in single quotes, with each quote written
/// as `'\''`, when it holds a space or a quote.
pub open spec fn shell_quoted(s: Seq<char>) -> Seq<char> {
    if has_char(s, ' ') || has_char(s, '\'') {
        seq!['\''] + replaced(s, '\'', seq!['\'', '\\', '\'', '\'']) + seq!['\'']
    } else {
        s
    }
}

/// Quotes a script path for the shell.
pub fn shell_escape(path: &str) -> (r: String)
    ensures
        r@ == shell_quoted(path@),
{
    if text_has_char(path, ' ') || text_has_char(path, '\'') {
        proof {
            reveal_strlit("'");
            reveal_strlit("'\\''");
        }
        let mut s = String::new();
        s.append("'");
        let quote_escape = "'\\''";
        assert(quote_escape@ =~= seq!['\'', '\\', '\'', '\'']);
        assert("'"@ =~= seq!['\'']);
        let inner = replace_char(path, '\'', quote_escape);
        s.append(inner.as_str());
        s.append("'");
        assert(s@ =~= shell_quoted(path@));
        s
    } else {
        path.to_owned()
    }
}

/// The message of a script that is not a file.
pub open spec fn missing_script_message(path: Seq<char>) -> Seq<char> {
    "script not found: "@ + path
}

/// The job that runs a script file with `sh`, in the script's directory, or
/// the failed result when the path is not a file. `msg_id` and `job_id`
/// identify the job or the failure.
pub fn script_job(path: &str, parent: Option<String>, is_file: bool, msg_id: String, job_id: String) -> (r: Result<SandboxExecute, ExecuteResult>)
    ensures
        is_file ==> (r matches Ok(job) && job.msg_id@ == msg_id@ && job.job_id@ == job_id@
            && job.command@ == "sh "@ + shell_quoted(path@) && job.cwd == parent
            && job.memory_mb is None && job.backend is None),
        !is_file ==> (r matches Err(res) && res.msg_id@ == msg_id@ && res.job_id@ == job_id@
            && res.exit_code == -1 && res.stdout@ == Seq::<char>::empty()
            && res.stderr@ == missing_script_message(path@) && !res.success),
{
    if is_file {
        let mut command = String::new();
        command.append("sh ");
        let q = shell_escape(path);
        command.append(q.as_str());
        assert(command@ =~= "sh "@ + shell_quoted(path@));
        Ok(SandboxExecute { msg_id, job_id, command, cwd: parent, memory_mb: None, backend: None })
    } else {
        let mut stderr = String::new();
        stderr.append("script not found: ");
        stderr.append(path);
        assert(stderr@ =~= missing_script_message(path@));
        Err(ExecuteResult { msg_id, job_id, exit_code: -1, stdout: String::new(), stderr, success: false })
    }
}

/// Whether `c` is a lowercase hexadecimal digit.
pub open spec fn is_lower_hex(c: char) -> bool {
    ('0' <= c && c <= '9') || ('a' <= c && c <= 'f')
}

/// Whether the text has the shape of a version-7 UUID in hyphenated
/// lowercase form: 36 characters, hyphens at positions 8, 13, 18 and 23,
/// lowercase hex digits elsewhere, and the version digit `7` at position 14.
pub open spec fn is_v7_uuid_text(s: Seq<char>) -> bool {
    &&& s.len() == 36
    &&& forall|i: int|
        0 <= i < 36 ==> if i == 8 || i == 13 || i == 18 || i == 23 {
            #[trigger] s[i] == '-'
        } else {
            is_lower_hex(s[i])
        }
    &&& s[14] == '7'
}

/// A fresh time-ordered identifier from `uuid::Uuid::now_v7`, as text
/// (`Display`, which writes the hyphenated lowercase form). Claims only the
/// shape of that text; its digits depend on the clock and on chance.
#[verifier::external_body]
fn new_message_id() -> (r: String)
    ensures
        is_v7_uuid_text(r@),
{
    uuid::Uuid::now_v7().to_string()
}

/// The job that runs a script file, or the failed result when the path is
/// not a file, under fresh identifiers.
pub fn run_script_job(path: &str, parent: Option<String>, is_file: bool) -> (r: Result<SandboxExecute, ExecuteResult>)
    ensures
        is_file ==> (r matches Ok(job) && job.command@ == "sh "@ + shell_quoted(path@)
            && job.cwd == parent && job.memory_mb is None && job.backend is None
            && is_v7_uuid_text(job.msg_id@) && is_v7_uuid_text(job.job_id@)),
        !is_file ==> (r matches Err(res) && res.exit_code == -1 && res.stdout@ == Seq::<char>::empty()
            && res.stderr@ == missing_script_message(path@) && !res.success
            && is_v7_uuid_text(res.msg_id@) && is_v7_uuid_text(res.job_id@)),
{
    let msg_id = new_message_id();
    let job_id = new_message_id();
    script_job(path, parent, is_file, msg_id, job_id)
}

/// The text that `sh` reads from a word made of plain characters,
/// single-quoted stretches and backslash-escaped characters; `quoted` tells
/// whether the reading starts inside single quotes.
pub open spec fn shell_read(w: Seq<char>, quoted: bool) -> Seq<char>
    decreases w.len(),
{
    if w.len() == 0 {
        seq![]
    } else if quoted {
        if w[0] == '\'' {
            shell_read(w.drop_first(), false)
        } else {
            seq![w[0]] + shell_read(w.drop_first(), true)
        }
    } else if w[0] == '\'' {
        shell_read(w.drop_first(), true)
    } else if w[0] == '\\' && w.len() > 1 {
        seq![w[1]] + shell_read(w.skip(2), false)
    } else {
        seq![w[0]] + shell_read(w.drop_first(), false)
    }
}

proof fn lemma_replaced_concat(a: Seq<char>, b: Seq<char>, from: char, to: Seq<char>)
    ensures
        replaced(a + b, from, to) == replaced(a, from, to) + replaced(b, from, to),
    decreases b.len(),
{
    if b.len() == 0 {
        assert(a + b =~= a);
        assert(replaced(a, from, to) + replaced(b, from, to) =~= replaced(a, from, to));
    } else {
        lemma_replaced_concat(a, b.drop_last(), from, to);
        assert((a + b).drop_last() =~= a + b.drop_last());
        assert((a + b).last() == b.last());
        let tail = if b.last() == from { to } else { seq![b.last()] };
        assert(replaced(a, from, to) + replaced(b.drop_last(), from, to) + tail =~= replaced(a, from, to) + (replaced(b.drop_last(), from, to) + tail));
    }
}

proof fn lemma_read_escaped(s: Seq<char>, t: Seq<char>)
    ensures
        shell_read(replaced(s, '\'', seq!['\'', '\\', '\'', '\'']) + t, true) == s + shell_read(t, true),
    decreases s.len(),
{
    let q = seq!['\'', '\\', '\'', '\''];
    if s.len() == 0 {
        assert(replaced(s, '\'', q) + t =~= t);
        assert(s + shell_read(t, true) =~= shell_read(t, true));
    } else {
        let rest = s.drop_first();
        lemma_read_escaped(rest, t);
        assert(s =~= seq![s[0]] + rest);
        lemma_replaced_concat(seq![s[0]], rest, '\'', q);
        assert(seq![s[0]].drop_last() =~= Seq::<char>::empty());
        let piece = replaced(seq![s[0]], '\'', q);
        assert(piece == replaced(Seq::<char>::empty(), '\'', q) + (if s[0] == '\'' { q } else { seq![s[0]] }));
        assert(replaced(Seq::<char>::empty(), '\'', q) =~= Seq::<char>::empty());
        let x = replaced(rest, '\'', q) + t;
        assert(replaced(s, '\'', q) + t =~= piece + x);
        if s[0] == '\'' {
            assert(piece =~= q);
            let w = q + x;
            assert(w.drop_first() =~= seq!['\\', '\'', '\''] + x);
            let w1 = w.drop_first();
            assert(w1.skip(2) =~= seq!['\''] + x);
            let w2 = w1.skip(2);
            assert(w2.drop_first() =~= x);
            assert(shell_read(w2, false) == shell_read(x, true));
            assert(shell_read(w1, false) == seq!['\''] + shell_read(w2, false));
            assert(shell_read(w, true) == shell_read(w1, false));
        } else {
            assert(piece =~= seq![s[0]]);
            assert((piece + x).drop_first() =~= x);
        }
        assert(s + shell_read(t, true) =~= seq![s[0]] + (rest + shell_read(t, true)));
    }
}

/// A path that holds a space or a quote is quoted so that the shell reads
/// it back as the same path.
pub proof fn law_shell_escape_reads_back(s: Seq<char>)
    requires
        has_char(s, ' ') || has_char(s, '\''),
    ensures
        shell_read(shell_quoted(s), false) == s,
{
    let q = seq!['\'', '\\', '\'', '\''];
    let w = seq!['\''] + replaced(s, '\'', q) + seq!['\''];
    assert(w.drop_first() =~= replaced(s, '\'', q) + seq!['\'']);
    lemma_read_escaped(s, seq!['\'']);
    assert(seq!['\''].drop_first() =~= Seq::<char>::empty());
    assert(shell_read(seq!['\''], true) == shell_read(Seq::<char>::empty(), false));
    assert(s + Seq::<char>::empty() =~= s);
}

/// Whether `c` separates words when it is not quoted.
pub open spec fn is_blank(c: char) -> bool {
    c == ' ' || c == '\t' || c == '\n'
}

/// The words that `sh` splits a command word list into, after the partial
/// word `cur` (`started` tells whether a word has begun): unquoted blanks
/// separate words, single quotes and a backslash before a character quote,
/// and quoting is removed.
pub open spec fn shell_words_from(w: Seq<char>, quoted: bool, cur: Seq<char>, started: bool) -> Seq<Seq<char>>
    decreases w.len(),
{
    if w.len() == 0 {
        if started {
            seq![cur]
        } else {
            seq![]
        }
    } else if quoted {
        if w[0] == '\'' {
            shell_words_from(w.drop_first(), false, cur, true)
        } else {
            shell_words_from(w.drop_first(), true, cur.push(w[0]), true)
        }
    } else if w[0] == '\'' {
        shell_words_from(w.drop_first(), true, cur, true)
    } else if w[0] == '\\' && w.len() > 1 {
        shell_words_from(w.skip(2), false, cur.push(w[1]), true)
    } else if is_blank(w[0]) {
        (if started {
            seq![cur]
        } else {
            seq![]
        }) + shell_words_from(w.drop_first(), false, seq![], false)
    } else {
        shell_words_from(w.drop_first(), false, cur.push(w[0]), true)
    }
}

/// The words of a command text.
pub open spec fn shell_words(w: Seq<char>) -> Seq<Seq<char>> {
    shell_words_from(w, false, seq![], false)
}

/// The characters that the shell treats specially besides space and the
/// single quote.
pub open spec fn is_shell_special(c: char) -> bool {
    ||| c == '\t'
    ||| c == '\n'
    ||| c == '\\'
    ||| c == '"'
    ||| c == '$'
    ||| c == '`'
    ||| c == ';'
    ||| c == '&'
    ||| c == '|'
    ||| c == '<'
    ||| c == '>'
    ||| c == '('
    ||| c == ')'
    ||| c == '*'
    ||| c == '?'
    ||| c == '['
    ||| c == ']'
}

proof fn lemma_words_escaped(s: Seq<char>, t: Seq<char>, cur: Seq<char>)
    ensures
        shell_words_from(replaced(s, '\'', seq!['\'', '\\', '\'', '\'']) + t, true, cur, true)
            == shell_words_from(t, true, cur + s, true),
    decreases s.len(),
{
    let q = seq!['\'', '\\', '\'', '\''];
    if s.len() == 0 {
        assert(replaced(s, '\'', q) + t =~= t);
        assert(cur + s =~= cur);
    } else {
        let rest = s.drop_first();
        lemma_words_escaped(rest, t, cur.push(s[0]));
        assert(cur.push(s[0]) + rest =~= cur + s);
        assert(s =~= seq![s[0]] + rest);
        lemma_replaced_concat(seq![s[0]], rest, '\'', q);
        assert(seq![s[0]].drop_last() =~= Seq::<char>::empty());
        let piece = replaced(seq![s[0]], '\'', q);
        assert(piece == replaced(Seq::<char>::empty(), '\'', q) + (if s[0] == '\'' { q } else { seq![s[0]] }));
        assert(replaced(Seq::<char>::empty(), '\'', q) =~= Seq::<char>::empty());
        let x = replaced(rest, '\'', q) + t;
        assert(replaced(s, '\'', q) + t =~= piece + x);
        if s[0] == '\'' {
            assert(piece =~= q);
            let w = q + x;
            let w1 = w.drop_first();
            assert(w1 =~= seq!['\\', '\'', '\''] + x);
            let w2 = w1.skip(2);
            assert(w2 =~= seq!['\''] + x);
            assert(w2.drop_first() =~= x);
            assert(shell_words_from(w2, false, cur.push('\''), true) == shell_words_from(x, true, cur.push('\''), true));
            assert(shell_words_from(w1, false, cur, true) == shell_words_from(w2, false, cur.push(w1[1]), true));
            assert(shell_words_from(w, true, cur, true) == shell_words_from(w1, false, cur, true));
        } else {
            assert(piece =~= seq![s[0]]);
            assert((piece + x).drop_first() =~= x);
        }
    }
}

proof fn lemma_words_plain(s: Seq<char>, cur: Seq<char>, started: bool)
    requires
        started || s.len() > 0,
        forall|i: int| 0 <= i < s.len() ==> !is_shell_special(#[trigger] s[i]) && s[i] != ' ' && s[i] != '\'',
    ensures
        shell_words_from(s, false, cur, started) == seq![cur + s],
    decreases s.len(),
{
    if s.len() == 0 {
        assert(cur + s =~= cur);
    } else {
        let rest = s.drop_first();
        assert(!is_shell_special(s[0]) && s[0] != ' ' && s[0] != '\'');
        assert forall|i: int| 0 <= i < rest.len() implies !is_shell_special(#[trigger] rest[i]) && rest[i] != ' ' && rest[i] != '\'' by {
            assert(rest[i] == s[i + 1]);
        }
        lemma_words_plain(rest, cur.push(s[0]), true);
        assert(cur.push(s[0]) + rest =~= cur + s);
    }
}

/// The shell splits the quoted form of a path into exactly one word, the
/// path itself: always when the path holds a space or a quote (which are
/// then quoted); otherwise the path is left as it is, and it is one word
/// when it is not empty, holds no other character special to the shell and
/// does not start with `~` or `#`.
pub proof fn law_shell_escape_one_word(s: Seq<char>)
    requires
        (has_char(s, ' ') || has_char(s, '\'')) || (s.len() > 0 && s[0] != '~' && s[0] != '#'
            && forall|i: int| 0 <= i < s.len() ==> !is_shell_special(#[trigger] s[i])),
    ensures
        shell_words(shell_quoted(s)) == seq![s],
        !(has_char(s, ' ') || has_char(s, '\'')) ==> shell_quoted(s) == s,
{
    if has_char(s, ' ') || has_char(s, '\'') {
        let q = seq!['\'', '\\', '\'', '\''];
        let w = seq!['\''] + replaced(s, '\'', q) + seq!['\''];
        assert(w.drop_first() =~= replaced(s, '\'', q) + seq!['\'']);
        lemma_words_escaped(s, seq!['\''], seq![]);
        assert(seq!['\''].drop_first() =~= Seq::<char>::empty());
        assert(Seq::<char>::empty() + s =~= s);
        assert(shell_quoted(s) == w);
        assert(w[0] == '\'');
        assert(shell_words(w) == shell_words_from(w.drop_first(), true, seq![], true));
        assert(shell_words_from(seq!['\''], true, s, true) == shell_words_from(Seq::<char>::empty(), false, s, true));
    } else {
        assert forall|i: int| 0 <= i < s.len() implies !is_shell_special(#[trigger] s[i]) && s[i] != ' ' && s[i] != '\'' by {
            if s[i] == ' ' {
                assert(has_char(s, ' '));
            }
            if s[i] == '\'' {
                assert(has_char(s, '\''));
            }
        }
        lemma_words_plain(s, seq![], false);
        assert(Seq::<char>::empty() + s =~= s);
    }
}

} // verus!
