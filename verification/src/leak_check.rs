//! The memory-leak gate: a monitor that is fed resident-set samples of a
//! running command and decides when growth exceeds the threshold, the final
//! verdict once the command exits, and the parsing of RSS readings.
use vstd::prelude::*;
use crate::text::{
    char_lines, chars_of, decimal, has_char, has_prefix, parse_unsigned, parse_unsigned_at,
    push_decimal, push_signed_decimal, signed_decimal, split_char_lines, text_has_char, trim,
    trim_bounds, trim_end_matches, trim_end_matches_bound,
};

verus! {

/// The outcome of a leak check.
pub struct LeakCheckReport {
    pub passed: bool,
    pub peak_rss_kb: u64,
    pub samples: u64,
    pub growth_kb: i64,
    pub threshold_kb: u64,
    pub message: String,
}

/// The growth allowed when the caller gives a threshold of 0 (512 MiB).
pub const DEFAULT_THRESHOLD_KB: u64 = 512 * 1024;

/// The threshold in force: the given one, or the default for 0.
pub open spec fn effective_threshold(threshold_kb: u64) -> u64 {
    if threshold_kb == 0 {
        DEFAULT_THRESHOLD_KB
    } else {
        threshold_kb
    }
}

/// The largest of the samples (0 for none).
pub open spec fn peak_of(s: Seq<u64>) -> u64
    decreases s.len(),
{
    if s.len() == 0 {
        0
    } else {
        let p = peak_of(s.drop_last());
        if p >= s.last() {
            p
        } else {
            s.last()
        }
    }
}

/// The first sample (0 for none).
pub open spec fn baseline_of(s: Seq<u64>) -> u64 {
    if s.len() == 0 {
        0
    } else {
        s[0]
    }
}

/// `a - b`, or 0 when `b` is larger (`u64::saturating_sub`).
pub open spec fn saturating_sub(a: u64, b: u64) -> u64 {
    if a >= b {
        (a - b) as u64
    } else {
        0
    }
}

/// The message of a check stopped because memory grew too much.
pub open spec fn exceeded_message(growth: nat, threshold: nat) -> Seq<char> {
    "memory growth exceeded threshold (+"@ + decimal(growth) + " KiB > "@ + decimal(threshold)
        + " KiB)"@
}

/// The message of a finished check.
pub open spec fn final_message(passed: bool, exited_ok: bool, exit_status: Seq<char>, growth: i64, threshold: u64) -> Seq<char> {
    if passed {
        "memory stable"@
    } else if !exited_ok {
        "process exited with "@ + exit_status
    } else {
        "memory growth "@ + signed_decimal(growth as int) + " KiB exceeds threshold "@ + decimal(
            threshold as nat,
        ) + " KiB"@
    }
}

/// The state of a running leak check: the threshold, the first sample
/// (the baseline), the largest sample, and how many samples were taken.
pub struct LeakMonitor {
    pub threshold_kb: u64,
    pub baseline_kb: u64,
    pub peak_kb: u64,
    pub samples: u64,
    /// The samples observed so far, in order.
    pub observed: Ghost<Seq<u64>>,
}

impl LeakMonitor {
    /// The fields agree with the samples observed.
    pub open spec fn wf(&self) -> bool {
        &&& self.samples as nat == self.observed@.len()
        &&& self.baseline_kb == baseline_of(self.observed@)
        &&& self.peak_kb == peak_of(self.observed@)
    }

    /// A monitor that has seen no sample yet.
    pub fn new(threshold_kb: u64) -> (r: LeakMonitor)
        ensures
            r.wf(),
            r.observed@ == Seq::<u64>::empty(),
            r.threshold_kb == effective_threshold(threshold_kb),
    {
        let threshold_kb = if threshold_kb == 0 {
            DEFAULT_THRESHOLD_KB
        } else {
            threshold_kb
        };
        LeakMonitor {
            threshold_kb,
            baseline_kb: 0,
            peak_kb: 0,
            samples: 0,
            observed: Ghost(Seq::empty()),
        }
    }

    /// Records one RSS sample (in KiB). Returns the failing report when the
    /// growth over the baseline exceeds the threshold; the command is then to
    /// be killed.
    pub fn observe(&mut self, rss_kb: u64) -> (r: Option<LeakCheckReport>)
        requires
            old(self).wf(),
            old(self).samples < u64::MAX,
        ensures
            final(self).wf(),
            final(self).observed@ == old(self).observed@.push(rss_kb),
            final(self).threshold_kb == old(self).threshold_kb,
            old(self).samples == 0 ==> final(self).baseline_kb == rss_kb,
            old(self).samples > 0 ==> final(self).baseline_kb == old(self).baseline_kb,
            final(self).peak_kb >= rss_kb && final(self).peak_kb >= old(self).peak_kb,
            (r is Some) == (saturating_sub(rss_kb, final(self).baseline_kb) > final(self).threshold_kb),
            r matches Some(rep) ==> {
                &&& !rep.passed
                &&& rep.peak_rss_kb == final(self).peak_kb
                &&& rep.samples == final(self).samples
                &&& rep.growth_kb == (rss_kb - final(self).baseline_kb) as i64
                &&& rep.threshold_kb == final(self).threshold_kb
                &&& rep.message@ == exceeded_message(
                    (rss_kb - final(self).baseline_kb) as nat,
                    final(self).threshold_kb as nat,
                )
            },
    {
        let ghost before = self.observed@;
        if self.samples == 0 {
            self.baseline_kb = rss_kb;
        }
        if rss_kb > self.peak_kb {
            self.peak_kb = rss_kb;
        }
        self.samples = self.samples + 1;
        self.observed = Ghost(before.push(rss_kb));
        proof {
            let s = before.push(rss_kb);
            assert(s.drop_last() =~= before);
            if before.len() > 0 {
                assert(s[0] == before[0]);
            }
        }
        let growth = if rss_kb >= self.baseline_kb {
            rss_kb - self.baseline_kb
        } else {
            0
        };
        if growth > self.threshold_kb {
            let mut message = String::new();
            message.append("memory growth exceeded threshold (+");
            push_decimal(&mut message, growth);
            message.append(" KiB > ");
            push_decimal(&mut message, self.threshold_kb);
            message.append(" KiB)");
            assert(message@ =~= exceeded_message(growth as nat, self.threshold_kb as nat));
            Some(
                LeakCheckReport {
                    passed: false,
                    peak_rss_kb: self.peak_kb,
                    samples: self.samples,
                    growth_kb: growth as i64,
                    threshold_kb: self.threshold_kb,
                    message,
                },
            )
        } else {
            None
        }
    }

    /// The report once the command has exited: it passes when the command
    /// succeeded and the growth from the baseline to the peak is within the
    /// threshold. `exit_status` describes how the command ended.
    pub fn finish(&self, exited_ok: bool, exit_status: &str) -> (r: LeakCheckReport)
        requires
            self.wf(),
        ensures
            r.growth_kb == saturating_sub(self.peak_kb, self.baseline_kb) as i64,
            r.passed == (exited_ok && r.growth_kb <= self.threshold_kb as i64),
            r.peak_rss_kb == self.peak_kb,
            r.samples == self.samples,
            r.threshold_kb == self.threshold_kb,
            r.message@ == final_message(r.passed, exited_ok, exit_status@, r.growth_kb, self.threshold_kb),
    {
        let growth_u = if self.peak_kb >= self.baseline_kb {
            self.peak_kb - self.baseline_kb
        } else {
            0
        };
        let growth = growth_u as i64;
        let passed = exited_ok && growth <= self.threshold_kb as i64;
        let mut message = String::new();
        if passed {
            message.append("memory stable");
        } else if !exited_ok {
            message.append("process exited with ");
            message.append(exit_status);
        } else {
            message.append("memory growth ");
            push_signed_decimal(&mut message, growth);
            message.append(" KiB exceeds threshold ");
            push_decimal(&mut message, self.threshold_kb);
            message.append(" KiB");
        }
        assert(message@ =~= final_message(passed, exited_ok, exit_status@, growth, self.threshold_kb));
        LeakCheckReport {
            passed,
            peak_rss_kb: self.peak_kb,
            samples: self.samples,
            growth_kb: growth,
            threshold_kb: self.threshold_kb,
            message,
        }
    }
}

/// The baseline is the first sample observed, whatever follows it; so a
/// sample no larger than the first one shows no growth and never stops the
/// run.
pub proof fn law_baseline_is_first_sample(m: LeakMonitor, rss_kb: u64)
    requires
        m.wf(),
        m.observed@.len() > 0,
    ensures
        m.baseline_kb == m.observed@[0],
        rss_kb <= m.observed@[0] ==> saturating_sub(rss_kb, m.baseline_kb) == 0,
        rss_kb <= m.observed@[0] ==> !(saturating_sub(rss_kb, m.baseline_kb) > m.threshold_kb),
{
}

/// Observing samples one after another keeps the first as the baseline.
pub proof fn law_baseline_survives_more_samples(s: Seq<u64>, x: u64)
    requires
        s.len() > 0,
    ensures
        baseline_of(s.push(x)) == s[0],
        baseline_of(s.push(x)) == baseline_of(s),
{
    assert(s.push(x)[0] == s[0]);
}

/// Every sample observed is at most the peak.
pub proof fn law_peak_bounds_samples(m: LeakMonitor, k: int)
    requires
        m.wf(),
        0 <= k < m.observed@.len(),
    ensures
        m.observed@[k] <= m.peak_kb,
{
    lemma_peak_of(m.observed@, k);
}

proof fn lemma_peak_of(s: Seq<u64>, k: int)
    requires
        0 <= k < s.len(),
    ensures
        s[k] <= peak_of(s),
    decreases s.len(),
{
    if k < s.len() - 1 {
        lemma_peak_of(s.drop_last(), k);
        assert(s.drop_last()[k] == s[k]);
    }
}

/// The tag of the resident-set line in `/proc/<pid>/status`.
pub open spec fn vm_rss_tag() -> Seq<char> {
    seq!['V', 'm', 'R', 'S', 'S', ':']
}

/// The unit that follows the number on that line.
pub open spec fn kb_unit() -> Seq<char> {
    seq![' ', 'k', 'B']
}

/// The value on the first line that starts with `VmRSS:`, read as a number
/// of KiB once whitespace and the trailing unit are removed.
pub open spec fn vm_rss_in_lines(ls: Seq<Seq<char>>) -> Option<nat>
    decreases ls.len(),
{
    if ls.len() == 0 {
        None
    } else if has_prefix(ls[0], vm_rss_tag()) {
        parse_unsigned(
            trim_end_matches(trim(ls[0].skip(vm_rss_tag().len() as int)), kb_unit()),
            u64::MAX as nat,
        )
    } else {
        vm_rss_in_lines(ls.drop_first())
    }
}

fn starts_with_vm_rss(line: &Vec<char>) -> (r: bool)
    ensures
        r == has_prefix(line@, vm_rss_tag()),
{
    let r = line.len() >= 6 && line[0] == 'V' && line[1] == 'm' && line[2] == 'R' && line[3] == 'S'
        && line[4] == 'S' && line[5] == ':';
    assert(r ==> line@.take(6) =~= vm_rss_tag());
    assert(line@.len() >= 6 && line@.take(6) == vm_rss_tag() ==> line@.take(6)[5] == ':');
    r
}

/// Reads the resident set size (KiB) from the text of `/proc/<pid>/status`.
pub fn parse_vm_rss_kb(status: &str) -> (r: Option<u64>)
    ensures
        r == (match vm_rss_in_lines(char_lines(status@)) {
            Some(n) => Some(n as u64),
            None => None,
        }),
{
    let chars = chars_of(status);
    let lines = split_char_lines(&chars);
    let mut unit: Vec<char> = Vec::new();
    unit.push(' ');
    unit.push('k');
    unit.push('B');
    assert(unit@ =~= kb_unit());
    assert(char_lines(status@).skip(0) =~= char_lines(status@));
    let mut i: usize = 0;
    while i < lines.len()
        invariant
            i <= lines.len(),
            unit@ == kb_unit(),
            crate::text::line_views(lines@) == char_lines(status@),
            vm_rss_in_lines(char_lines(status@)) == vm_rss_in_lines(
                char_lines(status@).skip(i as int),
            ),
        decreases lines.len() - i,
    {
        let line = &lines[i];
        let ghost ls = char_lines(status@).skip(i as int);
        assert(ls[0] == line@);
        assert(ls.drop_first() =~= char_lines(status@).skip(i + 1));
        if starts_with_vm_rss(line) {
            let (a, b) = trim_bounds(line, 6, line.len());
            assert(line@.subrange(6, line.len() as int) =~= line@.skip(6));
            let e = trim_end_matches_bound(line, a, b, &unit);
            return parse_unsigned_at(line, a, e, u64::MAX);
        }
        i = i + 1;
    }
    None
}

/// Reads the resident set size (KiB) printed by `ps -o rss=`.
pub fn parse_ps_rss_kb(output: &str) -> (r: Option<u64>)
    ensures
        r == (match parse_unsigned(trim(output@), u64::MAX as nat) {
            Some(n) => Some(n as u64),
            None => None,
        }),
{
    let v = chars_of(output);
    let (a, b) = trim_bounds(&v, 0, v.len());
    assert(v@.subrange(0, v.len() as int) =~= v@);
    parse_unsigned_at(&v, a, b, u64::MAX)
}

/// A path quoted in single quotes when it holds a space or a quote.
pub open spec fn quoted_path(s: Seq<char>) -> Seq<char> {
    if has_char(s, ' ') || has_char(s, '\'') {
        seq!['\''] + s + seq!['\'']
    } else {
        s
    }
}

/// Quotes a script path for the shell command of the memory gate.
pub fn shell_escape(path: &str) -> (r: String)
    ensures
        r@ == quoted_path(path@),
{
    if text_has_char(path, ' ') || text_has_char(path, '\'') {
        proof { reveal_strlit("'"); }
        let mut s = String::new();
        s.append("'");
        s.append(path);
        s.append("'");
        assert(s@ =~= quoted_path(path@));
        s
    } else {
        path.to_owned()
    }
}

/// Why the memory gate could not start.
pub enum GateError {
    /// The script is not a file.
    ScriptNotFound(String),
}

impl GateError {
    /// The error as text.
    pub fn message(&self) -> (r: String)
        ensures
            match self {
                GateError::ScriptNotFound(p) => r@ == "script not found: "@ + p@,
            },
    {
        match self {
            GateError::ScriptNotFound(p) => {
                let mut s = String::new();
                s.append("script not found: ");
                s.append(p.as_str());
                assert(s@ =~= "script not found: "@ + p@);
                s
            },
        }
    }
}

/// The virtual-memory limit (MiB) for a gated script: 4 GiB, far above the
/// default growth threshold, so the sampled growth decides the verdict and
/// the limit only caps a single huge allocation.
pub const GATE_MEMORY_LIMIT_MB: u32 = 4096;

/// The command of the memory gate: the script run with `sh` under a
/// `ulimit -v` limit of `GATE_MEMORY_LIMIT_MB` MiB.
pub open spec fn gate_command(path: Seq<char>) -> Seq<char> {
    "ulimit -v $(("@ + decimal(GATE_MEMORY_LIMIT_MB as nat) + " * 1024)) 2>/dev/null; sh "@
        + quoted_path(path)
}

/// The command that the memory gate runs for a trajectory script, or why it
/// cannot run: the script must be a file.
pub fn gate_trajectory_script(path: &str, is_file: bool) -> (r: Result<String, GateError>)
    ensures
        is_file ==> (r matches Ok(c) && c@ == gate_command(path@)),
        !is_file ==> (r matches Err(GateError::ScriptNotFound(p)) && p@ == path@),
{
    if is_file {
        let mut c = String::new();
        c.append("ulimit -v $((");
        push_decimal(&mut c, GATE_MEMORY_LIMIT_MB as u64);
        c.append(" * 1024)) 2>/dev/null; sh ");
        let q = shell_escape(path);
        c.append(q.as_str());
        assert(c@ =~= gate_command(path@));
        Ok(c)
    } else {
        Err(GateError::ScriptNotFound(path.to_owned()))
    }
}

proof fn lemma_read_plain_quoted(s: Seq<char>, t: Seq<char>)
    requires
        !has_char(s, '\''),
    ensures
        crate::sandbox::shell_read(s + t, true) == s + crate::sandbox::shell_read(t, true),
    decreases s.len(),
{
    if s.len() == 0 {
        assert(s + t =~= t);
        assert(s + crate::sandbox::shell_read(t, true) =~= crate::sandbox::shell_read(t, true));
    } else {
        let rest = s.drop_first();
        assert(!has_char(rest, '\'')) by {
            if has_char(rest, '\'') {
                let i = choose|i: int| 0 <= i < rest.len() && rest[i] == '\'';
                assert(s[i + 1] == '\'');
            }
        }
        lemma_read_plain_quoted(rest, t);
        assert(s[0] != '\'');
        assert((s + t).drop_first() =~= rest + t);
        assert(s + crate::sandbox::shell_read(t, true) =~= seq![s[0]] + (rest + crate::sandbox::shell_read(t, true)));
    }
}

/// A path that holds a space but no quote is quoted so that the shell
/// reads it back as the same path. (A path with a quote is wrapped in
/// quotes without escaping it, and is not read back as itself.)
pub proof fn law_gate_quoting_reads_back(s: Seq<char>)
    requires
        has_char(s, ' '),
        !has_char(s, '\''),
    ensures
        crate::sandbox::shell_read(quoted_path(s), false) == s,
{
    let w = seq!['\''] + s + seq!['\''];
    assert(w.drop_first() =~= s + seq!['\'']);
    lemma_read_plain_quoted(s, seq!['\'']);
    assert(seq!['\''].drop_first() =~= Seq::<char>::empty());
    assert(crate::sandbox::shell_read(seq!['\''], true) == crate::sandbox::shell_read(Seq::<char>::empty(), false));
    assert(s + Seq::<char>::empty() =~= s);
}

/// Where the resident set of process `pid` is read on Linux; none for pid 0,
/// which names no process that was started.
pub fn proc_status_path(pid: u32) -> (r: Option<String>)
    ensures
        pid == 0 ==> r is None,
        pid != 0 ==> (r matches Some(p) && p@ == "/proc/"@ + decimal(pid as nat) + "/status"@),
{
    if pid == 0 {
        return None;
    }
    let mut p = String::new();
    p.append("/proc/");
    push_decimal(&mut p, pid as u64);
    p.append("/status");
    assert(p@ =~= "/proc/"@ + decimal(pid as nat) + "/status"@);
    Some(p)
}

/// The `-p` argument of `ps` for process `pid`; none for pid 0, which names
/// no process that was started.
pub fn ps_pid_argument(pid: u32) -> (r: Option<String>)
    ensures
        pid == 0 ==> r is None,
        pid != 0 ==> (r matches Some(p) && p@ == decimal(pid as nat)),
{
    if pid == 0 {
        return None;
    }
    Some(crate::text::decimal_string(pid as u64))
}

} // verus!
