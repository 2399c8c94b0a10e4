//! The logic behind the tools of the MCP server: pattern-based security
//! linting of code snippets, and the choice between a manifest path and
//! inline manifest content.
use vstd::prelude::*;
use vstd::utf8::{encode_scalar, encode_utf8, has_width_1_encoding};
use crate::text::{
    byte_lines, find, find_bytes, lemma_find_from_bounds, line_views, same_text, split_byte_lines,
    starts_after_whitespace_with, strip_cr, lines_from, trim_start,
};

verus! {

/// One linting rule: a pattern searched for in each line, the kind of
/// construct it flags, and the message reported for it.
pub struct LintRule {
    pub pattern: &'static str,
    pub kind: &'static str,
    pub message: &'static str,
}

/// A rule as text: pattern, kind and message.
pub type RuleText = (Seq<char>, Seq<char>, Seq<char>);

impl LintRule {
    pub open spec fn text(&self) -> RuleText {
        (self.pattern@, self.kind@, self.message@)
    }
}

/// The texts of a list of rules.
pub open spec fn rule_texts(v: Seq<LintRule>) -> Seq<RuleText> {
    v.map_values(|r: LintRule| r.text())
}

/// A warning: 1-based line, 1-based byte column, message and severity.
pub struct LintWarning {
    pub line: usize,
    pub column: usize,
    pub message: String,
    pub severity: String,
}

/// A warning as line, column and message.
pub type Hit = (nat, nat, Seq<char>);

impl LintWarning {
    pub open spec fn hit(&self) -> Hit {
        (self.line as nat, self.column as nat, self.message@)
    }
}

/// The line, column and message of each warning.
pub open spec fn hits_of(v: Seq<LintWarning>) -> Seq<Hit> {
    v.map_values(|w: LintWarning| w.hit())
}

/// The report of a lint run.
pub struct LintReport {
    pub warnings: Vec<LintWarning>,
    pub language: String,
}

/// Why linting refused a request.
pub enum LintError {
    /// The language is neither python nor javascript (nor an alias of them).
    UnsupportedLanguage(String),
}

impl LintError {
    /// The error as text.
    pub fn message(&self) -> (r: String)
        ensures
            match self {
                LintError::UnsupportedLanguage(l) => r@ == "unsupported language: "@ + l@
                    + " (supported: python, javascript)"@,
            },
    {
        match self {
            LintError::UnsupportedLanguage(l) => {
                let mut s = String::new();
                s.append("unsupported language: ");
                s.append(l.as_str());
                s.append(" (supported: python, javascript)");
                assert(s@ =~= "unsupported language: "@ + l@ + " (supported: python, javascript)"@);
                s
            },
        }
    }
}

/// The rules for Python code.
pub open spec fn python_rules() -> Seq<RuleText> {
    seq![
        ("eval"@, "call"@, "Dangerous eval() \u{2014} arbitrary code execution risk"@),
        ("exec"@, "call"@, "Dangerous exec() \u{2014} arbitrary code execution risk"@),
        ("os.system"@, "call"@, "Shell injection risk via os.system()"@),
        ("os.popen"@, "call"@, "Shell injection risk via os.popen()"@),
        ("pickle.loads"@, "call"@, "Insecure deserialization via pickle.loads()"@),
        ("pickle.load"@, "call"@, "Insecure deserialization via pickle.load()"@),
    ]
}

/// The rules for JavaScript and TypeScript code.
pub open spec fn javascript_rules() -> Seq<RuleText> {
    seq![
        ("eval("@, "call"@, "Dangerous eval() \u{2014} arbitrary code execution risk"@),
        (".innerHTML"@, "assignment"@, "XSS risk via innerHTML assignment"@),
        ("new Function("@, "call"@, "Dangerous Function constructor usage"@),
    ]
}

/// The rules for a language name, if the language is supported.
pub open spec fn rules_for(language: Seq<char>) -> Option<Seq<RuleText>> {
    if language == "python"@ || language == "py"@ {
        Some(python_rules())
    } else if language == "javascript"@ || language == "js"@ || language == "typescript"@
        || language == "ts"@ {
        Some(javascript_rules())
    } else {
        None
    }
}

/// The hits of one rule over the first `n` lines, in line order: the first
/// occurrence of the pattern in a line, if any, with its byte column.
pub open spec fn rule_hits(lines: Seq<Seq<u8>>, pattern: Seq<u8>, message: Seq<char>, n: int) -> Seq<
    Hit,
>
    decreases n,
{
    if n <= 0 {
        seq![]
    } else {
        let prev = rule_hits(lines, pattern, message, n - 1);
        match find(lines[n - 1], pattern) {
            Some(c) => prev.push((n as nat, (c + 1) as nat, message)),
            None => prev,
        }
    }
}

/// The hits of the first `m` rules, rule after rule.
pub open spec fn all_hits(lines: Seq<Seq<u8>>, rules: Seq<RuleText>, m: int) -> Seq<Hit>
    decreases m,
{
    if m <= 0 {
        seq![]
    } else {
        all_hits(lines, rules, m - 1) + rule_hits(
            lines,
            encode_utf8(rules[m - 1].0),
            rules[m - 1].2,
            lines.len() as int,
        )
    }
}

/// Whether `a` comes no later than `b` by line, then column.
pub open spec fn position_le(a: Hit, b: Hit) -> bool {
    a.0 < b.0 || (a.0 == b.0 && a.1 <= b.1)
}

/// `s` with `w` placed after every element that comes no later than it.
pub open spec fn insert_by_position(s: Seq<Hit>, w: Hit) -> Seq<Hit>
    decreases s.len(),
{
    if s.len() == 0 {
        seq![w]
    } else if position_le(s.last(), w) {
        s.push(w)
    } else {
        insert_by_position(s.drop_last(), w).push(s.last())
    }
}

/// The stable sort of `s` by line, then column.
pub open spec fn sort_by_position(s: Seq<Hit>) -> Seq<Hit>
    decreases s.len(),
{
    if s.len() == 0 {
        s
    } else {
        insert_by_position(sort_by_position(s.drop_last()), s.last())
    }
}

/// `s` with every element dropped that equals the last one kept before it.
pub open spec fn dedup_hits(s: Seq<Hit>) -> Seq<Hit>
    decreases s.len(),
{
    if s.len() == 0 {
        s
    } else {
        let d = dedup_hits(s.drop_last());
        if d.len() > 0 && d.last() == s.last() {
            d
        } else {
            d.push(s.last())
        }
    }
}

/// The warnings that linting `code` (its UTF-8 bytes) with `rules` reports.
pub open spec fn lint_hits(code: Seq<u8>, rules: Seq<RuleText>) -> Seq<Hit> {
    let lines = byte_lines(code);
    dedup_hits(sort_by_position(all_hits(lines, rules, rules.len() as int)))
}

fn python_rule_table() -> (r: Vec<LintRule>)
    ensures
        rule_texts(r@) == python_rules(),
{
    let mut v: Vec<LintRule> = Vec::new();
    v.push(LintRule { pattern: "eval", kind: "call", message: "Dangerous eval() \u{2014} arbitrary code execution risk" });
    v.push(LintRule { pattern: "exec", kind: "call", message: "Dangerous exec() \u{2014} arbitrary code execution risk" });
    v.push(LintRule { pattern: "os.system", kind: "call", message: "Shell injection risk via os.system()" });
    v.push(LintRule { pattern: "os.popen", kind: "call", message: "Shell injection risk via os.popen()" });
    v.push(LintRule { pattern: "pickle.loads", kind: "call", message: "Insecure deserialization via pickle.loads()" });
    v.push(LintRule { pattern: "pickle.load", kind: "call", message: "Insecure deserialization via pickle.load()" });
    assert(rule_texts(v@) =~= python_rules());
    v
}

fn javascript_rule_table() -> (r: Vec<LintRule>)
    ensures
        rule_texts(r@) == javascript_rules(),
{
    let mut v: Vec<LintRule> = Vec::new();
    v.push(LintRule { pattern: "eval(", kind: "call", message: "Dangerous eval() \u{2014} arbitrary code execution risk" });
    v.push(LintRule { pattern: ".innerHTML", kind: "assignment", message: "XSS risk via innerHTML assignment" });
    v.push(LintRule { pattern: "new Function(", kind: "call", message: "Dangerous Function constructor usage" });
    assert(rule_texts(v@) =~= javascript_rules());
    v
}

/// The rules for a language, if it is supported.
pub fn lint_rules(language: &str) -> (r: Option<Vec<LintRule>>)
    ensures
        match r {
            Some(v) => rules_for(language@) == Some(rule_texts(v@)),
            None => rules_for(language@) is None,
        },
{
    if same_text(language, "python") || same_text(language, "py") {
        Some(python_rule_table())
    } else if same_text(language, "javascript") || same_text(language, "js") || same_text(
        language,
        "typescript",
    ) || same_text(language, "ts") {
        Some(javascript_rule_table())
    } else {
        None
    }
}

proof fn lemma_insert_at(s: Seq<Hit>, w: Hit, j: int)
    requires
        0 <= j <= s.len(),
        forall|k: int| j <= k < s.len() ==> !position_le(#[trigger] s[k], w),
        j > 0 ==> position_le(s[j - 1], w),
    ensures
        insert_by_position(s, w) == s.take(j).push(w) + s.skip(j),
    decreases s.len(),
{
    if s.len() == 0 {
        assert(s.take(j).push(w) + s.skip(j) =~= seq![w]);
    } else if j == s.len() {
        assert(s.take(j).push(w) + s.skip(j) =~= s.push(w));
    } else {
        let t = s.drop_last();
        assert forall|k: int| j <= k < t.len() implies !position_le(#[trigger] t[k], w) by {
            assert(t[k] == s[k]);
        }
        if j > 0 {
            assert(t[j - 1] == s[j - 1]);
        }
        lemma_insert_at(t, w, j);
        assert(!position_le(s[s.len() - 1], w));
        assert((t.take(j).push(w) + t.skip(j)).push(s.last()) =~= s.take(j).push(w) + s.skip(j));
    }
}

fn warning_le(a: &LintWarning, b: &LintWarning) -> (r: bool)
    ensures
        r == position_le(a.hit(), b.hit()),
{
    a.line < b.line || (a.line == b.line && a.column <= b.column)
}

fn same_warning(a: &LintWarning, b: &LintWarning) -> (r: bool)
    ensures
        r == (a.hit() == b.hit()),
{
    a.line == b.line && a.column == b.column && same_text(a.message.as_str(), b.message.as_str())
}

/// Sorts warnings by line, then column, keeping the order of equal positions.
fn sort_warnings(raw: Vec<LintWarning>) -> (r: Vec<LintWarning>)
    requires
        forall|k: int| 0 <= k < raw.len() ==> #[trigger] raw@[k].severity@ == "warning"@,
    ensures
        hits_of(r@) == sort_by_position(hits_of(raw@)),
        forall|k: int| 0 <= k < r.len() ==> #[trigger] r@[k].severity@ == "warning"@,
{
    let mut sorted: Vec<LintWarning> = Vec::new();
    let mut rest = raw;
    let ghost all = rest@;
    assert(hits_of(all).take(0) =~= Seq::<Hit>::empty());
    assert(hits_of(sorted@) =~= Seq::<Hit>::empty());
    let mut i: usize = 0;
    let n = rest.len();
    while i < n
        invariant
            n == all.len(),
            i <= n,
            hits_of(sorted@) == sort_by_position(hits_of(all).take(i as int)),
            forall|k: int| 0 <= k < sorted.len() ==> #[trigger] sorted@[k].severity@ == "warning"@,
            forall|k: int| 0 <= k < all.len() ==> #[trigger] all[k].severity@ == "warning"@,
            rest@ == all.skip(i as int),
        decreases n - i,
    {
        let ghost rest_before = rest@;
        let w = rest.remove(0);
        assert(w == all[i as int]);
        assert(rest@ =~= all.skip(i + 1));
        let mut j = sorted.len();
        while j > 0 && !warning_le(&sorted[j - 1], &w)
            invariant
                j <= sorted.len(),
                forall|k: int| j <= k < sorted.len() ==> !position_le(#[trigger] hits_of(sorted@)[k], w.hit()),
            decreases j,
        {
            j = j - 1;
        }
        let ghost before = hits_of(sorted@);
        proof {
            lemma_insert_at(before, w.hit(), j as int);
            assert(hits_of(all).take(i + 1).drop_last() =~= hits_of(all).take(i as int));
            assert(hits_of(all).take(i + 1).last() == w.hit());
        }
        sorted.insert(j, w);
        assert(hits_of(sorted@) =~= before.take(j as int).push(all[i as int].hit()) + before.skip(j as int));
        i = i + 1;
    }
    assert(hits_of(all).take(n as int) =~= hits_of(all));
    sorted
}

/// Drops each warning equal in line, column and message to the last one kept.
fn dedup_warnings(v: Vec<LintWarning>) -> (r: Vec<LintWarning>)
    requires
        forall|k: int| 0 <= k < v.len() ==> #[trigger] v@[k].severity@ == "warning"@,
    ensures
        hits_of(r@) == dedup_hits(hits_of(v@)),
        forall|k: int| 0 <= k < r.len() ==> #[trigger] r@[k].severity@ == "warning"@,
{
    let mut out: Vec<LintWarning> = Vec::new();
    let mut rest = v;
    let ghost all = rest@;
    let n = rest.len();
    let mut i: usize = 0;
    assert(hits_of(all).take(0) =~= Seq::<Hit>::empty());
    assert(hits_of(out@) =~= Seq::<Hit>::empty());
    while i < n
        invariant
            n == all.len(),
            i <= n,
            hits_of(out@) == dedup_hits(hits_of(all).take(i as int)),
            forall|k: int| 0 <= k < out.len() ==> #[trigger] out@[k].severity@ == "warning"@,
            forall|k: int| 0 <= k < all.len() ==> #[trigger] all[k].severity@ == "warning"@,
            rest@ == all.skip(i as int),
        decreases n - i,
    {
        let w = rest.remove(0);
        assert(w == all[i as int]);
        assert(rest@ =~= all.skip(i + 1));
        proof {
            assert(hits_of(all).take(i + 1).drop_last() =~= hits_of(all).take(i as int));
            assert(hits_of(all).take(i + 1).last() == w.hit());
        }
        let keep = if out.len() == 0 {
            true
        } else {
            !same_warning(&out[out.len() - 1], &w)
        };
        let ghost before = hits_of(out@);
        if keep {
            out.push(w);
            assert(hits_of(out@) =~= before.push(all[i as int].hit()));
        }
        i = i + 1;
    }
    assert(hits_of(all).take(n as int) =~= hits_of(all));
    out
}

/// Runs pattern-based security linting over a code snippet: every rule of the
/// language is searched for in every line, the first occurrence in a line
/// becomes a warning, and the warnings are ordered by line and column with
/// repeated equal warnings dropped.
pub fn lint_code(code: &str, language: &str) -> (r: Result<Vec<LintWarning>, LintError>)
    ensures
        match rules_for(language@) {
            None => r matches Err(LintError::UnsupportedLanguage(l)) && l@ == language@,
            Some(rules) => r matches Ok(ws) && hits_of(ws@) == lint_hits(encode_utf8(code@), rules)
                && forall|k: int| 0 <= k < ws.len() ==> #[trigger] ws@[k].severity@ == "warning"@,
        },
{
    let rules = match lint_rules(language) {
        Some(rules) => rules,
        None => {
            return Err(LintError::UnsupportedLanguage(language.to_owned()));
        },
    };
    let ghost rt = rule_texts(rules@);
    let bytes = code.as_bytes();
    let lines = split_byte_lines(bytes);
    let ghost ls = line_views(lines@);
    let mut raw: Vec<LintWarning> = Vec::new();
    let mut m: usize = 0;
    assert(hits_of(raw@) =~= all_hits(ls, rt, 0));
    while m < rules.len()
        invariant
            m <= rules.len(),
            rt == rule_texts(rules@),
            ls == line_views(lines@),
            ls.len() == lines.len(),
            hits_of(raw@) == all_hits(ls, rt, m as int),
            forall|k: int| 0 <= k < raw.len() ==> #[trigger] raw@[k].severity@ == "warning"@,
        decreases rules.len() - m,
    {
        let rule = &rules[m];
        let pattern = rule.pattern.as_bytes();
        let ghost base = hits_of(raw@);
        let mut i: usize = 0;
        assert(base + rule_hits(ls, pattern@, rule.message@, 0) =~= base);
        while i < lines.len()
            invariant
                m < rules.len(),
                rule == &rules[m as int],
                i <= lines.len(),
                ls == line_views(lines@),
                ls.len() == lines.len(),
                pattern@ == encode_utf8(rule.pattern@),
                hits_of(raw@) == base + rule_hits(ls, pattern@, rule.message@, i as int),
                forall|k: int| 0 <= k < raw.len() ==> #[trigger] raw@[k].severity@ == "warning"@,
            decreases lines.len() - i,
        {
            assert(lines@[i as int]@ == ls[i as int]);
            match find_bytes(&lines[i], pattern) {
                Some(c) => {
                    let w = LintWarning {
                        line: i + 1,
                        column: c + 1,
                        message: rule.message.to_owned(),
                        severity: "warning".to_owned(),
                    };
                    let ghost prev = hits_of(raw@);
                    raw.push(w);
                    assert(hits_of(raw@) =~= prev.push(((i + 1) as nat, (c + 1) as nat, rule.message@)));
                },
                None => {},
            }
            i = i + 1;
        }
        assert(rt[m as int] == rule.text());
        assert(all_hits(ls, rt, m + 1) == all_hits(ls, rt, m as int) + rule_hits(
            ls,
            encode_utf8(rt[m as int].0),
            rt[m as int].2,
            ls.len() as int,
        ));
        m = m + 1;
    }
    let sorted = sort_warnings(raw);
    let out = dedup_warnings(sorted);
    Ok(out)
}

/// The MCP server: it serves the scanning, sandbox and linting tools with
/// the daemon's configuration.
pub struct ImmuneMcp {
    pub config: crate::config::Config,
}

/// Where the manifest or script of a tool call comes from: a path, or inline
/// content to be written to a file of the given name.
pub enum ManifestSource {
    Path(String),
    Content { file_name: String, content: String },
}

/// Why a tool call's source could not be resolved.
pub enum ResolveError {
    /// Neither or both of the path and the content were given.
    InvalidParams,
}

impl ResolveError {
    /// The error as text.
    pub fn message(&self) -> (r: String)
        ensures
            r@ == "provide exactly one of 'path' or 'content'"@,
    {
        "provide exactly one of 'path' or 'content'".to_owned()
    }
}

/// The file name that inline content is given: `package.json` when it
/// starts (after whitespace) with `{`, `Cargo.toml` otherwise.
pub open spec fn guessed_file_name(content: Seq<char>) -> Seq<char> {
    if trim_start(content).len() > 0 && trim_start(content)[0] == '{' {
        "package.json"@
    } else {
        "Cargo.toml"@
    }
}

/// Chooses the source of a tool call: exactly one of a path and inline
/// content must be given. The extension hint is not used.
pub fn resolve_path_or_content(path: Option<String>, content: Option<String>, ext_hint: Option<&str>) -> (r: Result<ManifestSource, ResolveError>)
    ensures
        match (path, content) {
            (Some(p), None) => r matches Ok(ManifestSource::Path(q)) && q@ == p@,
            (None, Some(c)) => r matches Ok(ManifestSource::Content { file_name, content: d })
                && file_name@ == guessed_file_name(c@) && d@ == c@,
            _ => r matches Err(ResolveError::InvalidParams),
        },
{
    match (path, content) {
        (Some(p), None) => Ok(ManifestSource::Path(p)),
        (None, Some(c)) => {
            let file_name = if starts_after_whitespace_with(c.as_str(), '{') {
                "package.json".to_owned()
            } else {
                "Cargo.toml".to_owned()
            };
            Ok(ManifestSource::Content { file_name, content: c })
        },
        _ => Err(ResolveError::InvalidParams),
    }
}

/// The instructions that the MCP server announces.
pub open spec fn instructions_text() -> Seq<char> {
    "Agent-Immune MCP server provides security scanning tools:\n- immune_scan_manifest: Scan Cargo.toml / package.json for CVEs via OSV.dev\n- immune_sandbox_run:  Execute an untrusted script in an isolated subprocess\n- immune_lint_ast:     Pattern-based security linting for python / javascript"@
}

/// The instructions that the MCP server announces.
pub fn server_instructions() -> (r: String)
    ensures
        r@ == instructions_text(),
{
    "Agent-Immune MCP server provides security scanning tools:\n- immune_scan_manifest: Scan Cargo.toml / package.json for CVEs via OSV.dev\n- immune_sandbox_run:  Execute an untrusted script in an isolated subprocess\n- immune_lint_ast:     Pattern-based security linting for python / javascript".to_owned()
}

/// Whether the hits are ordered by line, then column.
pub open spec fn ordered_by_position(s: Seq<Hit>) -> bool {
    forall|i: int, j: int| 0 <= i < j < s.len() ==> position_le(#[trigger] s[i], #[trigger] s[j])
}

proof fn lemma_insert_elements(s: Seq<Hit>, w: Hit)
    ensures
        insert_by_position(s, w).len() == s.len() + 1,
        forall|k: int| 0 <= k < insert_by_position(s, w).len() ==> (#[trigger] insert_by_position(s, w)[k] == w
            || s.contains(insert_by_position(s, w)[k])),
    decreases s.len(),
{
    if s.len() > 0 && !position_le(s.last(), w) {
        let t = s.drop_last();
        lemma_insert_elements(t, w);
        let r = insert_by_position(s, w);
        assert forall|k: int| 0 <= k < r.len() implies (#[trigger] r[k] == w || s.contains(r[k])) by {
            if k < r.len() - 1 {
                assert(r[k] == insert_by_position(t, w)[k]);
                if r[k] != w {
                    let m = choose|m: int| 0 <= m < t.len() && t[m] == r[k];
                    assert(s[m] == r[k]);
                }
            } else {
                assert(s[s.len() - 1] == r[k]);
            }
        }
    } else if s.len() > 0 {
        let r = insert_by_position(s, w);
        assert forall|k: int| 0 <= k < r.len() implies (#[trigger] r[k] == w || s.contains(r[k])) by {
            if k < s.len() {
                assert(s[k] == r[k]);
            }
        }
    }
}

proof fn lemma_insert_ordered(s: Seq<Hit>, w: Hit)
    requires
        ordered_by_position(s),
    ensures
        ordered_by_position(insert_by_position(s, w)),
    decreases s.len(),
{
    if s.len() > 0 {
        if position_le(s.last(), w) {
            let r = s.push(w);
            assert forall|i: int, j: int| 0 <= i < j < r.len() implies position_le(#[trigger] r[i], #[trigger] r[j]) by {
                if j == s.len() {
                    assert(position_le(s[i], s[s.len() - 1]) || i == s.len() - 1);
                }
            }
        } else {
            let t = s.drop_last();
            assert(ordered_by_position(t)) by {
                assert forall|i: int, j: int| 0 <= i < j < t.len() implies position_le(#[trigger] t[i], #[trigger] t[j]) by {
                    assert(t[i] == s[i] && t[j] == s[j]);
                }
            }
            lemma_insert_ordered(t, w);
            lemma_insert_elements(t, w);
            let u = insert_by_position(t, w);
            let r = u.push(s.last());
            assert forall|i: int, j: int| 0 <= i < j < r.len() implies position_le(#[trigger] r[i], #[trigger] r[j]) by {
                if j == u.len() {
                    assert(r[i] == u[i]);
                    if u[i] != w {
                        let m = choose|m: int| 0 <= m < t.len() && t[m] == u[i];
                        assert(s[m] == u[i]);
                        assert(position_le(s[m], s[s.len() - 1]));
                    }
                } else {
                    assert(r[i] == u[i] && r[j] == u[j]);
                }
            }
        }
    }
}

proof fn lemma_sort_ordered(s: Seq<Hit>)
    ensures
        ordered_by_position(sort_by_position(s)),
        sort_by_position(s).len() == s.len(),
        forall|k: int| 0 <= k < sort_by_position(s).len() ==> s.contains(#[trigger] sort_by_position(s)[k]),
    decreases s.len(),
{
    if s.len() > 0 {
        let t = s.drop_last();
        lemma_sort_ordered(t);
        lemma_insert_ordered(sort_by_position(t), s.last());
        lemma_insert_elements(sort_by_position(t), s.last());
        let r = sort_by_position(s);
        assert forall|k: int| 0 <= k < r.len() implies s.contains(#[trigger] r[k]) by {
            if r[k] == s.last() {
                assert(s[s.len() - 1] == r[k]);
            } else {
                let m = choose|m: int| 0 <= m < sort_by_position(t).len() && sort_by_position(t)[m] == r[k];
                let m2 = choose|m2: int| 0 <= m2 < t.len() && t[m2] == sort_by_position(t)[m];
                assert(s[m2] == r[k]);
            }
        }
    }
}

proof fn lemma_dedup_facts(s: Seq<Hit>)
    ensures
        ordered_by_position(s) ==> ordered_by_position(dedup_hits(s)),
        forall|k: int| 0 <= k < dedup_hits(s).len() ==> s.contains(#[trigger] dedup_hits(s)[k]),
        forall|k: int| 0 <= k < dedup_hits(s).len() - 1 ==> #[trigger] dedup_hits(s)[k] != dedup_hits(s)[k + 1],
    decreases s.len(),
{
    if s.len() > 0 {
        let t = s.drop_last();
        lemma_dedup_facts(t);
        let d = dedup_hits(t);
        let r = dedup_hits(s);
        assert forall|k: int| 0 <= k < r.len() implies s.contains(#[trigger] r[k]) by {
            if k < d.len() {
                assert(r[k] == d[k]);
                let m = choose|m: int| 0 <= m < t.len() && t[m] == d[k];
                assert(s[m] == r[k]);
            } else {
                assert(s[s.len() - 1] == r[k]);
            }
        }
        assert forall|k: int| 0 <= k < r.len() - 1 implies #[trigger] r[k] != r[k + 1] by {
            if k + 1 < d.len() {
                assert(r[k] == d[k] && r[k + 1] == d[k + 1]);
            }
        }
        if ordered_by_position(s) {
            assert(ordered_by_position(t)) by {
                assert forall|i: int, j: int| 0 <= i < j < t.len() implies position_le(#[trigger] t[i], #[trigger] t[j]) by {
                    assert(t[i] == s[i] && t[j] == s[j]);
                }
            }
            assert forall|i: int, j: int| 0 <= i < j < r.len() implies position_le(#[trigger] r[i], #[trigger] r[j]) by {
                if j < d.len() {
                    assert(r[i] == d[i] && r[j] == d[j]);
                } else {
                    assert(r[i] == d[i]);
                    let m = choose|m: int| 0 <= m < t.len() && t[m] == d[i];
                    assert(s[m] == d[i]);
                    assert(r[j] == s[s.len() - 1]);
                }
            }
        }
    }
}

/// The warnings of a lint run are ordered by line, then column.
pub proof fn law_lint_ordered(code: Seq<u8>, rules: Seq<RuleText>, i: int, j: int)
    requires
        0 <= i < j < lint_hits(code, rules).len(),
    ensures
        position_le(lint_hits(code, rules)[i], lint_hits(code, rules)[j]),
{
    let raw = all_hits(byte_lines(code), rules, rules.len() as int);
    lemma_sort_ordered(raw);
    lemma_dedup_facts(sort_by_position(raw));
}

/// No two neighbouring warnings of a lint run are equal.
pub proof fn law_lint_no_repeats(code: Seq<u8>, rules: Seq<RuleText>, i: int)
    requires
        0 <= i < lint_hits(code, rules).len() - 1,
    ensures
        lint_hits(code, rules)[i] != lint_hits(code, rules)[i + 1],
{
    let raw = all_hits(byte_lines(code), rules, rules.len() as int);
    lemma_dedup_facts(sort_by_position(raw));
}

proof fn lemma_rule_hits_located(lines: Seq<Seq<u8>>, pattern: Seq<u8>, message: Seq<char>, n: int, k: int)
    requires
        0 <= n <= lines.len(),
        0 <= k < rule_hits(lines, pattern, message, n).len(),
    ensures
        ({
            let h = rule_hits(lines, pattern, message, n)[k];
            &&& 1 <= h.0 <= n
            &&& h.1 >= 1
            &&& find(lines[h.0 - 1], pattern) == Some(h.1 - 1)
            &&& h.2 == message
        }),
    decreases n,
{
    if n > 0 {
        lemma_find_from_bounds(lines[n - 1], pattern, 0);
        let prev = rule_hits(lines, pattern, message, n - 1);
        if k < prev.len() {
            lemma_rule_hits_located(lines, pattern, message, n - 1, k);
            match find(lines[n - 1], pattern) {
                Some(c) => assert(rule_hits(lines, pattern, message, n)[k] == prev[k]),
                None => {},
            }
        }
    }
}

proof fn lemma_all_hits_located(lines: Seq<Seq<u8>>, rules: Seq<RuleText>, m: int, k: int)
    requires
        0 <= m <= rules.len(),
        0 <= k < all_hits(lines, rules, m).len(),
    ensures
        exists|r: int| #![trigger rules[r]] 0 <= r < m && {
            let h = all_hits(lines, rules, m)[k];
            &&& 1 <= h.0 <= lines.len()
            &&& h.1 >= 1
            &&& find(lines[h.0 - 1], encode_utf8(rules[r].0)) == Some(h.1 - 1)
            &&& h.2 == rules[r].2
        },
    decreases m,
{
    if m > 0 {
        let prev = all_hits(lines, rules, m - 1);
        let cur = rule_hits(lines, encode_utf8(rules[m - 1].0), rules[m - 1].2, lines.len() as int);
        if k < prev.len() {
            lemma_all_hits_located(lines, rules, m - 1, k);
            assert(all_hits(lines, rules, m)[k] == prev[k]);
        } else {
            lemma_rule_hits_located(lines, encode_utf8(rules[m - 1].0), rules[m - 1].2, lines.len() as int, k - prev.len());
            assert(all_hits(lines, rules, m)[k] == cur[k - prev.len()]);
        }
    }
}

/// Every warning of a lint run marks the first occurrence of one rule's
/// pattern in its line: the 1-based line and byte column, with that rule's
/// message.
pub proof fn law_lint_warning_located(code: Seq<u8>, rules: Seq<RuleText>, k: int)
    requires
        0 <= k < lint_hits(code, rules).len(),
    ensures
        exists|r: int| #![trigger rules[r]] 0 <= r < rules.len() && {
            let h = lint_hits(code, rules)[k];
            &&& 1 <= h.0 <= byte_lines(code).len()
            &&& h.1 >= 1
            &&& find(byte_lines(code)[h.0 - 1], encode_utf8(rules[r].0)) == Some(h.1 - 1)
            &&& h.2 == rules[r].2
        },
{
    let lines = byte_lines(code);
    let raw = all_hits(lines, rules, rules.len() as int);
    lemma_sort_ordered(raw);
    lemma_dedup_facts(sort_by_position(raw));
    let h = lint_hits(code, rules)[k];
    let m1 = choose|m1: int| 0 <= m1 < sort_by_position(raw).len() && sort_by_position(raw)[m1] == h;
    let m2 = choose|m2: int| 0 <= m2 < raw.len() && raw[m2] == sort_by_position(raw)[m1];
    lemma_all_hits_located(lines, rules, rules.len() as int, m2);
}

/// A hit one line further down.
pub open spec fn shift_hit(h: Hit) -> Hit {
    ((h.0 + 1) as nat, h.1, h.2)
}

/// The hits, each one line further down.
pub open spec fn shift_lines(s: Seq<Hit>) -> Seq<Hit> {
    s.map_values(|h: Hit| shift_hit(h))
}

proof fn lemma_encode_concat(a: Seq<char>, b: Seq<char>)
    ensures
        encode_utf8(a + b) == encode_utf8(a) + encode_utf8(b),
    decreases a.len(),
{
    if a.len() == 0 {
        assert(a + b =~= b);
        assert(encode_utf8(a) + encode_utf8(b) =~= encode_utf8(b));
    } else {
        lemma_encode_concat(a.drop_first(), b);
        assert((a + b).drop_first() =~= a.drop_first() + b);
        assert((a + b)[0] == a[0]);
        assert(encode_utf8(a) + encode_utf8(b) =~= encode_scalar(a[0] as u32) + (encode_utf8(
            a.drop_first(),
        ) + encode_utf8(b)));
    }
}

proof fn lemma_high_bit(y: u8)
    by (bit_vector)
    ensures
        (0x80u8 | y) >= 0x80u8,
        (0xC0u8 | y) >= 0x80u8,
        (0xE0u8 | y) >= 0x80u8,
        (0xF0u8 | y) >= 0x80u8,
{
}

proof fn lemma_low_byte(s: u32)
    by (bit_vector)
    requires
        s <= 0x7F,
    ensures
        (s & 0x7F) as u8 == s,
{
}

proof fn lemma_scalar_no_line_bytes(c: char)
    requires
        c != '\n',
        c != '\r',
    ensures
        forall|k: int| 0 <= k < encode_scalar(c as u32).len() ==> #[trigger] encode_scalar(c as u32)[k] != 10u8
            && encode_scalar(c as u32)[k] != 13u8,
{
    let s = c as u32;
    if s == 10 || s == 13 {
        vstd::utf8::char_u32_cast(c, s);
        assert(false);
    }
    lemma_high_bit(((s >> 6) & 0x1F) as u8);
    lemma_high_bit(((s >> 12) & 0x0F) as u8);
    lemma_high_bit(((s >> 18) & 0x7) as u8);
    lemma_high_bit((s & 0x3F) as u8);
    lemma_high_bit(((s >> 6) & 0x3F) as u8);
    lemma_high_bit(((s >> 12) & 0x3F) as u8);
    if has_width_1_encoding(s) {
        lemma_low_byte(s);
    }
}

proof fn lemma_encode_no_line_bytes(e: Seq<char>)
    requires
        forall|i: int| 0 <= i < e.len() ==> e[i] != '\n' && e[i] != '\r',
    ensures
        forall|k: int| 0 <= k < encode_utf8(e).len() ==> #[trigger] encode_utf8(e)[k] != 10u8
            && encode_utf8(e)[k] != 13u8,
    decreases e.len(),
{
    if e.len() > 0 {
        let rest = e.drop_first();
        assert forall|i: int| 0 <= i < rest.len() implies rest[i] != '\n' && rest[i] != '\r' by {
            assert(rest[i] == e[i + 1]);
        }
        lemma_encode_no_line_bytes(rest);
        assert(e[0] != '\n' && e[0] != '\r');
        lemma_scalar_no_line_bytes(e[0]);
        let first = encode_scalar(e[0] as u32);
        assert forall|k: int| 0 <= k < encode_utf8(e).len() implies #[trigger] encode_utf8(e)[k] != 10u8
            && encode_utf8(e)[k] != 13u8 by {
            if k < first.len() {
                assert(encode_utf8(e)[k] == first[k]);
            } else {
                assert(encode_utf8(e)[k] == encode_utf8(rest)[k - first.len()]);
            }
        }
    }
}

proof fn lemma_lines_after_first(e: Seq<u8>, rest: Seq<u8>, cur: Seq<u8>)
    requires
        forall|k: int| 0 <= k < e.len() ==> e[k] != 10u8,
    ensures
        lines_from(e + seq![10u8] + rest, cur, 10u8, 13u8) == seq![strip_cr(cur + e, 13u8)]
            + lines_from(rest, seq![], 10u8, 13u8),
    decreases e.len(),
{
    let w = e + seq![10u8] + rest;
    if e.len() == 0 {
        assert(w[0] == 10u8);
        assert(w.drop_first() =~= rest);
        assert(cur + e =~= cur);
    } else {
        let e2 = e.drop_first();
        assert forall|k: int| 0 <= k < e2.len() implies e2[k] != 10u8 by {
            assert(e2[k] == e[k + 1]);
        }
        lemma_lines_after_first(e2, rest, cur.push(e[0]));
        assert(w[0] == e[0]);
        assert(w.drop_first() =~= e2 + seq![10u8] + rest);
        assert(cur.push(e[0]) + e2 =~= cur + e);
    }
}

proof fn lemma_rule_hits_shift(e: Seq<u8>, lines: Seq<Seq<u8>>, pattern: Seq<u8>, message: Seq<char>, n: int)
    requires
        0 <= n <= lines.len(),
        find(e, pattern) is None,
    ensures
        rule_hits(seq![e] + lines, pattern, message, n + 1) == shift_lines(rule_hits(lines, pattern, message, n)),
    decreases n,
{
    let l2 = seq![e] + lines;
    if n == 0 {
        assert(l2[0] == e);
        assert(rule_hits(l2, pattern, message, 0) =~= Seq::<Hit>::empty());
        assert(shift_lines(rule_hits(lines, pattern, message, 0)) =~= Seq::<Hit>::empty());
    } else {
        lemma_rule_hits_shift(e, lines, pattern, message, n - 1);
        assert(l2[n] == lines[n - 1]);
        let prev = rule_hits(lines, pattern, message, n - 1);
        match find(lines[n - 1], pattern) {
            Some(c) => {
                assert(shift_lines(prev.push((n as nat, (c + 1) as nat, message))) =~= shift_lines(prev).push(
                    ((n + 1) as nat, (c + 1) as nat, message),
                ));
            },
            None => {},
        }
    }
}

proof fn lemma_shift_concat(a: Seq<Hit>, b: Seq<Hit>)
    ensures
        shift_lines(a + b) == shift_lines(a) + shift_lines(b),
{
    assert(shift_lines(a + b) =~= shift_lines(a) + shift_lines(b));
}

proof fn lemma_all_hits_shift(e: Seq<u8>, lines: Seq<Seq<u8>>, rules: Seq<RuleText>, m: int)
    requires
        0 <= m <= rules.len(),
        forall|r: int| 0 <= r < rules.len() ==> find(e, encode_utf8(#[trigger] rules[r].0)) is None,
    ensures
        all_hits(seq![e] + lines, rules, m) == shift_lines(all_hits(lines, rules, m)),
    decreases m,
{
    if m == 0 {
        assert(shift_lines(Seq::<Hit>::empty()) =~= Seq::<Hit>::empty());
    } else {
        lemma_all_hits_shift(e, lines, rules, m - 1);
        let r = rules[m - 1];
        assert(find(e, encode_utf8(r.0)) is None);
        lemma_rule_hits_shift(e, lines, encode_utf8(r.0), r.2, lines.len() as int);
        assert((seq![e] + lines).len() == lines.len() + 1);
        lemma_shift_concat(all_hits(lines, rules, m - 1), rule_hits(lines, encode_utf8(r.0), r.2, lines.len() as int));
    }
}

proof fn lemma_insert_shift(s: Seq<Hit>, w: Hit)
    ensures
        insert_by_position(shift_lines(s), shift_hit(w)) == shift_lines(insert_by_position(s, w)),
    decreases s.len(),
{
    let t = shift_lines(s);
    if s.len() == 0 {
        assert(shift_lines(seq![w]) =~= seq![shift_hit(w)]);
    } else {
        assert(t.last() == shift_hit(s.last()));
        if position_le(s.last(), w) {
            assert(shift_lines(s.push(w)) =~= t.push(shift_hit(w)));
        } else {
            assert(t.drop_last() =~= shift_lines(s.drop_last()));
            lemma_insert_shift(s.drop_last(), w);
            assert(shift_lines(insert_by_position(s.drop_last(), w).push(s.last())) =~= shift_lines(
                insert_by_position(s.drop_last(), w),
            ).push(shift_hit(s.last())));
        }
    }
}

proof fn lemma_sort_shift(s: Seq<Hit>)
    ensures
        sort_by_position(shift_lines(s)) == shift_lines(sort_by_position(s)),
    decreases s.len(),
{
    if s.len() > 0 {
        lemma_sort_shift(s.drop_last());
        assert(shift_lines(s).drop_last() =~= shift_lines(s.drop_last()));
        assert(shift_lines(s).last() == shift_hit(s.last()));
        lemma_insert_shift(sort_by_position(s.drop_last()), s.last());
    } else {
        assert(shift_lines(s) =~= s);
    }
}

proof fn lemma_dedup_shift(s: Seq<Hit>)
    ensures
        dedup_hits(shift_lines(s)) == shift_lines(dedup_hits(s)),
    decreases s.len(),
{
    if s.len() > 0 {
        lemma_dedup_shift(s.drop_last());
        assert(shift_lines(s).drop_last() =~= shift_lines(s.drop_last()));
        assert(shift_lines(s).last() == shift_hit(s.last()));
        let d = dedup_hits(s.drop_last());
        if d.len() > 0 {
            assert(shift_lines(d).last() == shift_hit(d.last()));
            assert(shift_hit(d.last()) == shift_hit(s.last()) ==> d.last() == s.last());
        }
        assert(shift_lines(d.push(s.last())) =~= shift_lines(d).push(shift_hit(s.last())));
    } else {
        assert(shift_lines(s) =~= s);
    }
}

/// Putting a line in front of the code that holds no line break and no
/// pattern of the rules moves every warning one line down and changes
/// nothing else.
pub proof fn law_lint_prefix_line_shifts(extra: Seq<char>, code: Seq<char>, rules: Seq<RuleText>)
    requires
        forall|i: int| 0 <= i < extra.len() ==> extra[i] != '\n' && extra[i] != '\r',
        forall|r: int| 0 <= r < rules.len() ==> find(encode_utf8(extra), encode_utf8(#[trigger] rules[r].0)) is None,
    ensures
        lint_hits(encode_utf8(extra + seq!['\n'] + code), rules) == shift_lines(lint_hits(encode_utf8(code), rules)),
{
    let e = encode_utf8(extra);
    let c = encode_utf8(code);
    lemma_encode_concat(extra + seq!['\n'], code);
    lemma_encode_concat(extra, seq!['\n']);
    assert(seq!['\n'].drop_first() =~= Seq::<char>::empty());
    assert(encode_utf8(seq!['\n']) =~= seq![10u8]) by {
        lemma_low_byte(10u32);
        assert(seq!['\n'][0] as u32 == 10u32);
        assert(encode_utf8(Seq::<char>::empty()) =~= Seq::<u8>::empty());
        assert(encode_utf8(seq!['\n']) == encode_scalar(10u32) + encode_utf8(seq!['\n'].drop_first()));
    }
    assert(encode_utf8(extra + seq!['\n'] + code) == e + seq![10u8] + c);
    lemma_encode_no_line_bytes(extra);
    lemma_lines_after_first(e, c, seq![]);
    assert(Seq::<u8>::empty() + e =~= e);
    assert(strip_cr(e, 13u8) == e) by {
        if e.len() > 0 {
            assert(e.last() == e[e.len() - 1]);
        }
    }
    assert(byte_lines(e + seq![10u8] + c) == seq![e] + byte_lines(c));
    lemma_all_hits_shift(e, byte_lines(c), rules, rules.len() as int);
    lemma_sort_shift(all_hits(byte_lines(c), rules, rules.len() as int));
    lemma_dedup_shift(sort_by_position(all_hits(byte_lines(c), rules, rules.len() as int)));
}

proof fn lemma_trim_start_at(c: Seq<char>, k: int)
    requires
        0 <= k <= c.len(),
        forall|i: int| 0 <= i < k ==> crate::text::is_white(#[trigger] c[i]),
        k < c.len() ==> !crate::text::is_white(c[k]),
    ensures
        trim_start(c) == c.skip(k),
    decreases k,
{
    if k == 0 {
        assert(c.skip(0) =~= c);
        if c.len() > 0 {
            assert(!crate::text::is_white(c[0]));
        }
    } else {
        let d = c.drop_first();
        assert(crate::text::is_white(c[0]));
        assert forall|i: int| 0 <= i < k - 1 implies crate::text::is_white(#[trigger] d[i]) by {
            assert(d[i] == c[i + 1]);
            assert(crate::text::is_white(c[i + 1]));
        }
        if k - 1 < d.len() {
            assert(d[k - 1] == c[k]);
        }
        lemma_trim_start_at(d, k - 1);
        assert(d.skip(k - 1) =~= c.skip(k));
    }
}

/// Inline content is named by its first character that is not whitespace:
/// `package.json` when that character is `{`, `Cargo.toml` when it is any
/// other character or when there is none, whatever follows it.
pub proof fn law_guessed_name_follows_first_character(c: Seq<char>, k: int)
    requires
        0 <= k <= c.len(),
        forall|i: int| 0 <= i < k ==> crate::text::is_white(#[trigger] c[i]),
        k < c.len() ==> !crate::text::is_white(c[k]),
    ensures
        k < c.len() && c[k] == '{' ==> guessed_file_name(c) == "package.json"@,
        k < c.len() && c[k] != '{' ==> guessed_file_name(c) == "Cargo.toml"@,
        k == c.len() ==> guessed_file_name(c) == "Cargo.toml"@,
{
    lemma_trim_start_at(c, k);
    if k < c.len() {
        assert(c.skip(k)[0] == c[k]);
    }
}

proof fn lemma_rule_hits_contains(lines: Seq<Seq<u8>>, pattern: Seq<u8>, message: Seq<char>, n: int, k: int)
    requires
        0 <= k < n <= lines.len(),
        find(lines[k], pattern) is Some,
    ensures
        rule_hits(lines, pattern, message, n).contains(
            ((k + 1) as nat, (find(lines[k], pattern)->0 + 1) as nat, message),
        ),
    decreases n,
{
    let h = ((k + 1) as nat, (find(lines[k], pattern)->0 + 1) as nat, message);
    let prev = rule_hits(lines, pattern, message, n - 1);
    if k < n - 1 {
        lemma_rule_hits_contains(lines, pattern, message, n - 1, k);
        let i = choose|i: int| 0 <= i < prev.len() && prev[i] == h;
        match find(lines[n - 1], pattern) {
            Some(c) => assert(rule_hits(lines, pattern, message, n)[i] == h),
            None => assert(rule_hits(lines, pattern, message, n)[i] == h),
        }
    } else {
        let cur = rule_hits(lines, pattern, message, n);
        assert(cur[cur.len() - 1] == h);
    }
}

proof fn lemma_all_hits_contains(lines: Seq<Seq<u8>>, rules: Seq<RuleText>, m: int, r: int, x: Hit)
    requires
        0 <= r < m <= rules.len(),
        rule_hits(lines, encode_utf8(rules[r].0), rules[r].2, lines.len() as int).contains(x),
    ensures
        all_hits(lines, rules, m).contains(x),
    decreases m,
{
    let prev = all_hits(lines, rules, m - 1);
    let cur = rule_hits(lines, encode_utf8(rules[m - 1].0), rules[m - 1].2, lines.len() as int);
    if r < m - 1 {
        lemma_all_hits_contains(lines, rules, m - 1, r, x);
        let i = choose|i: int| 0 <= i < prev.len() && prev[i] == x;
        assert(all_hits(lines, rules, m)[i] == x);
    } else {
        let i = choose|i: int| 0 <= i < cur.len() && cur[i] == x;
        assert(all_hits(lines, rules, m)[prev.len() + i] == x);
    }
}

proof fn lemma_insert_contains(s: Seq<Hit>, w: Hit, x: Hit)
    requires
        s.contains(x) || x == w,
    ensures
        insert_by_position(s, w).contains(x),
    decreases s.len(),
{
    let r = insert_by_position(s, w);
    if s.len() == 0 {
        assert(r[0] == x);
    } else if position_le(s.last(), w) {
        if x == w {
            assert(r[s.len() as int] == x);
        } else {
            let i = choose|i: int| 0 <= i < s.len() && s[i] == x;
            assert(r[i] == x);
        }
    } else {
        let t = s.drop_last();
        if x == s.last() {
            assert(r[r.len() - 1] == x);
        } else {
            if x != w {
                let i = choose|i: int| 0 <= i < s.len() && s[i] == x;
                assert(i < s.len() - 1);
                assert(t[i] == x);
            }
            lemma_insert_contains(t, w, x);
            let u = insert_by_position(t, w);
            let i = choose|i: int| 0 <= i < u.len() && u[i] == x;
            assert(r[i] == x);
        }
    }
}

proof fn lemma_sort_contains(s: Seq<Hit>, x: Hit)
    requires
        s.contains(x),
    ensures
        sort_by_position(s).contains(x),
    decreases s.len(),
{
    let t = s.drop_last();
    if x != s.last() {
        let i = choose|i: int| 0 <= i < s.len() && s[i] == x;
        assert(i < s.len() - 1);
        assert(t[i] == x);
        lemma_sort_contains(t, x);
    }
    lemma_insert_contains(sort_by_position(t), s.last(), x);
}

proof fn lemma_dedup_contains(s: Seq<Hit>, x: Hit)
    requires
        s.contains(x),
    ensures
        dedup_hits(s).contains(x),
    decreases s.len(),
{
    let t = s.drop_last();
    let d = dedup_hits(t);
    let r = dedup_hits(s);
    if x == s.last() {
        if d.len() > 0 && d.last() == s.last() {
            assert(r[r.len() - 1] == x);
        } else {
            assert(r[r.len() - 1] == x);
        }
    } else {
        let i = choose|i: int| 0 <= i < s.len() && s[i] == x;
        assert(i < s.len() - 1);
        assert(t[i] == x);
        lemma_dedup_contains(t, x);
        let j = choose|j: int| 0 <= j < d.len() && d[j] == x;
        assert(r[j] == x);
    }
}

/// Every occurrence of a rule's pattern in a line is reported: the warning
/// at that line, at the first occurrence's byte column, with the rule's
/// message, is among the warnings of the run.
pub proof fn law_lint_reports_every_match(code: Seq<u8>, rules: Seq<RuleText>, r: int, k: int)
    requires
        0 <= r < rules.len(),
        0 <= k < byte_lines(code).len(),
        find(byte_lines(code)[k], encode_utf8(rules[r].0)) is Some,
    ensures
        lint_hits(code, rules).contains(
            (
                (k + 1) as nat,
                (find(byte_lines(code)[k], encode_utf8(rules[r].0))->0 + 1) as nat,
                rules[r].2,
            ),
        ),
{
    let lines = byte_lines(code);
    let x = ((k + 1) as nat, (find(lines[k], encode_utf8(rules[r].0))->0 + 1) as nat, rules[r].2);
    lemma_rule_hits_contains(lines, encode_utf8(rules[r].0), rules[r].2, lines.len() as int, k);
    lemma_all_hits_contains(lines, rules, rules.len() as int, r, x);
    let raw = all_hits(lines, rules, rules.len() as int);
    lemma_sort_contains(raw, x);
    lemma_dedup_contains(sort_by_position(raw), x);
}

/// The Python checks: a dangerous call and its message.
pub open spec fn python_check(pattern: Seq<char>, message: Seq<char>) -> bool {
    ||| pattern == "eval"@ && message == "Dangerous eval() \u{2014} arbitrary code execution risk"@
    ||| pattern == "exec"@ && message == "Dangerous exec() \u{2014} arbitrary code execution risk"@
    ||| pattern == "os.system"@ && message == "Shell injection risk via os.system()"@
    ||| pattern == "os.popen"@ && message == "Shell injection risk via os.popen()"@
    ||| pattern == "pickle.loads"@ && message == "Insecure deserialization via pickle.loads()"@
    ||| pattern == "pickle.load"@ && message == "Insecure deserialization via pickle.load()"@
}

/// The JavaScript checks: a dangerous construct and its message.
pub open spec fn javascript_check(pattern: Seq<char>, message: Seq<char>) -> bool {
    ||| pattern == "eval("@ && message == "Dangerous eval() \u{2014} arbitrary code execution risk"@
    ||| pattern == ".innerHTML"@ && message == "XSS risk via innerHTML assignment"@
    ||| pattern == "new Function("@ && message == "Dangerous Function constructor usage"@
}

/// Python code (`python`, `py`) is checked for exactly the Python checks:
/// a line holding one of their patterns is reported at the pattern's first
/// byte column with its message, and every rule in force is one of them.
pub proof fn law_python_checks(language: Seq<char>, code: Seq<char>, k: int, pattern: Seq<char>, message: Seq<char>)
    requires
        language == "python"@ || language == "py"@,
    ensures
        rules_for(language) is Some,
        forall|r: int| 0 <= r < rules_for(language)->0.len() ==> python_check(#[trigger] rules_for(language)->0[r].0, rules_for(language)->0[r].2),
        python_check(pattern, message) && 0 <= k < byte_lines(encode_utf8(code)).len()
            && find(byte_lines(encode_utf8(code))[k], encode_utf8(pattern)) is Some
            ==> lint_hits(encode_utf8(code), rules_for(language)->0).contains(
            (
                (k + 1) as nat,
                (find(byte_lines(encode_utf8(code))[k], encode_utf8(pattern))->0 + 1) as nat,
                message,
            ),
        ),
{
    let rs = python_rules();
    assert(rules_for(language) == Some(rs));
    if python_check(pattern, message) && 0 <= k < byte_lines(encode_utf8(code)).len()
        && find(byte_lines(encode_utf8(code))[k], encode_utf8(pattern)) is Some {
        let r: int = if pattern == "eval"@ && message == "Dangerous eval() \u{2014} arbitrary code execution risk"@ {
            0
        } else if pattern == "exec"@ && message == "Dangerous exec() \u{2014} arbitrary code execution risk"@ {
            1
        } else if pattern == "os.system"@ && message == "Shell injection risk via os.system()"@ {
            2
        } else if pattern == "os.popen"@ && message == "Shell injection risk via os.popen()"@ {
            3
        } else if pattern == "pickle.loads"@ && message == "Insecure deserialization via pickle.loads()"@ {
            4
        } else {
            5
        };
        assert(rs[r].0 == pattern && rs[r].2 == message);
        law_lint_reports_every_match(encode_utf8(code), rs, r, k);
    }
}

/// JavaScript and TypeScript code (`javascript`, `js`, `typescript`, `ts`)
/// is checked for exactly the JavaScript checks: a line holding one of
/// their patterns is reported at the pattern's first byte column with its
/// message, and every rule in force is one of them.
pub proof fn law_javascript_checks(language: Seq<char>, code: Seq<char>, k: int, pattern: Seq<char>, message: Seq<char>)
    requires
        language == "javascript"@ || language == "js"@ || language == "typescript"@ || language == "ts"@,
    ensures
        rules_for(language) is Some,
        forall|r: int| 0 <= r < rules_for(language)->0.len() ==> javascript_check(#[trigger] rules_for(language)->0[r].0, rules_for(language)->0[r].2),
        javascript_check(pattern, message) && 0 <= k < byte_lines(encode_utf8(code)).len()
            && find(byte_lines(encode_utf8(code))[k], encode_utf8(pattern)) is Some
            ==> lint_hits(encode_utf8(code), rules_for(language)->0).contains(
            (
                (k + 1) as nat,
                (find(byte_lines(encode_utf8(code))[k], encode_utf8(pattern))->0 + 1) as nat,
                message,
            ),
        ),
{
    reveal_strlit("python");
    reveal_strlit("py");
    reveal_strlit("javascript");
    reveal_strlit("js");
    reveal_strlit("typescript");
    reveal_strlit("ts");
    let rs = javascript_rules();
    assert(language != "python"@ && language != "py"@) by {
        assert(language.len() != 6 || language[0] != "python"@[0]);
        assert(language.len() != 2 || language[0] != "py"@[0]);
    }
    assert(rules_for(language) == Some(rs));
    if javascript_check(pattern, message) && 0 <= k < byte_lines(encode_utf8(code)).len()
        && find(byte_lines(encode_utf8(code))[k], encode_utf8(pattern)) is Some {
        let r: int = if pattern == "eval("@ && message == "Dangerous eval() \u{2014} arbitrary code execution risk"@ {
            0
        } else if pattern == ".innerHTML"@ && message == "XSS risk via innerHTML assignment"@ {
            1
        } else {
            2
        };
        assert(rs[r].0 == pattern && rs[r].2 == message);
        law_lint_reports_every_match(encode_utf8(code), rs, r, k);
    }
}

} // verus!
