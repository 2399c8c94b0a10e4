//! Manifest scanning: the dependencies declared in a `Cargo.toml` or a
//! `package.json`, and the vulnerabilities that an OSV.dev batch answer
//! reports for them.
use vstd::prelude::*;
use crate::text::same_text;

verus! {

/// A dependency: name, declared version and ecosystem.
pub struct Package {
    pub name: String,
    pub version: String,
    pub ecosystem: String,
}

/// A dependency as text.
pub struct PackageView {
    pub name: Seq<char>,
    pub version: Seq<char>,
    pub ecosystem: Seq<char>,
}

impl View for Package {
    type V = PackageView;

    open spec fn view(&self) -> PackageView {
        PackageView { name: self.name@, version: self.version@, ecosystem: self.ecosystem@ }
    }
}

/// The dependencies of a list as text.
pub open spec fn package_views(s: Seq<Package>) -> Seq<PackageView> {
    s.map_values(|p: Package| p@)
}

impl Package {
    /// A copy of the dependency.
    pub fn duplicate(&self) -> (r: Package)
        ensures
            r@ == self@,
    {
        Package {
            name: self.name.clone(),
            version: self.version.clone(),
            ecosystem: self.ecosystem.clone(),
        }
    }
}

/// A known vulnerability of a dependency.
pub struct Vulnerability {
    pub package: String,
    pub version: String,
    pub ecosystem: String,
    pub osv_id: String,
    pub summary: String,
    pub severity: String,
}

/// A vulnerability as text.
pub struct VulnerabilityView {
    pub package: Seq<char>,
    pub version: Seq<char>,
    pub ecosystem: Seq<char>,
    pub osv_id: Seq<char>,
    pub summary: Seq<char>,
    pub severity: Seq<char>,
}

impl View for Vulnerability {
    type V = VulnerabilityView;

    open spec fn view(&self) -> VulnerabilityView {
        VulnerabilityView {
            package: self.package@,
            version: self.version@,
            ecosystem: self.ecosystem@,
            osv_id: self.osv_id@,
            summary: self.summary@,
            severity: self.severity@,
        }
    }
}

/// The vulnerabilities of a list as text.
pub open spec fn vulnerability_views(s: Seq<Vulnerability>) -> Seq<VulnerabilityView> {
    s.map_values(|v: Vulnerability| v@)
}

/// The scanned dependencies and the vulnerabilities found for them.
pub struct ScanResult {
    pub packages: Vec<Package>,
    pub vulnerabilities: Vec<Vulnerability>,
}

/// A TOML value as the parser reads it. Floats and datetimes carry no
/// payload: nothing here reads them.
pub enum TomlValue {
    String(String),
    Integer(i64),
    Float,
    Boolean(bool),
    Datetime,
    Array(Vec<TomlValue>),
    Table(Vec<(String, TomlValue)>),
}

/// A JSON value as the parser reads it. Numbers carry no payload: nothing
/// here reads them.
pub enum JsonValue {
    Null,
    Bool(bool),
    Number,
    String(String),
    Array(Vec<JsonValue>),
    Object(Vec<(String, JsonValue)>),
}

/// Why a manifest could not be read.
pub enum ManifestError {
    /// The file is neither `Cargo.toml` nor `package.json`.
    Unsupported(String),
    /// The TOML text does not parse; the parser's message.
    Toml(String),
    /// The JSON text does not parse; the parser's message.
    Json(String),
}

impl ManifestError {
    /// The error as text.
    pub fn message(&self) -> (r: String)
        ensures
            match self {
                ManifestError::Unsupported(f) => r@ == "Unsupported manifest: "@ + f@
                    + ". Supported: Cargo.toml, package.json"@,
                ManifestError::Toml(m) => r@ == m@,
                ManifestError::Json(m) => r@ == m@,
            },
    {
        match self {
            ManifestError::Unsupported(f) => {
                let mut s = String::new();
                s.append("Unsupported manifest: ");
                s.append(f.as_str());
                s.append(". Supported: Cargo.toml, package.json");
                assert(s@ =~= "Unsupported manifest: "@ + f@ + ". Supported: Cargo.toml, package.json"@);
                s
            },
            ManifestError::Toml(m) => m.clone(),
            ManifestError::Json(m) => m.clone(),
        }
    }
}

/// The value that the TOML parser (`toml` crate) builds for a document,
/// or `None` when the text is not valid TOML.
pub uninterp spec fn toml_document(text: Seq<char>) -> Option<TomlValue>;

/// The value that the JSON parser (`serde_json` crate) builds for a
/// document, or `None` when the text is not valid JSON.
pub uninterp spec fn json_document(text: Seq<char>) -> Option<JsonValue>;

/// The parsed value type of the `toml` crate, `toml::Value`, declared so that
/// `from_toml` can take it; nothing inside it is visible here.
#[verifier::external_type_specification]
#[verifier::external_body]
pub struct ExTomlValue(toml::Value);

/// The parsed value type of the `serde_json` crate, `serde_json::Value`,
/// declared so that `from_json` can take it; nothing inside it is visible here.
#[verifier::external_type_specification]
#[verifier::external_body]
pub struct ExJsonValue(serde_json::Value);

/// Moves a parsed `toml::Value` into the library's own value, variant by variant.
#[verifier::external_body]
fn from_toml(v: toml::Value) -> TomlValue {
    match v {
        toml::Value::String(s) => TomlValue::String(s),
        toml::Value::Integer(i) => TomlValue::Integer(i),
        toml::Value::Float(_) => TomlValue::Float,
        toml::Value::Boolean(b) => TomlValue::Boolean(b),
        toml::Value::Datetime(_) => TomlValue::Datetime,
        toml::Value::Array(a) => TomlValue::Array(a.into_iter().map(from_toml).collect()),
        toml::Value::Table(t) => TomlValue::Table(t.into_iter().map(|(k, x)| (k, from_toml(x))).collect()),
    }
}

/// Moves a parsed `serde_json::Value` into the library's own value, variant by variant.
#[verifier::external_body]
fn from_json(v: serde_json::Value) -> JsonValue {
    match v {
        serde_json::Value::Null => JsonValue::Null,
        serde_json::Value::Bool(b) => JsonValue::Bool(b),
        serde_json::Value::Number(_) => JsonValue::Number,
        serde_json::Value::String(s) => JsonValue::String(s),
        serde_json::Value::Array(a) => JsonValue::Array(a.into_iter().map(from_json).collect()),
        serde_json::Value::Object(m) => JsonValue::Object(m.into_iter().map(|(k, x)| (k, from_json(x))).collect()),
    }
}

/// Parses a TOML document with `toml::from_str::<toml::Value>`. Claims that
/// the call succeeds exactly when `toml_document` gives a value, and then
/// returns that value; on failure it returns the parser's message.
#[verifier::external_body]
fn parse_toml(text: &str) -> (r: Result<TomlValue, String>)
    ensures
        match toml_document(text@) {
            Some(v) => r == Ok::<TomlValue, String>(v),
            None => r is Err,
        },
{
    match toml::from_str::<toml::Value>(text) {
        Ok(v) => Ok(from_toml(v)),
        Err(e) => Err(e.to_string()),
    }
}

/// Parses a JSON document with `serde_json::from_str::<serde_json::Value>`.
/// Claims that the call succeeds exactly when `json_document` gives a
/// value, and then returns that value; on failure it returns the parser's
/// message.
#[verifier::external_body]
fn parse_json(text: &str) -> (r: Result<JsonValue, String>)
    ensures
        match json_document(text@) {
            Some(v) => r == Ok::<JsonValue, String>(v),
            None => r is Err,
        },
{
    match serde_json::from_str::<serde_json::Value>(text) {
        Ok(v) => Ok(from_json(v)),
        Err(e) => Err(e.to_string()),
    }
}

/// The value of the first entry with the given key.
pub open spec fn toml_lookup(entries: Seq<(String, TomlValue)>, key: Seq<char>) -> Option<TomlValue>
    decreases entries.len(),
{
    if entries.len() == 0 {
        None
    } else if entries[0].0@ == key {
        Some(entries[0].1)
    } else {
        toml_lookup(entries.drop_first(), key)
    }
}

/// The value of the first entry with the given key.
pub open spec fn json_lookup(entries: Seq<(String, JsonValue)>, key: Seq<char>) -> Option<JsonValue>
    decreases entries.len(),
{
    if entries.len() == 0 {
        None
    } else if entries[0].0@ == key {
        Some(entries[0].1)
    } else {
        json_lookup(entries.drop_first(), key)
    }
}

/// The version declared for a Cargo dependency: the string itself, the
/// `version` string of a table, or `unknown`.
pub open spec fn cargo_version(v: TomlValue) -> Seq<char> {
    match v {
        TomlValue::String(s) => s@,
        TomlValue::Table(t) => match toml_lookup(t@, "version"@) {
            Some(TomlValue::String(s)) => s@,
            _ => "unknown"@,
        },
        _ => "unknown"@,
    }
}

/// The dependency that one entry of a Cargo `dependencies` table declares.
pub open spec fn cargo_entry(e: (String, TomlValue)) -> PackageView {
    PackageView { name: e.0@, version: cargo_version(e.1), ecosystem: "crates.io"@ }
}

/// The dependencies of a Cargo manifest: the entries of its
/// `dependencies` table, in the parser's order.
pub open spec fn cargo_packages(doc: TomlValue) -> Seq<PackageView> {
    match doc {
        TomlValue::Table(t) => match toml_lookup(t@, "dependencies"@) {
            Some(TomlValue::Table(deps)) => deps@.map_values(|e: (String, TomlValue)| cargo_entry(e)),
            _ => seq![],
        },
        _ => seq![],
    }
}

/// The version declared for an npm dependency: the string, or `unknown`.
pub open spec fn npm_version(v: JsonValue) -> Seq<char> {
    match v {
        JsonValue::String(s) => s@,
        _ => "unknown"@,
    }
}

/// The dependency that one entry of an npm `dependencies` object declares.
pub open spec fn npm_entry(e: (String, JsonValue)) -> PackageView {
    PackageView { name: e.0@, version: npm_version(e.1), ecosystem: "npm"@ }
}

/// The dependencies of an npm manifest: the entries of its `dependencies`
/// object, in the parser's order.
pub open spec fn npm_packages(doc: JsonValue) -> Seq<PackageView> {
    match doc {
        JsonValue::Object(o) => match json_lookup(o@, "dependencies"@) {
            Some(JsonValue::Object(deps)) => deps@.map_values(|e: (String, JsonValue)| npm_entry(e)),
            _ => seq![],
        },
        _ => seq![],
    }
}

fn toml_get<'a>(entries: &'a Vec<(String, TomlValue)>, key: &str) -> (r: Option<&'a TomlValue>)
    ensures
        match r {
            Some(x) => toml_lookup(entries@, key@) == Some(*x),
            None => toml_lookup(entries@, key@) is None,
        },
{
    let mut i: usize = 0;
    assert(entries@.skip(0) =~= entries@);
    while i < entries.len()
        invariant
            i <= entries.len(),
            toml_lookup(entries@, key@) == toml_lookup(entries@.skip(i as int), key@),
        decreases entries.len() - i,
    {
        assert(entries@.skip(i as int).drop_first() =~= entries@.skip(i + 1));
        if same_text(entries[i].0.as_str(), key) {
            return Some(&entries[i].1);
        }
        i = i + 1;
    }
    None
}

fn json_get<'a>(entries: &'a Vec<(String, JsonValue)>, key: &str) -> (r: Option<&'a JsonValue>)
    ensures
        match r {
            Some(x) => json_lookup(entries@, key@) == Some(*x),
            None => json_lookup(entries@, key@) is None,
        },
{
    let mut i: usize = 0;
    assert(entries@.skip(0) =~= entries@);
    while i < entries.len()
        invariant
            i <= entries.len(),
            json_lookup(entries@, key@) == json_lookup(entries@.skip(i as int), key@),
        decreases entries.len() - i,
    {
        assert(entries@.skip(i as int).drop_first() =~= entries@.skip(i + 1));
        if same_text(entries[i].0.as_str(), key) {
            return Some(&entries[i].1);
        }
        i = i + 1;
    }
    None
}

fn cargo_dependency_version(v: &TomlValue) -> (r: String)
    ensures
        r@ == cargo_version(*v),
{
    match v {
        TomlValue::String(s) => s.clone(),
        TomlValue::Table(t) => match toml_get(t, "version") {
            Some(TomlValue::String(s)) => s.clone(),
            _ => "unknown".to_owned(),
        },
        _ => "unknown".to_owned(),
    }
}

/// The dependencies declared in a parsed Cargo manifest.
pub fn cargo_dependencies(doc: &TomlValue) -> (r: Vec<Package>)
    ensures
        package_views(r@) == cargo_packages(*doc),
{
    let mut out: Vec<Package> = Vec::new();
    if let TomlValue::Table(t) = doc {
        if let Some(TomlValue::Table(deps)) = toml_get(t, "dependencies") {
            let mut i: usize = 0;
            while i < deps.len()
                invariant
                    i <= deps.len(),
                    out.len() == i,
                    forall|k: int| 0 <= k < i ==> #[trigger] out@[k]@ == cargo_entry(deps@[k]),
                decreases deps.len() - i,
            {
                let p = Package {
                    name: deps[i].0.clone(),
                    version: cargo_dependency_version(&deps[i].1),
                    ecosystem: "crates.io".to_owned(),
                };
                out.push(p);
                i = i + 1;
            }
            assert(package_views(out@) =~= deps@.map_values(|e: (String, TomlValue)| cargo_entry(e)));
            return out;
        }
    }
    assert(package_views(out@) =~= Seq::<PackageView>::empty());
    out
}

/// The dependencies declared in a parsed npm manifest.
pub fn npm_dependencies(doc: &JsonValue) -> (r: Vec<Package>)
    ensures
        package_views(r@) == npm_packages(*doc),
{
    let mut out: Vec<Package> = Vec::new();
    if let JsonValue::Object(o) = doc {
        if let Some(JsonValue::Object(deps)) = json_get(o, "dependencies") {
            let mut i: usize = 0;
            while i < deps.len()
                invariant
                    i <= deps.len(),
                    out.len() == i,
                    forall|k: int| 0 <= k < i ==> #[trigger] out@[k]@ == npm_entry(deps@[k]),
                decreases deps.len() - i,
            {
                let version = match &deps[i].1 {
                    JsonValue::String(s) => s.clone(),
                    _ => "unknown".to_owned(),
                };
                let p = Package { name: deps[i].0.clone(), version, ecosystem: "npm".to_owned() };
                out.push(p);
                i = i + 1;
            }
            assert(package_views(out@) =~= deps@.map_values(|e: (String, JsonValue)| npm_entry(e)));
            return out;
        }
    }
    assert(package_views(out@) =~= Seq::<PackageView>::empty());
    out
}

/// The kinds of manifest that the scanner reads.
pub enum ManifestKind {
    Cargo,
    Npm,
}

/// The kind of a manifest, told by its file name.
pub open spec fn kind_of(file_name: Seq<char>) -> Option<ManifestKind> {
    if file_name == "Cargo.toml"@ {
        Some(ManifestKind::Cargo)
    } else if file_name == "package.json"@ {
        Some(ManifestKind::Npm)
    } else {
        None
    }
}

/// The kind of a manifest, told by its file name.
pub fn manifest_kind(file_name: &str) -> (r: Option<ManifestKind>)
    ensures
        r == kind_of(file_name@),
{
    if same_text(file_name, "Cargo.toml") {
        Some(ManifestKind::Cargo)
    } else if same_text(file_name, "package.json") {
        Some(ManifestKind::Npm)
    } else {
        None
    }
}

/// The dependencies in the text of a manifest of the given kind.
pub fn parse_manifest_content(kind: ManifestKind, content: &str) -> (r: Result<Vec<Package>, ManifestError>)
    ensures
        kind is Cargo ==> match toml_document(content@) {
            Some(doc) => r matches Ok(ps) && package_views(ps@) == cargo_packages(doc),
            None => r matches Err(ManifestError::Toml(_)),
        },
        kind is Npm ==> match json_document(content@) {
            Some(doc) => r matches Ok(ps) && package_views(ps@) == npm_packages(doc),
            None => r matches Err(ManifestError::Json(_)),
        },
{
    match kind {
        ManifestKind::Cargo => match parse_toml(content) {
            Ok(doc) => Ok(cargo_dependencies(&doc)),
            Err(m) => Err(ManifestError::Toml(m)),
        },
        ManifestKind::Npm => match parse_json(content) {
            Ok(doc) => Ok(npm_dependencies(&doc)),
            Err(m) => Err(ManifestError::Json(m)),
        },
    }
}

/// The dependencies declared in a manifest, given its file name and text:
/// `Cargo.toml` is read as TOML (ecosystem `crates.io`), `package.json` as
/// JSON (ecosystem `npm`), and any other name is refused.
pub fn parse_manifest(file_name: &str, content: &str) -> (r: Result<Vec<Package>, ManifestError>)
    ensures
        match kind_of(file_name@) {
            None => r matches Err(ManifestError::Unsupported(f)) && f@ == file_name@,
            Some(ManifestKind::Cargo) => match toml_document(content@) {
                Some(doc) => r matches Ok(ps) && package_views(ps@) == cargo_packages(doc),
                None => r matches Err(ManifestError::Toml(_)),
            },
            Some(ManifestKind::Npm) => match json_document(content@) {
                Some(doc) => r matches Ok(ps) && package_views(ps@) == npm_packages(doc),
                None => r matches Err(ManifestError::Json(_)),
            },
        },
{
    match manifest_kind(file_name) {
        Some(kind) => parse_manifest_content(kind, content),
        None => Err(ManifestError::Unsupported(file_name.to_owned())),
    }
}

/// One severity rating of a vulnerability in an OSV answer.
pub struct OsvSeverity {
    pub severity_type: String,
    pub score: String,
}

/// One vulnerability in an OSV answer.
pub struct OsvVuln {
    pub id: String,
    pub summary: Option<String>,
    pub severity: Option<Vec<OsvSeverity>>,
}

/// The vulnerabilities that OSV reports for one queried package.
pub struct OsvResponse {
    pub vulns: Vec<OsvVuln>,
}

/// The answer of an OSV batch query: one response per queried package, in
/// the order of the queries.
pub struct OsvBatchResponse {
    pub results: Vec<OsvResponse>,
}

/// The report of one vulnerability of a package: its summary or empty, and
/// the score of its first severity rating or empty.
pub open spec fn vulnerability_of(p: PackageView, v: OsvVuln) -> VulnerabilityView {
    VulnerabilityView {
        package: p.name,
        version: p.version,
        ecosystem: p.ecosystem,
        osv_id: v.id@,
        summary: match v.summary {
            Some(s) => s@,
            None => Seq::<char>::empty(),
        },
        severity: match v.severity {
            Some(list) => if list@.len() > 0 {
                list@[0].score@
            } else {
                Seq::<char>::empty()
            },
            None => Seq::<char>::empty(),
        },
    }
}

/// The reports of the vulnerabilities listed for one package.
pub open spec fn package_vulnerabilities(p: PackageView, vulns: Seq<OsvVuln>) -> Seq<VulnerabilityView>
    decreases vulns.len(),
{
    if vulns.len() == 0 {
        seq![]
    } else {
        package_vulnerabilities(p, vulns.drop_last()).push(vulnerability_of(p, vulns.last()))
    }
}

/// The reports for the first `n` responses: response `i` belongs to package
/// `i`, and responses beyond the last package are ignored.
pub open spec fn osv_vulnerabilities(pkgs: Seq<PackageView>, results: Seq<OsvResponse>, n: int) -> Seq<VulnerabilityView>
    decreases n,
{
    if n <= 0 {
        seq![]
    } else if n - 1 < pkgs.len() {
        osv_vulnerabilities(pkgs, results, n - 1) + package_vulnerabilities(pkgs[n - 1], results[n - 1].vulns@)
    } else {
        osv_vulnerabilities(pkgs, results, n - 1)
    }
}

/// The vulnerabilities reported by an OSV answer for the packages queried.
pub open spec fn answer_vulnerabilities(pkgs: Seq<PackageView>, answer: Option<OsvBatchResponse>) -> Seq<VulnerabilityView> {
    match answer {
        Some(b) => osv_vulnerabilities(pkgs, b.results@, b.results@.len() as int),
        None => seq![],
    }
}

fn copy_packages(packages: &Vec<Package>) -> (r: Vec<Package>)
    ensures
        package_views(r@) == package_views(packages@),
{
    let mut out: Vec<Package> = Vec::new();
    let mut i: usize = 0;
    while i < packages.len()
        invariant
            i <= packages.len(),
            out.len() == i,
            forall|k: int| 0 <= k < i ==> #[trigger] out@[k]@ == packages@[k]@,
        decreases packages.len() - i,
    {
        out.push(packages[i].duplicate());
        i = i + 1;
    }
    assert(package_views(out@) =~= package_views(packages@));
    out
}

fn vulnerability_report(p: &Package, v: &OsvVuln) -> (r: Vulnerability)
    ensures
        r@ == vulnerability_of(p@, *v),
{
    let summary = match &v.summary {
        Some(s) => s.clone(),
        None => String::new(),
    };
    let severity = match &v.severity {
        Some(list) => if list.len() > 0 {
            list[0].score.clone()
        } else {
            String::new()
        },
        None => String::new(),
    };
    Vulnerability {
        package: p.name.clone(),
        version: p.version.clone(),
        ecosystem: p.ecosystem.clone(),
        osv_id: v.id.clone(),
        summary,
        severity,
    }
}

/// The scan result for the queried packages given the OSV batch answer, or
/// `None` when the query or its answer failed (then no vulnerability is
/// reported). The packages are reported as queried.
pub fn osv_scan_result(packages: &Vec<Package>, answer: Option<OsvBatchResponse>) -> (r: ScanResult)
    ensures
        package_views(r.packages@) == package_views(packages@),
        vulnerability_views(r.vulnerabilities@) == answer_vulnerabilities(package_views(packages@), answer),
{
    let ghost pv = package_views(packages@);
    let mut out: Vec<Vulnerability> = Vec::new();
    if let Some(batch) = &answer {
        let mut i: usize = 0;
        assert(vulnerability_views(out@) =~= Seq::<VulnerabilityView>::empty());
        while i < batch.results.len()
            invariant
                i <= batch.results.len(),
                pv == package_views(packages@),
                vulnerability_views(out@) == osv_vulnerabilities(pv, batch.results@, i as int),
            decreases batch.results.len() - i,
        {
            if i < packages.len() {
                let vulns = &batch.results[i].vulns;
                let ghost base = vulnerability_views(out@);
                let mut j: usize = 0;
                assert(vulns@.take(0) =~= Seq::<OsvVuln>::empty());
                assert(base + package_vulnerabilities(pv[i as int], vulns@.take(0)) =~= base);
                while j < vulns.len()
                    invariant
                        i < packages.len(),
                        j <= vulns.len(),
                        pv == package_views(packages@),
                        vulnerability_views(out@) == base + package_vulnerabilities(pv[i as int], vulns@.take(j as int)),
                    decreases vulns.len() - j,
                {
                    let rep = vulnerability_report(&packages[i], &vulns[j]);
                    let ghost before = vulnerability_views(out@);
                    out.push(rep);
                    assert(vulns@.take(j + 1).drop_last() =~= vulns@.take(j as int));
                    assert(vulnerability_views(out@) =~= before.push(vulnerability_of(pv[i as int], vulns@[j as int])));
                    j = j + 1;
                }
                assert(vulns@.take(vulns.len() as int) =~= vulns@);
            }
            i = i + 1;
        }
    } else {
        assert(vulnerability_views(out@) =~= Seq::<VulnerabilityView>::empty());
    }
    ScanResult { packages: copy_packages(packages), vulnerabilities: out }
}

/// Whether a vulnerability report names the given package.
pub open spec fn names_package(v: VulnerabilityView, p: PackageView) -> bool {
    v.package == p.name && v.version == p.version && v.ecosystem == p.ecosystem
}

proof fn lemma_package_vulnerabilities_name(p: PackageView, vulns: Seq<OsvVuln>, k: int)
    requires
        0 <= k < package_vulnerabilities(p, vulns).len(),
    ensures
        names_package(package_vulnerabilities(p, vulns)[k], p),
        package_vulnerabilities(p, vulns).len() == vulns.len(),
    decreases vulns.len(),
{
    if vulns.len() > 0 {
        lemma_package_vulnerabilities_len(p, vulns.drop_last());
        if k < vulns.len() - 1 {
            lemma_package_vulnerabilities_name(p, vulns.drop_last(), k);
        }
    }
}

proof fn lemma_package_vulnerabilities_len(p: PackageView, vulns: Seq<OsvVuln>)
    ensures
        package_vulnerabilities(p, vulns).len() == vulns.len(),
    decreases vulns.len(),
{
    if vulns.len() > 0 {
        lemma_package_vulnerabilities_len(p, vulns.drop_last());
    }
}

proof fn lemma_osv_vulnerabilities_name(pkgs: Seq<PackageView>, results: Seq<OsvResponse>, n: int, k: int)
    requires
        0 <= k < osv_vulnerabilities(pkgs, results, n).len(),
    ensures
        exists|i: int| 0 <= i < pkgs.len() && i < n && names_package(osv_vulnerabilities(pkgs, results, n)[k], #[trigger] pkgs[i]),
    decreases n,
{
    if n > 0 {
        let prev = osv_vulnerabilities(pkgs, results, n - 1);
        if n - 1 < pkgs.len() {
            if k < prev.len() {
                lemma_osv_vulnerabilities_name(pkgs, results, n - 1, k);
                assert(osv_vulnerabilities(pkgs, results, n)[k] == prev[k]);
            } else {
                lemma_package_vulnerabilities_name(pkgs[n - 1], results[n - 1].vulns@, k - prev.len());
                assert(osv_vulnerabilities(pkgs, results, n)[k] == package_vulnerabilities(pkgs[n - 1], results[n - 1].vulns@)[k - prev.len()]);
            }
        } else {
            lemma_osv_vulnerabilities_name(pkgs, results, n - 1, k);
        }
    }
}

/// Every vulnerability in a scan result names one of the queried packages,
/// with its version and ecosystem.
pub proof fn law_vulnerabilities_name_queried_packages(pkgs: Seq<PackageView>, answer: Option<OsvBatchResponse>, k: int)
    requires
        0 <= k < answer_vulnerabilities(pkgs, answer).len(),
    ensures
        exists|i: int| 0 <= i < pkgs.len() && names_package(answer_vulnerabilities(pkgs, answer)[k], #[trigger] pkgs[i]),
{
    match answer {
        Some(b) => lemma_osv_vulnerabilities_name(pkgs, b.results@, b.results@.len() as int, k),
        None => {},
    }
}

/// A Cargo manifest yields one dependency per entry of its `dependencies`
/// table, each in the `crates.io` ecosystem and named by its key.
pub proof fn law_cargo_dependencies_are_entries(doc: TomlValue, k: int)
    requires
        0 <= k < cargo_packages(doc).len(),
    ensures
        cargo_packages(doc)[k].ecosystem == "crates.io"@,
        doc matches TomlValue::Table(t) && toml_lookup(t@, "dependencies"@) matches Some(TomlValue::Table(deps))
            && cargo_packages(doc).len() == deps@.len() && cargo_packages(doc)[k].name == deps@[k].0@,
{
}

/// An npm manifest yields one dependency per entry of its `dependencies`
/// object, each in the `npm` ecosystem and named by its key.
pub proof fn law_npm_dependencies_are_entries(doc: JsonValue, k: int)
    requires
        0 <= k < npm_packages(doc).len(),
    ensures
        npm_packages(doc)[k].ecosystem == "npm"@,
        doc matches JsonValue::Object(o) && json_lookup(o@, "dependencies"@) matches Some(JsonValue::Object(deps))
            && npm_packages(doc).len() == deps@.len() && npm_packages(doc)[k].name == deps@[k].0@,
{
}

/// What OSV is asked about one package: its name, ecosystem and version.
pub struct OsvQuery {
    pub name: String,
    pub ecosystem: String,
    pub version: String,
}

/// The batch query for the packages: one query per package, in order.
pub fn osv_queries(packages: &Vec<Package>) -> (r: Vec<OsvQuery>)
    ensures
        r.len() == packages.len(),
        forall|k: int| 0 <= k < r.len() ==> {
            &&& #[trigger] r@[k].name@ == packages@[k].name@
            &&& r@[k].ecosystem@ == packages@[k].ecosystem@
            &&& r@[k].version@ == packages@[k].version@
        },
{
    let mut out: Vec<OsvQuery> = Vec::new();
    let mut i: usize = 0;
    while i < packages.len()
        invariant
            i <= packages.len(),
            out.len() == i,
            forall|k: int| 0 <= k < i ==> {
                &&& #[trigger] out@[k].name@ == packages@[k].name@
                &&& out@[k].ecosystem@ == packages@[k].ecosystem@
                &&& out@[k].version@ == packages@[k].version@
            },
        decreases packages.len() - i,
    {
        out.push(
            OsvQuery {
                name: packages[i].name.clone(),
                ecosystem: packages[i].ecosystem.clone(),
                version: packages[i].version.clone(),
            },
        );
        i = i + 1;
    }
    out
}

/// How many vulnerabilities the first `i` responses list.
pub open spec fn listed_before(results: Seq<OsvResponse>, i: int) -> int
    decreases i,
{
    if i <= 0 {
        0
    } else {
        listed_before(results, i - 1) + results[i - 1].vulns@.len()
    }
}

proof fn lemma_listed_before_mono(results: Seq<OsvResponse>, i: int, j: int)
    requires
        0 <= i <= j,
    ensures
        listed_before(results, i) <= listed_before(results, j),
    decreases j - i,
{
    if i < j {
        lemma_listed_before_mono(results, i, j - 1);
    }
}

proof fn lemma_package_vulnerabilities_at(p: PackageView, vulns: Seq<OsvVuln>, j: int)
    requires
        0 <= j < vulns.len(),
    ensures
        package_vulnerabilities(p, vulns).len() == vulns.len(),
        package_vulnerabilities(p, vulns)[j] == vulnerability_of(p, vulns[j]),
    decreases vulns.len(),
{
    lemma_package_vulnerabilities_len(p, vulns);
    if j < vulns.len() - 1 {
        lemma_package_vulnerabilities_at(p, vulns.drop_last(), j);
        lemma_package_vulnerabilities_len(p, vulns.drop_last());
    }
}

proof fn lemma_osv_layout(pkgs: Seq<PackageView>, results: Seq<OsvResponse>, n: int)
    requires
        0 <= n <= results.len(),
    ensures
        osv_vulnerabilities(pkgs, results, n).len() == listed_before(
            results,
            if n < pkgs.len() { n } else { pkgs.len() as int },
        ),
        forall|i: int, j: int|
            0 <= i < n && i < pkgs.len() && 0 <= j < results[i].vulns@.len() ==> #[trigger] osv_vulnerabilities(
                pkgs,
                results,
                n,
            )[listed_before(results, i) + j] == vulnerability_of(pkgs[i], #[trigger] results[i].vulns@[j]),
    decreases n,
{
    if n > 0 {
        lemma_osv_layout(pkgs, results, n - 1);
        let prev = osv_vulnerabilities(pkgs, results, n - 1);
        let cur = osv_vulnerabilities(pkgs, results, n);
        if n - 1 < pkgs.len() {
            let add = package_vulnerabilities(pkgs[n - 1], results[n - 1].vulns@);
            lemma_package_vulnerabilities_len(pkgs[n - 1], results[n - 1].vulns@);
            assert forall|i: int, j: int|
                0 <= i < n && i < pkgs.len() && 0 <= j < results[i].vulns@.len() implies #[trigger] cur[listed_before(
                    results,
                    i,
                ) + j] == vulnerability_of(pkgs[i], #[trigger] results[i].vulns@[j]) by {
                lemma_listed_before_mono(results, 0, i);
                if i < n - 1 {
                    lemma_listed_before_mono(results, i + 1, n - 1);
                    assert(listed_before(results, i + 1) == listed_before(results, i) + results[i].vulns@.len());
                    assert(prev.len() == listed_before(results, n - 1));
                    assert(cur == prev + add);
                    assert(cur[listed_before(results, i) + j] == prev[listed_before(results, i) + j]);
                } else {
                    lemma_package_vulnerabilities_at(pkgs[n - 1], results[n - 1].vulns@, j);
                    assert(prev.len() == listed_before(results, n - 1));
                    assert(cur == prev + add);
                    assert(cur[listed_before(results, i) + j] == add[j]);
                }
            }
        } else {
            assert forall|i: int, j: int|
                0 <= i < n && i < pkgs.len() && 0 <= j < results[i].vulns@.len() implies #[trigger] cur[listed_before(
                    results,
                    i,
                ) + j] == vulnerability_of(pkgs[i], #[trigger] results[i].vulns@[j]) by {
                assert(i < n - 1);
            }
        }
    }
}

/// Response `i` of an OSV answer belongs to queried package `i`: the scan
/// reports, in order, every vulnerability of every response that has a
/// package, and nothing else. The report for vulnerability `j` of response
/// `i` names package `i` with its version and ecosystem, carries the
/// vulnerability's id, its summary (or nothing) and the score of its first
/// severity rating (or nothing).
pub proof fn law_each_response_reported_for_its_package(
    pkgs: Seq<PackageView>,
    answer: OsvBatchResponse,
    i: int,
    j: int,
)
    ensures
        answer_vulnerabilities(pkgs, Some(answer)).len() == listed_before(
            answer.results@,
            if answer.results@.len() < pkgs.len() {
                answer.results@.len() as int
            } else {
                pkgs.len() as int
            },
        ),
        0 <= i < answer.results@.len() && i < pkgs.len() && 0 <= j < answer.results@[i].vulns@.len()
            ==> ({
            let rep = answer_vulnerabilities(pkgs, Some(answer))[listed_before(answer.results@, i) + j];
            let v = answer.results@[i].vulns@[j];
            &&& rep.package == pkgs[i].name
            &&& rep.version == pkgs[i].version
            &&& rep.ecosystem == pkgs[i].ecosystem
            &&& rep.osv_id == v.id@
            &&& rep.summary == (match v.summary {
                Some(s) => s@,
                None => Seq::<char>::empty(),
            })
            &&& rep.severity == (match v.severity {
                Some(l) => if l@.len() > 0 {
                    l@[0].score@
                } else {
                    Seq::<char>::empty()
                },
                None => Seq::<char>::empty(),
            })
        }),
{
    let results = answer.results@;
    lemma_osv_layout(pkgs, results, results.len() as int);
    if 0 <= i < results.len() && i < pkgs.len() && 0 <= j < results[i].vulns@.len() {
        let _ = results[i].vulns@[j];
    }
}

/// The version of a Cargo dependency: a plain string entry is the version
/// itself; a table entry gives its `version` string; anything else, or a
/// table without a `version` string, is `unknown`.
pub proof fn law_cargo_versions(doc: TomlValue, k: int)
    requires
        0 <= k < cargo_packages(doc).len(),
    ensures
        doc matches TomlValue::Table(t) && toml_lookup(t@, "dependencies"@) matches Some(TomlValue::Table(deps)) && ({
            let v = deps@[k].1;
            let version = cargo_packages(doc)[k].version;
            &&& v matches TomlValue::String(s) ==> version == s@
            &&& v matches TomlValue::Table(tt) ==> (match toml_lookup(tt@, "version"@) {
                Some(TomlValue::String(s)) => version == s@,
                _ => version == "unknown"@,
            })
            &&& !(v is String) && !(v is Table) ==> version == "unknown"@
        }),
{
}

/// The version of an npm dependency: a string entry is the version itself,
/// anything else is `unknown`.
pub proof fn law_npm_versions(doc: JsonValue, k: int)
    requires
        0 <= k < npm_packages(doc).len(),
    ensures
        doc matches JsonValue::Object(o) && json_lookup(o@, "dependencies"@) matches Some(JsonValue::Object(deps)) && ({
            let v = deps@[k].1;
            let version = npm_packages(doc)[k].version;
            &&& v matches JsonValue::String(s) ==> version == s@
            &&& !(v is String) ==> version == "unknown"@
        }),
{
}

} // verus!
