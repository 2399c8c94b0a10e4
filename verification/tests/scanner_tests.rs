use agent_immune::scanner::{
    manifest_kind, osv_queries, osv_scan_result, parse_manifest, ManifestError, ManifestKind,
    OsvBatchResponse, OsvResponse, OsvSeverity, OsvVuln, Package,
};

const CARGO: &str = r#"
[package]
name = "demo"

[dependencies]
serde = { version = "1.0", features = ["derive"] }
anyhow = "1"
local = { path = "../local" }
weird = 3
"#;

#[test]
fn parses_cargo_dependencies() {
    let pkgs = match parse_manifest("Cargo.toml", CARGO) {
        Ok(p) => p,
        Err(e) => panic!("{}", e.message()),
    };
    let got: Vec<(String, String, String)> = pkgs
        .iter()
        .map(|p| (p.name.clone(), p.version.clone(), p.ecosystem.clone()))
        .collect();
    assert_eq!(
        got,
        vec![
            ("anyhow".to_string(), "1".to_string(), "crates.io".to_string()),
            ("local".to_string(), "unknown".to_string(), "crates.io".to_string()),
            ("serde".to_string(), "1.0".to_string(), "crates.io".to_string()),
            ("weird".to_string(), "unknown".to_string(), "crates.io".to_string()),
        ]
    );
}

#[test]
fn cargo_without_dependencies_is_empty() {
    match parse_manifest("Cargo.toml", "[package]\nname = \"x\"\n") {
        Ok(p) => assert!(p.is_empty()),
        Err(_) => panic!("valid TOML"),
    }
    match parse_manifest("Cargo.toml", "dependencies = 5\n") {
        Ok(p) => assert!(p.is_empty()),
        Err(_) => panic!("valid TOML"),
    }
}

#[test]
fn parses_npm_dependencies() {
    let json = r#"{"name": "x", "dependencies": {"left-pad": "^1.3.0", "odd": 7}, "devDependencies": {"jest": "29"}}"#;
    let pkgs = match parse_manifest("package.json", json) {
        Ok(p) => p,
        Err(e) => panic!("{}", e.message()),
    };
    assert_eq!(pkgs.len(), 2);
    assert_eq!(pkgs[0].name, "left-pad");
    assert_eq!(pkgs[0].version, "^1.3.0");
    assert_eq!(pkgs[0].ecosystem, "npm");
    assert_eq!(pkgs[1].name, "odd");
    assert_eq!(pkgs[1].version, "unknown");
}

#[test]
fn refuses_other_manifests() {
    match parse_manifest("requirements.txt", "flask==2") {
        Err(e) => {
            assert!(matches!(e, ManifestError::Unsupported(_)));
            assert_eq!(
                e.message(),
                "Unsupported manifest: requirements.txt. Supported: Cargo.toml, package.json"
            );
        }
        Ok(_) => panic!("expected refusal"),
    }
    assert!(manifest_kind("Cargo.toml").is_some());
    assert!(matches!(manifest_kind("package.json"), Some(ManifestKind::Npm)));
    assert!(manifest_kind("cargo.toml").is_none());
}

#[test]
fn reports_parse_errors() {
    assert!(matches!(parse_manifest("Cargo.toml", "[dependencies\n"), Err(ManifestError::Toml(_))));
    assert!(matches!(parse_manifest("package.json", "{\"a\": "), Err(ManifestError::Json(_))));
}

fn pkg(name: &str, version: &str) -> Package {
    Package { name: name.to_string(), version: version.to_string(), ecosystem: "npm".to_string() }
}

#[test]
fn collects_osv_vulnerabilities() {
    let packages = vec![pkg("a", "1"), pkg("b", "2")];
    let answer = OsvBatchResponse {
        results: vec![
            OsvResponse {
                vulns: vec![
                    OsvVuln {
                        id: "GHSA-1".to_string(),
                        summary: Some("bad".to_string()),
                        severity: Some(vec![
                            OsvSeverity { severity_type: "CVSS_V3".to_string(), score: "9.8".to_string() },
                            OsvSeverity { severity_type: "CVSS_V2".to_string(), score: "7.0".to_string() },
                        ]),
                    },
                    OsvVuln { id: "GHSA-2".to_string(), summary: None, severity: None },
                ],
            },
            OsvResponse { vulns: vec![] },
            OsvResponse {
                vulns: vec![OsvVuln { id: "EXTRA".to_string(), summary: None, severity: Some(vec![]) }],
            },
        ],
    };
    let r = osv_scan_result(&packages, Some(answer));
    assert_eq!(r.packages.len(), 2);
    assert_eq!(r.vulnerabilities.len(), 2);
    let v0 = &r.vulnerabilities[0];
    assert_eq!((v0.package.as_str(), v0.version.as_str(), v0.ecosystem.as_str()), ("a", "1", "npm"));
    assert_eq!(v0.osv_id, "GHSA-1");
    assert_eq!(v0.summary, "bad");
    assert_eq!(v0.severity, "9.8");
    let v1 = &r.vulnerabilities[1];
    assert_eq!(v1.osv_id, "GHSA-2");
    assert_eq!(v1.summary, "");
    assert_eq!(v1.severity, "");
}

#[test]
fn failed_query_reports_no_vulnerabilities() {
    let packages = vec![pkg("a", "1")];
    let r = osv_scan_result(&packages, None);
    assert_eq!(r.packages.len(), 1);
    assert_eq!(r.packages[0].name, "a");
    assert!(r.vulnerabilities.is_empty());
    let empty = osv_scan_result(&Vec::new(), None);
    assert!(empty.packages.is_empty());
}

#[test]
fn queries_follow_the_packages() {
    let q = osv_queries(&vec![pkg("a", "1"), pkg("b", "2")]);
    assert_eq!(q.len(), 2);
    assert_eq!((q[1].name.as_str(), q[1].ecosystem.as_str(), q[1].version.as_str()), ("b", "npm", "2"));
}
