use agent_immune::mcp_server::{
    lint_code, lint_rules, resolve_path_or_content, server_instructions, LintError,
    ManifestSource, ResolveError,
};

#[test]
fn lints_python() {
    let code = "import os\nx = eval(data)\nos.system('ls')\npickle.loads(b)\n";
    let ws = match lint_code(code, "python") {
        Ok(w) => w,
        Err(_) => panic!("python is supported"),
    };
    let got: Vec<(usize, usize, &str)> =
        ws.iter().map(|w| (w.line, w.column, w.message.as_str())).collect();
    assert_eq!(
        got,
        vec![
            (2, 5, "Dangerous eval() \u{2014} arbitrary code execution risk"),
            (3, 1, "Shell injection risk via os.system()"),
            (4, 1, "Insecure deserialization via pickle.loads()"),
            (4, 1, "Insecure deserialization via pickle.load()"),
        ]
    );
    assert!(ws.iter().all(|w| w.severity == "warning"));
}

#[test]
fn orders_by_column_within_a_line() {
    let ws = match lint_code("y = exec(x); eval(z)", "py") {
        Ok(w) => w,
        Err(_) => panic!("py is supported"),
    };
    let got: Vec<(usize, usize)> = ws.iter().map(|w| (w.line, w.column)).collect();
    assert_eq!(got, vec![(1, 5), (1, 14)]);
    assert!(ws[0].message.starts_with("Dangerous exec()"));
}

#[test]
fn columns_count_bytes() {
    let ws = match lint_code("\u{e9}\u{e9} eval(1)\r\nel.innerHTML = s", "js") {
        Ok(w) => w,
        Err(_) => panic!("js is supported"),
    };
    let got: Vec<(usize, usize)> = ws.iter().map(|w| (w.line, w.column)).collect();
    assert_eq!(got, vec![(1, 6), (2, 3)]);
}

#[test]
fn lints_typescript_aliases() {
    for lang in ["javascript", "js", "typescript", "ts"] {
        match lint_code("f = new Function(\"x\")", lang) {
            Ok(ws) => {
                assert_eq!(ws.len(), 1);
                assert_eq!(ws[0].column, 5);
                assert_eq!(ws[0].message, "Dangerous Function constructor usage");
            }
            Err(_) => panic!("supported"),
        }
    }
    assert_eq!(lint_rules("python").map(|r| r.len()), Some(6));
    assert_eq!(lint_rules("js").map(|r| r.len()), Some(3));
}

#[test]
fn refuses_other_languages() {
    match lint_code("x", "ruby") {
        Err(e) => {
            assert_eq!(e.message(), "unsupported language: ruby (supported: python, javascript)");
            let LintError::UnsupportedLanguage(l) = e;
            assert_eq!(l, "ruby");
        }
        Ok(_) => panic!("ruby is not supported"),
    }
}

#[test]
fn empty_code_has_no_warnings() {
    match lint_code("", "python") {
        Ok(ws) => assert!(ws.is_empty()),
        Err(_) => panic!("supported"),
    }
}

#[test]
fn resolves_sources() {
    match resolve_path_or_content(Some("/a/Cargo.toml".to_string()), None, None) {
        Ok(ManifestSource::Path(p)) => assert_eq!(p, "/a/Cargo.toml"),
        _ => panic!("expected a path"),
    }
    match resolve_path_or_content(None, Some("  \n{\"dependencies\": {}}".to_string()), None) {
        Ok(ManifestSource::Content { file_name, content }) => {
            assert_eq!(file_name, "package.json");
            assert!(content.ends_with("{}}"));
        }
        _ => panic!("expected content"),
    }
    match resolve_path_or_content(None, Some("[dependencies]".to_string()), None) {
        Ok(ManifestSource::Content { file_name, .. }) => assert_eq!(file_name, "Cargo.toml"),
        _ => panic!("expected content"),
    }
    match resolve_path_or_content(None, None, None) {
        Err(e) => {
            assert!(matches!(e, ResolveError::InvalidParams));
            assert_eq!(e.message(), "provide exactly one of 'path' or 'content'");
        }
        _ => panic!("expected an error"),
    }
    assert!(resolve_path_or_content(Some("a".to_string()), Some("b".to_string()), None).is_err());
}

#[test]
fn announces_the_tools() {
    let text = server_instructions();
    assert!(text.starts_with("Agent-Immune MCP server provides security scanning tools:\n"));
    assert!(text.contains("- immune_lint_ast:     Pattern-based security linting for python / javascript"));
}

#[test]
fn a_clean_first_line_shifts_warnings_down() {
    let code = "x = eval(y)\nos.popen(c)";
    let before = match lint_code(code, "python") {
        Ok(w) => w,
        Err(_) => panic!("supported"),
    };
    let after = match lint_code(&format!("# clean \u{e9}\n{code}"), "python") {
        Ok(w) => w,
        Err(_) => panic!("supported"),
    };
    assert_eq!(before.len(), after.len());
    for (b, a) in before.iter().zip(after.iter()) {
        assert_eq!(a.line, b.line + 1);
        assert_eq!(a.column, b.column);
        assert_eq!(a.message, b.message);
    }
}
