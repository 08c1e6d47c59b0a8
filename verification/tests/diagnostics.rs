use monad::diagnostic_parsers::{
    cargo_message, eslint, golangci_lint, normalise_path, parse, ruff, ParserId, Severity,
};
use monad::json;

#[test]
fn parse_returns_empty_for_malformed_input() {
    for parser in ParserId::all() {
        assert_eq!(
            parse(parser, "garbage{", "", "/repo/apps/api", "/repo").len(),
            0,
            "{parser:?} should swallow malformed input"
        );
    }
}

#[test]
fn normalise_path_strips_workspace_prefix_for_absolute_paths() {
    let abs = "/repo/apps/api/main.go";
    assert_eq!(normalise_path(abs, "/repo/apps/api", "/repo"), "apps/api/main.go");
}

#[test]
fn normalise_path_resolves_relative_against_unit_dir() {
    assert_eq!(normalise_path("main.go", "/repo/apps/api", "/repo"), "apps/api/main.go");
    assert_eq!(
        normalise_path("./cmd/api/main.go", "/repo/apps/api", "/repo"),
        "apps/api/cmd/api/main.go"
    );
}

#[test]
fn normalise_path_returns_original_when_outside_workspace() {
    let outside = "/usr/lib/go/src/runtime/proc.go";
    let out = normalise_path(outside, "/repo/apps/api", "/repo");
    assert!(out.contains("runtime/proc.go"));
    assert_eq!(out, outside);
}

#[test]
fn normalise_path_uses_forward_slashes() {
    let out = normalise_path("src\\nested\\foo.rs", "/repo/apps/api", "/repo");
    assert!(!out.contains('\\'), "got: {out}");
}

#[test]
fn parses_a_compiler_message_with_primary_span() {
    let line = r#"{
            "reason": "compiler-message",
            "message": {
                "level": "error",
                "message": "cannot find value `Foo` in this scope",
                "code": {"code": "E0425", "explanation": "..."},
                "spans": [{
                    "file_name": "src/main.rs",
                    "is_primary": true,
                    "line_start": 5, "line_end": 5,
                    "column_start": 9, "column_end": 12
                }]
            }
        }"#
        .replace('\n', " ");

    let diags = cargo_message::parse(&line, "", "/repo/crates/foo", "/repo");
    assert_eq!(diags.len(), 1);
    let d = &diags[0];
    assert_eq!(d.file, "crates/foo/src/main.rs");
    assert_eq!(d.line, 5);
    assert_eq!(d.col, Some(9));
    assert_eq!(d.end_line, Some(5));
    assert_eq!(d.end_col, Some(12));
    assert_eq!(d.severity, Severity::Error);
    assert_eq!(d.message, "cannot find value `Foo` in this scope");
    assert_eq!(d.rule.as_deref(), Some("E0425"));
    assert_eq!(d.source, "cargo");
}

#[test]
fn ignores_non_compiler_message_lines() {
    let stdout = r#"{"reason":"build-script-executed","package_id":"x"}
{"reason":"compiler-artifact","target":{"name":"x"}}"#;
    assert!(cargo_message::parse(stdout, "", "/repo/crates/foo", "/repo").is_empty());
}

#[test]
fn skips_non_primary_spans() {
    let line = r#"{
            "reason": "compiler-message",
            "message": {
                "level": "warning",
                "message": "unused import",
                "spans": [
                    {"file_name": "src/lib.rs", "is_primary": false, "line_start": 1, "line_end": 1, "column_start": 1, "column_end": 5},
                    {"file_name": "src/lib.rs", "is_primary": true,  "line_start": 3, "line_end": 3, "column_start": 1, "column_end": 9}
                ]
            }
        }"#
        .replace('\n', " ");
    let diags = cargo_message::parse(&line, "", "/repo/crates/foo", "/repo");
    assert_eq!(diags.len(), 1);
    assert_eq!(diags[0].line, 3);
}

#[test]
fn maps_levels_to_severities() {
    for (level, want) in [
        ("error", Severity::Error),
        ("warning", Severity::Warning),
        ("note", Severity::Info),
        ("help", Severity::Hint),
    ] {
        let line = format!(
            r#"{{"reason":"compiler-message","message":{{"level":"{level}","message":"x","spans":[{{"file_name":"a.rs","is_primary":true,"line_start":1,"line_end":1,"column_start":1,"column_end":2}}]}}}}"#
        );
        let d = &cargo_message::parse(&line, "", "/repo/crates/foo", "/repo")[0];
        assert_eq!(d.severity, want, "level={level}");
    }
}

#[test]
fn handles_message_with_no_rule_code() {
    let line = r#"{"reason":"compiler-message","message":{"level":"warning","message":"hi","spans":[{"file_name":"a.rs","is_primary":true,"line_start":1,"line_end":1,"column_start":1,"column_end":2}]}}"#;
    let d = &cargo_message::parse(line, "", "/repo/crates/foo", "/repo")[0];
    assert!(d.rule.is_none());
}

#[test]
fn cargo_lines_that_are_no_json_are_passed_over() {
    let good = r#"{"reason":"compiler-message","message":{"level":"error","message":"m","spans":[{"file_name":"a.rs","is_primary":true,"line_start":7,"line_end":7,"column_start":1,"column_end":2}]}}"#;
    let stdout = format!("   Compiling foo v0.1.0\n{good}\n{{\n{good}");
    let diags = cargo_message::parse(&stdout, "", "/repo/crates/foo", "/repo");
    assert_eq!(diags.len(), 2);
    assert_eq!(diags[1].line, 7);
}

#[test]
fn parses_a_message_into_a_diagnostic() {
    let stdout = r#"[
            {
                "filePath": "/repo/apps/web/src/App.tsx",
                "messages": [{
                    "ruleId": "no-unused-vars",
                    "severity": 2,
                    "message": "'foo' is defined but never used.",
                    "line": 10, "column": 7,
                    "endLine": 10, "endColumn": 12
                }]
            }
        ]"#;
    let d = &eslint::parse(stdout, "", "/repo/apps/web", "/repo")[0];
    assert_eq!(d.file, "apps/web/src/App.tsx");
    assert_eq!(d.line, 10);
    assert_eq!(d.col, Some(7));
    assert_eq!(d.end_line, Some(10));
    assert_eq!(d.end_col, Some(12));
    assert_eq!(d.severity, Severity::Error);
    assert!(d.message.contains("not been used") || d.message.contains("never used"));
    assert_eq!(d.rule.as_deref(), Some("no-unused-vars"));
    assert_eq!(d.source, "eslint");
}

#[test]
fn severity_one_maps_to_warning() {
    let stdout = r#"[{"filePath":"/repo/apps/web/x.js","messages":[{"ruleId":"r","severity":1,"message":"m","line":1,"column":1}]}]"#;
    assert_eq!(
        eslint::parse(stdout, "", "/repo/apps/web", "/repo")[0].severity,
        Severity::Warning
    );
}

#[test]
fn missing_rule_id_yields_no_rule_field() {
    let stdout = r#"[{"filePath":"/repo/apps/web/x.js","messages":[{"ruleId":null,"severity":2,"message":"m","line":1,"column":1}]}]"#;
    assert!(eslint::parse(stdout, "", "/repo/apps/web", "/repo")[0].rule.is_none());
}

#[test]
fn file_with_no_messages_yields_no_diagnostics() {
    let stdout = r#"[{"filePath":"/repo/apps/web/clean.js","messages":[]}]"#;
    assert!(eslint::parse(stdout, "", "/repo/apps/web", "/repo").is_empty());
}

#[test]
fn multiple_files_each_contribute_diagnostics() {
    let stdout = r#"[
            {"filePath":"/repo/apps/web/a.js","messages":[{"ruleId":"r1","severity":2,"message":"a","line":1,"column":1}]},
            {"filePath":"/repo/apps/web/b.js","messages":[{"ruleId":"r2","severity":1,"message":"b","line":2,"column":2}]}
        ]"#;
    let diags = eslint::parse(stdout, "", "/repo/apps/web", "/repo");
    assert_eq!(diags.len(), 2);
    assert!(diags
        .iter()
        .any(|d| d.file == "apps/web/a.js" && d.severity == Severity::Error));
    assert!(diags
        .iter()
        .any(|d| d.file == "apps/web/b.js" && d.severity == Severity::Warning));
}

#[test]
fn golangci_lint_parses_an_issue_into_a_diagnostic() {
    let stdout = r#"{
            "Issues": [{
                "FromLinter": "errcheck",
                "Text": "Error return value of `os.Setenv` is not checked",
                "Severity": "",
                "Pos": {"Filename": "main.go", "Offset": 0, "Line": 42, "Column": 5}
            }],
            "Report": {}
        }"#;
    let diags = golangci_lint::parse(stdout, "", "/repo/apps/api", "/repo");
    assert_eq!(diags.len(), 1);
    let d = &diags[0];
    assert_eq!(d.file, "apps/api/main.go");
    assert_eq!(d.line, 42);
    assert_eq!(d.col, Some(5));
    assert_eq!(d.severity, Severity::Warning);
    assert!(d.message.contains("Error return value"));
    assert_eq!(d.rule.as_deref(), Some("errcheck"));
    assert_eq!(d.source, "golangci-lint");
}

#[test]
fn explicit_severity_overrides_default() {
    let stdout = r#"{"Issues":[{"FromLinter":"x","Text":"t","Severity":"error","Pos":{"Filename":"a.go","Line":1,"Column":1}}]}"#;
    assert_eq!(
        golangci_lint::parse(stdout, "", "/repo/apps/api", "/repo")[0].severity,
        Severity::Error
    );
}

#[test]
fn omits_zero_column_as_no_column() {
    let stdout = r#"{"Issues":[{"FromLinter":"x","Text":"t","Pos":{"Filename":"a.go","Line":5,"Column":0}}]}"#;
    let d = &golangci_lint::parse(stdout, "", "/repo/apps/api", "/repo")[0];
    assert!(d.col.is_none(), "column 0 should mean 'no column reported'");
}

#[test]
fn empty_issues_array_returns_empty() {
    let stdout = r#"{"Issues": [], "Report": {}}"#;
    assert!(golangci_lint::parse(stdout, "", "/repo/apps/api", "/repo").is_empty());
}

#[test]
fn missing_issues_field_returns_empty() {
    let stdout = r#"{"Report": {}}"#;
    assert!(golangci_lint::parse(stdout, "", "/repo/apps/api", "/repo").is_empty());
}

#[test]
fn ruff_parses_an_issue_into_a_diagnostic() {
    let stdout = r#"[{
            "code": "F401",
            "url": "https://docs.astral.sh/ruff/rules/unused-import",
            "message": "`os` imported but unused",
            "fix": null,
            "location": {"row": 1, "column": 1},
            "end_location": {"row": 1, "column": 10},
            "filename": "/repo/services/worker/src/main.py",
            "noqa_row": 1
        }]"#;
    let d = &ruff::parse(stdout, "", "/repo/services/worker", "/repo")[0];
    assert_eq!(d.file, "services/worker/src/main.py");
    assert_eq!(d.line, 1);
    assert_eq!(d.col, Some(1));
    assert_eq!(d.end_line, Some(1));
    assert_eq!(d.end_col, Some(10));
    assert_eq!(d.severity, Severity::Warning);
    assert_eq!(d.message, "`os` imported but unused");
    assert_eq!(d.rule.as_deref(), Some("F401"));
    assert_eq!(d.source, "ruff");
}

#[test]
fn empty_array_yields_empty() {
    assert!(ruff::parse("[]", "", "/repo/services/worker", "/repo").is_empty());
}

#[test]
fn issue_without_end_location_omits_range_fields() {
    let stdout = r#"[{
            "code": "F401",
            "message": "x",
            "location": {"row": 5, "column": 3},
            "filename": "src/main.py"
        }]"#;
    let d = &ruff::parse(stdout, "", "/repo/services/worker", "/repo")[0];
    assert_eq!(d.line, 5);
    assert_eq!(d.col, Some(3));
    assert!(d.end_line.is_none());
    assert!(d.end_col.is_none());
}

#[test]
fn json_trees_hold_what_the_text_says() {
    let v = json::parse(r#"{"a": [1, -2, 1.5, true, null, "x"], "b": {"c": 18446744073709551615}}"#).unwrap();
    let a = v.array_at("a").unwrap();
    assert_eq!(a.len(), 6);
    assert_eq!(a[0].as_u64(), Some(1));
    assert_eq!(a[1].as_u64(), None);
    assert_eq!(a[2].as_u64(), None);
    assert_eq!(a[3].as_bool(), Some(true));
    assert_eq!(a[4].as_str(), None);
    assert_eq!(a[5].as_str(), Some("x"));
    assert_eq!(v.get("b").unwrap().u64_at("c"), Some(u64::MAX));
    assert!(v.get("missing").is_none());
    assert!(json::parse("{").is_none());
}
