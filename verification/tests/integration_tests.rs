//! Integration tests: the diagnostic pipeline end to end, from document text
//! to positioned diagnostics.

use yaml_tftpl_lsp::diagnostics::{Diagnostic, DiagnosticCollector, Severity};
use yaml_tftpl_lsp::pipeline::compute_diagnostics;
use yaml_tftpl_lsp::preprocessor::preprocess_expressions;
use yaml_tftpl_lsp::yaml::parse_yaml;

/// Compute only YAML parse diagnostics (no workflow structure validation).
fn compute_yaml_diagnostics(text: &str) -> Vec<Diagnostic> {
    let mut collector = DiagnosticCollector::new();
    let (preprocessed, expression_map) = preprocess_expressions(text);
    parse_yaml(&preprocessed, &expression_map, &mut collector);
    collector.into_diagnostics()
}

#[test]
fn test_simple_yaml_with_terraform_expressions() {
    let text = r#"
name: ${var.project_name}
config:
  enabled: true
  value: ${var.config_value}
"#;

    let diagnostics = compute_yaml_diagnostics(text);
    assert!(
        diagnostics.is_empty(),
        "Expected no diagnostics for valid YAML with Terraform expressions"
    );
}

#[test]
fn test_simple_yaml_with_workflows_expressions() {
    let text = r#"
main:
  steps:
    - log:
        call: sys.log
        args:
          text: $${sys.now()}
"#;

    let diagnostics = compute_diagnostics(text);
    assert!(
        diagnostics.is_empty(),
        "Expected no diagnostics for valid YAML with Workflows expressions"
    );
}

#[test]
fn test_mixed_expressions() {
    let text = r#"
project: ${var.project_id}
main:
  steps:
    - init:
        assign:
          - now: $${sys.now()}
          - config: ${jsonencode(var.config)}
"#;

    let diagnostics = compute_yaml_diagnostics(text);
    assert!(
        diagnostics.is_empty(),
        "Expected no diagnostics for mixed expressions"
    );
}

#[test]
fn test_nested_terraform_expressions() {
    let text = r#"
config: ${jsonencode({
  key1: "value1",
  nested: {
    key2: "value2"
  }
})}
"#;

    let diagnostics = compute_yaml_diagnostics(text);
    assert!(
        diagnostics.is_empty(),
        "Expected no diagnostics for nested Terraform expressions"
    );
}

#[test]
fn test_invalid_yaml_produces_diagnostic() {
    let text = r#"
key: value
  bad: indentation
"#;

    let diagnostics = compute_diagnostics(text);
    assert!(
        !diagnostics.is_empty(),
        "Expected at least one diagnostic for invalid YAML"
    );
}

#[test]
fn test_unclosed_quote_produces_diagnostic() {
    let text = r#"
key: "unclosed string
another: value
"#;

    let diagnostics = compute_diagnostics(text);
    assert!(
        !diagnostics.is_empty(),
        "Expected diagnostic for unclosed quote"
    );
}

#[test]
fn test_empty_document() {
    let text = "";

    let diagnostics = compute_yaml_diagnostics(text);
    assert!(diagnostics.is_empty(), "Empty document should be valid");
}

#[test]
fn test_comment_only_document() {
    let text = r#"
# This is a comment
# Another comment
"#;

    let diagnostics = compute_yaml_diagnostics(text);
    assert!(
        diagnostics.is_empty(),
        "Comment-only document should be valid"
    );
}

#[test]
fn test_complex_workflow_template() {
    let text = r#"
main:
  params:
    - project_id
    - region
  steps:
    - initialize:
        assign:
          - project: ${var.project_id}
          - now: $${sys.now()}
    - callApi:
        try:
          call: http.post
          args:
            url: https://api.example.com/${var.endpoint}
            body:
              timestamp: $${now}
              project: $${project}
          result: response
        except:
          as: e
          steps:
            - logError:
                call: sys.log
                args:
                  text: $${e.message}
    - returnResult:
        return: $${response}
"#;

    let diagnostics = compute_diagnostics(text);
    assert!(
        diagnostics.is_empty(),
        "Complex workflow template should be valid, got: {:?}",
        diagnostics
    );
}

#[test]
fn test_diagnostic_has_correct_source() {
    let text = "key:\n  bad: indent";

    let diagnostics = compute_diagnostics(text);
    if !diagnostics.is_empty() {
        assert_eq!(
            diagnostics[0].source, "yaml-tftpl-lsp",
            "Diagnostic source should be yaml-tftpl-lsp"
        );
    }
}

#[test]
fn test_diagnostic_severity_is_error_for_yaml_syntax() {
    let text = "key: \"unclosed";

    let diagnostics = compute_diagnostics(text);
    assert!(!diagnostics.is_empty());
    assert_eq!(
        diagnostics[0].severity,
        Severity::Error,
        "YAML syntax errors should have ERROR severity"
    );
}

#[test]
fn test_diagnostic_has_code() {
    let text = "key: \"unclosed";

    let diagnostics = compute_diagnostics(text);
    assert!(!diagnostics.is_empty());

    assert!(
        diagnostics[0].code.is_some(),
        "Diagnostic should have a code"
    );
}

#[test]
fn test_diagnostic_range_is_valid() {
    let text = "key:\n  bad: indent";

    let diagnostics = compute_diagnostics(text);
    if !diagnostics.is_empty() {
        let d = &diagnostics[0];
        assert!(
            d.end_line >= d.start_line,
            "Diagnostic end line should be >= start line"
        );
        if d.end_line == d.start_line {
            assert!(
                d.end_column >= d.start_column,
                "On same line, end character should be >= start character"
            );
        }
    }
}

#[test]
fn test_expression_in_yaml_string() {
    let text = r#"
message: "Hello ${var.name}!"
timestamp: $${sys.now()}
"#;

    let diagnostics = compute_yaml_diagnostics(text);
    assert!(
        diagnostics.is_empty(),
        "Expressions in strings should be valid"
    );
}

#[test]
fn integration_tests_test_multiple_expressions_same_line() {
    let text = "args: [${var.a}, ${var.b}, ${var.c}]";

    let diagnostics = compute_yaml_diagnostics(text);
    assert!(
        diagnostics.is_empty(),
        "Multiple expressions on same line should be valid"
    );
}

#[test]
fn test_expression_at_yaml_key_position() {
    let text = "${var.key}: value";

    let diagnostics = compute_yaml_diagnostics(text);
    assert!(
        diagnostics.is_empty(),
        "Expression as YAML key should be valid"
    );
}

#[test]
fn test_deeply_nested_yaml_with_expressions() {
    let text = r#"
level1:
  level2:
    level3:
      level4:
        value: ${var.deep_value}
        timestamp: $${sys.now()}
        config:
          setting1: true
          setting2: ${var.setting}
"#;

    let diagnostics = compute_yaml_diagnostics(text);
    assert!(
        diagnostics.is_empty(),
        "Deeply nested YAML with expressions should be valid"
    );
}

#[test]
fn test_workflow_missing_main_produces_warning() {
    let text = r#"
helper:
  steps:
    - init:
        assign:
          - x: 1
"#;

    let diagnostics = compute_diagnostics(text);
    assert!(
        diagnostics.iter().any(|d| d.message.contains("'main'")),
        "Missing 'main' block should produce a warning, got: {:?}",
        diagnostics
    );
}

#[test]
fn test_workflow_main_missing_steps_produces_warning() {
    let text = r#"
main:
  params:
    - project_id
"#;

    let diagnostics = compute_diagnostics(text);
    assert!(
        diagnostics.iter().any(|d| d.message.contains("'steps'")),
        "Main block without 'steps' should produce a warning, got: {:?}",
        diagnostics
    );
}

#[test]
fn test_workflow_steps_not_a_list() {
    let text = r#"
main:
  steps:
    init:
      assign:
        - x: 1
"#;

    let diagnostics = compute_diagnostics(text);
    assert!(
        diagnostics
            .iter()
            .any(|d| d.message.contains("'steps' must be a list")),
        "Non-list 'steps' should produce a warning, got: {:?}",
        diagnostics
    );
}

#[test]
fn test_workflow_unknown_top_level_key_produces_hint() {
    let text = r#"
main:
  steps:
    - init:
        assign:
          - x: 1
unknown_key: true
"#;

    let diagnostics = compute_diagnostics(text);
    assert!(
        diagnostics
            .iter()
            .any(|d| d.message.contains("Unknown workflow element")),
        "Unknown top-level key should produce a hint, got: {:?}",
        diagnostics
    );
}

#[test]
fn test_workflow_valid_subworkflow_no_extra_warnings() {
    let text = r#"
main:
  steps:
    - callHelper:
        call: helper
        args:
          name: "test"
helper:
  params:
    - name
  steps:
    - greet:
        assign:
          - msg: "hello"
"#;

    let diagnostics = compute_diagnostics(text);
    // No errors or warnings (hints about unknown step modifiers are acceptable)
    let errors_and_warnings: Vec<_> = diagnostics
        .iter()
        .filter(|d| d.severity != Severity::Hint)
        .collect();
    assert!(
        errors_and_warnings.is_empty(),
        "Valid workflow with subworkflow should produce no errors/warnings, got: {:?}",
        errors_and_warnings
    );
}

#[test]
fn test_workflow_with_expressions_validates_structure() {
    let text = r#"
main:
  steps:
    - init:
        assign:
          - project: ${var.project_id}
          - timestamp: $${sys.now()}
    - callApi:
        call: http.post
        args:
          url: https://api.example.com/${var.endpoint}
        result: response
    - done:
        return: $${response}
"#;

    let diagnostics = compute_diagnostics(text);
    assert!(
        diagnostics.is_empty(),
        "Valid workflow with expressions should pass validation, got: {:?}",
        diagnostics
    );
}

#[test]
fn test_non_mapping_document_produces_warning() {
    let text = r#"
- item1
- item2
- item3
"#;

    let diagnostics = compute_diagnostics(text);
    assert!(
        diagnostics
            .iter()
            .any(|d| d.message.contains("YAML mapping")),
        "Non-mapping document should produce a warning, got: {:?}",
        diagnostics
    );
}

#[test]
fn test_scenario_terraform_value() {
    // End-to-end: one Terraform-kind expression, rewritten text parses, no
    // diagnostics
    let text = "value: ${var.name}";
    let (rewritten, map) = preprocess_expressions(text);
    assert!(rewritten.contains("__EXPR_"));
    assert_eq!(map.expressions.len(), 1);
    assert_eq!(
        map.expressions[0].kind,
        yaml_tftpl_lsp::expressions::ExpressionKind::Terraform
    );

    let diagnostics = compute_yaml_diagnostics(text);
    assert!(diagnostics.is_empty());
}

#[test]
fn test_scenario_unclosed_quote() {
    // End-to-end: no delimiters, parse fails, exactly one error diagnostic
    // with a non-empty message and a valid range
    let text = "key: \"unclosed";
    let (_, map) = preprocess_expressions(text);
    assert_eq!(map.expressions.len(), 0);

    let diagnostics = compute_yaml_diagnostics(text);
    assert_eq!(diagnostics.len(), 1);
    let d = &diagnostics[0];
    assert_eq!(d.severity, Severity::Error);
    assert!(!d.message.is_empty());
    assert!(d.end_line >= d.start_line);
    assert!(d.end_line > d.start_line || d.end_column >= d.start_column);
}

#[test]
fn test_document_state() {
    let doc = yaml_tftpl_lsp::document::Document::new("a: 1".to_string(), 3);
    assert_eq!(doc.text, "a: 1");
    assert_eq!(doc.version, 3);
}
