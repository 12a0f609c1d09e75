//! Tests of the workflow structure validator.

use yaml_tftpl_lsp::diagnostics::{Diagnostic, DiagnosticCollector};
use yaml_tftpl_lsp::expressions::ExpressionMap;
use yaml_tftpl_lsp::validator::validate_workflow;
use yaml_tftpl_lsp::yaml::parse_yaml;

fn parse_and_validate(yaml: &str) -> Vec<Diagnostic> {
    let expression_map = ExpressionMap::new();
    let mut parse_collector = DiagnosticCollector::new();
    let result = parse_yaml(yaml, &expression_map, &mut parse_collector);
    let value = result.value.expect("test YAML should parse");
    let mut collector = DiagnosticCollector::new();
    validate_workflow(&value, yaml, &mut collector);
    collector.into_diagnostics()
}

#[test]
fn test_valid_workflow() {
    let yaml = r#"
main:
  steps:
    - init:
        assign:
          - result: "hello"
    - done:
        return: result
"#;
    let diagnostics = parse_and_validate(yaml);
    assert!(
        diagnostics.is_empty(),
        "Expected no diagnostics, got: {:?}",
        diagnostics
    );
}

#[test]
fn test_missing_main() {
    let yaml = r#"
other:
  steps:
    - init:
        assign:
          - x: 1
"#;
    let diagnostics = parse_and_validate(yaml);
    assert!(diagnostics.iter().any(|d| d.message.contains("'main'")));
}

#[test]
fn test_main_missing_steps() {
    let yaml = r#"
main:
  params:
    - name
"#;
    let diagnostics = parse_and_validate(yaml);
    assert!(diagnostics.iter().any(|d| d.message.contains("'steps'")));
}

#[test]
fn test_steps_not_a_list() {
    let yaml = r#"
main:
  steps:
    init:
      assign:
        - x: 1
"#;
    let diagnostics = parse_and_validate(yaml);
    assert!(diagnostics
        .iter()
        .any(|d| d.message.contains("'steps' must be a list")));
}

#[test]
fn test_unknown_top_level_key() {
    let yaml = r#"
main:
  steps:
    - init:
        assign:
          - x: 1
something_else: true
"#;
    let diagnostics = parse_and_validate(yaml);
    assert!(diagnostics
        .iter()
        .any(|d| d.message.contains("Unknown workflow element")));
}

#[test]
fn test_valid_subworkflow() {
    let yaml = r#"
main:
  steps:
    - callSub:
        call: helper
        args:
          name: "test"
helper:
  params:
    - name
  steps:
    - init:
        assign:
          - x: 1
"#;
    let diagnostics = parse_and_validate(yaml);
    assert!(
        diagnostics.is_empty(),
        "Expected no diagnostics, got: {:?}",
        diagnostics
    );
}

#[test]
fn test_workflow_with_expressions() {
    // After preprocessing, expressions become placeholders, so the YAML
    // structure should still validate correctly
    let yaml = r#"
main:
  steps:
    - init:
        assign:
          - project: __EXPR_000__
          - timestamp: __EXPR_001__
"#;
    let diagnostics = parse_and_validate(yaml);
    assert!(
        diagnostics.is_empty(),
        "Expected no diagnostics, got: {:?}",
        diagnostics
    );
}

#[test]
fn test_non_mapping_document() {
    let yaml = "- item1\n- item2";
    let expression_map = ExpressionMap::new();
    let mut parse_collector = DiagnosticCollector::new();
    let result = parse_yaml(yaml, &expression_map, &mut parse_collector);
    let value = result.value.unwrap();
    let mut collector = DiagnosticCollector::new();
    validate_workflow(&value, yaml, &mut collector);
    let diagnostics = collector.into_diagnostics();
    assert!(diagnostics
        .iter()
        .any(|d| d.message.contains("YAML mapping")));
}

#[test]
fn test_warning_positions_point_at_keys() {
    let yaml = "main:\n  params:\n    - name\n";
    let diagnostics = parse_and_validate(yaml);
    // The missing-steps warning is placed on the line of the `main` key
    assert_eq!(diagnostics.len(), 1);
    assert_eq!(diagnostics[0].start_line, 0);
    assert_eq!(diagnostics[0].message, "'main' block must contain 'steps'");
}
