//! Tests of YAML parsing, error-position extraction and message cleaning.

use yaml_tftpl_lsp::diagnostics::DiagnosticCollector;
use yaml_tftpl_lsp::expressions::ExpressionMap;
use yaml_tftpl_lsp::preprocessor::preprocess_expressions;
use yaml_tftpl_lsp::yaml::{clean_error_message, extract_error_position, parse_yaml};

#[test]
fn test_parse_valid_yaml() {
    let yaml = "key: value\nlist:\n  - item1\n  - item2";
    let expression_map = ExpressionMap::new();
    let mut collector = DiagnosticCollector::new();

    let result = parse_yaml(yaml, &expression_map, &mut collector);

    assert!(result.success);
    assert!(result.value.is_some());
    assert!(collector.into_diagnostics().is_empty());
}

#[test]
fn test_parse_invalid_yaml_indentation() {
    let yaml = "key: value\n  bad: indentation";
    let expression_map = ExpressionMap::new();
    let mut collector = DiagnosticCollector::new();

    let result = parse_yaml(yaml, &expression_map, &mut collector);

    assert!(!result.success);
    assert!(result.value.is_none());
    let diagnostics = collector.into_diagnostics();
    assert!(!diagnostics.is_empty());
}

#[test]
fn test_parse_invalid_yaml_duplicate_key() {
    let yaml = "key:\n  - item\n subkey: value"; // Inconsistent indentation
    let expression_map = ExpressionMap::new();
    let mut collector = DiagnosticCollector::new();

    let result = parse_yaml(yaml, &expression_map, &mut collector);

    let diagnostics = collector.into_diagnostics();
    assert!(result.success || !diagnostics.is_empty());
}

#[test]
fn test_parse_invalid_yaml_unclosed_quote() {
    let yaml = "key: \"unclosed";
    let expression_map = ExpressionMap::new();
    let mut collector = DiagnosticCollector::new();

    let result = parse_yaml(yaml, &expression_map, &mut collector);

    assert!(!result.success);
    let diagnostics = collector.into_diagnostics();
    assert!(!diagnostics.is_empty());
}

#[test]
fn test_parse_invalid_yaml_bad_list_format() {
    let yaml = "list:\n  - item1\n   - item2"; // Misaligned list items
    let expression_map = ExpressionMap::new();
    let mut collector = DiagnosticCollector::new();

    let result = parse_yaml(yaml, &expression_map, &mut collector);

    let diagnostics = collector.into_diagnostics();
    assert!(result.success || !diagnostics.is_empty());
}

#[test]
fn test_extract_error_position() {
    assert_eq!(extract_error_position("error at line 5 column 10"), (4, 9));
    assert_eq!(
        extract_error_position("some error without position"),
        (0, 0)
    );
    assert_eq!(extract_error_position("at line 1 column 1"), (0, 0));
    assert_eq!(
        extract_error_position("mapping values at line 10 column 25"),
        (9, 24)
    );
}

#[test]
fn test_clean_error_message() {
    assert_eq!(
        clean_error_message("invalid YAML at line 5 column 10"),
        "invalid YAML"
    );
    assert_eq!(
        clean_error_message("some error without position"),
        "some error without position"
    );
    assert_eq!(
        clean_error_message("mapping values are not allowed at line 2 column 3"),
        "mapping values are not allowed"
    );
}

#[test]
fn test_parse_yaml_with_expression_placeholders() {
    let original = "name: ${var.name}\nage: 30";
    let (preprocessed, expression_map) = preprocess_expressions(original);

    let mut collector = DiagnosticCollector::new();
    let result = parse_yaml(&preprocessed, &expression_map, &mut collector);

    assert!(result.success);
    assert!(collector.into_diagnostics().is_empty());
}

#[test]
fn test_parse_yaml_with_workflows_expression() {
    let original = "timestamp: $${sys.now()}\nvalue: test";
    let (preprocessed, expression_map) = preprocess_expressions(original);

    let mut collector = DiagnosticCollector::new();
    let result = parse_yaml(&preprocessed, &expression_map, &mut collector);

    assert!(result.success);
    assert!(collector.into_diagnostics().is_empty());
}

#[test]
fn test_error_position_adjustment_after_expression() {
    // An error after an expression placeholder maps back to the right line
    let original = "name: ${var.name}\n  bad: indentation";
    let (preprocessed, expression_map) = preprocess_expressions(original);

    let mut collector = DiagnosticCollector::new();
    let _result = parse_yaml(&preprocessed, &expression_map, &mut collector);

    let diagnostics = collector.into_diagnostics();
    assert!(!diagnostics.is_empty());
    // The error should be on line 1 (0-indexed)
    assert_eq!(diagnostics[0].start_line, 1);
}

#[test]
fn test_parse_complex_valid_yaml() {
    let yaml = r#"
main:
  params:
    - name
    - age
  steps:
    - initialize:
        assign:
          - result: "Hello"
    - returnValue:
        return: result
"#;
    let expression_map = ExpressionMap::new();
    let mut collector = DiagnosticCollector::new();

    let result = parse_yaml(yaml, &expression_map, &mut collector);

    assert!(result.success);
    assert!(collector.into_diagnostics().is_empty());
}

#[test]
fn test_parse_yaml_with_nested_expressions() {
    let original = r#"config: ${jsonencode({
  key1: "value1",
  key2: "value2"
})}
other: value"#;
    let (preprocessed, expression_map) = preprocess_expressions(original);

    let mut collector = DiagnosticCollector::new();
    let result = parse_yaml(&preprocessed, &expression_map, &mut collector);

    assert!(result.success);
    assert!(collector.into_diagnostics().is_empty());
}

#[test]
fn test_parse_mixed_expressions() {
    let original = r#"project: ${var.project_id}
timestamp: $${sys.now()}
config:
  enabled: true
  value: ${var.value}"#;
    let (preprocessed, expression_map) = preprocess_expressions(original);

    let mut collector = DiagnosticCollector::new();
    let result = parse_yaml(&preprocessed, &expression_map, &mut collector);

    assert!(result.success);
    assert!(collector.into_diagnostics().is_empty());
}

#[test]
fn test_parse_empty_yaml() {
    let yaml = "";
    let expression_map = ExpressionMap::new();
    let mut collector = DiagnosticCollector::new();

    let result = parse_yaml(yaml, &expression_map, &mut collector);

    assert!(result.success);
}

#[test]
fn test_parse_yaml_comment_only() {
    let yaml = "# This is a comment\n# Another comment";
    let expression_map = ExpressionMap::new();
    let mut collector = DiagnosticCollector::new();

    let result = parse_yaml(yaml, &expression_map, &mut collector);

    assert!(result.success);
}

#[test]
fn test_extract_error_position_overflowing_number() {
    // A line number too large for u32 reads as 1, so the 0-indexed result is 0
    assert_eq!(
        extract_error_position("oops at line 99999999999999999999 column 2"),
        (0, 1)
    );
}

#[test]
fn test_clean_error_message_keeps_inner_locator() {
    // Only a trailing locator is stripped
    assert_eq!(
        clean_error_message("at line 1 column 2 is fine"),
        "at line 1 column 2 is fine"
    );
}
