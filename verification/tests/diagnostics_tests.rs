//! Tests of diagnostic codes and the collector.

use yaml_tftpl_lsp::diagnostics::{DiagnosticCode, DiagnosticCollector, Severity};

#[test]
fn test_diagnostic_code_from_message() {
    assert_eq!(
        DiagnosticCode::from_message("invalid indentation"),
        DiagnosticCode::InvalidIndentation
    );
    assert_eq!(
        DiagnosticCode::from_message("mapping values are not allowed"),
        DiagnosticCode::InvalidIndentation
    );
    assert_eq!(
        DiagnosticCode::from_message("unclosed string"),
        DiagnosticCode::UnclosedString
    );
    assert_eq!(
        DiagnosticCode::from_message("unterminated quote"),
        DiagnosticCode::UnclosedString
    );
    assert_eq!(
        DiagnosticCode::from_message("some other error"),
        DiagnosticCode::YamlSyntax
    );
}

#[test]
fn test_add_yaml_error() {
    let mut collector = DiagnosticCollector::new();
    collector.add_yaml_error("test error".to_string(), 5, 10);

    let diagnostics = collector.into_diagnostics();
    assert_eq!(diagnostics.len(), 1);
    assert_eq!(diagnostics[0].start_line, 5);
    assert_eq!(diagnostics[0].start_column, 10);
    assert_eq!(diagnostics[0].severity, Severity::Error);
    assert_eq!(diagnostics[0].source, "yaml-tftpl-lsp");
}

#[test]
fn test_add_yaml_error_with_range() {
    let mut collector = DiagnosticCollector::new();
    collector.add_yaml_error_with_range(
        "test error".to_string(),
        5,
        10,
        5,
        20,
        DiagnosticCode::YamlSyntax,
    );

    let diagnostics = collector.into_diagnostics();
    assert_eq!(diagnostics.len(), 1);
    assert_eq!(diagnostics[0].start_line, 5);
    assert_eq!(diagnostics[0].start_column, 10);
    assert_eq!(diagnostics[0].end_line, 5);
    assert_eq!(diagnostics[0].end_column, 20);
}

#[test]
fn test_diagnostic_code_string() {
    assert_eq!(DiagnosticCode::YamlSyntax.as_str(), "yaml-syntax");
    assert_eq!(
        DiagnosticCode::InvalidIndentation.as_str(),
        "invalid-indentation"
    );
    assert_eq!(DiagnosticCode::UnclosedString.as_str(), "unclosed-string");
}

#[test]
fn test_workflow_warning() {
    let mut collector = DiagnosticCollector::new();
    collector.add_workflow_warning("missing steps".to_string(), 0, 0);

    let diagnostics = collector.into_diagnostics();
    assert_eq!(diagnostics.len(), 1);
    assert_eq!(diagnostics[0].severity, Severity::Warning);
}

#[test]
fn test_hint() {
    let mut collector = DiagnosticCollector::new();
    collector.add_hint("unknown keyword".to_string(), 0, 0);

    let diagnostics = collector.into_diagnostics();
    assert_eq!(diagnostics.len(), 1);
    assert_eq!(diagnostics[0].severity, Severity::Hint);
}

#[test]
fn test_len_and_is_empty() {
    let mut collector = DiagnosticCollector::new();
    assert!(collector.is_empty());
    assert_eq!(collector.len(), 0);

    collector.add_yaml_error("error".to_string(), 0, 0);
    assert!(!collector.is_empty());
    assert_eq!(collector.len(), 1);
}

#[test]
fn test_remaining_code_strings() {
    assert_eq!(
        DiagnosticCode::WorkflowStructure.as_str(),
        "workflow-structure"
    );
    assert_eq!(DiagnosticCode::UnknownKeyword.as_str(), "unknown-keyword");
}

#[test]
fn test_from_message_is_case_insensitive() {
    assert_eq!(
        DiagnosticCode::from_message("UNCLOSED string"),
        DiagnosticCode::UnclosedString
    );
    assert_eq!(
        DiagnosticCode::from_message("Bad Indentation"),
        DiagnosticCode::InvalidIndentation
    );
}
