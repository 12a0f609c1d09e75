//! Tests of expression scanning and placeholder substitution.

use yaml_tftpl_lsp::expressions::ExpressionKind;
use yaml_tftpl_lsp::preprocessor::{find_matching_brace, offset_to_line_col, preprocess_expressions};

#[test]
fn test_preprocess_terraform_expression() {
    let input = "value: ${var.name}";
    let (result, map) = preprocess_expressions(input);

    assert!(result.contains("__EXPR_"));
    assert!(!result.contains("${"));
    assert_eq!(map.expressions.len(), 1);
    assert_eq!(map.expressions[0].kind, ExpressionKind::Terraform);
}

#[test]
fn test_preprocess_workflows_expression() {
    let input = "value: $${sys.now()}";
    let (result, map) = preprocess_expressions(input);

    assert!(result.contains("__EXPR_"));
    assert!(!result.contains("$${"));
    assert_eq!(map.expressions.len(), 1);
    assert_eq!(map.expressions[0].kind, ExpressionKind::Workflows);
}

#[test]
fn test_preprocess_nested_braces() {
    let input = "value: ${jsonencode({key: \"value\"})}";
    let (result, map) = preprocess_expressions(input);

    assert!(result.contains("__EXPR_"));
    assert_eq!(map.expressions.len(), 1);
}

#[test]
fn test_preprocess_multiple_expressions() {
    let input = "a: ${var.a}\nb: $${sys.get_env(\"KEY\")}";
    let (result, map) = preprocess_expressions(input);

    assert!(!result.contains("${"));
    assert!(!result.contains("$${"));
    assert_eq!(map.expressions.len(), 2);
}

#[test]
fn test_offset_to_line_col() {
    let text = "line1\nline2\nline3";
    assert_eq!(offset_to_line_col(text, 0), (0, 0));
    assert_eq!(offset_to_line_col(text, 5), (0, 5));
    assert_eq!(offset_to_line_col(text, 6), (1, 0));
    assert_eq!(offset_to_line_col(text, 10), (1, 4));
}

#[test]
fn test_deeply_nested_braces() {
    // Deeply nested braces inside the expression
    let input = r#"config: ${jsonencode({a: {b: {c: "value"}}})}"#;
    let (result, map) = preprocess_expressions(input);

    assert!(result.contains("__EXPR_"));
    assert!(!result.contains("${"));
    assert_eq!(map.expressions.len(), 1);
    assert_eq!(
        map.expressions[0].original,
        r#"${jsonencode({a: {b: {c: "value"}}})}"#
    );
}

#[test]
fn test_escaped_quotes_in_expression() {
    // Expressions with escaped quotes inside strings
    let input = r#"value: ${format("Hello \"world\"")}"#;
    let (result, map) = preprocess_expressions(input);

    assert!(result.contains("__EXPR_"));
    assert_eq!(map.expressions.len(), 1);
    assert_eq!(
        map.expressions[0].original,
        r#"${format("Hello \"world\"")}"#
    );
}

#[test]
fn test_multiline_expression() {
    let input = r#"config: ${jsonencode({
  key1: "value1",
  key2: "value2"
})}"#;
    let (result, map) = preprocess_expressions(input);

    assert!(result.contains("__EXPR_"));
    assert_eq!(map.expressions.len(), 1);
    assert!(map.expressions[0].original.contains("key1"));
    assert!(map.expressions[0].original.contains("key2"));
    // The expression should span multiple lines
    assert!(map.expressions[0].start_line < map.expressions[0].end_line);
}

#[test]
fn test_expression_inside_yaml_string() {
    let input = r#"message: "Hello ${var.name}!""#;
    let (result, map) = preprocess_expressions(input);

    assert!(result.contains("__EXPR_"));
    assert_eq!(map.expressions.len(), 1);
    assert_eq!(map.expressions[0].original, "${var.name}");
}

#[test]
fn test_workflows_with_function_call() {
    let input = r#"time: $${sys.now()}"#;
    let (result, map) = preprocess_expressions(input);

    assert!(result.contains("__EXPR_"));
    assert_eq!(map.expressions.len(), 1);
    assert_eq!(map.expressions[0].kind, ExpressionKind::Workflows);
    assert_eq!(map.expressions[0].original, "$${sys.now()}");
}

#[test]
fn test_workflows_with_nested_expression() {
    let input = r#"result: $${map.get(data, "key")}"#;
    let (result, map) = preprocess_expressions(input);

    assert!(result.contains("__EXPR_"));
    assert_eq!(map.expressions.len(), 1);
    assert_eq!(map.expressions[0].kind, ExpressionKind::Workflows);
}

#[test]
fn test_mixed_terraform_and_workflows() {
    let input = r#"project: ${var.project_id}
timestamp: $${sys.now()}
config: ${jsonencode(var.config)}
value: $${data.get("key")}"#;
    let (result, map) = preprocess_expressions(input);

    assert!(!result.contains("${"));
    assert!(!result.contains("$${"));
    assert_eq!(map.expressions.len(), 4);

    let terraform_count = map
        .expressions
        .iter()
        .filter(|e| e.kind == ExpressionKind::Terraform)
        .count();
    let workflows_count = map
        .expressions
        .iter()
        .filter(|e| e.kind == ExpressionKind::Workflows)
        .count();
    assert_eq!(terraform_count, 2);
    assert_eq!(workflows_count, 2);
}

#[test]
fn test_unclosed_brace_not_matched() {
    // Unclosed braces should not be matched as expressions
    let input = "value: ${var.name";
    let (_result, map) = preprocess_expressions(input);

    assert_eq!(map.expressions.len(), 0);
}

#[test]
fn test_no_expressions() {
    let input = "key: value\nlist:\n  - item1\n  - item2";
    let (result, map) = preprocess_expressions(input);

    assert_eq!(result, input);
    assert_eq!(map.expressions.len(), 0);
}

#[test]
fn test_expression_at_start_of_line() {
    let input = "${var.value}: key";
    let (result, map) = preprocess_expressions(input);

    assert!(result.contains("__EXPR_"));
    assert_eq!(map.expressions.len(), 1);
    assert_eq!(map.expressions[0].start_column, 0);
}

#[test]
fn preprocessor_test_multiple_expressions_same_line() {
    let input = "args: [${var.a}, ${var.b}, ${var.c}]";
    let (result, map) = preprocess_expressions(input);

    assert!(!result.contains("${"));
    assert_eq!(map.expressions.len(), 3);

    // All on line 0
    for expr in &map.expressions {
        assert_eq!(expr.start_line, 0);
    }
}

#[test]
fn test_single_quoted_strings_in_expression() {
    let input = r#"value: ${format('Hello %s', var.name)}"#;
    let (result, map) = preprocess_expressions(input);

    assert!(result.contains("__EXPR_"));
    assert_eq!(map.expressions.len(), 1);
}

#[test]
fn test_expression_positions() {
    let input = "name: ${var.name}\nage: ${var.age}";
    let (_, map) = preprocess_expressions(input);

    assert_eq!(map.expressions.len(), 2);

    // First expression on line 0
    let first = &map.expressions[0];
    assert_eq!(first.start_line, 0);
    assert_eq!(first.start_column, 6); // after "name: "

    // Second expression on line 1
    let second = &map.expressions[1];
    assert_eq!(second.start_line, 1);
    assert_eq!(second.start_column, 5); // after "age: "
}

#[test]
fn test_brace_matching_function() {
    assert_eq!(find_matching_brace("{}", 0), Some(2));
    assert_eq!(find_matching_brace("{a}", 0), Some(3));
    assert_eq!(find_matching_brace("{a{b}c}", 0), Some(7));
    assert_eq!(find_matching_brace("{", 0), None); // unclosed
    assert_eq!(find_matching_brace("abc", 0), None); // not a brace
}

#[test]
fn test_brace_matching_with_strings() {
    // Braces inside strings should be ignored
    assert_eq!(find_matching_brace(r#"{"a": "}"}"#, 0), Some(10));
    assert_eq!(find_matching_brace(r#"{"\""}"#, 0), Some(6));
}

#[test]
fn test_placeholder_format_exact() {
    let input = "value: ${var.name}";
    let (result, map) = preprocess_expressions(input);

    assert_eq!(result, "value: __EXPR_000__");
    assert_eq!(map.expressions[0].placeholder, "__EXPR_000__");
    assert_eq!(map.expressions[0].start, 7);
    assert_eq!(map.expressions[0].end, 18);
}

#[test]
fn test_placeholders_numbered_in_document_order() {
    let input = "a: ${var.a}\nb: ${var.b}";
    let (result, map) = preprocess_expressions(input);

    assert_eq!(result, "a: __EXPR_000__\nb: __EXPR_001__");
    assert_eq!(map.expressions[0].placeholder, "__EXPR_000__");
    assert_eq!(map.expressions[1].placeholder, "__EXPR_001__");
}

#[test]
fn test_adjacent_mixed_expressions() {
    // A doubly-delimited expression immediately adjacent to a singly-delimited
    // one on the same line
    let input = "value: $${sys.now()}${var.x}";
    let (result, map) = preprocess_expressions(input);

    assert!(!result.contains("${"));
    assert_eq!(map.expressions.len(), 2);
    assert_eq!(map.expressions[0].kind, ExpressionKind::Workflows);
    assert_eq!(map.expressions[0].original, "$${sys.now()}");
    assert_eq!(map.expressions[0].start, 7);
    assert_eq!(map.expressions[0].end, 20);
    assert_eq!(map.expressions[1].kind, ExpressionKind::Terraform);
    assert_eq!(map.expressions[1].original, "${var.x}");
    assert_eq!(map.expressions[1].start, 20);
    assert_eq!(map.expressions[1].end, 28);
}

#[test]
fn test_unterminated_opener_leaves_text_unmodified() {
    // A lone unterminated opener: nothing recorded, text unchanged
    let input = "${x";
    let (result, map) = preprocess_expressions(input);

    assert_eq!(result, "${x");
    assert_eq!(map.expressions.len(), 0);
}

#[test]
fn test_unterminated_opener_does_not_suppress_others() {
    // An unterminated opener must not suppress detection of an unrelated,
    // well-formed expression later in the text (the brace of the later
    // expression closes the earlier opener's scan first).
    let input = "a: ${oops\nb: ${var.b}\nc: ${var.c}";
    let (_result, map) = preprocess_expressions(input);

    assert!(map.expressions.len() >= 1);
    assert!(map.expressions.iter().any(|e| e.original == "${var.c}"));
}
