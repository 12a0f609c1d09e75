//! Tests of expression records and position mapping.

use yaml_tftpl_lsp::expressions::{Expression, ExpressionKind, ExpressionMap};

fn sample_expression() -> Expression {
    Expression {
        original: "${var.name}".to_string(),
        placeholder: "__EXPR_000__".to_string(),
        start: 7,
        end: 18, // ${var.name} is 11 chars
        start_line: 0,
        start_column: 7,
        end_line: 0,
        end_column: 18,
        kind: ExpressionKind::Terraform,
    }
}

#[test]
fn test_expression_len_delta() {
    let expr = sample_expression();

    assert_eq!(expr.original_len(), 11);
    assert_eq!(expr.placeholder_len(), 12);
    assert_eq!(expr.len_delta(), -1); // placeholder is 1 char longer
}

#[test]
fn test_adjust_position_no_expressions() {
    let map = ExpressionMap::new();
    assert_eq!(map.adjust_position(5, 10), (5, 10));
}

#[test]
fn test_adjust_position_within_expression() {
    let mut map = ExpressionMap::new();
    map.add(sample_expression());
    map.finalize();

    // Position within placeholder should map to start of original
    assert_eq!(map.adjust_position(0, 10), (0, 7));
}

#[test]
fn test_adjust_position_after_expression() {
    let mut map = ExpressionMap::new();
    map.add(sample_expression());
    map.finalize();

    // Position after placeholder should be adjusted
    // placeholder ends at column 19 (7 + 12), original ends at column 18
    // Position 20 in preprocessed = position 19 in original
    assert_eq!(map.adjust_position(0, 20), (0, 19));
}

#[test]
fn test_is_within_expression() {
    let mut map = ExpressionMap::new();
    map.add(sample_expression());
    map.finalize();

    assert!(!map.is_within_expression(0, 5)); // Before
    assert!(map.is_within_expression(0, 7)); // Start
    assert!(map.is_within_expression(0, 15)); // Middle
    assert!(!map.is_within_expression(0, 19)); // After (placeholder ends at 19)
}

#[test]
fn test_find_by_placeholder() {
    let mut map = ExpressionMap::new();
    map.add(sample_expression());
    map.finalize();

    let found = map
        .find_by_placeholder("__EXPR_000__")
        .expect("placeholder should be found");
    assert_eq!(found.original, "${var.name}");
    assert!(map.find_by_placeholder("__EXPR_001__").is_none());
}

#[test]
fn test_finalize_sorts_expressions() {
    let mut map = ExpressionMap::new();
    map.add(Expression {
        original: "${b}".to_string(),
        placeholder: "__EXPR_001__".to_string(),
        start: 10,
        end: 14,
        start_line: 0,
        start_column: 10,
        end_line: 0,
        end_column: 14,
        kind: ExpressionKind::Terraform,
    });
    map.add(Expression {
        original: "${a}".to_string(),
        placeholder: "__EXPR_000__".to_string(),
        start: 0,
        end: 4,
        start_line: 0,
        start_column: 0,
        end_line: 0,
        end_column: 4,
        kind: ExpressionKind::Terraform,
    });
    map.finalize();

    assert_eq!(map.expressions.len(), 2);
    assert_eq!(map.expressions[0].start, 0);
    assert_eq!(map.expressions[1].start, 10);
}

#[test]
fn test_adjust_position_two_placeholders_same_line() {
    // Two adjacent expressions: "${a}${bb}" at columns 0..4 and 4..9.
    let mut map = ExpressionMap::new();
    map.add(Expression {
        original: "${a}".to_string(),
        placeholder: "__EXPR_000__".to_string(),
        start: 0,
        end: 4,
        start_line: 0,
        start_column: 0,
        end_line: 0,
        end_column: 4,
        kind: ExpressionKind::Terraform,
    });
    map.add(Expression {
        original: "${bb}".to_string(),
        placeholder: "__EXPR_001__".to_string(),
        start: 4,
        end: 9,
        start_line: 0,
        start_column: 4,
        end_line: 0,
        end_column: 9,
        kind: ExpressionKind::Terraform,
    });
    map.finalize();

    // First placeholder occupies rewritten columns 0..12, second 12..24.
    assert_eq!(map.adjust_position(0, 3), (0, 0));
    assert_eq!(map.adjust_position(0, 13), (0, 4));
    // After both placeholders: shifted by (4-12) + (5-12) = -15.
    assert_eq!(map.adjust_position(0, 30), (0, 15));
    // Clamped at zero.
    assert_eq!(map.adjust_position(0, 24), (0, 9));
}
