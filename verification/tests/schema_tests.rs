//! Tests of the workflow keyword tables.

use yaml_tftpl_lsp::schema::{
    is_step_action, is_workflow_keyword, step_action_set, workflow_keyword_set,
};

#[test]
fn test_is_workflow_keyword() {
    assert!(is_workflow_keyword("main"));
    assert!(is_workflow_keyword("steps"));
    assert!(is_workflow_keyword("assign"));
    assert!(is_workflow_keyword("call"));
    assert!(!is_workflow_keyword("unknown_keyword"));
    assert!(!is_workflow_keyword("custom_step_name"));
}

#[test]
fn test_is_step_action() {
    assert!(is_step_action("assign"));
    assert!(is_step_action("call"));
    assert!(is_step_action("switch"));
    assert!(is_step_action("return"));
    assert!(!is_step_action("main"));
    assert!(!is_step_action("params"));
}

#[test]
fn test_step_action_set() {
    let set = step_action_set();
    assert!(set.contains(&"assign"));
    assert!(set.contains(&"call"));
    assert!(!set.contains(&"main"));
}

#[test]
fn test_workflow_keyword_set() {
    let set = workflow_keyword_set();
    assert!(set.contains(&"main"));
    assert!(set.contains(&"steps"));
    assert!(set.contains(&"assign"));
}
