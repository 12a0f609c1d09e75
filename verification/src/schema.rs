//! Workflow keywords: the names the structural validator recognizes.

use vstd::prelude::*;

use crate::text::str_eq;

verus! {

/// The key names that may appear inside a step definition as actions.
pub open spec fn step_action_spec(s: Seq<char>) -> bool {
    ||| s == "assign"@
    ||| s == "call"@
    ||| s == "switch"@
    ||| s == "for"@
    ||| s == "parallel"@
    ||| s == "try"@
    ||| s == "raise"@
    ||| s == "return"@
    ||| s == "next"@
}

/// The reserved keywords of the workflow syntax.
pub open spec fn workflow_keyword_spec(s: Seq<char>) -> bool {
    ||| step_action_spec(s)
    ||| s == "args"@
    ||| s == "result"@
    ||| s == "condition"@
    ||| s == "value"@
    ||| s == "index"@
    ||| s == "range"@
    ||| s == "in"@
    ||| s == "branches"@
    ||| s == "shared"@
    ||| s == "concurrency_limit"@
    ||| s == "exception_policy"@
    ||| s == "except"@
    ||| s == "retry"@
    ||| s == "as"@
    ||| s == "predicate"@
    ||| s == "max_retries"@
    ||| s == "backoff"@
    ||| s == "initial_delay"@
    ||| s == "max_delay"@
    ||| s == "multiplier"@
    ||| s == "main"@
    ||| s == "params"@
    ||| s == "steps"@
}

/// Check if a key is a valid step action.
pub fn is_step_action(key: &str) -> (r: bool)
    ensures
        r == step_action_spec(key@),
{
    str_eq(key, "assign") || str_eq(key, "call") || str_eq(key, "switch") || str_eq(key, "for")
        || str_eq(key, "parallel") || str_eq(key, "try") || str_eq(key, "raise") || str_eq(
        key,
        "return",
    ) || str_eq(key, "next")
}

/// Check if a key is a known workflow keyword.
pub fn is_workflow_keyword(key: &str) -> (r: bool)
    ensures
        r == workflow_keyword_spec(key@),
{
    is_step_action(key) || str_eq(key, "args") || str_eq(key, "result") || str_eq(key, "condition")
        || str_eq(key, "value") || str_eq(key, "index") || str_eq(key, "range") || str_eq(
        key,
        "in",
    ) || str_eq(key, "branches") || str_eq(key, "shared") || str_eq(key, "concurrency_limit")
        || str_eq(key, "exception_policy") || str_eq(key, "except") || str_eq(key, "retry")
        || str_eq(key, "as") || str_eq(key, "predicate") || str_eq(key, "max_retries") || str_eq(
        key,
        "backoff",
    ) || str_eq(key, "initial_delay") || str_eq(key, "max_delay") || str_eq(key, "multiplier")
        || str_eq(key, "main") || str_eq(key, "params") || str_eq(key, "steps")
}

/// The list of valid step action keywords.
pub fn step_action_set() -> (r: Vec<&'static str>)
    ensures
        r@.len() == 9,
        forall|i: int| 0 <= i < r@.len() ==> step_action_spec(#[trigger] r@[i]@),
        forall|s: Seq<char>|
            step_action_spec(s) ==> exists|i: int| 0 <= i < r@.len() && #[trigger] r@[i]@ == s,
{
    let mut r: Vec<&'static str> = Vec::new();
    r.push("assign");
    r.push("call");
    r.push("switch");
    r.push("for");
    r.push("parallel");
    r.push("try");
    r.push("raise");
    r.push("return");
    r.push("next");
    proof {
        assert forall|s: Seq<char>| step_action_spec(s) implies exists|i: int|
            0 <= i < r@.len() && #[trigger] r@[i]@ == s by {
            if s == "assign"@ {
                assert(r@[0]@ == s);
            } else if s == "call"@ {
                assert(r@[1]@ == s);
            } else if s == "switch"@ {
                assert(r@[2]@ == s);
            } else if s == "for"@ {
                assert(r@[3]@ == s);
            } else if s == "parallel"@ {
                assert(r@[4]@ == s);
            } else if s == "try"@ {
                assert(r@[5]@ == s);
            } else if s == "raise"@ {
                assert(r@[6]@ == s);
            } else if s == "return"@ {
                assert(r@[7]@ == s);
            } else {
                assert(r@[8]@ == s);
            }
        }
    }
    r
}

/// The list of all workflow keywords.
pub fn workflow_keyword_set() -> (r: Vec<&'static str>)
    ensures
        forall|i: int| 0 <= i < r@.len() ==> workflow_keyword_spec(#[trigger] r@[i]@),
        forall|s: Seq<char>|
            workflow_keyword_spec(s) ==> exists|i: int| 0 <= i < r@.len() && #[trigger] r@[i]@ == s,
{
    let mut r: Vec<&'static str> = Vec::new();
    r.push("assign");
    r.push("call");
    r.push("switch");
    r.push("for");
    r.push("parallel");
    r.push("try");
    r.push("raise");
    r.push("return");
    r.push("next");
    r.push("args");
    r.push("result");
    r.push("condition");
    r.push("value");
    r.push("index");
    r.push("range");
    r.push("in");
    r.push("branches");
    r.push("shared");
    r.push("concurrency_limit");
    r.push("exception_policy");
    r.push("except");
    r.push("retry");
    r.push("as");
    r.push("predicate");
    r.push("max_retries");
    r.push("backoff");
    r.push("initial_delay");
    r.push("max_delay");
    r.push("multiplier");
    r.push("main");
    r.push("params");
    r.push("steps");
    proof {
        assert forall|s: Seq<char>| workflow_keyword_spec(s) implies exists|i: int|
            0 <= i < r@.len() && #[trigger] r@[i]@ == s by {
            if s == "assign"@ {
                assert(r@[0]@ == s);
            } else if s == "call"@ {
                assert(r@[1]@ == s);
            } else if s == "switch"@ {
                assert(r@[2]@ == s);
            } else if s == "for"@ {
                assert(r@[3]@ == s);
            } else if s == "parallel"@ {
                assert(r@[4]@ == s);
            } else if s == "try"@ {
                assert(r@[5]@ == s);
            } else if s == "raise"@ {
                assert(r@[6]@ == s);
            } else if s == "return"@ {
                assert(r@[7]@ == s);
            } else if s == "next"@ {
                assert(r@[8]@ == s);
            } else if s == "args"@ {
                assert(r@[9]@ == s);
            } else if s == "result"@ {
                assert(r@[10]@ == s);
            } else if s == "condition"@ {
                assert(r@[11]@ == s);
            } else if s == "value"@ {
                assert(r@[12]@ == s);
            } else if s == "index"@ {
                assert(r@[13]@ == s);
            } else if s == "range"@ {
                assert(r@[14]@ == s);
            } else if s == "in"@ {
                assert(r@[15]@ == s);
            } else if s == "branches"@ {
                assert(r@[16]@ == s);
            } else if s == "shared"@ {
                assert(r@[17]@ == s);
            } else if s == "concurrency_limit"@ {
                assert(r@[18]@ == s);
            } else if s == "exception_policy"@ {
                assert(r@[19]@ == s);
            } else if s == "except"@ {
                assert(r@[20]@ == s);
            } else if s == "retry"@ {
                assert(r@[21]@ == s);
            } else if s == "as"@ {
                assert(r@[22]@ == s);
            } else if s == "predicate"@ {
                assert(r@[23]@ == s);
            } else if s == "max_retries"@ {
                assert(r@[24]@ == s);
            } else if s == "backoff"@ {
                assert(r@[25]@ == s);
            } else if s == "initial_delay"@ {
                assert(r@[26]@ == s);
            } else if s == "max_delay"@ {
                assert(r@[27]@ == s);
            } else if s == "multiplier"@ {
                assert(r@[28]@ == s);
            } else if s == "main"@ {
                assert(r@[29]@ == s);
            } else if s == "params"@ {
                assert(r@[30]@ == s);
            } else {
                assert(r@[31]@ == s);
            }
        }
    }
    r
}

} // verus!
