//! Structural validation of workflow documents.
//!
//! A parsed document is checked against the workflow structure rules: the
//! top level must be a mapping holding workflow definitions, the `main`
//! block must exist and contain `steps`, `steps` must be a list, each step
//! should carry exactly one named key, and unknown keys are reported as
//! hints. Findings are positioned by looking the key name up in the text,
//! line by line.
//!
//! Every validation function's contract states exactly the sequence of
//! diagnostics it appends, through the spec functions mirrored alongside.

use vstd::prelude::*;

use crate::diagnostics::positioned_diag;
use crate::diagnostics::DiagInfo;
use crate::diagnostics::DiagnosticCode;
use crate::diagnostics::DiagnosticCollector;
use crate::diagnostics::Severity;
use crate::schema::is_step_action;
use crate::schema::step_action_spec;
use crate::text::chars_eq;
use crate::text::chars_match_at;
use crate::text::chars_range;
use crate::text::occurs_at;
use crate::text::push_range;
use crate::text::str_eq;
use crate::text::str_to_chars;
use crate::text::trim_chars;
use crate::text::trimmed;
use crate::text::MAX_REWRITTEN;
use crate::yaml::YamlEntry;
use crate::yaml::YamlNode;

verus! {

// ---------------------------------------------------------------------------
// Node helpers
// ---------------------------------------------------------------------------
/// The node is the string scalar `name`.
pub open spec fn node_str_is(n: YamlNode, name: Seq<char>) -> bool {
    match n {
        YamlNode::Str(s) => s@ == name,
        _ => false,
    }
}

// ---------------------------------------------------------------------------
// Splitting the text into lines
// ---------------------------------------------------------------------------
/// Position of the newline terminating the line that starts at `i`, or the
/// end of the text.
pub open spec fn line_end(s: Seq<char>, i: int) -> int
    decreases s.len() - i,
{
    if 0 <= i < s.len() && s[i] != '\n' {
        line_end(s, i + 1)
    } else {
        i
    }
}

proof fn lemma_line_end(s: Seq<char>, i: int)
    requires
        0 <= i <= s.len(),
    ensures
        i <= line_end(s, i) <= s.len(),
    decreases s.len() - i,
{
    if 0 <= i < s.len() && s[i] != '\n' {
        lemma_line_end(s, i + 1);
    }
}

/// A line with its trailing carriage return removed.
pub open spec fn strip_cr(l: Seq<char>) -> Seq<char> {
    if l.len() > 0 && l.last() == '\r' {
        l.drop_last()
    } else {
        l
    }
}

/// The lines of the text from position `i` on: split at newlines, a carriage
/// return before a newline dropped, and no final empty line after a trailing
/// newline.
pub open spec fn split_lines_from(s: Seq<char>, i: int) -> Seq<Seq<char>>
    decreases s.len() + 1 - i,
{
    if !(0 <= i < s.len()) {
        Seq::empty()
    } else {
        let e = line_end(s, i);
        if i <= e <= s.len() {
            let raw = s.subrange(i, e);
            let line = if e < s.len() {
                strip_cr(raw)
            } else {
                raw
            };
            seq![line] + split_lines_from(s, e + 1)
        } else {
            Seq::empty()
        }
    }
}

/// The lines of the text.
pub open spec fn split_lines_spec(s: Seq<char>) -> Seq<Seq<char>> {
    split_lines_from(s, 0)
}

proof fn lemma_split_lines_count(s: Seq<char>, i: int)
    requires
        0 <= i,
    ensures
        split_lines_from(s, i).len() <= s.len() - i || split_lines_from(s, i).len() == 0,
    decreases s.len() + 1 - i,
{
    if 0 <= i < s.len() {
        lemma_line_end(s, i);
        let e = line_end(s, i);
        lemma_split_lines_count(s, e + 1);
    }
}

/// Split a text into its lines.
fn split_text_lines(v: &Vec<char>) -> (r: Vec<Vec<char>>)
    requires
        v@.len() <= MAX_REWRITTEN,
    ensures
        r@.map_values(|l: Vec<char>| l@) == split_lines_from(v@, 0),
{
    let len = v.len();
    let mut out: Vec<Vec<char>> = Vec::new();
    let mut i: usize = 0;
    proof {
        assert(out@.map_values(|l: Vec<char>| l@) =~= Seq::<Seq<char>>::empty());
    }
    while i < len
        invariant
            0 <= i <= len + 1,
            len == v@.len(),
            split_lines_from(v@, 0) == out@.map_values(|l: Vec<char>| l@) + split_lines_from(
                v@,
                i as int,
            ),
            len <= MAX_REWRITTEN,
        decreases len + 1 - i,
    {
        let mut j = i;
        while j < len && v[j] != '\n'
            invariant
                i <= j <= len,
                len == v@.len(),
                line_end(v@, i as int) == line_end(v@, j as int),
            decreases len - j,
        {
            j += 1;
        }
        proof {
            assert(line_end(v@, j as int) == j);
            lemma_line_end(v@, i as int);
        }
        let e2 = if j < len && j > i && v[j - 1] == '\r' {
            j - 1
        } else {
            j
        };
        let line = chars_range(v, i, e2);
        proof {
            let raw = v@.subrange(i as int, j as int);
            let expected = if j < len {
                strip_cr(raw)
            } else {
                raw
            };
            if j < len && j > i && v@[j - 1] == '\r' {
                assert(raw.len() > 0 && raw.last() == '\r');
                assert(raw.drop_last() =~= v@.subrange(i as int, j - 1 as int));
            }
            assert(line@ == expected);
        }
        let ghost out_before = out@;
        out.push(line);
        proof {
            assert(out@.map_values(|l: Vec<char>| l@) =~= out_before.map_values(
                |l: Vec<char>| l@,
            ).push(line@));
            assert(split_lines_from(v@, i as int) == seq![line@] + split_lines_from(
                v@,
                j + 1 as int,
            ));
            assert(out_before.map_values(|l: Vec<char>| l@) + (seq![line@] + split_lines_from(
                v@,
                j + 1 as int,
            )) =~= out@.map_values(|l: Vec<char>| l@) + split_lines_from(v@, j + 1 as int));
        }
        i = j + 1;
    }
    proof {
        assert(split_lines_from(v@, i as int) == Seq::<Seq<char>>::empty());
        assert(split_lines_from(v@, 0) =~= out@.map_values(|l: Vec<char>| l@));
    }
    out
}

// ---------------------------------------------------------------------------
// Looking keys up in the text
// ---------------------------------------------------------------------------
/// The trimmed line names the key: it starts with `key:` or `- key:`, or is
/// exactly `key` or `key:`.
pub open spec fn line_matches(line: Seq<char>, key: Seq<char>) -> bool {
    let t = trimmed(line);
    ||| occurs_at(t, key + seq![':'], 0)
    ||| occurs_at(t, seq!['-', ' '] + key + seq![':'], 0)
    ||| t == key
    ||| t == key + seq![':']
}

/// Index of the first line that names the key.
pub open spec fn find_key_spec(lines: Seq<Seq<char>>, key: Seq<char>) -> Option<int>
    decreases lines.len(),
{
    if lines.len() == 0 {
        None
    } else if line_matches(lines[0], key) {
        Some(0)
    } else {
        match find_key_spec(lines.drop_first(), key) {
            Some(i) => Some(i + 1),
            None => None,
        }
    }
}

proof fn lemma_find_key_spec(lines: Seq<Seq<char>>, key: Seq<char>)
    ensures
        find_key_spec(lines, key) matches Some(i) ==> 0 <= i < lines.len() && line_matches(
            lines[i],
            key,
        ) && forall|j: int| 0 <= j < i ==> !line_matches(lines[j], key),
        find_key_spec(lines, key) is None ==> forall|j: int|
            0 <= j < lines.len() ==> !line_matches(lines[j], key),
    decreases lines.len(),
{
    if lines.len() != 0 && !line_matches(lines[0], key) {
        lemma_find_key_spec(lines.drop_first(), key);
        assert(forall|j: int| 1 <= j < lines.len() ==> lines[j] == lines.drop_first()[j - 1]);
    }
}

/// The line a diagnostic about `key` is placed on: the first line naming the
/// key, or the first line of the document.
pub open spec fn key_line(lines: Seq<Seq<char>>, key: Seq<char>) -> int {
    match find_key_spec(lines, key) {
        Some(i) => i,
        None => 0,
    }
}

/// Line index for finding key positions in the text.
struct LineIndex {
    lines: Vec<Vec<char>>,
}

impl LineIndex {
    /// The lines, as character sequences.
    spec fn lines_view(&self) -> Seq<Seq<char>> {
        self.lines@.map_values(|l: Vec<char>| l@)
    }

    spec fn wf(&self) -> bool {
        self.lines@.len() <= MAX_REWRITTEN
    }

    fn new(text: &str) -> (r: LineIndex)
        requires
            text@.len() <= MAX_REWRITTEN,
        ensures
            r.lines_view() == split_lines_spec(text@),
            r.wf(),
    {
        let chars = str_to_chars(text);
        let lines = split_text_lines(&chars);
        proof {
            lemma_split_lines_count(text@, 0);
        }
        LineIndex { lines }
    }

    /// Find the first line naming the given key.
    fn find_key(&self, key: &str) -> (r: Option<u32>)
        requires
            self.wf(),
        ensures
            match r {
                Some(i) => find_key_spec(self.lines_view(), key@) == Some(i as int),
                None => find_key_spec(self.lines_view(), key@) is None,
            },
    {
        proof {
            lemma_find_key_spec(self.lines_view(), key@);
        }
        let kc = str_to_chars(key);
        let mut pat: Vec<char> = Vec::new();
        push_range(&mut pat, &kc, 0, kc.len());
        pat.push(':');
        let mut lp: Vec<char> = Vec::new();
        lp.push('-');
        lp.push(' ');
        push_range(&mut lp, &kc, 0, kc.len());
        lp.push(':');
        proof {
            assert(kc@.subrange(0, kc@.len() as int) =~= kc@);
            assert(pat@ =~= key@ + seq![':']);
            assert(lp@ =~= seq!['-', ' '] + key@ + seq![':']);
        }
        let n = self.lines.len();
        let mut i: usize = 0;
        while i < n
            invariant
                0 <= i <= n,
                n == self.lines@.len(),
                n <= MAX_REWRITTEN,
                kc@ == key@,
                pat@ == key@ + seq![':'],
                lp@ == seq!['-', ' '] + key@ + seq![':'],
                forall|j: int| 0 <= j < i ==> !line_matches(#[trigger] self.lines_view()[j], key@),
            decreases n - i,
        {
            let t = trim_chars(&self.lines[i]);
            proof {
                assert(self.lines_view()[i as int] == self.lines@[i as int]@);
                assert(t@ == trimmed(self.lines_view()[i as int]));
            }
            if chars_match_at(&t, &pat, 0) || chars_match_at(&t, &lp, 0) || chars_eq(&t, &kc)
                || chars_eq(&t, &pat) {
                proof {
                    assert(line_matches(self.lines_view()[i as int], key@));
                    lemma_find_key_spec(self.lines_view(), key@);
                    let fo = find_key_spec(self.lines_view(), key@);
                    if fo is Some {
                        assert(!(fo->0 < i) && !(fo->0 > i));
                    }
                }
                return Some(i as u32);
            }
            proof {
                assert(!line_matches(self.lines_view()[i as int], key@));
            }
            i += 1;
        }
        proof {
            lemma_find_key_spec(self.lines_view(), key@);
        }
        None
    }
}

/// Find the line where a key appears in the document.
fn find_key_line(line_index: &LineIndex, key: &str) -> (r: u32)
    requires
        line_index.wf(),
    ensures
        r as int == key_line(line_index.lines_view(), key@),
{
    match line_index.find_key(key) {
        Some(i) => i,
        None => 0,
    }
}

// ---------------------------------------------------------------------------
// Messages and diagnostic shapes
// ---------------------------------------------------------------------------
/// A structure warning at the start of a line.
pub open spec fn warn_diag(msg: Seq<char>, line: int) -> DiagInfo {
    positioned_diag(Severity::Warning, DiagnosticCode::WorkflowStructure, msg, line, 0, line, 1)
}

/// An unknown-keyword hint at the start of a line.
pub open spec fn hint_diag(msg: Seq<char>, line: int) -> DiagInfo {
    positioned_diag(Severity::Hint, DiagnosticCode::UnknownKeyword, msg, line, 0, line, 1)
}

pub open spec fn msg_not_mapping() -> Seq<char> {
    "Workflow document must be a YAML mapping"@
}

pub open spec fn msg_block_not_mapping(name: Seq<char>) -> Seq<char> {
    "'"@ + name + "' block must be a mapping"@
}

pub open spec fn msg_block_no_steps(name: Seq<char>) -> Seq<char> {
    "'"@ + name + "' block must contain 'steps'"@
}

pub open spec fn msg_steps_not_list() -> Seq<char> {
    "'steps' must be a list"@
}

pub open spec fn msg_step_one_key() -> Seq<char> {
    "Step should have exactly one named key"@
}

pub open spec fn msg_unknown_key(s: Seq<char>, name: Seq<char>) -> Seq<char> {
    "Unknown key '"@ + s + "' in workflow block '"@ + name + "'"@
}

pub open spec fn msg_unknown_element(s: Seq<char>) -> Seq<char> {
    "Unknown workflow element: '"@ + s + "'"@
}

pub open spec fn msg_unknown_action(s: Seq<char>) -> Seq<char> {
    "Unknown step action: '"@ + s + "'"@
}

pub open spec fn msg_need_main() -> Seq<char> {
    "Workflow must have a 'main' block"@
}

fn quote_wrap(prefix: &str, mid: &str, suffix: &str) -> (r: String)
    ensures
        r@ == prefix@ + mid@ + suffix@,
{
    String::from_str(prefix).concat(mid).concat(suffix)
}

// ---------------------------------------------------------------------------
// Step modifiers
// ---------------------------------------------------------------------------
/// The key names valid inside a step besides the actions: arguments,
/// results, loop and retry controls, and the structural keys.
pub open spec fn step_modifier_spec(s: Seq<char>) -> bool {
    ||| s == "args"@
    ||| s == "result"@
    ||| s == "condition"@
    ||| s == "value"@
    ||| s == "index"@
    ||| s == "range"@
    ||| s == "in"@
    ||| s == "branches"@
    ||| s == "shared"@
    ||| s == "concurrency_limit"@
    ||| s == "exception_policy"@
    ||| s == "except"@
    ||| s == "retry"@
    ||| s == "as"@
    ||| s == "steps"@
    ||| s == "predicate"@
    ||| s == "max_retries"@
    ||| s == "backoff"@
    ||| s == "initial_delay"@
    ||| s == "max_delay"@
    ||| s == "multiplier"@
    ||| s == "params"@
    ||| s == "next"@
}

/// Check if a key is a valid step modifier (not an action but valid in step
/// context).
fn is_step_modifier(key: &str) -> (r: bool)
    ensures
        r == step_modifier_spec(key@),
{
    str_eq(key, "args") || str_eq(key, "result") || str_eq(key, "condition") || str_eq(
        key,
        "value",
    ) || str_eq(key, "index") || str_eq(key, "range") || str_eq(key, "in") || str_eq(
        key,
        "branches",
    ) || str_eq(key, "shared") || str_eq(key, "concurrency_limit") || str_eq(
        key,
        "exception_policy",
    ) || str_eq(key, "except") || str_eq(key, "retry") || str_eq(key, "as") || str_eq(key, "steps")
        || str_eq(key, "predicate") || str_eq(key, "max_retries") || str_eq(key, "backoff")
        || str_eq(key, "initial_delay") || str_eq(key, "max_delay") || str_eq(key, "multiplier")
        || str_eq(key, "params") || str_eq(key, "next")
}

// ---------------------------------------------------------------------------
// The validation rules, as spec functions
// ---------------------------------------------------------------------------
/// Hints for the unknown keys of one step body, from entry `j` on.
pub open spec fn body_entries_diags(es: Seq<YamlEntry>, lines: Seq<Seq<char>>, j: int) -> Seq<
    DiagInfo,
>
    decreases es.len() - j,
{
    if !(0 <= j < es.len()) {
        Seq::empty()
    } else {
        let head = match es[j].key {
            YamlNode::Str(s) => {
                if !step_action_spec(s@) && !step_modifier_spec(s@) {
                    seq![hint_diag(msg_unknown_action(s@), key_line(lines, s@))]
                } else {
                    Seq::empty()
                }
            },
            _ => Seq::empty(),
        };
        head + body_entries_diags(es, lines, j + 1)
    }
}

/// The diagnostics for one step body: a mapping yields a hint per unknown
/// key; any other shape yields nothing.
pub open spec fn body_diags(v: YamlNode, lines: Seq<Seq<char>>) -> Seq<DiagInfo> {
    match v {
        YamlNode::Mapping(es) => body_entries_diags(es@, lines, 0),
        _ => Seq::empty(),
    }
}

/// The warning a step gets when it does not have exactly one named key.
pub open spec fn step_shape_diags(es: Seq<YamlEntry>, lines: Seq<Seq<char>>) -> Seq<DiagInfo> {
    if es.len() != 1 && es.len() > 0 {
        match es[0].key {
            YamlNode::Str(s) => seq![warn_diag(msg_step_one_key(), key_line(lines, s@))],
            _ => Seq::empty(),
        }
    } else {
        Seq::empty()
    }
}

/// The body diagnostics of every entry of one step, from entry `j` on.
pub open spec fn step_values_diags(es: Seq<YamlEntry>, lines: Seq<Seq<char>>, j: int) -> Seq<
    DiagInfo,
>
    decreases es.len() - j,
{
    if !(0 <= j < es.len()) {
        Seq::empty()
    } else {
        body_diags(es[j].value, lines) + step_values_diags(es, lines, j + 1)
    }
}

/// The diagnostics of one step of a `steps` list.
pub open spec fn step_diags(step: YamlNode, lines: Seq<Seq<char>>) -> Seq<DiagInfo> {
    match step {
        YamlNode::Mapping(es) => step_shape_diags(es@, lines) + step_values_diags(es@, lines, 0),
        _ => Seq::empty(),
    }
}

/// The diagnostics of the steps from index `j` on.
pub open spec fn steps_items_diags(ss: Seq<YamlNode>, lines: Seq<Seq<char>>, j: int) -> Seq<
    DiagInfo,
>
    decreases ss.len() - j,
{
    if !(0 <= j < ss.len()) {
        Seq::empty()
    } else {
        step_diags(ss[j], lines) + steps_items_diags(ss, lines, j + 1)
    }
}

/// The diagnostics of a `steps` value: a list is checked step by step,
/// anything else draws the list-shape warning.
pub open spec fn steps_diags(v: YamlNode, lines: Seq<Seq<char>>) -> Seq<DiagInfo> {
    match v {
        YamlNode::Sequence(ss) => steps_items_diags(ss@, lines, 0),
        _ => seq![warn_diag(msg_steps_not_list(), key_line(lines, "steps"@))],
    }
}

/// The mapping has a `steps` key.
pub open spec fn has_steps_key(es: Seq<YamlEntry>) -> bool {
    exists|i: int| 0 <= i < es.len() && node_str_is((#[trigger] es[i]).key, "steps"@)
}

/// The mapping has a `main` key.
pub open spec fn has_main_key(es: Seq<YamlEntry>) -> bool {
    exists|i: int| 0 <= i < es.len() && node_str_is((#[trigger] es[i]).key, "main"@)
}

/// The value looks like a subworkflow definition: a mapping with `params`
/// or `steps`.
pub open spec fn subworkflow_like(v: YamlNode) -> bool {
    match v {
        YamlNode::Mapping(es) => exists|i: int|
            0 <= i < es@.len() && (node_str_is((#[trigger] es@[i]).key, "params"@) || node_str_is(
                es@[i].key,
                "steps"@,
            )),
        _ => false,
    }
}

/// The step diagnostics of every `steps` entry of a workflow block, from
/// entry `j` on.
pub open spec fn block_steps_diags(es: Seq<YamlEntry>, lines: Seq<Seq<char>>, j: int) -> Seq<
    DiagInfo,
>
    decreases es.len() - j,
{
    if !(0 <= j < es.len()) {
        Seq::empty()
    } else {
        let head = if node_str_is(es[j].key, "steps"@) {
            steps_diags(es[j].value, lines)
        } else {
            Seq::empty()
        };
        head + block_steps_diags(es, lines, j + 1)
    }
}

/// The unknown-key hints of a workflow block, from entry `j` on.
pub open spec fn block_unknown_diags(
    es: Seq<YamlEntry>,
    name: Seq<char>,
    lines: Seq<Seq<char>>,
    j: int,
) -> Seq<DiagInfo>
    decreases es.len() - j,
{
    if !(0 <= j < es.len()) {
        Seq::empty()
    } else {
        let head = match es[j].key {
            YamlNode::Str(s) => {
                if s@ != "params"@ && s@ != "steps"@ {
                    seq![hint_diag(msg_unknown_key(s@, name), key_line(lines, s@))]
                } else {
                    Seq::empty()
                }
            },
            _ => Seq::empty(),
        };
        head + block_unknown_diags(es, name, lines, j + 1)
    }
}

/// The diagnostics of one workflow block named `name`: it must be a mapping
/// containing `steps`; its steps are validated and its unknown keys drawn as
/// hints.
pub open spec fn block_diags(v: YamlNode, name: Seq<char>, lines: Seq<Seq<char>>) -> Seq<DiagInfo> {
    match v {
        YamlNode::Mapping(es) => {
            if !has_steps_key(es@) {
                seq![warn_diag(msg_block_no_steps(name), key_line(lines, name))]
            } else {
                block_steps_diags(es@, lines, 0) + block_unknown_diags(es@, name, lines, 0)
            }
        },
        _ => seq![warn_diag(msg_block_not_mapping(name), key_line(lines, name))],
    }
}

/// The diagnostics of the top-level entries from `j` on: `main` and
/// subworkflow-like entries are validated as blocks, other string keys draw
/// the unknown-element hint, non-string keys are skipped.
pub open spec fn top_entries_diags(es: Seq<YamlEntry>, lines: Seq<Seq<char>>, j: int) -> Seq<
    DiagInfo,
>
    decreases es.len() - j,
{
    if !(0 <= j < es.len()) {
        Seq::empty()
    } else {
        let head = match es[j].key {
            YamlNode::Str(s) => {
                if s@ == "main"@ {
                    block_diags(es[j].value, s@, lines)
                } else if subworkflow_like(es[j].value) {
                    block_diags(es[j].value, s@, lines)
                } else {
                    seq![hint_diag(msg_unknown_element(s@), key_line(lines, s@))]
                }
            },
            _ => Seq::empty(),
        };
        head + top_entries_diags(es, lines, j + 1)
    }
}

/// The diagnostics of a whole workflow document: a non-mapping draws the
/// document-shape warning; a mapping is validated entry by entry, and a
/// non-empty document without a `main` block draws the missing-main warning.
pub open spec fn workflow_diags(v: YamlNode, lines: Seq<Seq<char>>) -> Seq<DiagInfo> {
    match v {
        YamlNode::Mapping(es) => top_entries_diags(es@, lines, 0) + (if !has_main_key(es@)
            && es@.len() > 0 {
            seq![warn_diag(msg_need_main(), 0)]
        } else {
            Seq::empty()
        }),
        _ => seq![warn_diag(msg_not_mapping(), 0)],
    }
}

// ---------------------------------------------------------------------------
// The validation rules, executable
// ---------------------------------------------------------------------------
/// Validate the body of a single step.
fn validate_step_body(
    value: &YamlNode,
    line_index: &LineIndex,
    collector: &mut DiagnosticCollector,
)
    requires
        line_index.wf(),
    ensures
        final(collector)@ == old(collector)@ + body_diags(*value, line_index.lines_view()),
{
    let ghost lv = line_index.lines_view();
    match value {
        YamlNode::Mapping(entries) => {
            let n = entries.len();
            let mut j: usize = 0;
            while j < n
                invariant
                    line_index.wf(),
                    lv == line_index.lines_view(),
                    0 <= j <= n,
                    n == entries@.len(),
                    old(collector)@ + body_entries_diags(entries@, lv, 0) == collector@
                        + body_entries_diags(entries@, lv, j as int),
                decreases n - j,
            {
                let ghost before = collector@;
                match &entries[j].key {
                    YamlNode::Str(s) => {
                        if !is_step_action(s.as_str()) && !is_step_modifier(s.as_str()) {
                            let line = find_key_line(line_index, s.as_str());
                            let msg = quote_wrap("Unknown step action: '", s.as_str(), "'");
                            collector.add_hint(msg, line, 0);
                            proof {
                                assert(collector@ =~= before + seq![
                                    hint_diag(msg_unknown_action(s@), key_line(lv, s@)),
                                ]);
                            }
                        }
                    },
                    _ => {},
                }
                proof {
                    assert(before + body_entries_diags(entries@, lv, j as int) =~= collector@
                        + body_entries_diags(entries@, lv, j + 1 as int));
                }
                j += 1;
            }
            proof {
                assert(body_entries_diags(entries@, lv, n as int) == Seq::<DiagInfo>::empty());
                assert(old(collector)@ + body_entries_diags(entries@, lv, 0) =~= collector@);
            }
        },
        _ => {
            proof {
                assert(collector@ =~= old(collector)@ + body_diags(*value, lv));
            }
        },
    }
}

/// Validate a `steps` list.
fn validate_steps(value: &YamlNode, line_index: &LineIndex, collector: &mut DiagnosticCollector)
    requires
        line_index.wf(),
    ensures
        final(collector)@ == old(collector)@ + steps_diags(*value, line_index.lines_view()),
{
    let ghost lv = line_index.lines_view();
    match value {
        YamlNode::Sequence(steps) => {
            let n = steps.len();
            let mut j: usize = 0;
            while j < n
                invariant
                    line_index.wf(),
                    lv == line_index.lines_view(),
                    0 <= j <= n,
                    n == steps@.len(),
                    old(collector)@ + steps_items_diags(steps@, lv, 0) == collector@
                        + steps_items_diags(steps@, lv, j as int),
                decreases n - j,
            {
                let ghost before = collector@;
                match &steps[j] {
                    YamlNode::Mapping(es) => {
                        let m = es.len();
                        if m != 1 && m > 0 {
                            match &es[0].key {
                                YamlNode::Str(s) => {
                                    let line = find_key_line(line_index, s.as_str());
                                    collector.add_workflow_warning_with_code(
                                        String::from_str("Step should have exactly one named key"),
                                        line,
                                        0,
                                        DiagnosticCode::WorkflowStructure,
                                    );
                                },
                                _ => {},
                            }
                        }
                        proof {
                            assert(collector@ =~= before + step_shape_diags(es@, lv));
                        }
                        let ghost mid = collector@;
                        let mut k: usize = 0;
                        while k < m
                            invariant
                                line_index.wf(),
                                lv == line_index.lines_view(),
                                0 <= k <= m,
                                m == es@.len(),
                                mid + step_values_diags(es@, lv, 0) == collector@
                                    + step_values_diags(es@, lv, k as int),
                            decreases m - k,
                        {
                            let ghost before_k = collector@;
                            validate_step_body(&es[k].value, line_index, collector);
                            proof {
                                assert(before_k + step_values_diags(es@, lv, k as int) =~= collector@
                                    + step_values_diags(es@, lv, k + 1 as int));
                            }
                            k += 1;
                        }
                        proof {
                            assert(step_values_diags(es@, lv, m as int) == Seq::<DiagInfo>::empty());
                            assert(collector@ =~= mid + step_values_diags(es@, lv, 0));
                            assert(collector@ =~= before + step_diags(steps@[j as int], lv));
                        }
                    },
                    _ => {
                        proof {
                            assert(collector@ =~= before + step_diags(steps@[j as int], lv));
                        }
                    },
                }
                proof {
                    assert(before + steps_items_diags(steps@, lv, j as int) =~= collector@
                        + steps_items_diags(steps@, lv, j + 1 as int));
                }
                j += 1;
            }
            proof {
                assert(steps_items_diags(steps@, lv, n as int) == Seq::<DiagInfo>::empty());
                assert(old(collector)@ + steps_diags(*value, lv) =~= collector@);
            }
        },
        _ => {
            let line = find_key_line(line_index, "steps");
            collector.add_workflow_warning(String::from_str("'steps' must be a list"), line, 0);
            proof {
                assert(collector@ =~= old(collector)@ + steps_diags(*value, lv));
            }
        },
    }
}

/// Validate a workflow or subworkflow block (it must have `steps`).
fn validate_workflow_block(
    value: &YamlNode,
    name: &str,
    line_index: &LineIndex,
    collector: &mut DiagnosticCollector,
)
    requires
        line_index.wf(),
    ensures
        final(collector)@ == old(collector)@ + block_diags(*value, name@, line_index.lines_view()),
{
    let ghost lv = line_index.lines_view();
    match value {
        YamlNode::Mapping(es) => {
            let n = es.len();
            let mut has_steps = false;
            let mut j: usize = 0;
            while j < n
                invariant
                    0 <= j <= n,
                    n == es@.len(),
                    has_steps == exists|i: int|
                        0 <= i < j && node_str_is((#[trigger] es@[i]).key, "steps"@),
                decreases n - j,
            {
                match &es[j].key {
                    YamlNode::Str(s) => {
                        if str_eq(s.as_str(), "steps") {
                            proof {
                                assert(node_str_is(es@[j as int].key, "steps"@));
                            }
                            has_steps = true;
                        }
                    },
                    _ => {},
                }
                j += 1;
            }
            if !has_steps {
                let line = find_key_line(line_index, name);
                let msg = quote_wrap("'", name, "' block must contain 'steps'");
                collector.add_workflow_warning(msg, line, 0);
                proof {
                    assert(!has_steps_key(es@));
                    assert(collector@ =~= old(collector)@ + block_diags(*value, name@, lv));
                }
                return ;
            }
            proof {
                assert(has_steps_key(es@));
            }
            let mut k: usize = 0;
            while k < n
                invariant
                    line_index.wf(),
                    lv == line_index.lines_view(),
                    0 <= k <= n,
                    n == es@.len(),
                    old(collector)@ + block_steps_diags(es@, lv, 0) == collector@
                        + block_steps_diags(es@, lv, k as int),
                decreases n - k,
            {
                let ghost before = collector@;
                match &es[k].key {
                    YamlNode::Str(s) => {
                        if str_eq(s.as_str(), "steps") {
                            validate_steps(&es[k].value, line_index, collector);
                        }
                    },
                    _ => {},
                }
                proof {
                    assert(before + block_steps_diags(es@, lv, k as int) =~= collector@
                        + block_steps_diags(es@, lv, k + 1 as int));
                }
                k += 1;
            }
            let ghost mid = collector@;
            proof {
                assert(block_steps_diags(es@, lv, n as int) == Seq::<DiagInfo>::empty());
                assert(mid =~= old(collector)@ + block_steps_diags(es@, lv, 0));
            }
            let mut u: usize = 0;
            while u < n
                invariant
                    line_index.wf(),
                    lv == line_index.lines_view(),
                    0 <= u <= n,
                    n == es@.len(),
                    mid + block_unknown_diags(es@, name@, lv, 0) == collector@ + block_unknown_diags(
                        es@,
                        name@,
                        lv,
                        u as int,
                    ),
                decreases n - u,
            {
                let ghost before = collector@;
                match &es[u].key {
                    YamlNode::Str(s) => {
                        if !str_eq(s.as_str(), "params") && !str_eq(s.as_str(), "steps") {
                            let line = find_key_line(line_index, s.as_str());
                            let msg = String::from_str("Unknown key '").concat(s.as_str()).concat(
                                "' in workflow block '",
                            ).concat(name).concat("'");
                            collector.add_hint(msg, line, 0);
                            proof {
                                assert(msg_unknown_key(s@, name@) =~= "Unknown key '"@ + s@
                                    + "' in workflow block '"@ + name@ + "'"@);
                            }
                        }
                    },
                    _ => {},
                }
                proof {
                    assert(before + block_unknown_diags(es@, name@, lv, u as int) =~= collector@
                        + block_unknown_diags(es@, name@, lv, u + 1 as int));
                }
                u += 1;
            }
            proof {
                assert(block_unknown_diags(es@, name@, lv, n as int) == Seq::<DiagInfo>::empty());
                assert(collector@ =~= old(collector)@ + block_diags(*value, name@, lv));
            }
        },
        _ => {
            let line = find_key_line(line_index, name);
            let msg = quote_wrap("'", name, "' block must be a mapping");
            collector.add_workflow_warning(msg, line, 0);
            proof {
                assert(collector@ =~= old(collector)@ + block_diags(*value, name@, lv));
            }
        },
    }
}

/// Check if a value looks like a subworkflow definition (has params or
/// steps).
fn is_likely_subworkflow(value: &YamlNode) -> (r: bool)
    ensures
        r == subworkflow_like(*value),
{
    match value {
        YamlNode::Mapping(es) => {
            let n = es.len();
            let mut j: usize = 0;
            while j < n
                invariant
                    *value == YamlNode::Mapping(*es),
                    0 <= j <= n,
                    n == es@.len(),
                    forall|i: int|
                        0 <= i < j ==> !(node_str_is((#[trigger] es@[i]).key, "params"@)
                            || node_str_is(es@[i].key, "steps"@)),
                decreases n - j,
            {
                match &es[j].key {
                    YamlNode::Str(s) => {
                        if str_eq(s.as_str(), "params") || str_eq(s.as_str(), "steps") {
                            proof {
                                assert(node_str_is(es@[j as int].key, "params"@) || node_str_is(
                                    es@[j as int].key,
                                    "steps"@,
                                ));
                                assert(*value matches YamlNode::Mapping(m) && m@ == es@);
                                assert(subworkflow_like(*value));
                            }
                            return true;
                        }
                    },
                    _ => {},
                }
                j += 1;
            }
            false
        },
        _ => false,
    }
}

/// Validate a parsed document as a workflow definition: the top level must
/// be a mapping whose entries are workflow blocks, `main` must be present,
/// and every finding is positioned by looking its key up in the text. The
/// contract states the exact sequence of diagnostics appended.
pub fn validate_workflow(value: &YamlNode, text: &str, collector: &mut DiagnosticCollector)
    requires
        text@.len() <= MAX_REWRITTEN,
    ensures
        final(collector)@ == old(collector)@ + workflow_diags(*value, split_lines_spec(text@)),
{
    let ghost lv = split_lines_spec(text@);
    match value {
        YamlNode::Mapping(es) => {
            let line_index = LineIndex::new(text);
            let n = es.len();
            let mut has_main = false;
            let mut j: usize = 0;
            while j < n
                invariant
                    line_index.wf(),
                    lv == line_index.lines_view(),
                    0 <= j <= n,
                    n == es@.len(),
                    has_main == exists|i: int|
                        0 <= i < j && node_str_is((#[trigger] es@[i]).key, "main"@),
                    old(collector)@ + top_entries_diags(es@, lv, 0) == collector@
                        + top_entries_diags(es@, lv, j as int),
                decreases n - j,
            {
                let ghost before = collector@;
                match &es[j].key {
                    YamlNode::Str(s) => {
                        let key_line_v = find_key_line(&line_index, s.as_str());
                        if str_eq(s.as_str(), "main") {
                            proof {
                                assert(node_str_is(es@[j as int].key, "main"@));
                            }
                            has_main = true;
                            validate_workflow_block(&es[j].value, s.as_str(), &line_index, collector);
                        } else if is_likely_subworkflow(&es[j].value) {
                            validate_workflow_block(&es[j].value, s.as_str(), &line_index, collector);
                        } else {
                            let msg = quote_wrap("Unknown workflow element: '", s.as_str(), "'");
                            collector.add_hint(msg, key_line_v, 0);
                            proof {
                                assert(collector@ =~= before + seq![
                                    hint_diag(msg_unknown_element(s@), key_line(lv, s@)),
                                ]);
                            }
                        }
                    },
                    _ => {},
                }
                proof {
                    assert(before + top_entries_diags(es@, lv, j as int) =~= collector@
                        + top_entries_diags(es@, lv, j + 1 as int));
                }
                j += 1;
            }
            proof {
                assert(top_entries_diags(es@, lv, n as int) == Seq::<DiagInfo>::empty());
            }
            if !has_main && n > 0 {
                collector.add_workflow_warning(
                    String::from_str("Workflow must have a 'main' block"),
                    0,
                    0,
                );
            }
            proof {
                assert(collector@ =~= old(collector)@ + workflow_diags(*value, lv));
            }
        },
        _ => {
            collector.add_workflow_warning(
                String::from_str("Workflow document must be a YAML mapping"),
                0,
                0,
            );
            proof {
                assert(collector@ =~= old(collector)@ + workflow_diags(*value, lv));
            }
        },
    }
}

} // verus!
