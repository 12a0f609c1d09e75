//! YAML parsing with positioned error reporting.
//!
//! The text (already preprocessed, with expression placeholders) is handed to
//! the YAML parser. On failure the parser's message carries a 1-indexed
//! `at line N column M` locator: the locator is parsed out, translated back
//! to original-text coordinates through the expression map, stripped from the
//! message, and the finding is added to the collector as an error.
//!
//! The `at line N column M` grammar is specified and parsed here by verified
//! code: a locator is the literal `at line `, one or more decimal digits, the
//! literal ` column `, and one or more decimal digits; the message-cleaning
//! step removes a trailing locator together with the white space before it.

use vstd::prelude::*;

use crate::diagnostics::code_of_message;
use crate::diagnostics::positioned_diag;
use crate::diagnostics::DiagInfo;
use crate::diagnostics::DiagnosticCollector;
use crate::diagnostics::Severity;
use crate::expressions::adjust_from;
use crate::expressions::ExpressionMap;
use crate::expressions::PositionDelta;
use crate::text::chars_match_at;
use crate::text::chars_range;
use crate::text::chars_to_string;
use crate::text::is_space;
use crate::text::is_space_char;
use crate::text::occurs_at;
use crate::text::str_to_chars;

verus! {

// ---------------------------------------------------------------------------
// The parsed document tree
// ---------------------------------------------------------------------------
/// A parsed YAML document, reduced to what the validators read: mappings,
/// sequences, string scalars, and other scalars. A tagged value stands for
/// its inner value, as the YAML library's accessors look through tags.
#[derive(Debug)]
pub enum YamlNode {
    /// A scalar that is not a string: null, a boolean or a number
    Scalar,
    /// A string scalar
    Str(String),
    /// A sequence of nodes
    Sequence(Vec<YamlNode>),
    /// A mapping, as key/value entries in document order
    Mapping(Vec<YamlEntry>),
}

/// One key/value entry of a YAML mapping.
#[derive(Debug)]
pub struct YamlEntry {
    /// The entry's key
    pub key: YamlNode,
    /// The entry's value
    pub value: YamlNode,
}

/// Result of parsing YAML, containing any parsed value.
#[derive(Debug)]
pub struct ParseResult {
    /// The parsed document (if successful)
    pub value: Option<YamlNode>,
    /// Whether parsing was successful
    pub success: bool,
}

// ---------------------------------------------------------------------------
// Trusted boundary to the YAML library
// ---------------------------------------------------------------------------
#[verifier::external_type_specification]
#[verifier::external_body]
pub struct ExYamlValue(serde_yaml::Value);

#[verifier::external_type_specification]
#[verifier::external_body]
pub struct ExYamlError(serde_yaml::Error);

/// Whether the YAML parser accepts this text: parsing is deterministic, a
/// function of the text alone.
pub uninterp spec fn yaml_parse_ok(s: Seq<char>) -> bool;

/// Relies on `serde_yaml::from_str::<Value>`: it reads nothing but the text,
/// so whether it returns `Ok` is a function of the text alone.
#[verifier::external_body]
fn yaml_from_str(text: &str) -> (r: Result<serde_yaml::Value, serde_yaml::Error>)
    ensures
        r is Ok <==> yaml_parse_ok(text@),
{
    serde_yaml::from_str::<serde_yaml::Value>(text)
}

/// Relies on `serde_yaml::Error`'s display form: the message, ending in an
/// `at line N column M` locator when the error carries a position.
#[verifier::external_body]
fn yaml_error_message(e: &serde_yaml::Error) -> String {
    e.to_string()
}

/// Relies on `serde_yaml::Value`: each variant is turned into the
/// corresponding node, one arm per variant; a tagged value is turned into
/// its inner value, which is how the library's own `as_str`, `as_sequence`
/// and `as_mapping` accessors treat tags.
#[verifier::external_body]
fn yaml_value_to_node(v: &serde_yaml::Value) -> YamlNode {
    match v {
        serde_yaml::Value::Null => YamlNode::Scalar,
        serde_yaml::Value::Bool(_) => YamlNode::Scalar,
        serde_yaml::Value::Number(_) => YamlNode::Scalar,
        serde_yaml::Value::String(s) => YamlNode::Str(s.clone()),
        serde_yaml::Value::Sequence(xs) => YamlNode::Sequence(
            xs.iter().map(yaml_value_to_node).collect(),
        ),
        serde_yaml::Value::Mapping(m) => YamlNode::Mapping(
            m.iter().map(
                |(k, val)| YamlEntry { key: yaml_value_to_node(k), value: yaml_value_to_node(val) },
            ).collect(),
        ),
        serde_yaml::Value::Tagged(t) => yaml_value_to_node(&t.value),
    }
}

// ---------------------------------------------------------------------------
// The `at line N column M` locator grammar
// ---------------------------------------------------------------------------
/// A decimal digit.
pub open spec fn is_digit_char(c: char) -> bool {
    '0' <= c && c <= '9'
}

/// End of the maximal run of digits starting at `i`.
pub open spec fn digits_end(s: Seq<char>, i: int) -> int
    decreases s.len() - i,
{
    if 0 <= i < s.len() && is_digit_char(s[i]) {
        digits_end(s, i + 1)
    } else {
        i
    }
}

/// The digit run is a run of digits within the text.
pub proof fn lemma_digits_end(s: Seq<char>, i: int)
    requires
        0 <= i <= s.len(),
    ensures
        i <= digits_end(s, i) <= s.len(),
        forall|k: int| i <= k < digits_end(s, i) ==> is_digit_char(#[trigger] s[k]),
    decreases s.len() - i,
{
    if 0 <= i < s.len() && is_digit_char(s[i]) {
        lemma_digits_end(s, i + 1);
    }
}

/// The numeric value of the digits in `[a, b)`.
pub open spec fn digits_val(s: Seq<char>, a: int, b: int) -> int
    decreases b - a,
{
    if a >= b {
        0
    } else {
        digits_val(s, a, b - 1) * 10 + (s[b - 1] as int - 48)
    }
}

/// Digit runs have non-negative values.
pub proof fn lemma_digits_val_nonneg(s: Seq<char>, a: int, b: int)
    requires
        forall|k: int| a <= k < b ==> is_digit_char(#[trigger] s[k]),
    ensures
        digits_val(s, a, b) >= 0,
    decreases b - a,
{
    if a < b {
        lemma_digits_val_nonneg(s, a, b - 1);
    }
}

/// A locator match at position `i`: the literal `at line `, a non-empty
/// digit run, the literal ` column `, a non-empty digit run. Returns the
/// bounds of the two digit runs.
pub open spec fn pattern_at(s: Seq<char>, i: int) -> Option<(int, int, int, int)> {
    if occurs_at(s, "at line "@, i) {
        let d1 = i + "at line "@.len();
        let e1 = digits_end(s, d1);
        if d1 < e1 && occurs_at(s, " column "@, e1) {
            let d2 = e1 + " column "@.len();
            let e2 = digits_end(s, d2);
            if d2 < e2 {
                Some((d1, e1, d2, e2))
            } else {
                None
            }
        } else {
            None
        }
    } else {
        None
    }
}

/// The leftmost locator match at or after position `i`.
pub open spec fn first_pattern(s: Seq<char>, i: int) -> Option<(int, int, int, int)>
    decreases s.len() - i,
{
    if !(0 <= i < s.len()) {
        None
    } else if pattern_at(s, i) is Some {
        pattern_at(s, i)
    } else {
        first_pattern(s, i + 1)
    }
}

proof fn lemma_first_pattern_skip(s: Seq<char>, i: int)
    requires
        0 <= i,
        forall|j: int| 0 <= j < i ==> pattern_at(s, j) is None,
    ensures
        first_pattern(s, 0) == first_pattern(s, i),
    decreases i,
{
    if i > 0 {
        lemma_first_pattern_skip(s, i - 1);
    }
}

/// The saturated `u32` reading of a digit run, as the original error
/// messages carry it: a value too large for `u32` reads as 1, the reading
/// is 1-indexed, and the result is the 0-indexed coordinate.
pub open spec fn coord_of_digits(s: Seq<char>, a: int, b: int) -> int {
    let v = if digits_val(s, a, b) <= u32::MAX {
        digits_val(s, a, b)
    } else {
        1
    };
    if v >= 1 {
        v - 1
    } else {
        0
    }
}

/// The 0-indexed position extracted from an error message: the leftmost
/// locator's line and column, or the document start when the message carries
/// no locator.
pub open spec fn extract_pos_spec(m: Seq<char>) -> (int, int) {
    match first_pattern(m, 0) {
        Some((d1, e1, d2, e2)) => (coord_of_digits(m, d1, e1), coord_of_digits(m, d2, e2)),
        None => (0, 0),
    }
}

// ---------------------------------------------------------------------------
// Executable locator parsing
// ---------------------------------------------------------------------------
fn digit_run_end(v: &Vec<char>, from: usize) -> (r: usize)
    requires
        from <= v@.len(),
    ensures
        r as int == digits_end(v@, from as int),
        from <= r <= v@.len(),
{
    let len = v.len();
    let mut j = from;
    while j < len && v[j] >= '0' && v[j] <= '9'
        invariant
            from <= j <= len,
            len == v@.len(),
            digits_end(v@, from as int) == digits_end(v@, j as int),
        decreases len - j,
    {
        j += 1;
    }
    j
}

fn parse_digits_u32(v: &Vec<char>, a: usize, b: usize) -> (r: Option<u32>)
    requires
        a <= b <= v@.len(),
        forall|k: int| a <= k < b ==> is_digit_char(#[trigger] v@[k]),
    ensures
        match r {
            Some(x) => x as int == digits_val(v@, a as int, b as int) && digits_val(v@, a as int, b as int) <= u32::MAX,
            None => digits_val(v@, a as int, b as int) > u32::MAX,
        },
{
    let mut acc: u32 = 0;
    let mut overflow = false;
    let mut k = a;
    while k < b
        invariant
            a <= k <= b <= v@.len(),
            forall|j: int| a <= j < b ==> is_digit_char(#[trigger] v@[j]),
            !overflow ==> acc as int == digits_val(v@, a as int, k as int) && digits_val(v@, a as int, k as int)
                <= u32::MAX,
            overflow ==> digits_val(v@, a as int, k as int) > u32::MAX,
        decreases b - k,
    {
        let c = v[k];
        let d = (c as u8) - 48;
        proof {
            assert(is_digit_char(v@[k as int]));
            assert(d as int == v@[k as int] as int - 48);
            assert(0 <= d <= 9);
            assert(digits_val(v@, a as int, k + 1 as int) == digits_val(v@, a as int, k as int) * 10 + d);
            lemma_digits_val_nonneg(v@, a as int, k as int);
        }
        if overflow {
        } else if acc > (u32::MAX - d as u32) / 10 {
            overflow = true;
            proof {
                assert(acc as int * 10 + d as int > u32::MAX);
            }
        } else {
            proof {
                assert(acc as int * 10 + d as int <= u32::MAX);
            }
            acc = acc * 10 + d as u32;
        }
        k += 1;
    }
    if overflow {
        None
    } else {
        Some(acc)
    }
}

fn pattern_at_exec(
    v: &Vec<char>,
    i: usize,
    at_line: &Vec<char>,
    column_lit: &Vec<char>,
) -> (r: Option<(usize, usize, usize, usize)>)
    requires
        at_line@ == "at line "@,
        column_lit@ == " column "@,
    ensures
        match r {
            Some(t) => pattern_at(v@, i as int) == Some(
                (t.0 as int, t.1 as int, t.2 as int, t.3 as int),
            ),
            None => pattern_at(v@, i as int) is None,
        },
{
    let vlen = v.len();
    if !chars_match_at(v, at_line, i) {
        return None;
    }
    proof {
        assert(i + at_line@.len() <= vlen);
    }
    let d1 = i + at_line.len();
    let e1 = digit_run_end(v, d1);
    if !(e1 > d1 && chars_match_at(v, column_lit, e1)) {
        return None;
    }
    proof {
        assert(e1 + column_lit@.len() <= vlen);
    }
    let d2 = e1 + column_lit.len();
    let e2 = digit_run_end(v, d2);
    if e2 > d2 {
        Some((d1, e1, d2, e2))
    } else {
        None
    }
}

/// Extract the 0-indexed line and column from an error message's embedded
/// 1-indexed `at line N column M` locator; a message without a locator
/// points at the document start.
pub fn extract_error_position(message: &str) -> (r: (u32, u32))
    ensures
        r.0 as int == extract_pos_spec(message@).0,
        r.1 as int == extract_pos_spec(message@).1,
{
    let v = str_to_chars(message);
    let at_line = str_to_chars("at line ");
    let column_lit = str_to_chars(" column ");
    let len = v.len();
    let mut i: usize = 0;
    while i < len
        invariant
            0 <= i <= len,
            len == v@.len(),
            v@ == message@,
            at_line@ == "at line "@,
            column_lit@ == " column "@,
            forall|j: int| 0 <= j < i ==> pattern_at(v@, j) is None,
        decreases len - i,
    {
        match pattern_at_exec(&v, i, &at_line, &column_lit) {
            Some((d1, e1, d2, e2)) => {
                proof {
                    lemma_first_pattern_skip(v@, i as int);
                    assert(first_pattern(v@, i as int) == pattern_at(v@, i as int));
                    lemma_digits_end(v@, d1 as int);
                    lemma_digits_end(v@, d2 as int);
                }
                let lv = parse_digits_u32(&v, d1, e1);
                let cv = parse_digits_u32(&v, d2, e2);
                let l: u32 = match lv {
                    Some(x) => x,
                    None => 1,
                };
                let c: u32 = match cv {
                    Some(x) => x,
                    None => 1,
                };
                let rl: u32 = if l >= 1 {
                    l - 1
                } else {
                    0
                };
                let rc: u32 = if c >= 1 {
                    c - 1
                } else {
                    0
                };
                return (rl, rc);
            },
            None => {
                i += 1;
            },
        }
    }
    proof {
        lemma_first_pattern_skip(v@, len as int);
        assert(first_pattern(v@, len as int) is None);
    }
    (0, 0)
}

// ---------------------------------------------------------------------------
// Message cleaning
// ---------------------------------------------------------------------------
/// A locator match at `w` that reaches exactly the end of the message.
pub open spec fn anchored_at(s: Seq<char>, w: int) -> bool {
    match pattern_at(s, w) {
        Some(t) => t.3 == s.len(),
        None => false,
    }
}

/// The first position `w` at or after `lo` such that the message ends in a
/// locator starting at `w`, with white space just before it.
pub open spec fn first_anchored(s: Seq<char>, lo: int) -> Option<int>
    decreases s.len() + 1 - lo,
{
    if !(1 <= lo <= s.len()) {
        None
    } else if is_space_char(s[lo - 1]) && anchored_at(s, lo) {
        Some(lo)
    } else {
        first_anchored(s, lo + 1)
    }
}

proof fn lemma_first_anchored_skip(s: Seq<char>, lo: int)
    requires
        1 <= lo,
        forall|w: int| 1 <= w < lo ==> !(is_space_char(s[w - 1]) && anchored_at(s, w)),
    ensures
        first_anchored(s, 1) == first_anchored(s, lo),
    decreases lo,
{
    if lo > 1 {
        lemma_first_anchored_skip(s, lo - 1);
    }
}

/// Start of the maximal white-space run ending just before `w`.
pub open spec fn ws_run_start(s: Seq<char>, w: int) -> int
    decreases w,
{
    if 1 <= w <= s.len() && is_space_char(s[w - 1]) {
        ws_run_start(s, w - 1)
    } else {
        w
    }
}

/// The message with a trailing ` at line N column M` locator removed: when
/// the message ends in a locator preceded by white space, everything from
/// the start of that white space on is dropped; otherwise the message stays
/// as it is.
pub open spec fn clean_message_spec(m: Seq<char>) -> Seq<char> {
    match first_anchored(m, 1) {
        Some(w) => m.take(ws_run_start(m, w)),
        None => m,
    }
}

/// Strip the trailing position locator, and the white space before it, from
/// an error message.
pub fn clean_error_message(message: &str) -> (r: String)
    ensures
        r@ == clean_message_spec(message@),
{
    let v = str_to_chars(message);
    let at_line = str_to_chars("at line ");
    let column_lit = str_to_chars(" column ");
    let len = v.len();
    let mut u: usize = 0;
    while u < len
        invariant
            0 <= u <= len,
            len == v@.len(),
            v@ == message@,
            at_line@ == "at line "@,
            column_lit@ == " column "@,
            forall|w: int|
                1 <= w < u + 1 ==> !(is_space_char(v@[w - 1]) && anchored_at(v@, w)),
        decreases len - u,
    {
        let w = u + 1;
        let mut hit = false;
        if is_space(v[u]) {
            match pattern_at_exec(&v, w, &at_line, &column_lit) {
                Some((_d1, _e1, _d2, e2)) => {
                    if e2 == len {
                        hit = true;
                    }
                },
                None => {},
            }
        }
        if hit {
            proof {
                lemma_first_anchored_skip(v@, w as int);
                assert(first_anchored(v@, w as int) == Some(w as int));
            }
            let mut p: usize = w;
            while p >= 1 && is_space(v[p - 1])
                invariant
                    0 <= p <= w <= len,
                    len == v@.len(),
                    ws_run_start(v@, w as int) == ws_run_start(v@, p as int),
                decreases p,
            {
                p -= 1;
            }
            proof {
                assert(ws_run_start(v@, p as int) == p as int);
            }
            let kept = chars_range(&v, 0, p);
            proof {
                assert(v@.subrange(0, p as int) =~= v@.take(p as int));
            }
            return chars_to_string(&kept);
        }
        u += 1;
    }
    proof {
        lemma_first_anchored_skip(v@, len + 1 as int);
        assert(first_anchored(v@, len + 1 as int) is None);
    }
    chars_to_string(&v)
}

// ---------------------------------------------------------------------------
// Parsing with error translation
// ---------------------------------------------------------------------------
/// Clamp a column so that a one-column-wide range starting there still fits
/// the coordinate space.
pub open spec fn diag_col(c: int) -> int {
    if c >= u32::MAX {
        u32::MAX - 1
    } else {
        c
    }
}

/// The diagnostic that a parse failure with message `msg` produces, given
/// the delta table of the document's expression map: the locator is read
/// from the message, translated to original-text coordinates, and the
/// cleaned message is reported as an error at that point.
pub open spec fn parse_error_diag(msg: Seq<char>, ds: Seq<PositionDelta>) -> DiagInfo {
    let l = extract_pos_spec(msg).0;
    let c = extract_pos_spec(msg).1;
    let a = adjust_from(ds, l as u32, c as u32, 0, 0);
    let al = a.0;
    let ac = diag_col(a.1);
    positioned_diag(
        Severity::Error,
        code_of_message(clean_message_spec(msg)),
        clean_message_spec(msg),
        al,
        ac,
        al,
        ac + 1,
    )
}

/// Parse the (preprocessed) text as YAML. On success the parsed document is
/// returned and the collector is untouched; on failure exactly one error
/// diagnostic is added, whose position is the message's locator translated
/// back to original-text coordinates through the expression map, and whose
/// message is the cleaned parser message.
pub fn parse_yaml(
    text: &str,
    expression_map: &ExpressionMap,
    collector: &mut DiagnosticCollector,
) -> (r: ParseResult)
    requires
        expression_map.wf(),
    ensures
        r.success == yaml_parse_ok(text@),
        r.success <==> r.value is Some,
        r.success ==> final(collector)@ == old(collector)@,
        !r.success ==> exists|msg: Seq<char>|
            final(collector)@ == old(collector)@.push(
                #[trigger] parse_error_diag(msg, expression_map.deltas()),
            ),
{
    match yaml_from_str(text) {
        Ok(v) => {
            let node = yaml_value_to_node(&v);
            ParseResult { value: Some(node), success: true }
        },
        Err(e) => {
            let msg = yaml_error_message(&e);
            let ghost msg_view = msg@;
            let (line, column) = extract_error_position(msg.as_str());
            let (adjusted_line, adjusted_column) = expression_map.adjust_position(line, column);
            let ac = if adjusted_column == u32::MAX {
                u32::MAX - 1
            } else {
                adjusted_column
            };
            let clean_message = clean_error_message(msg.as_str());
            collector.add_yaml_error(clean_message, adjusted_line, ac);
            proof {
                assert(collector@ == old(collector)@.push(
                    parse_error_diag(msg_view, expression_map.deltas()),
                ));
            }
            ParseResult { value: None, success: false }
        },
    }
}

} // verus!
