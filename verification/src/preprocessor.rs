//! Expression scanning and placeholder substitution.
//!
//! The scanner walks the host text left to right and locates embedded
//! expressions: `$${...}` (checked first, as the more specific opener) and
//! `${...}`. From an opener it matches braces with a depth counter,
//! skipping the contents of single- and double-quoted strings, where a
//! backslash escapes exactly the next character. An opener whose brace is
//! never closed is not an expression; scanning resumes just after it.
//!
//! Substitution replaces every matched span by the placeholder
//! `__EXPR_NNN__`, numbering the matches in document order, and records an
//! [`Expression`] for each.
//!
//! The scanner and the substitution are specified by the recursive functions
//! [`scan_from`] and [`rewritten_from`] over the character-sequence model of
//! the text; the executable functions are verified to produce exactly what
//! those functions describe.

use vstd::prelude::*;
use vstd::utf8::is_ascii_chars;

use crate::expressions::deltas_spec;
use crate::expressions::expr_before;
use crate::expressions::expr_wf;
use crate::expressions::exprs_compatible;
use crate::expressions::sorted_by_start;
use crate::expressions::Expression;
use crate::expressions::ExpressionKind;
use crate::expressions::ExpressionMap;
use crate::expressions::MAX_PLACEHOLDER;
use crate::text::chars_range;
use crate::text::chars_to_string;
use crate::text::dec_digits;
use crate::text::dec_digits_padded3;
use crate::text::digit_char;
use crate::text::push_dec_digits_padded3;
use crate::text::str_to_chars;
use crate::text::MAX_REWRITTEN;
use crate::text::MAX_TEXT;

verus! {

// ---------------------------------------------------------------------------
// Brace matching
// ---------------------------------------------------------------------------
/// Brace-depth scan from position `i` with current depth `depth`: returns the
/// position just after the brace that closes the expression, if any. A quote
/// character starts a string-skipping sub-scan ([`quote_scan`]).
pub open spec fn brace_scan(s: Seq<char>, i: int, depth: int) -> Option<int>
    decreases s.len() + 2 - i,
{
    if i < 0 || i >= s.len() {
        None
    } else if s[i] == '{' {
        brace_scan(s, i + 1, depth + 1)
    } else if s[i] == '}' {
        if depth == 1 {
            Some(i + 1)
        } else {
            brace_scan(s, i + 1, depth - 1)
        }
    } else if s[i] == '"' {
        quote_scan(s, i + 1, '"', depth)
    } else if s[i] == '\'' {
        quote_scan(s, i + 1, '\'', depth)
    } else {
        brace_scan(s, i + 1, depth)
    }
}

/// String-skipping sub-scan: consume characters verbatim, brace characters
/// included, until the quote `q` closes the string. A backslash escapes
/// exactly the next character.
pub open spec fn quote_scan(s: Seq<char>, i: int, q: char, depth: int) -> Option<int>
    decreases s.len() + 2 - i,
{
    if i < 0 || i >= s.len() {
        None
    } else if s[i] == '\\' {
        quote_scan(s, i + 2, q, depth)
    } else if s[i] == q {
        brace_scan(s, i + 1, depth)
    } else {
        quote_scan(s, i + 1, q, depth)
    }
}

/// Position just after the brace matching the opening brace at `open`, or
/// `None` if `open` does not hold `{` or the brace is never closed.
pub open spec fn brace_match_at(s: Seq<char>, open: int) -> Option<int> {
    if 0 <= open < s.len() && s[open] == '{' {
        brace_scan(s, open + 1, 1)
    } else {
        None
    }
}

/// A successful brace scan ends after its start and within the text.
pub proof fn lemma_brace_scan_bounds(s: Seq<char>, i: int, depth: int)
    ensures
        brace_scan(s, i, depth) matches Some(e) ==> i < e <= s.len(),
    decreases s.len() + 2 - i,
{
    if 0 <= i < s.len() {
        if s[i] == '{' {
            lemma_brace_scan_bounds(s, i + 1, depth + 1);
        } else if s[i] == '}' {
            if depth != 1 {
                lemma_brace_scan_bounds(s, i + 1, depth - 1);
            }
        } else if s[i] == '"' {
            lemma_quote_scan_bounds(s, i + 1, '"', depth);
        } else if s[i] == '\'' {
            lemma_quote_scan_bounds(s, i + 1, '\'', depth);
        } else {
            lemma_brace_scan_bounds(s, i + 1, depth);
        }
    }
}

/// A successful quote scan ends after its start and within the text.
pub proof fn lemma_quote_scan_bounds(s: Seq<char>, i: int, q: char, depth: int)
    ensures
        quote_scan(s, i, q, depth) matches Some(e) ==> i < e <= s.len(),
    decreases s.len() + 2 - i,
{
    if 0 <= i < s.len() {
        if s[i] == '\\' {
            lemma_quote_scan_bounds(s, i + 2, q, depth);
        } else if s[i] == q {
            lemma_brace_scan_bounds(s, i + 1, depth);
        } else {
            lemma_quote_scan_bounds(s, i + 1, q, depth);
        }
    }
}

/// Match the brace at `open_pos` (a character offset) in `v`, honoring
/// nesting depth and quoted strings.
fn find_brace_in(v: &Vec<char>, open_pos: usize) -> (r: Option<usize>)
    ensures
        match r {
            Some(e) => brace_match_at(v@, open_pos as int) == Some(e as int),
            None => brace_match_at(v@, open_pos as int) is None,
        },
{
    let len = v.len();
    if open_pos >= len || v[open_pos] != '{' {
        return None;
    }
    let ghost ans = brace_match_at(v@, open_pos as int);
    let mut i: usize = open_pos + 1;
    let mut depth: usize = 1;
    while i < len
        invariant
            open_pos < i <= len,
            len == v@.len(),
            1 <= depth <= i,
            ans == brace_match_at(v@, open_pos as int),
            brace_scan(v@, i as int, depth as int) == ans,
        decreases len - i,
    {
        let c = v[i];
        if c == '{' {
            depth += 1;
            i += 1;
        } else if c == '}' {
            if depth == 1 {
                proof {
                    assert(brace_scan(v@, i as int, depth as int) == Some(i + 1 as int));
                }
                return Some(i + 1);
            }
            depth -= 1;
            i += 1;
        } else if c == '"' || c == '\'' {
            let q = c;
            proof {
                assert(brace_scan(v@, i as int, depth as int) == quote_scan(
                    v@,
                    i + 1 as int,
                    q,
                    depth as int,
                ));
            }
            i += 1;
            let ghost i_entry = i as int;
            while i < len && v[i] != q
                invariant
                    i_entry <= i as int,
                    open_pos < i <= len,
                    len == v@.len(),
                    1 <= depth <= i,
                    ans == brace_match_at(v@, open_pos as int),
                    quote_scan(v@, i as int, q, depth as int) == ans,
                decreases len - i,
            {
                if v[i] == '\\' {
                    proof {
                        assert(quote_scan(v@, i as int, q, depth as int) == quote_scan(
                            v@,
                            i + 2 as int,
                            q,
                            depth as int,
                        ));
                        if i + 2 > len {
                            assert(quote_scan(v@, i + 2 as int, q, depth as int) is None);
                            assert(quote_scan(v@, len as int, q, depth as int) is None);
                        }
                    }
                    if len - i >= 2 {
                        i += 2;
                    } else {
                        i = len;
                    }
                } else {
                    i += 1;
                }
            }
            if i < len {
                proof {
                    assert(quote_scan(v@, i as int, q, depth as int) == brace_scan(
                        v@,
                        i + 1 as int,
                        depth as int,
                    ));
                }
                i += 1;
            } else {
                proof {
                    assert(quote_scan(v@, i as int, q, depth as int) is None);
                    assert(brace_scan(v@, i as int, depth as int) is None);
                }
            }
        } else {
            i += 1;
        }
    }
    proof {
        assert(brace_scan(v@, i as int, depth as int) is None);
    }
    None
}

/// Find the position just after the brace matching the opening brace at
/// `open_pos`, skipping quoted strings and tolerating newlines; `None` when
/// `open_pos` does not hold an opening brace or the brace is never closed.
/// Positions are character offsets.
pub fn find_matching_brace(text: &str, open_pos: usize) -> (r: Option<usize>)
    ensures
        match r {
            Some(e) => brace_match_at(text@, open_pos as int) == Some(e as int),
            None => brace_match_at(text@, open_pos as int) is None,
        },
{
    let chars = str_to_chars(text);
    find_brace_in(&chars, open_pos)
}

// ---------------------------------------------------------------------------
// Scanning
// ---------------------------------------------------------------------------
/// One matched expression span: start and end offsets and the kind.
pub ghost struct SpanRec {
    pub start: int,
    pub end: int,
    pub kind: ExpressionKind,
}

/// The expression spans found from position `i` on. At each position the
/// doubly-delimited opener `$${` is tried before `${`; a `${` directly
/// preceded by another `$` is skipped; an opener whose brace never closes is
/// passed over, scanning resuming at the next position.
pub open spec fn scan_from(s: Seq<char>, i: int) -> Seq<SpanRec>
    decreases s.len() - i,
{
    if !(0 <= i < s.len()) {
        Seq::empty()
    } else if i + 2 < s.len() && s[i] == '$' && s[i + 1] == '$' && s[i + 2] == '{' {
        match brace_match_at(s, i + 2) {
            Some(e) => {
                if i < e <= s.len() {
                    seq![SpanRec { start: i, end: e, kind: ExpressionKind::Workflows }]
                        + scan_from(s, e)
                } else {
                    seq![SpanRec { start: i, end: e, kind: ExpressionKind::Workflows }]
                }
            },
            None => scan_from(s, i + 1),
        }
    } else if i + 1 < s.len() && s[i] == '$' && s[i + 1] == '{' {
        if 0 < i && s[i - 1] == '$' {
            scan_from(s, i + 1)
        } else {
            match brace_match_at(s, i + 1) {
                Some(e) => {
                    if i < e <= s.len() {
                        seq![SpanRec { start: i, end: e, kind: ExpressionKind::Terraform }]
                            + scan_from(s, e)
                    } else {
                        seq![SpanRec { start: i, end: e, kind: ExpressionKind::Terraform }]
                    }
                },
                None => scan_from(s, i + 1),
            }
        }
    } else {
        scan_from(s, i + 1)
    }
}

/// All expression spans of the text, in document order.
pub open spec fn scan_spec(s: Seq<char>) -> Seq<SpanRec> {
    scan_from(s, 0)
}

/// The spans are non-empty, lie between `i` and `n`, and each span ends at
/// or before the next one starts.
pub open spec fn spans_wf(ms: Seq<SpanRec>, i: int, n: int) -> bool
    decreases ms.len(),
{
    ms.len() == 0 || (i <= ms[0].start && ms[0].start < ms[0].end <= n && spans_wf(
        ms.drop_first(),
        ms[0].end,
        n,
    ))
}

/// Each span of a well-formed list is non-empty and lies between `i` and `n`.
pub proof fn lemma_spans_wf_index(ms: Seq<SpanRec>, i: int, n: int, j: int)
    requires
        spans_wf(ms, i, n),
        0 <= j < ms.len(),
    ensures
        i <= ms[j].start,
        ms[j].start < ms[j].end <= n,
    decreases j,
{
    if j > 0 {
        lemma_spans_wf_index(ms.drop_first(), ms[0].end, n, j - 1);
        assert(ms.drop_first()[j - 1] == ms[j]);
    }
}

/// The spans produced by a scan are non-empty, lie within the text at or
/// after the scan position, and are disjoint and ordered.
/// A scan that begins later still yields a well-formed span list from the
/// earlier position.
proof fn lemma_spans_wf_weaken(ms: Seq<SpanRec>, i: int, i2: int, n: int)
    requires
        spans_wf(ms, i2, n),
        i <= i2,
    ensures
        spans_wf(ms, i, n),
{
}

pub proof fn lemma_scan_from_props(s: Seq<char>, i: int)
    requires
        0 <= i,
    ensures
        spans_wf(scan_from(s, i), i, s.len() as int),
    decreases s.len() - i,
{
    let ms = scan_from(s, i);
    if 0 <= i < s.len() {
        if i + 2 < s.len() && s[i] == '$' && s[i + 1] == '$' && s[i + 2] == '{' {
            lemma_brace_scan_bounds(s, i + 3, 1);
            match brace_match_at(s, i + 2) {
                Some(e) => {
                    lemma_scan_from_props(s, e);
                    let m = SpanRec { start: i, end: e, kind: ExpressionKind::Workflows };
                    assert(ms == seq![m] + scan_from(s, e));
                    assert(ms.drop_first() =~= scan_from(s, e));
                    assert(ms[0] == m);
                },
                None => {
                    lemma_scan_from_props(s, i + 1);
                    lemma_spans_wf_weaken(ms, i, i + 1, s.len() as int);
                },
            }
        } else if i + 1 < s.len() && s[i] == '$' && s[i + 1] == '{' {
            if 0 < i && s[i - 1] == '$' {
                lemma_scan_from_props(s, i + 1);
                lemma_spans_wf_weaken(ms, i, i + 1, s.len() as int);
            } else {
                lemma_brace_scan_bounds(s, i + 2, 1);
                match brace_match_at(s, i + 1) {
                    Some(e) => {
                        lemma_scan_from_props(s, e);
                        let m = SpanRec { start: i, end: e, kind: ExpressionKind::Terraform };
                        assert(ms == seq![m] + scan_from(s, e));
                        assert(ms.drop_first() =~= scan_from(s, e));
                        assert(ms[0] == m);
                    },
                    None => {
                        lemma_scan_from_props(s, i + 1);
                        lemma_spans_wf_weaken(ms, i, i + 1, s.len() as int);
                    },
                }
            }
        } else {
            lemma_scan_from_props(s, i + 1);
            lemma_spans_wf_weaken(ms, i, i + 1, s.len() as int);
        }
    }
}

/// Any earlier span ends at or before any later span starts.
/// Any earlier span ends at or before any later span starts.
pub proof fn lemma_spans_ordered(ms: Seq<SpanRec>, i: int, n: int, a: int, b: int)
    requires
        spans_wf(ms, i, n),
        0 <= a < b < ms.len(),
    ensures
        ms[a].end <= ms[b].start,
    decreases a,
{
    if a == 0 {
        lemma_spans_wf_index(ms.drop_first(), ms[0].end, n, b - 1);
        assert(ms.drop_first()[b - 1] == ms[b]);
    } else {
        lemma_spans_ordered(ms.drop_first(), ms[0].end, n, a - 1, b - 1);
        assert(ms.drop_first()[a - 1] == ms[a]);
        assert(ms.drop_first()[b - 1] == ms[b]);
    }
}

/// One matched span, as the executable scanner records it.
#[derive(Debug, Clone, Copy)]
pub struct ExpressionMatch {
    /// Start offset of the span (characters)
    pub start: usize,
    /// End offset of the span (characters, exclusive)
    pub end: usize,
    /// Kind of the matched expression
    pub kind: ExpressionKind,
}

/// The executable match list records exactly the spans of the model.
pub open spec fn matches_correspond(r: Seq<ExpressionMatch>, ms: Seq<SpanRec>) -> bool {
    &&& r.len() == ms.len()
    &&& forall|j: int|
        0 <= j < ms.len() ==> (#[trigger] r[j]).start as int == ms[j].start && r[j].end as int
            == ms[j].end && r[j].kind == ms[j].kind
}

/// Scan the text for expression spans.
fn scan_expressions(v: &Vec<char>) -> (r: Vec<ExpressionMatch>)
    ensures
        matches_correspond(r@, scan_spec(v@)),
{
    let ghost total = scan_spec(v@);
    let len = v.len();
    let mut r: Vec<ExpressionMatch> = Vec::new();
    let mut i: usize = 0;
    while i < len
        invariant
            0 <= i <= len,
            len == v@.len(),
            total == scan_spec(v@),
            r@.len() <= total.len(),
            forall|j: int|
                0 <= j < r@.len() ==> (#[trigger] r@[j]).start as int == total[j].start
                    && r@[j].end as int == total[j].end && r@[j].kind == total[j].kind,
            scan_from(v@, i as int) == total.subrange(r@.len() as int, total.len() as int),
        decreases len - i,
    {
        let ghost rl = r@.len() as int;
        let ghost ms_i = scan_from(v@, i as int);
        if len - i > 2 && v[i] == '$' && v[i + 1] == '$' && v[i + 2] == '{' {
            match find_brace_in(v, i + 2) {
                Some(e) => {
                    proof {
                        lemma_brace_scan_bounds(v@, i + 3, 1);
                        let m = SpanRec {
                            start: i as int,
                            end: e as int,
                            kind: ExpressionKind::Workflows,
                        };
                        let rest = scan_from(v@, e as int);
                        assert(ms_i == seq![m] + rest);
                        assert(ms_i.len() == total.len() - rl);
                        assert(ms_i[0] == m);
                        assert(total[rl] == total.subrange(rl, total.len() as int)[0]);
                        assert(total[rl] == m);
                        assert forall|j: int| 0 <= j < rest.len() implies rest[j] == total[rl + 1
                            + j] by {
                            assert(rest[j] == ms_i[j + 1]);
                            assert(ms_i[j + 1] == total.subrange(rl, total.len() as int)[j + 1]);
                        }
                        assert(rest =~= total.subrange(rl + 1, total.len() as int));
                    }
                    r.push(ExpressionMatch { start: i, end: e, kind: ExpressionKind::Workflows });
                    i = e;
                },
                None => {
                    proof {
                        assert(ms_i == scan_from(v@, i + 1 as int));
                    }
                    i += 1;
                },
            }
        } else if len - i > 1 && v[i] == '$' && v[i + 1] == '{' {
            if i > 0 && v[i - 1] == '$' {
                proof {
                    assert(ms_i == scan_from(v@, i + 1 as int));
                }
                i += 1;
            } else {
                match find_brace_in(v, i + 1) {
                    Some(e) => {
                        proof {
                            lemma_brace_scan_bounds(v@, i + 2, 1);
                            let m = SpanRec {
                                start: i as int,
                                end: e as int,
                                kind: ExpressionKind::Terraform,
                            };
                            let rest = scan_from(v@, e as int);
                            assert(ms_i == seq![m] + rest);
                            assert(ms_i.len() == total.len() - rl);
                            assert(ms_i[0] == m);
                            assert(total[rl] == total.subrange(rl, total.len() as int)[0]);
                            assert(total[rl] == m);
                            assert forall|j: int| 0 <= j < rest.len() implies rest[j] == total[rl
                                + 1 + j] by {
                                assert(rest[j] == ms_i[j + 1]);
                                assert(ms_i[j + 1] == total.subrange(rl, total.len() as int)[j
                                    + 1]);
                            }
                            assert(rest =~= total.subrange(rl + 1, total.len() as int));
                        }
                        r.push(
                            ExpressionMatch { start: i, end: e, kind: ExpressionKind::Terraform },
                        );
                        i = e;
                    },
                    None => {
                        proof {
                            assert(ms_i == scan_from(v@, i + 1 as int));
                        }
                        i += 1;
                    },
                }
            }
        } else {
            proof {
                assert(ms_i == scan_from(v@, i + 1 as int));
            }
            i += 1;
        }
    }
    proof {
        assert(scan_from(v@, i as int) == Seq::<SpanRec>::empty());
        assert(total.subrange(r@.len() as int, total.len() as int).len() == 0);
        assert(r@.len() == total.len());
    }
    r
}

/// A well-formed span list has at most one span per character between `i`
/// and `n`.
pub proof fn lemma_spans_wf_count(ms: Seq<SpanRec>, i: int, n: int)
    requires
        spans_wf(ms, i, n),
        i <= n,
    ensures
        ms.len() <= n - i,
    decreases ms.len(),
{
    if ms.len() > 0 {
        lemma_spans_wf_count(ms.drop_first(), ms[0].end, n);
    }
}

// ---------------------------------------------------------------------------
// Line and column coordinates
// ---------------------------------------------------------------------------
/// The 0-indexed line and column of the character at offset `o`: lines are
/// counted by the newlines before `o`, the column by the characters since
/// the last newline. Offsets past the end denote the end of the text.
pub open spec fn line_col_at(s: Seq<char>, o: int) -> (int, int)
    decreases o,
{
    if o <= 0 {
        (0, 0)
    } else {
        let prev = line_col_at(s, o - 1);
        if o - 1 < s.len() && s[o - 1] == '\n' {
            (prev.0 + 1, 0)
        } else if o - 1 < s.len() {
            (prev.0, prev.1 + 1)
        } else {
            prev
        }
    }
}

/// Line and column are non-negative and bounded by the offset.
pub proof fn lemma_line_col_bounds(s: Seq<char>, o: int)
    requires
        0 <= o,
    ensures
        0 <= line_col_at(s, o).0 <= o,
        0 <= line_col_at(s, o).1 <= o,
    decreases o,
{
    if o > 0 {
        lemma_line_col_bounds(s, o - 1);
    }
}

/// Positions do not change past the end of the text.
pub proof fn lemma_line_col_clamp(s: Seq<char>, o: int)
    requires
        s.len() <= o,
    ensures
        line_col_at(s, o) == line_col_at(s, s.len() as int),
    decreases o,
{
    if o > s.len() {
        lemma_line_col_clamp(s, o - 1);
    }
}

/// Coordinates grow with the offset, and two offsets on the same line are
/// exactly a column difference apart.
pub proof fn lemma_line_col_order(s: Seq<char>, a: int, b: int)
    requires
        0 <= a <= b,
    ensures
        line_col_at(s, a).0 <= line_col_at(s, b).0,
        line_col_at(s, a).0 == line_col_at(s, b).0 ==> line_col_at(s, a).1 <= line_col_at(s, b).1,
        line_col_at(s, a).0 == line_col_at(s, b).0 && b <= s.len() ==> line_col_at(s, b).1
            == line_col_at(s, a).1 + (b - a),
    decreases b - a,
{
    if b > a {
        lemma_line_col_order(s, a, b - 1);
    }
}

/// Compute the line and column of the character at `offset` in `v`.
fn line_col_in(v: &Vec<char>, offset: usize) -> (r: (u32, u32))
    requires
        v@.len() <= MAX_TEXT,
    ensures
        r.0 as int == line_col_at(v@, offset as int).0,
        r.1 as int == line_col_at(v@, offset as int).1,
{
    let len = v.len();
    let m = if offset < len {
        offset
    } else {
        len
    };
    let mut line: u32 = 0;
    let mut col: u32 = 0;
    let mut k: usize = 0;
    while k < m
        invariant
            0 <= k <= m <= len,
            len == v@.len(),
            len <= MAX_TEXT,
            line as int == line_col_at(v@, k as int).0,
            col as int == line_col_at(v@, k as int).1,
            line as int <= k,
            col as int <= k,
        decreases m - k,
    {
        if v[k] == '\n' {
            line += 1;
            col = 0;
        } else {
            col += 1;
        }
        k += 1;
    }
    proof {
        if offset > len {
            lemma_line_col_clamp(v@, offset as int);
        }
    }
    (line, col)
}

/// Convert a character offset to 0-indexed line and column coordinates.
pub fn offset_to_line_col(text: &str, offset: usize) -> (r: (u32, u32))
    requires
        text@.len() <= MAX_TEXT,
    ensures
        r.0 as int == line_col_at(text@, offset as int).0,
        r.1 as int == line_col_at(text@, offset as int).1,
{
    let chars = str_to_chars(text);
    line_col_in(&chars, offset)
}

// ---------------------------------------------------------------------------
// Placeholders and the rewritten text
// ---------------------------------------------------------------------------
/// Ten to the `k`.
pub open spec fn pow10(k: nat) -> nat
    decreases k,
{
    if k == 0 {
        1
    } else {
        10 * pow10((k - 1) as nat)
    }
}

/// A number below ten to the `k` has at most `k` decimal digits.
pub proof fn lemma_dec_digits_len(n: nat, k: nat)
    requires
        1 <= k,
        n < pow10(k),
    ensures
        1 <= dec_digits(n).len() <= k,
    decreases k,
{
    if n >= 10 {
        assert(pow10(1) == 10) by {
            reveal_with_fuel(pow10, 2);
        }
        assert(k >= 2) by {
            if k == 1 {
                assert(pow10(1) == 10) by {
                    reveal_with_fuel(pow10, 2);
                }
            }
        }
        assert(pow10(k) == 10 * pow10((k - 1) as nat));
        assert(n / 10 < pow10((k - 1) as nat)) by (nonlinear_arith)
            requires
                n < pow10(k),
                pow10(k) == 10 * pow10((k - 1) as nat),
                n >= 10,
        ;
        lemma_dec_digits_len(n / 10, (k - 1) as nat);
    }
}

/// Decimal digits are ASCII digit characters.
pub proof fn lemma_dec_digits_ascii(n: nat)
    ensures
        forall|i: int|
            0 <= i < dec_digits(n).len() ==> '0' <= #[trigger] dec_digits(n)[i] && dec_digits(
                n,
            )[i] <= '9',
    decreases n,
{
    if n >= 10 {
        lemma_dec_digits_ascii(n / 10);
        assert(forall|i: int|
            0 <= i < dec_digits(n / 10).len() ==> dec_digits(n)[i] == dec_digits(n / 10)[i]);
    }
}

/// The placeholder token for the expression with ordinal `n`.
pub open spec fn placeholder_text(n: nat) -> Seq<char> {
    seq!['_', '_', 'E', 'X', 'P', 'R', '_'] + dec_digits_padded3(n) + seq!['_', '_']
}

/// The placeholder token is a short ASCII token of at least twelve
/// characters, exactly twelve while the ordinal has at most three digits.
pub proof fn lemma_placeholder_props(n: nat)
    requires
        n <= MAX_TEXT,
    ensures
        is_ascii_chars(placeholder_text(n)),
        12 <= placeholder_text(n).len() <= 19,
        placeholder_text(n).len() <= MAX_PLACEHOLDER,
        n < 1000 ==> placeholder_text(n).len() == 12,
{
    assert(MAX_TEXT < pow10(10)) by {
        reveal_with_fuel(pow10, 11);
    }
    lemma_dec_digits_len(n, 10);
    lemma_dec_digits_ascii(n);
    let ph = placeholder_text(n);
    let pad = dec_digits_padded3(n);
    if n < 10 {
        assert(dec_digits(n).len() == 1);
        assert(pad.len() == 3);
    } else if n < 100 {
        assert(dec_digits(n) == dec_digits(n / 10) + seq![digit_char((n % 10) as int)]);
        assert(dec_digits(n / 10).len() == 1);
        assert(pad.len() == 3);
    } else {
        assert(pad == dec_digits(n));
        assert(dec_digits(n).len() >= 3) by {
            assert(pow10(2) == 100) by {
                reveal_with_fuel(pow10, 3);
            }
            if dec_digits(n).len() < 3 {
                lemma_dec_digits_below(n, 2);
            }
        }
        if n < 1000 {
            assert(pow10(3) == 1000) by {
                reveal_with_fuel(pow10, 4);
            }
            lemma_dec_digits_len(n, 3);
        }
    }
    assert(ph.len() == 9 + pad.len());
    assert(3 <= pad.len() <= 10);
    assert forall|i: int| 0 <= i < ph.len() implies '\0' <= #[trigger] ph[i] <= '\u{7f}' by {
        if 7 <= i < 7 + pad.len() {
            assert(ph[i] == pad[i - 7]);
            if n < 10 {
                if i - 7 >= 2 {
                    assert(pad[i - 7] == dec_digits(n)[i - 9]);
                }
            } else if n < 100 {
                if i - 7 >= 1 {
                    assert(pad[i - 7] == dec_digits(n)[i - 8]);
                }
            } else {
                assert(pad[i - 7] == dec_digits(n)[i - 7]);
            }
        }
    }
}

/// A number with at most `k` decimal digits is below ten to the `k`.
pub proof fn lemma_dec_digits_below(n: nat, k: nat)
    requires
        dec_digits(n).len() <= k,
    ensures
        n < pow10(k),
    decreases n,
{
    if n < 10 {
        assert(dec_digits(n).len() == 1);
        assert(pow10(k) >= pow10(1)) by {
            lemma_pow10_monotone(1, k);
        }
        assert(pow10(1) == 10) by {
            reveal_with_fuel(pow10, 2);
        }
    } else {
        assert(dec_digits(n).len() == dec_digits(n / 10).len() + 1);
        lemma_dec_digits_below(n / 10, (k - 1) as nat);
        assert(pow10(k) == 10 * pow10((k - 1) as nat));
        assert(n < 10 * pow10((k - 1) as nat)) by (nonlinear_arith)
            requires
                n / 10 < pow10((k - 1) as nat),
                n >= 10,
        ;
    }
}

/// Powers of ten grow with the exponent.
pub proof fn lemma_pow10_monotone(a: nat, b: nat)
    requires
        a <= b,
    ensures
        pow10(a) <= pow10(b),
        pow10(b) >= 1,
    decreases b,
{
    if b > 0 {
        if a == b {
            lemma_pow10_monotone(0, (b - 1) as nat);
        } else {
            lemma_pow10_monotone(a, (b - 1) as nat);
        }
    }
}

/// Build the placeholder token for ordinal `n`.
fn build_placeholder(n: usize) -> (v: Vec<char>)
    ensures
        v@ == placeholder_text(n as nat),
{
    let mut v: Vec<char> = Vec::new();
    v.push('_');
    v.push('_');
    v.push('E');
    v.push('X');
    v.push('P');
    v.push('R');
    v.push('_');
    assert(v@ =~= seq!['_', '_', 'E', 'X', 'P', 'R', '_']);
    push_dec_digits_padded3(n, &mut v);
    v.push('_');
    v.push('_');
    assert(v@ =~= placeholder_text(n as nat));
    v
}

/// The characters of `s` in the range `[a, b)`, empty when out of range.
pub open spec fn seg(s: Seq<char>, a: int, b: int) -> Seq<char> {
    if 0 <= a <= b <= s.len() {
        s.subrange(a, b)
    } else {
        Seq::empty()
    }
}

/// The rewritten text from position `pos` on, with the spans from index `j`
/// on still to substitute: the text between spans is kept, each span is
/// replaced by its placeholder.
pub open spec fn rewritten_from(s: Seq<char>, ms: Seq<SpanRec>, j: int, pos: int) -> Seq<char>
    decreases ms.len() - j,
{
    if !(0 <= j < ms.len()) {
        seg(s, pos, s.len() as int)
    } else {
        seg(s, pos, ms[j].start) + placeholder_text(j as nat) + rewritten_from(
            s,
            ms,
            j + 1,
            ms[j].end,
        )
    }
}

/// The whole rewritten text for the spans `ms`.
pub open spec fn rewritten_text(s: Seq<char>, ms: Seq<SpanRec>) -> Seq<char> {
    rewritten_from(s, ms, 0, 0)
}

/// The expression record that preprocessing produces for span `j` of `ms`.
pub open spec fn expr_matches_span(e: Expression, s: Seq<char>, ms: Seq<SpanRec>, j: int) -> bool {
    let m = ms[j];
    &&& e.start as int == m.start
    &&& e.end as int == m.end
    &&& e.kind == m.kind
    &&& e.original@ == seg(s, m.start, m.end)
    &&& e.placeholder@ == placeholder_text(j as nat)
    &&& e.start_line as int == line_col_at(s, m.start).0
    &&& e.start_column as int == line_col_at(s, m.start).1
    &&& e.end_line as int == line_col_at(s, m.end).0
    &&& e.end_column as int == line_col_at(s, m.end).1
}

/// Locate every embedded expression of `text`, replace each by its
/// placeholder, and return the rewritten text together with the finalized
/// expression map. The expressions are recorded in document order with
/// their exact extents and coordinates; a text without expressions comes
/// back unchanged with an empty map.
pub fn preprocess_expressions(text: &str) -> (r: (String, ExpressionMap))
    requires
        text@.len() <= MAX_TEXT,
    ensures
        ({
            let ms = scan_spec(text@);
            let map = r.1;
            &&& map.expressions@.len() == ms.len()
            &&& forall|j: int|
                0 <= j < ms.len() ==> expr_matches_span(#[trigger] map.expressions@[j], text@, ms, j)
            &&& r.0@ == rewritten_text(text@, ms)
            &&& r.0@.len() <= MAX_REWRITTEN
            &&& map.wf()
            &&& sorted_by_start(map.expressions@)
            &&& map.deltas() == deltas_spec(map.expressions@)
        }),
{
    let chars = str_to_chars(text);
    let ghost s = text@;
    let ghost ms = scan_spec(s);
    proof {
        lemma_scan_from_props(s, 0);
        lemma_spans_wf_count(ms, 0, s.len() as int);
    }
    let matches = scan_expressions(&chars);
    let mut map = ExpressionMap::new();
    if matches.len() == 0 {
        proof {
            assert(rewritten_text(s, ms) == seg(s, 0, s.len() as int));
            assert(seg(s, 0, s.len() as int) =~= s);
            lemma_rewritten_len(s, ms, 0, 0);
            assert(deltas_spec(map.expressions@) == Seq::<crate::expressions::PositionDelta>::empty());
        }
        let copy = crate::text::chars_to_string(&chars);
        return (copy, map);
    }
    let n_m = matches.len();
    let mut out: Vec<char> = Vec::new();
    let mut pos: usize = 0;
    let mut j: usize = 0;
    while j < n_m
        invariant
            text@ == s,
            chars@ == s,
            s.len() <= MAX_TEXT,
            ms == scan_spec(s),
            spans_wf(ms, 0, s.len() as int),
            ms.len() <= s.len(),
            matches_correspond(matches@, ms),
            0 <= j <= n_m,
            n_m == matches@.len(),
            map.wf(),
            map.deltas() == Seq::<crate::expressions::PositionDelta>::empty(),
            map.expressions@.len() == j,
            forall|k: int|
                0 <= k < j ==> expr_matches_span(#[trigger] map.expressions@[k], s, ms, k),
            pos as int == if j == 0 {
                0int
            } else {
                ms[j - 1].end
            },
            pos <= s.len(),
            rewritten_text(s, ms) == out@ + rewritten_from(s, ms, j as int, pos as int),
        decreases n_m - j,
    {
        let m_start = matches[j].start;
        let m_end = matches[j].end;
        let m_kind = matches[j].kind;
        proof {
            lemma_spans_wf_index(ms, 0, s.len() as int, j as int);
            if j > 0 {
                lemma_spans_ordered(ms, 0, s.len() as int, j - 1, j as int);
            }
            assert(pos as int <= ms[j as int].start);
        }
        let ghost out_before = out@;
        crate::text::push_range(&mut out, &chars, pos, m_start);
        let ph = build_placeholder(j);
        crate::text::push_range(&mut out, &ph, 0, ph.len());
        proof {
            assert(ph@.subrange(0, ph@.len() as int) =~= ph@);
        }
        let orig_v = chars_range(&chars, m_start, m_end);
        let original = chars_to_string(&orig_v);
        let placeholder = chars_to_string(&ph);
        let (sl, sc) = line_col_in(&chars, m_start);
        let (el, ec) = line_col_in(&chars, m_end);
        proof {
            lemma_line_col_bounds(s, m_start as int);
            lemma_line_col_bounds(s, m_end as int);
        }
        let e = Expression {
            original,
            placeholder,
            start: m_start,
            end: m_end,
            start_line: sl,
            start_column: sc,
            end_line: el,
            end_column: ec,
            kind: m_kind,
        };
        proof {
            lemma_placeholder_props(j as nat);
            lemma_line_col_order(s, m_start as int, m_end as int);
            assert(expr_wf(e));
            assert forall|k: int| 0 <= k < map.expressions@.len() implies exprs_compatible(
                #[trigger] map.expressions@[k],
                e,
            ) by {
                lemma_spans_wf_index(ms, 0, s.len() as int, k);
                lemma_spans_ordered(ms, 0, s.len() as int, k, j as int);
                lemma_line_col_order(s, ms[k].end, ms[j as int].start);
                lemma_line_col_order(s, ms[j as int].start, ms[j as int].end);
                assert(expr_before(map.expressions@[k], e));
            }
        }
        map.add(e);
        proof {
            assert(expr_matches_span(e, s, ms, j as int));
            assert(rewritten_from(s, ms, j as int, pos as int) == seg(s, pos as int, ms[j as int].start)
                + placeholder_text(j as nat) + rewritten_from(s, ms, j + 1 as int, ms[j as int].end));
            assert(seg(s, pos as int, ms[j as int].start) == s.subrange(
                pos as int,
                ms[j as int].start,
            ));
            assert(out@ =~= out_before + s.subrange(pos as int, ms[j as int].start)
                + placeholder_text(j as nat));
            assert(out@ + rewritten_from(s, ms, j + 1 as int, ms[j as int].end) =~= out_before
                + rewritten_from(s, ms, j as int, pos as int));
        }
        pos = m_end;
        j += 1;
    }
    crate::text::push_range(&mut out, &chars, pos, chars.len());
    proof {
        assert(rewritten_from(s, ms, n_m as int, pos as int) == seg(s, pos as int, s.len() as int));
        assert(seg(s, pos as int, s.len() as int) == s.subrange(pos as int, s.len() as int));
        assert(out@ =~= rewritten_text(s, ms));
        assert forall|a: int, b: int|
            0 <= a < b < map.expressions@.len() implies #[trigger] map.expressions@[a].start
            <= #[trigger] map.expressions@[b].start by {
            lemma_spans_ordered(ms, 0, s.len() as int, a, b);
            lemma_spans_wf_index(ms, 0, s.len() as int, a);
            lemma_spans_wf_index(ms, 0, s.len() as int, b);
        }
        assert(sorted_by_start(map.expressions@));
    }
    let ghost exprs_before_finalize = map.expressions@;
    map.finalize();
    proof {
        assert(map.expressions@ == exprs_before_finalize);
        lemma_rewritten_len(s, ms, 0, 0);
        if ms.len() > 0 {
            lemma_spans_wf_index(ms, 0, s.len() as int, 0);
        }
    }
    let out_s = chars_to_string(&out);
    (out_s, map)
}

/// The rewritten text from `pos` on is no longer than the remaining text
/// plus nineteen characters per remaining span.
pub proof fn lemma_rewritten_len(s: Seq<char>, ms: Seq<SpanRec>, j: int, pos: int)
    requires
        spans_wf(ms, 0, s.len() as int),
        s.len() <= MAX_TEXT,
        ms.len() <= MAX_TEXT,
        0 <= j <= ms.len(),
        0 <= pos <= s.len(),
        j < ms.len() ==> pos <= ms[j].start,
    ensures
        rewritten_from(s, ms, j, pos).len() <= (s.len() - pos) + (ms.len() - j) * 19,
    decreases ms.len() - j,
{
    if j < ms.len() {
        lemma_spans_wf_index(ms, 0, s.len() as int, j);
        lemma_placeholder_props(j as nat);
        if j + 1 < ms.len() {
            lemma_spans_ordered(ms, 0, s.len() as int, j, j + 1);
        }
        lemma_rewritten_len(s, ms, j + 1, ms[j].end);
    }
}

// ---------------------------------------------------------------------------
// Laws of the scanner and of substitution
// ---------------------------------------------------------------------------
proof fn lemma_no_delim_scan_empty(s: Seq<char>, i: int)
    requires
        0 <= i,
        forall|k: int| 0 <= k < s.len() - 1 ==> !(s[k] == '$' && #[trigger] s[k + 1] == '{'),
    ensures
        scan_from(s, i).len() == 0,
    decreases s.len() - i,
{
    if 0 <= i < s.len() {
        lemma_no_delim_scan_empty(s, i + 1);
    }
}

/// A text without the expression opener `${` anywhere is left unchanged by
/// preprocessing: the scan finds nothing and the rewritten text is the text
/// itself.
pub proof fn lemma_no_delimiters_unchanged(s: Seq<char>)
    requires
        forall|k: int| 0 <= k < s.len() - 1 ==> !(s[k] == '$' && #[trigger] s[k + 1] == '{'),
    ensures
        scan_spec(s).len() == 0,
        rewritten_text(s, scan_spec(s)) == s,
{
    lemma_no_delim_scan_empty(s, 0);
    assert(rewritten_text(s, scan_spec(s)) =~= s);
}

proof fn lemma_no_closer_brace_none(s: Seq<char>, i: int, depth: int)
    requires
        forall|k: int| 0 <= k < s.len() ==> #[trigger] s[k] != '}',
    ensures
        brace_scan(s, i, depth) is None,
    decreases s.len() + 2 - i,
{
    if 0 <= i < s.len() {
        if s[i] == '{' {
            lemma_no_closer_brace_none(s, i + 1, depth + 1);
        } else if s[i] == '"' {
            lemma_no_closer_quote_none(s, i + 1, '"', depth);
        } else if s[i] == '\'' {
            lemma_no_closer_quote_none(s, i + 1, '\'', depth);
        } else {
            lemma_no_closer_brace_none(s, i + 1, depth);
        }
    }
}

proof fn lemma_no_closer_quote_none(s: Seq<char>, i: int, q: char, depth: int)
    requires
        forall|k: int| 0 <= k < s.len() ==> #[trigger] s[k] != '}',
    ensures
        quote_scan(s, i, q, depth) is None,
    decreases s.len() + 2 - i,
{
    if 0 <= i < s.len() {
        if s[i] == '\\' {
            lemma_no_closer_quote_none(s, i + 2, q, depth);
        } else if s[i] == q {
            lemma_no_closer_brace_none(s, i + 1, depth);
        } else {
            lemma_no_closer_quote_none(s, i + 1, q, depth);
        }
    }
}

proof fn lemma_no_closer_scan_empty(s: Seq<char>, i: int)
    requires
        0 <= i,
        forall|k: int| 0 <= k < s.len() ==> #[trigger] s[k] != '}',
    ensures
        scan_from(s, i).len() == 0,
    decreases s.len() - i,
{
    if 0 <= i < s.len() {
        if i + 2 < s.len() && s[i] == '$' && s[i + 1] == '$' && s[i + 2] == '{' {
            lemma_no_closer_brace_none(s, i + 3, 1);
            lemma_no_closer_scan_empty(s, i + 1);
        } else if i + 1 < s.len() && s[i] == '$' && s[i + 1] == '{' && !(0 < i && s[i - 1] == '$') {
            lemma_no_closer_brace_none(s, i + 2, 1);
            lemma_no_closer_scan_empty(s, i + 1);
        } else {
            lemma_no_closer_scan_empty(s, i + 1);
        }
    }
}

/// An opener whose brace is never closed yields no expression: in a text
/// without any closing brace the scan records nothing and the rewritten text
/// is the text itself.
pub proof fn lemma_unterminated_opener_unchanged(s: Seq<char>)
    requires
        forall|k: int| 0 <= k < s.len() ==> #[trigger] s[k] != '}',
    ensures
        scan_spec(s).len() == 0,
        rewritten_text(s, scan_spec(s)) == s,
{
    lemma_no_closer_scan_empty(s, 0);
    assert(rewritten_text(s, scan_spec(s)) =~= s);
}

proof fn lemma_ph_occurs_from(s: Seq<char>, ms: Seq<SpanRec>, k: int, pos: int, j: int)
    requires
        spans_wf(ms, 0, s.len() as int),
        0 <= k <= j < ms.len(),
        0 <= pos <= ms[k].start,
    ensures
        crate::text::occurs_in(rewritten_from(s, ms, k, pos), placeholder_text(j as nat)),
    decreases j - k,
{
    lemma_spans_wf_index(ms, 0, s.len() as int, k);
    let pre = seg(s, pos, ms[k].start);
    let ph = placeholder_text(k as nat);
    let rest = rewritten_from(s, ms, k + 1, ms[k].end);
    let full = rewritten_from(s, ms, k, pos);
    assert(full == pre + ph + rest);
    if k == j {
        assert(crate::text::occurs_at(full, ph, pre.len() as int)) by {
            assert(full.subrange(pre.len() as int, (pre.len() + ph.len()) as int) =~= ph);
        }
    } else {
        if k + 1 < ms.len() {
            lemma_spans_ordered(ms, 0, s.len() as int, k, k + 1);
        }
        lemma_ph_occurs_from(s, ms, k + 1, ms[k].end, j);
        let phj = placeholder_text(j as nat);
        let q = choose|q: int| crate::text::occurs_at(rest, phj, q);
        assert(crate::text::occurs_at(full, phj, (pre.len() + ph.len()) as int + q)) by {
            assert(full.subrange((pre.len() + ph.len()) as int + q, (pre.len() + ph.len()) as int
                + q + phj.len() as int) =~= rest.subrange(q, q + phj.len() as int));
        }
    }
}

/// Every matched expression's placeholder occurs in the rewritten text: the
/// matched span is replaced by exactly that placeholder token.
pub proof fn lemma_placeholder_in_rewritten(s: Seq<char>, j: int)
    requires
        0 <= j < scan_spec(s).len(),
    ensures
        crate::text::occurs_in(rewritten_text(s, scan_spec(s)), placeholder_text(j as nat)),
{
    lemma_scan_from_props(s, 0);
    lemma_spans_wf_index(scan_spec(s), 0, s.len() as int, 0);
    lemma_ph_occurs_from(s, scan_spec(s), 0, 0, j);
}

} // verus!
