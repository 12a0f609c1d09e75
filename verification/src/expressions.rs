//! Embedded-expression records and the position-mapping table.
//!
//! An [`Expression`] records one embedded expression found in a host text:
//! its exact source extent, line/column coordinates, the placeholder that
//! replaced it, and its kind. An [`ExpressionMap`] holds the expressions of
//! one document, and, once finalized, a per-expression [`PositionDelta`]
//! table used to translate positions reported against the rewritten text
//! back into coordinates of the original text.

use vstd::prelude::*;
use vstd::multiset::Multiset;
use vstd::set_lib::lemma_int_range;
use vstd::set_lib::lemma_len_subset;
use vstd::set_lib::set_int_range;
use vstd::utf8::encode_utf8;
use vstd::utf8::is_ascii_chars;
use vstd::utf8::is_ascii_chars_encode_utf8;

use crate::text::MAX_TEXT;

verus! {

/// Upper bound on the length of a placeholder token.
pub const MAX_PLACEHOLDER: usize = 0xFFFF;

/// The kind of an embedded expression.
#[derive(Debug, Clone, Copy, PartialEq, Eq, Structural)]
pub enum ExpressionKind {
    /// Terraform interpolation: `${...}`
    Terraform,
    /// Workflows runtime expression: `$${...}`
    Workflows,
}

/// One expression found in the document.
#[derive(Debug, Clone)]
pub struct Expression {
    /// The exact source text of the expression, delimiters included
    pub original: String,
    /// The placeholder that replaced it (`__EXPR_NNN__`)
    pub placeholder: String,
    /// Start offset in the original document (characters)
    pub start: usize,
    /// End offset in the original document (characters, exclusive)
    pub end: usize,
    /// Start line (0-indexed)
    pub start_line: u32,
    /// Start column (0-indexed)
    pub start_column: u32,
    /// End line (0-indexed)
    pub end_line: u32,
    /// End column (0-indexed)
    pub end_column: u32,
    /// Whether this is a `${...}` or a `$${...}` expression
    pub kind: ExpressionKind,
}

/// Validity of one expression record: a non-empty span inside the coordinate
/// space, line/column fields consistent with the offsets, and a short ASCII
/// placeholder.
pub open spec fn expr_wf(e: Expression) -> bool {
    &&& e.start < e.end
    &&& e.end <= MAX_TEXT
    &&& e.start_line <= e.end_line
    &&& (e.start_line == e.end_line ==> e.end_column as int == e.start_column as int + e.end
        - e.start)
    &&& is_ascii_chars(e.placeholder@)
    &&& 1 <= e.placeholder@.len() <= MAX_PLACEHOLDER
}

/// `a` ends before `b` starts, in offsets and in line/column coordinates.
pub open spec fn expr_before(a: Expression, b: Expression) -> bool {
    &&& a.end <= b.start
    &&& (a.end_line < b.start_line || (a.end_line == b.start_line && a.end_column
        <= b.start_column))
}

/// Two expression records occupy disjoint spans, in a consistent order.
pub open spec fn exprs_compatible(a: Expression, b: Expression) -> bool {
    expr_before(a, b) || expr_before(b, a)
}

/// Validity of a collection of expression records: each is well formed and
/// any two occupy disjoint, consistently ordered spans.
pub open spec fn exprs_wf(es: Seq<Expression>) -> bool {
    &&& forall|i: int| 0 <= i < es.len() ==> expr_wf(#[trigger] es[i])
    &&& forall|i: int, j: int|
        0 <= i < j < es.len() ==> exprs_compatible(#[trigger] es[i], #[trigger] es[j])
}

/// The expressions are ordered by start offset.
pub open spec fn sorted_by_start(es: Seq<Expression>) -> bool {
    forall|i: int, j: int| 0 <= i < j < es.len() ==> #[trigger] es[i].start <= #[trigger] es[j].start
}

/// Well-formed expressions have pairwise distinct start offsets, all below
/// the text bound, so there can be at most `MAX_TEXT` of them.
pub proof fn lemma_exprs_wf_len(es: Seq<Expression>)
    requires
        exprs_wf(es),
    ensures
        es.len() <= MAX_TEXT,
{
    let starts = es.map_values(|e: Expression| e.start as int);
    assert forall|i: int, j: int| 0 <= i < j < starts.len() implies starts[i] != starts[j] by {
        assert(exprs_compatible(es[i], es[j]));
        assert(expr_wf(es[i]) && expr_wf(es[j]));
    }
    assert(starts.no_duplicates());
    starts.unique_seq_to_set();
    assert forall|x: int| starts.to_set().contains(x) implies set_int_range(
        0,
        MAX_TEXT as int,
    ).contains(x) by {
        let i = choose|i: int| 0 <= i < starts.len() && starts[i] == x;
        assert(expr_wf(es[i]));
    }
    lemma_int_range(0, MAX_TEXT as int);
    lemma_len_subset(starts.to_set(), set_int_range(0, MAX_TEXT as int));
}

impl Expression {
    /// Length of the original expression, in characters of the host text.
    pub fn original_len(&self) -> (r: usize)
        requires
            self.start <= self.end,
        ensures
            r == self.end - self.start,
    {
        self.end - self.start
    }

    /// Length of the placeholder, in bytes (equal to its character count for
    /// the ASCII placeholders the library produces).
    pub fn placeholder_len(&self) -> (r: usize)
        ensures
            r == encode_utf8(self.placeholder@).len() as usize,
            is_ascii_chars(self.placeholder@) && self.placeholder@.len() <= MAX_PLACEHOLDER ==> r
                == self.placeholder@.len(),
    {
        proof {
            if is_ascii_chars(self.placeholder@) {
                is_ascii_chars_encode_utf8(self.placeholder@);
            }
        }
        self.placeholder.as_str().len()
    }

    /// The signed difference between the original length and the placeholder
    /// length: positive when the original is longer.
    pub fn len_delta(&self) -> (r: isize)
        requires
            expr_wf(*self),
        ensures
            r as int == (self.end - self.start) - self.placeholder@.len(),
    {
        let ol = self.original_len() as isize;
        let pl = self.placeholder_len() as isize;
        ol - pl
    }
}

/// One cached translation record: the placeholder's column range on its line
/// of the rewritten text, and the original expression's coordinates.
#[derive(Debug, Clone, Copy, PartialEq, Eq, Structural)]
pub struct PositionDelta {
    /// The line the placeholder is on (in rewritten text)
    pub preprocessed_line: u32,
    /// The column where the placeholder starts (in rewritten text)
    pub preprocessed_column: u64,
    /// The column where the placeholder ends (in rewritten text)
    pub preprocessed_end_column: u64,
    /// The original expression's start line
    pub original_line: u32,
    /// The original expression's start column
    pub original_column: u32,
    /// The original expression's end line
    pub original_end_line: u32,
    /// The original expression's end column
    pub original_end_column: u32,
    /// Whether the original expression spans several lines
    pub is_multiline: bool,
}

/// The delta record for expression `e`, given the cumulative column offset
/// `cum` introduced by the placeholders before it on its line.
pub open spec fn delta_of(e: Expression, cum: int) -> PositionDelta {
    PositionDelta {
        preprocessed_line: e.start_line,
        preprocessed_column: (e.start_column - cum) as u64,
        preprocessed_end_column: (e.start_column - cum + e.placeholder@.len()) as u64,
        original_line: e.start_line,
        original_column: e.start_column,
        original_end_line: e.end_line,
        original_end_column: e.end_column,
        is_multiline: e.start_line != e.end_line,
    }
}

/// The delta table for the expressions from index `j` on, where `line` is
/// the line of the previous expression and `cum` the cumulative column
/// offset accumulated on that line.
pub open spec fn deltas_from(es: Seq<Expression>, j: int, line: int, cum: int) -> Seq<PositionDelta>
    decreases es.len() - j,
{
    if !(0 <= j < es.len()) {
        Seq::empty()
    } else {
        let e = es[j];
        let cum2: int = if e.start_line as int != line {
            0
        } else {
            cum
        };
        seq![delta_of(e, cum2)] + deltas_from(
            es,
            j + 1,
            e.start_line as int,
            cum2 + (e.end - e.start) - e.placeholder@.len(),
        )
    }
}

/// The delta table derived from a finalized (sorted) expression list.
pub open spec fn deltas_spec(es: Seq<Expression>) -> Seq<PositionDelta> {
    deltas_from(es, 0, 0, 0)
}

/// Validity of one delta record: the placeholder span is well ordered and no
/// longer than a placeholder can be.
pub open spec fn delta_wf(d: PositionDelta) -> bool {
    &&& d.preprocessed_column <= d.preprocessed_end_column
    &&& d.preprocessed_end_column - d.preprocessed_column <= MAX_PLACEHOLDER
}

/// The query position lies within the placeholder span of delta `d`.
pub open spec fn within_delta(d: PositionDelta, line: u32, col: u32) -> bool {
    &&& d.preprocessed_line == line
    &&& d.preprocessed_column <= col as u64
    &&& (col as u64) < d.preprocessed_end_column
}

/// Clamp a column value into the `u32` range.
pub open spec fn clamp_col(x: int) -> int {
    if x < 0 {
        0
    } else if x > u32::MAX {
        u32::MAX as int
    } else {
        x
    }
}

/// Position translation over a delta table, examined from index `k` on with
/// `shift` already accumulated: the first delta whose placeholder span
/// contains the query column yields the original expression's start; every
/// delta wholly before the query column on the same line shifts the column
/// by its length difference.
pub open spec fn adjust_from(
    ds: Seq<PositionDelta>,
    line: u32,
    col: u32,
    k: int,
    shift: int,
) -> (int, int)
    decreases ds.len() - k,
{
    if !(0 <= k < ds.len()) {
        (line as int, clamp_col(col + shift))
    } else {
        let d = ds[k];
        if within_delta(d, line, col) {
            (d.original_line as int, d.original_column as int)
        } else if d.preprocessed_line == line && col as u64 >= d.preprocessed_end_column {
            adjust_from(
                ds,
                line,
                col,
                k + 1,
                shift + (d.original_end_column - d.original_column) - (d.preprocessed_end_column
                    - d.preprocessed_column),
            )
        } else {
            adjust_from(ds, line, col, k + 1, shift)
        }
    }
}

/// Index of the first expression whose placeholder equals `name`.
pub open spec fn find_placeholder_index(es: Seq<Expression>, name: Seq<char>) -> Option<int>
    decreases es.len(),
{
    if es.len() == 0 {
        None
    } else if es[0].placeholder@ == name {
        Some(0)
    } else {
        match find_placeholder_index(es.drop_first(), name) {
            Some(i) => Some(i + 1),
            None => None,
        }
    }
}

/// The first placeholder match is a match, is minimal, and exists whenever
/// any expression carries the name.
pub proof fn lemma_find_placeholder(es: Seq<Expression>, name: Seq<char>)
    ensures
        find_placeholder_index(es, name) matches Some(i) ==> 0 <= i < es.len()
            && es[i].placeholder@ == name && forall|j: int|
            0 <= j < i ==> es[j].placeholder@ != name,
        find_placeholder_index(es, name) is None ==> forall|j: int|
            0 <= j < es.len() ==> es[j].placeholder@ != name,
    decreases es.len(),
{
    if es.len() != 0 && es[0].placeholder@ != name {
        lemma_find_placeholder(es.drop_first(), name);
        assert(forall|j: int| 1 <= j < es.len() ==> es[j] == es.drop_first()[j - 1]);
    }
}

/// The expressions found in one document, with the finalized delta table.
#[derive(Debug)]
pub struct ExpressionMap {
    /// All expressions, in document order once finalized
    pub expressions: Vec<Expression>,
    /// Cached position deltas, built by finalization
    pub position_deltas: Vec<PositionDelta>,
}

impl ExpressionMap {
    /// The delta table (empty until the map is finalized).
    pub open spec fn deltas(&self) -> Seq<PositionDelta> {
        self.position_deltas@
    }

    /// Map invariant: the expressions are valid and pairwise disjoint, each
    /// delta record is well formed, and the delta table is either still empty
    /// or derived from the sorted expression list by finalization.
    pub open spec fn wf(&self) -> bool {
        &&& exprs_wf(self.expressions@)
        &&& forall|k: int| 0 <= k < self.deltas().len() ==> delta_wf(#[trigger] self.deltas()[k])
        &&& (self.deltas() == Seq::<PositionDelta>::empty() || (sorted_by_start(self.expressions@)
            && self.deltas() == deltas_spec(self.expressions@)))
    }

    /// Create a new empty expression map
    pub fn new() -> (m: ExpressionMap)
        ensures
            m.expressions@ == Seq::<Expression>::empty(),
            m.deltas() == Seq::<PositionDelta>::empty(),
            m.wf(),
    {
        ExpressionMap { expressions: Vec::new(), position_deltas: Vec::new() }
    }

    /// Add an expression to a map that has not been finalized yet. The new
    /// expression must be valid and disjoint from those already present.
    pub fn add(&mut self, expr: Expression)
        requires
            old(self).wf(),
            old(self).deltas() == Seq::<PositionDelta>::empty(),
            expr_wf(expr),
            forall|i: int|
                0 <= i < old(self).expressions@.len() ==> exprs_compatible(
                    #[trigger] old(self).expressions@[i],
                    expr,
                ),
        ensures
            final(self).expressions@ == old(self).expressions@.push(expr),
            final(self).deltas() == Seq::<PositionDelta>::empty(),
            final(self).wf(),
    {
        self.expressions.push(expr);
    }

    /// Find the expression that a placeholder name stands for.
    pub fn find_by_placeholder(&self, placeholder: &str) -> (r: Option<&Expression>)
        ensures
            match r {
                Some(e) => find_placeholder_index(self.expressions@, placeholder@) matches Some(i)
                    && *e == self.expressions@[i],
                None => find_placeholder_index(self.expressions@, placeholder@) is None,
            },
    {
        proof {
            lemma_find_placeholder(self.expressions@, placeholder@);
        }
        let n = self.expressions.len();
        let mut i: usize = 0;
        while i < n
            invariant
                0 <= i <= n,
                n == self.expressions@.len(),
                forall|j: int| 0 <= j < i ==> self.expressions@[j].placeholder@ != placeholder@,
            decreases n - i,
        {
            if crate::text::str_eq(self.expressions[i].placeholder.as_str(), placeholder) {
                proof {
                    lemma_find_placeholder(self.expressions@, placeholder@);
                    let fo = find_placeholder_index(self.expressions@, placeholder@);
                    if fo is Some {
                        assert(!(fo->0 < i) && !(fo->0 > i));
                    }
                }
                return Some(&self.expressions[i]);
            }
            i += 1;
        }
        proof {
            lemma_find_placeholder(self.expressions@, placeholder@);
        }
        None
    }

    /// Sort the expressions by start offset and build the position delta
    /// table. Must be called once all expressions are added, before any
    /// position query.
    pub fn finalize(&mut self)
        requires
            old(self).wf(),
        ensures
            final(self).expressions@.to_multiset() == old(self).expressions@.to_multiset(),
            sorted_by_start(final(self).expressions@),
            final(self).wf(),
            final(self).deltas() == deltas_spec(final(self).expressions@),
            sorted_by_start(old(self).expressions@) ==> final(self).expressions@ == old(
                self,
            ).expressions@,
    {
        let ghost orig = self.expressions@;
        sort_expressions(&mut self.expressions);
        proof {
            if sorted_by_start(orig) {
                lemma_sorted_wf_unique(orig, self.expressions@);
            }
        }
        self.build_position_deltas();
    }

    /// Rebuild the delta table from the (sorted) expression list, tracking
    /// the cumulative column offset that earlier placeholders on the same
    /// line introduce.
    fn build_position_deltas(&mut self)
        requires
            exprs_wf(old(self).expressions@),
            sorted_by_start(old(self).expressions@),
        ensures
            final(self).expressions@ == old(self).expressions@,
            final(self).deltas() == deltas_spec(final(self).expressions@),
            forall|k: int|
                0 <= k < final(self).deltas().len() ==> delta_wf(#[trigger] final(self).deltas()[k]),
    {
        proof {
            lemma_exprs_wf_len(self.expressions@);
        }
        let ghost es = self.expressions@;
        self.position_deltas = Vec::new();
        let n = self.expressions.len();
        let mut current_line: u32 = 0;
        let mut cum: i128 = 0;
        let mut j: usize = 0;
        while j < n
            invariant
                exprs_wf(es),
                sorted_by_start(es),
                es.len() <= MAX_TEXT,
                self.expressions@ == es,
                0 <= j <= n,
                n == es.len(),
                deltas_spec(es) == self.position_deltas@ + deltas_from(
                    es,
                    j as int,
                    current_line as int,
                    cum as int,
                ),
                self.position_deltas@.len() == j,
                forall|k: int|
                    0 <= k < self.position_deltas@.len() ==> delta_wf(
                        #[trigger] self.position_deltas@[k],
                    ),
                -(j as int) * (MAX_PLACEHOLDER as int) <= cum as int <= (j as int) * (
                MAX_TEXT as int),
                j < n && es[j as int].start_line == current_line ==> cum as int <= es[
                    j as int
                ].start_column as int,
            decreases n - j,
        {
            let ghost cum_in = cum as int;
            let ghost line_in = current_line as int;
            proof {
                assert(expr_wf(es[j as int]));
            }
            let e_start_line = self.expressions[j].start_line;
            let e_end_line = self.expressions[j].end_line;
            let e_start_column = self.expressions[j].start_column;
            let e_end_column = self.expressions[j].end_column;
            let e_olen = self.expressions[j].original_len();
            let e_plen = self.expressions[j].placeholder_len();
            if e_start_line != current_line {
                current_line = e_start_line;
                cum = 0;
            }
            let ghost cum2 = cum as int;
            proof {
                assert(expr_wf(es[j as int]));
                assert(cum2 <= e_start_column as int);
                assert(cum2 >= -(j as int) * (MAX_PLACEHOLDER as int));
                assert((j as int) * (MAX_PLACEHOLDER as int) <= (MAX_TEXT as int) * (
                MAX_PLACEHOLDER as int)) by (nonlinear_arith)
                    requires
                        0 <= j as int <= MAX_TEXT as int,
                ;
            }
            let ppcol_i: i128 = e_start_column as i128 - cum;
            let ppcol: u64 = ppcol_i as u64;
            let ppend: u64 = ppcol + e_plen as u64;
            let d = PositionDelta {
                preprocessed_line: e_start_line,
                preprocessed_column: ppcol,
                preprocessed_end_column: ppend,
                original_line: e_start_line,
                original_column: e_start_column,
                original_end_line: e_end_line,
                original_end_column: e_end_column,
                is_multiline: e_start_line != e_end_line,
            };
            proof {
                assert(d == delta_of(es[j as int], cum2));
                assert(delta_wf(d));
                assert(deltas_from(es, j as int, line_in, cum_in) == seq![
                    delta_of(es[j as int], cum2),
                ] + deltas_from(
                    es,
                    j + 1 as int,
                    es[j as int].start_line as int,
                    cum2 + (es[j as int].end - es[j as int].start)
                        - es[j as int].placeholder@.len(),
                ));
            }
            let ghost pds_before = self.position_deltas@;
            self.position_deltas.push(d);
            cum = cum + e_olen as i128 - e_plen as i128;
            proof {
                assert(self.position_deltas@ == pds_before.push(d));
                assert(deltas_spec(es) == self.position_deltas@ + deltas_from(
                    es,
                    j + 1 as int,
                    current_line as int,
                    cum as int,
                )) by {
                    assert(pds_before + (seq![d] + deltas_from(
                        es,
                        j + 1 as int,
                        current_line as int,
                        cum as int,
                    )) =~= pds_before.push(d) + deltas_from(
                        es,
                        j + 1 as int,
                        current_line as int,
                        cum as int,
                    ));
                }
                assert(-(j + 1 as int) * (MAX_PLACEHOLDER as int) <= cum as int <= (j + 1 as int)
                    * (MAX_TEXT as int)) by (nonlinear_arith)
                    requires
                        cum as int == cum2 + (es[j as int].end - es[j as int].start) - es[
                            j as int
                        ].placeholder@.len(),
                        -(j as int) * (MAX_PLACEHOLDER as int) <= cum2 <= (j as int) * (
                        MAX_TEXT as int),
                        0 < es[j as int].end - es[j as int].start <= MAX_TEXT as int,
                        1 <= es[j as int].placeholder@.len() <= MAX_PLACEHOLDER as int,
                        cum2 <= es[j as int].start_column as int,
                        es[j as int].start_column as int <= u32::MAX,
                        0 <= j,
                ;
                if j + 1 < n && es[j + 1 as int].start_line == current_line {
                    let a = es[j as int];
                    let b = es[j + 1 as int];
                    assert(exprs_compatible(a, b));
                    assert(expr_wf(a) && expr_wf(b));
                    assert(a.start <= b.start);
                    assert(expr_before(a, b));
                    assert(a.end_line == a.start_line);
                    assert(cum as int <= b.start_column as int);
                }
            }
            j += 1;
        }
        proof {
            assert(deltas_spec(es) =~= self.position_deltas@ + deltas_from(
                es,
                n as int,
                current_line as int,
                cum as int,
            ));
            assert(deltas_from(es, n as int, current_line as int, cum as int)
                == Seq::<PositionDelta>::empty());
            assert(deltas_spec(es) =~= self.position_deltas@);
        }
    }

    /// Translate a position in rewritten-text coordinates back to
    /// original-text coordinates: a position inside a placeholder maps to the
    /// start of its original expression, and a position at or after the end
    /// of a placeholder is shifted by the accumulated length differences of
    /// the placeholders before it on the same line. The resulting column is
    /// clamped to the valid range.
    pub fn adjust_position(&self, line: u32, column: u32) -> (r: (u32, u32))
        requires
            self.wf(),
        ensures
            (r.0 as int, r.1 as int) == adjust_from(self.deltas(), line, column, 0, 0),
    {
        let n = self.position_deltas.len();
        let mut shift: i128 = 0;
        let mut k: usize = 0;
        while k < n
            invariant
                self.wf(),
                0 <= k <= n,
                n == self.deltas().len(),
                adjust_from(self.deltas(), line, column, 0, 0) == adjust_from(
                    self.deltas(),
                    line,
                    column,
                    k as int,
                    shift as int,
                ),
                -(k as int) * 0x1_0001_0000 <= shift as int <= (k as int) * 0x1_0000_0000,
            decreases n - k,
        {
            let d = self.position_deltas[k];
            proof {
                assert(delta_wf(self.deltas()[k as int]));
            }
            if d.preprocessed_line == line && (column as u64) >= d.preprocessed_column && (
            column as u64) < d.preprocessed_end_column {
                return (d.original_line, d.original_column);
            }
            if d.preprocessed_line == line && (column as u64) >= d.preprocessed_end_column {
                shift = shift + (d.original_end_column as i128 - d.original_column as i128) - (
                d.preprocessed_end_column as i128 - d.preprocessed_column as i128);
            }
            proof {
                assert((k as int) * 0x1_0001_0000 + 0x1_0001_0000 == (k + 1 as int)
                    * 0x1_0001_0000) by (nonlinear_arith);
                assert((k as int) * 0x1_0000_0000 + 0x1_0000_0000 == (k + 1 as int)
                    * 0x1_0000_0000) by (nonlinear_arith);
            }
            k += 1;
        }
        let total: i128 = column as i128 + shift;
        let c: u32 = if total < 0 {
            0
        } else if total > u32::MAX as i128 {
            u32::MAX
        } else {
            total as u32
        };
        (line, c)
    }

    /// Does the position lie within the placeholder span of some expression?
    pub fn is_within_expression(&self, line: u32, column: u32) -> (r: bool)
        ensures
            r == exists|k: int|
                0 <= k < self.deltas().len() && within_delta(#[trigger] self.deltas()[k], line, column),
    {
        let n = self.position_deltas.len();
        let mut k: usize = 0;
        while k < n
            invariant
                0 <= k <= n,
                n == self.deltas().len(),
                forall|j: int| 0 <= j < k ==> !within_delta(#[trigger] self.deltas()[j], line, column),
            decreases n - k,
        {
            let d = self.position_deltas[k];
            if d.preprocessed_line == line && (column as u64) >= d.preprocessed_column && (
            column as u64) < d.preprocessed_end_column {
                assert(within_delta(self.deltas()[k as int], line, column));
                return true;
            }
            k += 1;
        }
        false
    }
}

/// Selection sort of the expressions by start offset, preserving validity.
fn sort_expressions(v: &mut Vec<Expression>)
    requires
        exprs_wf(old(v)@),
    ensures
        final(v)@.to_multiset() == old(v)@.to_multiset(),
        sorted_by_start(final(v)@),
        exprs_wf(final(v)@),
{
    proof {
        old(v)@.to_multiset_ensures();
    }
    let mut out: Vec<Expression> = Vec::new();
    let ghost orig = v@;
    proof {
        out@.to_multiset_ensures();
        assert(out@.to_multiset() =~= Multiset::<Expression>::empty());
        assert(out@.to_multiset().add(v@.to_multiset()) =~= v@.to_multiset());
    }
    while v.len() > 0
        invariant
            out@.to_multiset().add(v@.to_multiset()) == orig.to_multiset(),
            forall|i: int| 0 <= i < out@.len() ==> expr_wf(#[trigger] out@[i]),
            forall|i: int| 0 <= i < v@.len() ==> expr_wf(#[trigger] v@[i]),
            forall|i: int, j: int|
                0 <= i < j < out@.len() ==> exprs_compatible(#[trigger] out@[i], #[trigger] out@[j]),
            forall|i: int, j: int|
                0 <= i < j < v@.len() ==> exprs_compatible(#[trigger] v@[i], #[trigger] v@[j]),
            forall|i: int, j: int|
                0 <= i < out@.len() && 0 <= j < v@.len() ==> exprs_compatible(
                    #[trigger] out@[i],
                    #[trigger] v@[j],
                ),
            sorted_by_start(out@),
            forall|i: int, j: int|
                0 <= i < out@.len() && 0 <= j < v@.len() ==> #[trigger] out@[i].start
                    <= #[trigger] v@[j].start,
        decreases v@.len(),
    {
        let mut mi: usize = 0;
        let mut k: usize = 1;
        while k < v.len()
            invariant
                0 <= mi < k <= v@.len(),
                forall|j: int| 0 <= j < k ==> v@[mi as int].start <= #[trigger] v@[j].start,
            decreases v@.len() - k,
        {
            if v[k].start < v[mi].start {
                mi = k;
            }
            k += 1;
        }
        let ghost v_before = v@;
        let ghost out_before = out@;
        let e = v.remove(mi);
        out.push(e);
        proof {
            v_before.to_multiset_ensures();
            out_before.to_multiset_ensures();
            assert(v@.to_multiset() =~= v_before.to_multiset().remove(e));
            assert(out@.to_multiset() =~= out_before.to_multiset().insert(e));
            assert(v_before.to_multiset().count(e) > 0);
            assert(out@.to_multiset().add(v@.to_multiset()) =~= orig.to_multiset());
            assert(forall|j: int|
                0 <= j < v@.len() ==> #[trigger] v@[j] == if j < mi {
                    v_before[j]
                } else {
                    v_before[j + 1]
                });
            assert(forall|i: int|
                0 <= i < out@.len() ==> #[trigger] out@[i] == if i < out_before.len() {
                    out_before[i]
                } else {
                    e
                });
        }
    }
    proof {
        v@.to_multiset_ensures();
        assert(v@.to_multiset() =~= Multiset::<Expression>::empty());
        assert(out@.to_multiset() =~= orig.to_multiset());
    }
    *v = out;
}

proof fn lemma_adjust_within_from(ds: Seq<PositionDelta>, line: u32, col: u32, m: int, k: int, shift: int)
    requires
        0 <= m <= k < ds.len(),
        within_delta(ds[k], line, col),
        forall|j: int| m <= j < k ==> !within_delta(#[trigger] ds[j], line, col),
    ensures
        adjust_from(ds, line, col, m, shift) == (
            ds[k].original_line as int,
            ds[k].original_column as int,
        ),
    decreases k - m,
{
    if m < k {
        let d = ds[m];
        if d.preprocessed_line == line && col as u64 >= d.preprocessed_end_column {
            lemma_adjust_within_from(
                ds,
                line,
                col,
                m + 1,
                k,
                shift + (d.original_end_column - d.original_column) - (d.preprocessed_end_column
                    - d.preprocessed_column),
            );
        } else {
            lemma_adjust_within_from(ds, line, col, m + 1, k, shift);
        }
    }
}

/// A position inside a placeholder's column span is translated to the start
/// of that placeholder's original expression, exactly.
pub proof fn lemma_adjust_position_within(ds: Seq<PositionDelta>, line: u32, col: u32, k: int)
    requires
        0 <= k < ds.len(),
        within_delta(ds[k], line, col),
        forall|j: int| 0 <= j < k ==> !within_delta(#[trigger] ds[j], line, col),
    ensures
        adjust_from(ds, line, col, 0, 0) == (
            ds[k].original_line as int,
            ds[k].original_column as int,
        ),
{
    lemma_adjust_within_from(ds, line, col, 0, k, 0);
}

/// The total column shift that the deltas from index `k` on apply to a
/// position on `line` at column `col`: each placeholder wholly before the
/// column on that line contributes the signed difference between its
/// original's length and its own length.
pub open spec fn shift_sum(ds: Seq<PositionDelta>, line: u32, col: u32, k: int) -> int
    decreases ds.len() - k,
{
    if !(0 <= k < ds.len()) {
        0
    } else {
        let d = ds[k];
        let here: int = if d.preprocessed_line == line && col as u64 >= d.preprocessed_end_column {
            (d.original_end_column - d.original_column) - (d.preprocessed_end_column
                - d.preprocessed_column)
        } else {
            0
        };
        here + shift_sum(ds, line, col, k + 1)
    }
}

proof fn lemma_adjust_after_from(ds: Seq<PositionDelta>, line: u32, col: u32, k: int, shift: int)
    requires
        0 <= k,
        forall|j: int| 0 <= j < ds.len() ==> !within_delta(#[trigger] ds[j], line, col),
    ensures
        adjust_from(ds, line, col, k, shift) == (
            line as int,
            clamp_col(col + shift + shift_sum(ds, line, col, k)),
        ),
    decreases ds.len() - k,
{
    if 0 <= k < ds.len() {
        let d = ds[k];
        if d.preprocessed_line == line && col as u64 >= d.preprocessed_end_column {
            lemma_adjust_after_from(
                ds,
                line,
                col,
                k + 1,
                shift + (d.original_end_column - d.original_column) - (d.preprocessed_end_column
                    - d.preprocessed_column),
            );
        } else {
            lemma_adjust_after_from(ds, line, col, k + 1, shift);
        }
    }
}

/// A position covered by no placeholder is translated by shifting its column
/// by the accumulated length differences of the placeholders before it on
/// its line, clamped to the valid range; in particular its line never
/// changes, and a line without placeholders passes through unchanged.
pub proof fn lemma_adjust_position_after(ds: Seq<PositionDelta>, line: u32, col: u32)
    requires
        forall|j: int| 0 <= j < ds.len() ==> !within_delta(#[trigger] ds[j], line, col),
    ensures
        adjust_from(ds, line, col, 0, 0) == (
            line as int,
            clamp_col(col + shift_sum(ds, line, col, 0)),
        ),
{
    lemma_adjust_after_from(ds, line, col, 0, 0);
}

/// A position at the very start of a placeholder lies within the expression;
/// a position at the placeholder's end, or strictly before its start, lies
/// within none, provided no other placeholder on the same line covers that
/// column.
pub proof fn lemma_within_expression_boundaries(
    ds: Seq<PositionDelta>,
    k: int,
    line: u32,
    c_start: u32,
    c_end: u32,
    c_other: u32,
)
    requires
        0 <= k < ds.len(),
        ds[k].preprocessed_line == line,
        ds[k].preprocessed_column == c_start as u64,
        ds[k].preprocessed_end_column == c_end as u64,
        c_start < c_end,
        c_other == c_end || c_other < c_start,
        forall|j: int|
            0 <= j < ds.len() && j != k ==> !within_delta(#[trigger] ds[j], line, c_other),
    ensures
        exists|j: int| 0 <= j < ds.len() && within_delta(#[trigger] ds[j], line, c_start),
        !exists|j: int| 0 <= j < ds.len() && within_delta(#[trigger] ds[j], line, c_other),
{
    assert(within_delta(ds[k], line, c_start));
    assert(!within_delta(ds[k], line, c_other));
}

/// Two sorted, valid expression lists with the same contents are equal.
pub proof fn lemma_sorted_wf_unique(a: Seq<Expression>, b: Seq<Expression>)
    requires
        exprs_wf(a),
        sorted_by_start(a),
        sorted_by_start(b),
        a.to_multiset() == b.to_multiset(),
    ensures
        a == b,
    decreases a.len(),
{
    a.to_multiset_ensures();
    b.to_multiset_ensures();
    if a.len() == 0 {
        assert(a =~= b);
    } else {
        assert(b.len() == a.len());
        assert(a.contains(a[0]));
        assert(b.to_multiset().count(a[0]) > 0);
        assert(b.contains(a[0]));
        let i = choose|i: int| 0 <= i < b.len() && b[i] == a[0];
        assert(b.contains(b[0]));
        assert(a.to_multiset().count(b[0]) > 0);
        assert(a.contains(b[0]));
        let k = choose|k: int| 0 <= k < a.len() && a[k] == b[0];
        assert(b[0].start <= b[i].start);
        assert(a[0].start <= a[k].start);
        assert(a[0].start == b[0].start);
        if k != 0 {
            assert(exprs_compatible(a[0], a[k]));
            assert(expr_wf(a[0]) && expr_wf(a[k]));
            assert(false);
        }
        assert(a[0] == b[0]);
        let a1 = a.drop_first();
        let b1 = b.drop_first();
        assert(a.remove(0) =~= a1);
        assert(b.remove(0) =~= b1);
        assert(a1.to_multiset() =~= a.to_multiset().remove(a[0]));
        assert(b1.to_multiset() =~= b.to_multiset().remove(b[0]));
        assert(a1.to_multiset() == b1.to_multiset());
        assert(exprs_wf(a1)) by {
            assert(forall|i: int| 0 <= i < a1.len() ==> #[trigger] a1[i] == a[i + 1]);
        }
        assert(sorted_by_start(a1)) by {
            assert(forall|i: int| 0 <= i < a1.len() ==> #[trigger] a1[i] == a[i + 1]);
        }
        assert(sorted_by_start(b1)) by {
            assert(forall|i: int| 0 <= i < b1.len() ==> #[trigger] b1[i] == b[i + 1]);
        }
        lemma_sorted_wf_unique(a1, b1);
        assert forall|m: int| 0 <= m < a.len() implies a[m] == b[m] by {
            if m >= 1 {
                assert(a1[m - 1] == b1[m - 1]);
            }
        }
        assert(a =~= b);
    }
}

} // verus!
