//! Positioned diagnostics: severities, category codes, and the collector
//! that accumulates findings during one validation pass.

use vstd::prelude::*;

use crate::text::chars_contain;
use crate::text::occurs_in;
use crate::text::str_to_chars;

verus! {

/// Severity of a finding.
#[derive(Debug, Clone, Copy, PartialEq, Eq, Structural)]
pub enum Severity {
    /// A failure: the document cannot be processed as written
    Error,
    /// A likely problem in the document's structure
    Warning,
    /// A minor observation
    Hint,
}

/// Category codes for diagnostics.
#[derive(Debug, Clone, Copy, PartialEq, Eq, Structural)]
pub enum DiagnosticCode {
    /// A syntax error reported by the document parser
    YamlSyntax,
    /// Invalid indentation
    InvalidIndentation,
    /// Unclosed string literal
    UnclosedString,
    /// Workflow structure problem
    WorkflowStructure,
    /// Unknown workflow keyword
    UnknownKeyword,
}

/// The string form of each category code.
pub open spec fn code_str(c: DiagnosticCode) -> Seq<char> {
    match c {
        DiagnosticCode::YamlSyntax => "yaml-syntax"@,
        DiagnosticCode::InvalidIndentation => "invalid-indentation"@,
        DiagnosticCode::UnclosedString => "unclosed-string"@,
        DiagnosticCode::WorkflowStructure => "workflow-structure"@,
        DiagnosticCode::UnknownKeyword => "unknown-keyword"@,
    }
}

/// Lowercase a character, folding the ASCII uppercase letters.
pub open spec fn lower_char(c: char) -> char {
    if 'A' <= c && c <= 'Z' {
        ((c as u8) + 32) as char
    } else {
        c
    }
}

/// The character sequence with every ASCII uppercase letter folded.
pub open spec fn lower_chars(s: Seq<char>) -> Seq<char> {
    s.map_values(|c: char| lower_char(c))
}

/// The category code inferred from an error message: indentation problems
/// and unclosed strings are recognized by the wording, case-insensitively;
/// everything else is a plain syntax error.
pub open spec fn code_of_message(m: Seq<char>) -> DiagnosticCode {
    let lm = lower_chars(m);
    if occurs_in(lm, "indent"@) || occurs_in(lm, "mapping values"@) {
        DiagnosticCode::InvalidIndentation
    } else if occurs_in(lm, "unclosed"@) || occurs_in(lm, "unterminated"@) || occurs_in(
        lm,
        "quote"@,
    ) {
        DiagnosticCode::UnclosedString
    } else {
        DiagnosticCode::YamlSyntax
    }
}

/// Fold the ASCII uppercase letters of `v` to lowercase.
fn to_lower_chars(v: &Vec<char>) -> (r: Vec<char>)
    ensures
        r@ == lower_chars(v@),
{
    let mut r: Vec<char> = Vec::new();
    let mut i: usize = 0;
    let n = v.len();
    while i < n
        invariant
            0 <= i <= n,
            n == v@.len(),
            r@ == lower_chars(v@.take(i as int)),
        decreases n - i,
    {
        let c = v[i];
        if c >= 'A' && c <= 'Z' {
            let b = c as u8;
            r.push((b + 32) as char);
        } else {
            r.push(c);
        }
        proof {
            assert(r@ =~= lower_chars(v@.take(i + 1 as int)));
        }
        i += 1;
    }
    proof {
        assert(v@.take(n as int) == v@);
    }
    r
}

impl DiagnosticCode {
    /// The string code for this diagnostic.
    pub fn as_str(&self) -> (r: &'static str)
        ensures
            r@ == code_str(*self),
    {
        match self {
            DiagnosticCode::YamlSyntax => "yaml-syntax",
            DiagnosticCode::InvalidIndentation => "invalid-indentation",
            DiagnosticCode::UnclosedString => "unclosed-string",
            DiagnosticCode::WorkflowStructure => "workflow-structure",
            DiagnosticCode::UnknownKeyword => "unknown-keyword",
        }
    }

    /// Infer the diagnostic code from an error message.
    pub fn from_message(message: &str) -> (r: DiagnosticCode)
        ensures
            r == code_of_message(message@),
    {
        let chars = str_to_chars(message);
        let lower = to_lower_chars(&chars);
        if chars_contain(&lower, &str_to_chars("indent")) || chars_contain(
            &lower,
            &str_to_chars("mapping values"),
        ) {
            DiagnosticCode::InvalidIndentation
        } else if chars_contain(&lower, &str_to_chars("unclosed")) || chars_contain(
            &lower,
            &str_to_chars("unterminated"),
        ) || chars_contain(&lower, &str_to_chars("quote")) {
            DiagnosticCode::UnclosedString
        } else {
            DiagnosticCode::YamlSyntax
        }
    }
}

/// The source tag every diagnostic of this library carries.
pub open spec fn source_tag() -> Seq<char> {
    "yaml-tftpl-lsp"@
}

/// One positioned finding.
#[derive(Debug, Clone)]
pub struct Diagnostic {
    /// Start line (0-indexed)
    pub start_line: u32,
    /// Start column (0-indexed)
    pub start_column: u32,
    /// End line (0-indexed)
    pub end_line: u32,
    /// End column (0-indexed, exclusive)
    pub end_column: u32,
    /// Severity of the finding
    pub severity: Severity,
    /// Optional category code
    pub code: Option<DiagnosticCode>,
    /// The message shown to the user
    pub message: String,
    /// The tool that produced the finding
    pub source: String,
}

/// The mathematical model of one diagnostic.
pub ghost struct DiagInfo {
    pub start_line: int,
    pub start_column: int,
    pub end_line: int,
    pub end_column: int,
    pub severity: Severity,
    pub code: Option<DiagnosticCode>,
    pub message: Seq<char>,
    pub source: Seq<char>,
}

impl View for Diagnostic {
    type V = DiagInfo;

    open spec fn view(&self) -> DiagInfo {
        DiagInfo {
            start_line: self.start_line as int,
            start_column: self.start_column as int,
            end_line: self.end_line as int,
            end_column: self.end_column as int,
            severity: self.severity,
            code: self.code,
            message: self.message@,
            source: self.source@,
        }
    }
}

/// The model of a finding of this library: positioned, coded, and tagged
/// with the library's source tag.
pub open spec fn positioned_diag(
    sev: Severity,
    code: DiagnosticCode,
    message: Seq<char>,
    sl: int,
    sc: int,
    el: int,
    ec: int,
) -> DiagInfo {
    DiagInfo {
        start_line: sl,
        start_column: sc,
        end_line: el,
        end_column: ec,
        severity: sev,
        code: Some(code),
        message: message,
        source: source_tag(),
    }
}

/// Collects diagnostics during parsing and validation.
#[derive(Debug)]
pub struct DiagnosticCollector {
    /// The findings collected so far, in order of arrival
    pub diagnostics: Vec<Diagnostic>,
}

impl View for DiagnosticCollector {
    type V = Seq<DiagInfo>;

    open spec fn view(&self) -> Seq<DiagInfo> {
        self.diagnostics@.map_values(|d: Diagnostic| d@)
    }
}

impl DiagnosticCollector {
    /// Create a new empty collector.
    pub fn new() -> (c: DiagnosticCollector)
        ensures
            c@ == Seq::<DiagInfo>::empty(),
    {
        let c = DiagnosticCollector { diagnostics: Vec::new() };
        proof {
            assert(c@ =~= Seq::<DiagInfo>::empty());
        }
        c
    }

    /// Add an error diagnostic with an explicit range.
    pub fn add_yaml_error_with_range(
        &mut self,
        message: String,
        start_line: u32,
        start_column: u32,
        end_line: u32,
        end_column: u32,
        code: DiagnosticCode,
    )
        ensures
            final(self)@ == old(self)@.push(
                positioned_diag(
                    Severity::Error,
                    code,
                    message@,
                    start_line as int,
                    start_column as int,
                    end_line as int,
                    end_column as int,
                ),
            ),
    {
        let d = Diagnostic {
            start_line,
            start_column,
            end_line,
            end_column,
            severity: Severity::Error,
            code: Some(code),
            message,
            source: source_string(),
        };
        let ghost dv = d@;
        self.diagnostics.push(d);
        proof {
            assert(self@ =~= old(self)@.push(dv));
        }
    }

    /// Add an error diagnostic at a point, with an explicit code.
    pub fn add_yaml_error_with_code(
        &mut self,
        message: String,
        line: u32,
        column: u32,
        code: DiagnosticCode,
    )
        requires
            column < u32::MAX,
        ensures
            final(self)@ == old(self)@.push(
                positioned_diag(
                    Severity::Error,
                    code,
                    message@,
                    line as int,
                    column as int,
                    line as int,
                    column + 1,
                ),
            ),
    {
        self.add_yaml_error_with_range(message, line, column, line, column + 1, code);
    }

    /// Add an error diagnostic at a point, inferring the code from the
    /// message.
    pub fn add_yaml_error(&mut self, message: String, line: u32, column: u32)
        requires
            column < u32::MAX,
        ensures
            final(self)@ == old(self)@.push(
                positioned_diag(
                    Severity::Error,
                    code_of_message(message@),
                    message@,
                    line as int,
                    column as int,
                    line as int,
                    column + 1,
                ),
            ),
    {
        let code = DiagnosticCode::from_message(message.as_str());
        self.add_yaml_error_with_code(message, line, column, code);
    }

    /// Add a structure warning with an explicit code.
    pub fn add_workflow_warning_with_code(
        &mut self,
        message: String,
        line: u32,
        column: u32,
        code: DiagnosticCode,
    )
        requires
            column < u32::MAX,
        ensures
            final(self)@ == old(self)@.push(
                positioned_diag(
                    Severity::Warning,
                    code,
                    message@,
                    line as int,
                    column as int,
                    line as int,
                    column + 1,
                ),
            ),
    {
        let d = Diagnostic {
            start_line: line,
            start_column: column,
            end_line: line,
            end_column: column + 1,
            severity: Severity::Warning,
            code: Some(code),
            message,
            source: source_string(),
        };
        let ghost dv = d@;
        self.diagnostics.push(d);
        proof {
            assert(self@ =~= old(self)@.push(dv));
        }
    }

    /// Add a workflow structure warning.
    pub fn add_workflow_warning(&mut self, message: String, line: u32, column: u32)
        requires
            column < u32::MAX,
        ensures
            final(self)@ == old(self)@.push(
                positioned_diag(
                    Severity::Warning,
                    DiagnosticCode::WorkflowStructure,
                    message@,
                    line as int,
                    column as int,
                    line as int,
                    column + 1,
                ),
            ),
    {
        self.add_workflow_warning_with_code(
            message,
            line,
            column,
            DiagnosticCode::WorkflowStructure,
        );
    }

    /// Add a hint diagnostic.
    pub fn add_hint(&mut self, message: String, line: u32, column: u32)
        requires
            column < u32::MAX,
        ensures
            final(self)@ == old(self)@.push(
                positioned_diag(
                    Severity::Hint,
                    DiagnosticCode::UnknownKeyword,
                    message@,
                    line as int,
                    column as int,
                    line as int,
                    column + 1,
                ),
            ),
    {
        let d = Diagnostic {
            start_line: line,
            start_column: column,
            end_line: line,
            end_column: column + 1,
            severity: Severity::Hint,
            code: Some(DiagnosticCode::UnknownKeyword),
            message,
            source: source_string(),
        };
        let ghost dv = d@;
        self.diagnostics.push(d);
        proof {
            assert(self@ =~= old(self)@.push(dv));
        }
    }

    /// The number of diagnostics collected.
    pub fn len(&self) -> (r: usize)
        ensures
            r == self@.len(),
    {
        self.diagnostics.len()
    }

    /// Whether no diagnostic has been collected.
    pub fn is_empty(&self) -> (r: bool)
        ensures
            r == (self@.len() == 0),
    {
        self.diagnostics.is_empty()
    }

    /// Hand out the collected diagnostics.
    pub fn into_diagnostics(self) -> (r: Vec<Diagnostic>)
        ensures
            r@.map_values(|d: Diagnostic| d@) == self@,
    {
        self.diagnostics
    }
}

/// The library's source tag as a string value.
fn source_string() -> (r: String)
    ensures
        r@ == source_tag(),
{
    String::from_str("yaml-tftpl-lsp")
}

} // verus!
