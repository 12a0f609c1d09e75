//! The full diagnostics pass for one document version.
//!
//! The text is preprocessed (expressions replaced by placeholders), the
//! rewritten text is parsed as YAML, a parse failure is translated back to
//! original-text coordinates, and a successfully parsed document is run
//! through the workflow structure validator.

use vstd::prelude::*;

use crate::diagnostics::DiagInfo;
use crate::diagnostics::Diagnostic;
use crate::diagnostics::DiagnosticCollector;
use crate::expressions::deltas_spec;
use crate::expressions::Expression;
use crate::preprocessor::expr_matches_span;
use crate::preprocessor::preprocess_expressions;
use crate::preprocessor::rewritten_text;
use crate::preprocessor::scan_spec;
use crate::text::MAX_TEXT;
use crate::validator::split_lines_spec;
use crate::validator::validate_workflow;
use crate::validator::workflow_diags;
use crate::yaml::parse_error_diag;
use crate::yaml::parse_yaml;
use crate::yaml::yaml_parse_ok;
use crate::yaml::YamlNode;

verus! {

/// Run one full validation pass over a document text and return its
/// diagnostics. When the rewritten text parses, the diagnostics are the
/// workflow validator's findings over the parsed document; when it does
/// not, they are exactly one parse error, positioned in original-text
/// coordinates through the expression map that preprocessing produced.
pub fn compute_diagnostics(text: &str) -> (r: Vec<Diagnostic>)
    requires
        text@.len() <= MAX_TEXT,
    ensures
        ({
            let rewritten = rewritten_text(text@, scan_spec(text@));
            let dv = r@.map_values(|d: Diagnostic| d@);
            &&& (yaml_parse_ok(rewritten) ==> exists|node: YamlNode|
                dv == #[trigger] workflow_diags(node, split_lines_spec(rewritten)))
            &&& (!yaml_parse_ok(rewritten) ==> exists|msg: Seq<char>, es: Seq<Expression>|
                {
                    &&& es.len() == scan_spec(text@).len()
                    &&& (forall|j: int|
                        0 <= j < es.len() ==> expr_matches_span(
                            #[trigger] es[j],
                            text@,
                            scan_spec(text@),
                            j,
                        ))
                    &&& dv == seq![#[trigger] parse_error_diag(msg, deltas_spec(es))]
                })
        }),
{
    let (preprocessed, expression_map) = preprocess_expressions(text);
    let ghost rewritten = rewritten_text(text@, scan_spec(text@));
    let mut collector = DiagnosticCollector::new();
    let result = parse_yaml(preprocessed.as_str(), &expression_map, &mut collector);
    let ghost es = expression_map.expressions@;
    match result.value {
        Some(node) => {
            validate_workflow(&node, preprocessed.as_str(), &mut collector);
            proof {
                assert(collector@ =~= workflow_diags(node, split_lines_spec(rewritten)));
            }
            let out = collector.into_diagnostics();
            proof {
                assert(out@.map_values(|d: Diagnostic| d@) == workflow_diags(
                    node,
                    split_lines_spec(rewritten),
                ));
            }
            out
        },
        None => {
            proof {
                let msg = choose|msg: Seq<char>|
                    collector@ == Seq::<DiagInfo>::empty().push(
                        #[trigger] parse_error_diag(msg, expression_map.deltas()),
                    );
                assert(collector@ =~= seq![parse_error_diag(msg, deltas_spec(es))]);
            }
            let ghost cv = collector@;
            let out = collector.into_diagnostics();
            proof {
                let msg = choose|msg: Seq<char>|
                    cv == Seq::<DiagInfo>::empty().push(
                        #[trigger] parse_error_diag(msg, expression_map.deltas()),
                    );
                assert(out@.map_values(|d: Diagnostic| d@) =~= seq![
                    parse_error_diag(msg, deltas_spec(es)),
                ]);
            }
            out
        },
    }
}

} // verus!
