use crate::diagnostics::diagnostic_codes::DiagnosticsCode;
use crate::diagnostics::diagnostic_run_data::{
    parser_problem, reported, DiagnosticsRunData, RunFacts,
};
use crate::diagnostics::tree_utils::{humanize_token, humanized};
use crate::document::DocumentData;
use crate::protocol::{DiagnosticFacts, DiagnosticSeverity};
use crate::semantics::error_semantic::ErrorFacts;
use crate::semantics::missing_semantic::MissingFacts;
use crate::semantics::syntax::{errors_view, missing_view};
use crate::source::slice_between;
use crate::text::text_eq;
use vstd::prelude::*;
use vstd::string::StringExecFns;

verus! {

/// The text that an error spans; nothing where the error spans no text
/// of the document.
pub open spec fn error_text(text: Seq<char>, error: ErrorFacts) -> Seq<char> {
    match slice_between(text, error.range.start_byte, error.range.end_byte) {
        Some(slice) => slice,
        None => Seq::empty(),
    }
}

/// The problem that is reported of an error. An error that follows a
/// statement most likely means that the statement lacks its dot.
pub open spec fn error_problem(text: Seq<char>, error: ErrorFacts) -> DiagnosticFacts {
    if error.prev_sibling_type == "statement"@ {
        parser_problem(
            error.range,
            DiagnosticSeverity::Error,
            DiagnosticsCode::ExpectedDot.code(),
            "syntax error while parsing value: '"@ + error_text(text, error) + "', expected: '.'"@,
        )
    } else {
        parser_problem(
            error.range,
            DiagnosticSeverity::Error,
            DiagnosticsCode::UnknownParseState.code(),
            "syntax error while parsing value: '"@ + error_text(text, error) + "'"@,
        )
    }
}

/// The problem that is reported of a missing token.
pub open spec fn missing_problem(missing: MissingFacts) -> DiagnosticFacts {
    parser_problem(
        missing.range,
        DiagnosticSeverity::Error,
        DiagnosticsCode::ExpectedMissingToken.code(),
        "syntax error while parsing, expected: '"@ + humanized(missing.missing) + "'"@,
    )
}

/// The run after the first `n` errors were reported.
pub open spec fn errors_reported(text: Seq<char>, errors: Seq<ErrorFacts>, run: RunFacts, n: int)
    -> RunFacts
    decreases n,
{
    if n <= 0 {
        run
    } else {
        reported(errors_reported(text, errors, run, n - 1), error_problem(text, errors[n - 1]))
    }
}

/// The run after the first `n` missing tokens were reported.
pub open spec fn missing_reported(missing: Seq<MissingFacts>, run: RunFacts, n: int) -> RunFacts
    decreases n,
{
    if n <= 0 {
        run
    } else {
        reported(missing_reported(missing, run, n - 1), missing_problem(missing[n - 1]))
    }
}

/// The run after the errors and then the missing tokens of a document
/// with the given text were reported.
pub open spec fn tree_errors_reported(
    text: Seq<char>,
    errors: Seq<ErrorFacts>,
    missing: Seq<MissingFacts>,
    run: RunFacts,
) -> RunFacts {
    missing_reported(
        missing,
        errors_reported(text, errors, run, errors.len() as int),
        missing.len() as int,
    )
}

/// Search for errors in the parse tree: reports the errors and the missing
/// tokens that the analysis recorded.
pub fn search_for_tree_error(diagnostic_data: &mut DiagnosticsRunData, document: &DocumentData)
    ensures
        final(diagnostic_data)@ == tree_errors_reported(
            document.text(),
            document.semantics.syntax.errors(),
            document.semantics.syntax.missing(),
            old(diagnostic_data)@,
        ),
{
    // Go through the errors found in the document
    let errors = document.semantics.syntax.get_errors();
    let mut i: usize = 0;
    while i < errors.len()
        invariant
            i <= errors.len(),
            errors_view(errors@) == document.semantics.syntax.errors(),
            diagnostic_data@ == errors_reported(
                document.text(),
                errors_view(errors@),
                old(diagnostic_data)@,
                i as int,
            ),
        decreases errors.len() - i,
    {
        let error = &errors[i];
        proof {
            assert(errors_view(errors@)[i as int] == error@);
        }
        let value = document.get_source_for_range(error.range);
        let start = String::from_str("syntax error while parsing value: '").concat(value.as_str());
        if text_eq(error.prev_sibling_type.as_str(), "statement") {
            // Found an error which is preceded by a statement, most likely a . is missing
            diagnostic_data.create_tree_sitter_diagnostic(
                error.range,
                DiagnosticSeverity::Error,
                DiagnosticsCode::ExpectedDot.into_i32(),
                start.concat("', expected: '.'"),
            );
        } else {
            // If we reach here, we do not have a guess why the error occured
            diagnostic_data.create_tree_sitter_diagnostic(
                error.range,
                DiagnosticSeverity::Error,
                DiagnosticsCode::UnknownParseState.into_i32(),
                start.concat("'"),
            );
        }
        i = i + 1;
    }
    let ghost after_errors = diagnostic_data@;
    let missing = document.semantics.syntax.get_missing();
    let mut j: usize = 0;
    while j < missing.len()
        invariant
            j <= missing.len(),
            missing_view(missing@) == document.semantics.syntax.missing(),
            diagnostic_data@ == missing_reported(missing_view(missing@), after_errors, j as int),
        decreases missing.len() - j,
    {
        let token = &missing[j];
        proof {
            assert(missing_view(missing@)[j as int] == token@);
        }
        // If a node is missing, tell the user what we expected
        let message = String::from_str("syntax error while parsing, expected: '").concat(
            humanize_token(token.missing.as_str()),
        ).concat("'");
        diagnostic_data.create_tree_sitter_diagnostic(
            token.range,
            DiagnosticSeverity::Error,
            DiagnosticsCode::ExpectedMissingToken.into_i32(),
            message,
        );
        j = j + 1;
    }
}

} // verus!
