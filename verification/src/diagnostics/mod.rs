//! Diagnostics reported to the client: codes, records and the passes that
//! produce them.

use crate::diagnostics::diagnostic_run_data::{DiagnosticsRunData, RunFacts};
use crate::diagnostics::statement_analysis::{statement_analysis, statements_checked};
use crate::diagnostics::tree_error_analysis::{search_for_tree_error, tree_errors_reported};
use crate::document::DocumentData;
use crate::protocol::{diagnostics_view, Diagnostic};
use vstd::prelude::*;

pub mod diagnostic_codes;
pub mod diagnostic_run_data;
pub mod statement_analysis;
pub mod tree_error_analysis;
pub mod tree_utils;

verus! {

/// The run of the diagnostics on a document: first the problems that the
/// parser marked are reported, then the unsafe variables.
pub open spec fn diagnosed(document: DocumentData, maximum_number_of_problems: u32) -> RunFacts {
    statements_checked(
        document.syntax,
        document.semantics.attribute_map(),
        tree_errors_reported(
            document.text(),
            document.semantics.syntax.errors(),
            document.semantics.syntax.missing(),
            (RunFacts { maximum: maximum_number_of_problems, current: 0, diagnostics: Seq::empty() }),
        ),
        document.syntax.size(),
    )
}

/// Run the diagnostics on the document, reporting no more than
/// `maximum_number_of_problems` problems.
pub fn run_diagnostics(document: &DocumentData, maximum_number_of_problems: u32) -> (diagnostics:
    Vec<Diagnostic>)
    requires
        document.wf(),
    ensures
        diagnostics_view(diagnostics@) == diagnosed(*document, maximum_number_of_problems).diagnostics,
{
    // Setup the diagnostics run data object to be used for this diagnostics run
    let mut diagnostic_data = DiagnosticsRunData::new(maximum_number_of_problems);
    search_for_tree_error(&mut diagnostic_data, document);
    statement_analysis(&mut diagnostic_data, document);
    diagnostic_data.total_diagnostics
}

} // verus!
