use crate::protocol::{diagnostics_view, Diagnostic, DiagnosticFacts, DiagnosticSeverity};
use crate::syntax_tree::TextRange;
use vstd::prelude::*;
use vstd::string::StringExecFns;

verus! {

/// An object that contains all the diagnostic data which was found.
#[derive(Debug)]
pub struct DiagnosticsRunData {
    /// How many problems are reported at most.
    pub maximum_number_of_problems: u32,
    /// How many problems were reported.
    pub current_number_of_problems: u32,
    /// A list of diagnostics to be sent to the user.
    pub total_diagnostics: Vec<Diagnostic>,
}

/// What a [`DiagnosticsRunData`] holds.
pub struct RunFacts {
    pub maximum: u32,
    pub current: u32,
    pub diagnostics: Seq<DiagnosticFacts>,
}

impl View for DiagnosticsRunData {
    type V = RunFacts;

    open spec fn view(&self) -> RunFacts {
        RunFacts {
            maximum: self.maximum_number_of_problems,
            current: self.current_number_of_problems,
            diagnostics: diagnostics_view(self.total_diagnostics@),
        }
    }
}

/// The run after one more problem was found: the problem is reported
/// unless as many problems were reported as may be.
pub open spec fn reported(run: RunFacts, problem: DiagnosticFacts) -> RunFacts {
    if run.current < run.maximum {
        RunFacts {
            current: (run.current + 1) as u32,
            diagnostics: run.diagnostics.push(problem),
            ..run
        }
    } else {
        run
    }
}

/// A problem that the analysis found.
pub open spec fn linter_problem(range: TextRange, severity: DiagnosticSeverity, code: int, message: Seq<
    char,
>) -> DiagnosticFacts {
    DiagnosticFacts { range, severity, code, source: "clinlint"@, message }
}

/// A problem that the parser found.
pub open spec fn parser_problem(range: TextRange, severity: DiagnosticSeverity, code: int, message: Seq<
    char,
>) -> DiagnosticFacts {
    DiagnosticFacts { range, severity, code, source: "tree-sitter"@, message }
}

impl DiagnosticsRunData {
    /// Create a diagnostic message from clinlint.
    pub fn create_linter_diagnostic(
        &mut self,
        range: TextRange,
        severity: DiagnosticSeverity,
        code_number: i32,
        message: String,
    )
        ensures
            final(self)@ == reported(
                old(self)@,
                linter_problem(range, severity, code_number as int, message@),
            ),
    {
        self.create_diagnostic(range, severity, code_number, String::from_str("clinlint"), message)
    }

    /// Create a diagnostic message from tree-sitter.
    pub fn create_tree_sitter_diagnostic(
        &mut self,
        range: TextRange,
        severity: DiagnosticSeverity,
        code_number: i32,
        message: String,
    )
        ensures
            final(self)@ == reported(
                old(self)@,
                parser_problem(range, severity, code_number as int, message@),
            ),
    {
        self.create_diagnostic(
            range,
            severity,
            code_number,
            String::from_str("tree-sitter"),
            message,
        )
    }

    /// Create a generic diagnostic message. Once as many problems were
    /// reported as may be, nothing more is reported.
    fn create_diagnostic(
        &mut self,
        range: TextRange,
        severity: DiagnosticSeverity,
        code_number: i32,
        source: String,
        message: String,
    )
        ensures
            final(self)@ == reported(
                old(self)@,
                (DiagnosticFacts {
                    range,
                    severity,
                    code: code_number as int,
                    source: source@,
                    message: message@,
                }),
            ),
    {
        if self.current_number_of_problems >= self.maximum_number_of_problems {
            return ;
        }
        let diagnostic = Diagnostic { range, severity, code: code_number, source, message };
        self.total_diagnostics.push(diagnostic);
        self.current_number_of_problems = self.current_number_of_problems + 1;
        proof {
            assert(diagnostics_view(self.total_diagnostics@) =~= diagnostics_view(
                old(self).total_diagnostics@,
            ).push(diagnostic@));
        }
    }

    /// A run that reports no more than `maximum_number_of_problems`
    /// problems.
    pub fn new(maximum_number_of_problems: u32) -> (run: DiagnosticsRunData)
        ensures
            run@ == (RunFacts {
                maximum: maximum_number_of_problems,
                current: 0,
                diagnostics: Seq::empty(),
            }),
    {
        let run = DiagnosticsRunData {
            maximum_number_of_problems,
            current_number_of_problems: 0,
            total_diagnostics: Vec::new(),
        };
        proof {
            assert(diagnostics_view(run.total_diagnostics@) =~= Seq::<DiagnosticFacts>::empty());
        }
        run
    }

    /// A run that reports no more than a hundred problems.
    pub fn create_test_diagnostics() -> (run: DiagnosticsRunData)
        ensures
            run@ == (RunFacts { maximum: 100, current: 0, diagnostics: Seq::empty() }),
    {
        Self::new(100)
    }
}

} // verus!
