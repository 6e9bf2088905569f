//! An `%if` expression over several lines.
use vstd::prelude::*;

use crate::ast::{CondBranch, CondExpr, SpecFile, Span};
use crate::diagnostic::{Diagnostic, DiagnosticView, LintCategory, Severity, plain, reports};
use crate::lint::{Identity, Lint, LintMetadata, drain};
use crate::rules::{BranchRule, branch_findings, given, run_branches, say};
use crate::text::has_char;
use crate::report_laws::{lemma_says_given, says_at};

verus! {

/// Whether the text of a condition goes on after a line feed.
pub open spec fn spans_lines(c: CondExpr) -> bool {
    c matches CondExpr::Raw(t) && (t.literal() matches Some(s) && s.contains('\n'))
}

fn continues(c: &CondExpr) -> (r: bool)
    ensures
        r == spans_lines(*c),
{
    match c {
        CondExpr::Raw(t) => match t.literal_str() {
            Some(s) => has_char(s, '\n'),
            None => false,
        },
        _ => false,
    }
}

/// RPM094 `line-continuation-in-condition`: `%if` expression spans multiple lines via `\\`
/// — RPM doesn't support continuation here.
#[derive(Debug)]
pub struct LineContinuationInCondition {
    pub diagnostics: Vec<Diagnostic>,
}

impl LineContinuationInCondition {
    pub fn new() -> (r: LineContinuationInCondition)
        ensures
            r.pending() == Seq::<DiagnosticView>::empty(),
    {
        let r = LineContinuationInCondition { diagnostics: Vec::new() };
        assert(r.pending() =~= Seq::<DiagnosticView>::empty());
        r
    }
}

impl Default for LineContinuationInCondition {
    fn default() -> (r: LineContinuationInCondition)
        ensures
            r.pending() == Seq::<DiagnosticView>::empty(),
    {
        LineContinuationInCondition::new()
    }
}

impl Lint for LineContinuationInCondition {
    open spec fn identity() -> Identity {
        Identity {
            id: "RPM094"@,
            name: "line-continuation-in-condition"@,
            description: "`%if` expression spans multiple lines via `\\` — RPM doesn't support continuation here."@,
            default_severity: Severity::Warn,
            category: LintCategory::Correctness,
        }
    }

    open spec fn pending(&self) -> Seq<DiagnosticView> {
        reports(self.diagnostics@)
    }

    open spec fn after(&self, spec: SpecFile) -> Seq<DiagnosticView> {
        self.pending() + branch_findings::<LineContinuationInCondition>(&(), spec)
    }

    open spec fn same_settings(&self, other: &Self) -> bool {
        true
    }

    fn metadata(&self) -> (r: LintMetadata) {
        LintMetadata {
            id: "RPM094",
            name: "line-continuation-in-condition",
            description: "`%if` expression spans multiple lines via `\\` — RPM doesn't support continuation here.",
            default_severity: Severity::Warn,
            category: LintCategory::Correctness,
        }
    }

    fn visit_spec(&mut self, spec: &SpecFile) {
        run_branches::<LineContinuationInCondition>(&(), spec, &mut self.diagnostics);
    }

    fn take_diagnostics(&mut self) -> (r: Vec<Diagnostic>) {
        drain(&mut self.diagnostics)
    }
}

impl BranchRule for LineContinuationInCondition {
    type Settings = ();

    open spec fn on_branch(_settings: &(), branch: CondBranch) -> Seq<DiagnosticView> {
        given(
            spans_lines(branch.expr),
            plain("RPM094"@, Severity::Warn, "`%if` expression continues onto another line — RPM does not honour `\\` continuation in conditions"@, branch.data),
        )
    }

    fn check_branch(_settings: &(), branch: &CondBranch, out: &mut Vec<Diagnostic>) {
        if continues(&branch.expr) {
            say(out, Diagnostic::new("RPM094", Severity::Warn, "`%if` expression continues onto another line — RPM does not honour `\\` continuation in conditions", branch.data));
        } else {
            assert(reports(out@) + Seq::<DiagnosticView>::empty() == reports(out@));
        }
    }
}

/// Exactly those conditions are reported that are kept as text in which a
/// line feed stands.
pub proof fn continued_conditions_are_reported(branch: CondBranch, span: Span)
    ensures
        says_at(LineContinuationInCondition::on_branch(&(), branch), span) <==> branch.data == span
            && (branch.expr matches CondExpr::Raw(t) && (t.literal() matches Some(s) && exists|
            i: int,
        |
            0 <= i < s.len() && #[trigger] s[i] == '\n')),
{
    lemma_says_given(
        spans_lines(branch.expr),
        plain(
            "RPM094"@,
            Severity::Warn,
            "`%if` expression continues onto another line — RPM does not honour `\\` continuation in conditions"@,
            branch.data,
        ),
        span,
    );
    match branch.expr {
        CondExpr::Raw(t) => match t.literal() {
            Some(s) => {
                assert(s.contains('\n') <==> exists|i: int|
                    0 <= i < s.len() && #[trigger] s[i] == '\n');
            },
            None => {},
        },
        _ => {},
    }
}

} // verus!
