//! Runs of `%license` lines in a `%files` section.
use vstd::prelude::*;

use crate::ast::{FileDirective, SpecFile};
use crate::diagnostic::{Diagnostic, DiagnosticView, LintCategory, Severity, reports};
use crate::lint::{Identity, Lint, LintMetadata, drain};
use crate::rules::adjacent_doc_lines::{all_files_findings, scan_spec};

verus! {

/// RPM511 `adjacent-license-lines-merge`: Adjacent `%license PATH` entries within one
/// `%files` section — merge into a single `%license A B C` line.
#[derive(Debug)]
pub struct AdjacentLicenseLines {
    pub diagnostics: Vec<Diagnostic>,
}

impl AdjacentLicenseLines {
    pub fn new() -> (r: AdjacentLicenseLines)
        ensures
            r.pending() == Seq::<DiagnosticView>::empty(),
    {
        let r = AdjacentLicenseLines { diagnostics: Vec::new() };
        assert(r.pending() =~= Seq::<DiagnosticView>::empty());
        r
    }
}

impl Default for AdjacentLicenseLines {
    fn default() -> (r: AdjacentLicenseLines)
        ensures
            r.pending() == Seq::<DiagnosticView>::empty(),
    {
        AdjacentLicenseLines::new()
    }
}

impl Lint for AdjacentLicenseLines {
    open spec fn identity() -> Identity {
        Identity {
            id: "RPM511"@,
            name: "adjacent-license-lines-merge"@,
            description: "Adjacent `%license PATH` entries within one `%files` section — merge into a single `%license A B C` line."@,
            default_severity: Severity::Warn,
            category: LintCategory::Style,
        }
    }

    open spec fn pending(&self) -> Seq<DiagnosticView> {
        reports(self.diagnostics@)
    }

    open spec fn after(&self, spec: SpecFile) -> Seq<DiagnosticView> {
        self.pending() + all_files_findings(spec, FileDirective::License)
    }

    open spec fn same_settings(&self, other: &Self) -> bool {
        true
    }

    fn metadata(&self) -> (r: LintMetadata) {
        LintMetadata {
            id: "RPM511",
            name: "adjacent-license-lines-merge",
            description: "Adjacent `%license PATH` entries within one `%files` section — merge into a single `%license A B C` line.",
            default_severity: Severity::Warn,
            category: LintCategory::Style,
        }
    }

    fn visit_spec(&mut self, spec: &SpecFile) {
        scan_spec(spec, FileDirective::License, &mut self.diagnostics);
    }

    fn take_diagnostics(&mut self) -> (r: Vec<Diagnostic>) {
        drain(&mut self.diagnostics)
    }
}

} // verus!
