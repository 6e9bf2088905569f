//! A final `%elif` that is always true.
use vstd::prelude::*;

use crate::ast::{CondKind, Conditional, SpecFile, Span};
use crate::diagnostic::{Diagnostic, DiagnosticView, LintCategory, Severity, plain, reports};
use crate::expr::{cond_const_true, is_constant_true_condition};
use crate::lint::{Identity, Lint, LintMetadata, drain};
use crate::rules::{SiteRule, given, run_sites, say, site_findings};
use crate::walk::{Site, SiteView};
use crate::report_laws::{lemma_says_one, says_at};

verus! {

/// Whether the last branch is an `%elif` that is always taken where no other
/// is, and no `%else` follows.
pub open spec fn ends_in_true(c: Conditional) -> bool {
    &&& c.branches@.len() >= 2
    &&& c.otherwise is None
    &&& c.branches@.last().kind is Elif
    &&& cond_const_true(c.branches@.last().expr)
}

fn last_is_true(c: &Conditional) -> (r: bool)
    ensures
        r == ends_in_true(*c),
{
    if c.branches.len() < 2 || c.otherwise.is_some() {
        return false;
    }
    let last = &c.branches[c.branches.len() - 1];
    matches!(last.kind, CondKind::Elif) && is_constant_true_condition(&last.expr)
}

/// RPM083 `collapse-elif-into-else`: Final `%elif` with a constant-true expression is
/// equivalent to `%else`.
#[derive(Debug)]
pub struct CollapseElifIntoElse {
    pub diagnostics: Vec<Diagnostic>,
}

impl CollapseElifIntoElse {
    pub fn new() -> (r: CollapseElifIntoElse)
        ensures
            r.pending() == Seq::<DiagnosticView>::empty(),
    {
        let r = CollapseElifIntoElse { diagnostics: Vec::new() };
        assert(r.pending() =~= Seq::<DiagnosticView>::empty());
        r
    }
}

impl Default for CollapseElifIntoElse {
    fn default() -> (r: CollapseElifIntoElse)
        ensures
            r.pending() == Seq::<DiagnosticView>::empty(),
    {
        CollapseElifIntoElse::new()
    }
}

impl Lint for CollapseElifIntoElse {
    open spec fn identity() -> Identity {
        Identity {
            id: "RPM083"@,
            name: "collapse-elif-into-else"@,
            description: "Final `%elif` with a constant-true expression is equivalent to `%else`."@,
            default_severity: Severity::Warn,
            category: LintCategory::Style,
        }
    }

    open spec fn pending(&self) -> Seq<DiagnosticView> {
        reports(self.diagnostics@)
    }

    open spec fn after(&self, spec: SpecFile) -> Seq<DiagnosticView> {
        self.pending() + site_findings::<CollapseElifIntoElse>(&(), spec)
    }

    open spec fn same_settings(&self, other: &Self) -> bool {
        true
    }

    fn metadata(&self) -> (r: LintMetadata) {
        LintMetadata {
            id: "RPM083",
            name: "collapse-elif-into-else",
            description: "Final `%elif` with a constant-true expression is equivalent to `%else`.",
            default_severity: Severity::Warn,
            category: LintCategory::Style,
        }
    }

    fn visit_spec(&mut self, spec: &SpecFile) {
        run_sites::<CollapseElifIntoElse>(&(), spec, &mut self.diagnostics);
    }

    fn take_diagnostics(&mut self) -> (r: Vec<Diagnostic>) {
        drain(&mut self.diagnostics)
    }
}

impl SiteRule for CollapseElifIntoElse {
    type Settings = ();

    open spec fn on_site(_settings: &(), site: SiteView) -> Seq<DiagnosticView> {
        given(
            ends_in_true(site.cond),
            plain("RPM083"@, Severity::Warn, "final `%elif` with constant-true condition can become `%else`"@, site.cond.branches@.last().data).advise("replace the `%elif <true>` keyword line with `%else`"@),
        )
    }

    fn check_site(_settings: &(), site: &Site, out: &mut Vec<Diagnostic>) {
        if last_is_true(site.cond) {
            say(out, Diagnostic::new("RPM083", Severity::Warn, "final `%elif` with constant-true condition can become `%else`", site.cond.branches[site.cond.branches.len() - 1].data).with_advice("replace the `%elif <true>` keyword line with `%else`"));
        } else {
            assert(reports(out@) + Seq::<DiagnosticView>::empty() == reports(out@));
        }
    }
}

/// Exactly those last branches are reported that are a plain `%elif` after
/// others, have a condition that is always true, and have no `%else` after
/// them.
pub proof fn last_true_branches_are_reported(site: SiteView, span: Span)
    requires
        site.cond.branches@.len() > 0,
    ensures
        says_at(CollapseElifIntoElse::on_site(&(), site), span) <==> ({
            let n = site.cond.branches@.len();
            let last = site.cond.branches@[n - 1];
            &&& n > 1
            &&& last.data == span
            &&& last.kind == CondKind::Elif
            &&& cond_const_true(last.expr)
            &&& site.cond.otherwise is None
        }),
{
    let on = CollapseElifIntoElse::on_site(&(), site);
    if ends_in_true(site.cond) {
        lemma_says_one(on[0], span);
        assert(on =~= seq![on[0]]);
    }
}

} // verus!
