//! An `%else` without content.
use vstd::prelude::*;

use crate::ast::{Conditional, SpecFile, Span};
use crate::bodies::{all_filler, only_filler, is_filler};
use crate::diagnostic::{Diagnostic, DiagnosticView, LintCategory, Severity, plain, reports};
use crate::lint::{Identity, Lint, LintMetadata, drain};
use crate::rules::{SiteRule, given, run_sites, say, site_findings};
use crate::walk::{Site, SiteView};
use crate::report_laws::{adds_nothing, lemma_says_given, says_at};

verus! {

/// Whether the `%else` holds nothing while some branch does.
pub open spec fn else_is_hollow(c: Conditional) -> bool {
    &&& exists|i: int| 0 <= i < c.branches@.len() && !all_filler((#[trigger] c.branches@[i]).body@)
    &&& c.otherwise matches Some(body) && all_filler(body@)
}

fn has_hollow_else(c: &Conditional) -> (r: bool)
    ensures
        r == else_is_hollow(*c),
{
    let empty_else = match &c.otherwise {
        Some(body) => only_filler(body),
        None => false,
    };
    let mut i: usize = 0;
    while i < c.branches.len()
        invariant
            i <= c.branches.len(),
            empty_else == (c.otherwise matches Some(body) && all_filler(body@)),
            forall|j: int| 0 <= j < i ==> all_filler((#[trigger] c.branches@[j]).body@),
        decreases c.branches.len() - i,
    {
        if !only_filler(&c.branches[i].body) {
            assert(!all_filler(c.branches@[i as int].body@));
            return empty_else;
        }
        i = i + 1;
    }
    false
}

/// RPM081 `empty-else-drop`: `%else` clause has no content; drop the empty `%else`.
#[derive(Debug)]
pub struct EmptyElseDrop {
    pub diagnostics: Vec<Diagnostic>,
}

impl EmptyElseDrop {
    pub fn new() -> (r: EmptyElseDrop)
        ensures
            r.pending() == Seq::<DiagnosticView>::empty(),
    {
        let r = EmptyElseDrop { diagnostics: Vec::new() };
        assert(r.pending() =~= Seq::<DiagnosticView>::empty());
        r
    }
}

impl Default for EmptyElseDrop {
    fn default() -> (r: EmptyElseDrop)
        ensures
            r.pending() == Seq::<DiagnosticView>::empty(),
    {
        EmptyElseDrop::new()
    }
}

impl Lint for EmptyElseDrop {
    open spec fn identity() -> Identity {
        Identity {
            id: "RPM081"@,
            name: "empty-else-drop"@,
            description: "`%else` clause has no content; drop the empty `%else`."@,
            default_severity: Severity::Warn,
            category: LintCategory::Style,
        }
    }

    open spec fn pending(&self) -> Seq<DiagnosticView> {
        reports(self.diagnostics@)
    }

    open spec fn after(&self, spec: SpecFile) -> Seq<DiagnosticView> {
        self.pending() + site_findings::<EmptyElseDrop>(&(), spec)
    }

    open spec fn same_settings(&self, other: &Self) -> bool {
        true
    }

    fn metadata(&self) -> (r: LintMetadata) {
        LintMetadata {
            id: "RPM081",
            name: "empty-else-drop",
            description: "`%else` clause has no content; drop the empty `%else`.",
            default_severity: Severity::Warn,
            category: LintCategory::Style,
        }
    }

    fn visit_spec(&mut self, spec: &SpecFile) {
        run_sites::<EmptyElseDrop>(&(), spec, &mut self.diagnostics);
    }

    fn take_diagnostics(&mut self) -> (r: Vec<Diagnostic>) {
        drain(&mut self.diagnostics)
    }
}

impl SiteRule for EmptyElseDrop {
    type Settings = ();

    open spec fn on_site(_settings: &(), site: SiteView) -> Seq<DiagnosticView> {
        given(
            else_is_hollow(site.cond),
            plain("RPM081"@, Severity::Warn, "`%else` clause is empty (only blanks/comments) — drop it"@, site.cond.data).advise("delete the `%else` line and its empty body"@),
        )
    }

    fn check_site(_settings: &(), site: &Site, out: &mut Vec<Diagnostic>) {
        if has_hollow_else(site.cond) {
            say(out, Diagnostic::new("RPM081", Severity::Warn, "`%else` clause is empty (only blanks/comments) — drop it", site.cond.data).with_advice("delete the `%else` line and its empty body"));
        } else {
            assert(reports(out@) + Seq::<DiagnosticView>::empty() == reports(out@));
        }
    }
}

/// Exactly those blocks are reported whose `%else` adds nothing while one of
/// the branches does.
pub proof fn idle_elses_are_reported(site: SiteView, span: Span)
    ensures
        says_at(EmptyElseDrop::on_site(&(), site), span) <==> site.cond.data == span && (
        site.cond.otherwise matches Some(body) && forall|k: int|
            0 <= k < body@.len() ==> adds_nothing(#[trigger] body@[k])) && exists|i: int, k: int|
            0 <= i < site.cond.branches@.len() && 0 <= k < site.cond.branches@[i].body@.len()
                && !adds_nothing(#[trigger] site.cond.branches@[i].body@[k]),
{
    let c = site.cond;
    lemma_says_given(
        else_is_hollow(c),
        plain(
            "RPM081"@,
            Severity::Warn,
            "`%else` clause is empty (only blanks/comments) — drop it"@,
            c.data,
        ).advise("delete the `%else` line and its empty body"@),
        span,
    );
    match c.otherwise {
        Some(body) => {
            if all_filler(body@) {
                assert forall|k: int| 0 <= k < body@.len() implies adds_nothing(
                    #[trigger] body@[k],
                ) by {
                    assert(is_filler(body@[k]));
                }
            }
            if forall|k: int| 0 <= k < body@.len() ==> adds_nothing(#[trigger] body@[k]) {
                assert forall|k: int| 0 <= k < body@.len() implies is_filler(
                    #[trigger] body@[k],
                ) by {}
            }
        },
        None => {},
    }
    if exists|i: int| 0 <= i < c.branches@.len() && !all_filler((#[trigger] c.branches@[i]).body@) {
        let i = choose|i: int|
            0 <= i < c.branches@.len() && !all_filler((#[trigger] c.branches@[i]).body@);
        let b = c.branches@[i].body@;
        let k = choose|k: int| 0 <= k < b.len() && !is_filler(#[trigger] b[k]);
        assert(!adds_nothing(c.branches@[i].body@[k]));
    }
    if exists|i: int, k: int|
        0 <= i < c.branches@.len() && 0 <= k < c.branches@[i].body@.len() && !adds_nothing(
            #[trigger] c.branches@[i].body@[k],
        ) {
        let (i, k) = choose|i: int, k: int|
            0 <= i < c.branches@.len() && 0 <= k < c.branches@[i].body@.len() && !adds_nothing(
                #[trigger] c.branches@[i].body@[k],
            );
        assert(!is_filler(c.branches@[i].body@[k]));
        assert(!all_filler(c.branches@[i].body@));
    }
}

} // verus!
