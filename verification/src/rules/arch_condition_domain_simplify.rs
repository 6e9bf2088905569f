//! Lists of architectures that leave none out.
use vstd::prelude::*;

use crate::ast::{CondBranch, CondKind, Span, SpecFile};
use crate::condition::string_texts;
use crate::diagnostic::{Diagnostic, DiagnosticView, LintCategory, Severity, plain, reports};
use crate::lint::{Identity, Lint, LintMetadata, drain};
use crate::names::NameSet;
use crate::profile::Profile;
use crate::rules::{BranchRule, branch_findings, given, run_branches, say};
use crate::rules::arch_complement_shorter::{
    listed, listed_archs, universe_set, listed_are_the_named, lists_just,
};
use crate::text::{count, decimal};
use crate::report_laws::{lemma_says_given, says_at};

verus! {

pub open spec fn cover_report(n: nat, span: Span) -> DiagnosticView {
    plain("RPM440"@, Severity::Warn, "`%ifarch` list covers every arch in the profile's target universe ("@ + decimal(n) + "); the condition is always true"@, span).advise(
        "drop the `%ifarch` wrapper; the body always runs"@,
    )
}

/// A report on a branch that lists every architecture.
pub open spec fn cover_findings(universe: Set<Seq<char>>, branch: CondBranch) -> Seq<DiagnosticView> {
    match listed(branch.expr) {
        Some(archs) => given(
            (branch.kind is IfArch || branch.kind is ElifArch) && universe != Set::<Seq<char>>::empty()
                && universe.subset_of(archs),
            cover_report(universe.len(), branch.data),
        ),
        None => Seq::empty(),
    }
}

/// RPM440 `arch-condition-domain-simplify`: `%ifarch <list>` covers every architecture the
/// active profile may target — the condition is always true; drop the `%ifarch` wrapper.
#[derive(Debug)]
pub struct ArchConditionDomainSimplify {
    pub diagnostics: Vec<Diagnostic>,
    pub universe: Vec<String>,
}

impl ArchConditionDomainSimplify {
    pub fn new() -> (r: ArchConditionDomainSimplify)
        ensures
            r.pending() == Seq::<DiagnosticView>::empty(),
            r.universe@.len() == 0,
    {
        let r = ArchConditionDomainSimplify { diagnostics: Vec::new(), universe: Vec::new() };
        assert(r.pending() =~= Seq::<DiagnosticView>::empty());
        r
    }
}

impl Default for ArchConditionDomainSimplify {
    fn default() -> (r: ArchConditionDomainSimplify)
        ensures
            r.pending() == Seq::<DiagnosticView>::empty(),
            r.universe@.len() == 0,
    {
        ArchConditionDomainSimplify::new()
    }
}

impl Lint for ArchConditionDomainSimplify {
    open spec fn identity() -> Identity {
        Identity {
            id: "RPM440"@,
            name: "arch-condition-domain-simplify"@,
            description: "`%ifarch <list>` covers every architecture the active profile may target — the condition is always true; drop the `%ifarch` wrapper."@,
            default_severity: Severity::Warn,
            category: LintCategory::Style,
        }
    }

    open spec fn pending(&self) -> Seq<DiagnosticView> {
        reports(self.diagnostics@)
    }

    open spec fn after(&self, spec: SpecFile) -> Seq<DiagnosticView> {
        self.pending() + branch_findings::<ArchConditionDomainSimplify>(&self.universe, spec)
    }

    open spec fn same_settings(&self, other: &Self) -> bool {
        self.universe == other.universe
    }

    fn metadata(&self) -> (r: LintMetadata) {
        LintMetadata {
            id: "RPM440",
            name: "arch-condition-domain-simplify",
            description: "`%ifarch <list>` covers every architecture the active profile may target — the condition is always true; drop the `%ifarch` wrapper.",
            default_severity: Severity::Warn,
            category: LintCategory::Style,
        }
    }

    fn visit_spec(&mut self, spec: &SpecFile) {
        run_branches::<ArchConditionDomainSimplify>(&self.universe, spec, &mut self.diagnostics);
    }

    fn take_diagnostics(&mut self) -> (r: Vec<Diagnostic>) {
        drain(&mut self.diagnostics)
    }
}

impl BranchRule for ArchConditionDomainSimplify {
    type Settings = Vec<String>;

    open spec fn on_branch(settings: &Vec<String>, branch: CondBranch) -> Seq<DiagnosticView> {
        cover_findings(universe_set(*settings), branch)
    }

    fn check_branch(settings: &Vec<String>, branch: &CondBranch, out: &mut Vec<Diagnostic>) {
        match branch.kind {
            CondKind::IfArch | CondKind::ElifArch => {
                match listed_archs(&branch.expr) {
                    Some(archs) => {
                        let universe = NameSet::of(settings);
                        let n: usize = universe.len();
                        if !universe.is_empty() && universe.is_subset(&archs) {
                            let mut message = String::from_str("`%ifarch` list covers every arch in the profile's target universe (");
                            message.append(count(n).as_str());
                            message.append("); the condition is always true");
                            say(
                                out,
                                Diagnostic::new("RPM440", Severity::Warn, message.as_str(), branch.data).with_advice(
                                    "drop the `%ifarch` wrapper; the body always runs",
                                ),
                            );
                            return ;
                        }
                    },
                    None => {},
                }
            },
            _ => {},
        }
        assert(reports(out@) + Seq::<DiagnosticView>::empty() == reports(out@));
    }
}

impl ArchConditionDomainSimplify {
    /// Takes the architectures to go by from the profile.
    pub fn set_profile(&mut self, profile: &Profile)
        ensures
            universe_set(final(self).universe) == (match profile.arch_universe {
                Some(names) => string_texts(names@).to_set(),
                None => Set::<Seq<char>>::empty(),
            }),
            final(self).pending() == old(self).pending(),
    {
        self.universe = match &profile.arch_universe {
            Some(names) => NameSet::of(names).names,
            None => {
                let none: Vec<String> = Vec::new();
                assert(string_texts(none@).to_set() =~= Set::<Seq<char>>::empty());
                none
            },
        };
    }
}

/// A branch that is reported runs on every architecture of the universe.
pub proof fn reported_branch_runs_everywhere(
    universe: Set<Seq<char>>,
    branch: CondBranch,
    arch: Seq<char>,
)
    requires
        cover_findings(universe, branch).len() > 0,
        universe.contains(arch),
    ensures
        listed(branch.expr) matches Some(archs) && archs.contains(arch),
{
}

/// Exactly those branches are reported that ask for one of all the
/// architectures there are.
pub proof fn full_lists_are_reported(
    universe: Vec<String>,
    branch: CondBranch,
    archs: Set<Seq<char>>,
    span: Span,
)
    requires
        lists_just(branch.expr, archs),
    ensures
        says_at(ArchConditionDomainSimplify::on_branch(&universe, branch), span) <==> branch.data
            == span && (branch.kind == CondKind::IfArch || branch.kind == CondKind::ElifArch)
            && universe@.len() > 0 && forall|i: int|
            0 <= i < universe@.len() ==> archs.contains((#[trigger] universe@[i])@),
{
    let all = universe_set(universe);
    let texts = string_texts(universe@);
    listed_are_the_named(branch.expr, archs);
    lemma_says_given(
        (branch.kind is IfArch || branch.kind is ElifArch) && all != Set::<Seq<char>>::empty()
            && all.subset_of(archs),
        cover_report(all.len(), branch.data),
        span,
    );
    assert(all != Set::<Seq<char>>::empty() <==> universe@.len() > 0) by {
        if universe@.len() > 0 {
            assert(texts[0] == universe@[0]@);
            assert(all.contains(texts[0]));
        } else {
            assert(all =~= Set::<Seq<char>>::empty());
        }
    }
    assert(all.subset_of(archs) <==> forall|i: int|
        0 <= i < universe@.len() ==> archs.contains((#[trigger] universe@[i])@)) by {
        if all.subset_of(archs) {
            assert forall|i: int| 0 <= i < universe@.len() implies archs.contains(
                (#[trigger] universe@[i])@,
            ) by {
                assert(texts[i] == universe@[i]@);
                assert(texts.contains(texts[i]));
                assert(all.contains(texts[i]));
            }
        }
        if forall|i: int| 0 <= i < universe@.len() ==> archs.contains((#[trigger] universe@[i])@) {
            assert forall|a: Seq<char>| all.contains(a) implies archs.contains(a) by {
                let i = choose|i: int| 0 <= i < texts.len() && texts[i] == a;
                assert(universe@[i]@ == a);
            }
        }
    }
}

} // verus!
