//! Lists of excluded architectures that are longer than what they leave.
use vstd::prelude::*;

use crate::ast::{CondBranch, CondExpr, CondKind, Span, SpecFile};
use crate::condition::{arch_names, literal_names, string_texts};
use crate::diagnostic::{Diagnostic, DiagnosticView, LintCategory, Severity, plain, reports};
use crate::lint::{Identity, Lint, LintMetadata, drain};
use crate::names::NameSet;
use crate::profile::Profile;
use crate::rules::{BranchRule, branch_findings, given, run_branches, say};
use crate::text::{count, decimal, trim};
use crate::report_laws::{lemma_says_given, says_at};

verus! {

/// The architectures to go by.
pub open spec fn universe_set(universe: Vec<String>) -> Set<Seq<char>> {
    string_texts(universe@).to_set()
}

/// The architectures that a branch lists.
pub open spec fn listed(c: CondExpr) -> Option<Set<Seq<char>>> {
    match c {
        CondExpr::ArchList(list) => match arch_names(list@) {
            Some(names) => Some(names.to_set()),
            None => None,
        },
        _ => None,
    }
}

pub fn listed_archs(c: &CondExpr) -> (r: Option<NameSet>)
    ensures
        r is Some <==> listed(*c) is Some,
        r matches Some(s) ==> s.wf() && listed(*c) == Some(s@),
{
    match c {
        CondExpr::ArchList(list) => match literal_names(list) {
            Some(names) => Some(NameSet::of(&names)),
            None => None,
        },
        _ => None,
    }
}

/// Whether the architectures left are fewer than those excluded, and all of
/// those excluded are known.
pub open spec fn shorter_complement(universe: Set<Seq<char>>, archs: Set<Seq<char>>) -> bool {
    let left = universe.difference(archs);
    &&& universe != Set::<Seq<char>>::empty()
    &&& archs.subset_of(universe)
    &&& left != Set::<Seq<char>>::empty()
    &&& left.len() < archs.len()
}

pub open spec fn complement_report(universe: Set<Seq<char>>, archs: Set<Seq<char>>, span: Span) -> DiagnosticView {
    plain("RPM441"@, Severity::Warn, "`%ifnarch` excludes "@ + decimal(archs.len()) + " arches; the complement against the profile universe is "@ + decimal(universe.difference(archs).len()) + " arches — flip to `%ifarch`"@, span).advise(
        "rewrite as `%ifarch` listing the complement"@,
    )
}

pub open spec fn complement_findings(universe: Set<Seq<char>>, branch: CondBranch) -> Seq<DiagnosticView> {
    match listed(branch.expr) {
        Some(archs) => given(
            branch.kind is IfNArch && shorter_complement(universe, archs),
            complement_report(universe, archs, branch.data),
        ),
        None => Seq::empty(),
    }
}

fn check_complement(universe: &NameSet, archs: &NameSet, span: Span, out: &mut Vec<Diagnostic>)
    requires
        archs.wf(),
    ensures
        reports(final(out)@) == reports(old(out)@) + given(
            shorter_complement(universe@, archs@),
            complement_report(universe@, archs@, span),
        ),
{
    let left = universe.difference(archs);
    let n: usize = archs.len();
    let k: usize = left.len();
    if !universe.is_empty() && archs.is_subset(universe) && !left.is_empty() && k < n {
        let mut message = String::from_str("`%ifnarch` excludes ");
        message.append(count(n).as_str());
        message.append(" arches; the complement against the profile universe is ");
        message.append(count(k).as_str());
        message.append(" arches — flip to `%ifarch`");
        say(
            out,
            Diagnostic::new("RPM441", Severity::Warn, message.as_str(), span).with_advice(
                "rewrite as `%ifarch` listing the complement",
            ),
        );
    } else {
        assert(reports(out@) + Seq::<DiagnosticView>::empty() == reports(out@));
    }
}

/// RPM441 `arch-complement-shorter`: `%ifnarch` lists more arches than the complement
/// against the profile's target universe — flip to `%ifarch` with the complement set.
#[derive(Debug)]
pub struct ArchComplementShorter {
    pub diagnostics: Vec<Diagnostic>,
    pub universe: Vec<String>,
}

impl ArchComplementShorter {
    pub fn new() -> (r: ArchComplementShorter)
        ensures
            r.pending() == Seq::<DiagnosticView>::empty(),
            r.universe@.len() == 0,
    {
        let r = ArchComplementShorter { diagnostics: Vec::new(), universe: Vec::new() };
        assert(r.pending() =~= Seq::<DiagnosticView>::empty());
        r
    }
}

impl Default for ArchComplementShorter {
    fn default() -> (r: ArchComplementShorter)
        ensures
            r.pending() == Seq::<DiagnosticView>::empty(),
            r.universe@.len() == 0,
    {
        ArchComplementShorter::new()
    }
}

impl Lint for ArchComplementShorter {
    open spec fn identity() -> Identity {
        Identity {
            id: "RPM441"@,
            name: "arch-complement-shorter"@,
            description: "`%ifnarch` lists more arches than the complement against the profile's target universe — flip to `%ifarch` with the complement set."@,
            default_severity: Severity::Warn,
            category: LintCategory::Style,
        }
    }

    open spec fn pending(&self) -> Seq<DiagnosticView> {
        reports(self.diagnostics@)
    }

    open spec fn after(&self, spec: SpecFile) -> Seq<DiagnosticView> {
        self.pending() + branch_findings::<ArchComplementShorter>(&self.universe, spec)
    }

    open spec fn same_settings(&self, other: &Self) -> bool {
        self.universe == other.universe
    }

    fn metadata(&self) -> (r: LintMetadata) {
        LintMetadata {
            id: "RPM441",
            name: "arch-complement-shorter",
            description: "`%ifnarch` lists more arches than the complement against the profile's target universe — flip to `%ifarch` with the complement set.",
            default_severity: Severity::Warn,
            category: LintCategory::Style,
        }
    }

    fn visit_spec(&mut self, spec: &SpecFile) {
        run_branches::<ArchComplementShorter>(&self.universe, spec, &mut self.diagnostics);
    }

    fn take_diagnostics(&mut self) -> (r: Vec<Diagnostic>) {
        drain(&mut self.diagnostics)
    }
}

impl BranchRule for ArchComplementShorter {
    type Settings = Vec<String>;

    open spec fn on_branch(settings: &Vec<String>, branch: CondBranch) -> Seq<DiagnosticView> {
        complement_findings(universe_set(*settings), branch)
    }

    fn check_branch(settings: &Vec<String>, branch: &CondBranch, out: &mut Vec<Diagnostic>) {
        match branch.kind {
            CondKind::IfNArch => {
                match listed_archs(&branch.expr) {
                    Some(archs) => {
                        let universe = NameSet::of(settings);
                        check_complement(&universe, &archs, branch.data, out);
                        return ;
                    },
                    None => {},
                }
            },
            _ => {},
        }
        assert(reports(out@) + Seq::<DiagnosticView>::empty() == reports(out@));
    }
}

impl ArchComplementShorter {
    /// Takes the architectures to go by from the profile.
    pub fn set_profile(&mut self, profile: &Profile)
        ensures
            universe_set(final(self).universe) == (match profile.arch_universe {
                Some(names) => string_texts(names@).to_set(),
                None => Set::<Seq<char>>::empty(),
            }),
            final(self).pending() == old(self).pending(),
    {
        self.universe = match &profile.arch_universe {
            Some(names) => NameSet::of(names).names,
            None => {
                let none: Vec<String> = Vec::new();
                assert(string_texts(none@).to_set() =~= Set::<Seq<char>>::empty());
                none
            },
        };
    }
}

/// Flipping a reported list changes nothing: an architecture of the universe
/// is left out by the list exactly if the complement lists it. The complement
/// is the shorter of the two.
pub proof fn complement_says_the_same(
    universe: Set<Seq<char>>,
    branch: CondBranch,
    arch: Seq<char>,
)
    requires
        complement_findings(universe, branch).len() > 0,
        universe.contains(arch),
    ensures
        listed(branch.expr) matches Some(archs) && universe.difference(archs).len() < archs.len()
            && (!archs.contains(arch) <==> universe.difference(archs).contains(arch)),
{
}

/// Whether every name of a list is literal and they name the architectures
/// of `archs`, no more and no less.
pub open spec fn lists_just(c: CondExpr, archs: Set<Seq<char>>) -> bool {
    &&& c matches CondExpr::ArchList(list) && forall|i: int|
        0 <= i < list@.len() ==> (#[trigger] list@[i]).literal() is Some
    &&& c matches CondExpr::ArchList(list) ==> forall|a: Seq<char>| #[trigger]
        archs.contains(a) <==> exists|i: int|
            0 <= i < list@.len() && trim((#[trigger] list@[i]).literal().unwrap()) == a
}

/// The architectures of a branch are those that its list names.
pub proof fn listed_are_the_named(c: CondExpr, archs: Set<Seq<char>>)
    ensures
        listed(c) == Some(archs) <==> lists_just(c, archs),
{
    match c {
        CondExpr::ArchList(list) => match arch_names(list@) {
            Some(names) => {
                let all = names.to_set();
                assert forall|a: Seq<char>| #[trigger] all.contains(a) <==> exists|i: int|
                    0 <= i < list@.len() && trim((#[trigger] list@[i]).literal().unwrap()) == a by {
                    if all.contains(a) {
                        assert(names.contains(a));
                        let i = choose|i: int| 0 <= i < names.len() && names[i] == a;
                        assert(trim(list@[i].literal().unwrap()) == a);
                    }
                    if exists|i: int|
                        0 <= i < list@.len() && trim((#[trigger] list@[i]).literal().unwrap()) == a {
                        let i = choose|i: int|
                            0 <= i < list@.len() && trim((#[trigger] list@[i]).literal().unwrap())
                                == a;
                        assert(names[i] == a);
                        assert(names.contains(a));
                    }
                }
                if lists_just(c, archs) {
                    assert forall|a: Seq<char>| #[trigger] archs.contains(a) <==> all.contains(a) by {}
                    assert(archs =~= all);
                }
            },
            None => {},
        },
        _ => {},
    }
}

/// Exactly those `%ifnarch` branches are reported that list known
/// architectures only, and more of them than they leave, but not all.
pub proof fn longer_exclusions_are_reported(
    universe: Vec<String>,
    branch: CondBranch,
    archs: Set<Seq<char>>,
    span: Span,
)
    requires
        lists_just(branch.expr, archs),
    ensures
        says_at(ArchComplementShorter::on_branch(&universe, branch), span) <==> ({
            let all = string_texts(universe@).to_set();
            &&& branch.data == span
            &&& branch.kind == CondKind::IfNArch
            &&& forall|a: Seq<char>| archs.contains(a) ==> #[trigger] all.contains(a)
            &&& exists|a: Seq<char>| #[trigger] all.contains(a) && !archs.contains(a)
            &&& all.difference(archs).len() < archs.len()
        }),
{
    let all = string_texts(universe@).to_set();
    let left = all.difference(archs);
    listed_are_the_named(branch.expr, archs);
    lemma_says_given(
        branch.kind is IfNArch && shorter_complement(all, archs),
        complement_report(all, archs, branch.data),
        span,
    );
    if left != Set::<Seq<char>>::empty() {
        assert(exists|a: Seq<char>| left.contains(a)) by {
            if forall|a: Seq<char>| !left.contains(a) {
                assert(left =~= Set::<Seq<char>>::empty());
            }
        }
        let a = choose|a: Seq<char>| left.contains(a);
        assert(all.contains(a) && !archs.contains(a));
    }
    if exists|a: Seq<char>| #[trigger] all.contains(a) && !archs.contains(a) {
        let a = choose|a: Seq<char>| #[trigger] all.contains(a) && !archs.contains(a);
        assert(left.contains(a));
    }
    if forall|a: Seq<char>| archs.contains(a) ==> #[trigger] all.contains(a) {
        assert(archs.subset_of(all));
    }
}

} // verus!
