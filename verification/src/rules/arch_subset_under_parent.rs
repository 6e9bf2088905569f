//! Lists of architectures inside shorter ones.
use vstd::prelude::*;

use crate::ast::{CondBranch, CondKind, Span, SpecFile};
use crate::diagnostic::{Diagnostic, DiagnosticView, LintCategory, Severity, plain, reports};
use crate::lint::{Identity, Lint, LintMetadata, drain};
use crate::names::NameSet;
use crate::rules::{given, say};
use crate::rules::arch_complement_shorter::{
    listed, listed_archs, listed_are_the_named, lists_just,
};
use crate::walk::{Arm, ArmView, StepView, arm_views, arms, flat, lemma_flat_step, spec_arms, steps};
use crate::report_laws::{lemma_says_flat, lemma_says_given, says_at};

verus! {

/// The architectures that a branch asks for, if it asks for architectures.
pub open spec fn asked(branch: CondBranch) -> Option<Set<Seq<char>>> {
    if branch.kind is IfArch || branch.kind is ElifArch {
        listed(branch.expr)
    } else {
        None
    }
}

/// The architectures that are known where a step leads. An `%else` tells
/// none.
pub open spec fn known(step: StepView) -> Option<Set<Seq<char>>> {
    if 0 <= step.arm < step.cond.branches@.len() {
        asked(step.cond.branches@[step.arm])
    } else {
        None
    }
}

/// Whether a branch asks for at least the architectures that one of the
/// branches around it asks for.
pub open spec fn asks_no_less(arm: ArmView) -> bool {
    asked(arm.branch) matches Some(inner) && exists|i: int|
        0 <= i < arm.path.len() && (known(#[trigger] arm.path[i]) matches Some(outer)
            && outer.subset_of(inner))
}

pub open spec fn superset_report(span: Span) -> DiagnosticView {
    plain("RPM442"@, Severity::Warn, "inner `%ifarch` list is a superset of an enclosing `%ifarch` list — the inner test always passes"@, span).advise(
        "unfold the inner `%ifarch` block; the parent already guarantees the arch set"@,
    )
}

pub open spec fn superset_findings(spec: SpecFile) -> Seq<DiagnosticView> {
    flat(spec_arms(spec), |a: ArmView| given(asks_no_less(a), superset_report(a.branch.data)))
}

fn asked_archs(branch: &CondBranch) -> (r: Option<NameSet>)
    ensures
        r is Some <==> asked(*branch) is Some,
        r matches Some(s) ==> s.wf() && asked(*branch) == Some(s@),
{
    match branch.kind {
        CondKind::IfArch | CondKind::ElifArch => listed_archs(&branch.expr),
        _ => None,
    }
}

fn always_passes(arm: &Arm) -> (r: bool)
    ensures
        r == asks_no_less(arm@),
{
    let inner = match asked_archs(arm.branch) {
        Some(s) => s,
        None => {
            return false;
        },
    };
    let ghost path = steps(arm.path@);
    let mut i: usize = 0;
    while i < arm.path.len()
        invariant
            i <= arm.path.len(),
            path == steps(arm.path@),
            asked(arm@.branch) == Some(inner@),
            forall|j: int|
                0 <= j < i ==> !(known(#[trigger] path[j]) matches Some(outer) && outer.subset_of(
                    inner@,
                )),
        decreases arm.path.len() - i,
    {
        let step = arm.path[i];
        assert(path[i as int] == step@);
        if step.arm < step.cond.branches.len() {
            match asked_archs(&step.cond.branches[step.arm]) {
                Some(outer) => {
                    if outer.is_subset(&inner) {
                        assert(known(arm@.path[i as int]) == Some(outer@));
                        return true;
                    }
                },
                None => {},
            }
        }
        i = i + 1;
    }
    false
}

/// RPM442 `arch-subset-under-parent`: Inner `%ifarch` block lists every arch already
/// guaranteed by an enclosing `%ifarch` — the inner test is always true.
#[derive(Debug)]
pub struct ArchSubsetUnderParent {
    pub diagnostics: Vec<Diagnostic>,
}

impl ArchSubsetUnderParent {
    pub fn new() -> (r: ArchSubsetUnderParent)
        ensures
            r.pending() == Seq::<DiagnosticView>::empty(),
    {
        let r = ArchSubsetUnderParent { diagnostics: Vec::new() };
        assert(r.pending() =~= Seq::<DiagnosticView>::empty());
        r
    }
}

impl Default for ArchSubsetUnderParent {
    fn default() -> (r: ArchSubsetUnderParent)
        ensures
            r.pending() == Seq::<DiagnosticView>::empty(),
    {
        ArchSubsetUnderParent::new()
    }
}

impl Lint for ArchSubsetUnderParent {
    open spec fn identity() -> Identity {
        Identity {
            id: "RPM442"@,
            name: "arch-subset-under-parent"@,
            description: "Inner `%ifarch` block lists every arch already guaranteed by an enclosing `%ifarch` — the inner test is always true."@,
            default_severity: Severity::Warn,
            category: LintCategory::Style,
        }
    }

    open spec fn pending(&self) -> Seq<DiagnosticView> {
        reports(self.diagnostics@)
    }

    open spec fn after(&self, spec: SpecFile) -> Seq<DiagnosticView> {
        self.pending() + superset_findings(spec)
    }

    open spec fn same_settings(&self, other: &Self) -> bool {
        true
    }

    fn metadata(&self) -> (r: LintMetadata) {
        LintMetadata {
            id: "RPM442",
            name: "arch-subset-under-parent",
            description: "Inner `%ifarch` block lists every arch already guaranteed by an enclosing `%ifarch` — the inner test is always true.",
            default_severity: Severity::Warn,
            category: LintCategory::Style,
        }
    }

    fn visit_spec(&mut self, spec: &SpecFile) {
        let all = arms(spec);
        let ghost views = arm_views(all@);
        let ghost f = |a: ArmView| given(asks_no_less(a), superset_report(a.branch.data));
        let ghost start = self.pending();
        let mut i: usize = 0;
        assert(start + flat(views.take(0), f) == start);
        while i < all.len()
            invariant
                i <= all.len(),
                views == arm_views(all@),
                f == (|a: ArmView| given(asks_no_less(a), superset_report(a.branch.data))),
                self.pending() == start + flat(views.take(i as int), f),
            decreases all.len() - i,
        {
            let ghost so_far = flat(views.take(i as int), f);
            assert(views[i as int] == all@[i as int]@);
            if always_passes(&all[i]) {
                say(
                    &mut self.diagnostics,
                    Diagnostic::new("RPM442", Severity::Warn, "inner `%ifarch` list is a superset of an enclosing `%ifarch` list — the inner test always passes", all[i].branch.data).with_advice(
                        "unfold the inner `%ifarch` block; the parent already guarantees the arch set",
                    ),
                );
                assert(start + so_far + f(views[i as int]) == start + (so_far + f(views[i as int])));
            } else {
                assert(so_far + Seq::<DiagnosticView>::empty() == so_far);
            }
            proof {
                lemma_flat_step(views, f, i as int);
            }
            i = i + 1;
        }
        assert(views.take(i as int) == views);
    }

    fn take_diagnostics(&mut self) -> (r: Vec<Diagnostic>) {
        drain(&mut self.diagnostics)
    }
}

/// A branch that is reported always passes: on every architecture that one of
/// the branches around it asks for, it asks for that one too.
pub proof fn reported_test_always_passes(arm: ArmView)
    requires
        asks_no_less(arm),
    ensures
        asked(arm.branch) matches Some(inner) && exists|i: int|
            0 <= i < arm.path.len() && (known(#[trigger] arm.path[i]) matches Some(outer) && forall|
                arch: Seq<char>,
            | #[trigger]
                outer.contains(arch) ==> inner.contains(arch)),
{
}

/// Whether a branch asks for one of the architectures of `archs`.
pub open spec fn asks_for(branch: CondBranch, archs: Set<Seq<char>>) -> bool {
    (branch.kind == CondKind::IfArch || branch.kind == CondKind::ElifArch) && lists_just(
        branch.expr,
        archs,
    )
}

/// Whether a step leads into a branch that asks for architectures all of
/// which are in `archs`.
pub open spec fn narrows_to(step: StepView, archs: Set<Seq<char>>) -> bool {
    0 <= step.arm < step.cond.branches@.len() && exists|outer: Set<Seq<char>>| #[trigger]
        asks_for(step.cond.branches@[step.arm], outer) && forall|a: Seq<char>|
            outer.contains(a) ==> #[trigger] archs.contains(a)
}

/// Exactly those branches are reported that ask for all the architectures, or
/// more, that a branch around them asks for.
pub proof fn wider_lists_are_reported(spec: SpecFile, span: Span)
    ensures
        says_at(superset_findings(spec), span) <==> exists|i: int, archs: Set<Seq<char>>|
            0 <= i < spec_arms(spec).len() && #[trigger] asks_for(spec_arms(spec)[i].branch, archs)
                && spec_arms(spec)[i].branch.data == span && is_narrowed(
                spec_arms(spec)[i].path,
                archs,
            ),
{
    let all = spec_arms(spec);
    let f = |a: ArmView| given(asks_no_less(a), superset_report(a.branch.data));
    lemma_says_flat(all, f, span);
    assert forall|a: ArmView| #[trigger] says_at(f(a), span) <==> a.branch.data == span && exists|
        archs: Set<Seq<char>>,
    | #[trigger]
        asks_for(a.branch, archs) && is_narrowed(a.path, archs) by {
        lemma_says_given(asks_no_less(a), superset_report(a.branch.data), span);
        lemma_no_less(a);
    }
    if says_at(superset_findings(spec), span) {
        let i = choose|i: int| 0 <= i < all.len() && says_at(f(#[trigger] all[i]), span);
        let archs = choose|archs: Set<Seq<char>>| #[trigger]
            asks_for(all[i].branch, archs) && is_narrowed(all[i].path, archs);
        assert(asks_for(spec_arms(spec)[i].branch, archs));
    }
    if exists|i: int, archs: Set<Seq<char>>|
        0 <= i < all.len() && #[trigger] asks_for(all[i].branch, archs) && all[i].branch.data == span
            && is_narrowed(all[i].path, archs) {
        let (i, archs) = choose|i: int, archs: Set<Seq<char>>|
            0 <= i < all.len() && #[trigger] asks_for(all[i].branch, archs) && all[i].branch.data
                == span && is_narrowed(all[i].path, archs);
        assert(says_at(f(all[i]), span));
    }
}

/// Whether a step of a path narrows the architectures down to some of
/// `archs`.
pub open spec fn is_narrowed(path: Seq<StepView>, archs: Set<Seq<char>>) -> bool {
    exists|k: int| 0 <= k < path.len() && narrows_to(#[trigger] path[k], archs)
}

proof fn lemma_asked(branch: CondBranch, archs: Set<Seq<char>>)
    ensures
        asked(branch) == Some(archs) <==> asks_for(branch, archs),
{
    listed_are_the_named(branch.expr, archs);
}

proof fn lemma_no_less(a: ArmView)
    ensures
        asks_no_less(a) <==> exists|archs: Set<Seq<char>>| #[trigger]
            asks_for(a.branch, archs) && is_narrowed(a.path, archs),
{
    assert forall|b: CondBranch, archs: Set<Seq<char>>| #[trigger] asks_for(b, archs) <==> asked(b)
        == Some(archs) by {
        lemma_asked(b, archs);
    }
    if asks_no_less(a) {
        let inner = asked(a.branch).unwrap();
        let k = choose|k: int|
            0 <= k < a.path.len() && (known(#[trigger] a.path[k]) matches Some(outer)
                && outer.subset_of(inner));
        let step = a.path[k];
        let outer = known(step).unwrap();
        assert(asks_for(step.cond.branches@[step.arm], outer));
        assert(narrows_to(step, inner));
        assert(is_narrowed(a.path, inner));
        assert(asks_for(a.branch, inner));
    }
    if exists|archs: Set<Seq<char>>| #[trigger]
        asks_for(a.branch, archs) && is_narrowed(a.path, archs) {
        let archs = choose|archs: Set<Seq<char>>| #[trigger]
            asks_for(a.branch, archs) && is_narrowed(a.path, archs);
        let k = choose|k: int| 0 <= k < a.path.len() && narrows_to(#[trigger] a.path[k], archs);
        let step = a.path[k];
        let outer = choose|outer: Set<Seq<char>>| #[trigger]
            asks_for(step.cond.branches@[step.arm], outer) && forall|x: Seq<char>|
                outer.contains(x) ==> #[trigger] archs.contains(x);
        assert(known(step) == Some(outer));
        assert(outer.subset_of(archs));
    }
}

} // verus!
