//! Branches that are always taken where they stand.
use vstd::prelude::*;

use crate::ast::{CondBranch, SpecFile, Span};
use crate::condition::{AtomTable, opt_dnf};
use crate::diagnostic::{Diagnostic, DiagnosticView, LintCategory, Severity, plain, reports};
use crate::dnf::{Dnf, Literal, MAX_ATOMS_FOR_TAUTOLOGY, dnf_holds, entails, path_implies, AtomId};
use crate::laws::{truth_table_decides_implication, valuation, within};
use crate::lint::{Identity, Lint, LintMetadata, drain};
use crate::path_cond::{BranchAnalyser, Progress, Situation, analyse, analysed, path_view};
use crate::path_laws::{
    every_diagnostic_is_about_a_branch, explained, faithful, leads, lemma_reached_push, reached,
    taken,
};
use crate::rules::{given, say};
use crate::walk::StepView;
use crate::report_laws::{lemma_says_one, says_at};

verus! {

/// Whether what holds around a branch implies that it is taken, as far as
/// assignments are enumerated. Nothing is implied where nothing is known, or
/// where the branch cannot be reached.
pub open spec fn is_implied(s: Situation) -> bool {
    match (s.path, s.effect) {
        (Some(p), Some(e)) => p != Set::<Set<Literal>>::empty() && s.keys.len()
            <= MAX_ATOMS_FOR_TAUTOLOGY && entails(p, e, s.keys.len()),
        _ => false,
    }
}

fn implied(effect: &Option<Dnf>, path: Option<&Dnf>, atom_count: usize) -> (r: bool)
    ensures
        r == match (path_view(path), opt_dnf(*effect)) {
            (Some(p), Some(e)) => p != Set::<Set<Literal>>::empty() && atom_count
                <= MAX_ATOMS_FOR_TAUTOLOGY && entails(p, e, atom_count as nat),
            _ => false,
        },
{
    match (path, effect) {
        (Some(p), Some(e)) => {
            if p.is_empty() {
                return false;
            }
            match path_implies(p, e, atom_count) {
                Some(b) => b,
                None => false,
            }
        },
        _ => false,
    }
}

/// RPM114 `always-true-branch-under-parent`: `%if` branch is implied by the enclosing
/// path-condition; the test is redundant and the body always runs.
#[derive(Debug)]
pub struct AlwaysTrueBranch {
    pub diagnostics: Vec<Diagnostic>,
    pub atoms: AtomTable,
}

impl AlwaysTrueBranch {
    pub fn new() -> (r: AlwaysTrueBranch)
        ensures
            r.pending() == Seq::<DiagnosticView>::empty(),
            r.atoms@ == Seq::<Seq<char>>::empty(),
    {
        let r = AlwaysTrueBranch { diagnostics: Vec::new(), atoms: AtomTable::new() };
        assert(r.pending() =~= Seq::<DiagnosticView>::empty());
        r
    }
}

impl Default for AlwaysTrueBranch {
    fn default() -> (r: AlwaysTrueBranch)
        ensures
            r.pending() == Seq::<DiagnosticView>::empty(),
            r.atoms@ == Seq::<Seq<char>>::empty(),
    {
        AlwaysTrueBranch::new()
    }
}

impl Lint for AlwaysTrueBranch {
    open spec fn identity() -> Identity {
        Identity {
            id: "RPM114"@,
            name: "always-true-branch-under-parent"@,
            description: "`%if` branch is implied by the enclosing path-condition; the test is redundant and the body always runs."@,
            default_severity: Severity::Warn,
            category: LintCategory::Style,
        }
    }

    open spec fn pending(&self) -> Seq<DiagnosticView> {
        reports(self.diagnostics@)
    }

    open spec fn after(&self, spec: SpecFile) -> Seq<DiagnosticView> {
        analysed::<AlwaysTrueBranch>(
            spec,
            Progress { keys: self.atoms@, out: self.pending() },
        ).out
    }

    open spec fn same_settings(&self, other: &Self) -> bool {
        true
    }

    fn metadata(&self) -> (r: LintMetadata) {
        LintMetadata {
            id: "RPM114",
            name: "always-true-branch-under-parent",
            description: "`%if` branch is implied by the enclosing path-condition; the test is redundant and the body always runs.",
            default_severity: Severity::Warn,
            category: LintCategory::Style,
        }
    }

    fn visit_spec(&mut self, spec: &SpecFile)
        ensures
            final(self).atoms@ == analysed::<AlwaysTrueBranch>(
                *spec,
                Progress { keys: old(self).atoms@, out: old(self).pending() },
            ).keys,
    {
        analyse::<AlwaysTrueBranch>(spec, &mut self.atoms, &mut self.diagnostics);
    }

    fn take_diagnostics(&mut self) -> (r: Vec<Diagnostic>)
        ensures
            final(self).atoms@ == old(self).atoms@,
    {
        drain(&mut self.diagnostics)
    }
}

impl BranchAnalyser for AlwaysTrueBranch {
    open spec fn verdict(s: Situation) -> Seq<DiagnosticView> {
        given(
            is_implied(s),
            plain("RPM114"@, Severity::Warn, "`%if` condition is implied by the enclosing path; the test is redundant"@, s.branch.data).advise(
                "unfold the inner `%if` — its body always runs under the parent"@,
            ),
        )
    }

    fn on_branch(
        branch: &CondBranch,
        index: usize,
        effect: &Option<Dnf>,
        path: Option<&Dnf>,
        atoms: &AtomTable,
        out: &mut Vec<Diagnostic>,
    ) {
        if implied(effect, path, atoms.len()) {
            say(
                out,
                Diagnostic::new("RPM114", Severity::Warn, "`%if` condition is implied by the enclosing path; the test is redundant", branch.data).with_advice(
                    "unfold the inner `%if` — its body always runs under the parent",
                ),
            );
        } else {
            assert(reports(out@) + Seq::<DiagnosticView>::empty() == reports(out@));
        }
    }
}

/// A branch that is reported is always taken where the branches around it
/// are: its test is redundant.
pub proof fn implied_branch_is_always_taken(rule: AlwaysTrueBranch, spec: SpecFile, i: int)
    requires
        analysed::<AlwaysTrueBranch>(
            spec,
            Progress { keys: rule.atoms@, out: rule.pending() },
        ).keys.len() <= usize::MAX,
        rule.pending().len() <= i < rule.after(spec).len(),
    ensures
        exists|path: Seq<StepView>|
            #![trigger leads(spec.items@, path)]
            {
                &&& leads(spec.items@, path)
                &&& path.len() > 1
                &&& 0 <= path.last().arm < path.last().cond.branches@.len()
                &&& rule.after(spec)[i].primary_span
                    == path.last().cond.branches@[path.last().arm].data
                &&& forall|val: spec_fn(Seq<char>) -> bool|
                    #[trigger] reached(path.drop_last(), val) ==> taken(path.last(), val)
            },
{
    let p = Progress { keys: rule.atoms@, out: rule.pending() };
    let d = rule.after(spec)[i];
    every_diagnostic_is_about_a_branch::<AlwaysTrueBranch>(spec, p);
    assert(explained::<AlwaysTrueBranch>(spec.items@, Seq::empty(), d));
    let none = Seq::<StepView>::empty();
    let (path, s) = choose|path: Seq<StepView>, s: Situation|
        #![trigger leads(spec.items@, path), faithful(s, none + path)]
        leads(spec.items@, path) && faithful(s, none + path) && AlwaysTrueBranch::verdict(
            s,
        ).contains(d);
    assert(none + path =~= path);
    assert(is_implied(s));
    let outer = s.path.unwrap();
    let e = s.effect.unwrap();
    truth_table_decides_implication(outer, e, s.keys.len());
    assert forall|val: spec_fn(Seq<char>) -> bool| #[trigger] reached(
        path.drop_last(),
        val,
    ) implies taken(path.last(), val) by {
        let env = valuation(s.keys, val);
        lemma_reached_push(path.drop_last(), path.last(), val);
        assert(dnf_holds(outer, env) == reached(path.drop_last(), val));
        assert(dnf_holds(e, env) == reached(seq![path.last()], val));
    }
}

/// Exactly those branches are reported that can be reached and are taken
/// whenever they are, as far as their conditions are known and hold at most
/// eight atoms.
pub proof fn implied_branches_are_reported(
    s: Situation,
    p: Set<Set<Literal>>,
    e: Set<Set<Literal>>,
    span: Span,
)
    requires
        s.path == Some(p),
        s.effect == Some(e),
        s.keys.len() <= 8,
        forall|c: Set<Literal>| #[trigger] p.contains(c) ==> within(c, s.keys.len()),
        forall|c: Set<Literal>| #[trigger] e.contains(c) ==> within(c, s.keys.len()),
    ensures
        says_at(AlwaysTrueBranch::verdict(s), span) <==> s.branch.data == span && p != Set::<
            Set<Literal>,
        >::empty() && forall|env: spec_fn(AtomId) -> bool| #[trigger]
            dnf_holds(p, env) ==> dnf_holds(e, env),
{
    truth_table_decides_implication(p, e, s.keys.len());
    let on = AlwaysTrueBranch::verdict(s);
    if is_implied(s) {
        lemma_says_one(on[0], span);
        assert(on =~= seq![on[0]]);
    }
}

} // verus!
