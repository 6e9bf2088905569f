//! `%elif` branches that are never taken.
use vstd::prelude::*;

use crate::ast::{CondBranch, SpecFile, Span};
use crate::condition::{AtomTable, opt_dnf, opt_dnf_wf};
use crate::diagnostic::{Diagnostic, DiagnosticView, LintCategory, Severity, plain, reports};
use crate::dnf::{Dnf, Literal, dnf_holds, product, AtomId, contradictory, joins};
use crate::laws::{product_means_and, valuation, unsatisfiable_iff_empty};
use crate::lint::{Identity, Lint, LintMetadata, drain};
use crate::path_cond::{
    BranchAnalyser, Progress, Situation, analyse, analysed, both, conjoin, is_unsat, path_view,
};
use crate::path_laws::{
    every_diagnostic_is_about_a_branch, explained, faithful, leads, lemma_reached_push, reached,
};
use crate::rules::{given, say};
use crate::walk::StepView;
use crate::report_laws::{lemma_says_one, says_at};

verus! {

/// Whether an `%elif` is never taken: its condition contradicts what holds
/// around it and the failure of the branches before it.
pub open spec fn is_dead(s: Situation) -> bool {
    s.index >= 1 && match s.path {
        Some(_) => both(s.path, s.effect),
        None => s.effect,
    } == Some(Set::<Set<Literal>>::empty())
}

fn dead(effect: &Option<Dnf>, path: Option<&Dnf>) -> (r: bool)
    requires
        opt_dnf_wf(*effect),
        path matches Some(p) ==> p.wf(),
    ensures
        r == (match path_view(path) {
            Some(_) => both(path_view(path), opt_dnf(*effect)),
            None => opt_dnf(*effect),
        } == Some(Set::<Set<Literal>>::empty())),
{
    match effect {
        None => false,
        Some(e) => match path {
            None => is_unsat(e),
            Some(p) => match conjoin(p, e) {
                Some(d) => is_unsat(&d),
                None => false,
            },
        },
    }
}

/// RPM115 `dead-elif-after-parent`: `%elif` branch is unsatisfiable under the ancestor
/// path-condition combined with negations of preceding sibling branches; its body is dead.
#[derive(Debug)]
pub struct DeadElif {
    pub diagnostics: Vec<Diagnostic>,
    pub atoms: AtomTable,
}

impl DeadElif {
    pub fn new() -> (r: DeadElif)
        ensures
            r.pending() == Seq::<DiagnosticView>::empty(),
            r.atoms@ == Seq::<Seq<char>>::empty(),
    {
        let r = DeadElif { diagnostics: Vec::new(), atoms: AtomTable::new() };
        assert(r.pending() =~= Seq::<DiagnosticView>::empty());
        r
    }
}

impl Default for DeadElif {
    fn default() -> (r: DeadElif)
        ensures
            r.pending() == Seq::<DiagnosticView>::empty(),
            r.atoms@ == Seq::<Seq<char>>::empty(),
    {
        DeadElif::new()
    }
}

impl Lint for DeadElif {
    open spec fn identity() -> Identity {
        Identity {
            id: "RPM115"@,
            name: "dead-elif-after-parent"@,
            description: "`%elif` branch is unsatisfiable under the ancestor path-condition combined with negations of preceding sibling branches; its body is dead."@,
            default_severity: Severity::Warn,
            category: LintCategory::Correctness,
        }
    }

    open spec fn pending(&self) -> Seq<DiagnosticView> {
        reports(self.diagnostics@)
    }

    open spec fn after(&self, spec: SpecFile) -> Seq<DiagnosticView> {
        analysed::<DeadElif>(
            spec,
            Progress { keys: self.atoms@, out: self.pending() },
        ).out
    }

    open spec fn same_settings(&self, other: &Self) -> bool {
        true
    }

    fn metadata(&self) -> (r: LintMetadata) {
        LintMetadata {
            id: "RPM115",
            name: "dead-elif-after-parent",
            description: "`%elif` branch is unsatisfiable under the ancestor path-condition combined with negations of preceding sibling branches; its body is dead.",
            default_severity: Severity::Warn,
            category: LintCategory::Correctness,
        }
    }

    fn visit_spec(&mut self, spec: &SpecFile)
        ensures
            final(self).atoms@ == analysed::<DeadElif>(
                *spec,
                Progress { keys: old(self).atoms@, out: old(self).pending() },
            ).keys,
    {
        analyse::<DeadElif>(spec, &mut self.atoms, &mut self.diagnostics);
    }

    fn take_diagnostics(&mut self) -> (r: Vec<Diagnostic>)
        ensures
            final(self).atoms@ == old(self).atoms@,
    {
        drain(&mut self.diagnostics)
    }
}

impl BranchAnalyser for DeadElif {
    open spec fn verdict(s: Situation) -> Seq<DiagnosticView> {
        given(
            is_dead(s),
            plain("RPM115"@, Severity::Warn, "`%elif` branch cannot be satisfied under the path-condition and preceding sibling negations"@, s.branch.data).advise(
                "remove the dead `%elif` clause or rework the chain"@,
            ),
        )
    }

    fn on_branch(
        branch: &CondBranch,
        index: usize,
        effect: &Option<Dnf>,
        path: Option<&Dnf>,
        atoms: &AtomTable,
        out: &mut Vec<Diagnostic>,
    ) {
        if index >= 1 && dead(effect, path) {
            say(
                out,
                Diagnostic::new("RPM115", Severity::Warn, "`%elif` branch cannot be satisfied under the path-condition and preceding sibling negations", branch.data).with_advice(
                    "remove the dead `%elif` clause or rework the chain",
                ),
            );
        } else {
            assert(reports(out@) + Seq::<DiagnosticView>::empty() == reports(out@));
        }
    }
}

/// A branch that is reported can never be taken: whatever the atoms of the
/// conditions are, it is not reached. The report stands at an `%elif` of the
/// spec file.
pub proof fn dead_branch_is_never_reached(rule: DeadElif, spec: SpecFile, i: int)
    requires
        analysed::<DeadElif>(
            spec,
            Progress { keys: rule.atoms@, out: rule.pending() },
        ).keys.len() <= usize::MAX,
        rule.pending().len() <= i < rule.after(spec).len(),
    ensures
        exists|path: Seq<StepView>|
            #![trigger leads(spec.items@, path)]
            {
                &&& leads(spec.items@, path)
                &&& 1 <= path.last().arm < path.last().cond.branches@.len()
                &&& rule.after(spec)[i].primary_span
                    == path.last().cond.branches@[path.last().arm].data
                &&& forall|val: spec_fn(Seq<char>) -> bool|
                    !#[trigger] reached(path, val)
            },
{
    let p = Progress { keys: rule.atoms@, out: rule.pending() };
    let d = rule.after(spec)[i];
    every_diagnostic_is_about_a_branch::<DeadElif>(spec, p);
    assert(explained::<DeadElif>(spec.items@, Seq::empty(), d));
    let none = Seq::<StepView>::empty();
    let (path, s) = choose|path: Seq<StepView>, s: Situation|
        #![trigger leads(spec.items@, path), faithful(s, none + path)]
        leads(spec.items@, path) && faithful(s, none + path) && DeadElif::verdict(s).contains(d);
    assert(none + path =~= path);
    assert(is_dead(s));
    assert(path.drop_last().push(path.last()) =~= path);
    assert forall|val: spec_fn(Seq<char>) -> bool| !#[trigger] reached(path, val) by {
        let env = valuation(s.keys, val);
        let never = Set::<Set<Literal>>::empty();
        let e = s.effect.unwrap();
        lemma_reached_push(path.drop_last(), path.last(), val);
        match s.path {
            Some(outer) => {
                product_means_and(outer, e, env);
                assert(product(outer, e) == never);
                assert(!dnf_holds(never, env));
                assert(dnf_holds(outer, env) == reached(path.drop_last(), val));
                assert(dnf_holds(e, env) == reached(seq![path.last()], val));
            },
            None => {
                assert(e == never);
                assert(!dnf_holds(never, env));
                assert(dnf_holds(e, env) == reached(seq![path.last()], val));
            },
        }
    }
}

/// Exactly those branches after the first are reported that can never be
/// taken where they stand, as far as their conditions are known.
pub proof fn dead_branches_are_reported(
    s: Situation,
    p: Set<Set<Literal>>,
    e: Set<Set<Literal>>,
    span: Span,
)
    requires
        s.path == Some(p),
        s.effect == Some(e),
        product(p, e).len() <= 64,
    ensures
        says_at(DeadElif::verdict(s), span) <==> s.branch.data == span && s.index >= 1 && forall|
            env: spec_fn(AtomId) -> bool,
        | #[trigger]
            dnf_holds(p, env) ==> !dnf_holds(e, env),
{
    let d = product(p, e);
    assert forall|c: Set<Literal>| #[trigger] d.contains(c) implies !contradictory(c) by {
        assert(joins(p, e, c));
    }
    unsatisfiable_iff_empty(d);
    assert forall|env: spec_fn(AtomId) -> bool| #[trigger] dnf_holds(d, env) == (dnf_holds(p, env)
        && dnf_holds(e, env)) by {
        product_means_and(p, e, env);
    }
    let on = DeadElif::verdict(s);
    if is_dead(s) {
        lemma_says_one(on[0], span);
        assert(on =~= seq![on[0]]);
        assert forall|env: spec_fn(AtomId) -> bool| #[trigger] dnf_holds(p, env) implies !dnf_holds(
            e,
            env,
        ) by {
            assert(!dnf_holds(d, env));
        }
    }
    if forall|env: spec_fn(AtomId) -> bool| #[trigger] dnf_holds(p, env) ==> !dnf_holds(e, env) {
        assert forall|env: spec_fn(AtomId) -> bool| !#[trigger] dnf_holds(d, env) by {
            assert(dnf_holds(p, env) ==> !dnf_holds(e, env));
        }
        assert(d == Set::<Set<Literal>>::empty());
    }
}

} // verus!
