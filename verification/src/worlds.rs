//! What conditions mean in a build, and that what the rules conclude of them
//! holds in every one. A build decides the comparisons, macros and names of an
//! expression, the architecture and the operating system.
use vstd::prelude::*;

use crate::ast::{CondBranch, CondExpr, CondKind, ExprAst, SpecFile, Text};
use crate::condition::{arch_key, arch_names, canonical, cond_dnf};
use crate::dnf::MAX_ATOMS_FOR_TAUTOLOGY;
use crate::expr::{shape, Shape};
use crate::expr_laws::{lemma_same_text, sense};
use crate::key_laws::{keys_tell_expressions_apart, list_keys_are_their_own, readable};
use crate::laws::{asked_truth, cond_truth, truth};
use crate::lint::Lint;
use crate::path_cond::{analysed, Progress};
use crate::path_laws::{branch_truth, leads, none_true, reached, taken};
use crate::rules::adjacent_mutex_ifs::{conjunction, reported_conditions_exclude_each_other};
use crate::rules::always_true_branch::{implied_branch_is_always_taken, AlwaysTrueBranch};
use crate::rules::boolean_dnf::{
    analysis, contradiction_report_is_exact, tautology_report_is_exact, BooleanContradictionByCubes,
    BooleanTautologyByCubes,
};
use crate::rules::dead_elif::{dead_branch_is_never_reached, DeadElif};
use crate::rules::BranchRule;
use crate::text::trim;
use crate::walk::StepView;

verus! {

/// A build.
pub struct World {
    /// Which atoms of expressions are true.
    pub atoms: spec_fn(Shape) -> bool,
    /// Which names are those of the architecture.
    pub arch: spec_fn(Seq<char>) -> bool,
    /// Which names are those of the operating system.
    pub os: spec_fn(Seq<char>) -> bool,
}

/// Whether one of the listed names is one of `right`.
pub open spec fn one_of(list: Seq<Text>, right: spec_fn(Seq<char>) -> bool) -> bool {
    exists|i: int|
        0 <= i < list.len() && ((#[trigger] list[i]).literal() matches Some(s) && right(trim(s)))
}

/// Whether a branch is entered in a build where its turn comes.
pub open spec fn asks(b: CondBranch, w: World) -> bool {
    match b.expr {
        CondExpr::Raw(_) => false,
        CondExpr::Parsed(e) => sense(*e, w.atoms) != (b.kind == CondKind::IfNArch || b.kind
            == CondKind::IfNOs),
        CondExpr::ArchList(list) => match b.kind {
            CondKind::IfNArch => !one_of(list@, w.arch),
            CondKind::IfOs | CondKind::ElifOs => one_of(list@, w.os),
            CondKind::IfNOs => !one_of(list@, w.os),
            _ => one_of(list@, w.arch),
        },
    }
}

/// Whether a step of the way to an item is taken in a build: into a branch
/// whose condition holds where that of no branch before it does, or into the
/// `%else` where that of none does.
pub open spec fn entered(s: StepView, w: World) -> bool {
    &&& 0 <= s.arm < s.cond.branches@.len() ==> asks(s.cond.branches@[s.arm], w)
    &&& forall|j: int|
        0 <= j < s.arm && j < s.cond.branches@.len() ==> !asks(#[trigger] s.cond.branches@[j], w)
}

/// Whether an item at the end of `path` is part of a build.
pub open spec fn is_built(path: Seq<StepView>, w: World) -> bool {
    forall|i: int| 0 <= i < path.len() ==> entered(#[trigger] path[i], w)
}

/// Whether what a branch asks can be read.
pub open spec fn is_clear(b: CondBranch) -> bool {
    match b.expr {
        CondExpr::Raw(_) => false,
        CondExpr::Parsed(e) => readable(*e),
        CondExpr::ArchList(list) => forall|i: int|
            0 <= i < list@.len() ==> (#[trigger] list@[i]).literal() is Some,
    }
}

/// Whether what all branches on the way ask can be read.
pub open spec fn is_clear_path(path: Seq<StepView>) -> bool {
    forall|i: int|
        0 <= i < path.len() ==> is_clear_step(#[trigger] path[i])
}

pub open spec fn is_clear_step(s: StepView) -> bool {
    &&& 0 <= s.arm <= s.cond.branches@.len()
    &&& forall|j: int| 0 <= j < s.cond.branches@.len() ==> is_clear(#[trigger] s.cond.branches@[j])
}

/// The keys of the atoms that are true in a build.
pub open spec fn keyed(w: World) -> spec_fn(Seq<char>) -> bool {
    |k: Seq<char>|
        if exists|e: ExprAst| readable(e) && #[trigger] canonical(e) == Some(k) {
            (w.atoms)(shape(choose|e: ExprAst| readable(e) && #[trigger] canonical(e) == Some(k)))
        } else if exists|n: Seq<char>| k == #[trigger] arch_key(true, n) {
            (w.os)(choose|n: Seq<char>| k == #[trigger] arch_key(true, n))
        } else {
            (w.arch)(choose|n: Seq<char>| k == #[trigger] arch_key(false, n))
        }
}

/// A condition holds in a build exactly where it holds by the keys.
pub proof fn keys_mean_expressions(e: ExprAst, w: World)
    requires
        readable(e),
    ensures
        truth(e, keyed(w)) == sense(e, w.atoms),
    decreases e,
{
    match e {
        ExprAst::Paren { inner, .. } => keys_mean_expressions(*inner, w),
        ExprAst::Not { inner, .. } => keys_mean_expressions(*inner, w),
        ExprAst::Binary { kind, lhs, rhs, .. } if !kind.compares() => {
            keys_mean_expressions(*lhs, w);
            keys_mean_expressions(*rhs, w);
        },
        _ => {
            keys_tell_expressions_apart(e, e);
            let k = canonical(e).unwrap();
            assert(readable(e) && canonical(e) == Some(k));
            let f = choose|f: ExprAst| readable(f) && #[trigger] canonical(f) == Some(k);
            keys_tell_expressions_apart(e, f);
        },
    }
}

proof fn lemma_list_key(system: bool, n: Seq<char>, w: World)
    ensures
        keyed(w)(arch_key(system, n)) == if system {
            (w.os)(n)
        } else {
            (w.arch)(n)
        },
{
    let k = arch_key(system, n);
    list_keys_are_their_own(system, n, system, n);
    assert(!(exists|e: ExprAst| readable(e) && #[trigger] canonical(e) == Some(k)));
    if system {
        let m = choose|m: Seq<char>| k == #[trigger] arch_key(true, m);
        list_keys_are_their_own(true, n, true, m);
    } else {
        assert forall|m: Seq<char>| k != #[trigger] arch_key(true, m) by {
            list_keys_are_their_own(false, n, true, m);
        }
        let m = choose|m: Seq<char>| k == #[trigger] arch_key(false, m);
        list_keys_are_their_own(false, n, false, m);
    }
}

/// A branch is entered in a build exactly where it is by the keys.
pub proof fn keys_mean_branches(b: CondBranch, w: World)
    requires
        is_clear(b),
    ensures
        branch_truth(b, keyed(w)) == asks(b, w),
{
    match b.expr {
        CondExpr::Raw(_) => {},
        CondExpr::Parsed(e) => keys_mean_expressions(*e, w),
        CondExpr::ArchList(list) => {
            let system = b.kind.asks_system();
            let names = arch_names(list@).unwrap();
            let val = keyed(w);
            let right = if system {
                w.os
            } else {
                w.arch
            };
            assert forall|i: int| 0 <= i < names.len() implies val(
                arch_key(system, #[trigger] names[i]),
            ) == right(names[i]) by {
                lemma_list_key(system, names[i], w);
            }
            if one_of(list@, right) {
                let i = choose|i: int|
                    0 <= i < list@.len() && ((#[trigger] list@[i]).literal() matches Some(s)
                        && right(trim(s)));
                assert(names[i] == trim(list@[i].literal().unwrap()));
                assert(val(arch_key(system, names[i])));
            }
            if asked_truth(b.expr, system, val) {
                let i = choose|i: int|
                    0 <= i < names.len() && val(arch_key(system, #[trigger] names[i]));
                assert(names[i] == trim(list@[i].literal().unwrap()));
                assert(right(names[i]));
                assert(list@[i].literal() is Some);
            }
        },
    }
}

proof fn lemma_step(s: StepView, w: World)
    requires
        is_clear_step(s),
    ensures
        taken(s, keyed(w)) == entered(s, w),
{
    let bs = s.cond.branches@;
    let val = keyed(w);
    if s.arm < bs.len() {
        keys_mean_branches(bs[s.arm], w);
    }
    let prior = bs.take(s.arm);
    assert forall|j: int| 0 <= j < s.arm implies branch_truth(#[trigger] bs[j], val) == asks(
        bs[j],
        w,
    ) && prior[j] == bs[j] by {
        keys_mean_branches(bs[j], w);
    }
    if none_true(prior, val) {
        assert forall|j: int| 0 <= j < s.arm && j < bs.len() implies !asks(#[trigger] bs[j], w) by {
            assert(!branch_truth(prior[j], val));
        }
    }
    if forall|j: int| 0 <= j < s.arm && j < bs.len() ==> !asks(#[trigger] bs[j], w) {
        assert forall|j: int| 0 <= j < prior.len() implies !branch_truth(#[trigger] prior[j], val) by {
            assert(!asks(bs[j], w));
        }
    }
}

/// An item is part of a build exactly where it is reached by the keys.
pub proof fn keys_mean_paths(path: Seq<StepView>, w: World)
    requires
        is_clear_path(path),
    ensures
        reached(path, keyed(w)) == is_built(path, w),
{
    assert forall|i: int| 0 <= i < path.len() implies taken(#[trigger] path[i], keyed(w)) == entered(
        path[i],
        w,
    ) by {
        assert(is_clear_step(path[i]));
        lemma_step(path[i], w);
    }
    if reached(path, keyed(w)) {
        assert forall|i: int| 0 <= i < path.len() implies entered(#[trigger] path[i], w) by {
            assert(taken(path[i], keyed(w)));
        }
    }
    if is_built(path, w) {
        assert forall|i: int| 0 <= i < path.len() implies taken(#[trigger] path[i], keyed(w)) by {
            assert(entered(path[i], w));
        }
    }
}

/// Which atoms are true, where the keys of those that are have been given.
pub open spec fn spoken(val: spec_fn(Seq<char>) -> bool) -> spec_fn(Shape) -> bool {
    |s: Shape|
        match canonical(choose|e: ExprAst| #[trigger] shape(e) == s) {
            Some(k) => val(k),
            None => false,
        }
}

proof fn lemma_spoken(e: ExprAst, val: spec_fn(Seq<char>) -> bool)
    ensures
        sense(e, spoken(val)) == truth(e, val),
    decreases e,
{
    match e {
        ExprAst::Paren { inner, .. } => lemma_spoken(*inner, val),
        ExprAst::Not { inner, .. } => lemma_spoken(*inner, val),
        ExprAst::Binary { kind, lhs, rhs, .. } if !kind.compares() => {
            lemma_spoken(*lhs, val);
            lemma_spoken(*rhs, val);
        },
        _ => {
            let f = choose|f: ExprAst| #[trigger] shape(f) == shape(e);
            assert(shape(e) == shape(e));
            lemma_same_text(e, f);
        },
    }
}

proof fn lemma_everywhere(e: ExprAst)
    requires
        readable(e),
    ensures
        (forall|val: spec_fn(Seq<char>) -> bool| #[trigger] truth(e, val)) <==> (forall|
            atoms: spec_fn(Shape) -> bool,
        | #[trigger]
            sense(e, atoms)),
        (forall|val: spec_fn(Seq<char>) -> bool| !#[trigger] truth(e, val)) <==> (forall|
            atoms: spec_fn(Shape) -> bool,
        | !#[trigger]
            sense(e, atoms)),
{
    assert forall|atoms: spec_fn(Shape) -> bool| exists|val: spec_fn(Seq<char>) -> bool| #[trigger]
        truth(e, val) == #[trigger] sense(e, atoms) by {
        let w = World { atoms, arch: |n: Seq<char>| true, os: |n: Seq<char>| true };
        keys_mean_expressions(e, w);
        assert(truth(e, keyed(w)) == sense(e, atoms));
    }
    assert forall|val: spec_fn(Seq<char>) -> bool| exists|atoms: spec_fn(Shape) -> bool|
        #[trigger] truth(e, val) == #[trigger] sense(e, atoms) by {
        lemma_spoken(e, val);
        assert(truth(e, val) == sense(e, spoken(val)));
    }
}

/// A branch that is reported as dead is part of no build.
pub proof fn dead_branch_is_never_built(rule: DeadElif, spec: SpecFile, i: int)
    requires
        analysed::<DeadElif>(
            spec,
            Progress { keys: rule.atoms@, out: rule.pending() },
        ).keys.len() <= usize::MAX,
        rule.pending().len() <= i < rule.after(spec).len(),
    ensures
        exists|path: Seq<StepView>|
            #![trigger leads(spec.items@, path)]
            {
                &&& leads(spec.items@, path)
                &&& 1 <= path.last().arm < path.last().cond.branches@.len()
                &&& rule.after(spec)[i].primary_span
                    == path.last().cond.branches@[path.last().arm].data
                &&& is_clear_path(path) ==> forall|w: World| !#[trigger] is_built(path, w)
            },
{
    dead_branch_is_never_reached(rule, spec, i);
    let path = choose|path: Seq<StepView>|
        #![trigger leads(spec.items@, path)]
        {
            &&& leads(spec.items@, path)
            &&& 1 <= path.last().arm < path.last().cond.branches@.len()
            &&& rule.after(spec)[i].primary_span
                == path.last().cond.branches@[path.last().arm].data
            &&& forall|val: spec_fn(Seq<char>) -> bool| !#[trigger] reached(path, val)
        };
    if is_clear_path(path) {
        assert forall|w: World| !#[trigger] is_built(path, w) by {
            keys_mean_paths(path, w);
            assert(!reached(path, keyed(w)));
        }
    }
}

/// A branch that is reported as implied is entered in every build that the
/// branches around it are part of.
pub proof fn implied_branch_is_always_built(rule: AlwaysTrueBranch, spec: SpecFile, i: int)
    requires
        analysed::<AlwaysTrueBranch>(
            spec,
            Progress { keys: rule.atoms@, out: rule.pending() },
        ).keys.len() <= usize::MAX,
        rule.pending().len() <= i < rule.after(spec).len(),
    ensures
        exists|path: Seq<StepView>|
            #![trigger leads(spec.items@, path)]
            {
                &&& leads(spec.items@, path)
                &&& path.len() > 1
                &&& 0 <= path.last().arm < path.last().cond.branches@.len()
                &&& rule.after(spec)[i].primary_span
                    == path.last().cond.branches@[path.last().arm].data
                &&& is_clear_path(path) ==> forall|w: World|
                    #[trigger] is_built(path.drop_last(), w) ==> entered(path.last(), w)
            },
{
    implied_branch_is_always_taken(rule, spec, i);
    let path = choose|path: Seq<StepView>|
        #![trigger leads(spec.items@, path)]
        {
            &&& leads(spec.items@, path)
            &&& path.len() > 1
            &&& 0 <= path.last().arm < path.last().cond.branches@.len()
            &&& rule.after(spec)[i].primary_span
                == path.last().cond.branches@[path.last().arm].data
            &&& forall|val: spec_fn(Seq<char>) -> bool|
                #[trigger] reached(path.drop_last(), val) ==> taken(path.last(), val)
        };
    if is_clear_path(path) {
        let outer = path.drop_last();
        assert forall|i: int| 0 <= i < outer.len() implies is_clear_step(#[trigger] outer[i]) by {
            assert(outer[i] == path[i]);
        }
        assert(is_clear_step(path[path.len() - 1]));
        assert forall|w: World| #[trigger] is_built(outer, w) implies entered(path.last(), w) by {
            keys_mean_paths(outer, w);
            assert(reached(outer, keyed(w)));
            lemma_step(path.last(), w);
        }
    }
}

/// A condition with boolean structure that has a normal form over few enough
/// atoms to enumerate is reported as always true exactly if it holds whatever
/// its comparisons, macros and names come out as.
pub proof fn tautology_report_is_right(branch: CondBranch)
    requires
        branch.expr matches CondExpr::Parsed(e) && readable(*e),
        analysis(branch.expr) matches Some(a) && a.atoms <= MAX_ATOMS_FOR_TAUTOLOGY,
    ensures
        branch.expr matches CondExpr::Parsed(e) && (BooleanTautologyByCubes::on_branch(
            &(),
            branch,
        ).len() > 0 <==> forall|atoms: spec_fn(Shape) -> bool| #[trigger] sense(*e, atoms)),
{
    tautology_report_is_exact(branch);
    match branch.expr {
        CondExpr::Parsed(e) => {
            lemma_everywhere(*e);
            assert forall|val: spec_fn(Seq<char>) -> bool| #[trigger] cond_truth(branch.expr, val)
                == truth(*e, val) by {}
            if BooleanTautologyByCubes::on_branch(&(), branch).len() > 0 {
                assert forall|val: spec_fn(Seq<char>) -> bool| #[trigger] truth(*e, val) by {
                    assert(cond_truth(branch.expr, val));
                }
            }
        },
        _ => {},
    }
}

/// A condition with boolean structure that has a normal form is reported as
/// unsatisfiable exactly if it holds in no case.
pub proof fn contradiction_report_is_right(branch: CondBranch)
    requires
        branch.expr matches CondExpr::Parsed(e) && readable(*e),
        analysis(branch.expr) matches Some(a) && a.atoms <= usize::MAX,
    ensures
        branch.expr matches CondExpr::Parsed(e) && (BooleanContradictionByCubes::on_branch(
            &(),
            branch,
        ).len() > 0 <==> forall|atoms: spec_fn(Shape) -> bool| !#[trigger] sense(*e, atoms)),
{
    contradiction_report_is_exact(branch);
    match branch.expr {
        CondExpr::Parsed(e) => {
            lemma_everywhere(*e);
            assert forall|val: spec_fn(Seq<char>) -> bool| #[trigger] cond_truth(branch.expr, val)
                == truth(*e, val) by {}
            if BooleanContradictionByCubes::on_branch(&(), branch).len() > 0 {
                assert forall|val: spec_fn(Seq<char>) -> bool| !#[trigger] truth(*e, val) by {
                    assert(!cond_truth(branch.expr, val));
                }
            }
        },
        _ => {},
    }
}

/// Conditions that are reported as mutually exclusive never hold together.
pub proof fn exclusive_conditions_never_hold_together(
    a: ExprAst,
    b: ExprAst,
    x: CondExpr,
    y: CondExpr,
    atoms: spec_fn(Shape) -> bool,
)
    requires
        x == CondExpr::Parsed(Box::new(a)),
        y == CondExpr::Parsed(Box::new(b)),
        readable(a),
        readable(b),
        conjunction(x, y) matches Some(d) && d =~= Set::empty(),
        cond_dnf(y, cond_dnf(x, Seq::empty(), false).keys, false).keys.len() <= usize::MAX,
    ensures
        !(sense(a, atoms) && sense(b, atoms)),
{
    let w = World { atoms, arch: |n: Seq<char>| true, os: |n: Seq<char>| true };
    reported_conditions_exclude_each_other(x, y, keyed(w));
    keys_mean_expressions(a, w);
    keys_mean_expressions(b, w);
}

} // verus!
