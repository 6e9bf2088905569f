//! A disjunct that every clause of an `&&`-chain shares.
use vstd::prelude::*;

use crate::ast::{BinOp, CondBranch, CondExpr, ExprAst, SpecFile, Span};
use crate::diagnostic::{Diagnostic, DiagnosticView, LintCategory, Severity, plain, reports};
use crate::expr::{Shape, exprs, exprs_equiv, flatten, operands, shape};
use crate::expr_laws::{
    and_chain_means_all, equal_shapes_mean_the_same, or_chain_means_any, sense,
};
use crate::lint::{Identity, Lint, LintMetadata, drain};
use crate::rules::{BranchRule, branch_findings, given, run_branches, say};
use crate::report_laws::{lemma_says_one, says_at};

verus! {

/// Whether an operand of the chain `e` of `||` has the shape of `x`.
pub open spec fn offers(e: ExprAst, x: ExprAst) -> bool {
    let alternatives = operands(e, BinOp::LogOr);
    exists|k: int| 0 <= k < alternatives.len() && shape(#[trigger] alternatives[k]) == shape(x)
}

/// Whether every clause of an `&&`-chain is an `||`-chain and all of them
/// share an operand.
pub open spec fn shares_disjunct(e: ExprAst) -> bool {
    let clauses = operands(e, BinOp::LogAnd);
    let first = operands(clauses[0], BinOp::LogOr);
    &&& clauses.len() >= 2
    &&& forall|i: int|
        0 <= i < clauses.len() ==> operands(#[trigger] clauses[i], BinOp::LogOr).len() >= 2
    &&& exists|k: int|
        0 <= k < first.len() && shared_by_all(clauses, #[trigger] first[k])
}

pub open spec fn shared_by_all(clauses: Seq<ExprAst>, x: ExprAst) -> bool {
    forall|i: int| 1 <= i < clauses.len() ==> offers(#[trigger] clauses[i], x)
}

fn has_operand(e: &ExprAst, x: &ExprAst) -> (r: bool)
    ensures
        r == offers(*e, *x),
{
    let v = flatten(e, BinOp::LogOr);
    let ghost alternatives = operands(*e, BinOp::LogOr);
    let mut k: usize = 0;
    while k < v.len()
        invariant
            k <= v.len(),
            exprs(v@) == alternatives,
            alternatives == operands(*e, BinOp::LogOr),
            forall|j: int| 0 <= j < k ==> shape(#[trigger] alternatives[j]) != shape(*x),
        decreases v.len() - k,
    {
        assert(exprs(v@)[k as int] == *v@[k as int]);
        if exprs_equiv(v[k], x) {
            assert(shape(alternatives[k as int]) == shape(*x));
            return true;
        }
        k = k + 1;
    }
    false
}

fn all_offer(v: &Vec<&ExprAst>, x: &ExprAst) -> (r: bool)
    ensures
        r == shared_by_all(exprs(v@), *x),
{
    let ghost clauses = exprs(v@);
    let mut i: usize = 1;
    while i < v.len()
        invariant
            1 <= i,
            i <= v.len() || v.len() == 0,
            clauses == exprs(v@),
            forall|j: int| 1 <= j < i && j < v.len() ==> offers(#[trigger] clauses[j], *x),
        decreases v.len() - i,
    {
        assert(clauses[i as int] == *v@[i as int]);
        if !has_operand(v[i], x) {
            return false;
        }
        i = i + 1;
    }
    true
}

fn find_shared_disjunct(e: &ExprAst) -> (r: bool)
    ensures
        r == shares_disjunct(*e),
{
    let v = flatten(e, BinOp::LogAnd);
    let ghost clauses = operands(*e, BinOp::LogAnd);
    if v.len() < 2 {
        return false;
    }
    let mut i: usize = 0;
    while i < v.len()
        invariant
            i <= v.len(),
            exprs(v@) == clauses,
            clauses == operands(*e, BinOp::LogAnd),
            forall|j: int| 0 <= j < i ==> operands(#[trigger] clauses[j], BinOp::LogOr).len() >= 2,
        decreases v.len() - i,
    {
        assert(clauses[i as int] == *v@[i as int]);
        let alternatives = flatten(v[i], BinOp::LogOr);
        if alternatives.len() < 2 {
            assert(operands(clauses[i as int], BinOp::LogOr).len() < 2);
            return false;
        }
        i = i + 1;
    }
    assert(clauses[0] == *v@[0]);
    let candidates = flatten(v[0], BinOp::LogOr);
    let ghost first = operands(clauses[0], BinOp::LogOr);
    let mut k: usize = 0;
    while k < candidates.len()
        invariant
            k <= candidates.len(),
            v@.len() >= 2,
            exprs(v@) == clauses,
            clauses == operands(*e, BinOp::LogAnd),
            exprs(candidates@) == first,
            first == operands(clauses[0], BinOp::LogOr),
            forall|j: int|
                0 <= j < clauses.len() ==> operands(#[trigger] clauses[j], BinOp::LogOr).len() >= 2,
            forall|j: int| 0 <= j < k ==> !shared_by_all(clauses, #[trigger] first[j]),
        decreases candidates.len() - k,
    {
        assert(first[k as int] == *candidates@[k as int]);
        if all_offer(&v, candidates[k]) {
            assert(shared_by_all(clauses, first[k as int]));
            return true;
        }
        k = k + 1;
    }
    false
}

fn is_factorable(c: &CondExpr) -> (r: bool)
    ensures
        r == (*c matches CondExpr::Parsed(e) && shares_disjunct(*e)),
{
    match c {
        CondExpr::Parsed(e) => find_shared_disjunct(e),
        _ => false,
    }
}

/// RPM433 `condition-common-disjunct-factor`: `(A || B) && (A || C)` style `%if` expression
/// — every top-level `&&` clause shares a common disjunct; factor it out to `A || (B &&
/// C)`.
#[derive(Debug)]
pub struct ConditionCommonDisjunctFactor {
    pub diagnostics: Vec<Diagnostic>,
}

impl ConditionCommonDisjunctFactor {
    pub fn new() -> (r: ConditionCommonDisjunctFactor)
        ensures
            r.pending() == Seq::<DiagnosticView>::empty(),
    {
        let r = ConditionCommonDisjunctFactor { diagnostics: Vec::new() };
        assert(r.pending() =~= Seq::<DiagnosticView>::empty());
        r
    }
}

impl Default for ConditionCommonDisjunctFactor {
    fn default() -> (r: ConditionCommonDisjunctFactor)
        ensures
            r.pending() == Seq::<DiagnosticView>::empty(),
    {
        ConditionCommonDisjunctFactor::new()
    }
}

impl Lint for ConditionCommonDisjunctFactor {
    open spec fn identity() -> Identity {
        Identity {
            id: "RPM433"@,
            name: "condition-common-disjunct-factor"@,
            description: "`(A || B) && (A || C)` style `%if` expression — every top-level `&&` clause shares a common disjunct; factor it out to `A || (B && C)`."@,
            default_severity: Severity::Allow,
            category: LintCategory::Style,
        }
    }

    open spec fn pending(&self) -> Seq<DiagnosticView> {
        reports(self.diagnostics@)
    }

    open spec fn after(&self, spec: SpecFile) -> Seq<DiagnosticView> {
        self.pending() + branch_findings::<ConditionCommonDisjunctFactor>(&(), spec)
    }

    open spec fn same_settings(&self, other: &Self) -> bool {
        true
    }

    fn metadata(&self) -> (r: LintMetadata) {
        LintMetadata {
            id: "RPM433",
            name: "condition-common-disjunct-factor",
            description: "`(A || B) && (A || C)` style `%if` expression — every top-level `&&` clause shares a common disjunct; factor it out to `A || (B && C)`.",
            default_severity: Severity::Allow,
            category: LintCategory::Style,
        }
    }

    fn visit_spec(&mut self, spec: &SpecFile) {
        run_branches::<ConditionCommonDisjunctFactor>(&(), spec, &mut self.diagnostics);
    }

    fn take_diagnostics(&mut self) -> (r: Vec<Diagnostic>) {
        drain(&mut self.diagnostics)
    }
}

impl BranchRule for ConditionCommonDisjunctFactor {
    type Settings = ();

    open spec fn on_branch(_settings: &(), branch: CondBranch) -> Seq<DiagnosticView> {
        given(
            branch.expr matches CondExpr::Parsed(e) && shares_disjunct(*e),
            plain("RPM433"@, Severity::Warn, "`%if` expression's `&&` clauses share a common disjunct — factor it out (`(A || B) && (A || C)` → `A || (B && C)`)"@, branch.data).advise("rewrite as `factor || (rest_1 && rest_2 && …)`"@),
        )
    }

    fn check_branch(_settings: &(), branch: &CondBranch, out: &mut Vec<Diagnostic>) {
        if is_factorable(&branch.expr) {
            say(out, Diagnostic::new("RPM433", Severity::Warn, "`%if` expression's `&&` clauses share a common disjunct — factor it out (`(A || B) && (A || C)` → `A || (B && C)`)", branch.data).with_advice("rewrite as `factor || (rest_1 && rest_2 && …)`"));
        } else {
            assert(reports(out@) + Seq::<DiagnosticView>::empty() == reports(out@));
        }
    }
}

/// An operand of the chain `e` of `||` that is not `x` is true.
pub open spec fn rest_holds(e: ExprAst, x: ExprAst, val: spec_fn(Shape) -> bool) -> bool {
    let alternatives = operands(e, BinOp::LogOr);
    exists|k: int|
        0 <= k < alternatives.len() && shape(#[trigger] alternatives[k]) != shape(x) && sense(
            alternatives[k],
            val,
        )
}

/// What is reported factors: where every clause offers `x`, the condition is
/// true exactly where `x` is or what is left of every clause is.
pub proof fn shared_disjunct_factors_out(e: ExprAst, x: ExprAst, val: spec_fn(Shape) -> bool)
    requires
        forall|i: int|
            0 <= i < operands(e, BinOp::LogAnd).len() ==> offers(
                #[trigger] operands(e, BinOp::LogAnd)[i],
                x,
            ),
    ensures
        sense(e, val) == (sense(x, val) || forall|i: int|
            0 <= i < operands(e, BinOp::LogAnd).len() ==> rest_holds(
                #[trigger] operands(e, BinOp::LogAnd)[i],
                x,
                val,
            )),
{
    let clauses = operands(e, BinOp::LogAnd);
    and_chain_means_all(e, val);
    assert forall|i: int| 0 <= i < clauses.len() implies sense(#[trigger] clauses[i], val) == (sense(
        x,
        val,
    ) || rest_holds(clauses[i], x, val)) by {
        let c = clauses[i];
        let alternatives = operands(c, BinOp::LogOr);
        or_chain_means_any(c, val);
        let k = choose|k: int|
            0 <= k < alternatives.len() && shape(#[trigger] alternatives[k]) == shape(x);
        assert(offers(c, x));
        equal_shapes_mean_the_same(alternatives[k], x, val);
        if sense(c, val) {
            let j = choose|j: int|
                0 <= j < alternatives.len() && sense(#[trigger] alternatives[j], val);
            if shape(alternatives[j]) == shape(x) {
                equal_shapes_mean_the_same(alternatives[j], x, val);
            }
        }
    }
    if sense(e, val) && !sense(x, val) {
        assert forall|i: int| 0 <= i < clauses.len() implies rest_holds(
            #[trigger] clauses[i],
            x,
            val,
        ) by {
            assert(sense(clauses[i], val));
        }
    }
}

/// A condition is reported only where some operand can be factored out of it.
pub proof fn reported_disjunct_is_shared(branch: CondBranch)
    requires
        ConditionCommonDisjunctFactor::on_branch(&(), branch).len() > 0,
    ensures
        branch.expr matches CondExpr::Parsed(e) && exists|x: ExprAst|
            #![trigger shape(x)]
            forall|i: int|
                0 <= i < operands(*e, BinOp::LogAnd).len() ==> offers(
                    #[trigger] operands(*e, BinOp::LogAnd)[i],
                    x,
                ),
{
    let e = *branch.expr->Parsed_0;
    let clauses = operands(e, BinOp::LogAnd);
    let first = operands(clauses[0], BinOp::LogOr);
    let k = choose|k: int| 0 <= k < first.len() && shared_by_all(clauses, #[trigger] first[k]);
    let x = first[k];
    assert forall|i: int| 0 <= i < clauses.len() implies offers(#[trigger] clauses[i], x) by {
        if i == 0 {
            assert(shape(first[k]) == shape(x));
        }
    }
    assert(shape(x) == shape(x));
}

/// Whether an alternative of a clause is written as `x`.
pub open spec fn has_alternative(clause: ExprAst, x: ExprAst) -> bool {
    exists|k: int|
        0 <= k < operands(clause, BinOp::LogOr).len() && shape(
            #[trigger] operands(clause, BinOp::LogOr)[k],
        ) == shape(x)
}

/// Exactly those conditions are reported that join two clauses or more by
/// `&&`, each of two alternatives or more, of which one stands in all of
/// them.
pub proof fn shared_alternatives_are_reported(branch: CondBranch, span: Span)
    ensures
        says_at(ConditionCommonDisjunctFactor::on_branch(&(), branch), span) <==> branch.data == span
            && (branch.expr matches CondExpr::Parsed(e) && ({
            let clauses = operands(*e, BinOp::LogAnd);
            &&& clauses.len() > 1
            &&& forall|i: int|
                0 <= i < clauses.len() ==> operands(#[trigger] clauses[i], BinOp::LogOr).len() > 1
            &&& exists|x: ExprAst| #[trigger] is_in_all(clauses, x)
        })),
{
    let on = ConditionCommonDisjunctFactor::on_branch(&(), branch);
    match branch.expr {
        CondExpr::Parsed(e) => {
            if shares_disjunct(*e) {
                lemma_says_one(on[0], span);
                assert(on =~= seq![on[0]]);
            }
            let clauses = operands(*e, BinOp::LogAnd);
            if shares_disjunct(*e) {
                let first = operands(clauses[0], BinOp::LogOr);
                let k = choose|k: int|
                    0 <= k < first.len() && shared_by_all(clauses, #[trigger] first[k]);
                let x = first[k];
                assert forall|i: int| 0 <= i < clauses.len() implies has_alternative(
                    #[trigger] clauses[i],
                    x,
                ) by {
                    if i == 0 {
                        assert(shape(operands(clauses[0], BinOp::LogOr)[k]) == shape(x));
                    } else {
                        assert(offers(clauses[i], x));
                        let alternatives = operands(clauses[i], BinOp::LogOr);
                        let j = choose|j: int|
                            0 <= j < alternatives.len() && shape(#[trigger] alternatives[j])
                                == shape(x);
                        assert(shape(operands(clauses[i], BinOp::LogOr)[j]) == shape(x));
                    }
                }
                assert(is_in_all(clauses, x));
            }
            if clauses.len() > 1 && exists|x: ExprAst| #[trigger] is_in_all(clauses, x) {
                let x = choose|x: ExprAst| #[trigger] is_in_all(clauses, x);
                let first = operands(clauses[0], BinOp::LogOr);
                assert(has_alternative(clauses[0], x));
                let k = choose|k: int|
                    0 <= k < operands(clauses[0], BinOp::LogOr).len() && shape(
                        #[trigger] operands(clauses[0], BinOp::LogOr)[k],
                    ) == shape(x);
                assert forall|i: int| 1 <= i < clauses.len() implies offers(
                    #[trigger] clauses[i],
                    first[k],
                ) by {
                    assert(has_alternative(clauses[i], x));
                    let j = choose|j: int|
                        0 <= j < operands(clauses[i], BinOp::LogOr).len() && shape(
                            #[trigger] operands(clauses[i], BinOp::LogOr)[j],
                        ) == shape(x);
                    let alternatives = operands(clauses[i], BinOp::LogOr);
                    assert(shape(alternatives[j]) == shape(first[k]));
                }
                assert(shared_by_all(clauses, first[k]));
            }
        },
        _ => {},
    }
}

/// Whether `x` is an alternative of every clause.
pub open spec fn is_in_all(clauses: Seq<ExprAst>, x: ExprAst) -> bool {
    forall|i: int| 0 <= i < clauses.len() ==> has_alternative(#[trigger] clauses[i], x)
}

} // verus!
