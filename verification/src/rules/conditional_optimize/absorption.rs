//! Boolean absorption: an operand that another one makes redundant.
use vstd::prelude::*;

use crate::ast::{BinOp, CondBranch, CondExpr, ExprAst, SpecFile};
use crate::diagnostic::{Diagnostic, DiagnosticView, LintCategory, Severity, plain, reports};
use crate::expr::{Shape, exprs_equiv, shape};
use crate::expr_laws::{equal_shapes_mean_the_same, parentheses_do_not_matter, sense};
use crate::lint::{Identity, Lint, LintMetadata, drain};
use crate::rules::{BranchRule, branch_findings, given, run_branches, say};
use crate::rules::conditional_optimize::expr_constants::{has_part, parts_are_found_in_operands};

verus! {

/// Whether `other` is an `op` of which `e` is an operand.
pub open spec fn absorbs(e: ExprAst, other: ExprAst, op: BinOp) -> bool {
    other.bare() matches ExprAst::Binary { kind, lhs, rhs, .. } && kind == op && (shape(e) == shape(
        *lhs,
    ) || shape(e) == shape(*rhs))
}

/// Whether `A || (A && B)` or `A && (A || B)` stands anywhere in `e`, in
/// either order.
pub open spec fn has_absorption(e: ExprAst) -> bool
    decreases e,
{
    match e {
        ExprAst::Paren { inner, .. } => has_absorption(*inner),
        ExprAst::Not { inner, .. } => has_absorption(*inner),
        ExprAst::Binary { kind, lhs, rhs, .. } => {
            ||| kind is LogOr && (absorbs(*lhs, *rhs, BinOp::LogAnd) || absorbs(
                *rhs,
                *lhs,
                BinOp::LogAnd,
            ))
            ||| kind is LogAnd && (absorbs(*lhs, *rhs, BinOp::LogOr) || absorbs(
                *rhs,
                *lhs,
                BinOp::LogOr,
            ))
            ||| has_absorption(*lhs)
            ||| has_absorption(*rhs)
        },
        _ => false,
    }
}

fn is_absorbed(e: &ExprAst, other: &ExprAst, op: BinOp) -> (r: bool)
    ensures
        r == absorbs(*e, *other, op),
{
    match other.peel_parens() {
        ExprAst::Binary { kind, lhs, rhs, .. } => *kind == op && (exprs_equiv(e, lhs) || exprs_equiv(
            e,
            rhs,
        )),
        _ => false,
    }
}

fn find_absorption(e: &ExprAst) -> (r: bool)
    ensures
        r == has_absorption(*e),
    decreases e,
{
    match e {
        ExprAst::Paren { inner, .. } => find_absorption(inner),
        ExprAst::Not { inner, .. } => find_absorption(inner),
        ExprAst::Binary { kind, lhs, rhs, .. } => {
            let here = match kind {
                BinOp::LogOr => is_absorbed(lhs, rhs, BinOp::LogAnd) || is_absorbed(
                    rhs,
                    lhs,
                    BinOp::LogAnd,
                ),
                BinOp::LogAnd => is_absorbed(lhs, rhs, BinOp::LogOr) || is_absorbed(
                    rhs,
                    lhs,
                    BinOp::LogOr,
                ),
                _ => false,
            };
            here || find_absorption(lhs) || find_absorption(rhs)
        },
        _ => false,
    }
}

fn is_absorbing(c: &CondExpr) -> (r: bool)
    ensures
        r == (*c matches CondExpr::Parsed(e) && has_absorption(*e)),
{
    match c {
        CondExpr::Parsed(e) => find_absorption(e),
        _ => false,
    }
}

/// RPM101 `absorption-in-expr`: Boolean absorption: `A || (A && B)` reduces to `A`; `A &&
/// (A || B)` reduces to `A`.
#[derive(Debug)]
pub struct AbsorptionInExpr {
    pub diagnostics: Vec<Diagnostic>,
}

impl AbsorptionInExpr {
    pub fn new() -> (r: AbsorptionInExpr)
        ensures
            r.pending() == Seq::<DiagnosticView>::empty(),
    {
        let r = AbsorptionInExpr { diagnostics: Vec::new() };
        assert(r.pending() =~= Seq::<DiagnosticView>::empty());
        r
    }
}

impl Default for AbsorptionInExpr {
    fn default() -> (r: AbsorptionInExpr)
        ensures
            r.pending() == Seq::<DiagnosticView>::empty(),
    {
        AbsorptionInExpr::new()
    }
}

impl Lint for AbsorptionInExpr {
    open spec fn identity() -> Identity {
        Identity {
            id: "RPM101"@,
            name: "absorption-in-expr"@,
            description: "Boolean absorption: `A || (A && B)` reduces to `A`; `A && (A || B)` reduces to `A`."@,
            default_severity: Severity::Warn,
            category: LintCategory::Style,
        }
    }

    open spec fn pending(&self) -> Seq<DiagnosticView> {
        reports(self.diagnostics@)
    }

    open spec fn after(&self, spec: SpecFile) -> Seq<DiagnosticView> {
        self.pending() + branch_findings::<AbsorptionInExpr>(&(), spec)
    }

    open spec fn same_settings(&self, other: &Self) -> bool {
        true
    }

    fn metadata(&self) -> (r: LintMetadata) {
        LintMetadata {
            id: "RPM101",
            name: "absorption-in-expr",
            description: "Boolean absorption: `A || (A && B)` reduces to `A`; `A && (A || B)` reduces to `A`.",
            default_severity: Severity::Warn,
            category: LintCategory::Style,
        }
    }

    fn visit_spec(&mut self, spec: &SpecFile) {
        run_branches::<AbsorptionInExpr>(&(), spec, &mut self.diagnostics);
    }

    fn take_diagnostics(&mut self) -> (r: Vec<Diagnostic>) {
        drain(&mut self.diagnostics)
    }
}

impl BranchRule for AbsorptionInExpr {
    type Settings = ();

    open spec fn on_branch(_settings: &(), branch: CondBranch) -> Seq<DiagnosticView> {
        given(
            branch.expr matches CondExpr::Parsed(e) && has_absorption(*e),
            plain("RPM101"@, Severity::Warn, "boolean absorption: simplify `A || (A && B)` → `A` (or `A && (A || B)` → `A`)"@, branch.data).advise("drop the absorbed sub-expression"@),
        )
    }

    fn check_branch(_settings: &(), branch: &CondBranch, out: &mut Vec<Diagnostic>) {
        if is_absorbing(&branch.expr) {
            say(out, Diagnostic::new("RPM101", Severity::Warn, "boolean absorption: simplify `A || (A && B)` → `A` (or `A && (A || B)` → `A`)", branch.data).with_advice("drop the absorbed sub-expression"));
        } else {
            assert(reports(out@) + Seq::<DiagnosticView>::empty() == reports(out@));
        }
    }
}

/// What is reported reduces: an operand that another absorbs adds nothing.
pub proof fn absorbed_operand_adds_nothing(
    e: ExprAst,
    other: ExprAst,
    val: spec_fn(Shape) -> bool,
)
    ensures
        absorbs(e, other, BinOp::LogAnd) ==> (sense(e, val) || sense(other, val)) == sense(e, val),
        absorbs(e, other, BinOp::LogOr) ==> (sense(e, val) && sense(other, val)) == sense(e, val),
{
    parentheses_do_not_matter(other, val);
    match other.bare() {
        ExprAst::Binary { lhs, rhs, .. } => {
            if shape(e) == shape(*lhs) {
                equal_shapes_mean_the_same(e, *lhs, val);
            }
            if shape(e) == shape(*rhs) {
                equal_shapes_mean_the_same(e, *rhs, val);
            }
        },
        _ => {},
    }
}

/// Whether a part joins an operand with an operation of the other kind that
/// holds it already.
pub open spec fn is_absorption(p: ExprAst) -> bool {
    p matches ExprAst::Binary { kind, lhs, rhs, .. } && (kind == BinOp::LogOr || kind
        == BinOp::LogAnd) && (is_operand_of(*lhs, *rhs, kind) || is_operand_of(*rhs, *lhs, kind))
}

/// Whether `other` is an `&&` where `kind` is `||`, or the other way round,
/// and `e` is one of its operands.
pub open spec fn is_operand_of(e: ExprAst, other: ExprAst, kind: BinOp) -> bool {
    other.bare() matches ExprAst::Binary { kind: k, lhs, rhs, .. } && !k.compares() && k != kind && (
    shape(*lhs) == shape(e) || shape(*rhs) == shape(e))
}

/// An operand that adds nothing is found wherever it stands.
pub proof fn absorption_is_found(e: ExprAst)
    ensures
        has_absorption(e) <==> has_part(e, |p: ExprAst| is_absorption(p)),
    decreases e,
{
    parts_are_found_in_operands(e, |p: ExprAst| is_absorption(p));
    match e {
        ExprAst::Paren { inner, .. } => absorption_is_found(*inner),
        ExprAst::Not { inner, .. } => absorption_is_found(*inner),
        ExprAst::Binary { lhs, rhs, .. } => {
            absorption_is_found(*lhs);
            absorption_is_found(*rhs);
        },
        _ => {},
    }
}

} // verus!
