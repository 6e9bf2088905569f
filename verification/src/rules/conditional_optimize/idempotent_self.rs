//! Operands that meet themselves under an operator.
use vstd::prelude::*;

use crate::ast::{BinOp, CondBranch, CondExpr, ExprAst, SpecFile};
use crate::diagnostic::{Diagnostic, DiagnosticView, LintCategory, Severity, plain, reports};
use crate::expr::{Shape, exprs_equiv, shape};
use crate::expr_laws::{equal_shapes_mean_the_same, sense};
use crate::lint::{Identity, Lint, LintMetadata, drain};
use crate::rules::conditional_intervals::passes;
use crate::rules::{BranchRule, branch_findings, given, run_branches, say};
use crate::text::opt_view;
use crate::rules::conditional_optimize::expr_constants::{
    has_part, part_of, parts_are_found_in_operands,
};

verus! {

/// Whether `X && X` or `X || X` stands anywhere in `e`.
pub open spec fn has_idempotent_op(e: ExprAst) -> bool
    decreases e,
{
    match e {
        ExprAst::Paren { inner, .. } => has_idempotent_op(*inner),
        ExprAst::Not { inner, .. } => has_idempotent_op(*inner),
        ExprAst::Binary { kind, lhs, rhs, .. } => (!kind.compares() && shape(*lhs) == shape(*rhs))
            || has_idempotent_op(*lhs) || has_idempotent_op(*rhs),
        _ => false,
    }
}

fn find_idempotent_op(e: &ExprAst) -> (r: bool)
    ensures
        r == has_idempotent_op(*e),
    decreases e,
{
    match e {
        ExprAst::Paren { inner, .. } => find_idempotent_op(inner),
        ExprAst::Not { inner, .. } => find_idempotent_op(inner),
        ExprAst::Binary { kind, lhs, rhs, .. } => {
            let logical = matches!(kind, BinOp::LogAnd) || matches!(kind, BinOp::LogOr);
            (logical && exprs_equiv(lhs, rhs)) || find_idempotent_op(lhs) || find_idempotent_op(rhs)
        },
        _ => false,
    }
}

fn is_idempotent(c: &CondExpr) -> (r: bool)
    ensures
        r == (*c matches CondExpr::Parsed(e) && has_idempotent_op(*e)),
{
    match c {
        CondExpr::Parsed(e) => find_idempotent_op(e),
        _ => false,
    }
}

/// RPM086 `idempotent-in-expr`: `X && X` / `X || X` repeats an operand — drop the
/// duplicate.
#[derive(Debug)]
pub struct IdempotentInExpr {
    pub diagnostics: Vec<Diagnostic>,
}

impl IdempotentInExpr {
    pub fn new() -> (r: IdempotentInExpr)
        ensures
            r.pending() == Seq::<DiagnosticView>::empty(),
    {
        let r = IdempotentInExpr { diagnostics: Vec::new() };
        assert(r.pending() =~= Seq::<DiagnosticView>::empty());
        r
    }
}

impl Default for IdempotentInExpr {
    fn default() -> (r: IdempotentInExpr)
        ensures
            r.pending() == Seq::<DiagnosticView>::empty(),
    {
        IdempotentInExpr::new()
    }
}

impl Lint for IdempotentInExpr {
    open spec fn identity() -> Identity {
        Identity {
            id: "RPM086"@,
            name: "idempotent-in-expr"@,
            description: "`X && X` / `X || X` repeats an operand — drop the duplicate."@,
            default_severity: Severity::Warn,
            category: LintCategory::Style,
        }
    }

    open spec fn pending(&self) -> Seq<DiagnosticView> {
        reports(self.diagnostics@)
    }

    open spec fn after(&self, spec: SpecFile) -> Seq<DiagnosticView> {
        self.pending() + branch_findings::<IdempotentInExpr>(&(), spec)
    }

    open spec fn same_settings(&self, other: &Self) -> bool {
        true
    }

    fn metadata(&self) -> (r: LintMetadata) {
        LintMetadata {
            id: "RPM086",
            name: "idempotent-in-expr",
            description: "`X && X` / `X || X` repeats an operand — drop the duplicate.",
            default_severity: Severity::Warn,
            category: LintCategory::Style,
        }
    }

    fn visit_spec(&mut self, spec: &SpecFile) {
        run_branches::<IdempotentInExpr>(&(), spec, &mut self.diagnostics);
    }

    fn take_diagnostics(&mut self) -> (r: Vec<Diagnostic>) {
        drain(&mut self.diagnostics)
    }
}

impl BranchRule for IdempotentInExpr {
    type Settings = ();

    open spec fn on_branch(_settings: &(), branch: CondBranch) -> Seq<DiagnosticView> {
        given(
            branch.expr matches CondExpr::Parsed(e) && has_idempotent_op(*e),
            plain("RPM086"@, Severity::Warn, "`X && X` / `X || X` repeats an operand — simplify"@, branch.data).advise("drop the duplicated operand"@),
        )
    }

    fn check_branch(_settings: &(), branch: &CondBranch, out: &mut Vec<Diagnostic>) {
        if is_idempotent(&branch.expr) {
            say(out, Diagnostic::new("RPM086", Severity::Warn, "`X && X` / `X || X` repeats an operand — simplify", branch.data).with_advice("drop the duplicated operand"));
        } else {
            assert(reports(out@) + Seq::<DiagnosticView>::empty() == reports(out@));
        }
    }
}

/// The outcome of a comparison of an operand with itself.
pub open spec fn self_verdict(op: BinOp) -> Seq<char> {
    if op is Eq || op is Le || op is Ge {
        "always-true"@
    } else {
        "always-false"@
    }
}

/// The outcome of the first comparison of an operand with itself in `e`.
pub open spec fn self_comparison(e: ExprAst) -> Option<Seq<char>>
    decreases e,
{
    match e {
        ExprAst::Paren { inner, .. } => self_comparison(*inner),
        ExprAst::Not { inner, .. } => self_comparison(*inner),
        ExprAst::Binary { kind, lhs, rhs, .. } => if kind.compares() && shape(*lhs) == shape(*rhs) {
            Some(self_verdict(kind))
        } else if self_comparison(*lhs) is Some {
            self_comparison(*lhs)
        } else {
            self_comparison(*rhs)
        },
        _ => None,
    }
}

fn find_self_comparison(e: &ExprAst) -> (r: Option<&'static str>)
    ensures
        opt_view(r) == self_comparison(*e),
    decreases e,
{
    match e {
        ExprAst::Paren { inner, .. } => find_self_comparison(inner),
        ExprAst::Not { inner, .. } => find_self_comparison(inner),
        ExprAst::Binary { kind, lhs, rhs, .. } => {
            let compares = !matches!(kind, BinOp::LogAnd) && !matches!(kind, BinOp::LogOr);
            if compares && exprs_equiv(lhs, rhs) {
                return match kind {
                    BinOp::Eq | BinOp::Le | BinOp::Ge => Some("always-true"),
                    _ => Some("always-false"),
                };
            }
            match find_self_comparison(lhs) {
                Some(v) => Some(v),
                None => find_self_comparison(rhs),
            }
        },
        _ => None,
    }
}

pub open spec fn self_compared(c: CondExpr) -> Option<Seq<char>> {
    match c {
        CondExpr::Parsed(e) => self_comparison(*e),
        _ => None,
    }
}

/// RPM088 `self-comparison-in-expr`: Comparison of an operand with itself has a fixed
/// outcome.
#[derive(Debug)]
pub struct SelfComparisonInExpr {
    pub diagnostics: Vec<Diagnostic>,
}

impl SelfComparisonInExpr {
    pub fn new() -> (r: SelfComparisonInExpr)
        ensures
            r.pending() == Seq::<DiagnosticView>::empty(),
    {
        let r = SelfComparisonInExpr { diagnostics: Vec::new() };
        assert(r.pending() =~= Seq::<DiagnosticView>::empty());
        r
    }
}

impl Default for SelfComparisonInExpr {
    fn default() -> (r: SelfComparisonInExpr)
        ensures
            r.pending() == Seq::<DiagnosticView>::empty(),
    {
        SelfComparisonInExpr::new()
    }
}

impl Lint for SelfComparisonInExpr {
    open spec fn identity() -> Identity {
        Identity {
            id: "RPM088"@,
            name: "self-comparison-in-expr"@,
            description: "Comparison of an operand with itself has a fixed outcome."@,
            default_severity: Severity::Warn,
            category: LintCategory::Style,
        }
    }

    open spec fn pending(&self) -> Seq<DiagnosticView> {
        reports(self.diagnostics@)
    }

    open spec fn after(&self, spec: SpecFile) -> Seq<DiagnosticView> {
        self.pending() + branch_findings::<SelfComparisonInExpr>(&(), spec)
    }

    open spec fn same_settings(&self, other: &Self) -> bool {
        true
    }

    fn metadata(&self) -> (r: LintMetadata) {
        LintMetadata {
            id: "RPM088",
            name: "self-comparison-in-expr",
            description: "Comparison of an operand with itself has a fixed outcome.",
            default_severity: Severity::Warn,
            category: LintCategory::Style,
        }
    }

    fn visit_spec(&mut self, spec: &SpecFile) {
        run_branches::<SelfComparisonInExpr>(&(), spec, &mut self.diagnostics);
    }

    fn take_diagnostics(&mut self) -> (r: Vec<Diagnostic>) {
        drain(&mut self.diagnostics)
    }
}

impl BranchRule for SelfComparisonInExpr {
    type Settings = ();

    open spec fn on_branch(_settings: &(), branch: CondBranch) -> Seq<DiagnosticView> {
        match self_compared(branch.expr) {
            Some(verdict) => seq![
                plain("RPM088"@, Severity::Warn, "comparison of an operand with itself is "@ + verdict, branch.data).advise(
                    "replace the redundant comparison with the constant outcome"@,
                ),
            ],
            None => Seq::empty(),
        }
    }

    fn check_branch(_settings: &(), branch: &CondBranch, out: &mut Vec<Diagnostic>) {
        let found = match &branch.expr {
            CondExpr::Parsed(e) => find_self_comparison(e),
            _ => None,
        };
        match found {
            Some(verdict) => {
                let mut message = String::from_str("comparison of an operand with itself is ");
                message.append(verdict);
                say(
                    out,
                    Diagnostic::new("RPM088", Severity::Warn, message.as_str(), branch.data).with_advice(
                        "replace the redundant comparison with the constant outcome",
                    ),
                );
            },
            None => {
                assert(reports(out@) + Seq::<DiagnosticView>::empty() == reports(out@));
            },
        }
    }
}

/// What is reported as repeated adds nothing: both operands are true
/// together.
pub proof fn repeated_operand_adds_nothing(
    lhs: ExprAst,
    rhs: ExprAst,
    val: spec_fn(Shape) -> bool,
)
    requires
        shape(lhs) == shape(rhs),
    ensures
        (sense(lhs, val) && sense(rhs, val)) == sense(lhs, val),
        (sense(lhs, val) || sense(rhs, val)) == sense(lhs, val),
{
    equal_shapes_mean_the_same(lhs, rhs, val);
}

/// A comparison of a value with itself has the outcome that is reported,
/// whatever the value is.
pub proof fn self_comparison_is_fixed(op: BinOp, x: int)
    requires
        op.compares(),
    ensures
        self_verdict(op) == if passes(op, x, x) {
            "always-true"@
        } else {
            "always-false"@
        },
{
}

/// An operand that is repeated is found wherever it stands.
pub proof fn repeated_operands_are_found(e: ExprAst)
    ensures
        has_idempotent_op(e) <==> has_part(
            e,
            |p: ExprAst|
                p matches ExprAst::Binary { kind, lhs, rhs, .. } && (kind == BinOp::LogAnd || kind
                    == BinOp::LogOr) && shape(*lhs) == shape(*rhs),
        ),
    decreases e,
{
    let asked = |p: ExprAst|
        p matches ExprAst::Binary { kind, lhs, rhs, .. } && (kind == BinOp::LogAnd || kind
            == BinOp::LogOr) && shape(*lhs) == shape(*rhs);
    parts_are_found_in_operands(e, asked);
    match e {
        ExprAst::Paren { inner, .. } => repeated_operands_are_found(*inner),
        ExprAst::Not { inner, .. } => repeated_operands_are_found(*inner),
        ExprAst::Binary { lhs, rhs, .. } => {
            repeated_operands_are_found(*lhs);
            repeated_operands_are_found(*rhs);
        },
        _ => {},
    }
}

/// Whether a part compares an operand with itself.
pub open spec fn compares_itself(p: ExprAst) -> bool {
    p matches ExprAst::Binary { kind, lhs, rhs, .. } && kind != BinOp::LogAnd && kind != BinOp::LogOr
        && shape(*lhs) == shape(*rhs)
}

/// Whether a part compares an operand with itself and `verdict` is what comes
/// of it.
pub open spec fn comes_out(p: ExprAst, verdict: Seq<char>) -> bool {
    &&& compares_itself(p)
    &&& p matches ExprAst::Binary { kind, .. } && (kind == BinOp::Eq || kind == BinOp::Le || kind
        == BinOp::Ge <==> verdict == "always-true"@)
}

/// A comparison of an operand with itself is found wherever it stands, and
/// what is said of it is said of one that is there.
pub proof fn self_comparisons_are_found(e: ExprAst)
    ensures
        self_comparison(e) is Some <==> has_part(e, |p: ExprAst| compares_itself(p)),
        self_comparison(e) matches Some(verdict) ==> (exists|p: ExprAst| #[trigger]
            part_of(p, e) && comes_out(p, verdict)),
    decreases e,
{
    reveal_strlit("always-true");
    reveal_strlit("always-false");
    assert("always-true"@.len() == 11 && "always-false"@.len() == 12);
    parts_are_found_in_operands(e, |p: ExprAst| compares_itself(p));
    assert(part_of(e, e));
    match e {
        ExprAst::Paren { inner, .. } => {
            self_comparisons_are_found(*inner);
            match self_comparison(e) {
                Some(verdict) => {
                    let p = choose|p: ExprAst| #[trigger]
                        part_of(p, *inner) && comes_out(p, verdict);
                    assert(part_of(p, e));
                },
                None => {},
            }
        },
        ExprAst::Not { inner, .. } => {
            self_comparisons_are_found(*inner);
            match self_comparison(e) {
                Some(verdict) => {
                    let p = choose|p: ExprAst| #[trigger]
                        part_of(p, *inner) && comes_out(p, verdict);
                    assert(part_of(p, e));
                },
                None => {},
            }
        },
        ExprAst::Binary { lhs, rhs, .. } => {
            self_comparisons_are_found(*lhs);
            self_comparisons_are_found(*rhs);
            match self_comparison(e) {
                Some(verdict) => {
                    if compares_itself(e) {
                        assert(comes_out(e, verdict));
                    } else {
                        let x = if self_comparison(*lhs) is Some {
                            *lhs
                        } else {
                            *rhs
                        };
                        let p = choose|p: ExprAst| #[trigger] part_of(p, x) && comes_out(p, verdict);
                        assert(part_of(p, e));
                    }
                },
                None => {},
            }
        },
        _ => {},
    }
}

} // verus!
