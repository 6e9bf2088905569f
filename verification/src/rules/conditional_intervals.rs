//! Bounds on one operand in an `&&`-chain: which are redundant, which exclude
//! each other.
use vstd::prelude::*;

use crate::ast::{BinOp, CondBranch, CondExpr, ExprAst, SpecFile};
use crate::diagnostic::{Diagnostic, DiagnosticView, LintCategory, Severity, plain, reports};
use crate::expr::{exprs, exprs_equiv, flatten, operands, shape};
use crate::lint::{Identity, Lint, LintMetadata, drain};
use crate::rules::{BranchRule, branch_findings, given, run_branches, say};

verus! {

/// A comparison of an operand with a number.
pub struct Bound {
    pub lhs: ExprAst,
    pub op: BinOp,
    pub value: int,
}

/// The comparison that `e` is, if it is one with a number on its right.
pub open spec fn bound_of(e: ExprAst) -> Option<Bound> {
    match e.bare() {
        ExprAst::Binary { kind, lhs, rhs, .. } if kind.compares() => match rhs.bare() {
            ExprAst::Integer { value, .. } => Some(Bound { lhs: *lhs, op: kind, value: value as int }),
            _ => None,
        },
        _ => None,
    }
}

/// Whether `x` passes the comparison with `value`.
pub open spec fn passes(op: BinOp, value: int, x: int) -> bool {
    match op {
        BinOp::Eq => x == value,
        BinOp::Ne => x != value,
        BinOp::Lt => x < value,
        BinOp::Gt => x > value,
        BinOp::Le => x <= value,
        BinOp::Ge => x >= value,
        _ => true,
    }
}

pub open spec fn is_lower(op: BinOp) -> bool {
    op is Ge || op is Gt
}

pub open spec fn is_upper_bound(op: BinOp) -> bool {
    op is Le || op is Lt
}

/// The least number that passes a lower bound.
pub open spec fn least(b: Bound) -> int {
    if b.op is Gt {
        b.value + 1
    } else {
        b.value
    }
}

/// The greatest number that passes an upper bound.
pub open spec fn greatest(b: Bound) -> int {
    if b.op is Lt {
        b.value - 1
    } else {
        b.value
    }
}

/// Whether `a` is a bound on the same side as `b` and at least as tight.
pub open spec fn implies_bound(a: Bound, b: Bound) -> bool {
    ||| is_lower(a.op) && is_lower(b.op) && least(a) >= least(b)
    ||| is_upper_bound(a.op) && is_upper_bound(b.op) && greatest(a) <= greatest(b)
}

/// Whether `a` and `b` are two equalities, or a lower and an upper bound,
/// that no number passes together.
pub open spec fn excludes(a: Bound, b: Bound) -> bool {
    ||| a.op is Eq && b.op is Eq && a.value != b.value
    ||| is_lower(a.op) && is_upper_bound(b.op) && least(a) > greatest(b)
    ||| is_upper_bound(a.op) && is_lower(b.op) && least(b) > greatest(a)
}

/// What can be told of two bounds: of two equalities, and of a lower and an
/// upper bound, whether they exclude each other; of others nothing.
pub open spec fn exclusion(a: Bound, b: Bound) -> Option<bool> {
    if a.op is Eq && b.op is Eq || is_lower(a.op) && is_upper_bound(b.op) || is_upper_bound(a.op)
        && is_lower(b.op) {
        Some(excludes(a, b))
    } else {
        None
    }
}

/// Whether two operands bound the same expression and one bound implies the
/// other.
pub open spec fn redundant_pair(x: ExprAst, y: ExprAst) -> bool {
    match (bound_of(x), bound_of(y)) {
        (Some(a), Some(b)) => shape(a.lhs) == shape(b.lhs) && (implies_bound(a, b) || implies_bound(
            b,
            a,
        )),
        _ => false,
    }
}

/// Whether two operands bound the same expression and exclude each other.
pub open spec fn contradictory_pair(x: ExprAst, y: ExprAst) -> bool {
    match (bound_of(x), bound_of(y)) {
        (Some(a), Some(b)) => shape(a.lhs) == shape(b.lhs) && excludes(a, b),
        _ => false,
    }
}

/// Whether a bound in the `&&`-chain that `e` is implies another.
pub open spec fn has_redundancy(e: ExprAst) -> bool {
    let ops = operands(e, BinOp::LogAnd);
    exists|i: int, j: int|
        #![trigger ops[i], ops[j]]
        0 <= i < j < ops.len() && redundant_pair(ops[i], ops[j])
}

/// Whether two bounds in the `&&`-chain that `e` is exclude each other.
pub open spec fn has_contradiction(e: ExprAst) -> bool {
    let ops = operands(e, BinOp::LogAnd);
    exists|i: int, j: int|
        #![trigger ops[i], ops[j]]
        0 <= i < j < ops.len() && contradictory_pair(ops[i], ops[j])
}

/// What passes a tighter bound passes the other.
pub proof fn implied_bound_is_redundant(a: Bound, b: Bound, x: int)
    requires
        implies_bound(a, b),
        passes(a.op, a.value, x),
    ensures
        passes(b.op, b.value, x),
{
}

/// Between bounds on one side, one implies the other exactly if everything
/// that passes it passes the other.
pub proof fn implication_is_exact(a: Bound, b: Bound)
    requires
        is_lower(a.op) && is_lower(b.op) || is_upper_bound(a.op) && is_upper_bound(b.op),
    ensures
        implies_bound(a, b) <==> forall|x: int|
            #[trigger] passes(a.op, a.value, x) ==> passes(b.op, b.value, x),
{
    if is_lower(a.op) {
        assert(passes(a.op, a.value, least(a)));
    } else {
        assert(passes(a.op, a.value, greatest(a)));
    }
}

/// Nothing passes two bounds that exclude each other.
pub proof fn excluded_bounds_have_no_solution(a: Bound, b: Bound, x: int)
    requires
        excludes(a, b),
    ensures
        !(passes(a.op, a.value, x) && passes(b.op, b.value, x)),
{
}

/// Bounds exclude each other whichever of them is named first.
pub proof fn exclusion_is_symmetric(a: Bound, b: Bound)
    ensures
        excludes(a, b) <==> excludes(b, a),
        exclusion(a, b) == exclusion(b, a),
{
}

/// So do operands.
pub proof fn contradiction_is_symmetric(x: ExprAst, y: ExprAst)
    ensures
        contradictory_pair(x, y) <==> contradictory_pair(y, x),
{
}

/// A lower and an upper bound, or two equalities, exclude each other exactly
/// if nothing passes both.
pub proof fn exclusion_is_exact(a: Bound, b: Bound)
    requires
        exclusion(a, b) is Some,
    ensures
        exclusion(a, b) == Some(
            forall|x: int| !(#[trigger] passes(a.op, a.value, x) && passes(b.op, b.value, x)),
        ),
{
    if !excludes(a, b) {
        let x = if is_upper_bound(a.op) {
            least(b)
        } else {
            least(a)
        };
        assert(passes(a.op, a.value, x) && passes(b.op, b.value, x));
    }
}

/// A comparison of an operand with a number.
pub struct IntConstraint<'a> {
    pub lhs: &'a ExprAst,
    pub op: BinOp,
    pub value: i64,
}

/// The bound that a comparison is.
pub open spec fn constraint_view(c: IntConstraint) -> Bound {
    Bound { lhs: *c.lhs, op: c.op, value: c.value as int }
}

fn extract_int_constraint<'a>(e: &'a ExprAst) -> (r: Option<IntConstraint<'a>>)
    ensures
        r is Some <==> bound_of(*e) is Some,
        r matches Some(c) ==> bound_of(*e) == Some(constraint_view(c)),
{
    match e.peel_parens() {
        ExprAst::Binary { kind, lhs, rhs, .. } => {
            if matches!(kind, BinOp::LogAnd) || matches!(kind, BinOp::LogOr) {
                return None;
            }
            match rhs.peel_parens() {
                ExprAst::Integer { value, .. } => Some(
                    IntConstraint { lhs: &**lhs, op: *kind, value: *value },
                ),
                _ => None,
            }
        },
        _ => None,
    }
}

fn lower_end(c: &IntConstraint) -> (r: Option<i128>)
    ensures
        r is Some <==> is_lower(c.op),
        r matches Some(v) ==> v == least(constraint_view(*c)),
{
    match c.op {
        BinOp::Ge => Some(c.value as i128),
        BinOp::Gt => Some(c.value as i128 + 1),
        _ => None,
    }
}

fn upper_end(c: &IntConstraint) -> (r: Option<i128>)
    ensures
        r is Some <==> is_upper_bound(c.op),
        r matches Some(v) ==> v == greatest(constraint_view(*c)),
{
    match c.op {
        BinOp::Le => Some(c.value as i128),
        BinOp::Lt => Some(c.value as i128 - 1),
        _ => None,
    }
}

fn implies(a: &IntConstraint, b: &IntConstraint) -> (r: bool)
    ensures
        r == implies_bound(constraint_view(*a), constraint_view(*b)),
{
    match (lower_end(a), lower_end(b)) {
        (Some(x), Some(y)) => {
            return x >= y;
        },
        _ => {},
    }
    match (upper_end(a), upper_end(b)) {
        (Some(x), Some(y)) => x <= y,
        _ => false,
    }
}

/// Whether two comparisons of one operand exclude each other, where that can
/// be told.
pub fn contradicts(a: &IntConstraint, b: &IntConstraint) -> (r: Option<bool>)
    ensures
        r == exclusion(constraint_view(*a), constraint_view(*b)),
        r == exclusion(constraint_view(*b), constraint_view(*a)),
        r matches Some(never) ==> never == forall|x: int|
            !(#[trigger] passes(a.op, a.value as int, x) && passes(b.op, b.value as int, x)),
{
    proof {
        exclusion_is_symmetric(constraint_view(*a), constraint_view(*b));
        if exclusion(constraint_view(*a), constraint_view(*b)) is Some {
            exclusion_is_exact(constraint_view(*a), constraint_view(*b));
        }
    }
    if matches!(a.op, BinOp::Eq) && matches!(b.op, BinOp::Eq) {
        return Some(a.value != b.value);
    }
    match (lower_end(a), upper_end(b)) {
        (Some(lo), Some(hi)) => {
            return Some(lo > hi);
        },
        _ => {},
    }
    match (lower_end(b), upper_end(a)) {
        (Some(lo), Some(hi)) => Some(lo > hi),
        _ => None,
    }
}

/// Whether two operands form a redundant, and whether a contradictory pair.
fn compare_operands(x: &ExprAst, y: &ExprAst) -> (r: (bool, bool))
    ensures
        r.0 == redundant_pair(*x, *y),
        r.1 == contradictory_pair(*x, *y),
{
    match (extract_int_constraint(x), extract_int_constraint(y)) {
        (Some(a), Some(b)) => {
            if exprs_equiv(a.lhs, b.lhs) {
                (
                    implies(&a, &b) || implies(&b, &a),
                    match contradicts(&a, &b) {
                        Some(never) => never,
                        None => false,
                    },
                )
            } else {
                (false, false)
            }
        },
        _ => (false, false),
    }
}

/// Whether the `&&`-chain that `e` is holds a redundant, and whether a
/// contradictory pair of bounds.
pub fn analyse(e: &ExprAst) -> (r: (bool, bool))
    ensures
        r.0 == has_redundancy(*e),
        r.1 == has_contradiction(*e),
{
    let v = flatten(e, BinOp::LogAnd);
    let ghost ops = operands(*e, BinOp::LogAnd);
    assert(forall|i: int| 0 <= i < v@.len() ==> *v@[i] == #[trigger] ops[i]) by {
        assert(exprs(v@) == ops);
        assert(forall|i: int| 0 <= i < v@.len() ==> *v@[i] == #[trigger] exprs(v@)[i]);
    }
    let mut redundant = false;
    let mut contradictory = false;
    let mut i: usize = 0;
    while i < v.len()
        invariant
            i <= v.len(),
            v@.len() == ops.len(),
            forall|k: int| 0 <= k < v@.len() ==> *v@[k] == #[trigger] ops[k],
            redundant == exists|a: int, b: int|
                #![trigger ops[a], ops[b]]
                0 <= a < i && a < b < ops.len() && redundant_pair(ops[a], ops[b]),
            contradictory == exists|a: int, b: int|
                #![trigger ops[a], ops[b]]
                0 <= a < i && a < b < ops.len() && contradictory_pair(ops[a], ops[b]),
        decreases v.len() - i,
    {
        let ghost r0 = redundant;
        let ghost c0 = contradictory;
        let mut j: usize = i + 1;
        while j < v.len()
            invariant
                i < j <= v.len(),
                v@.len() == ops.len(),
                forall|k: int| 0 <= k < v@.len() ==> *v@[k] == #[trigger] ops[k],
                redundant == (r0 || exists|b: int|
                    i < b < j && redundant_pair(ops[i as int], #[trigger] ops[b])),
                contradictory == (c0 || exists|b: int|
                    i < b < j && contradictory_pair(ops[i as int], #[trigger] ops[b])),
            decreases v.len() - j,
        {
            let (red, con) = compare_operands(v[i], v[j]);
            assert(red == redundant_pair(ops[i as int], ops[j as int]));
            assert(con == contradictory_pair(ops[i as int], ops[j as int]));
            if red {
                redundant = true;
            }
            if con {
                contradictory = true;
            }
            j = j + 1;
        }
        proof {
            if redundant && !r0 {
                let b = choose|b: int| i < b < j && redundant_pair(ops[i as int], #[trigger] ops[b]);
                assert(redundant_pair(ops[i as int], ops[b]));
            }
            if contradictory && !c0 {
                let b = choose|b: int| i < b < j && contradictory_pair(ops[i as int], #[trigger] ops[b]);
                assert(contradictory_pair(ops[i as int], ops[b]));
            }
            if exists|a: int, b: int|
                #![trigger ops[a], ops[b]]
                0 <= a < i + 1 && a < b < ops.len() && redundant_pair(ops[a], ops[b]) {
                let (a, b) = choose|a: int, b: int|
                    #![trigger ops[a], ops[b]]
                    0 <= a < i + 1 && a < b < ops.len() && redundant_pair(ops[a], ops[b]);
                if a < i {
                    assert(r0);
                } else {
                    assert(redundant_pair(ops[i as int], ops[b]));
                }
            }
            if exists|a: int, b: int|
                #![trigger ops[a], ops[b]]
                0 <= a < i + 1 && a < b < ops.len() && contradictory_pair(ops[a], ops[b]) {
                let (a, b) = choose|a: int, b: int|
                    #![trigger ops[a], ops[b]]
                    0 <= a < i + 1 && a < b < ops.len() && contradictory_pair(ops[a], ops[b]);
                if a < i {
                    assert(c0);
                } else {
                    assert(contradictory_pair(ops[i as int], ops[b]));
                }
            }
        }
        i = i + 1;
    }
    (redundant, contradictory)
}

fn find_redundancy(e: &ExprAst) -> (r: bool)
    ensures
        r == has_redundancy(*e),
{
    analyse(e).0
}

fn find_contradiction(e: &ExprAst) -> (r: bool)
    ensures
        r == has_contradiction(*e),
{
    analyse(e).1
}

fn is_redundant(c: &CondExpr) -> (r: bool)
    ensures
        r == (*c matches CondExpr::Parsed(e) && has_redundancy(*e)),
{
    match c {
        CondExpr::Parsed(e) => find_redundancy(e),
        _ => false,
    }
}

fn is_contradictory(c: &CondExpr) -> (r: bool)
    ensures
        r == (*c matches CondExpr::Parsed(e) && has_contradiction(*e)),
{
    match c {
        CondExpr::Parsed(e) => find_contradiction(e),
        _ => false,
    }
}

/// RPM102 `inequality-redundancy`: `X OP a && X OP b` where one constraint subsumes the
/// other — drop the weaker side.
#[derive(Debug)]
pub struct InequalityRedundancy {
    pub diagnostics: Vec<Diagnostic>,
}

impl InequalityRedundancy {
    pub fn new() -> (r: InequalityRedundancy)
        ensures
            r.pending() == Seq::<DiagnosticView>::empty(),
    {
        let r = InequalityRedundancy { diagnostics: Vec::new() };
        assert(r.pending() =~= Seq::<DiagnosticView>::empty());
        r
    }
}

impl Default for InequalityRedundancy {
    fn default() -> (r: InequalityRedundancy)
        ensures
            r.pending() == Seq::<DiagnosticView>::empty(),
    {
        InequalityRedundancy::new()
    }
}

impl Lint for InequalityRedundancy {
    open spec fn identity() -> Identity {
        Identity {
            id: "RPM102"@,
            name: "inequality-redundancy"@,
            description: "`X OP a && X OP b` where one constraint subsumes the other — drop the weaker side."@,
            default_severity: Severity::Warn,
            category: LintCategory::Style,
        }
    }

    open spec fn pending(&self) -> Seq<DiagnosticView> {
        reports(self.diagnostics@)
    }

    open spec fn after(&self, spec: SpecFile) -> Seq<DiagnosticView> {
        self.pending() + branch_findings::<InequalityRedundancy>(&(), spec)
    }

    open spec fn same_settings(&self, other: &Self) -> bool {
        true
    }

    fn metadata(&self) -> (r: LintMetadata) {
        LintMetadata {
            id: "RPM102",
            name: "inequality-redundancy",
            description: "`X OP a && X OP b` where one constraint subsumes the other — drop the weaker side.",
            default_severity: Severity::Warn,
            category: LintCategory::Style,
        }
    }

    fn visit_spec(&mut self, spec: &SpecFile) {
        run_branches::<InequalityRedundancy>(&(), spec, &mut self.diagnostics);
    }

    fn take_diagnostics(&mut self) -> (r: Vec<Diagnostic>) {
        drain(&mut self.diagnostics)
    }
}

impl BranchRule for InequalityRedundancy {
    type Settings = ();

    open spec fn on_branch(_settings: &(), branch: CondBranch) -> Seq<DiagnosticView> {
        given(
            branch.expr matches CondExpr::Parsed(e) && has_redundancy(*e),
            plain("RPM102"@, Severity::Warn, "redundant inequality: one constraint already implies another in the same `&&`-chain"@, branch.data).advise("drop the weaker comparison and keep only the tightest bound"@),
        )
    }

    fn check_branch(_settings: &(), branch: &CondBranch, out: &mut Vec<Diagnostic>) {
        if is_redundant(&branch.expr) {
            say(out, Diagnostic::new("RPM102", Severity::Warn, "redundant inequality: one constraint already implies another in the same `&&`-chain", branch.data).with_advice("drop the weaker comparison and keep only the tightest bound"));
        } else {
            assert(reports(out@) + Seq::<DiagnosticView>::empty() == reports(out@));
        }
    }
}

/// RPM103 `inequality-contradiction`: `&&`-chain has incompatible inequalities — the whole
/// guard is always false.
#[derive(Debug)]
pub struct InequalityContradiction {
    pub diagnostics: Vec<Diagnostic>,
}

impl InequalityContradiction {
    pub fn new() -> (r: InequalityContradiction)
        ensures
            r.pending() == Seq::<DiagnosticView>::empty(),
    {
        let r = InequalityContradiction { diagnostics: Vec::new() };
        assert(r.pending() =~= Seq::<DiagnosticView>::empty());
        r
    }
}

impl Default for InequalityContradiction {
    fn default() -> (r: InequalityContradiction)
        ensures
            r.pending() == Seq::<DiagnosticView>::empty(),
    {
        InequalityContradiction::new()
    }
}

impl Lint for InequalityContradiction {
    open spec fn identity() -> Identity {
        Identity {
            id: "RPM103"@,
            name: "inequality-contradiction"@,
            description: "`&&`-chain has incompatible inequalities — the whole guard is always false."@,
            default_severity: Severity::Warn,
            category: LintCategory::Correctness,
        }
    }

    open spec fn pending(&self) -> Seq<DiagnosticView> {
        reports(self.diagnostics@)
    }

    open spec fn after(&self, spec: SpecFile) -> Seq<DiagnosticView> {
        self.pending() + branch_findings::<InequalityContradiction>(&(), spec)
    }

    open spec fn same_settings(&self, other: &Self) -> bool {
        true
    }

    fn metadata(&self) -> (r: LintMetadata) {
        LintMetadata {
            id: "RPM103",
            name: "inequality-contradiction",
            description: "`&&`-chain has incompatible inequalities — the whole guard is always false.",
            default_severity: Severity::Warn,
            category: LintCategory::Correctness,
        }
    }

    fn visit_spec(&mut self, spec: &SpecFile) {
        run_branches::<InequalityContradiction>(&(), spec, &mut self.diagnostics);
    }

    fn take_diagnostics(&mut self) -> (r: Vec<Diagnostic>) {
        drain(&mut self.diagnostics)
    }
}

impl BranchRule for InequalityContradiction {
    type Settings = ();

    open spec fn on_branch(_settings: &(), branch: CondBranch) -> Seq<DiagnosticView> {
        given(
            branch.expr matches CondExpr::Parsed(e) && has_contradiction(*e),
            plain("RPM103"@, Severity::Warn, "inequality contradiction: the `&&`-chain has incompatible bounds — the guard can never be true"@, branch.data),
        )
    }

    fn check_branch(_settings: &(), branch: &CondBranch, out: &mut Vec<Diagnostic>) {
        if is_contradictory(&branch.expr) {
            say(out, Diagnostic::new("RPM103", Severity::Warn, "inequality contradiction: the `&&`-chain has incompatible bounds — the guard can never be true", branch.data));
        } else {
            assert(reports(out@) + Seq::<DiagnosticView>::empty() == reports(out@));
        }
    }
}

} // verus!
