//! A string test repeated in an `||`-chain.
use vstd::prelude::*;

use crate::ast::{BinOp, CondBranch, CondExpr, ExprAst, SpecFile, Span};
use crate::diagnostic::{Diagnostic, DiagnosticView, LintCategory, Severity, plain, reports};
use crate::expr::{Shape, exprs, exprs_equiv, flatten, operands, shape};
use crate::expr_laws::{equal_shapes_mean_the_same, parentheses_do_not_matter, sense};
use crate::lint::{Identity, Lint, LintMetadata, drain};
use crate::rules::{BranchRule, branch_findings, given, run_branches, say};
use crate::text::same;
use crate::report_laws::{lemma_says_given, says_at};

verus! {

/// The operand and the string of `X == "string"`.
pub open spec fn string_eq(e: ExprAst) -> Option<(ExprAst, Seq<char>)> {
    match e.bare() {
        ExprAst::Binary { kind, lhs, rhs, .. } if kind is Eq => match rhs.bare() {
            ExprAst::String { value, .. } => Some((*lhs, value@)),
            _ => None,
        },
        _ => None,
    }
}

/// Whether two operands compare the same operand with the same string.
pub open spec fn same_test(a: ExprAst, b: ExprAst) -> bool {
    match (string_eq(a), string_eq(b)) {
        (Some(x), Some(y)) => x.1 == y.1 && shape(x.0) == shape(y.0),
        _ => false,
    }
}

/// Whether a test is repeated in the `||`-chain that `e` is.
pub open spec fn repeats_test(e: ExprAst) -> bool {
    let ops = operands(e, BinOp::LogOr);
    exists|i: int, j: int|
        #![trigger ops[i], ops[j]]
        0 <= i < j < ops.len() && same_test(ops[i], ops[j])
}

fn extract_string_eq(e: &ExprAst) -> (r: Option<(&ExprAst, &str)>)
    ensures
        r is Some <==> string_eq(*e) is Some,
        r matches Some(p) ==> string_eq(*e) == Some((*p.0, p.1@)),
{
    match e.peel_parens() {
        ExprAst::Binary { kind, lhs, rhs, .. } => {
            if !matches!(kind, BinOp::Eq) {
                return None;
            }
            match rhs.peel_parens() {
                ExprAst::String { value, .. } => Some((&**lhs, value.as_str())),
                _ => None,
            }
        },
        _ => None,
    }
}

fn tests_alike(a: &ExprAst, b: &ExprAst) -> (r: bool)
    ensures
        r == same_test(*a, *b),
{
    match (extract_string_eq(a), extract_string_eq(b)) {
        (Some((l, s)), Some((m, t))) => same(s, t) && exprs_equiv(l, m),
        _ => false,
    }
}

fn find_repeated_test(e: &ExprAst) -> (r: bool)
    ensures
        r == repeats_test(*e),
{
    let v = flatten(e, BinOp::LogOr);
    let ghost ops = operands(*e, BinOp::LogOr);
    assert(forall|i: int| 0 <= i < v@.len() ==> *v@[i] == #[trigger] ops[i]) by {
        assert(exprs(v@) == ops);
        assert(forall|i: int| 0 <= i < v@.len() ==> *v@[i] == #[trigger] exprs(v@)[i]);
    }
    let mut i: usize = 0;
    while i < v.len()
        invariant
            i <= v.len(),
            v@.len() == ops.len(),
            ops == operands(*e, BinOp::LogOr),
            forall|k: int| 0 <= k < v@.len() ==> *v@[k] == #[trigger] ops[k],
            forall|a: int, b: int|
                #![trigger ops[a], ops[b]]
                0 <= a < i && a < b < ops.len() ==> !same_test(ops[a], ops[b]),
        decreases v.len() - i,
    {
        let mut j: usize = i + 1;
        while j < v.len()
            invariant
                i < j <= v.len(),
                v@.len() == ops.len(),
                ops == operands(*e, BinOp::LogOr),
                forall|k: int| 0 <= k < v@.len() ==> *v@[k] == #[trigger] ops[k],
                forall|b: int| i < b < j ==> !same_test(ops[i as int], #[trigger] ops[b]),
            decreases v.len() - j,
        {
            if tests_alike(v[i], v[j]) {
                assert(same_test(ops[i as int], ops[j as int]));
                return true;
            }
            j = j + 1;
        }
        i = i + 1;
    }
    false
}

fn is_repeating(c: &CondExpr) -> (r: bool)
    ensures
        r == (*c matches CondExpr::Parsed(e) && repeats_test(*e)),
{
    match c {
        CondExpr::Parsed(e) => find_repeated_test(e),
        _ => false,
    }
}

/// RPM104 `string-set-redundancy`: `X == \"a\" || X == \"a\"` repeats the same string in an
/// `||`-chain — drop the duplicate.
#[derive(Debug)]
pub struct StringSetRedundancy {
    pub diagnostics: Vec<Diagnostic>,
}

impl StringSetRedundancy {
    pub fn new() -> (r: StringSetRedundancy)
        ensures
            r.pending() == Seq::<DiagnosticView>::empty(),
    {
        let r = StringSetRedundancy { diagnostics: Vec::new() };
        assert(r.pending() =~= Seq::<DiagnosticView>::empty());
        r
    }
}

impl Default for StringSetRedundancy {
    fn default() -> (r: StringSetRedundancy)
        ensures
            r.pending() == Seq::<DiagnosticView>::empty(),
    {
        StringSetRedundancy::new()
    }
}

impl Lint for StringSetRedundancy {
    open spec fn identity() -> Identity {
        Identity {
            id: "RPM104"@,
            name: "string-set-redundancy"@,
            description: "`X == \"a\" || X == \"a\"` repeats the same string in an `||`-chain — drop the duplicate."@,
            default_severity: Severity::Warn,
            category: LintCategory::Style,
        }
    }

    open spec fn pending(&self) -> Seq<DiagnosticView> {
        reports(self.diagnostics@)
    }

    open spec fn after(&self, spec: SpecFile) -> Seq<DiagnosticView> {
        self.pending() + branch_findings::<StringSetRedundancy>(&(), spec)
    }

    open spec fn same_settings(&self, other: &Self) -> bool {
        true
    }

    fn metadata(&self) -> (r: LintMetadata) {
        LintMetadata {
            id: "RPM104",
            name: "string-set-redundancy",
            description: "`X == \"a\" || X == \"a\"` repeats the same string in an `||`-chain — drop the duplicate.",
            default_severity: Severity::Warn,
            category: LintCategory::Style,
        }
    }

    fn visit_spec(&mut self, spec: &SpecFile) {
        run_branches::<StringSetRedundancy>(&(), spec, &mut self.diagnostics);
    }

    fn take_diagnostics(&mut self) -> (r: Vec<Diagnostic>) {
        drain(&mut self.diagnostics)
    }
}

impl BranchRule for StringSetRedundancy {
    type Settings = ();

    open spec fn on_branch(_settings: &(), branch: CondBranch) -> Seq<DiagnosticView> {
        given(
            branch.expr matches CondExpr::Parsed(e) && repeats_test(*e),
            plain("RPM104"@, Severity::Warn, "duplicate `X == \"...\"` operand in `||`-chain — drop the repeat"@, branch.data).advise("remove the repeated equality comparison"@),
        )
    }

    fn check_branch(_settings: &(), branch: &CondBranch, out: &mut Vec<Diagnostic>) {
        if is_repeating(&branch.expr) {
            say(out, Diagnostic::new("RPM104", Severity::Warn, "duplicate `X == \"...\"` operand in `||`-chain — drop the repeat", branch.data).with_advice("remove the repeated equality comparison"));
        } else {
            assert(reports(out@) + Seq::<DiagnosticView>::empty() == reports(out@));
        }
    }
}

/// A test that is reported as repeated adds nothing to the chain: the two
/// tests are true together.
pub proof fn repeated_test_adds_nothing(a: ExprAst, b: ExprAst, val: spec_fn(Shape) -> bool)
    requires
        same_test(a, b),
    ensures
        sense(a, val) == sense(b, val),
{
    parentheses_do_not_matter(a, val);
    parentheses_do_not_matter(b, val);
    match (a.bare(), b.bare()) {
        (ExprAst::Binary { rhs: x, .. }, ExprAst::Binary { rhs: y, .. }) => {
            parentheses_do_not_matter(*x, val);
            parentheses_do_not_matter(*y, val);
        },
        _ => {},
    }
    assert(shape(a) == shape(b));
    equal_shapes_mean_the_same(a, b, val);
}

/// Whether two operands compare alike operands with the same string.
pub open spec fn are_one_test(a: ExprAst, b: ExprAst) -> bool {
    match (a.bare(), b.bare()) {
        (
            ExprAst::Binary { kind: k, lhs: x, rhs: s, .. },
            ExprAst::Binary { kind: l, lhs: y, rhs: t, .. },
        ) => {
            &&& k == BinOp::Eq && l == BinOp::Eq
            &&& shape(*x) == shape(*y)
            &&& match (s.bare(), t.bare()) {
                (ExprAst::String { value: u, .. }, ExprAst::String { value: v, .. }) => u@ == v@,
                _ => false,
            }
        },
        _ => false,
    }
}

/// Exactly those `||`-chains are reported in which two operands are one test.
pub proof fn repeated_comparisons_are_reported(branch: CondBranch, span: Span)
    ensures
        says_at(StringSetRedundancy::on_branch(&(), branch), span) <==> branch.data == span && (
        branch.expr matches CondExpr::Parsed(e) && exists|i: int, j: int|
            #![trigger operands(*e, BinOp::LogOr)[i], operands(*e, BinOp::LogOr)[j]]
            0 <= i < j < operands(*e, BinOp::LogOr).len() && are_one_test(
                operands(*e, BinOp::LogOr)[i],
                operands(*e, BinOp::LogOr)[j],
            )),
{
    lemma_says_given(
        branch.expr matches CondExpr::Parsed(e) && repeats_test(*e),
        plain(
            "RPM104"@,
            Severity::Warn,
            "duplicate `X == \"...\"` operand in `||`-chain — drop the repeat"@,
            branch.data,
        ).advise("remove the repeated equality comparison"@),
        span,
    );
    assert forall|a: ExprAst, b: ExprAst| #[trigger] same_test(a, b) <==> are_one_test(a, b) by {}
    match branch.expr {
        CondExpr::Parsed(e) => {
            let ops = operands(*e, BinOp::LogOr);
            if repeats_test(*e) {
                let (i, j) = choose|i: int, j: int|
                    #![trigger ops[i], ops[j]]
                    0 <= i < j < ops.len() && same_test(ops[i], ops[j]);
                assert(are_one_test(ops[i], ops[j]));
            }
            if exists|i: int, j: int|
                #![trigger ops[i], ops[j]]
                0 <= i < j < ops.len() && are_one_test(ops[i], ops[j]) {
                let (i, j) = choose|i: int, j: int|
                    #![trigger ops[i], ops[j]]
                    0 <= i < j < ops.len() && are_one_test(ops[i], ops[j]);
                assert(same_test(ops[i], ops[j]));
            }
        },
        _ => {},
    }
}

} // verus!
