//! What the normal form of a condition tells: redundant operands, conditions
//! that are always true, conditions that never are.
use vstd::prelude::*;

use crate::ast::{BinOp, CondBranch, CondExpr, ExprAst, Span, SpecFile};
use crate::condition::{AtomTable, cond_dnf, dnf_of, to_dnf};
use crate::diagnostic::{Diagnostic, DiagnosticView, LintCategory, Severity, plain, reports};
use crate::dnf::{
    Dnf, Literal, MAX_ATOMS_FOR_TAUTOLOGY, covers, dnf_holds, is_contradiction, is_tautology, minimal,
    simplify_subsumption,
};
use crate::expr::{exprs, flatten, operands};
use crate::laws::{cond_truth, reduced_form_decides, valuation};
use crate::lint::{Identity, Lint, LintMetadata, drain};
use crate::rules::{BranchRule, branch_findings, given, run_branches, say};
use crate::text::{count, decimal};
use crate::report_laws::{lemma_says_given, says_at};

verus! {

/// Whether a boolean operator is at the root of `e`.
pub open spec fn is_boolean(e: ExprAst) -> bool {
    match e.bare() {
        ExprAst::Not { .. } => true,
        ExprAst::Binary { kind, .. } => !kind.compares(),
        _ => false,
    }
}

fn has_boolean_structure(e: &ExprAst) -> (r: bool)
    ensures
        r == is_boolean(*e),
{
    match e.peel_parens() {
        ExprAst::Not { .. } => true,
        ExprAst::Binary { kind, .. } => matches!(kind, BinOp::LogAnd) || matches!(kind, BinOp::LogOr),
        _ => false,
    }
}

/// What normalisation tells about a condition.
pub struct Analysis {
    /// The normal form without redundant cubes.
    pub dnf: Set<Set<Literal>>,
    /// The number of atoms.
    pub atoms: nat,
    /// The number of cubes as written: the operands of the `||`-chain, or the
    /// cubes of the normal form before redundant ones are dropped.
    pub written: nat,
}

/// The analysis of a condition with boolean structure, if it has a normal
/// form.
pub open spec fn analysis(c: CondExpr) -> Option<Analysis> {
    match c {
        CondExpr::Parsed(e) => if is_boolean(*e) {
            let converted = dnf_of(*e, Seq::empty(), false);
            match converted.dnf {
                Some(d) => Some(
                    Analysis {
                        dnf: minimal(d),
                        atoms: converted.keys.len(),
                        written: if operands(*e, BinOp::LogOr).len() > d.len() {
                            operands(*e, BinOp::LogOr).len()
                        } else {
                            d.len()
                        },
                    },
                ),
                None => None,
            }
        } else {
            None
        },
        _ => None,
    }
}

/// Some cube is made redundant by another.
pub open spec fn is_redundant(a: Analysis) -> bool {
    &&& a.dnf != Set::<Set<Literal>>::empty()
    &&& !a.dnf.contains(Set::<Literal>::empty())
    &&& a.dnf.len() < a.written
}

/// Every assignment makes the condition true, as far as they are enumerated.
pub open spec fn is_always_true(a: Analysis) -> bool {
    a.atoms <= MAX_ATOMS_FOR_TAUTOLOGY && covers(a.dnf, a.atoms)
}

pub open spec fn redundancy_report(a: Analysis, span: Span) -> DiagnosticView {
    plain("RPM110"@, Severity::Warn, "boolean expression has "@ + decimal(a.written) + " top-level cubes that normalise to "@ + decimal(a.dnf.len()) + "; some operands are absorbed by others"@, span).advise(
        "drop the absorbed operands; keep the smallest covering cubes"@,
    )
}

/// The normal form without redundant cubes, the number of atoms, and the
/// number of cubes as written.
fn analyse_branch(c: &CondExpr) -> (r: Option<(Dnf, usize, usize)>)
    ensures
        r is Some <==> analysis(*c) is Some,
        r matches Some(p) ==> p.0.wf() && analysis(*c) == Some(
            Analysis { dnf: p.0@, atoms: p.1 as nat, written: p.2 as nat },
        ),
{
    match c {
        CondExpr::Parsed(e) => {
            if !has_boolean_structure(e) {
                return None;
            }
            let mut atoms = AtomTable::new();
            let raw = match to_dnf(e, &mut atoms, false) {
                Some(d) => d,
                None => {
                    return None;
                },
            };
            let operands = flatten(e, BinOp::LogOr);
            assert(exprs(operands@).len() == operands@.len());
            let n: usize = raw.len();
            let written: usize = if operands.len() > n {
                operands.len()
            } else {
                n
            };
            let (simplified, _) = simplify_subsumption(&raw);
            Some((simplified, atoms.len(), written))
        },
        _ => None,
    }
}

/// RPM110 `boolean-dnf-redundancy`: Expression contains operands that are absorbed by
/// others — DNF normalisation reveals shorter equivalent form.
#[derive(Debug)]
pub struct BooleanDnfRedundancy {
    pub diagnostics: Vec<Diagnostic>,
}

impl BooleanDnfRedundancy {
    pub fn new() -> (r: BooleanDnfRedundancy)
        ensures
            r.pending() == Seq::<DiagnosticView>::empty(),
    {
        let r = BooleanDnfRedundancy { diagnostics: Vec::new() };
        assert(r.pending() =~= Seq::<DiagnosticView>::empty());
        r
    }
}

impl Default for BooleanDnfRedundancy {
    fn default() -> (r: BooleanDnfRedundancy)
        ensures
            r.pending() == Seq::<DiagnosticView>::empty(),
    {
        BooleanDnfRedundancy::new()
    }
}

impl Lint for BooleanDnfRedundancy {
    open spec fn identity() -> Identity {
        Identity {
            id: "RPM110"@,
            name: "boolean-dnf-redundancy"@,
            description: "Expression contains operands that are absorbed by others — DNF normalisation reveals shorter equivalent form."@,
            default_severity: Severity::Warn,
            category: LintCategory::Style,
        }
    }

    open spec fn pending(&self) -> Seq<DiagnosticView> {
        reports(self.diagnostics@)
    }

    open spec fn after(&self, spec: SpecFile) -> Seq<DiagnosticView> {
        self.pending() + branch_findings::<BooleanDnfRedundancy>(&(), spec)
    }

    open spec fn same_settings(&self, other: &Self) -> bool {
        true
    }

    fn metadata(&self) -> (r: LintMetadata) {
        LintMetadata {
            id: "RPM110",
            name: "boolean-dnf-redundancy",
            description: "Expression contains operands that are absorbed by others — DNF normalisation reveals shorter equivalent form.",
            default_severity: Severity::Warn,
            category: LintCategory::Style,
        }
    }

    fn visit_spec(&mut self, spec: &SpecFile) {
        run_branches::<BooleanDnfRedundancy>(&(), spec, &mut self.diagnostics);
    }

    fn take_diagnostics(&mut self) -> (r: Vec<Diagnostic>) {
        drain(&mut self.diagnostics)
    }
}

impl BranchRule for BooleanDnfRedundancy {
    type Settings = ();

    open spec fn on_branch(_settings: &(), branch: CondBranch) -> Seq<DiagnosticView> {
        match analysis(branch.expr) {
            Some(a) => given(is_redundant(a), redundancy_report(a, branch.data)),
            None => Seq::empty(),
        }
    }

    fn check_branch(_settings: &(), branch: &CondBranch, out: &mut Vec<Diagnostic>) {
        match analyse_branch(&branch.expr) {
            Some((dnf, _, written)) => {
                let n: usize = dnf.len();
                if !is_contradiction(&dnf) && !dnf.has_empty_cube() && n < written {
                    let mut message = String::from_str("boolean expression has ");
                    message.append(count(written).as_str());
                    message.append(" top-level cubes that normalise to ");
                    message.append(count(n).as_str());
                    message.append("; some operands are absorbed by others");
                    say(
                        out,
                        Diagnostic::new("RPM110", Severity::Warn, message.as_str(), branch.data).with_advice(
                            "drop the absorbed operands; keep the smallest covering cubes",
                        ),
                    );
                    return ;
                }
            },
            None => {},
        }
        assert(reports(out@) + Seq::<DiagnosticView>::empty() == reports(out@));
    }
}

fn is_tautological(c: &CondExpr) -> (r: bool)
    ensures
        r == (analysis(*c) matches Some(a) && is_always_true(a)),
{
    match analyse_branch(c) {
        Some((dnf, atoms, _)) => match is_tautology(&dnf, atoms) {
            Some(b) => b,
            None => false,
        },
        None => false,
    }
}

fn is_unsatisfiable(c: &CondExpr) -> (r: bool)
    ensures
        r == (analysis(*c) matches Some(a) && a.dnf == Set::<Set<Literal>>::empty()),
{
    match analyse_branch(c) {
        Some((dnf, _, _)) => is_contradiction(&dnf),
        None => false,
    }
}

/// RPM111 `boolean-tautology-by-cubes`: Boolean expression is tautologically true under
/// every assignment — drop the guard.
#[derive(Debug)]
pub struct BooleanTautologyByCubes {
    pub diagnostics: Vec<Diagnostic>,
}

impl BooleanTautologyByCubes {
    pub fn new() -> (r: BooleanTautologyByCubes)
        ensures
            r.pending() == Seq::<DiagnosticView>::empty(),
    {
        let r = BooleanTautologyByCubes { diagnostics: Vec::new() };
        assert(r.pending() =~= Seq::<DiagnosticView>::empty());
        r
    }
}

impl Default for BooleanTautologyByCubes {
    fn default() -> (r: BooleanTautologyByCubes)
        ensures
            r.pending() == Seq::<DiagnosticView>::empty(),
    {
        BooleanTautologyByCubes::new()
    }
}

impl Lint for BooleanTautologyByCubes {
    open spec fn identity() -> Identity {
        Identity {
            id: "RPM111"@,
            name: "boolean-tautology-by-cubes"@,
            description: "Boolean expression is tautologically true under every assignment — drop the guard."@,
            default_severity: Severity::Warn,
            category: LintCategory::Style,
        }
    }

    open spec fn pending(&self) -> Seq<DiagnosticView> {
        reports(self.diagnostics@)
    }

    open spec fn after(&self, spec: SpecFile) -> Seq<DiagnosticView> {
        self.pending() + branch_findings::<BooleanTautologyByCubes>(&(), spec)
    }

    open spec fn same_settings(&self, other: &Self) -> bool {
        true
    }

    fn metadata(&self) -> (r: LintMetadata) {
        LintMetadata {
            id: "RPM111",
            name: "boolean-tautology-by-cubes",
            description: "Boolean expression is tautologically true under every assignment — drop the guard.",
            default_severity: Severity::Warn,
            category: LintCategory::Style,
        }
    }

    fn visit_spec(&mut self, spec: &SpecFile) {
        run_branches::<BooleanTautologyByCubes>(&(), spec, &mut self.diagnostics);
    }

    fn take_diagnostics(&mut self) -> (r: Vec<Diagnostic>) {
        drain(&mut self.diagnostics)
    }
}

impl BranchRule for BooleanTautologyByCubes {
    type Settings = ();

    open spec fn on_branch(_settings: &(), branch: CondBranch) -> Seq<DiagnosticView> {
        given(
            analysis(branch.expr) matches Some(a) && is_always_true(a),
            plain("RPM111"@, Severity::Warn, "boolean expression is always true — every truth assignment satisfies at least one cube; drop the `%if` guard"@, branch.data).advise("unwrap the `%if` block: keep the body, drop `%if`/`%endif`"@),
        )
    }

    fn check_branch(_settings: &(), branch: &CondBranch, out: &mut Vec<Diagnostic>) {
        if is_tautological(&branch.expr) {
            say(out, Diagnostic::new("RPM111", Severity::Warn, "boolean expression is always true — every truth assignment satisfies at least one cube; drop the `%if` guard", branch.data).with_advice("unwrap the `%if` block: keep the body, drop `%if`/`%endif`"));
        } else {
            assert(reports(out@) + Seq::<DiagnosticView>::empty() == reports(out@));
        }
    }
}

/// RPM112 `boolean-contradiction-by-cubes`: Boolean expression is unsatisfiable — every
/// cube collapses to internal contradiction.
#[derive(Debug)]
pub struct BooleanContradictionByCubes {
    pub diagnostics: Vec<Diagnostic>,
}

impl BooleanContradictionByCubes {
    pub fn new() -> (r: BooleanContradictionByCubes)
        ensures
            r.pending() == Seq::<DiagnosticView>::empty(),
    {
        let r = BooleanContradictionByCubes { diagnostics: Vec::new() };
        assert(r.pending() =~= Seq::<DiagnosticView>::empty());
        r
    }
}

impl Default for BooleanContradictionByCubes {
    fn default() -> (r: BooleanContradictionByCubes)
        ensures
            r.pending() == Seq::<DiagnosticView>::empty(),
    {
        BooleanContradictionByCubes::new()
    }
}

impl Lint for BooleanContradictionByCubes {
    open spec fn identity() -> Identity {
        Identity {
            id: "RPM112"@,
            name: "boolean-contradiction-by-cubes"@,
            description: "Boolean expression is unsatisfiable — every cube collapses to internal contradiction."@,
            default_severity: Severity::Warn,
            category: LintCategory::Correctness,
        }
    }

    open spec fn pending(&self) -> Seq<DiagnosticView> {
        reports(self.diagnostics@)
    }

    open spec fn after(&self, spec: SpecFile) -> Seq<DiagnosticView> {
        self.pending() + branch_findings::<BooleanContradictionByCubes>(&(), spec)
    }

    open spec fn same_settings(&self, other: &Self) -> bool {
        true
    }

    fn metadata(&self) -> (r: LintMetadata) {
        LintMetadata {
            id: "RPM112",
            name: "boolean-contradiction-by-cubes",
            description: "Boolean expression is unsatisfiable — every cube collapses to internal contradiction.",
            default_severity: Severity::Warn,
            category: LintCategory::Correctness,
        }
    }

    fn visit_spec(&mut self, spec: &SpecFile) {
        run_branches::<BooleanContradictionByCubes>(&(), spec, &mut self.diagnostics);
    }

    fn take_diagnostics(&mut self) -> (r: Vec<Diagnostic>) {
        drain(&mut self.diagnostics)
    }
}

impl BranchRule for BooleanContradictionByCubes {
    type Settings = ();

    open spec fn on_branch(_settings: &(), branch: CondBranch) -> Seq<DiagnosticView> {
        given(
            analysis(branch.expr) matches Some(a) && a.dnf == Set::<Set<Literal>>::empty(),
            plain("RPM112"@, Severity::Warn, "boolean expression is unsatisfiable — every cube has an internal `A && !A` contradiction; the branch is dead code"@, branch.data),
        )
    }

    fn check_branch(_settings: &(), branch: &CondBranch, out: &mut Vec<Diagnostic>) {
        if is_unsatisfiable(&branch.expr) {
            say(out, Diagnostic::new("RPM112", Severity::Warn, "boolean expression is unsatisfiable — every cube has an internal `A && !A` contradiction; the branch is dead code", branch.data));
        } else {
            assert(reports(out@) + Seq::<DiagnosticView>::empty() == reports(out@));
        }
    }
}

/// A condition with boolean structure that has a normal form over few enough
/// atoms to enumerate is reported as always true exactly if it is.
pub proof fn tautology_report_is_exact(branch: CondBranch)
    requires
        analysis(branch.expr) matches Some(a) && a.atoms <= MAX_ATOMS_FOR_TAUTOLOGY,
    ensures
        BooleanTautologyByCubes::on_branch(&(), branch).len() > 0 <==> forall|
            val: spec_fn(Seq<char>) -> bool,
        | #[trigger]
            cond_truth(branch.expr, val),
{
    reduced_form_decides(branch.expr);
}

/// A condition with boolean structure that has a normal form is reported as
/// unsatisfiable exactly if it is never true.
pub proof fn contradiction_report_is_exact(branch: CondBranch)
    requires
        analysis(branch.expr) matches Some(a) && a.atoms <= usize::MAX,
    ensures
        BooleanContradictionByCubes::on_branch(&(), branch).len() > 0 <==> forall|
            val: spec_fn(Seq<char>) -> bool,
        | !#[trigger]
            cond_truth(branch.expr, val),
{
    reduced_form_decides(branch.expr);
}

/// The shorter form that a redundancy report promises means the same as the
/// condition, and has fewer cubes than were written.
pub proof fn shorter_form_means_the_same(branch: CondBranch, val: spec_fn(Seq<char>) -> bool)
    requires
        BooleanDnfRedundancy::on_branch(&(), branch).len() > 0,
        analysis(branch.expr) matches Some(a) && a.atoms <= usize::MAX,
    ensures
        analysis(branch.expr) matches Some(a) && a.dnf.len() < a.written && dnf_holds(
            a.dnf,
            valuation(cond_dnf(branch.expr, Seq::empty(), false).keys, val),
        ) == cond_truth(branch.expr, val),
{
    reduced_form_decides(branch.expr);
}

/// Exactly those conditions with boolean structure are reported whose normal
/// form is neither always true nor always false on its face and has fewer
/// cubes without the redundant ones than before, or than operands are
/// written.
pub proof fn redundant_cubes_are_reported(
    branch: CondBranch,
    e: ExprAst,
    d: Set<Set<Literal>>,
    span: Span,
)
    requires
        branch.expr matches CondExpr::Parsed(x) && *x == e,
        dnf_of(e, Seq::empty(), false).dnf == Some(d),
    ensures
        says_at(BooleanDnfRedundancy::on_branch(&(), branch), span) <==> branch.data == span && (
        e.bare() is Not || (e.bare() matches ExprAst::Binary { kind, .. } && (kind == BinOp::LogAnd
            || kind == BinOp::LogOr))) && minimal(d) != Set::<Set<Literal>>::empty() && !minimal(
            d,
        ).contains(Set::<Literal>::empty()) && (minimal(d).len() < d.len() || minimal(d).len()
            < operands(e, BinOp::LogOr).len()),
{
    match analysis(branch.expr) {
        Some(a) => lemma_says_given(is_redundant(a), redundancy_report(a, branch.data), span),
        None => {},
    }
}

} // verus!
