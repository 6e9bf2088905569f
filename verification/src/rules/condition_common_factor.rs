//! A literal that every cube of a condition shares.
use vstd::prelude::*;

use crate::ast::{CondBranch, CondExpr, Span, SpecFile};
use crate::condition::{AtomTable, cond_dnf, cond_to_dnf};
use crate::diagnostic::{Diagnostic, DiagnosticView, LintCategory, Severity, plain, reports};
use crate::dnf::{
    Cube, Dnf, Literal, cube_holds, cube_views, dnf_holds, literal_holds, minimal, simplify_subsumption,
};
use crate::laws::{cond_truth, reduced_form_decides, valuation};
use crate::lint::{Identity, Lint, LintMetadata, drain};
use crate::rules::{BranchRule, branch_findings, given, run_branches, say};
use crate::text::{count, decimal};
use crate::report_laws::{lemma_says_given, says_at};

verus! {

/// The literals that stand in every cube.
pub open spec fn common(d: Set<Set<Literal>>) -> Set<Literal> {
    Set::new(|l: Literal| forall|c: Set<Literal>| #[trigger] d.contains(c) ==> c.contains(l))
}

/// The normal form of a condition without redundant cubes.
pub open spec fn reduced(c: CondExpr) -> Option<Set<Set<Literal>>> {
    match cond_dnf(c, Seq::empty(), false).dnf {
        Some(d) => Some(minimal(d)),
        None => None,
    }
}

/// Whether at least two cubes share literals and each holds more than those.
pub open spec fn factorable(d: Set<Set<Literal>>) -> bool {
    &&& d.len() >= 2
    &&& !d.contains(Set::<Literal>::empty())
    &&& common(d) != Set::<Literal>::empty()
    &&& forall|c: Set<Literal>| #[trigger] d.contains(c) ==> c.len() > common(d).len()
}

pub open spec fn factor_report(d: Set<Set<Literal>>, span: Span) -> DiagnosticView {
    plain("RPM432"@, Severity::Warn, "`%if` expression has "@ + decimal(d.len()) + " cube(s) all sharing "@ + decimal(common(d).len()) + " common literal(s); factor the shared operand(s) out"@, span).advise(
        "rewrite as `factor && (rest_1 || rest_2 || …)`"@,
    )
}

/// Intersection of the literals of all cubes.
fn common_literals(dnf: &Dnf) -> (r: Cube)
    requires
        dnf.wf(),
        dnf@ != Set::<Set<Literal>>::empty(),
    ensures
        r.wf(),
        r@ == common(dnf@),
{
    let ghost v = cube_views(dnf.cubes@);
    if dnf.cubes.len() == 0 {
        assert(dnf@ =~= Set::empty());
    }
    let first = &dnf.cubes[0];
    let mut out = Cube::new();
    let mut i: usize = 0;
    while i < first.lits.len()
        invariant
            i <= first.lits.len(),
            *first == dnf.cubes@[0],
            dnf.cubes@.len() > 0,
            v == cube_views(dnf.cubes@),
            out.wf(),
            forall|l: Literal|
                out@.contains(l) <==> (first.lits@.take(i as int).contains(l) && forall|k: int|
                    0 <= k < v.len() ==> (#[trigger] v[k]).contains(l)),
        decreases first.lits.len() - i,
    {
        let lit = first.lits[i];
        let mut everywhere = true;
        let mut k: usize = 0;
        while k < dnf.cubes.len() && everywhere
            invariant
                k <= dnf.cubes.len(),
                v == cube_views(dnf.cubes@),
                everywhere ==> forall|j: int| 0 <= j < k ==> (#[trigger] v[j]).contains(lit),
                !everywhere ==> exists|j: int| 0 <= j < v.len() && !(#[trigger] v[j]).contains(lit),
            decreases dnf.cubes.len() - k,
        {
            assert(v[k as int] == dnf.cubes@[k as int]@);
            if !dnf.cubes[k].contains(lit) {
                everywhere = false;
            }
            k = k + 1;
        }
        if everywhere {
            out.insert(lit);
        }
        proof {
            crate::dnf::lemma_take_to_set(first.lits@, i as int);
            assert forall|l: Literal|
                first.lits@.take(i + 1).contains(l) <==> (first.lits@.take(i as int).contains(l) || l == lit) by {
                assert(first.lits@.take(i + 1).to_set().contains(l) == first.lits@.take(i as int).to_set().insert(lit).contains(l));
            }
        }
        i = i + 1;
    }
    proof {
        assert(first.lits@.take(i as int) == first.lits@);
        assert forall|l: Literal| out@.contains(l) <==> common(dnf@).contains(l) by {
            assert(v[0] == first@);
            if out@.contains(l) {
                assert forall|c: Set<Literal>| #[trigger] dnf@.contains(c) implies c.contains(l) by {
                    let k = choose|k: int| 0 <= k < v.len() && v[k] == c;
                    assert(v[k].contains(l));
                }
            }
            if common(dnf@).contains(l) {
                assert forall|k: int| 0 <= k < v.len() implies (#[trigger] v[k]).contains(l) by {
                    assert(dnf@.contains(v[k]));
                }
                assert(v[0].contains(l));
            }
        }
        assert(out@ =~= common(dnf@));
    }
    out
}

/// Whether every cube of `dnf` has more than `n` literals.
fn all_longer(dnf: &Dnf, n: usize) -> (r: bool)
    requires
        dnf.wf(),
    ensures
        r == forall|c: Set<Literal>| #[trigger] dnf@.contains(c) ==> c.len() > n,
{
    let ghost v = cube_views(dnf.cubes@);
    let mut i: usize = 0;
    while i < dnf.cubes.len()
        invariant
            i <= dnf.cubes.len(),
            dnf.wf(),
            v == cube_views(dnf.cubes@),
            forall|j: int| 0 <= j < i ==> (#[trigger] v[j]).len() > n,
        decreases dnf.cubes.len() - i,
    {
        assert(v[i as int] == dnf.cubes@[i as int]@);
        if dnf.cubes[i].len() <= n {
            assert(dnf@.contains(v[i as int]));
            return false;
        }
        i = i + 1;
    }
    assert forall|c: Set<Literal>| #[trigger] dnf@.contains(c) implies c.len() > n by {
        let k = choose|k: int| 0 <= k < v.len() && v[k] == c;
        assert(v[k].len() > n);
    }
    true
}

fn report_factor(cubes: usize, shared: usize, span: Span, out: &mut Vec<Diagnostic>)
    ensures
        forall|d: Set<Set<Literal>>|
            d.len() == cubes && common(d).len() == shared ==> reports(final(out)@) == reports(
                old(out)@,
            ) + seq![#[trigger] factor_report(d, span)],
{
    let mut message = String::from_str("`%if` expression has ");
    message.append(count(cubes).as_str());
    message.append(" cube(s) all sharing ");
    message.append(count(shared).as_str());
    message.append(" common literal(s); factor the shared operand(s) out");
    say(
        out,
        Diagnostic::new("RPM432", Severity::Warn, message.as_str(), span).with_advice(
            "rewrite as `factor && (rest_1 || rest_2 || …)`",
        ),
    );
}

/// RPM432 `condition-common-factor`: `%if` expression's normalised DNF cubes share a common
/// operand — factor it out (`(A && B) || (A && C)` → `A && (B || C)`).
#[derive(Debug)]
pub struct ConditionCommonFactor {
    pub diagnostics: Vec<Diagnostic>,
}

impl ConditionCommonFactor {
    pub fn new() -> (r: ConditionCommonFactor)
        ensures
            r.pending() == Seq::<DiagnosticView>::empty(),
    {
        let r = ConditionCommonFactor { diagnostics: Vec::new() };
        assert(r.pending() =~= Seq::<DiagnosticView>::empty());
        r
    }
}

impl Default for ConditionCommonFactor {
    fn default() -> (r: ConditionCommonFactor)
        ensures
            r.pending() == Seq::<DiagnosticView>::empty(),
    {
        ConditionCommonFactor::new()
    }
}

impl Lint for ConditionCommonFactor {
    open spec fn identity() -> Identity {
        Identity {
            id: "RPM432"@,
            name: "condition-common-factor"@,
            description: "`%if` expression's normalised DNF cubes share a common operand — factor it out (`(A && B) || (A && C)` → `A && (B || C)`)."@,
            default_severity: Severity::Allow,
            category: LintCategory::Style,
        }
    }

    open spec fn pending(&self) -> Seq<DiagnosticView> {
        reports(self.diagnostics@)
    }

    open spec fn after(&self, spec: SpecFile) -> Seq<DiagnosticView> {
        self.pending() + branch_findings::<ConditionCommonFactor>(&(), spec)
    }

    open spec fn same_settings(&self, other: &Self) -> bool {
        true
    }

    fn metadata(&self) -> (r: LintMetadata) {
        LintMetadata {
            id: "RPM432",
            name: "condition-common-factor",
            description: "`%if` expression's normalised DNF cubes share a common operand — factor it out (`(A && B) || (A && C)` → `A && (B || C)`).",
            default_severity: Severity::Allow,
            category: LintCategory::Style,
        }
    }

    fn visit_spec(&mut self, spec: &SpecFile) {
        run_branches::<ConditionCommonFactor>(&(), spec, &mut self.diagnostics);
    }

    fn take_diagnostics(&mut self) -> (r: Vec<Diagnostic>) {
        drain(&mut self.diagnostics)
    }
}

impl BranchRule for ConditionCommonFactor {
    type Settings = ();

    open spec fn on_branch(_settings: &(), branch: CondBranch) -> Seq<DiagnosticView> {
        match reduced(branch.expr) {
            Some(d) => given(factorable(d), factor_report(d, branch.data)),
            None => Seq::empty(),
        }
    }

    fn check_branch(_settings: &(), branch: &CondBranch, out: &mut Vec<Diagnostic>) {
        let mut atoms = AtomTable::new();
        match cond_to_dnf(&branch.expr, &mut atoms, false) {
            Some(raw) => {
                let (dnf, _) = simplify_subsumption(&raw);
                let n: usize = dnf.len();
                if n >= 2 && !dnf.has_empty_cube() {
                    assert(dnf@ != Set::<Set<Literal>>::empty());
                    let shared = common_literals(&dnf);
                    let k: usize = shared.len();
                    if !shared.is_empty() && all_longer(&dnf, k) {
                        report_factor(n, k, branch.data, out);
                        assert(factor_report(dnf@, branch.data) == factor_report(minimal(raw@), branch.data));
                        return ;
                    }
                }
            },
            None => {},
        }
        assert(reports(out@) + Seq::<DiagnosticView>::empty() == reports(out@));
    }
}

/// What is left of each cube without the common literals.
pub open spec fn rests(d: Set<Set<Literal>>) -> Set<Set<Literal>> {
    d.map(|c: Set<Literal>| c.difference(common(d)))
}

/// What is reported factors: the condition is true exactly where the common
/// literals are and what is left of some cube is.
pub proof fn common_factor_factors_out(c: CondExpr, val: spec_fn(Seq<char>) -> bool)
    requires
        reduced(c) matches Some(d) && factorable(d),
        cond_dnf(c, Seq::empty(), false).keys.len() <= usize::MAX,
    ensures
        ({
            let d = reduced(c).unwrap();
            let env = valuation(cond_dnf(c, Seq::empty(), false).keys, val);
            &&& cond_truth(c, val) == (cube_holds(common(d), env) && dnf_holds(rests(d), env))
            &&& forall|r: Set<Literal>| #[trigger]
                rests(d).contains(r) ==> r != Set::<Literal>::empty()
        }),
{
    let d = reduced(c).unwrap();
    let env = valuation(cond_dnf(c, Seq::empty(), false).keys, val);
    let f = common(d);
    reduced_form_decides(c);
    assert(dnf_holds(d, env) == cond_truth(c, val));
    if dnf_holds(d, env) {
        let x = choose|x: Set<Literal>| d.contains(x) && #[trigger] cube_holds(x, env);
        assert forall|l: Literal| f.contains(l) implies #[trigger] literal_holds(l, env) by {
            assert(x.contains(l));
        }
        let r = x.difference(f);
        assert(rests(d).contains(r));
        assert forall|l: Literal| r.contains(l) implies #[trigger] literal_holds(l, env) by {
            assert(x.contains(l));
        }
        assert(cube_holds(r, env));
    }
    if cube_holds(f, env) && dnf_holds(rests(d), env) {
        let r = choose|r: Set<Literal>| rests(d).contains(r) && #[trigger] cube_holds(r, env);
        let x = choose|x: Set<Literal>| d.contains(x) && r == x.difference(f);
        assert forall|l: Literal| x.contains(l) implies #[trigger] literal_holds(l, env) by {
            if !f.contains(l) {
                assert(r.contains(l));
            }
        }
        assert(cube_holds(x, env));
    }
    assert forall|r: Set<Literal>| #[trigger] rests(d).contains(r) implies r != Set::<
        Literal,
    >::empty() by {
        let x = choose|x: Set<Literal>| d.contains(x) && r == x.difference(f);
        if r == Set::<Literal>::empty() {
            assert forall|l: Literal| x.contains(l) implies f.contains(l) by {
                assert(!r.contains(l));
            }
            assert(x =~= f);
        }
    }
}

/// Whether a literal stands in every cube.
pub open spec fn is_shared(d: Set<Set<Literal>>, l: Literal) -> bool {
    forall|c: Set<Literal>| #[trigger] d.contains(c) ==> c.contains(l)
}

/// Exactly those conditions are reported whose reduced normal form has two
/// cubes or more that share a literal, and each of which holds more than what
/// they share.
pub proof fn shared_literals_are_reported(branch: CondBranch, d: Set<Set<Literal>>, span: Span)
    requires
        reduced(branch.expr) == Some(d),
    ensures
        says_at(ConditionCommonFactor::on_branch(&(), branch), span) <==> branch.data == span
            && d.len() > 1 && (exists|l: Literal| #[trigger] is_shared(d, l)) && (forall|
            c: Set<Literal>,
        | #[trigger]
            d.contains(c) ==> c.len() > common(d).len()),
        forall|l: Literal| #[trigger] common(d).contains(l) <==> is_shared(d, l),
{
    lemma_says_given(factorable(d), factor_report(d, branch.data), span);
    let shared = common(d);
    if shared != Set::<Literal>::empty() {
        if forall|l: Literal| !shared.contains(l) {
            assert(shared =~= Set::<Literal>::empty());
        }
        let l = choose|l: Literal| shared.contains(l);
        assert(is_shared(d, l));
    }
    if exists|l: Literal| #[trigger] is_shared(d, l) {
        let l = choose|l: Literal| #[trigger] is_shared(d, l);
        assert(shared.contains(l));
        if d.contains(Set::<Literal>::empty()) {
            assert(Set::<Literal>::empty().contains(l));
        }
    }
}

} // verus!
