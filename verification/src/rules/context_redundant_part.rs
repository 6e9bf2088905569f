//! Operands of a conjunction that hold wherever it is asked.
use vstd::prelude::*;

use crate::ast::{CondBranch, SpecFile, Span};
use crate::condition::{AtomTable, opt_dnf};
use crate::diagnostic::{Diagnostic, DiagnosticView, LintCategory, Severity, plain, reports};
use crate::dnf::{
    AtomId, Cube, Dnf, Literal, MAX_ATOMS_FOR_TAUTOLOGY, cube_holds, cube_views, dnf_holds,
    entails, literal_holds, path_implies,
};
use crate::laws::{lemma_more_atoms, sound, truth_table_decides_implication, valuation, within};
use crate::lint::{Identity, Lint, LintMetadata, drain};
use crate::path_cond::{
    BranchAnalyser, Progress, Situation, analyse, analysed, branch_dnf, branch_to_dnf, path_view,
};
use crate::path_laws::{
    branch_truth, every_diagnostic_is_about_a_branch, explained, faithful, leads,
    normal_form_means_branch, reached,
};
use crate::rules::say;
use crate::text::{before, count, decimal};
use crate::walk::StepView;
use crate::report_laws::{lemma_says_one, says_at};

verus! {

/// Whether `path` implies `l`, by truth table over the first `n` atoms.
pub open spec fn implies_literal(path: Set<Set<Literal>>, l: Literal, n: nat) -> bool {
    entails(path, set![set![l]], n)
}

/// The literals of `cube` that `path` implies.
pub open spec fn implied_part(cube: Set<Literal>, path: Set<Set<Literal>>, n: nat) -> Set<Literal> {
    cube.filter(|l: Literal| implies_literal(path, l, n))
}

/// The operands of a conjunction that what holds around it implies, unless
/// it implies all of them or none.
pub open spec fn redundant_part(s: Situation) -> Option<Set<Literal>> {
    let head = branch_dnf(s.branch, s.keys, false);
    match (s.path, head.dnf) {
        (Some(path), Some(d)) => if path != Set::<Set<Literal>>::empty() && d.len() == 1
            && head.keys.len() <= MAX_ATOMS_FOR_TAUTOLOGY {
            let cube = d.choose();
            let part = implied_part(cube, path, head.keys.len());
            if part != Set::<Literal>::empty() && part != cube {
                Some(part)
            } else {
                None
            }
        } else {
            None
        },
        _ => None,
    }
}

/// The number of literals that `path` implies, if they can be enumerated and
/// are neither none nor all.
fn count_implied(cube: &Cube, path: &Dnf, atom_count: usize) -> (r: Option<usize>)
    requires
        cube.wf(),
    ensures
        r is Some <==> atom_count <= MAX_ATOMS_FOR_TAUTOLOGY && implied_part(
            cube@,
            path@,
            atom_count as nat,
        ) != Set::<Literal>::empty() && implied_part(cube@, path@, atom_count as nat) != cube@,
        r matches Some(n) ==> n == implied_part(cube@, path@, atom_count as nat).len(),
{
    if atom_count > MAX_ATOMS_FOR_TAUTOLOGY {
        return None;
    }
    let ghost part = implied_part(cube@, path@, atom_count as nat);
    let mut dropped = Cube::new();
    let mut i: usize = 0;
    while i < cube.lits.len()
        invariant
            i <= cube.lits.len(),
            atom_count <= MAX_ATOMS_FOR_TAUTOLOGY,
            part == implied_part(cube@, path@, atom_count as nat),
            dropped.wf(),
            forall|l: Literal|
                dropped@.contains(l) <==> (cube.lits@.take(i as int).contains(l) && implies_literal(
                    path@,
                    l,
                    atom_count as nat,
                )),
        decreases cube.lits.len() - i,
    {
        let lit = cube.lits[i];
        let alone = Dnf::of(lit);
        let implied = match path_implies(path, &alone, atom_count) {
            Some(b) => b,
            None => false,
        };
        assert(implied == implies_literal(path@, lit, atom_count as nat));
        let ghost before = dropped@;
        if implied {
            dropped.insert(lit);
        }
        proof {
            crate::dnf::lemma_take_to_set(cube.lits@, i as int);
            assert forall|l: Literal|
                cube.lits@.take(i + 1).contains(l) <==> (cube.lits@.take(i as int).contains(l) || l == lit) by {
                assert(cube.lits@.take(i + 1).to_set().contains(l) == cube.lits@.take(i as int).to_set().insert(lit).contains(l));
            }
            assert forall|l: Literal|
                dropped@.contains(l) <==> (cube.lits@.take(i + 1).contains(l) && implies_literal(
                    path@,
                    l,
                    atom_count as nat,
                )) by {
                assert(before.contains(l) <==> (cube.lits@.take(i as int).contains(l) && implies_literal(
                    path@,
                    l,
                    atom_count as nat,
                )));
                assert(dropped@.contains(l) <==> (before.contains(l) || (implied && l == lit)));
            }
        }
        i = i + 1;
    }
    proof {
        assert(cube.lits@.take(i as int) == cube.lits@);
        assert(dropped@ =~= part);
    }
    let n: usize = dropped.len();
    if dropped.is_empty() || dropped.same(cube) {
        return None;
    }
    Some(n)
}

fn count_redundant(branch: &CondBranch, path: Option<&Dnf>, atoms: &AtomTable) -> (r: Option<usize>)
    requires
        path matches Some(p) ==> p.wf(),
    ensures
        forall|s: Situation|
            s.branch == *branch && s.path == path_view(path) && s.keys == atoms@ ==> {
                &&& r is Some <==> #[trigger] redundant_part(s) is Some
                &&& r matches Some(n) ==> n == redundant_part(s).unwrap().len()
            },
{
    let p = match path {
        Some(p) => p,
        None => {
            return None;
        },
    };
    if p.is_empty() {
        return None;
    }
    let mut table = atoms.copy();
    let dnf = match branch_to_dnf(branch, &mut table, false) {
        Some(d) => d,
        None => {
            return None;
        },
    };
    let n: usize = dnf.len();
    if n != 1 {
        return None;
    }
    proof {
        let v = cube_views(dnf.cubes@);
        cube_views(dnf.cubes@).unique_seq_to_set();
        assert(v.len() == 1);
        let c = dnf@.choose();
        assert(dnf@.len() == 1);
        assert(dnf@.contains(c)) by {
            assert(v[0] == dnf.cubes@[0]@);
            assert(dnf@.contains(v[0]));
        }
        let k = choose|k: int| 0 <= k < v.len() && v[k] == c;
        assert(v[0] == c);
        assert(dnf.cubes@[0]@ == c);
    }
    count_implied(&dnf.cubes[0], p, table.len())
}

/// RPM430 `context-redundant-condition-part`: `%if` expression contains a conjunct already
/// implied by the enclosing path — drop the redundant operand.
#[derive(Debug)]
pub struct ContextRedundantPart {
    pub diagnostics: Vec<Diagnostic>,
    pub atoms: AtomTable,
}

impl ContextRedundantPart {
    pub fn new() -> (r: ContextRedundantPart)
        ensures
            r.pending() == Seq::<DiagnosticView>::empty(),
            r.atoms@ == Seq::<Seq<char>>::empty(),
    {
        let r = ContextRedundantPart { diagnostics: Vec::new(), atoms: AtomTable::new() };
        assert(r.pending() =~= Seq::<DiagnosticView>::empty());
        r
    }
}

impl Default for ContextRedundantPart {
    fn default() -> (r: ContextRedundantPart)
        ensures
            r.pending() == Seq::<DiagnosticView>::empty(),
            r.atoms@ == Seq::<Seq<char>>::empty(),
    {
        ContextRedundantPart::new()
    }
}

impl Lint for ContextRedundantPart {
    open spec fn identity() -> Identity {
        Identity {
            id: "RPM430"@,
            name: "context-redundant-condition-part"@,
            description: "`%if` expression contains a conjunct already implied by the enclosing path — drop the redundant operand."@,
            default_severity: Severity::Warn,
            category: LintCategory::Style,
        }
    }

    open spec fn pending(&self) -> Seq<DiagnosticView> {
        reports(self.diagnostics@)
    }

    open spec fn after(&self, spec: SpecFile) -> Seq<DiagnosticView> {
        analysed::<ContextRedundantPart>(
            spec,
            Progress { keys: self.atoms@, out: self.pending() },
        ).out
    }

    open spec fn same_settings(&self, other: &Self) -> bool {
        true
    }

    fn metadata(&self) -> (r: LintMetadata) {
        LintMetadata {
            id: "RPM430",
            name: "context-redundant-condition-part",
            description: "`%if` expression contains a conjunct already implied by the enclosing path — drop the redundant operand.",
            default_severity: Severity::Warn,
            category: LintCategory::Style,
        }
    }

    fn visit_spec(&mut self, spec: &SpecFile)
        ensures
            final(self).atoms@ == analysed::<ContextRedundantPart>(
                *spec,
                Progress { keys: old(self).atoms@, out: old(self).pending() },
            ).keys,
    {
        analyse::<ContextRedundantPart>(spec, &mut self.atoms, &mut self.diagnostics);
    }

    fn take_diagnostics(&mut self) -> (r: Vec<Diagnostic>)
        ensures
            final(self).atoms@ == old(self).atoms@,
    {
        drain(&mut self.diagnostics)
    }
}

impl BranchAnalyser for ContextRedundantPart {
    open spec fn verdict(s: Situation) -> Seq<DiagnosticView> {
        match redundant_part(s) {
            Some(part) => seq![
                plain("RPM430"@, Severity::Warn, "`%if` expression contains "@ + decimal(part.len()) + " operand(s) already implied by the enclosing path; drop them"@, s.branch.data).advise(
                    "remove the redundant operand(s) from the inner `%if`"@,
                ),
            ],
            None => Seq::empty(),
        }
    }

    fn on_branch(
        branch: &CondBranch,
        index: usize,
        effect: &Option<Dnf>,
        path: Option<&Dnf>,
        atoms: &AtomTable,
        out: &mut Vec<Diagnostic>,
    ) {
        let ghost s = Situation {
            index: index as int,
            branch: *branch,
            effect: opt_dnf(*effect),
            path: path_view(path),
            keys: atoms@,
        };
        assert(redundant_part(s) is Some || redundant_part(s) is None);
        match count_redundant(branch, path, atoms) {
            Some(n) => {
                let mut message = String::from_str("`%if` expression contains ");
                message.append(count(n).as_str());
                message.append(" operand(s) already implied by the enclosing path; drop them");
                say(
                    out,
                    Diagnostic::new("RPM430", Severity::Warn, message.as_str(), branch.data).with_advice(
                        "remove the redundant operand(s) from the inner `%if`",
                    ),
                );
            },
            None => {
                assert(reports(out@) + Seq::<DiagnosticView>::empty() == reports(out@));
            },
        }
    }
}

/// `cube` is the condition of the last branch of `path`, and where the
/// branches around it are reached, what is left of it without `part` is true
/// exactly where all of it is.
pub open spec fn is_redundant(
    path: Seq<StepView>,
    keys: Seq<Seq<char>>,
    cube: Set<Literal>,
    part: Set<Literal>,
) -> bool {
    let branch = path.last().cond.branches@[path.last().arm];
    &&& part.subset_of(cube)
    &&& part != Set::<Literal>::empty()
    &&& part != cube
    &&& forall|val: spec_fn(Seq<char>) -> bool|
        branch_truth(branch, val) == cube_holds(cube, #[trigger] valuation(keys, val))
    &&& forall|val: spec_fn(Seq<char>) -> bool|
        #[trigger] reached(path.drop_last(), val) ==> (branch_truth(branch, val) == cube_holds(
            cube.difference(part),
            valuation(keys, val),
        ))
}

/// The operands that are reported can be dropped: where the branches around
/// are reached, the condition is true exactly where its other operands are.
pub proof fn reported_operands_can_be_dropped(
    rule: ContextRedundantPart,
    spec: SpecFile,
    i: int,
)
    requires
        analysed::<ContextRedundantPart>(
            spec,
            Progress { keys: rule.atoms@, out: rule.pending() },
        ).keys.len() <= usize::MAX,
        rule.pending().len() <= i < rule.after(spec).len(),
    ensures
        exists|path: Seq<StepView>, keys: Seq<Seq<char>>, cube: Set<Literal>, part: Set<Literal>|
            {
                &&& leads(spec.items@, path)
                &&& 0 <= path.last().arm < path.last().cond.branches@.len()
                &&& rule.after(spec)[i].primary_span
                    == path.last().cond.branches@[path.last().arm].data
                &&& rule.after(spec)[i].message == "`%if` expression contains "@ + decimal(
                    part.len(),
                ) + " operand(s) already implied by the enclosing path; drop them"@
                &&& #[trigger] is_redundant(path, keys, cube, part)
            },
{
    let p = Progress { keys: rule.atoms@, out: rule.pending() };
    let d = rule.after(spec)[i];
    every_diagnostic_is_about_a_branch::<ContextRedundantPart>(spec, p);
    assert(explained::<ContextRedundantPart>(spec.items@, Seq::empty(), d));
    let none = Seq::<StepView>::empty();
    let (path, s) = choose|path: Seq<StepView>, s: Situation|
        #![trigger leads(spec.items@, path), faithful(s, none + path)]
        leads(spec.items@, path) && faithful(s, none + path) && ContextRedundantPart::verdict(
            s,
        ).contains(d);
    assert(none + path =~= path);
    let part = redundant_part(s).unwrap();
    let head = branch_dnf(s.branch, s.keys, false);
    let n = head.keys.len();
    let outer = s.path.unwrap();
    let form = head.dnf.unwrap();
    let cube = form.choose();
    normal_form_means_branch(s.branch, s.keys, false, |k: Seq<char>| true);
    lemma_single(form);
    assert(within(cube, n));
    assert forall|val: spec_fn(Seq<char>) -> bool|
        branch_truth(s.branch, val) == cube_holds(cube, #[trigger] valuation(head.keys, val)) by {
        let env = valuation(head.keys, val);
        normal_form_means_branch(s.branch, s.keys, false, val);
        assert(form.contains(cube));
        if dnf_holds(form, env) {
            let c = choose|c: Set<Literal>| form.contains(c) && #[trigger] cube_holds(c, env);
            assert(c == cube);
        }
    }
    assert forall|val: spec_fn(Seq<char>) -> bool| #[trigger] reached(
        path.drop_last(),
        val,
    ) implies (branch_truth(s.branch, val) == cube_holds(
        cube.difference(part),
        valuation(head.keys, val),
    )) by {
        let env = valuation(head.keys, val);
        assert(dnf_holds(outer, valuation(s.keys, val)) == reached(path.drop_last(), val));
        lemma_more_atoms(outer, s.keys, head.keys, val);
        assert forall|l: Literal| part.contains(l) implies #[trigger] literal_holds(l, env) by {
            assert(implies_literal(outer, l, n));
            lemma_implied_literal(outer, l, n, env);
        }
        if cube_holds(cube.difference(part), env) {
            assert forall|l: Literal| cube.contains(l) implies #[trigger] literal_holds(l, env) by {
                if !part.contains(l) {
                    assert(cube.difference(part).contains(l));
                }
            }
        }
        assert(branch_truth(s.branch, val) == cube_holds(cube, env));
        if cube_holds(cube, env) {
            assert forall|l: Literal| cube.difference(part).contains(l) implies #[trigger] literal_holds(
                l,
                env,
            ) by {
                assert(cube.contains(l));
            }
        }
    }
    assert(is_redundant(path, head.keys, cube, part));
}

proof fn lemma_single(d: Set<Set<Literal>>)
    requires
        d.finite(),
        d.len() == 1,
    ensures
        d.contains(d.choose()),
        forall|c: Set<Literal>| #[trigger] d.contains(c) ==> c == d.choose(),
{
    if forall|c: Set<Literal>| !d.contains(c) {
        assert(d =~= Set::<Set<Literal>>::empty());
    }
    let c = d.choose();
    assert(d.contains(c));
    assert(d.remove(c).len() == 0);
    assert forall|o: Set<Literal>| #[trigger] d.contains(o) implies o == c by {
        if o != c {
            assert(d.remove(c).contains(o));
            d.remove(c).lemma_len0_is_empty();
        }
    }
}

proof fn lemma_implied_literal(
    path: Set<Set<Literal>>,
    l: Literal,
    n: nat,
    env: spec_fn(AtomId) -> bool,
)
    requires
        n <= MAX_ATOMS_FOR_TAUTOLOGY,
        sound(path, n),
        l.atom < n,
        implies_literal(path, l, n),
        dnf_holds(path, env),
    ensures
        literal_holds(l, env),
{
    let one = set![set![l]];
    assert forall|c: Set<Literal>| #[trigger] one.contains(c) implies within(c, n) by {
        assert(c == set![l]);
    }
    truth_table_decides_implication(path, one, n);
    assert(dnf_holds(one, env));
    let c = choose|c: Set<Literal>| one.contains(c) && #[trigger] cube_holds(c, env);
    assert(c == set![l]);
    assert(c.contains(l));
}

/// Whether a literal holds wherever `p` does.
pub open spec fn follows_from(p: Set<Set<Literal>>, l: Literal) -> bool {
    forall|env: spec_fn(AtomId) -> bool| #[trigger] dnf_holds(p, env) ==> literal_holds(l, env)
}

/// Of the conjunctions whose surroundings are known, exactly those are
/// reported of which some operands follow from what holds around them and
/// some do not.
pub proof fn implied_operands_are_reported(
    s: Situation,
    p: Set<Set<Literal>>,
    cube: Set<Literal>,
    span: Span,
)
    requires
        s.path == Some(p),
        p != Set::<Set<Literal>>::empty(),
        branch_dnf(s.branch, s.keys, false).dnf == Some(set![cube]),
        branch_dnf(s.branch, s.keys, false).keys.len() <= 8,
        within(cube, branch_dnf(s.branch, s.keys, false).keys.len()),
        forall|c: Set<Literal>| #[trigger]
            p.contains(c) ==> within(c, branch_dnf(s.branch, s.keys, false).keys.len()),
    ensures
        says_at(ContextRedundantPart::verdict(s), span) <==> s.branch.data == span && (exists|
            l: Literal,
        |
            cube.contains(l) && #[trigger] follows_from(p, l)) && (exists|l: Literal|
            cube.contains(l) && !#[trigger] follows_from(p, l)),
{
    let d = set![cube];
    let n = branch_dnf(s.branch, s.keys, false).keys.len();
    assert(d.contains(d.choose())) by {
        assert(d.contains(cube));
    }
    assert(d.choose() == cube);
    assert(d.len() == 1);
    assert forall|l: Literal| cube.contains(l) implies (implies_literal(p, l, n) <==> #[trigger]
    follows_from(p, l)) by {
        let q = set![set![l]];
        assert forall|c: Set<Literal>| #[trigger] q.contains(c) implies within(c, n) by {
            assert(c == set![l]);
        }
        truth_table_decides_implication(p, q, n);
        assert forall|env: spec_fn(AtomId) -> bool| #[trigger] dnf_holds(q, env) == literal_holds(
            l,
            env,
        ) by {
            if literal_holds(l, env) {
                assert(q.contains(set![l]));
                assert(cube_holds(set![l], env));
            }
            if dnf_holds(q, env) {
                let c = choose|c: Set<Literal>| q.contains(c) && #[trigger] cube_holds(c, env);
                assert(c == set![l]);
                assert(c.contains(l));
            }
        }
        if implies_literal(p, l, n) {
            assert forall|env: spec_fn(AtomId) -> bool| #[trigger] dnf_holds(p, env) implies
                literal_holds(l, env) by {
                assert(dnf_holds(q, env));
            }
        }
        if follows_from(p, l) {
            assert forall|env: spec_fn(AtomId) -> bool| #[trigger] dnf_holds(p, env) implies
                dnf_holds(q, env) by {
                assert(literal_holds(l, env));
            }
        }
    }
    let part = implied_part(cube, p, n);
    assert(part != Set::<Literal>::empty() <==> exists|l: Literal|
        cube.contains(l) && #[trigger] follows_from(p, l)) by {
        if part != Set::<Literal>::empty() {
            if forall|l: Literal| !part.contains(l) {
                assert(part =~= Set::<Literal>::empty());
            }
            let l = choose|l: Literal| part.contains(l);
            assert(cube.contains(l) && follows_from(p, l));
        }
        if exists|l: Literal| cube.contains(l) && #[trigger] follows_from(p, l) {
            let l = choose|l: Literal| cube.contains(l) && #[trigger] follows_from(p, l);
            assert(part.contains(l));
        }
    }
    assert(part != cube <==> exists|l: Literal| cube.contains(l) && !#[trigger] follows_from(p, l)) by {
        if forall|l: Literal| cube.contains(l) ==> #[trigger] follows_from(p, l) {
            assert forall|l: Literal| cube.contains(l) implies part.contains(l) by {
                assert(follows_from(p, l));
            }
            assert(part =~= cube);
        }
        if exists|l: Literal| cube.contains(l) && !#[trigger] follows_from(p, l) {
            let l = choose|l: Literal| cube.contains(l) && !#[trigger] follows_from(p, l);
            assert(!part.contains(l));
        }
    }
    let on = ContextRedundantPart::verdict(s);
    if redundant_part(s) is Some {
        lemma_says_one(on[0], span);
        assert(on =~= seq![on[0]]);
    }
}

} // verus!
