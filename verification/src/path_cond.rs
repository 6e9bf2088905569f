//! What is known to hold where a branch stands: the conditions of the
//! branches around it, and the failure of those before it in its chain.
use vstd::prelude::*;

use crate::ast::{CondBranch, Conditional, Item, Section, SpecFile};
use crate::condition::{asked_dnf, asked_to_dnf, opt_dnf, opt_dnf_wf, AtomTable, Converted};
use crate::diagnostic::{reports, Diagnostic, DiagnosticView};
use crate::dnf::{bounded, distribute_and, product, Cube, Dnf, Literal};

verus! {

/// Conditionals nested deeper than this are not followed.
pub const MAX_PATH_STACK_DEPTH: usize = 64;

/// The conjunction of two conditions, where both are known.
pub open spec fn both(a: Option<Set<Set<Literal>>>, b: Option<Set<Set<Literal>>>) -> Option<
    Set<Set<Literal>>,
> {
    match (a, b) {
        (Some(x), Some(y)) => bounded(product(x, y)),
        _ => None,
    }
}

/// The normal form of the condition of a branch, negated where `negate` is
/// set. After `%ifnarch` and `%ifnos` that is the negation of the list.
pub open spec fn branch_dnf(b: CondBranch, keys: Seq<Seq<char>>, negate: bool) -> Converted {
    asked_dnf(b.expr, b.kind.asks_system(), keys, negate != b.kind.inverts())
}

pub fn branch_to_dnf(b: &CondBranch, atoms: &mut AtomTable, negate: bool) -> (r: Option<Dnf>)
    ensures
        opt_dnf(r) == branch_dnf(*b, old(atoms)@, negate).dnf,
        final(atoms)@ == branch_dnf(*b, old(atoms)@, negate).keys,
        opt_dnf_wf(r),
{
    asked_to_dnf(&b.expr, b.kind.is_system(), atoms, negate != b.kind.is_inverted())
}

/// The conjunction of `start` with the negations of `prior`, in order. It is
/// given up at the first condition without a normal form.
pub open spec fn minus(start: Converted, prior: Seq<CondBranch>) -> Converted
    decreases prior.len(),
{
    if prior.len() == 0 {
        start
    } else {
        let rest = minus(start, prior.drop_last());
        match rest.dnf {
            None => rest,
            Some(_) => {
                let n = branch_dnf(prior.last(), rest.keys, true);
                Converted { dnf: both(rest.dnf, n.dnf), keys: n.keys }
            },
        }
    }
}

/// The condition under which a branch is taken: its own, where none of the
/// branches before it was.
pub open spec fn branch_effect(b: CondBranch, prior: Seq<CondBranch>, keys: Seq<Seq<char>>) -> Converted {
    minus(branch_dnf(b, keys, false), prior)
}

/// The condition that is always true.
pub open spec fn always() -> Set<Set<Literal>> {
    set![Set::<Literal>::empty()]
}

/// The condition under which an `%else` is taken: no branch was.
pub open spec fn else_effect(prior: Seq<CondBranch>, keys: Seq<Seq<char>>) -> Converted {
    minus(Converted { dnf: Some(always()), keys }, prior)
}

/// What holds at the top of a stack of conditions: nothing is known at its
/// bottom, nor under a condition without a normal form.
pub open spec fn current(stack: Seq<Option<Set<Set<Literal>>>>) -> Option<Set<Set<Literal>>> {
    if stack.len() == 0 {
        None
    } else {
        stack.last()
    }
}

/// Whether a condition around has no normal form.
pub open spec fn tainted(stack: Seq<Option<Set<Set<Literal>>>>) -> bool {
    stack.len() > 0 && stack.last() is None
}

/// What holds in a branch, from what holds around it.
pub open spec fn frame(
    stack: Seq<Option<Set<Set<Literal>>>>,
    effect: Option<Set<Set<Literal>>>,
) -> Option<Set<Set<Literal>>> {
    if stack.len() == 0 {
        effect
    } else {
        both(stack.last(), effect)
    }
}

/// The stack as it is computed with.
pub open spec fn stack_view(stack: Seq<Option<Dnf>>) -> Seq<Option<Set<Set<Literal>>>> {
    stack.map_values(|d: Option<Dnf>| opt_dnf(d))
}

pub open spec fn stack_wf(stack: Seq<Option<Dnf>>) -> bool {
    forall|i: int| 0 <= i < stack.len() ==> opt_dnf_wf(#[trigger] stack[i])
}

pub fn conjoin(a: &Dnf, b: &Dnf) -> (r: Option<Dnf>)
    requires
        a.wf(),
        b.wf(),
    ensures
        opt_dnf(r) == bounded(product(a@, b@)),
        opt_dnf_wf(r),
{
    distribute_and(a, b)
}

/// Whether a normal form has no satisfying assignment: it has no cube.
pub fn is_unsat(d: &Dnf) -> (r: bool)
    ensures
        r == (d@ == Set::<Set<Literal>>::empty()),
{
    d.is_empty()
}

fn subtract(
    start: Option<Dnf>,
    branches: &Vec<CondBranch>,
    n: usize,
    atoms: &mut AtomTable,
) -> (r: Option<Dnf>)
    requires
        n <= branches.len(),
        opt_dnf_wf(start),
    ensures
        opt_dnf(r) == minus(
            Converted { dnf: opt_dnf(start), keys: old(atoms)@ },
            branches@.take(n as int),
        ).dnf,
        final(atoms)@ == minus(
            Converted { dnf: opt_dnf(start), keys: old(atoms)@ },
            branches@.take(n as int),
        ).keys,
        opt_dnf_wf(r),
{
    let ghost first = Converted { dnf: opt_dnf(start), keys: atoms@ };
    let ghost hs = branches@.take(n as int);
    let mut acc = start;
    let mut i: usize = 0;
    while i < n
        invariant
            i <= n <= branches.len(),
            hs == branches@.take(n as int),
            opt_dnf_wf(acc),
            opt_dnf(acc) == minus(first, hs.take(i as int)).dnf,
            atoms@ == minus(first, hs.take(i as int)).keys,
        decreases n - i,
    {
        proof {
            assert(hs.take(i + 1).drop_last() == hs.take(i as int));
            assert(hs.take(i + 1).last() == branches@[i as int]);
        }
        acc = match acc {
            None => None,
            Some(d) => match branch_to_dnf(&branches[i], atoms, true) {
                None => None,
                Some(neg) => conjoin(&d, &neg),
            },
        };
        i = i + 1;
    }
    assert(hs.take(i as int) == hs);
    acc
}

/// The condition under which branch `n` is taken.
pub fn branch_effective_dnf(branches: &Vec<CondBranch>, n: usize, atoms: &mut AtomTable) -> (r:
    Option<Dnf>)
    requires
        n < branches.len(),
    ensures
        opt_dnf(r) == branch_effect(
            branches@[n as int],
            branches@.take(n as int),
            old(atoms)@,
        ).dnf,
        final(atoms)@ == branch_effect(
            branches@[n as int],
            branches@.take(n as int),
            old(atoms)@,
        ).keys,
        opt_dnf_wf(r),
{
    let own = branch_to_dnf(&branches[n], atoms, false);
    subtract(own, branches, n, atoms)
}

/// The condition under which the `%else` after `branches` is taken.
pub fn else_effective_dnf(branches: &Vec<CondBranch>, atoms: &mut AtomTable) -> (r: Option<Dnf>)
    ensures
        opt_dnf(r) == else_effect(branches@, old(atoms)@).dnf,
        final(atoms)@ == else_effect(branches@, old(atoms)@).keys,
        opt_dnf_wf(r),
{
    let mut top = Dnf::new();
    top.insert(Cube::new());
    assert(top@ =~= always());
    assert(branches@.take(branches@.len() as int) =~= branches@);
    subtract(Some(top), branches, branches.len(), atoms)
}

pub fn compute_frame(stack: &Vec<Option<Dnf>>, effect: Option<Dnf>) -> (r: Option<Dnf>)
    requires
        stack_wf(stack@),
        opt_dnf_wf(effect),
    ensures
        opt_dnf(r) == frame(stack_view(stack@), opt_dnf(effect)),
        opt_dnf_wf(r),
{
    if stack.len() == 0 {
        return effect;
    }
    assert(stack_view(stack@).last() == opt_dnf(stack@.last()));
    assert(opt_dnf_wf(stack@[stack@.len() - 1]));
    match (&stack[stack.len() - 1], &effect) {
        (Some(p), Some(e)) => conjoin(p, e),
        _ => None,
    }
}

/// The condition that is known to hold, if any.
pub fn current_path(stack: &Vec<Option<Dnf>>) -> (r: Option<&Dnf>)
    requires
        stack_wf(stack@),
    ensures
        r is Some <==> current(stack_view(stack@)) is Some,
        r matches Some(d) ==> d.wf() && current(stack_view(stack@)) == Some(d@),
{
    if stack.len() == 0 {
        return None;
    }
    assert(stack_view(stack@).last() == opt_dnf(stack@.last()));
    assert(opt_dnf_wf(stack@[stack@.len() - 1]));
    match &stack[stack.len() - 1] {
        Some(d) => Some(d),
        None => None,
    }
}

fn is_tainted(stack: &Vec<Option<Dnf>>) -> (r: bool)
    ensures
        r == tainted(stack_view(stack@)),
{
    if stack.len() == 0 {
        return false;
    }
    assert(stack_view(stack@).last() == opt_dnf(stack@.last()));
    stack[stack.len() - 1].is_none()
}

pub fn push_frame(stack: &mut Vec<Option<Dnf>>, f: Option<Dnf>)
    requires
        stack_wf(old(stack)@),
        opt_dnf_wf(f),
    ensures
        final(stack)@ == old(stack)@.push(f),
        stack_view(final(stack)@) == stack_view(old(stack)@).push(opt_dnf(f)),
        stack_wf(final(stack)@),
{
    stack.push(f);
    assert(stack_view(stack@) =~= stack_view(old(stack)@).push(opt_dnf(f)));
}

// ---------------------------------------------------------------------
// Following the conditions through a spec file
// ---------------------------------------------------------------------

/// A branch together with what is known where it stands.
pub struct Situation {
    /// Its position in its chain.
    pub index: int,
    pub branch: CondBranch,
    /// The condition under which it is taken.
    pub effect: Option<Set<Set<Literal>>>,
    /// What holds around the chain.
    pub path: Option<Set<Set<Literal>>>,
    /// The atoms met so far.
    pub keys: Seq<Seq<char>>,
}

/// A rule on single branches.
pub trait BranchAnalyser {
    /// What the rule says of a branch.
    spec fn verdict(s: Situation) -> Seq<DiagnosticView>;

    fn on_branch(
        branch: &CondBranch,
        index: usize,
        effect: &Option<Dnf>,
        path: Option<&Dnf>,
        atoms: &AtomTable,
        out: &mut Vec<Diagnostic>,
    )
        requires
            opt_dnf_wf(*effect),
            path matches Some(p) ==> p.wf(),
        ensures
            reports(final(out)@) == reports(old(out)@) + Self::verdict(
                Situation {
                    index: index as int,
                    branch: *branch,
                    effect: opt_dnf(*effect),
                    path: path_view(path),
                    keys: atoms@,
                },
            ),
    ;
}

/// What an optional known condition says.
pub open spec fn path_view(path: Option<&Dnf>) -> Option<Set<Set<Literal>>> {
    match path {
        Some(d) => Some(d@),
        None => None,
    }
}

/// The atoms met and the diagnostics given so far.
pub struct Progress {
    pub keys: Seq<Seq<char>>,
    pub out: Seq<DiagnosticView>,
}

pub open spec fn analysed_items<R: BranchAnalyser>(
    items: Seq<Item>,
    stack: Seq<Option<Set<Set<Literal>>>>,
    p: Progress,
) -> Progress
    decreases items, 0int,
{
    if items.len() == 0 {
        p
    } else {
        analysed_item::<R>(
            items.last(),
            stack,
            analysed_items::<R>(items.drop_last(), stack, p),
        )
    }
}

pub open spec fn analysed_item<R: BranchAnalyser>(
    item: Item,
    stack: Seq<Option<Set<Set<Literal>>>>,
    p: Progress,
) -> Progress
    decreases item, 0int,
{
    match item {
        Item::Conditional(c) => analysed_cond::<R>(c, stack, p),
        Item::Section(s) => analysed_section::<R>(*s, stack, p),
        _ => p,
    }
}

pub open spec fn analysed_section<R: BranchAnalyser>(
    section: Section,
    stack: Seq<Option<Set<Set<Literal>>>>,
    p: Progress,
) -> Progress
    decreases section, 0int,
{
    match section {
        Section::Package { content, .. } => analysed_items::<R>(content@, stack, p),
        Section::Files { content, .. } => analysed_items::<R>(content@, stack, p),
        _ => p,
    }
}

pub open spec fn analysed_cond<R: BranchAnalyser>(
    c: Conditional,
    stack: Seq<Option<Set<Set<Literal>>>>,
    p: Progress,
) -> Progress
    decreases c, c.branches@.len() + 1,
{
    if c.branches@.len() == 0 || stack.len() >= MAX_PATH_STACK_DEPTH {
        p
    } else {
        let q = analysed_arms::<R>(c, stack, p, c.branches@.len());
        match c.otherwise {
            None => q,
            Some(body) => {
                let e = else_effect(c.branches@, q.keys);
                analysed_items::<R>(
                    body@,
                    stack.push(frame(stack, e.dnf)),
                    Progress { keys: e.keys, out: q.out },
                )
            },
        }
    }
}

/// The first `n` branches of `c`.
pub open spec fn analysed_arms<R: BranchAnalyser>(
    c: Conditional,
    stack: Seq<Option<Set<Set<Literal>>>>,
    p: Progress,
    n: nat,
) -> Progress
    decreases c, n,
{
    if n == 0 || n > c.branches@.len() {
        p
    } else {
        let q = analysed_arms::<R>(c, stack, p, (n - 1) as nat);
        let b = c.branches@[n - 1];
        let e = branch_effect(b, c.branches@.take(n - 1), q.keys);
        let said = if tainted(stack) {
            Seq::empty()
        } else {
            R::verdict(
                Situation {
                    index: n - 1,
                    branch: b,
                    effect: e.dnf,
                    path: current(stack),
                    keys: e.keys,
                },
            )
        };
        analysed_items::<R>(
            b.body@,
            stack.push(frame(stack, e.dnf)),
            Progress { keys: e.keys, out: q.out + said },
        )
    }
}

/// What the rule says of all of `spec`.
pub open spec fn analysed<R: BranchAnalyser>(spec: SpecFile, p: Progress) -> Progress {
    analysed_items::<R>(spec.items@, Seq::empty(), p)
}

fn analyse_items<R: BranchAnalyser>(
    items: &Vec<Item>,
    stack: &mut Vec<Option<Dnf>>,
    atoms: &mut AtomTable,
    out: &mut Vec<Diagnostic>,
)
    requires
        stack_wf(old(stack)@),
    ensures
        final(stack)@ == old(stack)@,
        (Progress { keys: final(atoms)@, out: reports(final(out)@) }) == analysed_items::<R>(
            items@,
            stack_view(old(stack)@),
            Progress { keys: old(atoms)@, out: reports(old(out)@) },
        ),
    decreases items, 0int,
{
    let ghost st = stack_view(stack@);
    let ghost p0 = Progress { keys: atoms@, out: reports(out@) };
    let mut i: usize = 0;
    while i < items.len()
        invariant
            i <= items.len(),
            stack@ == old(stack)@,
            stack_wf(stack@),
            st == stack_view(stack@),
            (Progress { keys: atoms@, out: reports(out@) }) == analysed_items::<R>(
                items@.take(i as int),
                st,
                p0,
            ),
        decreases items.len() - i,
    {
        proof {
            assert(items@.take(i + 1).drop_last() == items@.take(i as int));
            assert(items@.take(i + 1).last() == items@[i as int]);
        }
        let ghost p = Progress { keys: atoms@, out: reports(out@) };
        match &items[i] {
            Item::Conditional(c) => {
                analyse_conditional::<R>(c, stack, atoms, out);
            },
            Item::Section(s) => {
                assert(analysed_item::<R>(items@[i as int], st, p) == analysed_section::<R>(
                    **s,
                    st,
                    p,
                ));
                match &**s {
                    Section::Package { content, .. } => {
                        analyse_items::<R>(content, stack, atoms, out);
                    },
                    Section::Files { content, .. } => {
                        analyse_items::<R>(content, stack, atoms, out);
                    },
                    _ => {},
                }
            },
            _ => {},
        }
        assert((Progress { keys: atoms@, out: reports(out@) }) == analysed_item::<R>(
            items@[i as int],
            st,
            p,
        ));
        i = i + 1;
    }
    assert(items@.take(i as int) == items@);
}

fn analyse_conditional<R: BranchAnalyser>(
    c: &Conditional,
    stack: &mut Vec<Option<Dnf>>,
    atoms: &mut AtomTable,
    out: &mut Vec<Diagnostic>,
)
    requires
        stack_wf(old(stack)@),
    ensures
        final(stack)@ == old(stack)@,
        (Progress { keys: final(atoms)@, out: reports(final(out)@) }) == analysed_cond::<R>(
            *c,
            stack_view(old(stack)@),
            Progress { keys: old(atoms)@, out: reports(old(out)@) },
        ),
    decreases c, 0int,
{
    if c.branches.len() == 0 || stack.len() >= MAX_PATH_STACK_DEPTH {
        return ;
    }
    let ghost st = stack_view(stack@);
    let ghost p0 = Progress { keys: atoms@, out: reports(out@) };
    let silent = is_tainted(stack);
    let mut i: usize = 0;
    while i < c.branches.len()
        invariant
            i <= c.branches.len(),
            stack@ == old(stack)@,
            stack_wf(stack@),
            st == stack_view(stack@),
            silent == tainted(st),
            (Progress { keys: atoms@, out: reports(out@) }) == analysed_arms::<R>(
                *c,
                st,
                p0,
                i as nat,
            ),
        decreases c.branches.len() - i,
    {
        let ghost said_before = reports(out@);
        let effect = branch_effective_dnf(&c.branches, i, atoms);
        if !silent {
            let path = current_path(stack);
            R::on_branch(&c.branches[i], i, &effect, path, atoms, out);
        } else {
            assert(said_before + Seq::<DiagnosticView>::empty() == said_before);
        }
        let f = compute_frame(stack, effect);
        push_frame(stack, f);
        analyse_items::<R>(&c.branches[i].body, stack, atoms, out);
        let _top = stack.pop();
        assert(stack@ == old(stack)@);
        i = i + 1;
    }
    match &c.otherwise {
        Some(body) => {
            let effect = else_effective_dnf(&c.branches, atoms);
            let f = compute_frame(stack, effect);
            push_frame(stack, f);
            analyse_items::<R>(body, stack, atoms, out);
            let _top = stack.pop();
            assert(stack@ == old(stack)@);
        },
        None => {},
    }
}

/// Runs a rule on single branches over `spec`.
pub fn analyse<R: BranchAnalyser>(
    spec: &SpecFile,
    atoms: &mut AtomTable,
    out: &mut Vec<Diagnostic>,
)
    ensures
        (Progress { keys: final(atoms)@, out: reports(final(out)@) }) == analysed::<R>(
            *spec,
            Progress { keys: old(atoms)@, out: reports(old(out)@) },
        ),
{
    let mut stack: Vec<Option<Dnf>> = Vec::new();
    assert(stack_view(stack@) =~= Seq::empty());
    analyse_items::<R>(&spec.items, &mut stack, atoms, out);
}

} // verus!
