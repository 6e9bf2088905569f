//! What the rules on nested conditionals promise: a branch that is reported
//! as dead is never taken, and one that is reported as implied always is.
use vstd::prelude::*;

use crate::ast::{CondBranch, CondExpr, Conditional, Item, Section, SpecFile};
use crate::condition::{arch_names, asked_dnf, cond_dnf, lemma_arch_keys, Converted};
use crate::diagnostic::DiagnosticView;
use crate::dnf::{dnf_holds, Literal};
use crate::laws::{
    asked_truth, lemma_keys_grow, lemma_more_atoms, lemma_sound_product, normal_form_means_question,
    product_means_and, sound, valuation,
};
use crate::path_cond::{
    always, analysed, analysed_arms, analysed_cond, analysed_item, analysed_items, branch_dnf,
    branch_effect, current, else_effect, frame, minus, tainted, BranchAnalyser, Progress, Situation,
    MAX_PATH_STACK_DEPTH,
};
use crate::walk::StepView;

verus! {

// ---------------------------------------------------------------------
// Branches and the way to them
// ---------------------------------------------------------------------

/// Whether a branch is taken where its turn comes. After `%ifnarch` and
/// `%ifnos` that is where none of the listed names is the right one.
pub open spec fn branch_truth(b: CondBranch, val: spec_fn(Seq<char>) -> bool) -> bool {
    asked_truth(b.expr, b.kind.asks_system(), val) != b.kind.inverts()
}

/// None of `prior` would be taken.
pub open spec fn none_true(prior: Seq<CondBranch>, val: spec_fn(Seq<char>) -> bool) -> bool {
    forall|i: int| 0 <= i < prior.len() ==> !branch_truth(#[trigger] prior[i], val)
}

/// A branch is taken: its turn comes, and its condition is true. The `%else`
/// is taken where its turn comes.
pub open spec fn taken(s: StepView, val: spec_fn(Seq<char>) -> bool) -> bool {
    &&& s.arm < s.cond.branches@.len() ==> branch_truth(s.cond.branches@[s.arm], val)
    &&& none_true(s.cond.branches@.take(s.arm), val)
}

/// Each of `path` is taken.
pub open spec fn reached(path: Seq<StepView>, val: spec_fn(Seq<char>) -> bool) -> bool {
    forall|i: int| 0 <= i < path.len() ==> taken(#[trigger] path[i], val)
}

/// `path` leads from `items` into nested branches, one inside the other.
pub open spec fn leads(items: Seq<Item>, path: Seq<StepView>) -> bool
    decreases items, 0int,
{
    items.len() > 0 && (leads_from(items.last(), path) || leads(items.drop_last(), path))
}

pub open spec fn leads_from(item: Item, path: Seq<StepView>) -> bool
    decreases item, 0int,
{
    match item {
        Item::Conditional(c) => path.len() > 0 && path[0].cond == c && {
            let arm = path[0].arm;
            if 0 <= arm < c.branches@.len() {
                path.len() == 1 || leads(c.branches@[arm].body@, path.skip(1))
            } else {
                match c.otherwise {
                    Some(body) => arm == c.branches@.len() && path.len() > 1 && leads(
                        body@,
                        path.skip(1),
                    ),
                    None => false,
                }
            }
        },
        Item::Section(s) => match *s {
            Section::Package { content, .. } => leads(content@, path),
            Section::Files { content, .. } => leads(content@, path),
            _ => false,
        },
        _ => false,
    }
}

// ---------------------------------------------------------------------
// Normal forms of branches
// ---------------------------------------------------------------------

/// A conversion only adds atoms.
pub proof fn lemma_cond_grows(c: CondExpr, keys: Seq<Seq<char>>, negate: bool)
    ensures
        keys.is_prefix_of(cond_dnf(c, keys, negate).keys),
{
    lemma_question_grows(c, false, keys, negate);
}

proof fn lemma_question_grows(c: CondExpr, system: bool, keys: Seq<Seq<char>>, negate: bool)
    ensures
        keys.is_prefix_of(asked_dnf(c, system, keys, negate).keys),
{
    match c {
        CondExpr::Raw(_) => {},
        CondExpr::Parsed(e) => lemma_keys_grow(*e, keys, negate),
        CondExpr::ArchList(list) => match arch_names(list@) {
            None => {},
            Some(names) => lemma_arch_keys(system, names, keys),
        },
    }
}

proof fn lemma_branch_grows(b: CondBranch, keys: Seq<Seq<char>>, negate: bool)
    ensures
        keys.is_prefix_of(branch_dnf(b, keys, negate).keys),
{
    lemma_question_grows(b.expr, b.kind.asks_system(), keys, negate != b.kind.inverts());
}

/// The normal form of the condition of a branch is true exactly where the
/// branch would be taken, or, where it was negated, exactly where it would
/// not.
pub proof fn normal_form_means_branch(
    b: CondBranch,
    keys: Seq<Seq<char>>,
    negate: bool,
    val: spec_fn(Seq<char>) -> bool,
)
    requires
        branch_dnf(b, keys, negate).keys.len() <= usize::MAX,
    ensures
        keys.is_prefix_of(branch_dnf(b, keys, negate).keys),
        branch_dnf(b, keys, negate).dnf matches Some(d) ==> {
            &&& sound(d, branch_dnf(b, keys, negate).keys.len())
            &&& dnf_holds(d, valuation(branch_dnf(b, keys, negate).keys, val)) == (branch_truth(
                b,
                val,
            ) != negate)
        },
{
    normal_form_means_question(
        b.expr,
        b.kind.asks_system(),
        keys,
        negate != b.kind.inverts(),
        val,
    );
}

pub proof fn lemma_prefix_chain<T>(a: Seq<T>, b: Seq<T>, c: Seq<T>)
    requires
        a.is_prefix_of(b),
        b.is_prefix_of(c),
    ensures
        a.is_prefix_of(c),
{
    assert(a =~= c.subrange(0, a.len() as int)) by {
        assert(forall|i: int| 0 <= i < a.len() ==> a[i] == b[i]);
        assert(forall|i: int| 0 <= i < b.len() ==> b[i] == c[i]);
    }
}

pub proof fn lemma_minus_grows(start: Converted, prior: Seq<CondBranch>)
    ensures
        start.keys.is_prefix_of(minus(start, prior).keys),
    decreases prior.len(),
{
    if prior.len() > 0 {
        let rest = minus(start, prior.drop_last());
        lemma_minus_grows(start, prior.drop_last());
        if rest.dnf is Some {
            lemma_branch_grows(prior.last(), rest.keys, true);
            lemma_prefix_chain(start.keys, rest.keys, branch_dnf(prior.last(), rest.keys, true).keys);
        }
    }
}

/// Taking away what holds before leaves what holds where nothing before does.
proof fn lemma_minus_means(
    start: Converted,
    prior: Seq<CondBranch>,
    holds: bool,
    val: spec_fn(Seq<char>) -> bool,
)
    requires
        minus(start, prior).keys.len() <= usize::MAX,
        start.dnf matches Some(d) ==> sound(d, start.keys.len()) && dnf_holds(
            d,
            valuation(start.keys, val),
        ) == holds,
    ensures
        minus(start, prior).dnf matches Some(d) ==> {
            &&& sound(d, minus(start, prior).keys.len())
            &&& dnf_holds(d, valuation(minus(start, prior).keys, val)) == (holds && none_true(
                prior,
                val,
            ))
        },
    decreases prior.len(),
{
    if prior.len() > 0 {
        let front = prior.drop_last();
        let rest = minus(start, front);
        if rest.dnf is Some {
            let n = branch_dnf(prior.last(), rest.keys, true);
            lemma_branch_grows(prior.last(), rest.keys, true);
            lemma_minus_means(start, front, holds, val);
            normal_form_means_branch(prior.last(), rest.keys, true, val);
            if n.dnf is Some {
                let a = rest.dnf.unwrap();
                let b = n.dnf.unwrap();
                lemma_more_atoms(a, rest.keys, n.keys, val);
                product_means_and(a, b, valuation(n.keys, val));
                lemma_sound_product(a, b, n.keys.len());
            }
            assert(none_true(prior, val) == (none_true(front, val) && !branch_truth(prior.last(), val)))
                by {
                if none_true(front, val) && !branch_truth(prior.last(), val) {
                    assert forall|i: int| 0 <= i < prior.len() implies !branch_truth(
                        #[trigger] prior[i],
                        val,
                    ) by {
                        if i < front.len() {
                            assert(prior[i] == front[i]);
                        }
                    }
                }
                if none_true(prior, val) {
                    assert forall|i: int| 0 <= i < front.len() implies !branch_truth(
                        #[trigger] front[i],
                        val,
                    ) by {
                        assert(prior[i] == front[i]);
                    }
                    assert(!branch_truth(prior[prior.len() - 1], val));
                }
            }
        }
    }
}

pub proof fn lemma_effect_grows(b: CondBranch, prior: Seq<CondBranch>, keys: Seq<Seq<char>>)
    ensures
        keys.is_prefix_of(branch_effect(b, prior, keys).keys),
{
    let own = branch_dnf(b, keys, false);
    lemma_branch_grows(b, keys, false);
    lemma_minus_grows(own, prior);
    lemma_prefix_chain(keys, own.keys, minus(own, prior).keys);
}

/// The condition that is computed for a branch is true exactly where the
/// branch's own is and none before it in the chain is.
pub proof fn branch_effect_means_taken(
    s: StepView,
    keys: Seq<Seq<char>>,
    val: spec_fn(Seq<char>) -> bool,
)
    requires
        0 <= s.arm < s.cond.branches@.len(),
        branch_effect(
            s.cond.branches@[s.arm],
            s.cond.branches@.take(s.arm),
            keys,
        ).keys.len() <= usize::MAX,
    ensures
        ({
            let e = branch_effect(
                s.cond.branches@[s.arm],
                s.cond.branches@.take(s.arm),
                keys,
            );
            e.dnf matches Some(d) ==> sound(d, e.keys.len()) && dnf_holds(d, valuation(e.keys, val))
                == taken(s, val)
        }),
{
    let b = s.cond.branches@[s.arm];
    let prior = s.cond.branches@.take(s.arm);
    let own = branch_dnf(b, keys, false);
    lemma_minus_grows(own, prior);
    normal_form_means_branch(b, keys, false, val);
    lemma_minus_means(own, prior, branch_truth(b, val), val);
}

/// The condition that is computed for an `%else` is true exactly where no
/// branch before it is taken.
pub proof fn else_effect_means_taken(
    c: Conditional,
    keys: Seq<Seq<char>>,
    val: spec_fn(Seq<char>) -> bool,
)
    requires
        else_effect(c.branches@, keys).keys.len() <= usize::MAX,
    ensures
        ({
            let e = else_effect(c.branches@, keys);
            e.dnf matches Some(d) ==> sound(d, e.keys.len()) && dnf_holds(d, valuation(e.keys, val))
                == taken(StepView { cond: c, arm: c.branches@.len() as int }, val)
        }),
{
    let start = Converted { dnf: Some(always()), keys };
    assert(c.branches@.take(c.branches@.len() as int) =~= c.branches@);
    lemma_always(keys, val);
    lemma_minus_means(start, c.branches@, true, val);
}

proof fn lemma_always(keys: Seq<Seq<char>>, val: spec_fn(Seq<char>) -> bool)
    ensures
        sound(always(), keys.len()),
        dnf_holds(always(), valuation(keys, val)),
{
    let none = Set::<Literal>::empty();
    assert(always().contains(none));
    assert(crate::dnf::cube_holds(none, valuation(keys, val)));
    assert forall|c: Set<Literal>| #[trigger] always().contains(c) implies c.finite()
        && !crate::dnf::contradictory(c) && crate::laws::within(c, keys.len()) by {
        assert(c =~= none);
    }
}

// ---------------------------------------------------------------------
// The walk
// ---------------------------------------------------------------------

/// `d` is true exactly where each of `path` is taken.
pub open spec fn means(d: Set<Set<Literal>>, keys: Seq<Seq<char>>, path: Seq<StepView>) -> bool {
    &&& sound(d, keys.len())
    &&& forall|val: spec_fn(Seq<char>) -> bool|
        dnf_holds(d, #[trigger] valuation(keys, val)) == reached(path, val)
}

/// What a stack of conditions says of the branches that were entered.
pub open spec fn describes(
    stack: Seq<Option<Set<Set<Literal>>>>,
    keys: Seq<Seq<char>>,
    path: Seq<StepView>,
) -> bool {
    &&& stack.len() == path.len()
    &&& stack.len() > 0 ==> (stack.last() matches Some(d) ==> means(d, keys, path))
}

/// A situation is that of the last branch of `path`.
pub open spec fn faithful(s: Situation, path: Seq<StepView>) -> bool {
    &&& path.len() > 0
    &&& 0 <= path.last().arm < path.last().cond.branches@.len()
    &&& s.index == path.last().arm
    &&& s.branch == path.last().cond.branches@[path.last().arm]
    &&& s.keys.len() <= usize::MAX
    &&& s.effect matches Some(d) ==> means(d, s.keys, seq![path.last()])
    &&& s.path matches Some(d) ==> means(d, s.keys, path.drop_last())
    &&& s.path is None <==> path.len() == 1
}

/// A diagnostic is what the rule says of some branch in `items`, which are
/// entered through `outer`.
pub open spec fn explained<R: BranchAnalyser>(
    items: Seq<Item>,
    outer: Seq<StepView>,
    d: DiagnosticView,
) -> bool {
    exists|path: Seq<StepView>, s: Situation|
        #![trigger leads(items, path), faithful(s, outer + path)]
        leads(items, path) && faithful(s, outer + path) && R::verdict(s).contains(d)
}

/// A diagnostic is what the rule says of some branch in `item`.
pub open spec fn explained_from<R: BranchAnalyser>(
    item: Item,
    outer: Seq<StepView>,
    d: DiagnosticView,
) -> bool {
    exists|path: Seq<StepView>, s: Situation|
        #![trigger leads_from(item, path), faithful(s, outer + path)]
        leads_from(item, path) && faithful(s, outer + path) && R::verdict(s).contains(d)
}

proof fn lemma_items_grow<R: BranchAnalyser>(
    items: Seq<Item>,
    stack: Seq<Option<Set<Set<Literal>>>>,
    p: Progress,
)
    ensures
        p.keys.is_prefix_of(analysed_items::<R>(items, stack, p).keys),
        p.out.is_prefix_of(analysed_items::<R>(items, stack, p).out),
    decreases items, 0int,
{
    if items.len() > 0 {
        let q = analysed_items::<R>(items.drop_last(), stack, p);
        let r = analysed_items::<R>(items, stack, p);
        lemma_items_grow::<R>(items.drop_last(), stack, p);
        lemma_item_grows::<R>(items.last(), stack, q);
        lemma_prefix_chain(p.keys, q.keys, r.keys);
        lemma_prefix_chain(p.out, q.out, r.out);
    }
}

proof fn lemma_item_grows<R: BranchAnalyser>(
    item: Item,
    stack: Seq<Option<Set<Set<Literal>>>>,
    p: Progress,
)
    ensures
        p.keys.is_prefix_of(analysed_item::<R>(item, stack, p).keys),
        p.out.is_prefix_of(analysed_item::<R>(item, stack, p).out),
    decreases item, 0int,
{
    match item {
        Item::Conditional(c) => lemma_conditional_grows::<R>(c, stack, p),
        Item::Section(s) => match *s {
            Section::Package { content, .. } => lemma_items_grow::<R>(content@, stack, p),
            Section::Files { content, .. } => lemma_items_grow::<R>(content@, stack, p),
            _ => {},
        },
        _ => {},
    }
}

proof fn lemma_conditional_grows<R: BranchAnalyser>(
    c: Conditional,
    stack: Seq<Option<Set<Set<Literal>>>>,
    p: Progress,
)
    ensures
        p.keys.is_prefix_of(analysed_cond::<R>(c, stack, p).keys),
        p.out.is_prefix_of(analysed_cond::<R>(c, stack, p).out),
    decreases c, c.branches@.len() + 1,
{
    if c.branches@.len() > 0 && stack.len() < MAX_PATH_STACK_DEPTH {
        let q = analysed_arms::<R>(c, stack, p, c.branches@.len());
        lemma_arms_grow::<R>(c, stack, p, c.branches@.len());
        match c.otherwise {
            None => {},
            Some(body) => {
                let prior = c.branches@;
                let e = else_effect(prior, q.keys);
                let inner = stack.push(frame(stack, e.dnf));
                let mid = Progress { keys: e.keys, out: q.out };
                let r = analysed_items::<R>(body@, inner, mid);
                lemma_minus_grows(Converted { dnf: Some(always()), keys: q.keys }, prior);
                lemma_items_grow::<R>(body@, inner, mid);
                lemma_prefix_chain(p.keys, q.keys, e.keys);
                lemma_prefix_chain(p.keys, e.keys, r.keys);
                lemma_prefix_chain(p.out, q.out, r.out);
            },
        }
    }
}

/// What the rule says of branch `n` itself.
spec fn said<R: BranchAnalyser>(
    c: Conditional,
    stack: Seq<Option<Set<Set<Literal>>>>,
    e: Converted,
    n: int,
) -> Seq<DiagnosticView> {
    if tainted(stack) {
        Seq::empty()
    } else {
        R::verdict(
            Situation {
                index: n,
                branch: c.branches@[n],
                effect: e.dnf,
                path: current(stack),
                keys: e.keys,
            },
        )
    }
}

proof fn lemma_arms_grow<R: BranchAnalyser>(
    c: Conditional,
    stack: Seq<Option<Set<Set<Literal>>>>,
    p: Progress,
    n: nat,
)
    ensures
        p.keys.is_prefix_of(analysed_arms::<R>(c, stack, p, n).keys),
        p.out.is_prefix_of(analysed_arms::<R>(c, stack, p, n).out),
    decreases c, n,
{
    if 0 < n <= c.branches@.len() {
        let q = analysed_arms::<R>(c, stack, p, (n - 1) as nat);
        let b = c.branches@[n - 1];
        let prior = c.branches@.take(n - 1);
        let e = branch_effect(b, prior, q.keys);
        let inner = stack.push(frame(stack, e.dnf));
        let mid = Progress { keys: e.keys, out: q.out + said::<R>(c, stack, e, n - 1) };
        let r = analysed_items::<R>(b.body@, inner, mid);
        lemma_arms_grow::<R>(c, stack, p, (n - 1) as nat);
        lemma_effect_grows(b, prior, q.keys);
        lemma_items_grow::<R>(b.body@, inner, mid);
        assert(r == analysed_arms::<R>(c, stack, p, n));
        lemma_prefix_chain(p.keys, q.keys, e.keys);
        lemma_prefix_chain(p.keys, e.keys, r.keys);
        assert(q.out.is_prefix_of(mid.out));
        lemma_prefix_chain(p.out, q.out, mid.out);
        lemma_prefix_chain(p.out, mid.out, r.out);
    }
}

pub proof fn lemma_means_more(
    d: Set<Set<Literal>>,
    keys: Seq<Seq<char>>,
    more: Seq<Seq<char>>,
    path: Seq<StepView>,
)
    requires
        means(d, keys, path),
        keys.is_prefix_of(more),
    ensures
        means(d, more, path),
{
    lemma_more_atoms(d, keys, more, |k: Seq<char>| true);
    assert forall|val: spec_fn(Seq<char>) -> bool|
        dnf_holds(d, #[trigger] valuation(more, val)) == reached(path, val) by {
        lemma_more_atoms(d, keys, more, val);
        assert(dnf_holds(d, valuation(keys, val)) == reached(path, val));
    }
}

pub proof fn lemma_describes_more(
    stack: Seq<Option<Set<Set<Literal>>>>,
    keys: Seq<Seq<char>>,
    more: Seq<Seq<char>>,
    path: Seq<StepView>,
)
    requires
        describes(stack, keys, path),
        keys.is_prefix_of(more),
    ensures
        describes(stack, more, path),
{
    if stack.len() > 0 && stack.last() is Some {
        lemma_means_more(stack.last().unwrap(), keys, more, path);
    }
}

/// The condition that is computed for a branch describes entering it.
pub proof fn lemma_branch_entered(step: StepView, keys: Seq<Seq<char>>)
    requires
        0 <= step.arm < step.cond.branches@.len(),
        branch_effect(
            step.cond.branches@[step.arm],
            step.cond.branches@.take(step.arm),
            keys,
        ).keys.len() <= usize::MAX,
    ensures
        ({
            let e = branch_effect(
                step.cond.branches@[step.arm],
                step.cond.branches@.take(step.arm),
                keys,
            );
            e.dnf matches Some(d) ==> means(d, e.keys, seq![step])
        }),
{
    let e = branch_effect(
        step.cond.branches@[step.arm],
        step.cond.branches@.take(step.arm),
        keys,
    );
    if e.dnf is Some {
        branch_effect_means_taken(step, keys, |k: Seq<char>| true);
        assert forall|val: spec_fn(Seq<char>) -> bool|
            dnf_holds(e.dnf.unwrap(), #[trigger] valuation(e.keys, val)) == reached(
                seq![step],
                val,
            ) by {
            branch_effect_means_taken(step, keys, val);
            lemma_reached_push(Seq::empty(), step, val);
        }
    }
}

/// The condition that is computed for an `%else` describes entering it.
pub proof fn lemma_else_entered(c: Conditional, keys: Seq<Seq<char>>)
    requires
        else_effect(c.branches@, keys).keys.len() <= usize::MAX,
    ensures
        ({
            let e = else_effect(c.branches@, keys);
            e.dnf matches Some(d) ==> means(
                d,
                e.keys,
                seq![StepView { cond: c, arm: c.branches@.len() as int }],
            )
        }),
{
    let e = else_effect(c.branches@, keys);
    let step = StepView { cond: c, arm: c.branches@.len() as int };
    if e.dnf is Some {
        else_effect_means_taken(c, keys, |k: Seq<char>| true);
        assert forall|val: spec_fn(Seq<char>) -> bool|
            dnf_holds(e.dnf.unwrap(), #[trigger] valuation(e.keys, val)) == reached(
                seq![step],
                val,
            ) by {
            else_effect_means_taken(c, keys, val);
            lemma_reached_push(Seq::empty(), step, val);
        }
    }
}

/// Entering a branch whose condition has been computed.
pub proof fn lemma_enter(
    stack: Seq<Option<Set<Set<Literal>>>>,
    keys: Seq<Seq<char>>,
    path: Seq<StepView>,
    step: StepView,
    effect: Option<Set<Set<Literal>>>,
)
    requires
        describes(stack, keys, path),
        effect matches Some(d) ==> means(d, keys, seq![step]),
    ensures
        describes(stack.push(frame(stack, effect)), keys, path.push(step)),
{
    let f = frame(stack, effect);
    assert(stack.push(f).last() == f);
    if stack.len() == 0 {
        assert(path.push(step) =~= seq![step]);
    } else if f is Some {
        let a = stack.last().unwrap();
        let b = effect.unwrap();
        lemma_sound_product(a, b, keys.len());
        assert forall|val: spec_fn(Seq<char>) -> bool|
            dnf_holds(f.unwrap(), #[trigger] valuation(keys, val)) == reached(
                path.push(step),
                val,
            ) by {
            product_means_and(a, b, valuation(keys, val));
            assert(dnf_holds(a, valuation(keys, val)) == reached(path, val));
            assert(dnf_holds(b, valuation(keys, val)) == reached(seq![step], val));
            lemma_reached_push(path, step, val);
        }
    }
}

pub proof fn lemma_reached_push(path: Seq<StepView>, step: StepView, val: spec_fn(Seq<char>) -> bool)
    ensures
        reached(seq![step], val) == taken(step, val),
        reached(path.push(step), val) == (reached(path, val) && taken(step, val)),
{
    let longer = path.push(step);
    assert(seq![step][0] == step);
    assert(longer[path.len() as int] == step);
    if reached(longer, val) {
        assert forall|i: int| 0 <= i < path.len() implies taken(#[trigger] path[i], val) by {
            assert(longer[i] == path[i]);
        }
    }
    if reached(path, val) && taken(step, val) {
        assert forall|i: int| 0 <= i < longer.len() implies taken(#[trigger] longer[i], val) by {
            if i < path.len() {
                assert(longer[i] == path[i]);
            }
        }
    }
}

proof fn lemma_leads_somewhere(items: Seq<Item>, path: Seq<StepView>)
    requires
        leads(items, path),
    ensures
        path.len() > 0,
    decreases items, 0int,
{
    if leads_from(items.last(), path) {
        match items.last() {
            Item::Section(s) => match *s {
                Section::Package { content, .. } => lemma_leads_somewhere(content@, path),
                Section::Files { content, .. } => lemma_leads_somewhere(content@, path),
                _ => {},
            },
            _ => {},
        }
    } else {
        lemma_leads_somewhere(items.drop_last(), path);
    }
}

/// What is said inside a branch is said of the conditional.
proof fn lemma_explained_outside<R: BranchAnalyser>(
    c: Conditional,
    step: StepView,
    body: Seq<Item>,
    outer: Seq<StepView>,
    d: DiagnosticView,
)
    requires
        step.cond == c,
        if 0 <= step.arm < c.branches@.len() {
            body == c.branches@[step.arm].body@
        } else {
            step.arm == c.branches@.len() && (c.otherwise matches Some(b) && body == b@)
        },
        explained::<R>(body, outer.push(step), d),
    ensures
        explained_from::<R>(Item::Conditional(c), outer, d),
{
    let (rest, s) = choose|path: Seq<StepView>, s: Situation|
        #![trigger leads(body, path), faithful(s, outer.push(step) + path)]
        leads(body, path) && faithful(s, outer.push(step) + path) && R::verdict(s).contains(d);
    let path = seq![step] + rest;
    lemma_leads_somewhere(body, rest);
    assert(outer + path =~= outer.push(step) + rest);
    assert(path.skip(1) =~= rest);
    assert(path[0] == step);
    assert(leads_from(Item::Conditional(c), path));
}

proof fn lemma_items_explained<R: BranchAnalyser>(
    items: Seq<Item>,
    stack: Seq<Option<Set<Set<Literal>>>>,
    outer: Seq<StepView>,
    p: Progress,
)
    requires
        describes(stack, p.keys, outer),
        analysed_items::<R>(items, stack, p).keys.len() <= usize::MAX,
    ensures
        forall|i: int|
            p.out.len() <= i < analysed_items::<R>(items, stack, p).out.len() ==> explained::<R>(
                items,
                outer,
                #[trigger] analysed_items::<R>(items, stack, p).out[i],
            ),
    decreases items, 0int,
{
    if items.len() > 0 {
        let front = items.drop_last();
        let q = analysed_items::<R>(front, stack, p);
        let r = analysed_items::<R>(items, stack, p);
        lemma_items_grow::<R>(front, stack, p);
        lemma_item_grows::<R>(items.last(), stack, q);
        lemma_describes_more(stack, p.keys, q.keys, outer);
        lemma_items_explained::<R>(front, stack, outer, p);
        lemma_item_explained::<R>(items.last(), stack, outer, q);
        assert forall|i: int| p.out.len() <= i < r.out.len() implies explained::<R>(
            items,
            outer,
            #[trigger] r.out[i],
        ) by {
            if i < q.out.len() {
                assert(r.out[i] == q.out[i]);
                assert(explained::<R>(front, outer, q.out[i]));
                let (path, s) = choose|path: Seq<StepView>, s: Situation|
                    #![trigger leads(front, path), faithful(s, outer + path)]
                    leads(front, path) && faithful(s, outer + path) && R::verdict(s).contains(
                        q.out[i],
                    );
                assert(leads(items, path));
            } else {
                assert(explained_from::<R>(items.last(), outer, r.out[i]));
                let (path, s) = choose|path: Seq<StepView>, s: Situation|
                    #![trigger leads_from(items.last(), path), faithful(s, outer + path)]
                    leads_from(items.last(), path) && faithful(s, outer + path) && R::verdict(
                        s,
                    ).contains(r.out[i]);
                assert(leads(items, path));
            }
        }
    }
}

proof fn lemma_item_explained<R: BranchAnalyser>(
    item: Item,
    stack: Seq<Option<Set<Set<Literal>>>>,
    outer: Seq<StepView>,
    p: Progress,
)
    requires
        describes(stack, p.keys, outer),
        analysed_item::<R>(item, stack, p).keys.len() <= usize::MAX,
    ensures
        forall|i: int|
            p.out.len() <= i < analysed_item::<R>(item, stack, p).out.len() ==> explained_from::<R>(
                item,
                outer,
                #[trigger] analysed_item::<R>(item, stack, p).out[i],
            ),
    decreases item, 0int,
{
    let r = analysed_item::<R>(item, stack, p);
    match item {
        Item::Conditional(c) => lemma_conditional_explained::<R>(c, stack, outer, p),
        Item::Section(s) => match *s {
            Section::Package { content, .. } => {
                lemma_items_explained::<R>(content@, stack, outer, p);
                assert forall|i: int| p.out.len() <= i < r.out.len() implies explained_from::<R>(
                    item,
                    outer,
                    #[trigger] r.out[i],
                ) by {
                    lemma_explained_in_section::<R>(item, content@, outer, r.out[i]);
                }
            },
            Section::Files { content, .. } => {
                lemma_items_explained::<R>(content@, stack, outer, p);
                assert forall|i: int| p.out.len() <= i < r.out.len() implies explained_from::<R>(
                    item,
                    outer,
                    #[trigger] r.out[i],
                ) by {
                    lemma_explained_in_section::<R>(item, content@, outer, r.out[i]);
                }
            },
            _ => {},
        },
        _ => {},
    }
}

proof fn lemma_explained_in_section<R: BranchAnalyser>(
    item: Item,
    content: Seq<Item>,
    outer: Seq<StepView>,
    d: DiagnosticView,
)
    requires
        item matches Item::Section(s) && (match *s {
            Section::Package { content: inside, .. } => inside@ == content,
            Section::Files { content: inside, .. } => inside@ == content,
            _ => false,
        }),
        explained::<R>(content, outer, d),
    ensures
        explained_from::<R>(item, outer, d),
{
    let (path, s) = choose|path: Seq<StepView>, s: Situation|
        #![trigger leads(content, path), faithful(s, outer + path)]
        leads(content, path) && faithful(s, outer + path) && R::verdict(s).contains(d);
    assert(leads_from(item, path));
}

proof fn lemma_conditional_explained<R: BranchAnalyser>(
    c: Conditional,
    stack: Seq<Option<Set<Set<Literal>>>>,
    outer: Seq<StepView>,
    p: Progress,
)
    requires
        describes(stack, p.keys, outer),
        analysed_cond::<R>(c, stack, p).keys.len() <= usize::MAX,
    ensures
        forall|i: int|
            p.out.len() <= i < analysed_cond::<R>(c, stack, p).out.len() ==> explained_from::<R>(
                Item::Conditional(c),
                outer,
                #[trigger] analysed_cond::<R>(c, stack, p).out[i],
            ),
    decreases c, c.branches@.len() + 1,
{
    if c.branches@.len() > 0 && stack.len() < MAX_PATH_STACK_DEPTH {
        let n = c.branches@.len();
        let q = analysed_arms::<R>(c, stack, p, n);
        lemma_arms_grow::<R>(c, stack, p, n);
        match c.otherwise {
            None => {
                lemma_arms_explained::<R>(c, stack, outer, p, n);
            },
            Some(body) => {
                let prior = c.branches@;
                let e = else_effect(prior, q.keys);
                let step = StepView { cond: c, arm: n as int };
                let inner = stack.push(frame(stack, e.dnf));
                let mid = Progress { keys: e.keys, out: q.out };
                let r = analysed_items::<R>(body@, inner, mid);
                assert(r == analysed_cond::<R>(c, stack, p));
                lemma_minus_grows(Converted { dnf: Some(always()), keys: q.keys }, prior);
                lemma_items_grow::<R>(body@, inner, mid);
                lemma_arms_explained::<R>(c, stack, outer, p, n);
                lemma_prefix_chain(p.keys, q.keys, e.keys);
                lemma_describes_more(stack, p.keys, e.keys, outer);
                lemma_else_entered(c, q.keys);
                lemma_enter(stack, e.keys, outer, step, e.dnf);
                lemma_items_explained::<R>(body@, inner, outer.push(step), mid);
                assert forall|i: int| p.out.len() <= i < r.out.len() implies explained_from::<R>(
                    Item::Conditional(c),
                    outer,
                    #[trigger] r.out[i],
                ) by {
                    if i < q.out.len() {
                        assert(r.out[i] == q.out[i]);
                    } else {
                        lemma_explained_outside::<R>(c, step, body@, outer, r.out[i]);
                    }
                }
            },
        }
    }
}

proof fn lemma_arms_explained<R: BranchAnalyser>(
    c: Conditional,
    stack: Seq<Option<Set<Set<Literal>>>>,
    outer: Seq<StepView>,
    p: Progress,
    n: nat,
)
    requires
        describes(stack, p.keys, outer),
        analysed_arms::<R>(c, stack, p, n).keys.len() <= usize::MAX,
    ensures
        forall|i: int|
            p.out.len() <= i < analysed_arms::<R>(c, stack, p, n).out.len() ==> explained_from::<R>(
                Item::Conditional(c),
                outer,
                #[trigger] analysed_arms::<R>(c, stack, p, n).out[i],
            ),
    decreases c, n,
{
    if 0 < n <= c.branches@.len() {
        let m = (n - 1) as nat;
        let q = analysed_arms::<R>(c, stack, p, m);
        let b = c.branches@[n - 1];
        let prior = c.branches@.take(n - 1);
        let e = branch_effect(b, prior, q.keys);
        let step = StepView { cond: c, arm: n - 1 };
        let inner = stack.push(frame(stack, e.dnf));
        let own = said::<R>(c, stack, e, n - 1);
        let mid = Progress { keys: e.keys, out: q.out + own };
        let r = analysed_items::<R>(b.body@, inner, mid);
        assert(r == analysed_arms::<R>(c, stack, p, n));
        lemma_arms_grow::<R>(c, stack, p, m);
        lemma_effect_grows(b, prior, q.keys);
        lemma_items_grow::<R>(b.body@, inner, mid);
        lemma_arms_explained::<R>(c, stack, outer, p, m);
        lemma_prefix_chain(p.keys, q.keys, e.keys);
        lemma_describes_more(stack, p.keys, e.keys, outer);
        lemma_branch_entered(step, q.keys);
        lemma_enter(stack, e.keys, outer, step, e.dnf);
        lemma_items_explained::<R>(b.body@, inner, outer.push(step), mid);
        assert forall|i: int| p.out.len() <= i < r.out.len() implies explained_from::<R>(
            Item::Conditional(c),
            outer,
            #[trigger] r.out[i],
        ) by {
            if i < q.out.len() {
                assert(r.out[i] == mid.out[i]);
                assert(mid.out[i] == q.out[i]);
            } else if i < mid.out.len() {
                assert(r.out[i] == mid.out[i]);
                assert(mid.out[i] == own[i - q.out.len()]);
                assert(own.contains(r.out[i]));
                let s = Situation {
                    index: n - 1,
                    branch: b,
                    effect: e.dnf,
                    path: current(stack),
                    keys: e.keys,
                };
                let path = seq![step];
                assert(outer + path =~= outer.push(step));
                assert(outer.push(step).drop_last() =~= outer);
                assert(faithful(s, outer + path));
                assert(leads_from(Item::Conditional(c), path));
            } else {
                lemma_explained_outside::<R>(c, step, b.body@, outer, r.out[i]);
            }
        }
    }
}

/// Every diagnostic that is given while the conditions are followed through
/// a spec file is what the rule says of some branch, in the situation that
/// the branches around it and before it make.
pub proof fn every_diagnostic_is_about_a_branch<R: BranchAnalyser>(spec: SpecFile, p: Progress)
    requires
        analysed::<R>(spec, p).keys.len() <= usize::MAX,
    ensures
        p.out.is_prefix_of(analysed::<R>(spec, p).out),
        forall|i: int|
            p.out.len() <= i < analysed::<R>(spec, p).out.len() ==> explained::<R>(
                spec.items@,
                Seq::empty(),
                #[trigger] analysed::<R>(spec, p).out[i],
            ),
{
    lemma_items_grow::<R>(spec.items@, Seq::empty(), p);
    lemma_items_explained::<R>(spec.items@, Seq::empty(), Seq::empty(), p);
}

} // verus!
