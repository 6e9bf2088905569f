//! What going through a spec file promises: every conditional, branch, list
//! and item is met, wherever it stands, and nothing else is.
use vstd::prelude::*;

use crate::ast::{CondBranch, Conditional, Item, Section, SpecFile};
use crate::diagnostic::DiagnosticView;
use crate::packages::lemma_either;
use crate::rules::{branch_findings, chain_findings, site_findings, BranchRule, SiteRule};
use crate::walk::{
    arms_sites, chain_arms, chain_leaves, chain_lists, cond_arms, cond_sites, inner_lists,
    item_arms, item_leaves, item_lists, item_sites, items_arms, items_sites, leaves,
    lemma_flat_contains, spec_lists, spec_sites, ArmView, Scope, SiteView, StepView,
};

verus! {

/// The way into arm `i` of `c`.
pub open spec fn into(path: Seq<StepView>, c: Conditional, i: int) -> Seq<StepView> {
    path.push(StepView { cond: c, arm: i })
}

// ---------------------------------------------------------------------
// Conditionals
// ---------------------------------------------------------------------

/// `x` stands in branch `i` of `c`.
pub open spec fn site_arm_has(
    c: Conditional,
    scope: Scope,
    path: Seq<StepView>,
    b: CondBranch,
    i: int,
    x: SiteView,
) -> bool {
    items_sites(b.body@, scope, into(path, c, i)).contains(x)
}

/// The conditionals in a list are those in one of its items.
pub proof fn sites_of_items(items: Seq<Item>, scope: Scope, path: Seq<StepView>, x: SiteView)
    ensures
        items_sites(items, scope, path).contains(x) <==> exists|i: int|
            0 <= i < items.len() && item_sites(#[trigger] items[i], scope, path).contains(x),
    decreases items.len(),
{
    if items.len() > 0 {
        let front = items.drop_last();
        sites_of_items(front, scope, path, x);
        assert(items_sites(items, scope, path) == items_sites(front, scope, path) + item_sites(items.last(), scope, path));
        lemma_either(items_sites(front, scope, path), item_sites(items.last(), scope, path), x);
        assert(items[items.len() - 1] == items.last());
        if items_sites(front, scope, path).contains(x) {
            let i = choose|i: int| 0 <= i < front.len() && item_sites(#[trigger] front[i], scope, path).contains(x);
            assert(items[i] == front[i]);
        }
        if exists|i: int| 0 <= i < items.len() && item_sites(#[trigger] items[i], scope, path).contains(x) {
            let i = choose|i: int| 0 <= i < items.len() && item_sites(#[trigger] items[i], scope, path).contains(x);
            if i < front.len() {
                assert(front[i] == items[i]);
            }
        }
    }
}

proof fn lemma_site_arm(c: Conditional, scope: Scope, path: Seq<StepView>, n: nat, x: SiteView)
    requires
        n <= c.branches@.len(),
    ensures
        arms_sites(c, scope, path, n).contains(x) <==> exists|i: int| 0 <= i < n && site_arm_has(c, scope, path, #[trigger] c.branches@[i], i, x),
    decreases n,
{
    if n > 0 {
        let m = (n - 1) as nat;
        let b = c.branches@[n - 1];
        lemma_site_arm(c, scope, path, m, x);
        assert(arms_sites(c, scope, path, n) == arms_sites(c, scope, path, m) + items_sites(b.body@, scope, into(path, c, n - 1)));
        lemma_either(arms_sites(c, scope, path, m), items_sites(b.body@, scope, into(path, c, n - 1)), x);
        if arms_sites(c, scope, path, n).contains(x) && arms_sites(c, scope, path, m).contains(x) {
            let i = choose|i: int| 0 <= i < m && site_arm_has(c, scope, path, #[trigger] c.branches@[i], i, x);
            assert(0 <= i < n);
        }
        if exists|i: int| 0 <= i < n && site_arm_has(c, scope, path, #[trigger] c.branches@[i], i, x) {
            let i = choose|i: int| 0 <= i < n && site_arm_has(c, scope, path, #[trigger] c.branches@[i], i, x);
            if i < m {
                assert(0 <= i < m);
            }
        }
    }
}

/// The conditionals in a conditional are itself, with the way to it, and those
/// in each of its branches and in its `%else`.
pub proof fn sites_of_a_conditional(c: Conditional, scope: Scope, path: Seq<StepView>, x: SiteView)
    ensures
        cond_sites(c, scope, path).contains(x) <==> {
            ||| x == (SiteView { scope, cond: c, path })
            ||| exists|i: int|
                0 <= i < c.branches@.len() && site_arm_has(
                    c,
                    scope,
                    path,
                    #[trigger] c.branches@[i],
                    i,
                    x,
                )
            ||| c.otherwise matches Some(body) && items_sites(
                body@,
                scope,
                into(path, c, c.branches@.len() as int),
            ).contains(x)
        },
{
    let n = c.branches@.len();
    let here = SiteView { scope, cond: c, path };
    lemma_site_arm(c, scope, path, n, x);
    lemma_either(seq![here], arms_sites(c, scope, path, n), x);
    assert(seq![here].contains(x) <==> x == here) by {
        assert(seq![here][0] == here);
    }
    match c.otherwise {
        Some(body) => lemma_either(
            seq![here] + arms_sites(c, scope, path, n),
            items_sites(body@, scope, into(path, c, n as int)),
            x,
        ),
        None => {},
    }
}

/// Conditionals stand in conditionals, packages and `%files` sections.
pub proof fn sites_of_an_item(item: Item, scope: Scope, path: Seq<StepView>, x: SiteView)
    ensures
        item_sites(item, scope, path).contains(x) <==> match item {
            Item::Conditional(c) => cond_sites(c, scope, path).contains(x),
            Item::Section(s) => match *s {
                Section::Package { content, .. } => items_sites(
                    content@,
                    Scope::Package,
                    path,
                ).contains(x),
                Section::Files { content, .. } => items_sites(
                    content@,
                    Scope::Files,
                    path,
                ).contains(x),
                _ => false,
            },
            _ => false,
        },
{
}

/// What a rule on conditionals says of a spec file is what it says of one of
/// its conditionals.
pub proof fn site_rules_see_every_conditional<R: SiteRule>(
    settings: &R::Settings,
    spec: SpecFile,
    d: DiagnosticView,
)
    ensures
        site_findings::<R>(settings, spec).contains(d) <==> exists|x: SiteView|
            #[trigger] items_sites(spec.items@, Scope::Top, Seq::empty()).contains(x) && R::on_site(
                settings,
                x,
            ).contains(d),
{
    let all = spec_sites(spec);
    let f = |s: SiteView| R::on_site(settings, s);
    lemma_flat_contains(all, f, d);
    if site_findings::<R>(settings, spec).contains(d) {
        let i = choose|i: int| 0 <= i < all.len() && f(#[trigger] all[i]).contains(d);
        assert(all.contains(all[i]));
    }
    if exists|x: SiteView|
        #[trigger] items_sites(spec.items@, Scope::Top, Seq::empty()).contains(x) && R::on_site(
            settings,
            x,
        ).contains(d) {
        let x = choose|x: SiteView|
            #[trigger] items_sites(spec.items@, Scope::Top, Seq::empty()).contains(x) && R::on_site(
                settings,
                x,
            ).contains(d);
        let i = choose|i: int| 0 <= i < all.len() && all[i] == x;
        assert(f(all[i]).contains(d));
    }
}

/// What a rule on branches says of a spec file is what it says of a branch of
/// one of its conditionals.
pub proof fn branch_rules_see_every_branch<R: BranchRule>(
    settings: &R::Settings,
    spec: SpecFile,
    d: DiagnosticView,
)
    ensures
        branch_findings::<R>(settings, spec).contains(d) <==> exists|x: SiteView, b: CondBranch|
            #![trigger items_sites(spec.items@, Scope::Top, Seq::empty()).contains(x), R::on_branch(settings, b)]
            items_sites(spec.items@, Scope::Top, Seq::empty()).contains(x) && x.cond.branches@.contains(
                b,
            ) && R::on_branch(settings, b).contains(d),
{
    let all = spec_sites(spec);
    let f = |s: SiteView| chain_findings::<R>(settings, s.cond.branches@);
    let g = |b: CondBranch| R::on_branch(settings, b);
    lemma_flat_contains(all, f, d);
    if branch_findings::<R>(settings, spec).contains(d) {
        let i = choose|i: int| 0 <= i < all.len() && f(#[trigger] all[i]).contains(d);
        let bs = all[i].cond.branches@;
        lemma_flat_contains(bs, g, d);
        let j = choose|j: int| 0 <= j < bs.len() && g(#[trigger] bs[j]).contains(d);
        assert(all.contains(all[i]) && bs.contains(bs[j]));
        assert(R::on_branch(settings, bs[j]).contains(d));
    }
    if exists|x: SiteView, b: CondBranch|
        #![trigger items_sites(spec.items@, Scope::Top, Seq::empty()).contains(x), R::on_branch(settings, b)]
        items_sites(spec.items@, Scope::Top, Seq::empty()).contains(x) && x.cond.branches@.contains(b)
            && R::on_branch(settings, b).contains(d) {
        let (x, b) = choose|x: SiteView, b: CondBranch|
            #![trigger items_sites(spec.items@, Scope::Top, Seq::empty()).contains(x), R::on_branch(settings, b)]
            items_sites(spec.items@, Scope::Top, Seq::empty()).contains(x)
                && x.cond.branches@.contains(b) && R::on_branch(settings, b).contains(d);
        let i = choose|i: int| 0 <= i < all.len() && all[i] == x;
        let bs = x.cond.branches@;
        let j = choose|j: int| 0 <= j < bs.len() && bs[j] == b;
        lemma_flat_contains(bs, g, d);
        assert(g(bs[j]).contains(d));
        assert(f(all[i]).contains(d));
    }
}

// ---------------------------------------------------------------------
// Branches
// ---------------------------------------------------------------------

/// `x` is branch `i` of `c` or stands in it.
pub open spec fn branch_arm_has(
    c: Conditional,
    path: Seq<StepView>,
    b: CondBranch,
    i: int,
    x: ArmView,
) -> bool {
    x == (ArmView { branch: b, path }) || items_arms(b.body@, into(path, c, i)).contains(x)
}

/// The branches in a list are those in one of its items.
pub proof fn arms_of_items(items: Seq<Item>, path: Seq<StepView>, x: ArmView)
    ensures
        items_arms(items, path).contains(x) <==> exists|i: int|
            0 <= i < items.len() && item_arms(#[trigger] items[i], path).contains(x),
    decreases items.len(),
{
    if items.len() > 0 {
        let front = items.drop_last();
        arms_of_items(front, path, x);
        assert(items_arms(items, path) == items_arms(front, path) + item_arms(items.last(), path));
        lemma_either(items_arms(front, path), item_arms(items.last(), path), x);
        assert(items[items.len() - 1] == items.last());
        if items_arms(front, path).contains(x) {
            let i = choose|i: int| 0 <= i < front.len() && item_arms(#[trigger] front[i], path).contains(x);
            assert(items[i] == front[i]);
        }
        if exists|i: int| 0 <= i < items.len() && item_arms(#[trigger] items[i], path).contains(x) {
            let i = choose|i: int| 0 <= i < items.len() && item_arms(#[trigger] items[i], path).contains(x);
            if i < front.len() {
                assert(front[i] == items[i]);
            }
        }
    }
}

proof fn lemma_branch_arm(c: Conditional, path: Seq<StepView>, n: nat, x: ArmView)
    requires
        n <= c.branches@.len(),
    ensures
        chain_arms(c, path, n).contains(x) <==> exists|i: int| 0 <= i < n && branch_arm_has(c, path, #[trigger] c.branches@[i], i, x),
    decreases n,
{
    if n > 0 {
        let m = (n - 1) as nat;
        let b = c.branches@[n - 1];
        lemma_branch_arm(c, path, m, x);
        let here = ArmView { branch: b, path };
        let inner = items_arms(b.body@, into(path, c, n - 1));
        assert(chain_arms(c, path, n) == chain_arms(c, path, m) + seq![here] + inner);
        lemma_either(chain_arms(c, path, m) + seq![here], inner, x);
        lemma_either(chain_arms(c, path, m), seq![here], x);
        assert(seq![here].contains(x) <==> x == here) by {
            assert(seq![here][0] == here);
        }
        if chain_arms(c, path, n).contains(x) && chain_arms(c, path, m).contains(x) {
            let i = choose|i: int| 0 <= i < m && branch_arm_has(c, path, #[trigger] c.branches@[i], i, x);
            assert(0 <= i < n);
        }
        if exists|i: int| 0 <= i < n && branch_arm_has(c, path, #[trigger] c.branches@[i], i, x) {
            let i = choose|i: int| 0 <= i < n && branch_arm_has(c, path, #[trigger] c.branches@[i], i, x);
            if i < m {
                assert(0 <= i < m);
            }
        }
    }
}

/// The branches in a conditional are its own, with the way to it, and those in
/// each of them and in its `%else`.
pub proof fn arms_of_a_conditional(c: Conditional, path: Seq<StepView>, x: ArmView)
    ensures
        cond_arms(c, path).contains(x) <==> {
            ||| exists|i: int|
                0 <= i < c.branches@.len() && branch_arm_has(
                    c,
                    path,
                    #[trigger] c.branches@[i],
                    i,
                    x,
                )
            ||| c.otherwise matches Some(body) && items_arms(
                body@,
                into(path, c, c.branches@.len() as int),
            ).contains(x)
        },
{
    let n = c.branches@.len();
    lemma_branch_arm(c, path, n, x);
    match c.otherwise {
        Some(body) => lemma_either(
            chain_arms(c, path, n),
            items_arms(body@, into(path, c, n as int)),
            x,
        ),
        None => {},
    }
}

/// Branches stand in conditionals, packages and `%files` sections.
pub proof fn arms_of_an_item(item: Item, path: Seq<StepView>, x: ArmView)
    ensures
        item_arms(item, path).contains(x) <==> match item {
            Item::Conditional(c) => cond_arms(c, path).contains(x),
            Item::Section(s) => match *s {
                Section::Package { content, .. } => items_arms(content@, path).contains(x),
                Section::Files { content, .. } => items_arms(content@, path).contains(x),
                _ => false,
            },
            _ => false,
        },
{
}

// ---------------------------------------------------------------------
// Lists
// ---------------------------------------------------------------------

/// `x` is the body of a branch or stands in it.
pub open spec fn list_arm_has(c: Conditional, b: CondBranch, i: int, x: Seq<Item>) -> bool {
    x == b.body@ || inner_lists(b.body@).contains(x)
}

/// The lists inside a list are those in one of its items.
pub proof fn lists_of_items(items: Seq<Item>, x: Seq<Item>)
    ensures
        inner_lists(items).contains(x) <==> exists|i: int|
            0 <= i < items.len() && item_lists(#[trigger] items[i]).contains(x),
    decreases items.len(),
{
    if items.len() > 0 {
        let front = items.drop_last();
        lists_of_items(front, x);
        assert(inner_lists(items) == inner_lists(front) + item_lists(items.last()));
        lemma_either(inner_lists(front), item_lists(items.last()), x);
        assert(items[items.len() - 1] == items.last());
        if inner_lists(front).contains(x) {
            let i = choose|i: int| 0 <= i < front.len() && item_lists(#[trigger] front[i]).contains(x);
            assert(items[i] == front[i]);
        }
        if exists|i: int| 0 <= i < items.len() && item_lists(#[trigger] items[i]).contains(x) {
            let i = choose|i: int| 0 <= i < items.len() && item_lists(#[trigger] items[i]).contains(x);
            if i < front.len() {
                assert(front[i] == items[i]);
            }
        }
    }
}

proof fn lemma_list_arm(c: Conditional, n: nat, x: Seq<Item>)
    requires
        n <= c.branches@.len(),
    ensures
        chain_lists(c, n).contains(x) <==> exists|i: int| 0 <= i < n && list_arm_has(c, #[trigger] c.branches@[i], i, x),
    decreases n,
{
    if n > 0 {
        let m = (n - 1) as nat;
        let b = c.branches@[n - 1];
        lemma_list_arm(c, m, x);
        let inner = inner_lists(b.body@);
        assert(chain_lists(c, n) == chain_lists(c, m) + (seq![b.body@] + inner));
        lemma_either(chain_lists(c, m), seq![b.body@] + inner, x);
        lemma_either(seq![b.body@], inner, x);
        assert(seq![b.body@].contains(x) <==> x == b.body@) by {
            assert(seq![b.body@][0] == b.body@);
        }
        if chain_lists(c, n).contains(x) && chain_lists(c, m).contains(x) {
            let i = choose|i: int| 0 <= i < m && list_arm_has(c, #[trigger] c.branches@[i], i, x);
            assert(0 <= i < n);
        }
        if exists|i: int| 0 <= i < n && list_arm_has(c, #[trigger] c.branches@[i], i, x) {
            let i = choose|i: int| 0 <= i < n && list_arm_has(c, #[trigger] c.branches@[i], i, x);
            if i < m {
                assert(0 <= i < m);
            }
        }
    }
}

/// The lists in an item are the bodies of a conditional or the content of a
/// package or a `%files` section, and those in them.
pub proof fn lists_of_an_item(item: Item, x: Seq<Item>)
    ensures
        item_lists(item).contains(x) <==> match item {
            Item::Conditional(c) => {
                ||| exists|i: int|
                    0 <= i < c.branches@.len() && list_arm_has(c, #[trigger] c.branches@[i], i, x)
                ||| c.otherwise matches Some(body) && (x == body@ || inner_lists(body@).contains(x))
            },
            Item::Section(s) => match *s {
                Section::Package { content, .. } => x == content@ || inner_lists(
                    content@,
                ).contains(x),
                Section::Files { content, .. } => x == content@ || inner_lists(content@).contains(x),
                _ => false,
            },
            _ => false,
        },
{
    match item {
        Item::Conditional(c) => {
            let n = c.branches@.len();
            lemma_list_arm(c, n, x);
            match c.otherwise {
                Some(body) => {
                    lemma_either(chain_lists(c, n), seq![body@] + inner_lists(body@), x);
                    lemma_one_and(body@, x);
                },
                None => {},
            }
        },
        Item::Section(s) => match *s {
            Section::Package { content, .. } => lemma_one_and(content@, x),
            Section::Files { content, .. } => lemma_one_and(content@, x),
            _ => {},
        },
        _ => {},
    }
}

proof fn lemma_one_and(l: Seq<Item>, x: Seq<Item>)
    ensures
        (seq![l] + inner_lists(l)).contains(x) <==> x == l || inner_lists(l).contains(x),
{
    lemma_either(seq![l], inner_lists(l), x);
    assert(seq![l].contains(x) <==> x == l) by {
        assert(seq![l][0] == l);
    }
}

/// The lists of a spec file are its items and the lists inside them.
pub proof fn lists_of_a_spec(spec: SpecFile, x: Seq<Item>)
    ensures
        spec_lists(spec).contains(x) <==> x == spec.items@ || inner_lists(spec.items@).contains(x),
{
    lemma_one_and(spec.items@, x);
}

// ---------------------------------------------------------------------
// Items
// ---------------------------------------------------------------------

/// `x` stands in a branch.
pub open spec fn leaf_arm_has(c: Conditional, b: CondBranch, i: int, x: Item) -> bool {
    leaves(b.body@).contains(x)
}

/// The items in a list are those that one of its items is or holds.
pub proof fn leaves_of_items(items: Seq<Item>, x: Item)
    ensures
        leaves(items).contains(x) <==> exists|i: int|
            0 <= i < items.len() && item_leaves(#[trigger] items[i]).contains(x),
    decreases items.len(),
{
    if items.len() > 0 {
        let front = items.drop_last();
        leaves_of_items(front, x);
        assert(leaves(items) == leaves(front) + item_leaves(items.last()));
        lemma_either(leaves(front), item_leaves(items.last()), x);
        assert(items[items.len() - 1] == items.last());
        if leaves(front).contains(x) {
            let i = choose|i: int| 0 <= i < front.len() && item_leaves(#[trigger] front[i]).contains(x);
            assert(items[i] == front[i]);
        }
        if exists|i: int| 0 <= i < items.len() && item_leaves(#[trigger] items[i]).contains(x) {
            let i = choose|i: int| 0 <= i < items.len() && item_leaves(#[trigger] items[i]).contains(x);
            if i < front.len() {
                assert(front[i] == items[i]);
            }
        }
    }
}

proof fn lemma_leaf_arm(c: Conditional, n: nat, x: Item)
    requires
        n <= c.branches@.len(),
    ensures
        chain_leaves(c, n).contains(x) <==> exists|i: int| 0 <= i < n && leaf_arm_has(c, #[trigger] c.branches@[i], i, x),
    decreases n,
{
    if n > 0 {
        let m = (n - 1) as nat;
        let b = c.branches@[n - 1];
        lemma_leaf_arm(c, m, x);
        assert(chain_leaves(c, n) == chain_leaves(c, m) + leaves(b.body@));
        lemma_either(chain_leaves(c, m), leaves(b.body@), x);
        if chain_leaves(c, n).contains(x) && chain_leaves(c, m).contains(x) {
            let i = choose|i: int| 0 <= i < m && leaf_arm_has(c, #[trigger] c.branches@[i], i, x);
            assert(0 <= i < n);
        }
        if exists|i: int| 0 <= i < n && leaf_arm_has(c, #[trigger] c.branches@[i], i, x) {
            let i = choose|i: int| 0 <= i < n && leaf_arm_has(c, #[trigger] c.branches@[i], i, x);
            if i < m {
                assert(0 <= i < m);
            }
        }
    }
}

/// A conditional holds the items of each of its branches and of its `%else`;
/// any other item is itself.
pub proof fn leaves_of_an_item(item: Item, x: Item)
    ensures
        item_leaves(item).contains(x) <==> match item {
            Item::Conditional(c) => {
                ||| exists|i: int|
                    0 <= i < c.branches@.len() && leaf_arm_has(c, #[trigger] c.branches@[i], i, x)
                ||| c.otherwise matches Some(body) && leaves(body@).contains(x)
            },
            _ => x == item,
        },
{
    match item {
        Item::Conditional(c) => {
            let n = c.branches@.len();
            lemma_leaf_arm(c, n, x);
            match c.otherwise {
                Some(body) => lemma_either(chain_leaves(c, n), leaves(body@), x),
                None => {},
            }
        },
        _ => {
            assert(seq![item][0] == item);
        },
    }
}

/// Going through one list after another is going through them joined, so that
/// the order is kept.
pub proof fn leaves_keep_the_order(a: Seq<Item>, b: Seq<Item>)
    ensures
        leaves(a + b) == leaves(a) + leaves(b),
    decreases b.len(),
{
    if b.len() == 0 {
        assert(a + b =~= a);
        assert(leaves(a) + leaves(b) =~= leaves(a));
    } else {
        leaves_keep_the_order(a, b.drop_last());
        assert((a + b).drop_last() =~= a + b.drop_last());
        assert((a + b).last() == b.last());
        assert(leaves(a + b) =~= leaves(a) + leaves(b));
    }
}

/// So is going through their conditionals.
pub proof fn sites_keep_the_order(a: Seq<Item>, b: Seq<Item>, scope: Scope, path: Seq<StepView>)
    ensures
        items_sites(a + b, scope, path) == items_sites(a, scope, path) + items_sites(
            b,
            scope,
            path,
        ),
    decreases b.len(),
{
    if b.len() == 0 {
        assert(a + b =~= a);
        assert(items_sites(a, scope, path) + items_sites(b, scope, path) =~= items_sites(
            a,
            scope,
            path,
        ));
    } else {
        sites_keep_the_order(a, b.drop_last(), scope, path);
        assert((a + b).drop_last() =~= a + b.drop_last());
        assert((a + b).last() == b.last());
        assert(items_sites(a + b, scope, path) =~= items_sites(a, scope, path) + items_sites(
            b,
            scope,
            path,
        ));
    }
}

} // verus!
