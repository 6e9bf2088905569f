//! Visiting every conditional of a spec file, in source order.
use vstd::prelude::*;

use crate::ast::{CondBranch, Conditional, Item, Section, SpecFile};

verus! {

/// The values that `f` gives for the elements of `s`, one list after another.
pub open spec fn flat<A, B>(s: Seq<A>, f: spec_fn(A) -> Seq<B>) -> Seq<B>
    decreases s.len(),
{
    if s.len() == 0 {
        Seq::empty()
    } else {
        flat(s.drop_last(), f) + f(s.last())
    }
}

pub proof fn lemma_flat_step<A, B>(s: Seq<A>, f: spec_fn(A) -> Seq<B>, i: int)
    requires
        0 <= i < s.len(),
    ensures
        flat(s.take(i + 1), f) == flat(s.take(i), f) + f(s[i]),
{
    assert(s.take(i + 1).drop_last() == s.take(i));
}

/// What stands in the lists joined stands in one of them.
pub proof fn lemma_flat_contains<A, B>(s: Seq<A>, f: spec_fn(A) -> Seq<B>, x: B)
    ensures
        flat(s, f).contains(x) <==> exists|i: int| 0 <= i < s.len() && f(#[trigger] s[i]).contains(x),
    decreases s.len(),
{
    if s.len() > 0 {
        let front = s.drop_last();
        let a = flat(front, f);
        let b = f(s.last());
        lemma_flat_contains(front, f, x);
        if (a + b).contains(x) {
            let k = choose|k: int| 0 <= k < (a + b).len() && (a + b)[k] == x;
            if k < a.len() {
                assert(a[k] == x);
                let i = choose|i: int| 0 <= i < front.len() && f(#[trigger] front[i]).contains(x);
                assert(s[i] == front[i]);
            } else {
                assert(b[k - a.len()] == x);
                assert(s[s.len() - 1] == s.last());
            }
        }
        if exists|i: int| 0 <= i < s.len() && f(#[trigger] s[i]).contains(x) {
            let i = choose|i: int| 0 <= i < s.len() && f(#[trigger] s[i]).contains(x);
            if i < front.len() {
                assert(front[i] == s[i]);
                let k = choose|k: int| 0 <= k < a.len() && a[k] == x;
                assert((a + b)[k] == x);
            } else {
                let k = choose|k: int| 0 <= k < b.len() && b[k] == x;
                assert((a + b)[a.len() + k] == x);
            }
        }
    }
}

/// Where a conditional stands.
#[derive(Clone, Copy, Debug, PartialEq, Eq, Structural)]
pub enum Scope {
    Top,
    Package,
    Files,
}

/// One step on the way to a conditional: the arm of the conditional around
/// it. The arm after the last branch is the `%else`.
#[derive(Clone, Copy, Debug)]
pub struct Step<'a> {
    pub cond: &'a Conditional,
    pub arm: usize,
}

pub struct StepView {
    pub cond: Conditional,
    pub arm: int,
}

impl<'a> View for Step<'a> {
    type V = StepView;

    open spec fn view(&self) -> StepView {
        StepView { cond: *self.cond, arm: self.arm as int }
    }
}

/// A conditional together with the conditionals that enclose it, outermost
/// first.
#[derive(Debug)]
pub struct Site<'a> {
    pub scope: Scope,
    pub cond: &'a Conditional,
    pub path: Vec<Step<'a>>,
}

pub struct SiteView {
    pub scope: Scope,
    pub cond: Conditional,
    pub path: Seq<StepView>,
}

pub open spec fn steps(p: Seq<Step>) -> Seq<StepView> {
    p.map_values(|s: Step| s@)
}

impl<'a> View for Site<'a> {
    type V = SiteView;

    open spec fn view(&self) -> SiteView {
        SiteView { scope: self.scope, cond: *self.cond, path: steps(self.path@) }
    }
}

pub open spec fn site_views(s: Seq<Site>) -> Seq<SiteView> {
    s.map_values(|x: Site| x@)
}

/// The conditionals among `items`, each before those inside it.
pub open spec fn items_sites(items: Seq<Item>, scope: Scope, path: Seq<StepView>) -> Seq<SiteView>
    decreases items, 0int,
{
    if items.len() == 0 {
        Seq::empty()
    } else {
        items_sites(items.drop_last(), scope, path) + item_sites(items.last(), scope, path)
    }
}

pub open spec fn item_sites(item: Item, scope: Scope, path: Seq<StepView>) -> Seq<SiteView>
    decreases item, 0int,
{
    match item {
        Item::Conditional(c) => cond_sites(c, scope, path),
        Item::Section(s) => section_sites(*s, path),
        _ => Seq::empty(),
    }
}

pub open spec fn section_sites(section: Section, path: Seq<StepView>) -> Seq<SiteView>
    decreases section, 0int,
{
    match section {
        Section::Package { content, .. } => items_sites(content@, Scope::Package, path),
        Section::Files { content, .. } => items_sites(content@, Scope::Files, path),
        _ => Seq::empty(),
    }
}

pub open spec fn cond_sites(c: Conditional, scope: Scope, path: Seq<StepView>) -> Seq<SiteView>
    decreases c, c.branches@.len() + 1,
{
    let n = c.branches@.len();
    let head = seq![SiteView { scope, cond: c, path }] + arms_sites(c, scope, path, n);
    match c.otherwise {
        Some(body) => head + items_sites(
            body@,
            scope,
            path.push(StepView { cond: c, arm: n as int }),
        ),
        None => head,
    }
}

/// The conditionals inside the first `n` branches of `c`.
pub open spec fn arms_sites(c: Conditional, scope: Scope, path: Seq<StepView>, n: nat) -> Seq<
    SiteView,
>
    decreases c, n,
{
    if n == 0 || n > c.branches@.len() {
        Seq::empty()
    } else {
        arms_sites(c, scope, path, (n - 1) as nat) + items_sites(
            c.branches@[n - 1].body@,
            scope,
            path.push(StepView { cond: c, arm: n - 1 }),
        )
    }
}

/// Every conditional of `spec`.
pub open spec fn spec_sites(spec: SpecFile) -> Seq<SiteView> {
    items_sites(spec.items@, Scope::Top, Seq::empty())
}

fn extended<'a>(path: &Vec<Step<'a>>, step: Step<'a>) -> (r: Vec<Step<'a>>)
    ensures
        r@ == path@.push(step),
        steps(r@) == steps(path@).push(step@),
{
    let mut out: Vec<Step<'a>> = copied(path);
    out.push(step);
    assert(steps(out@) == steps(path@).push(step@));
    out
}

fn copied<'a>(path: &Vec<Step<'a>>) -> (r: Vec<Step<'a>>)
    ensures
        r@ == path@,
{
    let mut out: Vec<Step<'a>> = Vec::new();
    let mut i: usize = 0;
    while i < path.len()
        invariant
            i <= path.len(),
            out@ == path@.take(i as int),
        decreases path.len() - i,
    {
        out.push(path[i]);
        assert(path@.take(i + 1) == path@.take(i as int).push(path@[i as int]));
        i = i + 1;
    }
    assert(path@.take(i as int) == path@);
    out
}

fn push_items<'a>(
    items: &'a Vec<Item>,
    scope: Scope,
    path: &Vec<Step<'a>>,
    out: &mut Vec<Site<'a>>,
)
    ensures
        site_views(final(out)@) == site_views(old(out)@) + items_sites(
            items@,
            scope,
            steps(path@),
        ),
    decreases items, 0int,
{
    let ghost start = site_views(out@);
    let mut i: usize = 0;
    assert(start + items_sites(items@.take(0), scope, steps(path@)) == start);
    while i < items.len()
        invariant
            i <= items.len(),
            site_views(out@) == start + items_sites(items@.take(i as int), scope, steps(path@)),
        decreases items.len() - i,
    {
        proof {
            assert(items@.take(i + 1).drop_last() == items@.take(i as int));
        }
        match &items[i] {
            Item::Conditional(c) => {
                push_cond(c, scope, path, out);
            },
            Item::Section(s) => {
                match &**s {
                    Section::Package { content, .. } => {
                        push_items(content, Scope::Package, path, out);
                    },
                    Section::Files { content, .. } => {
                        push_items(content, Scope::Files, path, out);
                    },
                    _ => {},
                }
            },
            _ => {},
        }
        proof {
            let a = items_sites(items@.take(i as int), scope, steps(path@));
            let b = item_sites(items@[i as int], scope, steps(path@));
            assert(items_sites(items@.take(i + 1), scope, steps(path@)) == a + b);
            assert(start + (a + b) == start + a + b);
            assert(site_views(out@) == start + a + b);
        }
        i = i + 1;
    }
    assert(items@.take(i as int) == items@);
}

fn push_cond<'a>(
    c: &'a Conditional,
    scope: Scope,
    path: &Vec<Step<'a>>,
    out: &mut Vec<Site<'a>>,
)
    ensures
        site_views(final(out)@) == site_views(old(out)@) + cond_sites(*c, scope, steps(path@)),
    decreases c, 0int,
{
    let ghost start = site_views(out@);
    let ghost before = out@;
    let ghost p = steps(path@);
    let here = Site { scope, cond: c, path: copied(path) };
    let ghost site = here@;
    out.push(here);
    assert(site_views(out@) == start.push(site));
    let mut i: usize = 0;
    let ghost head = start + seq![site];
    assert(site_views(out@) == head + arms_sites(*c, scope, p, 0));
    while i < c.branches.len()
        invariant
            i <= c.branches.len(),
            p == steps(path@),
            site_views(out@) == head + arms_sites(*c, scope, p, i as nat),
        decreases c.branches.len() - i,
    {
        let deeper = extended(path, Step { cond: c, arm: i });
        push_items(&c.branches[i].body, scope, &deeper, out);
        proof {
            let a = arms_sites(*c, scope, p, i as nat);
            let b = items_sites(
                c.branches@[i as int].body@,
                scope,
                p.push(StepView { cond: *c, arm: i as int }),
            );
            assert(arms_sites(*c, scope, p, (i + 1) as nat) == a + b);
            assert(head + a + b == head + (a + b));
        }
        i = i + 1;
    }
    let ghost arms = arms_sites(*c, scope, p, i as nat);
    assert(head + arms == start + (seq![site] + arms));
    match &c.otherwise {
        Some(body) => {
            let deeper = extended(path, Step { cond: c, arm: c.branches.len() });
            push_items(body, scope, &deeper, out);
            proof {
                let b = items_sites(
                    body@,
                    scope,
                    p.push(StepView { cond: *c, arm: c.branches@.len() as int }),
                );
                assert(start + (seq![site] + arms) + b == start + (seq![site] + arms + b));
            }
        },
        None => {},
    }
}

/// Every conditional of `spec`, in source order.
pub fn conditionals<'a>(spec: &'a SpecFile) -> (r: Vec<Site<'a>>)
    ensures
        site_views(r@) == spec_sites(*spec),
{
    let mut out: Vec<Site<'a>> = Vec::new();
    let path: Vec<Step<'a>> = Vec::new();
    push_items(&spec.items, Scope::Top, &path, &mut out);
    assert(steps(path@) == Seq::<StepView>::empty());
    assert(site_views(out@) == spec_sites(*spec));
    out
}

// ---------------------------------------------------------------------
// Branches
// ---------------------------------------------------------------------

/// A branch together with the conditionals that enclose it, outermost first.
#[derive(Debug)]
pub struct Arm<'a> {
    pub branch: &'a CondBranch,
    pub path: Vec<Step<'a>>,
}

pub struct ArmView {
    pub branch: CondBranch,
    pub path: Seq<StepView>,
}

impl<'a> View for Arm<'a> {
    type V = ArmView;

    open spec fn view(&self) -> ArmView {
        ArmView { branch: *self.branch, path: steps(self.path@) }
    }
}

pub open spec fn arm_views(s: Seq<Arm>) -> Seq<ArmView> {
    s.map_values(|x: Arm| x@)
}

/// The branches among `items`, each before those inside it and those before
/// the branch after it.
pub open spec fn items_arms(items: Seq<Item>, path: Seq<StepView>) -> Seq<ArmView>
    decreases items, 0int,
{
    if items.len() == 0 {
        Seq::empty()
    } else {
        items_arms(items.drop_last(), path) + item_arms(items.last(), path)
    }
}

pub open spec fn item_arms(item: Item, path: Seq<StepView>) -> Seq<ArmView>
    decreases item, 0int,
{
    match item {
        Item::Conditional(c) => cond_arms(c, path),
        Item::Section(s) => section_arms(*s, path),
        _ => Seq::empty(),
    }
}

pub open spec fn section_arms(section: Section, path: Seq<StepView>) -> Seq<ArmView>
    decreases section, 0int,
{
    match section {
        Section::Package { content, .. } => items_arms(content@, path),
        Section::Files { content, .. } => items_arms(content@, path),
        _ => Seq::empty(),
    }
}

pub open spec fn cond_arms(c: Conditional, path: Seq<StepView>) -> Seq<ArmView>
    decreases c, c.branches@.len() + 1,
{
    let n = c.branches@.len();
    match c.otherwise {
        Some(body) => chain_arms(c, path, n) + items_arms(
            body@,
            path.push(StepView { cond: c, arm: n as int }),
        ),
        None => chain_arms(c, path, n),
    }
}

/// The first `n` branches of `c` and those inside them.
pub open spec fn chain_arms(c: Conditional, path: Seq<StepView>, n: nat) -> Seq<ArmView>
    decreases c, n,
{
    if n == 0 || n > c.branches@.len() {
        Seq::empty()
    } else {
        chain_arms(c, path, (n - 1) as nat) + seq![ArmView { branch: c.branches@[n - 1], path }]
            + items_arms(c.branches@[n - 1].body@, path.push(StepView { cond: c, arm: n - 1 }))
    }
}

/// Every branch of `spec`.
pub open spec fn spec_arms(spec: SpecFile) -> Seq<ArmView> {
    items_arms(spec.items@, Seq::empty())
}

fn push_item_arms<'a>(items: &'a Vec<Item>, path: &Vec<Step<'a>>, out: &mut Vec<Arm<'a>>)
    ensures
        arm_views(final(out)@) == arm_views(old(out)@) + items_arms(items@, steps(path@)),
    decreases items, 0int,
{
    let ghost start = arm_views(out@);
    let ghost p = steps(path@);
    let mut i: usize = 0;
    assert(start + items_arms(items@.take(0), p) == start);
    while i < items.len()
        invariant
            i <= items.len(),
            p == steps(path@),
            arm_views(out@) == start + items_arms(items@.take(i as int), p),
        decreases items.len() - i,
    {
        let ghost a = items_arms(items@.take(i as int), p);
        let ghost b = item_arms(items@[i as int], p);
        proof {
            assert(items@.take(i + 1).drop_last() == items@.take(i as int));
            assert(items_arms(items@.take(i + 1), p) == a + b);
            assert(start + (a + b) == start + a + b);
        }
        match &items[i] {
            Item::Conditional(c) => {
                push_cond_arms(c, path, out);
            },
            Item::Section(s) => {
                assert(b == section_arms(**s, p));
                match &**s {
                    Section::Package { content, .. } => {
                        push_item_arms(content, path, out);
                    },
                    Section::Files { content, .. } => {
                        push_item_arms(content, path, out);
                    },
                    _ => {},
                }
            },
            _ => {},
        }
        assert(arm_views(out@) == start + a + b);
        i = i + 1;
    }
    assert(items@.take(i as int) == items@);
}

fn push_cond_arms<'a>(c: &'a Conditional, path: &Vec<Step<'a>>, out: &mut Vec<Arm<'a>>)
    ensures
        arm_views(final(out)@) == arm_views(old(out)@) + cond_arms(*c, steps(path@)),
    decreases c, 0int,
{
    let ghost start = arm_views(out@);
    let ghost p = steps(path@);
    let mut i: usize = 0;
    assert(start + chain_arms(*c, p, 0) == start);
    while i < c.branches.len()
        invariant
            i <= c.branches.len(),
            p == steps(path@),
            arm_views(out@) == start + chain_arms(*c, p, i as nat),
        decreases c.branches.len() - i,
    {
        let ghost before = arm_views(out@);
        let here = Arm { branch: &c.branches[i], path: copied(path) };
        let ghost arm = here@;
        out.push(here);
        assert(arm_views(out@) == before + seq![arm]);
        let deeper = extended(path, Step { cond: c, arm: i });
        push_item_arms(&c.branches[i].body, &deeper, out);
        proof {
            let a = chain_arms(*c, p, i as nat);
            let b = items_arms(
                c.branches@[i as int].body@,
                p.push(StepView { cond: *c, arm: i as int }),
            );
            assert(chain_arms(*c, p, (i + 1) as nat) == a + seq![arm] + b);
            assert(start + a + seq![arm] + b == start + (a + seq![arm] + b));
        }
        i = i + 1;
    }
    match &c.otherwise {
        Some(body) => {
            let ghost a = chain_arms(*c, p, i as nat);
            let deeper = extended(path, Step { cond: c, arm: c.branches.len() });
            push_item_arms(body, &deeper, out);
            proof {
                let b = items_arms(
                    body@,
                    p.push(StepView { cond: *c, arm: c.branches@.len() as int }),
                );
                assert(start + a + b == start + (a + b));
            }
        },
        None => {},
    }
}

/// Every branch of `spec`, in source order.
pub fn arms<'a>(spec: &'a SpecFile) -> (r: Vec<Arm<'a>>)
    ensures
        arm_views(r@) == spec_arms(*spec),
{
    let mut out: Vec<Arm<'a>> = Vec::new();
    let path: Vec<Step<'a>> = Vec::new();
    push_item_arms(&spec.items, &path, &mut out);
    assert(steps(path@) == Seq::<StepView>::empty());
    assert(arm_views(out@) == spec_arms(*spec));
    out
}

// ---------------------------------------------------------------------
// Lists of items
// ---------------------------------------------------------------------

/// The lists of items inside `items`: the bodies of conditionals, the content
/// of packages and of `%files` sections, each before those inside it.
pub open spec fn inner_lists(items: Seq<Item>) -> Seq<Seq<Item>>
    decreases items, 0int,
{
    if items.len() == 0 {
        Seq::empty()
    } else {
        inner_lists(items.drop_last()) + item_lists(items.last())
    }
}

pub open spec fn item_lists(item: Item) -> Seq<Seq<Item>>
    decreases item, 0int,
{
    match item {
        Item::Conditional(c) => cond_lists(c),
        Item::Section(s) => section_lists(*s),
        _ => Seq::empty(),
    }
}

pub open spec fn section_lists(section: Section) -> Seq<Seq<Item>>
    decreases section, 0int,
{
    match section {
        Section::Package { content, .. } => seq![content@] + inner_lists(content@),
        Section::Files { content, .. } => seq![content@] + inner_lists(content@),
        _ => Seq::empty(),
    }
}

pub open spec fn cond_lists(c: Conditional) -> Seq<Seq<Item>>
    decreases c, c.branches@.len() + 1,
{
    let n = c.branches@.len();
    match c.otherwise {
        Some(body) => chain_lists(c, n) + (seq![body@] + inner_lists(body@)),
        None => chain_lists(c, n),
    }
}

pub open spec fn chain_lists(c: Conditional, n: nat) -> Seq<Seq<Item>>
    decreases c, n,
{
    if n == 0 || n > c.branches@.len() {
        Seq::empty()
    } else {
        chain_lists(c, (n - 1) as nat) + (seq![c.branches@[n - 1].body@] + inner_lists(
            c.branches@[n - 1].body@,
        ))
    }
}

/// Every list of items of `spec`, the top level first.
pub open spec fn spec_lists(spec: SpecFile) -> Seq<Seq<Item>> {
    seq![spec.items@] + inner_lists(spec.items@)
}

/// What a list of references to lists points at.
pub open spec fn list_views(v: Seq<&Vec<Item>>) -> Seq<Seq<Item>> {
    v.map_values(|l: &Vec<Item>| l@)
}

/// Adds `items` and the lists inside them.
fn push_list<'a>(items: &'a Vec<Item>, out: &mut Vec<&'a Vec<Item>>)
    ensures
        list_views(final(out)@) == list_views(old(out)@) + (seq![items@] + inner_lists(items@)),
    decreases items, 1int,
{
    let ghost start = list_views(out@);
    out.push(items);
    let ghost first = start + seq![items@];
    assert(list_views(out@) == first);
    let mut i: usize = 0;
    assert(first + inner_lists(items@.take(0)) == first);
    while i < items.len()
        invariant
            i <= items.len(),
            list_views(out@) == first + inner_lists(items@.take(i as int)),
        decreases items.len() - i,
    {
        let ghost a = inner_lists(items@.take(i as int));
        let ghost b = item_lists(items@[i as int]);
        proof {
            assert(items@.take(i + 1).drop_last() == items@.take(i as int));
            assert(inner_lists(items@.take(i + 1)) == a + b);
            assert(first + (a + b) == first + a + b);
        }
        match &items[i] {
            Item::Conditional(c) => {
                push_cond_lists(c, out);
            },
            Item::Section(s) => {
                assert(b == section_lists(**s));
                match &**s {
                    Section::Package { content, .. } => {
                        push_list(content, out);
                    },
                    Section::Files { content, .. } => {
                        push_list(content, out);
                    },
                    _ => {},
                }
            },
            _ => {},
        }
        assert(list_views(out@) == first + a + b);
        i = i + 1;
    }
    assert(items@.take(i as int) == items@);
    assert(first + inner_lists(items@) == start + (seq![items@] + inner_lists(items@)));
}

fn push_cond_lists<'a>(c: &'a Conditional, out: &mut Vec<&'a Vec<Item>>)
    ensures
        list_views(final(out)@) == list_views(old(out)@) + cond_lists(*c),
    decreases c, 0int,
{
    let ghost start = list_views(out@);
    let mut i: usize = 0;
    assert(start + chain_lists(*c, 0) == start);
    while i < c.branches.len()
        invariant
            i <= c.branches.len(),
            list_views(out@) == start + chain_lists(*c, i as nat),
        decreases c.branches.len() - i,
    {
        push_list(&c.branches[i].body, out);
        proof {
            let a = chain_lists(*c, i as nat);
            let body = c.branches@[i as int].body@;
            let b = seq![body] + inner_lists(body);
            assert(chain_lists(*c, (i + 1) as nat) == a + b);
            assert(start + a + b == start + (a + b));
        }
        i = i + 1;
    }
    match &c.otherwise {
        Some(body) => {
            push_list(body, out);
            proof {
                let a = chain_lists(*c, i as nat);
                let b = seq![body@] + inner_lists(body@);
                assert(start + a + b == start + (a + b));
            }
        },
        None => {},
    }
}

/// Every list of items of `spec`, the top level first.
pub fn lists<'a>(spec: &'a SpecFile) -> (r: Vec<&'a Vec<Item>>)
    ensures
        list_views(r@) == spec_lists(*spec),
{
    let mut out: Vec<&'a Vec<Item>> = Vec::new();
    push_list(&spec.items, &mut out);
    assert(list_views(out@) == spec_lists(*spec));
    out
}

// ---------------------------------------------------------------------
// Items, whatever conditionals they stand in
// ---------------------------------------------------------------------

/// The items of a list and of the bodies of the conditionals in it, without
/// the conditionals, in source order.
pub open spec fn leaves(items: Seq<Item>) -> Seq<Item>
    decreases items, 0int,
{
    if items.len() == 0 {
        Seq::empty()
    } else {
        leaves(items.drop_last()) + item_leaves(items.last())
    }
}

pub open spec fn item_leaves(item: Item) -> Seq<Item>
    decreases item, 0int,
{
    match item {
        Item::Conditional(c) => cond_leaves(c),
        _ => seq![item],
    }
}

pub open spec fn cond_leaves(c: Conditional) -> Seq<Item>
    decreases c, c.branches@.len() + 1,
{
    let n = c.branches@.len();
    match c.otherwise {
        Some(body) => chain_leaves(c, n) + leaves(body@),
        None => chain_leaves(c, n),
    }
}

pub open spec fn chain_leaves(c: Conditional, n: nat) -> Seq<Item>
    decreases c, n,
{
    if n == 0 || n > c.branches@.len() {
        Seq::empty()
    } else {
        chain_leaves(c, (n - 1) as nat) + leaves(c.branches@[n - 1].body@)
    }
}

/// The items that a list of references points at.
pub open spec fn item_views(v: Seq<&Item>) -> Seq<Item> {
    v.map_values(|i: &Item| *i)
}

fn push_leaves<'a>(items: &'a Vec<Item>, out: &mut Vec<&'a Item>)
    ensures
        item_views(final(out)@) == item_views(old(out)@) + leaves(items@),
    decreases items, 0int,
{
    let ghost start = item_views(out@);
    let mut i: usize = 0;
    assert(start + leaves(items@.take(0)) == start);
    while i < items.len()
        invariant
            i <= items.len(),
            item_views(out@) == start + leaves(items@.take(i as int)),
        decreases items.len() - i,
    {
        let ghost a = leaves(items@.take(i as int));
        let ghost b = item_leaves(items@[i as int]);
        proof {
            assert(items@.take(i + 1).drop_last() == items@.take(i as int));
            assert(leaves(items@.take(i + 1)) == a + b);
            assert(start + (a + b) == start + a + b);
        }
        match &items[i] {
            Item::Conditional(c) => {
                push_cond_leaves(c, out);
            },
            _ => {
                let ghost before = item_views(out@);
                out.push(&items[i]);
                assert(item_views(out@) == before + seq![items@[i as int]]);
            },
        }
        assert(item_views(out@) == start + a + b);
        i = i + 1;
    }
    assert(items@.take(i as int) == items@);
}

fn push_cond_leaves<'a>(c: &'a Conditional, out: &mut Vec<&'a Item>)
    ensures
        item_views(final(out)@) == item_views(old(out)@) + cond_leaves(*c),
    decreases c, 0int,
{
    let ghost start = item_views(out@);
    let mut i: usize = 0;
    assert(start + chain_leaves(*c, 0) == start);
    while i < c.branches.len()
        invariant
            i <= c.branches.len(),
            item_views(out@) == start + chain_leaves(*c, i as nat),
        decreases c.branches.len() - i,
    {
        push_leaves(&c.branches[i].body, out);
        proof {
            let a = chain_leaves(*c, i as nat);
            let b = leaves(c.branches@[i as int].body@);
            assert(chain_leaves(*c, (i + 1) as nat) == a + b);
            assert(start + a + b == start + (a + b));
        }
        i = i + 1;
    }
    match &c.otherwise {
        Some(body) => {
            push_leaves(body, out);
            proof {
                let a = chain_leaves(*c, i as nat);
                let b = leaves(body@);
                assert(start + a + b == start + (a + b));
            }
        },
        None => {},
    }
}

/// The items of a list, whatever conditionals they stand in.
pub fn leaf_items<'a>(items: &'a Vec<Item>) -> (r: Vec<&'a Item>)
    ensures
        item_views(r@) == leaves(items@),
{
    let mut out: Vec<&'a Item> = Vec::new();
    push_leaves(items, &mut out);
    assert(item_views(out@) == leaves(items@));
    out
}

} // verus!
