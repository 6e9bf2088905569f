//! Where reports stand.
use vstd::prelude::*;

use crate::ast::{CondBranch, Span, SpecFile, Conditional, Item};
use crate::diagnostic::DiagnosticView;
use crate::lint::Lint;
use crate::rules::{branch_findings, chain_findings, given, site_findings, BranchRule, SiteRule};
use crate::walk::{flat, spec_sites, SiteView};

verus! {

/// Whether something is said at `span`.
pub open spec fn says_at(ds: Seq<DiagnosticView>, span: Span) -> bool {
    exists|i: int| 0 <= i < ds.len() && (#[trigger] ds[i]).primary_span == span
}

/// What a rule adds to what it has said, on a spec file.
pub open spec fn news<L: Lint>(rule: L, spec: SpecFile) -> Seq<DiagnosticView> {
    rule.after(spec).skip(rule.pending().len() as int)
}

/// What is added is what comes after what was there.
pub proof fn lemma_news<L: Lint>(rule: L, spec: SpecFile, more: Seq<DiagnosticView>)
    requires
        rule.after(spec) == rule.pending() + more,
    ensures
        news(rule, spec) == more,
{
    assert(news(rule, spec) =~= more);
}

pub proof fn lemma_says_either(a: Seq<DiagnosticView>, b: Seq<DiagnosticView>, span: Span)
    ensures
        says_at(a + b, span) <==> says_at(a, span) || says_at(b, span),
{
    let c = a + b;
    if says_at(a, span) {
        let i = choose|i: int| 0 <= i < a.len() && (#[trigger] a[i]).primary_span == span;
        assert(c[i] == a[i]);
    }
    if says_at(b, span) {
        let i = choose|i: int| 0 <= i < b.len() && (#[trigger] b[i]).primary_span == span;
        assert(c[a.len() + i] == b[i]);
    }
    if says_at(c, span) {
        let i = choose|i: int| 0 <= i < c.len() && (#[trigger] c[i]).primary_span == span;
        if i < a.len() {
            assert(a[i] == c[i]);
        } else {
            assert(b[i - a.len()] == c[i]);
        }
    }
}

pub proof fn lemma_says_one(d: DiagnosticView, span: Span)
    ensures
        says_at(seq![d], span) <==> d.primary_span == span,
        !says_at(Seq::<DiagnosticView>::empty(), span),
{
    assert(seq![d][0] == d);
}

pub proof fn lemma_says_given(said: bool, d: DiagnosticView, span: Span)
    ensures
        says_at(given(said, d), span) <==> said && d.primary_span == span,
{
    lemma_says_one(d, span);
}

pub proof fn lemma_says_flat<A>(s: Seq<A>, f: spec_fn(A) -> Seq<DiagnosticView>, span: Span)
    ensures
        says_at(flat(s, f), span) <==> exists|i: int|
            0 <= i < s.len() && says_at(f(#[trigger] s[i]), span),
    decreases s.len(),
{
    if s.len() > 0 {
        let front = s.drop_last();
        lemma_says_flat(front, f, span);
        lemma_says_either(flat(front, f), f(s.last()), span);
        assert(s[s.len() - 1] == s.last());
        if says_at(flat(front, f), span) {
            let i = choose|i: int| 0 <= i < front.len() && says_at(f(#[trigger] front[i]), span);
            assert(s[i] == front[i]);
        }
        if exists|i: int| 0 <= i < s.len() && says_at(f(#[trigger] s[i]), span) {
            let i = choose|i: int| 0 <= i < s.len() && says_at(f(#[trigger] s[i]), span);
            if i < front.len() {
                assert(front[i] == s[i]);
            }
        }
    }
}

/// A rule on conditionals speaks at a span exactly if it does so of one of
/// them.
pub proof fn site_rules_speak_of_conditionals<R: SiteRule>(
    settings: &R::Settings,
    spec: SpecFile,
    span: Span,
)
    ensures
        says_at(site_findings::<R>(settings, spec), span) <==> exists|i: int|
            0 <= i < spec_sites(spec).len() && says_at(
                R::on_site(settings, #[trigger] spec_sites(spec)[i]),
                span,
            ),
{
    let f = |s: SiteView| R::on_site(settings, s);
    let all = spec_sites(spec);
    lemma_says_flat(all, f, span);
    if says_at(site_findings::<R>(settings, spec), span) {
        let i = choose|i: int| 0 <= i < all.len() && says_at(f(#[trigger] all[i]), span);
        assert(says_at(R::on_site(settings, all[i]), span));
    }
    if exists|i: int| 0 <= i < all.len() && says_at(R::on_site(settings, #[trigger] all[i]), span) {
        let i = choose|i: int|
            0 <= i < all.len() && says_at(R::on_site(settings, #[trigger] all[i]), span);
        assert(says_at(f(all[i]), span));
    }
}

/// A rule on branches speaks at a span exactly if it does so of a branch of
/// one of the conditionals.
pub proof fn branch_rules_speak_of_branches<R: BranchRule>(
    settings: &R::Settings,
    spec: SpecFile,
    span: Span,
)
    ensures
        says_at(branch_findings::<R>(settings, spec), span) <==> exists|i: int, j: int|
            #![trigger spec_sites(spec)[i].cond.branches@[j]]
            0 <= i < spec_sites(spec).len() && 0 <= j < spec_sites(spec)[i].cond.branches@.len()
                && says_at(R::on_branch(settings, spec_sites(spec)[i].cond.branches@[j]), span),
{
    let all = spec_sites(spec);
    let f = |s: SiteView| chain_findings::<R>(settings, s.cond.branches@);
    let g = |b: CondBranch| R::on_branch(settings, b);
    lemma_says_flat(all, f, span);
    if says_at(branch_findings::<R>(settings, spec), span) {
        let i = choose|i: int| 0 <= i < all.len() && says_at(f(#[trigger] all[i]), span);
        let bs = all[i].cond.branches@;
        lemma_says_flat(bs, g, span);
        let j = choose|j: int| 0 <= j < bs.len() && says_at(g(#[trigger] bs[j]), span);
        assert(says_at(R::on_branch(settings, all[i].cond.branches@[j]), span));
    }
    if exists|i: int, j: int|
        #![trigger all[i].cond.branches@[j]]
        0 <= i < all.len() && 0 <= j < all[i].cond.branches@.len() && says_at(
            R::on_branch(settings, all[i].cond.branches@[j]),
            span,
        ) {
        let (i, j) = choose|i: int, j: int|
            #![trigger all[i].cond.branches@[j]]
            0 <= i < all.len() && 0 <= j < all[i].cond.branches@.len() && says_at(
                R::on_branch(settings, all[i].cond.branches@[j]),
                span,
            );
        let bs = all[i].cond.branches@;
        lemma_says_flat(bs, g, span);
        assert(says_at(g(bs[j]), span));
        assert(says_at(f(all[i]), span));
    }
}

/// Whether a body is that of a branch or of the `%else`.
pub open spec fn is_arm(c: Conditional, body: Seq<Item>) -> bool {
    ||| exists|i: int| 0 <= i < c.branches@.len() && (#[trigger] c.branches@[i]).body@ == body
    ||| c.otherwise matches Some(b) && b@ == body
}

/// Whether an item adds nothing to a spec file.
pub open spec fn adds_nothing(item: Item) -> bool {
    item matches Item::Blank || item matches Item::Comment(_)
}

} // verus!
