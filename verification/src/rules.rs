//! The rules, and how a rule on single conditionals or branches is run.
pub mod adjacent_doc_lines;
pub mod adjacent_license_lines;
pub mod adjacent_mutex_ifs;
pub mod always_true_branch;
pub mod arch_complement_shorter;
pub mod arch_condition_domain_simplify;
pub mod arch_policy;
pub mod arch_subset_under_parent;
pub mod autoreqprov_comment;
pub mod bcond_modern;
pub mod bcond_negation_canonical;
pub mod bcond_on_non_fedora;
pub mod bcond_usage;
pub mod boolean_dnf;
pub mod branch_item_subset;
pub mod build_tool_brs;
pub mod buildarch_reparse;
pub mod buildsystem_macros;
pub mod canonical_major_section_order;
pub mod changelog_health;
pub mod combine_install_dirs;
pub mod commented_out_spec_code;
pub mod complementary_guards_same_item;
pub mod condition_common_disjunct_factor;
pub mod condition_common_factor;
pub mod conditional_factoring;
pub mod conditional_hoist;
pub mod conditional_idioms;
pub mod conditional_intervals;
pub mod conditional_merge;
pub mod conditional_optimize;
pub mod conditional_simplify;
pub mod conditional_structure;
pub mod context_redundant_part;
pub mod cp_chmod_to_install_m;
pub mod dead_elif;
pub mod dep_features;
pub mod dep_health;
pub mod dependency_constraint_subsumption;
pub mod deprecated_clean_section;

use vstd::prelude::*;

use crate::ast::{CondBranch, SpecFile};
use crate::diagnostic::{reports, Diagnostic, DiagnosticView};
use crate::walk::{
    conditionals, flat, lemma_flat_step, site_views, spec_sites, Site, SiteView,
};

verus! {

/// A rule that looks at one conditional at a time.
pub trait SiteRule {
    /// What the rule goes by besides the conditional.
    type Settings;

    /// What the rule says of a conditional.
    spec fn on_site(settings: &Self::Settings, site: SiteView) -> Seq<DiagnosticView>;

    fn check_site(settings: &Self::Settings, site: &Site, out: &mut Vec<Diagnostic>)
        ensures
            reports(final(out)@) == reports(old(out)@) + Self::on_site(settings, site@),
    ;
}

/// What a rule says of all conditionals, in source order.
pub open spec fn site_findings<R: SiteRule>(settings: &R::Settings, spec: SpecFile) -> Seq<
    DiagnosticView,
> {
    flat(spec_sites(spec), |s: SiteView| R::on_site(settings, s))
}

/// Runs a rule over every conditional.
pub fn run_sites<R: SiteRule>(
    settings: &R::Settings,
    spec: &SpecFile,
    out: &mut Vec<Diagnostic>,
)
    ensures
        reports(final(out)@) == reports(old(out)@) + site_findings::<R>(settings, *spec),
{
    let sites = conditionals(spec);
    let ghost views = site_views(sites@);
    let ghost f = |s: SiteView| R::on_site(settings, s);
    let ghost start = reports(out@);
    let mut i: usize = 0;
    assert(start + flat(views.take(0), f) == start);
    while i < sites.len()
        invariant
            i <= sites.len(),
            views == site_views(sites@),
            f == (|s: SiteView| R::on_site(settings, s)),
            reports(out@) == start + flat(views.take(i as int), f),
        decreases sites.len() - i,
    {
        R::check_site(settings, &sites[i], out);
        proof {
            lemma_flat_step(views, f, i as int);
            assert(views[i as int] == sites@[i as int]@);
            assert(start + flat(views.take(i as int), f) + f(views[i as int]) == start + (flat(
                views.take(i as int),
                f,
            ) + f(views[i as int])));
        }
        i = i + 1;
    }
    assert(views.take(i as int) == views);
}

/// A rule that looks at one branch at a time.
pub trait BranchRule {
    /// What the rule goes by besides the branch.
    type Settings;

    /// What the rule says of a branch.
    spec fn on_branch(settings: &Self::Settings, branch: CondBranch) -> Seq<DiagnosticView>;

    fn check_branch(settings: &Self::Settings, branch: &CondBranch, out: &mut Vec<Diagnostic>)
        ensures
            reports(final(out)@) == reports(old(out)@) + Self::on_branch(settings, *branch),
    ;
}

/// What a rule says of the branches of one conditional.
pub open spec fn chain_findings<R: BranchRule>(
    settings: &R::Settings,
    branches: Seq<CondBranch>,
) -> Seq<DiagnosticView> {
    flat(branches, |b: CondBranch| R::on_branch(settings, b))
}

/// What a rule says of all branches, conditional by conditional.
pub open spec fn branch_findings<R: BranchRule>(settings: &R::Settings, spec: SpecFile) -> Seq<
    DiagnosticView,
> {
    flat(spec_sites(spec), |s: SiteView| chain_findings::<R>(settings, s.cond.branches@))
}

fn run_chain<R: BranchRule>(
    settings: &R::Settings,
    branches: &Vec<CondBranch>,
    out: &mut Vec<Diagnostic>,
)
    ensures
        reports(final(out)@) == reports(old(out)@) + chain_findings::<R>(settings, branches@),
{
    let ghost f = |b: CondBranch| R::on_branch(settings, b);
    let ghost start = reports(out@);
    let mut i: usize = 0;
    assert(start + flat(branches@.take(0), f) == start);
    while i < branches.len()
        invariant
            i <= branches.len(),
            f == (|b: CondBranch| R::on_branch(settings, b)),
            reports(out@) == start + flat(branches@.take(i as int), f),
        decreases branches.len() - i,
    {
        R::check_branch(settings, &branches[i], out);
        proof {
            lemma_flat_step(branches@, f, i as int);
            assert(start + flat(branches@.take(i as int), f) + f(branches@[i as int]) == start + (
            flat(branches@.take(i as int), f) + f(branches@[i as int])));
        }
        i = i + 1;
    }
    assert(branches@.take(i as int) == branches@);
}

/// Runs a rule over every branch.
pub fn run_branches<R: BranchRule>(
    settings: &R::Settings,
    spec: &SpecFile,
    out: &mut Vec<Diagnostic>,
)
    ensures
        reports(final(out)@) == reports(old(out)@) + branch_findings::<R>(settings, *spec),
{
    let sites = conditionals(spec);
    let ghost views = site_views(sites@);
    let ghost f = |s: SiteView| chain_findings::<R>(settings, s.cond.branches@);
    let ghost start = reports(out@);
    let mut i: usize = 0;
    assert(start + flat(views.take(0), f) == start);
    while i < sites.len()
        invariant
            i <= sites.len(),
            views == site_views(sites@),
            f == (|s: SiteView| chain_findings::<R>(settings, s.cond.branches@)),
            reports(out@) == start + flat(views.take(i as int), f),
        decreases sites.len() - i,
    {
        run_chain::<R>(settings, &sites[i].cond.branches, out);
        proof {
            lemma_flat_step(views, f, i as int);
            assert(views[i as int] == sites@[i as int]@);
            assert(start + flat(views.take(i as int), f) + f(views[i as int]) == start + (flat(
                views.take(i as int),
                f,
            ) + f(views[i as int])));
        }
        i = i + 1;
    }
    assert(views.take(i as int) == views);
}

/// A diagnostic, where there is something to say.
pub open spec fn given(said: bool, d: DiagnosticView) -> Seq<DiagnosticView> {
    if said {
        seq![d]
    } else {
        Seq::empty()
    }
}

/// Adds a diagnostic, where there is something to say.
pub fn say(out: &mut Vec<Diagnostic>, d: Diagnostic)
    ensures
        reports(final(out)@) == reports(old(out)@) + seq![d@],
{
    out.push(d);
    assert(reports(out@) =~= reports(old(out)@) + seq![d@]);
}

} // verus!
