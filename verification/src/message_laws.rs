//! What reports name.
use vstd::prelude::*;

use crate::ast::{ChangelogEntry, MacroDef, PreambleItem, Span, SpecFile, Tag};
use crate::calendar::{date_of, true_weekday, Today};
use crate::diagnostic::DiagnosticView;
use crate::dnf::Literal;
use crate::packages::{dep_label, StatedView};
use crate::rules::arch_complement_shorter::complement_report;
use crate::rules::arch_condition_domain_simplify::cover_report;
use crate::rules::autoreqprov_comment::{disabled, disabled_report, turns_off};
use crate::rules::bcond_on_non_fedora::{use_report, BcondKind};
use crate::rules::bcond_usage::{undeclared_report, unused_report};
use crate::rules::boolean_dnf::{redundancy_report, Analysis};
use crate::rules::build_tool_brs::missing_report;
use crate::rules::buildarch_reparse::{hazard_report, kind_label};
use crate::rules::buildsystem_macros::macro_report;
use crate::rules::changelog_health::{
    evr_report, future_findings, implausible, implausible_findings, is_future, order_report,
    weekday_report,
};
use crate::rules::complementary_guards_same_item::{guard_report, OccurrenceView};
use crate::rules::condition_common_factor::{common, factor_report};
use crate::rules::conditional_factoring::many_message;
use crate::rules::conditional_hoist::{hoistable, HoistCommonPrefix, HoistCommonSuffix};
use crate::rules::conditional_idioms::bcond_report;
use crate::rules::conditional_structure::{
    branch_sum, complexity_findings, depth_message, duplicate_report,
};
use crate::rules::dep_health::{self_at, AtomKeyView};
use crate::rules::dependency_constraint_subsumption::{subsumed_report, EntryView};
use crate::rules::{dep_health, SiteRule};
use crate::text::{contains, decimal, occurs_at, opt_string};
use crate::walk::SiteView;

verus! {

/// Whether `x` stands in the message of a report.
pub open spec fn tells(d: DiagnosticView, x: Seq<char>) -> bool {
    contains(d.message, x)
}

/// What stands in `s` after as much as `lead`, as long as `x`.
spec fn following(s: Seq<char>, lead: Seq<char>, x: Seq<char>) -> Seq<char> {
    s.subrange(lead.len() as int, lead.len() as int + x.len())
}

proof fn lemma_stands(s: Seq<char>, lead: Seq<char>, x: Seq<char>)
    requires
        lead.len() + x.len() <= s.len(),
        following(s, lead, x) == x,
    ensures
        contains(s, x),
{
    assert(occurs_at(s, x, lead.len() as int));
}

/// What is said of the depth of a block names the depth.
pub proof fn depth_is_told(depth: nat)
    ensures
        contains(depth_message(depth), decimal(depth)),
{
    let lead = "conditional nesting depth "@;
    let x = decimal(depth);
    let s = depth_message(depth);
    assert(following(s, lead, x) =~= x);
    lemma_stands(s, lead, x);
}

/// What is said of the number of branches names it.
pub proof fn branch_number_is_told(spec: SpecFile)
    requires
        15 < branch_sum(spec.items@) <= u128::MAX,
    ensures
        complexity_findings(spec).len() == 1,
        tells(complexity_findings(spec)[0], decimal(branch_sum(spec.items@))),
{
    let lead = "spec has "@;
    let x = decimal(branch_sum(spec.items@));
    let s = complexity_findings(spec)[0].message;
    assert(following(s, lead, x) =~= x);
    lemma_stands(s, lead, x);
}

/// What is said of a name that stands twice in a list names it.
pub proof fn repeated_name_is_told(source: Option<Seq<char>>, anchor: Span, token: Seq<char>)
    ensures
        tells(duplicate_report(source, anchor, token), token),
{
    let lead = "duplicate `"@;
    let s = duplicate_report(source, anchor, token).message;
    assert(following(s, lead, token) =~= token);
    lemma_stands(s, lead, token);
}

/// What is said of a list of architectures names how many it excludes and how
/// many it leaves.
pub proof fn list_lengths_are_told(universe: Set<Seq<char>>, archs: Set<Seq<char>>, span: Span)
    ensures
        tells(complement_report(universe, archs, span), decimal(archs.len())),
        tells(complement_report(universe, archs, span), decimal(universe.difference(archs).len())),
        tells(cover_report(universe.len(), span), decimal(universe.len())),
{
    let s = complement_report(universe, archs, span).message;
    let lead = "`%ifnarch` excludes "@;
    let x = decimal(archs.len());
    assert(following(s, lead, x) =~= x);
    lemma_stands(s, lead, x);
    let more = lead + x + " arches; the complement against the profile universe is "@;
    let y = decimal(universe.difference(archs).len());
    assert(following(s, more, y) =~= y);
    lemma_stands(s, more, y);
    let t = cover_report(universe.len(), span).message;
    let all = "`%ifarch` list covers every arch in the profile's target universe ("@;
    let n = decimal(universe.len());
    assert(following(t, all, n) =~= n);
    lemma_stands(t, all, n);
}

/// What is said of items that can be hoisted names how many they are.
pub proof fn hoistable_number_is_told(settings: Option<String>, site: SiteView, n: nat)
    ensures
        opt_string(settings) matches Some(s) && hoistable(site.cond, false, s) == Some(n)
            ==> HoistCommonPrefix::on_site(&settings, site).len() == 1 && tells(
            HoistCommonPrefix::on_site(&settings, site)[0],
            decimal(n),
        ),
        opt_string(settings) matches Some(s) && hoistable(site.cond, true, s) == Some(n)
            ==> HoistCommonSuffix::on_site(&settings, site).len() == 1 && tells(
            HoistCommonSuffix::on_site(&settings, site)[0],
            decimal(n),
        ),
{
    let x = decimal(n);
    match opt_string(settings) {
        Some(s) => {
            if hoistable(site.cond, false, s) == Some(n) {
                let m = HoistCommonPrefix::on_site(&settings, site)[0].message;
                let lead = "all branches start with the same "@;
                assert(following(m, lead, x) =~= x);
                lemma_stands(m, lead, x);
            }
            if hoistable(site.cond, true, s) == Some(n) {
                let m = HoistCommonSuffix::on_site(&settings, site)[0].message;
                let lead = "all branches end with the same "@;
                assert(following(m, lead, x) =~= x);
                lemma_stands(m, lead, x);
            }
        },
        None => {},
    }
}

/// What is said of a normal form names how many cubes there are and how many
/// are left.
pub proof fn cube_numbers_are_told(a: Analysis, d: Set<Set<Literal>>, span: Span)
    ensures
        tells(redundancy_report(a, span), decimal(a.written)),
        tells(redundancy_report(a, span), decimal(a.dnf.len())),
        tells(factor_report(d, span), decimal(d.len())),
        tells(factor_report(d, span), decimal(common(d).len())),
{
    let s = redundancy_report(a, span).message;
    let lead = "boolean expression has "@;
    let x = decimal(a.written);
    assert(following(s, lead, x) =~= x);
    lemma_stands(s, lead, x);
    let more = lead + x + " top-level cubes that normalise to "@;
    let y = decimal(a.dnf.len());
    assert(following(s, more, y) =~= y);
    lemma_stands(s, more, y);
    let t = factor_report(d, span).message;
    let first = "`%if` expression has "@;
    let m = decimal(d.len());
    assert(following(t, first, m) =~= m);
    lemma_stands(t, first, m);
    let second = first + m + " cube(s) all sharing "@;
    let n = decimal(common(d).len());
    assert(following(t, second, n) =~= n);
    lemma_stands(t, second, n);
}

/// What is said of a tag that turns automatic dependencies off names the tag.
pub proof fn disabled_tag_is_told(p: PreambleItem)
    ensures
        turns_off(p) <==> disabled(p) is Some,
        turns_off(p) ==> tells(
            disabled_report(disabled(p).unwrap(), p.data),
            match p.tag {
                Tag::AutoReq => "AutoReq"@,
                Tag::AutoProv => "AutoProv"@,
                _ => "AutoReqProv"@,
            },
        ),
{
    if turns_off(p) {
        let x = disabled(p).unwrap();
        let s = disabled_report(x, p.data).message;
        let lead = "`"@;
        assert(following(s, lead, x) =~= x);
        lemma_stands(s, lead, x);
    }
}

/// What is said of a macro that is evaluated again names it, and points at
/// the line that makes it so.
pub proof fn hazard_is_told(m: MacroDef, buildarch: Span)
    ensures
        tells(hazard_report(m, buildarch), m.name@),
        hazard_report(m, buildarch).primary_span == m.data,
        hazard_report(m, buildarch).labels.len() == 1,
        hazard_report(m, buildarch).labels[0].span == buildarch,
{
    let s = hazard_report(m, buildarch).message;
    let lead = "`%"@ + kind_label(m.kind) + " "@;
    let x = m.name@;
    assert(following(s, lead, x) =~= x);
    lemma_stands(s, lead, x);
}

/// What is said of a build option names it.
pub proof fn option_is_told(name: Seq<char>, span: Span)
    ensures
        tells(unused_report(name, span), name),
        tells(undeclared_report(name, span), name),
        tells(bcond_report(name, span), name),
{
    let s = unused_report(name, span).message;
    let a = "bcond `"@;
    assert(following(s, a, name) =~= name);
    lemma_stands(s, a, name);
    let t = undeclared_report(name, span).message;
    let b = "reference to `%{with "@;
    assert(following(t, b, name) =~= name);
    lemma_stands(t, b, name);
    let u = bcond_report(name, span).message;
    let c = "`0%{?with_"@;
    assert(following(u, c, name) =~= name);
    lemma_stands(u, c, name);
}

/// What is said of a use of an option macro names the macro and marks just
/// its name.
pub proof fn used_macro_is_marked(at: int, kind: BcondKind)
    requires
        0 <= at && at + 14 <= usize::MAX,
    ensures
        ({
            let d = use_report(at, kind);
            let name = if kind is With {
                "%bcond_with"@
            } else {
                "%bcond_without"@
            };
            &&& tells(d, name)
            &&& d.primary_span.start_byte == at
            &&& d.primary_span.end_byte == at + name.len()
        }),
{
    reveal_strlit("%bcond_with");
    reveal_strlit("%bcond_without");
    let x = if kind is With {
        "%bcond_with"@
    } else {
        "%bcond_without"@
    };
    let s = use_report(at, kind).message;
    let lead = "`"@;
    assert(following(s, lead, x) =~= x);
    lemma_stands(s, lead, x);
}

/// What is said of a call names the command, and the package or the macro
/// that it wants.
pub proof fn call_is_told(cmd: Seq<char>, name: Seq<char>, span: Span)
    ensures
        tells(missing_report(cmd, name, span), cmd),
        tells(missing_report(cmd, name, span), name),
        tells(macro_report(cmd, name, span), cmd),
        tells(macro_report(cmd, name, span), name),
{
    let s = missing_report(cmd, name, span).message;
    let a = "build script calls `"@;
    assert(following(s, a, cmd) =~= cmd);
    lemma_stands(s, a, cmd);
    let b = a + cmd + "` but the spec does not declare `BuildRequires: "@;
    assert(following(s, b, name) =~= name);
    lemma_stands(s, b, name);
    let t = macro_report(cmd, name, span).message;
    let c = "build script invokes `"@;
    assert(following(t, c, cmd) =~= cmd);
    lemma_stands(t, c, cmd);
    let d = c + cmd + "` directly; the active profile defines `%"@;
    assert(following(t, d, name) =~= name);
    lemma_stands(t, d, name);
}

/// What is said of a changelog names the dates, the weekdays and the versions
/// that do not fit.
pub proof fn changelog_faults_are_told(
    e: ChangelogEntry,
    prev: ChangelogEntry,
    latest: Seq<char>,
    now: Seq<char>,
    span: Span,
)
    ensures
        tells(order_report(e, prev), date_of(e.date)),
        tells(order_report(e, prev), date_of(prev.date)),
        order_report(e, prev).labels.len() == 1 && order_report(e, prev).labels[0].span == prev.data,
        tells(weekday_report(e), e.date.weekday.label()),
        tells(weekday_report(e), true_weekday(e.date).label()),
        tells(evr_report(latest, now, span), latest),
        tells(evr_report(latest, now, span), now),
{
    let s = order_report(e, prev).message;
    let a = "changelog entry dated "@;
    let x = date_of(e.date);
    assert(following(s, a, x) =~= x);
    lemma_stands(s, a, x);
    let b = a + x + " is newer than the preceding entry ("@;
    let y = date_of(prev.date);
    assert(following(s, b, y) =~= y);
    lemma_stands(s, b, y);
    let t = weekday_report(e).message;
    let c = "changelog entry weekday `"@;
    let u = e.date.weekday.label();
    assert(following(t, c, u) =~= u);
    lemma_stands(t, c, u);
    let d = c + u + "` does not match the date "@ + x + " (actual weekday is `"@;
    let v = true_weekday(e.date).label();
    assert(following(t, d, v) =~= v);
    lemma_stands(t, d, v);
    let w = evr_report(latest, now, span).message;
    let f = "latest changelog entry shows `"@;
    assert(following(w, f, latest) =~= latest);
    lemma_stands(w, f, latest);
    let g = f + latest + "` but spec is `"@;
    assert(following(w, g, now) =~= now);
    lemma_stands(w, g, now);
}

/// What is said of a date that is not to be believed names the year, or the
/// day where that is at fault.
pub proof fn implausible_date_is_told(today: Today, current_year: i32, e: ChangelogEntry)
    ensures
        is_future(today, e) ==> future_findings(today, e).len() == 1 && tells(
            future_findings(today, e)[0],
            decimal(e.date.year as nat),
        ),
        implausible(current_year, e) is Some ==> implausible_findings(current_year, e).len() == 1
            && tells(
            implausible_findings(current_year, e)[0],
            if e.date.day == 0 || e.date.day > 31 {
                decimal(e.date.day as nat)
            } else {
                decimal(e.date.year as nat)
            },
        ),
{
    if is_future(today, e) {
        let s = future_findings(today, e)[0].message;
        let a = "changelog entry dated "@;
        let x = decimal(e.date.year as nat);
        assert(following(s, a, x) =~= x);
        lemma_stands(s, a, x);
    }
    if implausible(current_year, e) is Some {
        let s = implausible_findings(current_year, e)[0].message;
        let a = "implausible changelog date: "@;
        if e.date.day == 0 || e.date.day > 31 {
            let x = decimal(e.date.day as nat);
            let lead = a + "day-of-month `"@;
            assert(following(s, lead, x) =~= x);
            lemma_stands(s, lead, x);
        } else {
            let x = decimal(e.date.year as nat);
            let lead = a + "year `"@;
            assert(following(s, lead, x) =~= x);
            lemma_stands(s, lead, x);
        }
    }
}

/// What is said of a dependency names the tag, the package and, where there
/// is one, the qualifier.
pub proof fn dependency_is_told(tag: Tag, k: AtomKeyView, span: Span)
    ensures
        dep_label(tag) matches Some(l) ==> tells(dep_health::duplicate_report(tag, k, span), l)
            && tells(dep_health::shadowed_report(tag, k, span), l),
        tells(dep_health::duplicate_report(tag, k, span), k.name),
        k.arch matches Some(q) ==> tells(dep_health::duplicate_report(tag, k, span), q),
        tells(dep_health::shadowed_report(tag, k, span), k.name),
        k.arch matches Some(q) ==> tells(dep_health::shadowed_report(tag, k, span), q),
{
    let x = dep_health::tag_label(tag);
    let s = dep_health::duplicate_report(tag, k, span).message;
    let t = dep_health::shadowed_report(tag, k, span).message;
    let a = "`"@;
    assert(following(s, a, x) =~= x);
    lemma_stands(s, a, x);
    assert(following(t, a, x) =~= x);
    lemma_stands(t, a, x);
    let b = a + x + ": "@;
    let name = k.name;
    assert(following(s, b, name) =~= name);
    lemma_stands(s, b, name);
    assert(following(t, b, name) =~= name);
    lemma_stands(t, b, name);
    match k.arch {
        Some(q) => {
            let c = b + name + "("@;
            assert(following(s, c, q) =~= q);
            lemma_stands(s, c, q);
            assert(following(t, c, q) =~= q);
            lemma_stands(t, c, q);
        },
        None => {},
    }
}

/// What is said of an entry names it, whatever rule speaks.
pub proof fn entry_is_told(e: EntryView, o: OccurrenceView, name: Seq<char>, a: StatedView)
    ensures
        tells(subsumed_report(e), e.label),
        tells(subsumed_report(e), e.name),
        tells(guard_report(o), o.entry),
        self_at(name, a).len() > 0 ==> tells(self_at(name, a)[0], name),
{
    let s = subsumed_report(e).message;
    let p = "`"@;
    assert(following(s, p, e.label) =~= e.label);
    lemma_stands(s, p, e.label);
    let q = p + e.label + ": "@;
    assert(following(s, q, e.name) =~= e.name);
    lemma_stands(s, q, e.name);
    let t = guard_report(o).message;
    assert(following(t, p, o.entry) =~= o.entry);
    lemma_stands(t, p, o.entry);
    if self_at(name, a).len() > 0 {
        let u = self_at(name, a)[0].message;
        let c = "package `"@;
        assert(following(u, c, name) =~= name);
        lemma_stands(u, c, name);
    }
}

/// What is said of a condition that is repeated names it and how often it
/// stands there.
pub proof fn repeated_condition_is_told(key: Seq<char>, n: nat)
    requires
        n > 0,
    ensures
        contains(many_message(key, n), key),
        contains(many_message(key, n), decimal(n)),
{
    let s = many_message(key, n);
    let a = "condition `"@;
    assert(following(s, a, key) =~= key);
    lemma_stands(s, a, key);
    let b = a + key + "` appears "@;
    let x = decimal(n);
    assert(following(s, b, x) =~= x);
    lemma_stands(s, b, x);
}

} // verus!
