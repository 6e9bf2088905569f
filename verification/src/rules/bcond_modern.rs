//! Build conditions in the syntax from before `%bcond`.
use vstd::prelude::*;

use crate::ast::{BuildCondStyle, Item, Span, SpecFile};
use crate::diagnostic::{Diagnostic, DiagnosticView, LintCategory, Severity, plain, reports};
use crate::lint::{Identity, Lint, LintMetadata, drain};
use crate::profile::{Family, Profile};
use crate::rules::say;
use crate::walk::{flat, item_views, leaf_items, leaves, lemma_flat_step};
use crate::report_laws::{lemma_news, lemma_says_flat, lemma_says_one, news, says_at};

verus! {

/// Whether every supported release of the family has an rpm with `%bcond`.
pub open spec fn supports_bcond(profile: Profile) -> bool {
    profile.family == Some(Family::Fedora) || profile.family == Some(Family::Mageia)
}

fn family_supports_modern_bcond(profile: &Profile) -> (r: bool)
    ensures
        r == supports_bcond(*profile),
{
    match profile.family {
        Some(Family::Fedora) | Some(Family::Mageia) => true,
        _ => false,
    }
}

pub open spec fn legacy_report(form: Seq<char>, default: Seq<char>, name: Seq<char>, span: Span) -> DiagnosticView {
    plain("RPM400"@, Severity::Warn, "`"@ + form + " "@ + name + "` uses the legacy bcond syntax; the active profile ships rpm ≥ 4.17.1, prefer the explicit form `%bcond "@ + name + " "@ + default + "`"@, span)
}

/// The report on a build condition in the old syntax: `%bcond_with` is off by
/// default, `%bcond_without` is on.
pub open spec fn bcond_findings(item: Item) -> Seq<DiagnosticView> {
    match item {
        Item::BuildCondition(b) => match b.style {
            BuildCondStyle::BcondWith => seq![legacy_report("%bcond_with"@, "0"@, b.name@, b.data)],
            BuildCondStyle::BcondWithout => seq![legacy_report("%bcond_without"@, "1"@, b.name@, b.data)],
            BuildCondStyle::Bcond => Seq::empty(),
        },
        _ => Seq::empty(),
    }
}

fn report_legacy(form: &str, default: &str, name: &str, span: Span, out: &mut Vec<Diagnostic>)
    ensures
        reports(final(out)@) == reports(old(out)@) + seq![legacy_report(form@, default@, name@, span)],
{
    let mut message = String::from_str("`");
    message.append(form);
    message.append(" ");
    message.append(name);
    message.append("` uses the legacy bcond syntax; the active profile ships rpm ≥ 4.17.1, prefer the explicit form `%bcond ");
    message.append(name);
    message.append(" ");
    message.append(default);
    message.append("`");
    say(out, Diagnostic::new("RPM400", Severity::Warn, message.as_str(), span));
}

fn check_bcond(item: &Item, out: &mut Vec<Diagnostic>)
    ensures
        reports(final(out)@) == reports(old(out)@) + bcond_findings(*item),
{
    assert(reports(out@) + Seq::<DiagnosticView>::empty() == reports(out@));
    match item {
        Item::BuildCondition(b) => match b.style {
            BuildCondStyle::BcondWith => {
                report_legacy("%bcond_with", "0", b.name.as_str(), b.data, out);
            },
            BuildCondStyle::BcondWithout => {
                report_legacy("%bcond_without", "1", b.name.as_str(), b.data, out);
            },
            BuildCondStyle::Bcond => {},
        },
        _ => {},
    }
}

/// The reports on all build conditions.
pub open spec fn all_bconds(spec: SpecFile) -> Seq<DiagnosticView> {
    flat(leaves(spec.items@), |i: Item| bcond_findings(i))
}

/// RPM400 `prefer-bcond-new-syntax`: `%bcond_with NAME` / `%bcond_without NAME` are
/// pre-rpm-4.17 declarations. The modern `%bcond NAME DEFAULT` form makes the polarity
/// explicit and is preferred on profiles that ship rpm ≥ 4.17.1.
#[derive(Debug)]
pub struct PreferBcondNewSyntax {
    pub diagnostics: Vec<Diagnostic>,
    pub enabled: bool,
}

impl PreferBcondNewSyntax {
    pub fn new() -> (r: PreferBcondNewSyntax)
        ensures
            r.pending() == Seq::<DiagnosticView>::empty(),
            !r.enabled,
    {
        let r = PreferBcondNewSyntax { diagnostics: Vec::new(), enabled: false };
        assert(r.pending() =~= Seq::<DiagnosticView>::empty());
        r
    }
}

impl Default for PreferBcondNewSyntax {
    fn default() -> (r: PreferBcondNewSyntax)
        ensures
            r.pending() == Seq::<DiagnosticView>::empty(),
            !r.enabled,
    {
        PreferBcondNewSyntax::new()
    }
}

impl Lint for PreferBcondNewSyntax {
    open spec fn identity() -> Identity {
        Identity {
            id: "RPM400"@,
            name: "prefer-bcond-new-syntax"@,
            description: "`%bcond_with NAME` / `%bcond_without NAME` are pre-rpm-4.17 declarations. The modern `%bcond NAME DEFAULT` form makes the polarity explicit and is preferred on profiles that ship rpm ≥ 4.17.1."@,
            default_severity: Severity::Warn,
            category: LintCategory::Style,
        }
    }

    open spec fn pending(&self) -> Seq<DiagnosticView> {
        reports(self.diagnostics@)
    }

    open spec fn after(&self, spec: SpecFile) -> Seq<DiagnosticView> {
        if self.enabled {
            self.pending() + all_bconds(spec)
        } else {
            self.pending()
        }
    }

    open spec fn same_settings(&self, other: &Self) -> bool {
        self.enabled == other.enabled
    }

    fn metadata(&self) -> (r: LintMetadata) {
        LintMetadata {
            id: "RPM400",
            name: "prefer-bcond-new-syntax",
            description: "`%bcond_with NAME` / `%bcond_without NAME` are pre-rpm-4.17 declarations. The modern `%bcond NAME DEFAULT` form makes the polarity explicit and is preferred on profiles that ship rpm ≥ 4.17.1.",
            default_severity: Severity::Warn,
            category: LintCategory::Style,
        }
    }

    fn visit_spec(&mut self, spec: &SpecFile) {
        if !self.enabled {
            return ;
        }
        let all = leaf_items(&spec.items);
        let ghost ls = leaves(spec.items@);
        let ghost f = |i: Item| bcond_findings(i);
        let ghost start = self.pending();
        let mut i: usize = 0;
        assert(start + flat(ls.take(0), f) == start);
        while i < all.len()
            invariant
                i <= all.len(),
                self.enabled == old(self).enabled,
                item_views(all@) == ls,
                f == (|i: Item| bcond_findings(i)),
                self.pending() == start + flat(ls.take(i as int), f),
            decreases all.len() - i,
        {
            let ghost so_far = flat(ls.take(i as int), f);
            assert(ls[i as int] == *all@[i as int]);
            check_bcond(all[i], &mut self.diagnostics);
            proof {
                lemma_flat_step(ls, f, i as int);
                assert(start + so_far + f(ls[i as int]) == start + (so_far + f(ls[i as int])));
            }
            i = i + 1;
        }
        assert(ls.take(i as int) == ls);
    }

    fn take_diagnostics(&mut self) -> (r: Vec<Diagnostic>) {
        drain(&mut self.diagnostics)
    }
}

impl PreferBcondNewSyntax {
    pub fn applies_to_profile(&self, profile: &Profile) -> (r: bool)
        ensures
            r == supports_bcond(*profile),
    {
        family_supports_modern_bcond(profile)
    }

    /// Switches the rule on or off, as the profile asks.
    pub fn set_profile(&mut self, profile: &Profile)
        ensures
            final(self).enabled == supports_bcond(*profile),
            final(self).pending() == old(self).pending(),
    {
        self.enabled = family_supports_modern_bcond(profile);
    }
}

/// Exactly the build conditions in the old syntax are reported, wherever they
/// stand, where the rule applies.
pub proof fn old_syntax_is_reported(rule: PreferBcondNewSyntax, spec: SpecFile, span: Span)
    ensures
        says_at(news(rule, spec), span) <==> rule.enabled && exists|i: int|
            0 <= i < leaves(spec.items@).len() && (#[trigger] leaves(spec.items@)[i] matches
                Item::BuildCondition(b) && b.style != BuildCondStyle::Bcond && b.data == span),
{
    let all = leaves(spec.items@);
    let f = |i: Item| bcond_findings(i);
    if rule.enabled {
        lemma_news(rule, spec, all_bconds(spec));
    } else {
        assert(rule.after(spec) =~= rule.pending() + Seq::<DiagnosticView>::empty());
        lemma_news(rule, spec, Seq::<DiagnosticView>::empty());
    }
    lemma_says_flat(all, f, span);
    assert forall|i: int| 0 <= i < all.len() implies (says_at(f(#[trigger] all[i]), span) <==> (all[i]
        matches Item::BuildCondition(b) && b.style != BuildCondStyle::Bcond && b.data == span)) by {
        match all[i] {
            Item::BuildCondition(b) => match b.style {
                BuildCondStyle::BcondWith => lemma_says_one(
                    legacy_report("%bcond_with"@, "0"@, b.name@, b.data),
                    span,
                ),
                BuildCondStyle::BcondWithout => lemma_says_one(
                    legacy_report("%bcond_without"@, "1"@, b.name@, b.data),
                    span,
                ),
                _ => {},
            },
            _ => {},
        }
    }
    if rule.enabled && says_at(all_bconds(spec), span) {
        let i = choose|i: int| 0 <= i < all.len() && says_at(f(#[trigger] all[i]), span);
        assert(all[i] is BuildCondition);
    }
}

/// `s` ends with `t`.
pub open spec fn ends_with(s: Seq<char>, t: Seq<char>) -> bool {
    s.len() >= t.len() && s.skip(s.len() - t.len()) == t
}

/// The form that is advised keeps the default: an option that `--with` turns
/// on is off, and one that `--without` turns off is on.
pub proof fn advised_form_keeps_the_default(item: Item)
    ensures
        item matches Item::BuildCondition(b) ==> (b.style is BcondWith ==> bcond_findings(item).len()
            == 1 && ends_with(bcond_findings(item)[0].message, "%bcond "@ + b.name@ + " 0`"@)),
        item matches Item::BuildCondition(b) ==> (b.style is BcondWithout ==> bcond_findings(
            item,
        ).len() == 1 && ends_with(bcond_findings(item)[0].message, "%bcond "@ + b.name@ + " 1`"@)),
{
    match item {
        Item::BuildCondition(b) => {
            reveal_strlit("`");
            reveal_strlit("0");
            reveal_strlit("1");
            reveal_strlit(" ");
            reveal_strlit(" 0`");
            reveal_strlit(" 1`");
            reveal_strlit("%bcond ");
            reveal_strlit("` uses the legacy bcond syntax; the active profile ships rpm ≥ 4.17.1, prefer the explicit form `%bcond ");
            let form = if b.style is BcondWith {
                "%bcond_with"@
            } else {
                "%bcond_without"@
            };
            let text = "` uses the legacy bcond syntax; the active profile ships rpm ≥ 4.17.1, prefer the explicit form `%bcond "@;
            let lead = "`"@ + form + " "@ + b.name@ + text.take(text.len() - 7);
            let message = bcond_findings(item)[0].message;
            if b.style is BcondWith {
                let tail = "%bcond "@ + b.name@ + " 0`"@;
                assert(message =~= lead + tail);
                assert(message.skip(message.len() - tail.len()) =~= tail);
            }
            if b.style is BcondWithout {
                let tail = "%bcond "@ + b.name@ + " 1`"@;
                assert(message =~= lead + tail);
                assert(message.skip(message.len() - tail.len()) =~= tail);
            }
        },
        _ => {},
    }
}

} // verus!
