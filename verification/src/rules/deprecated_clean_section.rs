//! `%clean` sections, which rpm does not need.
use vstd::prelude::*;

use crate::ast::{BuildScriptKind, Item, Section, Span, SpecFile};
use crate::diagnostic::{
    Applicability, Diagnostic, DiagnosticView, Edit, EditView, LintCategory, Severity,
    Suggestion, SuggestionView, manual, plain, reports,
};
use crate::lint::{Identity, Lint, LintMetadata, drain};
use crate::profile::{Family, Profile};
use crate::rules::{given, say};
use crate::walk::{flat, item_views, leaf_items, leaves, lemma_flat_step};
use crate::report_laws::{lemma_news, lemma_says_flat, lemma_says_given, news, says_at};

verus! {

/// Whether the section is of no use on any release of the family. Where the
/// family is unknown it is taken to be.
pub open spec fn is_autofix_safe(family: Option<Family>) -> bool {
    family is None || family == Some(Family::Fedora) || family == Some(Family::Rhel)
}

pub open spec fn clean_report(family: Option<Family>, span: Span) -> DiagnosticView {
    plain("RPM021"@, Severity::Warn, "%clean section is no longer needed"@, span).suggest(
        if is_autofix_safe(family) {
            SuggestionView {
                message: "remove the %clean section"@,
                edits: seq![EditView { span, replacement: ""@ }],
                applicability: Applicability::MachineApplicable,
            }
        } else {
            manual("consider removing the %clean section (your distro may still rely on it; review before applying)"@)
        },
    )
}

pub open spec fn clean_findings(family: Option<Family>, item: Item) -> Seq<DiagnosticView> {
    match item {
        Item::Section(s) => match *s {
            Section::BuildScript { kind, data, .. } => given(kind is Clean, clean_report(family, data)),
            _ => Seq::empty(),
        },
        _ => Seq::empty(),
    }
}

/// The reports on all `%clean` sections.
pub open spec fn all_clean(family: Option<Family>, spec: SpecFile) -> Seq<DiagnosticView> {
    flat(leaves(spec.items@), |i: Item| clean_findings(family, i))
}

fn autofix_safe(family: Option<Family>) -> (r: bool)
    ensures
        r == is_autofix_safe(family),
{
    match family {
        None => true,
        Some(Family::Fedora) | Some(Family::Rhel) => true,
        _ => false,
    }
}

fn check_item(family: Option<Family>, item: &Item, out: &mut Vec<Diagnostic>)
    ensures
        reports(final(out)@) == reports(old(out)@) + clean_findings(family, *item),
{
    assert(reports(out@) + Seq::<DiagnosticView>::empty() == reports(out@));
    match item {
        Item::Section(s) => match &**s {
            Section::BuildScript { kind, data, .. } => {
                if matches!(kind, BuildScriptKind::Clean) {
                    let d = Diagnostic::new("RPM021", Severity::Warn, "%clean section is no longer needed", *data);
                    let suggestion = if autofix_safe(family) {
                        let mut edits: Vec<Edit> = Vec::new();
                        edits.push(Edit::new(*data, ""));
                        assert(edits@.map_values(|e: Edit| e@) =~= seq![EditView { span: *data, replacement: ""@ }]);
                        Suggestion::new(
                            String::from_str("remove the %clean section"),
                            edits,
                            Applicability::MachineApplicable,
                        )
                    } else {
                        Suggestion::manual("consider removing the %clean section (your distro may still rely on it; review before applying)")
                    };
                    say(out, d.with_suggestion(suggestion));
                }
            },
            _ => {},
        },
        _ => {},
    }
}

/// RPM021 `deprecated-clean-section`: The %clean section is unnecessary; modern rpm cleans
/// the buildroot automatically.
#[derive(Debug)]
pub struct DeprecatedCleanSection {
    pub diagnostics: Vec<Diagnostic>,
    pub family: Option<Family>,
}

impl DeprecatedCleanSection {
    pub fn new() -> (r: DeprecatedCleanSection)
        ensures
            r.pending() == Seq::<DiagnosticView>::empty(),
            r.family is None,
    {
        let r = DeprecatedCleanSection { diagnostics: Vec::new(), family: None };
        assert(r.pending() =~= Seq::<DiagnosticView>::empty());
        r
    }
}

impl Default for DeprecatedCleanSection {
    fn default() -> (r: DeprecatedCleanSection)
        ensures
            r.pending() == Seq::<DiagnosticView>::empty(),
            r.family is None,
    {
        DeprecatedCleanSection::new()
    }
}

impl Lint for DeprecatedCleanSection {
    open spec fn identity() -> Identity {
        Identity {
            id: "RPM021"@,
            name: "deprecated-clean-section"@,
            description: "The %clean section is unnecessary; modern rpm cleans the buildroot automatically."@,
            default_severity: Severity::Warn,
            category: LintCategory::Packaging,
        }
    }

    open spec fn pending(&self) -> Seq<DiagnosticView> {
        reports(self.diagnostics@)
    }

    open spec fn after(&self, spec: SpecFile) -> Seq<DiagnosticView> {
        self.pending() + all_clean(self.family, spec)
    }

    open spec fn same_settings(&self, other: &Self) -> bool {
        self.family == other.family
    }

    fn metadata(&self) -> (r: LintMetadata) {
        LintMetadata {
            id: "RPM021",
            name: "deprecated-clean-section",
            description: "The %clean section is unnecessary; modern rpm cleans the buildroot automatically.",
            default_severity: Severity::Warn,
            category: LintCategory::Packaging,
        }
    }

    fn visit_spec(&mut self, spec: &SpecFile) {
        let all = leaf_items(&spec.items);
        let ghost ls = leaves(spec.items@);
        let family = self.family;
        let ghost f = |i: Item| clean_findings(family, i);
        let ghost start = self.pending();
        let mut i: usize = 0;
        assert(start + flat(ls.take(0), f) == start);
        while i < all.len()
            invariant
                i <= all.len(),
                self.family == old(self).family,
                item_views(all@) == ls,
                f == (|i: Item| clean_findings(family, i)),
                self.pending() == start + flat(ls.take(i as int), f),
            decreases all.len() - i,
        {
            let ghost so_far = flat(ls.take(i as int), f);
            assert(ls[i as int] == *all@[i as int]);
            check_item(family, all[i], &mut self.diagnostics);
            proof {
                lemma_flat_step(ls, f, i as int);
                assert(start + so_far + f(ls[i as int]) == start + (so_far + f(ls[i as int])));
            }
            i = i + 1;
        }
        assert(ls.take(i as int) == ls);
    }

    fn take_diagnostics(&mut self) -> (r: Vec<Diagnostic>) {
        drain(&mut self.diagnostics)
    }
}

impl DeprecatedCleanSection {
    /// Takes the family from the profile.
    pub fn set_profile(&mut self, profile: &Profile)
        ensures
            final(self).family == profile.family,
            final(self).pending() == old(self).pending(),
    {
        self.family = profile.family;
    }
}

/// Whether an item is a `%clean` section at `span`.
pub open spec fn is_clean_at(item: Item, span: Span) -> bool {
    item matches Item::Section(s) && (*s matches Section::BuildScript { kind, data, .. } && kind
        == BuildScriptKind::Clean && data == span)
}

/// Exactly the `%clean` sections are reported, wherever they stand.
pub proof fn clean_sections_are_reported(rule: DeprecatedCleanSection, spec: SpecFile, span: Span)
    ensures
        says_at(news(rule, spec), span) <==> exists|i: int|
            0 <= i < leaves(spec.items@).len() && is_clean_at(#[trigger] leaves(spec.items@)[i], span),
{
    let all = leaves(spec.items@);
    let family = rule.family;
    let f = |i: Item| clean_findings(family, i);
    lemma_news(rule, spec, all_clean(family, spec));
    lemma_says_flat(all, f, span);
    assert forall|i: int| 0 <= i < all.len() implies (says_at(f(#[trigger] all[i]), span)
        <==> is_clean_at(all[i], span)) by {
        match all[i] {
            Item::Section(s) => match *s {
                Section::BuildScript { kind, data, .. } => lemma_says_given(
                    kind is Clean,
                    clean_report(family, data),
                    span,
                ),
                _ => {},
            },
            _ => {},
        }
    }
    if says_at(all_clean(family, spec), span) {
        let i = choose|i: int| 0 <= i < all.len() && says_at(f(#[trigger] all[i]), span);
        assert(is_clean_at(all[i], span));
    }
}

/// What is done without asking deletes the section and nothing else, and is
/// left to the reader on the families that may still want it.
pub proof fn deletion_is_of_the_section(family: Option<Family>, item: Item, k: int)
    requires
        0 <= k < clean_findings(family, item).len(),
    ensures
        ({
            let d = clean_findings(family, item)[k];
            let s = d.suggestions.last();
            &&& d.suggestions.len() == 1
            &&& s.applicability is MachineApplicable <==> (family matches Some(f) ==> f
                == Family::Fedora || f == Family::Rhel)
            &&& s.applicability is MachineApplicable ==> s.edits.len() == 1 && s.edits[0].span
                == d.primary_span && s.edits[0].replacement.len() == 0 && is_clean_at(
                item,
                s.edits[0].span,
            )
            &&& !(s.applicability is MachineApplicable) ==> s.edits.len() == 0
        }),
{
    reveal_strlit("");
}

} // verus!
