//! Sections out of their usual order.
use vstd::prelude::*;

use crate::ast::{BuildScriptKind, Item, Section, Span, SpecFile};
use crate::diagnostic::{Diagnostic, DiagnosticView, LintCategory, Severity, plain, reports};
use crate::lint::{Identity, Lint, LintMetadata, drain};
use crate::rules::{given, say};
use crate::report_laws::{lemma_says_either, lemma_says_given, says_at};

verus! {

/// The position of a section in the usual order, and its span. Sections
/// without a usual position have none.
pub open spec fn weight(s: Section) -> Option<(int, Span)> {
    match s {
        Section::Description { data, .. } => Some((1, data)),
        Section::Package { data, .. } => Some((1, data)),
        Section::SourceList { data } => Some((1, data)),
        Section::PatchList { data } => Some((1, data)),
        Section::BuildScript { kind, data, .. } => match kind {
            BuildScriptKind::Prep => Some((2, data)),
            BuildScriptKind::Build => Some((3, data)),
            BuildScriptKind::Install => Some((4, data)),
            BuildScriptKind::Check => Some((5, data)),
            _ => None,
        },
        Section::Files { data, .. } => Some((6, data)),
        Section::Scriptlet { data, .. } => Some((7, data)),
        Section::Trigger { data, .. } => Some((7, data)),
        Section::Verify { data, .. } => Some((7, data)),
        Section::Sepolicy { data, .. } => Some((7, data)),
        Section::Changelog { data, .. } => Some((8, data)),
        Section::FileTrigger { .. } => None,
    }
}

fn section_weight(s: &Section) -> (r: Option<(u8, Span)>)
    ensures
        r is Some <==> weight(*s) is Some,
        r matches Some(w) ==> weight(*s) == Some((w.0 as int, w.1)),
{
    match s {
        Section::Description { data, .. } => Some((1, *data)),
        Section::Package { data, .. } => Some((1, *data)),
        Section::SourceList { data } => Some((1, *data)),
        Section::PatchList { data } => Some((1, *data)),
        Section::BuildScript { kind, data, .. } => match kind {
            BuildScriptKind::Prep => Some((2, *data)),
            BuildScriptKind::Build => Some((3, *data)),
            BuildScriptKind::Install => Some((4, *data)),
            BuildScriptKind::Check => Some((5, *data)),
            _ => None,
        },
        Section::Files { data, .. } => Some((6, *data)),
        Section::Scriptlet { data, .. } => Some((7, *data)),
        Section::Trigger { data, .. } => Some((7, *data)),
        Section::Verify { data, .. } => Some((7, *data)),
        Section::Sepolicy { data, .. } => Some((7, *data)),
        Section::Changelog { data, .. } => Some((8, *data)),
        Section::FileTrigger { .. } => None,
    }
}

pub open spec fn item_weight(item: Item) -> Option<(int, Span)> {
    match item {
        Item::Section(s) => weight(*s),
        _ => None,
    }
}

/// The greatest weight among `items`.
pub open spec fn max_weight(items: Seq<Item>) -> int
    decreases items.len(),
{
    if items.len() == 0 {
        0
    } else {
        let rest = max_weight(items.drop_last());
        match item_weight(items.last()) {
            Some((w, _)) => if w > rest {
                w
            } else {
                rest
            },
            None => rest,
        }
    }
}

pub open spec fn order_report(span: Span) -> DiagnosticView {
    plain("RPM573"@, Severity::Warn, "section appears out of canonical order (description → prep → build → install → check → files → scriptlets → changelog)"@, span).advise(
        "move this section to its canonical position"@,
    )
}

/// The reports on the sections that come after one that belongs after them.
pub open spec fn order_findings(items: Seq<Item>) -> Seq<DiagnosticView>
    decreases items.len(),
{
    if items.len() == 0 {
        Seq::empty()
    } else {
        order_findings(items.drop_last()) + match item_weight(items.last()) {
            Some((w, span)) => given(w < max_weight(items.drop_last()), order_report(span)),
            None => Seq::empty(),
        }
    }
}

/// RPM573 `canonical-major-section-order`: Major sections appear out of canonical order
/// (description → prep → build → install → check → files → scriptlets → changelog).
#[derive(Debug)]
pub struct CanonicalMajorSectionOrder {
    pub diagnostics: Vec<Diagnostic>,
}

impl CanonicalMajorSectionOrder {
    pub fn new() -> (r: CanonicalMajorSectionOrder)
        ensures
            r.pending() == Seq::<DiagnosticView>::empty(),
    {
        let r = CanonicalMajorSectionOrder { diagnostics: Vec::new() };
        assert(r.pending() =~= Seq::<DiagnosticView>::empty());
        r
    }
}

impl Default for CanonicalMajorSectionOrder {
    fn default() -> (r: CanonicalMajorSectionOrder)
        ensures
            r.pending() == Seq::<DiagnosticView>::empty(),
    {
        CanonicalMajorSectionOrder::new()
    }
}

impl Lint for CanonicalMajorSectionOrder {
    open spec fn identity() -> Identity {
        Identity {
            id: "RPM573"@,
            name: "canonical-major-section-order"@,
            description: "Major sections appear out of canonical order (description → prep → build → install → check → files → scriptlets → changelog)."@,
            default_severity: Severity::Allow,
            category: LintCategory::Style,
        }
    }

    open spec fn pending(&self) -> Seq<DiagnosticView> {
        reports(self.diagnostics@)
    }

    open spec fn after(&self, spec: SpecFile) -> Seq<DiagnosticView> {
        self.pending() + order_findings(spec.items@)
    }

    open spec fn same_settings(&self, other: &Self) -> bool {
        true
    }

    fn metadata(&self) -> (r: LintMetadata) {
        LintMetadata {
            id: "RPM573",
            name: "canonical-major-section-order",
            description: "Major sections appear out of canonical order (description → prep → build → install → check → files → scriptlets → changelog).",
            default_severity: Severity::Allow,
            category: LintCategory::Style,
        }
    }

    fn visit_spec(&mut self, spec: &SpecFile) {
        let ghost start = self.pending();
        let mut max_seen: u8 = 0;
        let mut i: usize = 0;
        assert(start + order_findings(spec.items@.take(0)) == start);
        while i < spec.items.len()
            invariant
                i <= spec.items.len(),
                max_seen == max_weight(spec.items@.take(i as int)),
                self.pending() == start + order_findings(spec.items@.take(i as int)),
            decreases spec.items.len() - i,
        {
            let ghost so_far = order_findings(spec.items@.take(i as int));
            let ghost none = Seq::<DiagnosticView>::empty();
            assert(spec.items@.take(i + 1).drop_last() == spec.items@.take(i as int));
            assert(so_far + none == so_far);
            match &spec.items[i] {
                Item::Section(s) => match section_weight(s) {
                    Some((w, span)) => {
                        if w < max_seen {
                            say(
                                &mut self.diagnostics,
                                Diagnostic::new("RPM573", Severity::Warn, "section appears out of canonical order (description → prep → build → install → check → files → scriptlets → changelog)", span).with_advice(
                                    "move this section to its canonical position",
                                ),
                            );
                            assert(start + so_far + seq![order_report(span)] == start + (so_far + seq![order_report(span)]));
                        } else {
                            max_seen = w;
                        }
                    },
                    None => {},
                },
                _ => {},
            }
            i = i + 1;
        }
        assert(spec.items@.take(i as int) == spec.items@);
    }

    fn take_diagnostics(&mut self) -> (r: Vec<Diagnostic>) {
        drain(&mut self.diagnostics)
    }
}

/// The sections stand in the usual order.
pub open spec fn in_usual_order(items: Seq<Item>) -> bool {
    forall|i: int, j: int|
        #![trigger items[i], items[j]]
        0 <= i < j < items.len() ==> match (item_weight(items[i]), item_weight(items[j])) {
            (Some((a, _)), Some((b, _))) => a <= b,
            _ => true,
        }
}

proof fn lemma_max_weight(items: Seq<Item>)
    ensures
        max_weight(items) >= 0,
        forall|i: int|
            0 <= i < items.len() ==> (item_weight(#[trigger] items[i]) matches Some((w, _)) ==> w
                <= max_weight(items)),
        max_weight(items) > 0 ==> exists|i: int|
            0 <= i < items.len() && (item_weight(#[trigger] items[i]) matches Some((w, _)) && w
                == max_weight(items)),
    decreases items.len(),
{
    if items.len() > 0 {
        let front = items.drop_last();
        lemma_max_weight(front);
        assert forall|i: int| 0 <= i < items.len() implies (item_weight(
            #[trigger] items[i],
        ) matches Some((w, _)) ==> w <= max_weight(items)) by {
            if i < front.len() {
                assert(items[i] == front[i]);
            }
        }
        if max_weight(items) > 0 {
            if max_weight(items) == max_weight(front) {
                let i = choose|i: int|
                    0 <= i < front.len() && (item_weight(#[trigger] front[i]) matches Some((w, _))
                        && w == max_weight(front));
                assert(items[i] == front[i]);
            } else {
                assert(items[items.len() - 1] == items.last());
            }
        }
    }
}

/// Nothing is reported exactly if the sections stand in the usual order.
pub proof fn silent_iff_in_usual_order(items: Seq<Item>)
    ensures
        order_findings(items).len() == 0 <==> in_usual_order(items),
    decreases items.len(),
{
    if items.len() > 0 {
        let front = items.drop_last();
        silent_iff_in_usual_order(front);
        lemma_max_weight(front);
        let last = items.len() - 1;
        if order_findings(items).len() == 0 {
            assert forall|i: int, j: int|
                #![trigger items[i], items[j]]
                0 <= i < j < items.len() implies match (item_weight(items[i]), item_weight(items[j])) {
                    (Some((a, _)), Some((b, _))) => a <= b,
                    _ => true,
                } by {
                assert(items[i] == front[i]);
                if j < last {
                    assert(items[j] == front[j]);
                }
            }
        }
        if in_usual_order(items) {
            assert forall|i: int, j: int|
                #![trigger front[i], front[j]]
                0 <= i < j < front.len() implies match (item_weight(front[i]), item_weight(front[j])) {
                    (Some((a, _)), Some((b, _))) => a <= b,
                    _ => true,
                } by {
                assert(items[i] == front[i] && items[j] == front[j]);
            }
            match item_weight(items.last()) {
                Some((w, _)) => {
                    if w < max_weight(front) {
                        assert(max_weight(front) > 0) by {
                            assert(w >= 0);
                        }
                        let i = choose|i: int|
                            0 <= i < front.len() && (item_weight(#[trigger] front[i]) matches Some(
                                (v, _),
                            ) && v == max_weight(front));
                        assert(items[i] == front[i]);
                        assert(items[last] == items.last());
                    }
                },
                None => {},
            }
        }
    }
}

/// The usual order: descriptions, then `%prep`, `%build`, `%install`,
/// `%check`, `%files`, scripts that run on the target, and the changelog. What
/// is told of packages, sources and patches stands where descriptions do, and
/// `%clean` and file triggers may stand anywhere.
pub proof fn sections_have_their_usual_places(
    description: Section,
    prep: Section,
    build: Section,
    install: Section,
    check: Section,
    files: Section,
    script: Section,
    changelog: Section,
    other: Section,
)
    requires
        description is Description || description is Package || description is SourceList
            || description is PatchList,
        prep matches Section::BuildScript { kind, .. } && kind is Prep,
        build matches Section::BuildScript { kind, .. } && kind is Build,
        install matches Section::BuildScript { kind, .. } && kind is Install,
        check matches Section::BuildScript { kind, .. } && kind is Check,
        files is Files,
        script is Scriptlet || script is Trigger || script is Verify || script is Sepolicy,
        changelog is Changelog,
        other is FileTrigger || (other matches Section::BuildScript { kind, .. } && (kind is Clean
            || kind is Other)),
    ensures
        weight(other) is None,
        weight(description) matches Some((a, _)) && (weight(prep) matches Some((b, _)) && (weight(
            build,
        ) matches Some((c, _)) && (weight(install) matches Some((d, _)) && (weight(
            check,
        ) matches Some((e, _)) && (weight(files) matches Some((f, _)) && (weight(
            script,
        ) matches Some((g, _)) && (weight(changelog) matches Some((h, _)) && 0 < a < b < c < d < e < f
            < g < h))))))),
{
}

/// A section is reported exactly if one before it belongs after it.
pub proof fn misplaced_sections_are_reported(items: Seq<Item>, span: Span)
    ensures
        says_at(order_findings(items), span) <==> exists|i: int, j: int|
            #![trigger items[i], items[j]]
            0 <= i < j < items.len() && (item_weight(items[i]) matches Some((a, _)) && (item_weight(
                items[j],
            ) matches Some((b, s)) && b < a && s == span)),
    decreases items.len(),
{
    if items.len() > 0 {
        let front = items.drop_last();
        let last = items.len() - 1;
        misplaced_sections_are_reported(front, span);
        lemma_max_weight(front);
        let own = match item_weight(items.last()) {
            Some((w, s)) => given(w < max_weight(front), order_report(s)),
            None => Seq::empty(),
        };
        lemma_says_either(order_findings(front), own, span);
        match item_weight(items.last()) {
            Some((w, s)) => lemma_says_given(w < max_weight(front), order_report(s), span),
            None => {},
        }
        if says_at(order_findings(front), span) {
            let (i, j) = choose|i: int, j: int|
                #![trigger front[i], front[j]]
                0 <= i < j < front.len() && (item_weight(front[i]) matches Some((a, _)) && (
                item_weight(front[j]) matches Some((b, s)) && b < a && s == span));
            assert(items[i] == front[i] && items[j] == front[j]);
        }
        if says_at(own, span) {
            let i = lemma_heaviest(front);
            assert(items[i] == front[i] && items[last] == items.last());
        }
        if exists|i: int, j: int|
            #![trigger items[i], items[j]]
            0 <= i < j < items.len() && (item_weight(items[i]) matches Some((a, _)) && (item_weight(
                items[j],
            ) matches Some((b, s)) && b < a && s == span)) {
            let (i, j) = choose|i: int, j: int|
                #![trigger items[i], items[j]]
                0 <= i < j < items.len() && (item_weight(items[i]) matches Some((a, _)) && (
                item_weight(items[j]) matches Some((b, s)) && b < a && s == span));
            assert(front[i] == items[i]);
            if j < last {
                assert(front[j] == items[j]);
            }
        }
    }
}

proof fn lemma_heaviest(items: Seq<Item>) -> (r: int)
    requires
        max_weight(items) > 0,
    ensures
        0 <= r < items.len(),
        item_weight(items[r]) matches Some((w, _)) && w == max_weight(items),
    decreases items.len(),
{
    let front = items.drop_last();
    let here = match item_weight(items.last()) {
        Some((w, _)) => w > max_weight(front),
        None => false,
    };
    if here {
        items.len() - 1
    } else {
        let r = lemma_heaviest(front);
        assert(front[r] == items[r]);
        r
    }
}

} // verus!
