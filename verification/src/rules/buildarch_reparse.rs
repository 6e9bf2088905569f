//! Definitions that are evaluated twice because of `BuildArch:`.
use vstd::prelude::*;

use crate::ast::{Item, MacroDef, MacroDefKind, MacroKind, Span, SpecFile, Tag, Text, TextSegment};
use crate::diagnostic::{Diagnostic, DiagnosticView, LintCategory, Severity, plain, reports};
use crate::lint::{Identity, Lint, LintMetadata, drain};
use crate::rules::{given, say};
use crate::walk::{flat, item_views, leaf_items, leaves, lemma_flat_step};
use crate::report_laws::{lemma_news, lemma_says_flat, lemma_says_given, news, says_at};

verus! {

/// The first `BuildArch:` line among `items`.
pub open spec fn first_buildarch(items: Seq<Item>) -> Option<Span>
    decreases items.len(),
{
    if items.len() == 0 {
        None
    } else {
        match first_buildarch(items.drop_last()) {
            Some(s) => Some(s),
            None => match items.last() {
                Item::Preamble(p) => if p.tag is BuildArch {
                    Some(p.data)
                } else {
                    None
                },
                _ => None,
            },
        }
    }
}

/// Whether a shell or Lua expansion stands in the text.
pub open spec fn has_side_effects(t: Text) -> bool {
    exists|i: int|
        0 <= i < t.segments@.len() && (#[trigger] t.segments@[i] matches TextSegment::Macro(m) && (
        m.kind is Shell || m.kind is Lua))
}

pub open spec fn kind_label(kind: MacroDefKind) -> Seq<char> {
    match kind {
        MacroDefKind::Define => "define"@,
        MacroDefKind::Global => "global"@,
        MacroDefKind::Undefine => "undefine"@,
    }
}

pub open spec fn hazard_report(m: MacroDef, buildarch: Span) -> DiagnosticView {
    plain("RPM309"@, Severity::Warn, "`%"@ + kind_label(m.kind) + " "@ + m.name@ + "` uses shell or Lua expansion and appears before `BuildArch:`; the body will be re-evaluated when RPM reparses on BuildArch, which is unsafe for non-pure side effects"@, m.data).label(
        buildarch,
        "`BuildArch:` declared here"@,
    )
}

/// The report on a definition with side effects before `buildarch`.
pub open spec fn hazard_findings(item: Item, buildarch: Span) -> Seq<DiagnosticView> {
    match item {
        Item::MacroDef(m) => given(
            has_side_effects(m.body) && m.data.start_byte < buildarch.start_byte,
            hazard_report(m, buildarch),
        ),
        _ => Seq::empty(),
    }
}

/// The reports on all definitions, where there is a `BuildArch:` line.
pub open spec fn all_hazards(spec: SpecFile) -> Seq<DiagnosticView> {
    match first_buildarch(leaves(spec.items@)) {
        Some(b) => flat(leaves(spec.items@), |i: Item| hazard_findings(i, b)),
        None => Seq::empty(),
    }
}

fn find_buildarch_span(items: &Vec<&Item>) -> (r: Option<Span>)
    ensures
        r == first_buildarch(item_views(items@)),
{
    let ghost v = item_views(items@);
    let mut found: Option<Span> = None;
    let mut i: usize = 0;
    while i < items.len()
        invariant
            i <= items.len(),
            v == item_views(items@),
            found == first_buildarch(v.take(i as int)),
        decreases items.len() - i,
    {
        assert(v.take(i + 1).drop_last() == v.take(i as int));
        assert(v.take(i + 1).last() == *items@[i as int]);
        if found.is_none() {
            match items[i] {
                Item::Preamble(p) => {
                    if matches!(p.tag, Tag::BuildArch) {
                        found = Some(p.data);
                    }
                },
                _ => {},
            }
        }
        i = i + 1;
    }
    assert(v.take(i as int) == v);
    found
}

fn macro_body_has_side_effects(t: &Text) -> (r: bool)
    ensures
        r == has_side_effects(*t),
{
    let mut i: usize = 0;
    while i < t.segments.len()
        invariant
            i <= t.segments.len(),
            forall|j: int|
                0 <= j < i ==> !(#[trigger] t.segments@[j] matches TextSegment::Macro(m) && (m.kind is Shell
                    || m.kind is Lua)),
        decreases t.segments.len() - i,
    {
        match &t.segments[i] {
            TextSegment::Macro(m) => {
                if matches!(m.kind, MacroKind::Shell) || matches!(m.kind, MacroKind::Lua) {
                    assert(t.segments@[i as int] matches TextSegment::Macro(m) && (m.kind is Shell
                        || m.kind is Lua));
                    return true;
                }
            },
            _ => {},
        }
        i = i + 1;
    }
    false
}

fn macro_kind_label(kind: MacroDefKind) -> (r: &'static str)
    ensures
        r@ == kind_label(kind),
{
    match kind {
        MacroDefKind::Define => "define",
        MacroDefKind::Global => "global",
        MacroDefKind::Undefine => "undefine",
    }
}

fn check_item(item: &Item, buildarch: Span, out: &mut Vec<Diagnostic>)
    ensures
        reports(final(out)@) == reports(old(out)@) + hazard_findings(*item, buildarch),
{
    assert(reports(out@) + Seq::<DiagnosticView>::empty() == reports(out@));
    match item {
        Item::MacroDef(m) => {
            if macro_body_has_side_effects(&m.body) && m.data.start_byte < buildarch.start_byte {
                let mut message = String::from_str("`%");
                message.append(macro_kind_label(m.kind));
                message.append(" ");
                message.append(m.name.as_str());
                message.append("` uses shell or Lua expansion and appears before `BuildArch:`; the body will be re-evaluated when RPM reparses on BuildArch, which is unsafe for non-pure side effects");
                say(
                    out,
                    Diagnostic::new("RPM309", Severity::Warn, message.as_str(), m.data).with_label(
                        buildarch,
                        "`BuildArch:` declared here",
                    ),
                );
            }
        },
        _ => {},
    }
}

/// RPM309 `buildarch-reparse-hazard`: A `%global` / `%define` with `%(...)` shell or
/// `%{lua:...}` side-effects appears before `BuildArch:`. RPM re-parses the spec at
/// `BuildArch:`, so the side effect runs twice and may yield different values. Move the
/// definition below `BuildArch:` or remove the side effect.
#[derive(Debug)]
pub struct BuildarchReparseHazard {
    pub diagnostics: Vec<Diagnostic>,
}

impl BuildarchReparseHazard {
    pub fn new() -> (r: BuildarchReparseHazard)
        ensures
            r.pending() == Seq::<DiagnosticView>::empty(),
    {
        let r = BuildarchReparseHazard { diagnostics: Vec::new() };
        assert(r.pending() =~= Seq::<DiagnosticView>::empty());
        r
    }
}

impl Default for BuildarchReparseHazard {
    fn default() -> (r: BuildarchReparseHazard)
        ensures
            r.pending() == Seq::<DiagnosticView>::empty(),
    {
        BuildarchReparseHazard::new()
    }
}

impl Lint for BuildarchReparseHazard {
    open spec fn identity() -> Identity {
        Identity {
            id: "RPM309"@,
            name: "buildarch-reparse-hazard"@,
            description: "A `%global` / `%define` with `%(...)` shell or `%{lua:...}` side-effects appears before `BuildArch:`. RPM re-parses the spec at `BuildArch:`, so the side effect runs twice and may yield different values. Move the definition below `BuildArch:` or remove the side effect."@,
            default_severity: Severity::Warn,
            category: LintCategory::Correctness,
        }
    }

    open spec fn pending(&self) -> Seq<DiagnosticView> {
        reports(self.diagnostics@)
    }

    open spec fn after(&self, spec: SpecFile) -> Seq<DiagnosticView> {
        self.pending() + all_hazards(spec)
    }

    open spec fn same_settings(&self, other: &Self) -> bool {
        true
    }

    fn metadata(&self) -> (r: LintMetadata) {
        LintMetadata {
            id: "RPM309",
            name: "buildarch-reparse-hazard",
            description: "A `%global` / `%define` with `%(...)` shell or `%{lua:...}` side-effects appears before `BuildArch:`. RPM re-parses the spec at `BuildArch:`, so the side effect runs twice and may yield different values. Move the definition below `BuildArch:` or remove the side effect.",
            default_severity: Severity::Warn,
            category: LintCategory::Correctness,
        }
    }

    fn visit_spec(&mut self, spec: &SpecFile) {
        let all = leaf_items(&spec.items);
        let ghost ls = leaves(spec.items@);
        let ghost start = self.pending();
        let buildarch = match find_buildarch_span(&all) {
            Some(s) => s,
            None => {
                assert(start + Seq::<DiagnosticView>::empty() == start);
                return ;
            },
        };
        let ghost f = |i: Item| hazard_findings(i, buildarch);
        let mut i: usize = 0;
        assert(start + flat(ls.take(0), f) == start);
        while i < all.len()
            invariant
                i <= all.len(),
                item_views(all@) == ls,
                f == (|i: Item| hazard_findings(i, buildarch)),
                self.pending() == start + flat(ls.take(i as int), f),
            decreases all.len() - i,
        {
            let ghost so_far = flat(ls.take(i as int), f);
            assert(ls[i as int] == *all@[i as int]);
            check_item(all[i], buildarch, &mut self.diagnostics);
            proof {
                lemma_flat_step(ls, f, i as int);
                assert(start + so_far + f(ls[i as int]) == start + (so_far + f(ls[i as int])));
            }
            i = i + 1;
        }
        assert(ls.take(i as int) == ls);
    }

    fn take_diagnostics(&mut self) -> (r: Vec<Diagnostic>) {
        drain(&mut self.diagnostics)
    }
}

/// Whether item `j` is the first `BuildArch:` line.
pub open spec fn leads(items: Seq<Item>, j: int) -> bool {
    &&& 0 <= j < items.len()
    &&& items[j] matches Item::Preamble(p) && p.tag == Tag::BuildArch
    &&& forall|k: int|
        0 <= k < j ==> !(#[trigger] items[k] matches Item::Preamble(q) && q.tag == Tag::BuildArch)
}

/// Whether an item defines a macro at `span`, with a shell or Lua expansion
/// in its body, that starts before the line `tag`.
pub open spec fn is_hazard(item: Item, tag: Item, span: Span) -> bool {
    match (item, tag) {
        (Item::MacroDef(m), Item::Preamble(p)) => {
            &&& m.data == span
            &&& m.data.start_byte < p.data.start_byte
            &&& exists|i: int|
                0 <= i < m.body.segments@.len() && (#[trigger] m.body.segments@[i] matches
                    TextSegment::Macro(x) && (x.kind == MacroKind::Shell || x.kind
                    == MacroKind::Lua))
        },
        _ => false,
    }
}

proof fn lemma_leads(items: Seq<Item>)
    ensures
        match first_buildarch(items) {
            Some(s) => exists|j: int|
                #[trigger] leads(items, j) && (items[j] matches Item::Preamble(p) && p.data == s),
            None => forall|j: int| !(#[trigger] leads(items, j)),
        },
    decreases items.len(),
{
    if items.len() > 0 {
        let front = items.drop_last();
        lemma_leads(front);
        match first_buildarch(front) {
            Some(s) => {
                let j = choose|j: int|
                    #[trigger] leads(front, j) && (front[j] matches Item::Preamble(p) && p.data
                        == s);
                assert(leads(items, j)) by {
                    assert forall|k: int| 0 <= k < j implies !(#[trigger] items[k] matches
                        Item::Preamble(q) && q.tag == Tag::BuildArch) by {
                        assert(front[k] == items[k]);
                    }
                }
            },
            None => {
                lemma_none_leads(front);
                let n = items.len() - 1;
                assert forall|k: int| 0 <= k < n implies !(#[trigger] items[k] matches
                    Item::Preamble(q) && q.tag == Tag::BuildArch) by {
                    assert(front[k] == items[k]);
                }
                if first_buildarch(items) is Some {
                    assert(leads(items, n));
                }
            },
        }
    }
}

proof fn lemma_none_leads(items: Seq<Item>)
    requires
        forall|j: int| !(#[trigger] leads(items, j)),
    ensures
        forall|k: int|
            0 <= k < items.len() ==> !(#[trigger] items[k] matches Item::Preamble(q) && q.tag
                == Tag::BuildArch),
{
    assert forall|k: int| 0 <= k < items.len() implies !(#[trigger] items[k] matches Item::Preamble(
        q,
    ) && q.tag == Tag::BuildArch) by {
        lemma_not_before(items, k);
    }
}

proof fn lemma_not_before(items: Seq<Item>, k: int)
    requires
        forall|j: int| !(#[trigger] leads(items, j)),
        0 <= k < items.len(),
    ensures
        !(items[k] matches Item::Preamble(q) && q.tag == Tag::BuildArch),
    decreases k,
{
    assert forall|i: int| 0 <= i < k implies !(#[trigger] items[i] matches Item::Preamble(q)
        && q.tag == Tag::BuildArch) by {
        lemma_not_before(items, i);
    }
    assert(!leads(items, k));
}

/// Exactly those definitions are reported that expand shell or Lua and start
/// before the first `BuildArch:` line.
pub proof fn hazards_are_reported(rule: BuildarchReparseHazard, spec: SpecFile, span: Span)
    ensures
        says_at(news(rule, spec), span) <==> exists|i: int, j: int|
            0 <= i < leaves(spec.items@).len() && #[trigger] leads(leaves(spec.items@), j)
                && is_hazard(#[trigger] leaves(spec.items@)[i], leaves(spec.items@)[j], span),
{
    let all = leaves(spec.items@);
    lemma_news(rule, spec, all_hazards(spec));
    lemma_leads(all);
    match first_buildarch(all) {
        None => {
            assert(!says_at(all_hazards(spec), span));
        },
        Some(b) => {
            let f = |i: Item| hazard_findings(i, b);
            let j = choose|j: int|
                #[trigger] leads(all, j) && (all[j] matches Item::Preamble(p) && p.data == b);
            lemma_says_flat(all, f, span);
            assert forall|i: int| 0 <= i < all.len() implies (says_at(f(#[trigger] all[i]), span)
                <==> is_hazard(all[i], all[j], span)) by {
                match all[i] {
                    Item::MacroDef(m) => lemma_says_given(
                        has_side_effects(m.body) && m.data.start_byte < b.start_byte,
                        hazard_report(m, b),
                        span,
                    ),
                    _ => {},
                }
            }
            if says_at(all_hazards(spec), span) {
                let i = choose|i: int| 0 <= i < all.len() && says_at(f(#[trigger] all[i]), span);
                assert(leads(all, j) && is_hazard(all[i], all[j], span));
            }
            if exists|i: int, k: int|
                0 <= i < all.len() && #[trigger] leads(all, k) && is_hazard(
                    #[trigger] all[i],
                    all[k],
                    span,
                ) {
                let (i, k) = choose|i: int, k: int|
                    0 <= i < all.len() && #[trigger] leads(all, k) && is_hazard(
                        #[trigger] all[i],
                        all[k],
                        span,
                    );
                assert(all[j] is Preamble && all[k] is Preamble);
                assert(k == j);
                assert(says_at(f(all[i]), span));
            }
        },
    }
}

} // verus!
