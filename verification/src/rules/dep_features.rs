//! Dependency features that rpm lacks, and qualifiers that exclude each other.
use vstd::prelude::*;

use crate::ast::{DepExpr, PreambleItem, Span, SpecFile, Tag, TagQualifier, TagValue};
use crate::condition::string_texts;
use crate::diagnostic::{Diagnostic, DiagnosticView, LintCategory, Severity, plain, reports};
use crate::lint::{Identity, Lint, LintMetadata, drain};
use crate::packages::{collect_top_level_preamble, preamble_views, top_level_preamble};
use crate::profile::Profile;
use crate::rules::{given, say};
use crate::text::{opt_view, same};
use crate::walk::{flat, lemma_flat_step};
use crate::report_laws::{lemma_says_either, lemma_says_flat, lemma_says_given, says_at};

verus! {

/// Whether a line carries the `meta` qualifier.
pub open spec fn is_meta(p: PreambleItem) -> bool {
    p.qualifiers@.contains(TagQualifier::Meta)
}

fn has_meta_qualifier(p: &PreambleItem) -> (r: bool)
    ensures
        r == is_meta(*p),
{
    let mut i: usize = 0;
    while i < p.qualifiers.len()
        invariant
            i <= p.qualifiers.len(),
            forall|j: int| 0 <= j < i ==> #[trigger] p.qualifiers@[j] != TagQualifier::Meta,
        decreases p.qualifiers.len() - i,
    {
        if p.qualifiers[i] == TagQualifier::Meta {
            assert(p.qualifiers@[i as int] == TagQualifier::Meta);
            return true;
        }
        i = i + 1;
    }
    false
}

pub open spec fn rich_report(span: Span) -> DiagnosticView {
    plain("RPM326"@, Severity::Deny, "rich/boolean dependency expression used but the active profile's rpm does not advertise `rpmlib(RichDependencies)`"@, span)
}

pub open spec fn meta_report(span: Span) -> DiagnosticView {
    plain("RPM326"@, Severity::Deny, "`Requires(meta)` used but the active profile's rpm does not advertise `rpmlib(MetaDependencies)`"@, span)
}

/// The reports on a line with dependencies: boolean ones, and the `meta`
/// qualifier, where rpm does not have them.
pub open spec fn feature_findings(rich: bool, meta: bool, p: PreambleItem) -> Seq<DiagnosticView> {
    match p.value {
        TagValue::Dep(e) => given(e is Rich && !rich, rich_report(p.data)) + given(
            is_meta(p) && !meta,
            meta_report(p.data),
        ),
        _ => Seq::empty(),
    }
}

/// The reports on all lines, where the features of rpm are known.
pub open spec fn all_features(features: Seq<Seq<char>>, items: Seq<PreambleItem>) -> Seq<DiagnosticView> {
    if features.len() == 0 {
        Seq::empty()
    } else {
        lines_findings(
            features.contains("rpmlib(RichDependencies)"@),
            features.contains("rpmlib(MetaDependencies)"@),
            items,
        )
    }
}

pub open spec fn lines_findings(rich: bool, meta: bool, items: Seq<PreambleItem>) -> Seq<DiagnosticView> {
    flat(items, |p: PreambleItem| feature_findings(rich, meta, p))
}

fn check_features(rich: bool, meta: bool, p: &PreambleItem, out: &mut Vec<Diagnostic>)
    ensures
        reports(final(out)@) == reports(old(out)@) + feature_findings(rich, meta, *p),
{
    let ghost start = reports(out@);
    let ghost none = Seq::<DiagnosticView>::empty();
    match &p.value {
        TagValue::Dep(e) => {
            let uses_rich = matches!(e, DepExpr::Rich(_)) && !rich;
            if uses_rich {
                say(out, Diagnostic::new("RPM326", Severity::Deny, "rich/boolean dependency expression used but the active profile's rpm does not advertise `rpmlib(RichDependencies)`", p.data));
            } else {
                assert(start + none == start);
            }
            let ghost a = given(e is Rich && !rich, rich_report(p.data));
            let uses_meta = has_meta_qualifier(p) && !meta;
            if uses_meta {
                say(out, Diagnostic::new("RPM326", Severity::Deny, "`Requires(meta)` used but the active profile's rpm does not advertise `rpmlib(MetaDependencies)`", p.data));
            } else {
                assert(start + a + none == start + a);
            }
            let ghost b = given(is_meta(*p) && !meta, meta_report(p.data));
            assert(start + a + b == start + (a + b));
        },
        _ => {
            assert(start + none == start);
        },
    }
}

fn check_lines(rich: bool, meta: bool, items: &Vec<&PreambleItem>, out: &mut Vec<Diagnostic>)
    ensures
        reports(final(out)@) == reports(old(out)@) + lines_findings(rich, meta, preamble_views(items@)),
{
    let ghost v = preamble_views(items@);
    let ghost f = |p: PreambleItem| feature_findings(rich, meta, p);
    let ghost start = reports(out@);
    let mut i: usize = 0;
    assert(start + flat(v.take(0), f) == start);
    while i < items.len()
        invariant
            i <= items.len(),
            v == preamble_views(items@),
            f == (|p: PreambleItem| feature_findings(rich, meta, p)),
            reports(out@) == start + flat(v.take(i as int), f),
        decreases items.len() - i,
    {
        assert(v[i as int] == *items@[i as int]);
        check_features(rich, meta, items[i], out);
        proof {
            lemma_flat_step(v, f, i as int);
            let a = flat(v.take(i as int), f);
            assert(start + a + f(v[i as int]) == start + (a + f(v[i as int])));
        }
        i = i + 1;
    }
    assert(v.take(i as int) == v);
}

fn has_feature(features: &Vec<String>, feature: &str) -> (r: bool)
    ensures
        r == string_texts(features@).contains(feature@),
{
    let ghost t = string_texts(features@);
    let mut i: usize = 0;
    while i < features.len()
        invariant
            i <= features.len(),
            t == string_texts(features@),
            forall|j: int| 0 <= j < i ==> #[trigger] t[j] != feature@,
        decreases features.len() - i,
    {
        assert(t[i as int] == features@[i as int]@);
        if same(features[i].as_str(), feature) {
            return true;
        }
        i = i + 1;
    }
    false
}

/// RPM326 `unsupported-dependency-feature`: The spec uses a dependency feature
/// (rich/boolean deps, weak deps, `Requires(meta)` qualifier) that the active profile's rpm
/// does not advertise via `rpmlib(...)`. Builds will fail on that target.
#[derive(Debug)]
pub struct UnsupportedDependencyFeature {
    pub diagnostics: Vec<Diagnostic>,
    pub features: Vec<String>,
}

impl UnsupportedDependencyFeature {
    pub fn new() -> (r: UnsupportedDependencyFeature)
        ensures
            r.pending() == Seq::<DiagnosticView>::empty(),
            r.features@.len() == 0,
    {
        let r = UnsupportedDependencyFeature { diagnostics: Vec::new(), features: Vec::new() };
        assert(r.pending() =~= Seq::<DiagnosticView>::empty());
        r
    }
}

impl Default for UnsupportedDependencyFeature {
    fn default() -> (r: UnsupportedDependencyFeature)
        ensures
            r.pending() == Seq::<DiagnosticView>::empty(),
            r.features@.len() == 0,
    {
        UnsupportedDependencyFeature::new()
    }
}

impl Lint for UnsupportedDependencyFeature {
    open spec fn identity() -> Identity {
        Identity {
            id: "RPM326"@,
            name: "unsupported-dependency-feature"@,
            description: "The spec uses a dependency feature (rich/boolean deps, weak deps, `Requires(meta)` qualifier) that the active profile's rpm does not advertise via `rpmlib(...)`. Builds will fail on that target."@,
            default_severity: Severity::Deny,
            category: LintCategory::Correctness,
        }
    }

    open spec fn pending(&self) -> Seq<DiagnosticView> {
        reports(self.diagnostics@)
    }

    open spec fn after(&self, spec: SpecFile) -> Seq<DiagnosticView> {
        self.pending() + all_features(string_texts(self.features@), top_level_preamble(spec))
    }

    open spec fn same_settings(&self, other: &Self) -> bool {
        self.features == other.features
    }

    fn metadata(&self) -> (r: LintMetadata) {
        LintMetadata {
            id: "RPM326",
            name: "unsupported-dependency-feature",
            description: "The spec uses a dependency feature (rich/boolean deps, weak deps, `Requires(meta)` qualifier) that the active profile's rpm does not advertise via `rpmlib(...)`. Builds will fail on that target.",
            default_severity: Severity::Deny,
            category: LintCategory::Correctness,
        }
    }

    fn visit_spec(&mut self, spec: &SpecFile) {
        if self.features.len() == 0 {
            assert(self.pending() + Seq::<DiagnosticView>::empty() == self.pending());
            return ;
        }
        let rich = has_feature(&self.features, "rpmlib(RichDependencies)");
        let meta = has_feature(&self.features, "rpmlib(MetaDependencies)");
        let items = collect_top_level_preamble(spec);
        check_lines(rich, meta, &items, &mut self.diagnostics);
    }

    fn take_diagnostics(&mut self) -> (r: Vec<Diagnostic>) {
        drain(&mut self.diagnostics)
    }
}

impl UnsupportedDependencyFeature {
    /// Takes the features of rpm from the profile.
    pub fn set_profile(&mut self, profile: &Profile)
        ensures
            string_texts(final(self).features@) == string_texts(profile.rpmlib_features@),
            final(self).pending() == old(self).pending(),
    {
        let ghost t = string_texts(profile.rpmlib_features@);
        let mut out: Vec<String> = Vec::new();
        let mut i: usize = 0;
        assert(string_texts(out@) =~= t.take(0));
        while i < profile.rpmlib_features.len()
            invariant
                i <= profile.rpmlib_features.len(),
                t == string_texts(profile.rpmlib_features@),
                string_texts(out@) == t.take(i as int),
            decreases profile.rpmlib_features.len() - i,
        {
            let ghost so_far = string_texts(out@);
            out.push(profile.rpmlib_features[i].clone());
            assert(string_texts(out@) =~= so_far.push(t[i as int]));
            assert(t.take(i + 1) =~= t.take(i as int).push(t[i as int]));
            i = i + 1;
        }
        assert(t.take(i as int) == t);
        self.features = out;
    }
}

/// The label of a qualifier that names a phase of a transaction.
pub open spec fn phase_label(q: TagQualifier) -> Option<Seq<char>> {
    match q {
        TagQualifier::Pre => Some("pre"@),
        TagQualifier::Post => Some("post"@),
        TagQualifier::Preun => Some("preun"@),
        TagQualifier::Postun => Some("postun"@),
        TagQualifier::Pretrans => Some("pretrans"@),
        TagQualifier::Posttrans => Some("posttrans"@),
        TagQualifier::Preuntrans => Some("preuntrans"@),
        TagQualifier::Postuntrans => Some("postuntrans"@),
        _ => None,
    }
}

fn phase_qualifier_label(q: TagQualifier) -> (r: Option<&'static str>)
    ensures
        opt_view(r) == phase_label(q),
{
    match q {
        TagQualifier::Pre => Some("pre"),
        TagQualifier::Post => Some("post"),
        TagQualifier::Preun => Some("preun"),
        TagQualifier::Postun => Some("postun"),
        TagQualifier::Pretrans => Some("pretrans"),
        TagQualifier::Posttrans => Some("posttrans"),
        TagQualifier::Preuntrans => Some("preuntrans"),
        TagQualifier::Postuntrans => Some("postuntrans"),
        _ => None,
    }
}

/// The label of the first qualifier that names a phase.
pub open spec fn first_phase(qs: Seq<TagQualifier>) -> Option<Seq<char>>
    decreases qs.len(),
{
    if qs.len() == 0 {
        None
    } else if phase_label(qs[0]) is Some {
        phase_label(qs[0])
    } else {
        first_phase(qs.skip(1))
    }
}

fn find_phase(qs: &Vec<TagQualifier>) -> (r: Option<&'static str>)
    ensures
        opt_view(r) == first_phase(qs@),
{
    let mut i: usize = 0;
    assert(qs@.skip(0) =~= qs@);
    while i < qs.len()
        invariant
            i <= qs.len(),
            first_phase(qs@) == first_phase(qs@.skip(i as int)),
        decreases qs.len() - i,
    {
        assert(qs@.skip(i as int).skip(1) =~= qs@.skip(i + 1));
        match phase_qualifier_label(qs[i]) {
            Some(l) => {
                return Some(l);
            },
            None => {},
        }
        i = i + 1;
    }
    None
}

pub open spec fn phase_report(label: Seq<char>, span: Span) -> DiagnosticView {
    plain("RPM327"@, Severity::Deny, "`Requires(meta, "@ + label + ")` mixes `meta` with a phase qualifier; rpm keeps only one — drop `meta` or remove the phase"@, span)
}

/// The report on a `Requires:` line with `meta` and a phase.
pub open spec fn qualifier_findings(p: PreambleItem) -> Seq<DiagnosticView> {
    match first_phase(p.qualifiers@) {
        Some(label) => given(p.tag is Requires && is_meta(p), phase_report(label, p.data)),
        None => Seq::empty(),
    }
}

pub open spec fn all_qualifiers(items: Seq<PreambleItem>) -> Seq<DiagnosticView> {
    flat(items, |p: PreambleItem| qualifier_findings(p))
}

fn check_qualifiers(p: &PreambleItem, out: &mut Vec<Diagnostic>)
    ensures
        reports(final(out)@) == reports(old(out)@) + qualifier_findings(*p),
{
    match find_phase(&p.qualifiers) {
        Some(label) => {
            if matches!(p.tag, Tag::Requires) && has_meta_qualifier(p) {
                let mut message = String::from_str("`Requires(meta, ");
                message.append(label);
                message.append(")` mixes `meta` with a phase qualifier; rpm keeps only one — drop `meta` or remove the phase");
                say(out, Diagnostic::new("RPM327", Severity::Deny, message.as_str(), p.data));
                return ;
            }
        },
        None => {},
    }
    assert(reports(out@) + Seq::<DiagnosticView>::empty() == reports(out@));
}

/// RPM327 `contradictory-dependency-qualifiers`: `Requires(meta, …)` combines the `meta`
/// qualifier with ordered phase qualifiers
/// (`pre`/`post`/`preun`/`postun`/`pretrans`/`posttrans`). The pair is contradictory; rpm
/// silently keeps one.
#[derive(Debug)]
pub struct ContradictoryDependencyQualifiers {
    pub diagnostics: Vec<Diagnostic>,
}

impl ContradictoryDependencyQualifiers {
    pub fn new() -> (r: ContradictoryDependencyQualifiers)
        ensures
            r.pending() == Seq::<DiagnosticView>::empty(),
    {
        let r = ContradictoryDependencyQualifiers { diagnostics: Vec::new() };
        assert(r.pending() =~= Seq::<DiagnosticView>::empty());
        r
    }
}

impl Default for ContradictoryDependencyQualifiers {
    fn default() -> (r: ContradictoryDependencyQualifiers)
        ensures
            r.pending() == Seq::<DiagnosticView>::empty(),
    {
        ContradictoryDependencyQualifiers::new()
    }
}

impl Lint for ContradictoryDependencyQualifiers {
    open spec fn identity() -> Identity {
        Identity {
            id: "RPM327"@,
            name: "contradictory-dependency-qualifiers"@,
            description: "`Requires(meta, …)` combines the `meta` qualifier with ordered phase qualifiers (`pre`/`post`/`preun`/`postun`/`pretrans`/`posttrans`). The pair is contradictory; rpm silently keeps one."@,
            default_severity: Severity::Deny,
            category: LintCategory::Correctness,
        }
    }

    open spec fn pending(&self) -> Seq<DiagnosticView> {
        reports(self.diagnostics@)
    }

    open spec fn after(&self, spec: SpecFile) -> Seq<DiagnosticView> {
        self.pending() + all_qualifiers(top_level_preamble(spec))
    }

    open spec fn same_settings(&self, other: &Self) -> bool {
        true
    }

    fn metadata(&self) -> (r: LintMetadata) {
        LintMetadata {
            id: "RPM327",
            name: "contradictory-dependency-qualifiers",
            description: "`Requires(meta, …)` combines the `meta` qualifier with ordered phase qualifiers (`pre`/`post`/`preun`/`postun`/`pretrans`/`posttrans`). The pair is contradictory; rpm silently keeps one.",
            default_severity: Severity::Deny,
            category: LintCategory::Correctness,
        }
    }

    fn visit_spec(&mut self, spec: &SpecFile) {
        let items = collect_top_level_preamble(spec);
        let ghost v = preamble_views(items@);
        let ghost f = |p: PreambleItem| qualifier_findings(p);
        let ghost start = self.pending();
        let mut i: usize = 0;
        assert(start + flat(v.take(0), f) == start);
        while i < items.len()
            invariant
                i <= items.len(),
                v == preamble_views(items@),
                f == (|p: PreambleItem| qualifier_findings(p)),
                self.pending() == start + flat(v.take(i as int), f),
            decreases items.len() - i,
        {
            assert(v[i as int] == *items@[i as int]);
            check_qualifiers(items[i], &mut self.diagnostics);
            proof {
                lemma_flat_step(v, f, i as int);
                let a = flat(v.take(i as int), f);
                assert(start + a + f(v[i as int]) == start + (a + f(v[i as int])));
            }
            i = i + 1;
        }
        assert(v.take(i as int) == v);
    }

    fn take_diagnostics(&mut self) -> (r: Vec<Diagnostic>) {
        drain(&mut self.diagnostics)
    }
}

/// A line is reported exactly if it uses boolean dependencies or the `meta`
/// qualifier where the features of rpm are known and that one is not among
/// them.
pub proof fn unsupported_features_are_reported(
    features: Seq<Seq<char>>,
    items: Seq<PreambleItem>,
    span: Span,
)
    ensures
        says_at(all_features(features, items), span) <==> features.len() > 0 && exists|i: int|
            0 <= i < items.len() && ((#[trigger] items[i]).value matches TagValue::Dep(e) && (
            e is Rich && !features.contains("rpmlib(RichDependencies)"@) || (exists|k: int|
                0 <= k < items[i].qualifiers@.len() && #[trigger] items[i].qualifiers@[k]
                    == TagQualifier::Meta) && !features.contains("rpmlib(MetaDependencies)"@)))
                && items[i].data == span,
{
    let rich = features.contains("rpmlib(RichDependencies)"@);
    let meta = features.contains("rpmlib(MetaDependencies)"@);
    let f = |p: PreambleItem| feature_findings(rich, meta, p);
    lemma_says_flat(items, f, span);
    assert forall|i: int| 0 <= i < items.len() implies (says_at(f(#[trigger] items[i]), span) <==> (
    items[i].value matches TagValue::Dep(e) && (e is Rich && !rich || is_meta(items[i]) && !meta))
        && items[i].data == span) by {
        let p = items[i];
        match p.value {
            TagValue::Dep(e) => {
                lemma_says_given(e is Rich && !rich, rich_report(p.data), span);
                lemma_says_given(is_meta(p) && !meta, meta_report(p.data), span);
                lemma_says_either(
                    given(e is Rich && !rich, rich_report(p.data)),
                    given(is_meta(p) && !meta, meta_report(p.data)),
                    span,
                );
            },
            _ => {},
        }
    }
    assert forall|i: int| 0 <= i < items.len() implies (is_meta(#[trigger] items[i]) <==> exists|
        k: int,
    |
        0 <= k < items[i].qualifiers@.len() && #[trigger] items[i].qualifiers@[k]
            == TagQualifier::Meta) by {}
    if says_at(lines_findings(rich, meta, items), span) {
        let i = choose|i: int| 0 <= i < items.len() && says_at(f(#[trigger] items[i]), span);
        assert(items[i].data == span);
    }
}

/// A qualifier that names a phase of a transaction.
pub open spec fn is_phase(q: TagQualifier) -> bool {
    q is Pre || q is Post || q is Preun || q is Postun || q is Pretrans || q is Posttrans
        || q is Preuntrans || q is Postuntrans
}

proof fn lemma_first_phase(qs: Seq<TagQualifier>)
    ensures
        first_phase(qs) is Some <==> exists|k: int| 0 <= k < qs.len() && is_phase(#[trigger] qs[k]),
    decreases qs.len(),
{
    if qs.len() > 0 {
        let rest = qs.skip(1);
        lemma_first_phase(rest);
        if exists|k: int| 0 <= k < rest.len() && is_phase(#[trigger] rest[k]) {
            let k = choose|k: int| 0 <= k < rest.len() && is_phase(#[trigger] rest[k]);
            assert(qs[k + 1] == rest[k]);
        }
        if exists|k: int| 0 <= k < qs.len() && is_phase(#[trigger] qs[k]) {
            let k = choose|k: int| 0 <= k < qs.len() && is_phase(#[trigger] qs[k]);
            if k > 0 {
                assert(rest[k - 1] == qs[k]);
            }
        }
    }
}

/// A `Requires:` line is reported exactly if it carries `meta` together with a
/// phase.
pub proof fn contradictory_qualifiers_are_reported(items: Seq<PreambleItem>, span: Span)
    ensures
        says_at(all_qualifiers(items), span) <==> exists|i: int|
            {
                &&& 0 <= i < items.len()
                &&& (#[trigger] items[i]).tag is Requires
                &&& items[i].qualifiers@.contains(TagQualifier::Meta)
                &&& exists|k: int|
                    0 <= k < items[i].qualifiers@.len() && is_phase(
                        #[trigger] items[i].qualifiers@[k],
                    )
                &&& items[i].data == span
            },
{
    let f = |p: PreambleItem| qualifier_findings(p);
    lemma_says_flat(items, f, span);
    assert forall|i: int| 0 <= i < items.len() implies (says_at(f(#[trigger] items[i]), span) <==> {
        &&& items[i].tag is Requires
        &&& items[i].qualifiers@.contains(TagQualifier::Meta)
        &&& exists|k: int|
            0 <= k < items[i].qualifiers@.len() && is_phase(#[trigger] items[i].qualifiers@[k])
        &&& items[i].data == span
    }) by {
        let p = items[i];
        lemma_first_phase(p.qualifiers@);
        match first_phase(p.qualifiers@) {
            Some(label) => lemma_says_given(
                p.tag is Requires && is_meta(p),
                phase_report(label, p.data),
                span,
            ),
            None => {},
        }
    }
    if says_at(all_qualifiers(items), span) {
        let i = choose|i: int| 0 <= i < items.len() && says_at(f(#[trigger] items[i]), span);
        assert(items[i].data == span);
    }
}

} // verus!
