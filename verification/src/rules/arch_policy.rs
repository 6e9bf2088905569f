//! Architecture tags that contradict each other.
use vstd::prelude::*;

use crate::ast::{PreambleItem, Span, SpecFile, Tag, TagValue, Text};
use crate::condition::string_texts;
use crate::diagnostic::{Diagnostic, DiagnosticView, LintCategory, Severity, plain, reports};
use crate::lint::{Identity, Lint, LintMetadata, drain};
use crate::names::{in_order, join, joined, put_in_order, ordering_keeps_the_names};
use crate::packages::{
    collect_top_level_preamble, plain_str, plain_text, preamble_views, top_level_preamble,
    lemma_either,
};
use crate::rules::{given, say};
use crate::text::{before, same, trim};
use crate::report_laws::{lemma_says_either, says_at};

verus! {

/// The literal names of a list, trimmed, without empty ones.
pub open spec fn literal_archs(list: Seq<Text>) -> Seq<Seq<char>>
    decreases list.len(),
{
    if list.len() == 0 {
        Seq::empty()
    } else {
        let rest = literal_archs(list.drop_last());
        match plain_text(list.last()) {
            Some(n) => if n.len() > 0 {
                rest.push(n)
            } else {
                rest
            },
            None => rest,
        }
    }
}

fn collect_archs(list: &Vec<Text>) -> (r: Vec<String>)
    ensures
        string_texts(r@) == literal_archs(list@),
{
    let mut out: Vec<String> = Vec::new();
    let mut i: usize = 0;
    assert(string_texts(out@) =~= literal_archs(list@.take(0)));
    while i < list.len()
        invariant
            i <= list.len(),
            string_texts(out@) == literal_archs(list@.take(i as int)),
        decreases list.len() - i,
    {
        let ghost before = string_texts(out@);
        assert(list@.take(i + 1).drop_last() == list@.take(i as int));
        match plain_str(&list[i]) {
            Some(n) => {
                if !n.is_empty() {
                    let s = n.to_owned();
                    let ghost t = s@;
                    out.push(s);
                    assert(string_texts(out@) =~= before.push(t));
                }
            },
            None => {},
        }
        i = i + 1;
    }
    assert(list@.take(i as int) == list@);
    out
}

/// A line that restricts architectures, and those it names.
#[derive(Debug)]
pub struct Restriction {
    pub span: Span,
    pub archs: Vec<String>,
}

pub struct RestrictionView {
    pub span: Span,
    pub archs: Seq<Seq<char>>,
}

impl View for Restriction {
    type V = RestrictionView;

    open spec fn view(&self) -> RestrictionView {
        RestrictionView { span: self.span, archs: string_texts(self.archs@) }
    }
}

pub open spec fn restriction_views(v: Seq<Restriction>) -> Seq<RestrictionView> {
    v.map_values(|r: Restriction| r@)
}

/// The lines with the given tag and a list of architectures.
pub open spec fn restrictions(items: Seq<PreambleItem>, tag: Tag) -> Seq<RestrictionView>
    decreases items.len(),
{
    if items.len() == 0 {
        Seq::empty()
    } else {
        let rest = restrictions(items.drop_last(), tag);
        match items.last().value {
            TagValue::ArchList(list) => if items.last().tag == tag {
                rest.push(
                    RestrictionView { span: items.last().data, archs: literal_archs(list@) },
                )
            } else {
                rest
            },
            _ => rest,
        }
    }
}

/// The last `BuildArch:` line that names `noarch`.
pub open spec fn noarch_line(items: Seq<PreambleItem>) -> Option<Span>
    decreases items.len(),
{
    if items.len() == 0 {
        None
    } else {
        match items.last().value {
            TagValue::ArchList(list) => if items.last().tag is BuildArch && literal_archs(list@).contains(
                "noarch"@,
            ) {
                Some(items.last().data)
            } else {
                noarch_line(items.drop_last())
            },
            _ => noarch_line(items.drop_last()),
        }
    }
}

/// The names of `a`, in order, that are also in `b`.
pub open spec fn shared(a: Seq<Seq<char>>, b: Seq<Seq<char>>) -> Seq<Seq<char>>
    decreases a.len(),
{
    if a.len() == 0 {
        Seq::empty()
    } else if b.contains(a.last()) {
        shared(a.drop_last(), b).push(a.last())
    } else {
        shared(a.drop_last(), b)
    }
}

pub open spec fn exclusive_report(noarch: Span, r: RestrictionView) -> DiagnosticView {
    plain("RPM310"@, Severity::Warn, "`ExclusiveArch:` set together with `BuildArch: noarch` — noarch packages run on any arch, so restricting is meaningless"@, r.span).label(
        noarch,
        "`BuildArch: noarch` declared here"@,
    )
}

pub open spec fn exclude_report(noarch: Span, r: RestrictionView) -> DiagnosticView {
    plain("RPM310"@, Severity::Warn, "`ExcludeArch:` set together with `BuildArch: noarch` — noarch packages run on any arch, so excluding is meaningless"@, r.span).label(
        noarch,
        "`BuildArch: noarch` declared here"@,
    )
}

/// The report on two lines that name the same architectures.
pub open spec fn overlap_findings(ex: RestrictionView, excl: RestrictionView) -> Seq<DiagnosticView> {
    let both = shared(in_order(ex.archs), excl.archs);
    given(
        both.len() > 0,
        plain("RPM310"@, Severity::Warn, "`ExclusiveArch` and `ExcludeArch` both list `"@ + joined(both, ", "@) + "` — either include or exclude, not both"@, excl.span).label(
            ex.span,
            "`ExclusiveArch:` declared here"@,
        ),
    )
}

/// Restrictions of a package that runs everywhere, then overlaps.
pub open spec fn policy_findings(items: Seq<PreambleItem>) -> Seq<DiagnosticView> {
    let exclusive = restrictions(items, Tag::ExclusiveArch);
    let exclude = restrictions(items, Tag::ExcludeArch);
    noarch_findings(noarch_line(items), exclusive, exclude) + all_overlaps(exclusive, exclude, exclusive.len())
}

pub open spec fn noarch_findings(noarch: Option<Span>, exclusive: Seq<RestrictionView>, exclude: Seq<RestrictionView>) -> Seq<DiagnosticView> {
    match noarch {
        Some(n) => exclusive.map_values(|r: RestrictionView| exclusive_report(n, r)) + exclude.map_values(
            |r: RestrictionView| exclude_report(n, r),
        ),
        None => Seq::empty(),
    }
}

/// The overlaps of the first `n` lines of `exclusive`.
pub open spec fn all_overlaps(exclusive: Seq<RestrictionView>, exclude: Seq<RestrictionView>, n: nat) -> Seq<DiagnosticView>
    decreases n,
{
    if n == 0 {
        Seq::empty()
    } else {
        all_overlaps(exclusive, exclude, (n - 1) as nat) + line_overlaps(exclusive[n - 1], exclude, exclude.len())
    }
}

/// The overlaps of one line with the first `n` of `exclude`.
pub open spec fn line_overlaps(ex: RestrictionView, exclude: Seq<RestrictionView>, n: nat) -> Seq<DiagnosticView>
    decreases n,
{
    if n == 0 {
        Seq::empty()
    } else {
        line_overlaps(ex, exclude, (n - 1) as nat) + overlap_findings(ex, exclude[n - 1])
    }
}

fn lists_name(names: &Vec<String>, name: &str) -> (r: bool)
    ensures
        r == string_texts(names@).contains(name@),
{
    let ghost t = string_texts(names@);
    let mut i: usize = 0;
    while i < names.len()
        invariant
            i <= names.len(),
            t == string_texts(names@),
            forall|j: int| 0 <= j < i ==> #[trigger] t[j] != name@,
        decreases names.len() - i,
    {
        assert(t[i as int] == names@[i as int]@);
        if same(names[i].as_str(), name) {
            return true;
        }
        i = i + 1;
    }
    false
}

fn collect_restrictions(items: &Vec<&PreambleItem>, tag: Tag) -> (r: Vec<Restriction>)
    ensures
        restriction_views(r@) == restrictions(preamble_views(items@), tag),
{
    let ghost v = preamble_views(items@);
    let mut out: Vec<Restriction> = Vec::new();
    let mut i: usize = 0;
    assert(restriction_views(out@) =~= restrictions(v.take(0), tag));
    while i < items.len()
        invariant
            i <= items.len(),
            v == preamble_views(items@),
            restriction_views(out@) == restrictions(v.take(i as int), tag),
        decreases items.len() - i,
    {
        let ghost before = restriction_views(out@);
        assert(v.take(i + 1).drop_last() == v.take(i as int));
        assert(v.take(i + 1).last() == *items@[i as int]);
        match &items[i].value {
            TagValue::ArchList(list) => {
                if items[i].tag == tag {
                    let r = Restriction { span: items[i].data, archs: collect_archs(list) };
                    let ghost rv = r@;
                    out.push(r);
                    assert(restriction_views(out@) =~= before.push(rv));
                }
            },
            _ => {},
        }
        i = i + 1;
    }
    assert(v.take(i as int) == v);
    out
}

fn find_noarch(items: &Vec<&PreambleItem>) -> (r: Option<Span>)
    ensures
        r == noarch_line(preamble_views(items@)),
{
    let ghost v = preamble_views(items@);
    let mut found: Option<Span> = None;
    let mut i: usize = 0;
    while i < items.len()
        invariant
            i <= items.len(),
            v == preamble_views(items@),
            found == noarch_line(v.take(i as int)),
        decreases items.len() - i,
    {
        assert(v.take(i + 1).drop_last() == v.take(i as int));
        assert(v.take(i + 1).last() == *items@[i as int]);
        match &items[i].value {
            TagValue::ArchList(list) => {
                if matches!(items[i].tag, Tag::BuildArch) && lists_name(&collect_archs(list), "noarch") {
                    found = Some(items[i].data);
                }
            },
            _ => {},
        }
        i = i + 1;
    }
    assert(v.take(i as int) == v);
    found
}

fn shared_names(a: &Vec<String>, b: &Vec<String>) -> (r: Vec<String>)
    ensures
        string_texts(r@) == shared(string_texts(a@), string_texts(b@)),
{
    let ghost t = string_texts(a@);
    let mut out: Vec<String> = Vec::new();
    let mut i: usize = 0;
    assert(string_texts(out@) =~= shared(t.take(0), string_texts(b@)));
    while i < a.len()
        invariant
            i <= a.len(),
            t == string_texts(a@),
            string_texts(out@) == shared(t.take(i as int), string_texts(b@)),
        decreases a.len() - i,
    {
        let ghost before = string_texts(out@);
        assert(t.take(i + 1).drop_last() == t.take(i as int));
        assert(t.take(i + 1).last() == a@[i as int]@);
        if lists_name(b, a[i].as_str()) {
            let s = a[i].clone();
            let ghost sv = s@;
            out.push(s);
            assert(string_texts(out@) =~= before.push(sv));
        }
        i = i + 1;
    }
    assert(t.take(i as int) == t);
    out
}

fn report_noarch(noarch: Span, exclusive: &Vec<Restriction>, exclude: &Vec<Restriction>, out: &mut Vec<Diagnostic>)
    ensures
        reports(final(out)@) == reports(old(out)@) + noarch_findings(
            Some(noarch),
            restriction_views(exclusive@),
            restriction_views(exclude@),
        ),
{
    let ghost start = reports(out@);
    let ghost ex = restriction_views(exclusive@).map_values(|r: RestrictionView| exclusive_report(noarch, r));
    let ghost excl = restriction_views(exclude@).map_values(|r: RestrictionView| exclude_report(noarch, r));
    let mut i: usize = 0;
    assert(start + ex.take(0) =~= start);
    while i < exclusive.len()
        invariant
            i <= exclusive.len(),
            ex == restriction_views(exclusive@).map_values(|r: RestrictionView| exclusive_report(noarch, r)),
            reports(out@) == start + ex.take(i as int),
        decreases exclusive.len() - i,
    {
        say(
            out,
            Diagnostic::new("RPM310", Severity::Warn, "`ExclusiveArch:` set together with `BuildArch: noarch` — noarch packages run on any arch, so restricting is meaningless", exclusive[i].span).with_label(
                noarch,
                "`BuildArch: noarch` declared here",
            ),
        );
        assert(start + ex.take(i as int) + seq![ex[i as int]] =~= start + ex.take(i + 1));
        i = i + 1;
    }
    assert(ex.take(i as int) == ex);
    let ghost middle = start + ex;
    let mut j: usize = 0;
    assert(middle + excl.take(0) =~= middle);
    while j < exclude.len()
        invariant
            j <= exclude.len(),
            excl == restriction_views(exclude@).map_values(|r: RestrictionView| exclude_report(noarch, r)),
            reports(out@) == middle + excl.take(j as int),
        decreases exclude.len() - j,
    {
        say(
            out,
            Diagnostic::new("RPM310", Severity::Warn, "`ExcludeArch:` set together with `BuildArch: noarch` — noarch packages run on any arch, so excluding is meaningless", exclude[j].span).with_label(
                noarch,
                "`BuildArch: noarch` declared here",
            ),
        );
        assert(middle + excl.take(j as int) + seq![excl[j as int]] =~= middle + excl.take(j + 1));
        j = j + 1;
    }
    assert(excl.take(j as int) == excl);
    assert(start + ex + excl =~= start + (ex + excl));
}

fn report_overlap(ex: &Restriction, excl: &Restriction, out: &mut Vec<Diagnostic>)
    ensures
        reports(final(out)@) == reports(old(out)@) + overlap_findings(ex@, excl@),
{
    let both = shared_names(&put_in_order(&ex.archs), &excl.archs);
    if both.len() > 0 {
        let mut message = String::from_str("`ExclusiveArch` and `ExcludeArch` both list `");
        message.append(join(&both, ", ").as_str());
        message.append("` — either include or exclude, not both");
        say(
            out,
            Diagnostic::new("RPM310", Severity::Warn, message.as_str(), excl.span).with_label(
                ex.span,
                "`ExclusiveArch:` declared here",
            ),
        );
    } else {
        assert(reports(out@) + Seq::<DiagnosticView>::empty() == reports(out@));
    }
}

fn report_overlaps(exclusive: &Vec<Restriction>, exclude: &Vec<Restriction>, out: &mut Vec<Diagnostic>)
    ensures
        reports(final(out)@) == reports(old(out)@) + all_overlaps(
            restriction_views(exclusive@),
            restriction_views(exclude@),
            exclusive@.len(),
        ),
{
    let ghost ev = restriction_views(exclusive@);
    let ghost xv = restriction_views(exclude@);
    let ghost start = reports(out@);
    let mut i: usize = 0;
    assert(start + all_overlaps(ev, xv, 0) =~= start);
    while i < exclusive.len()
        invariant
            i <= exclusive.len(),
            ev == restriction_views(exclusive@),
            xv == restriction_views(exclude@),
            reports(out@) == start + all_overlaps(ev, xv, i as nat),
        decreases exclusive.len() - i,
    {
        let ghost before = reports(out@);
        let ghost e = ev[i as int];
        let mut j: usize = 0;
        assert(before + line_overlaps(e, xv, 0) =~= before);
        while j < exclude.len()
            invariant
                i < exclusive.len(),
                j <= exclude.len(),
                ev == restriction_views(exclusive@),
                xv == restriction_views(exclude@),
                e == ev[i as int],
                reports(out@) == before + line_overlaps(e, xv, j as nat),
            decreases exclude.len() - j,
        {
            report_overlap(&exclusive[i], &exclude[j], out);
            proof {
                let a = line_overlaps(e, xv, j as nat);
                let b = overlap_findings(e, xv[j as int]);
                assert(e == exclusive@[i as int]@ && xv[j as int] == exclude@[j as int]@);
                assert(before + a + b =~= before + (a + b));
            }
            j = j + 1;
        }
        proof {
            let a = all_overlaps(ev, xv, i as nat);
            let b = line_overlaps(e, xv, xv.len());
            assert(start + a + b =~= start + (a + b));
        }
        i = i + 1;
    }
}

/// RPM310 `arch-policy-contradiction`: `BuildArch: noarch` is combined with
/// `ExclusiveArch`/`ExcludeArch`, or `ExclusiveArch` and `ExcludeArch` list overlapping
/// architectures.
#[derive(Debug)]
pub struct ArchPolicyContradiction {
    pub diagnostics: Vec<Diagnostic>,
}

impl ArchPolicyContradiction {
    pub fn new() -> (r: ArchPolicyContradiction)
        ensures
            r.pending() == Seq::<DiagnosticView>::empty(),
    {
        let r = ArchPolicyContradiction { diagnostics: Vec::new() };
        assert(r.pending() =~= Seq::<DiagnosticView>::empty());
        r
    }
}

impl Default for ArchPolicyContradiction {
    fn default() -> (r: ArchPolicyContradiction)
        ensures
            r.pending() == Seq::<DiagnosticView>::empty(),
    {
        ArchPolicyContradiction::new()
    }
}

impl Lint for ArchPolicyContradiction {
    open spec fn identity() -> Identity {
        Identity {
            id: "RPM310"@,
            name: "arch-policy-contradiction"@,
            description: "`BuildArch: noarch` is combined with `ExclusiveArch`/`ExcludeArch`, or `ExclusiveArch` and `ExcludeArch` list overlapping architectures."@,
            default_severity: Severity::Warn,
            category: LintCategory::Correctness,
        }
    }

    open spec fn pending(&self) -> Seq<DiagnosticView> {
        reports(self.diagnostics@)
    }

    open spec fn after(&self, spec: SpecFile) -> Seq<DiagnosticView> {
        self.pending() + policy_findings(top_level_preamble(spec))
    }

    open spec fn same_settings(&self, other: &Self) -> bool {
        true
    }

    fn metadata(&self) -> (r: LintMetadata) {
        LintMetadata {
            id: "RPM310",
            name: "arch-policy-contradiction",
            description: "`BuildArch: noarch` is combined with `ExclusiveArch`/`ExcludeArch`, or `ExclusiveArch` and `ExcludeArch` list overlapping architectures.",
            default_severity: Severity::Warn,
            category: LintCategory::Correctness,
        }
    }

    fn visit_spec(&mut self, spec: &SpecFile) {
        let items = collect_top_level_preamble(spec);
        let exclusive = collect_restrictions(&items, Tag::ExclusiveArch);
        let exclude = collect_restrictions(&items, Tag::ExcludeArch);
        let noarch = find_noarch(&items);
        let ghost start = self.pending();
        let ghost ev = restriction_views(exclusive@);
        let ghost xv = restriction_views(exclude@);
        match noarch {
            Some(span) => {
                report_noarch(span, &exclusive, &exclude, &mut self.diagnostics);
            },
            None => {
                assert(start + Seq::<DiagnosticView>::empty() == start);
            },
        }
        report_overlaps(&exclusive, &exclude, &mut self.diagnostics);
        proof {
            let a = noarch_findings(noarch, ev, xv);
            let b = all_overlaps(ev, xv, ev.len());
            assert(start + a + b == start + (a + b));
        }
    }

    fn take_diagnostics(&mut self) -> (r: Vec<Diagnostic>) {
        drain(&mut self.diagnostics)
    }
}

/// A list holds the literal name `name`.
pub open spec fn holds_name(list: Seq<Text>, name: Seq<char>) -> bool {
    name.len() > 0 && exists|k: int|
        0 <= k < list.len() && ((#[trigger] list[k]).literal() matches Some(s) && trim(s) == name)
}

proof fn lemma_literal_archs(list: Seq<Text>, name: Seq<char>)
    ensures
        literal_archs(list).contains(name) <==> holds_name(list, name),
    decreases list.len(),
{
    if list.len() > 0 {
        let front = list.drop_last();
        let rest = literal_archs(front);
        lemma_literal_archs(front, name);
        assert(list[list.len() - 1] == list.last());
        if holds_name(front, name) {
            let k = choose|k: int|
                0 <= k < front.len() && ((#[trigger] front[k]).literal() matches Some(s) && trim(s)
                    == name);
            assert(list[k] == front[k]);
        }
        if holds_name(list, name) {
            let k = choose|k: int|
                0 <= k < list.len() && ((#[trigger] list[k]).literal() matches Some(s) && trim(s)
                    == name);
            if k < front.len() {
                assert(front[k] == list[k]);
            }
        }
        match plain_text(list.last()) {
            Some(n) => {
                if n.len() > 0 {
                    lemma_either(rest, seq![n], name);
                    assert(rest.push(n) =~= rest + seq![n]);
                    assert(seq![n][0] == n);
                }
            },
            None => {},
        }
    }
}

/// Line `p` restricts the architectures with `tag`.
pub open spec fn restricts(p: PreambleItem, tag: Tag) -> bool {
    p.tag == tag && p.value is ArchList
}

proof fn lemma_restrictions(items: Seq<PreambleItem>, tag: Tag, r: RestrictionView)
    ensures
        restrictions(items, tag).contains(r) <==> exists|i: int|
            0 <= i < items.len() && restricts(#[trigger] items[i], tag) && r == (RestrictionView {
                span: items[i].data,
                archs: literal_archs(items[i].value->ArchList_0@),
            }),
    decreases items.len(),
{
    if items.len() > 0 {
        let front = items.drop_last();
        let rest = restrictions(front, tag);
        let p = items.last();
        lemma_restrictions(front, tag, r);
        assert(items[items.len() - 1] == p);
        let own = RestrictionView { span: p.data, archs: literal_archs(p.value->ArchList_0@) };
        if restricts(p, tag) {
            lemma_either(rest, seq![own], r);
            assert(rest.push(own) =~= rest + seq![own]);
            assert(seq![own][0] == own);
        }
        if rest.contains(r) {
            let i = choose|i: int|
                0 <= i < front.len() && restricts(#[trigger] front[i], tag) && r == (
                RestrictionView {
                    span: front[i].data,
                    archs: literal_archs(front[i].value->ArchList_0@),
                });
            assert(items[i] == front[i]);
        }
        if exists|i: int|
            0 <= i < items.len() && restricts(#[trigger] items[i], tag) && r == (RestrictionView {
                span: items[i].data,
                archs: literal_archs(items[i].value->ArchList_0@),
            }) {
            let i = choose|i: int|
                0 <= i < items.len() && restricts(#[trigger] items[i], tag) && r == (
                RestrictionView {
                    span: items[i].data,
                    archs: literal_archs(items[i].value->ArchList_0@),
                });
            if i < front.len() {
                assert(front[i] == items[i]);
            }
        }
    }
}

/// One of the lines makes the package `noarch`.
pub open spec fn is_noarch(items: Seq<PreambleItem>) -> bool {
    exists|i: int|
        0 <= i < items.len() && restricts(#[trigger] items[i], Tag::BuildArch) && holds_name(
            items[i].value->ArchList_0@,
            "noarch"@,
        )
}

proof fn lemma_noarch(items: Seq<PreambleItem>)
    ensures
        noarch_line(items) is Some <==> is_noarch(items),
    decreases items.len(),
{
    if items.len() > 0 {
        let front = items.drop_last();
        let p = items.last();
        lemma_noarch(front);
        assert(items[items.len() - 1] == p);
        match p.value {
            TagValue::ArchList(list) => lemma_literal_archs(list@, "noarch"@),
            _ => {},
        }
        if is_noarch(front) {
            let i = choose|i: int|
                0 <= i < front.len() && restricts(#[trigger] front[i], Tag::BuildArch) && holds_name(
                    front[i].value->ArchList_0@,
                    "noarch"@,
                );
            assert(items[i] == front[i]);
        }
        if is_noarch(items) {
            let i = choose|i: int|
                0 <= i < items.len() && restricts(#[trigger] items[i], Tag::BuildArch) && holds_name(
                    items[i].value->ArchList_0@,
                    "noarch"@,
                );
            if i < front.len() {
                assert(front[i] == items[i]);
            }
        }
    }
}

proof fn lemma_shared(a: Seq<Seq<char>>, b: Seq<Seq<char>>)
    ensures
        shared(a, b).len() > 0 <==> exists|n: Seq<char>| #[trigger] a.contains(n) && b.contains(n),
    decreases a.len(),
{
    if a.len() > 0 {
        let front = a.drop_last();
        lemma_shared(front, b);
        assert(a[a.len() - 1] == a.last());
        if b.contains(a.last()) {
            assert(a.contains(a.last()));
        }
        if exists|n: Seq<char>| #[trigger] front.contains(n) && b.contains(n) {
            let n = choose|n: Seq<char>| #[trigger] front.contains(n) && b.contains(n);
            let i = choose|i: int| 0 <= i < front.len() && front[i] == n;
            assert(a[i] == n);
            assert(a.contains(n));
        }
        if exists|n: Seq<char>| #[trigger] a.contains(n) && b.contains(n) {
            let n = choose|n: Seq<char>| #[trigger] a.contains(n) && b.contains(n);
            let i = choose|i: int| 0 <= i < a.len() && a[i] == n;
            if i < front.len() {
                assert(front[i] == n);
                assert(front.contains(n));
            }
        }
    }
}

/// Two lists name the same architecture.
pub open spec fn overlap(a: Seq<Text>, b: Seq<Text>) -> bool {
    exists|n: Seq<char>| #[trigger] holds_name(a, n) && holds_name(b, n)
}

proof fn lemma_overlap(a: Seq<Text>, b: Seq<Text>)
    ensures
        shared(in_order(literal_archs(a)), literal_archs(b)).len() > 0 <==> overlap(a, b),
{
    let x = literal_archs(a);
    let y = literal_archs(b);
    lemma_shared(in_order(x), y);
    ordering_keeps_the_names(x);
    if overlap(a, b) {
        let n = choose|n: Seq<char>| #[trigger] holds_name(a, n) && holds_name(b, n);
        lemma_literal_archs(a, n);
        lemma_literal_archs(b, n);
        assert(in_order(x).contains(n));
    }
    if exists|n: Seq<char>| #[trigger] in_order(x).contains(n) && y.contains(n) {
        let n = choose|n: Seq<char>| #[trigger] in_order(x).contains(n) && y.contains(n);
        lemma_literal_archs(a, n);
        lemma_literal_archs(b, n);
        assert(holds_name(a, n));
    }
}

proof fn lemma_line_overlaps(ex: RestrictionView, exclude: Seq<RestrictionView>, n: nat, span: Span)
    requires
        n <= exclude.len(),
    ensures
        says_at(line_overlaps(ex, exclude, n), span) <==> exists|j: int|
            0 <= j < n && says_at(overlap_findings(ex, #[trigger] exclude[j]), span),
    decreases n,
{
    if n > 0 {
        let m = (n - 1) as nat;
        lemma_line_overlaps(ex, exclude, m, span);
        lemma_says_either(
            line_overlaps(ex, exclude, m),
            overlap_findings(ex, exclude[n - 1]),
            span,
        );
        if exists|j: int| 0 <= j < n && says_at(overlap_findings(ex, #[trigger] exclude[j]), span) {
            let j = choose|j: int|
                0 <= j < n && says_at(overlap_findings(ex, #[trigger] exclude[j]), span);
            if j < m {
                assert(0 <= j < m);
            }
        }
        if says_at(line_overlaps(ex, exclude, m), span) {
            let j = choose|j: int|
                0 <= j < m && says_at(overlap_findings(ex, #[trigger] exclude[j]), span);
            assert(0 <= j < n);
        }
    }
}

proof fn lemma_all_overlaps(
    exclusive: Seq<RestrictionView>,
    exclude: Seq<RestrictionView>,
    n: nat,
    span: Span,
)
    requires
        n <= exclusive.len(),
    ensures
        says_at(all_overlaps(exclusive, exclude, n), span) <==> exists|i: int|
            0 <= i < n && says_at(
                line_overlaps(#[trigger] exclusive[i], exclude, exclude.len()),
                span,
            ),
    decreases n,
{
    if n > 0 {
        let m = (n - 1) as nat;
        lemma_all_overlaps(exclusive, exclude, m, span);
        lemma_says_either(
            all_overlaps(exclusive, exclude, m),
            line_overlaps(exclusive[n - 1], exclude, exclude.len()),
            span,
        );
        if exists|i: int|
            0 <= i < n && says_at(
                line_overlaps(#[trigger] exclusive[i], exclude, exclude.len()),
                span,
            ) {
            let i = choose|i: int|
                0 <= i < n && says_at(
                    line_overlaps(#[trigger] exclusive[i], exclude, exclude.len()),
                    span,
                );
            if i < m {
                assert(0 <= i < m);
            }
        }
        if says_at(all_overlaps(exclusive, exclude, m), span) {
            let i = choose|i: int|
                0 <= i < m && says_at(
                    line_overlaps(#[trigger] exclusive[i], exclude, exclude.len()),
                    span,
                );
            assert(0 <= i < n);
        }
    }
}

/// An `ExclusiveArch:` and an `ExcludeArch:` line that contradict each other.
pub open spec fn contradictory_lines(p: PreambleItem, q: PreambleItem) -> bool {
    restricts(p, Tag::ExclusiveArch) && restricts(q, Tag::ExcludeArch) && overlap(
        p.value->ArchList_0@,
        q.value->ArchList_0@,
    )
}

/// A line is reported exactly if it restricts the architectures of a package
/// that runs on all of them, or if it excludes one that another line says the
/// package is exclusively for.
pub proof fn contradictions_are_reported(items: Seq<PreambleItem>, span: Span)
    ensures
        says_at(policy_findings(items), span) <==> {
            ||| is_noarch(items) && exists|i: int|
                0 <= i < items.len() && (restricts(#[trigger] items[i], Tag::ExclusiveArch)
                    || restricts(items[i], Tag::ExcludeArch)) && items[i].data == span
            ||| exists|i: int, j: int|
                0 <= i < items.len() && 0 <= j < items.len() && #[trigger] contradictory_lines(
                    items[i],
                    items[j],
                ) && items[j].data == span
        },
{
    let exclusive = restrictions(items, Tag::ExclusiveArch);
    let exclude = restrictions(items, Tag::ExcludeArch);
    let first = noarch_findings(noarch_line(items), exclusive, exclude);
    let second = all_overlaps(exclusive, exclude, exclusive.len());
    lemma_says_either(first, second, span);
    lemma_noarch(items);
    lemma_noarch_said(items, span);
    lemma_overlaps_said(items, span);
}

proof fn lemma_noarch_said(items: Seq<PreambleItem>, span: Span)
    ensures
        says_at(
            noarch_findings(
                noarch_line(items),
                restrictions(items, Tag::ExclusiveArch),
                restrictions(items, Tag::ExcludeArch),
            ),
            span,
        ) <==> noarch_line(items) is Some && exists|i: int|
            0 <= i < items.len() && (restricts(#[trigger] items[i], Tag::ExclusiveArch) || restricts(
                items[i],
                Tag::ExcludeArch,
            )) && items[i].data == span,
{
    let exclusive = restrictions(items, Tag::ExclusiveArch);
    let exclude = restrictions(items, Tag::ExcludeArch);
    match noarch_line(items) {
        Some(n) => {
            let a = exclusive.map_values(|r: RestrictionView| exclusive_report(n, r));
            let b = exclude.map_values(|r: RestrictionView| exclude_report(n, r));
            lemma_says_either(a, b, span);
            if says_at(a, span) {
                let k = choose|k: int| 0 <= k < a.len() && (#[trigger] a[k]).primary_span == span;
                assert(exclusive.contains(exclusive[k]));
                lemma_restrictions(items, Tag::ExclusiveArch, exclusive[k]);
            }
            if says_at(b, span) {
                let k = choose|k: int| 0 <= k < b.len() && (#[trigger] b[k]).primary_span == span;
                assert(exclude.contains(exclude[k]));
                lemma_restrictions(items, Tag::ExcludeArch, exclude[k]);
            }
            if exists|i: int|
                0 <= i < items.len() && (restricts(#[trigger] items[i], Tag::ExclusiveArch)
                    || restricts(items[i], Tag::ExcludeArch)) && items[i].data == span {
                let i = choose|i: int|
                    0 <= i < items.len() && (restricts(#[trigger] items[i], Tag::ExclusiveArch)
                        || restricts(items[i], Tag::ExcludeArch)) && items[i].data == span;
                let r = RestrictionView {
                    span: items[i].data,
                    archs: literal_archs(items[i].value->ArchList_0@),
                };
                if restricts(items[i], Tag::ExclusiveArch) {
                    lemma_restrictions(items, Tag::ExclusiveArch, r);
                    let k = choose|k: int| 0 <= k < exclusive.len() && exclusive[k] == r;
                    assert(a[k].primary_span == span);
                } else {
                    lemma_restrictions(items, Tag::ExcludeArch, r);
                    let k = choose|k: int| 0 <= k < exclude.len() && exclude[k] == r;
                    assert(b[k].primary_span == span);
                }
            }
        },
        None => {},
    }
}

proof fn lemma_overlaps_said(items: Seq<PreambleItem>, span: Span)
    ensures
        says_at(
            all_overlaps(
                restrictions(items, Tag::ExclusiveArch),
                restrictions(items, Tag::ExcludeArch),
                restrictions(items, Tag::ExclusiveArch).len(),
            ),
            span,
        ) <==> exists|i: int, j: int|
            0 <= i < items.len() && 0 <= j < items.len() && #[trigger] contradictory_lines(
                items[i],
                items[j],
            ) && items[j].data == span,
{
    let exclusive = restrictions(items, Tag::ExclusiveArch);
    let exclude = restrictions(items, Tag::ExcludeArch);
    lemma_all_overlaps(exclusive, exclude, exclusive.len(), span);
    if says_at(all_overlaps(exclusive, exclude, exclusive.len()), span) {
        let a = choose|i: int|
            0 <= i < exclusive.len() && says_at(
                line_overlaps(#[trigger] exclusive[i], exclude, exclude.len()),
                span,
            );
        lemma_line_overlaps(exclusive[a], exclude, exclude.len(), span);
        let b = choose|j: int|
            0 <= j < exclude.len() && says_at(
                overlap_findings(exclusive[a], #[trigger] exclude[j]),
                span,
            );
        assert(exclusive.contains(exclusive[a]) && exclude.contains(exclude[b]));
        lemma_restrictions(items, Tag::ExclusiveArch, exclusive[a]);
        lemma_restrictions(items, Tag::ExcludeArch, exclude[b]);
        let i = choose|i: int|
            0 <= i < items.len() && restricts(#[trigger] items[i], Tag::ExclusiveArch)
                && exclusive[a] == (RestrictionView {
                span: items[i].data,
                archs: literal_archs(items[i].value->ArchList_0@),
            });
        let j = choose|i: int|
            0 <= i < items.len() && restricts(#[trigger] items[i], Tag::ExcludeArch) && exclude[b]
                == (RestrictionView {
                span: items[i].data,
                archs: literal_archs(items[i].value->ArchList_0@),
            });
        lemma_overlap(items[i].value->ArchList_0@, items[j].value->ArchList_0@);
        assert(contradictory_lines(items[i], items[j]));
    }
    if exists|i: int, j: int|
        0 <= i < items.len() && 0 <= j < items.len() && #[trigger] contradictory_lines(
            items[i],
            items[j],
        ) && items[j].data == span {
        let (i, j) = choose|i: int, j: int|
            0 <= i < items.len() && 0 <= j < items.len() && #[trigger] contradictory_lines(
                items[i],
                items[j],
            ) && items[j].data == span;
        let r = RestrictionView {
            span: items[i].data,
            archs: literal_archs(items[i].value->ArchList_0@),
        };
        let s = RestrictionView {
            span: items[j].data,
            archs: literal_archs(items[j].value->ArchList_0@),
        };
        lemma_restrictions(items, Tag::ExclusiveArch, r);
        lemma_restrictions(items, Tag::ExcludeArch, s);
        let a = choose|k: int| 0 <= k < exclusive.len() && exclusive[k] == r;
        let b = choose|k: int| 0 <= k < exclude.len() && exclude[k] == s;
        lemma_overlap(items[i].value->ArchList_0@, items[j].value->ArchList_0@);
        assert(overlap_findings(exclusive[a], exclude[b])[0].primary_span == span);
        lemma_line_overlaps(exclusive[a], exclude, exclude.len(), span);
        assert(says_at(line_overlaps(exclusive[a], exclude, exclude.len()), span));
    }
}

} // verus!
