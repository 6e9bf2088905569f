//! Dependencies without a version beside the same with one.
use vstd::prelude::*;

use crate::ast::{DepAtom, DepExpr, Item, PreambleItem, Section, Span, SpecFile, Tag, TagValue};
use crate::diagnostic::{Diagnostic, DiagnosticView, LintCategory, Severity, plain, reports};
use crate::lint::{Identity, Lint, LintMetadata, drain};
use crate::packages::{
    collect_top_level_preamble, dep_label, label_of_dep, labels_tell_tags_apart, plain_str,
    plain_text, preamble_views,
    top_level_preamble,
};
use crate::rules::{given, say};
use crate::text::{before, lines, opt_string, opt_view, same, trim};
use crate::walk::{flat, lemma_flat_contains, lemma_flat_step};

verus! {

/// A dependency by what it is on, and whether it names a version.
#[derive(Debug)]
pub struct Entry {
    /// The tag and the dependency without its version, as it is shown.
    pub label: &'static str,
    pub name: String,
    pub arch: Option<String>,
    pub versioned: bool,
    pub span: Span,
}

pub struct EntryView {
    pub label: Seq<char>,
    pub name: Seq<char>,
    pub arch: Option<Seq<char>>,
    pub versioned: bool,
    pub span: Span,
}

impl View for Entry {
    type V = EntryView;

    open spec fn view(&self) -> EntryView {
        EntryView {
            label: self.label@,
            name: self.name@,
            arch: opt_string(self.arch),
            versioned: self.versioned,
            span: self.span,
        }
    }
}

pub open spec fn entry_views(v: Seq<Entry>) -> Seq<EntryView> {
    v.map_values(|e: Entry| e@)
}

/// The label of a tag under which a version makes a dependency narrower.
pub open spec fn narrowing_label(tag: Tag) -> Option<Seq<char>> {
    if tag is Provides || tag is Obsoletes {
        None
    } else {
        dep_label(tag)
    }
}

fn label_of_narrowing(tag: Tag) -> (r: Option<&'static str>)
    ensures
        opt_view(r) == narrowing_label(tag),
{
    match tag {
        Tag::Provides | Tag::Obsoletes => None,
        _ => label_of_dep(tag),
    }
}

/// The entry that a line is: a single dependency with a literal name.
pub open spec fn entry_of(p: PreambleItem) -> Seq<EntryView> {
    match (narrowing_label(p.tag), p.value) {
        (Some(label), TagValue::Dep(DepExpr::Atom(a))) => match plain_text(a.name) {
            Some(name) => if name.len() > 0 {
                seq![
                    EntryView {
                        label,
                        name,
                        arch: match a.arch {
                            Some(t) => plain_text(t),
                            None => None,
                        },
                        versioned: a.constraint is Some,
                        span: p.data,
                    },
                ]
            } else {
                Seq::empty()
            },
            None => Seq::empty(),
        },
        _ => Seq::empty(),
    }
}

pub open spec fn entries_of(items: Seq<PreambleItem>) -> Seq<EntryView> {
    flat(items, |p: PreambleItem| entry_of(p))
}

/// Whether two entries are on the same, under the same tag.
pub open spec fn same_group(a: EntryView, b: EntryView) -> bool {
    a.label == b.label && a.name == b.name && a.arch == b.arch
}

/// Whether an entry of the group of `e` names a version.
pub open spec fn is_versioned(es: Seq<EntryView>, e: EntryView) -> bool {
    exists|j: int| 0 <= j < es.len() && same_group(#[trigger] es[j], e) && es[j].versioned
}

pub open spec fn pretty(e: EntryView) -> Seq<char> {
    match e.arch {
        Some(a) => e.name + "("@ + a + ")"@,
        None => e.name,
    }
}

pub open spec fn subsumed_report(e: EntryView) -> DiagnosticView {
    plain("RPM596"@, Severity::Warn, "`"@ + e.label + ": "@ + pretty(e) + "` (no version) is subsumed by a versioned `"@ + e.label + ": "@ + pretty(e) + " OP V` elsewhere — drop the unversioned line"@, e.span).advise(
        "delete the unversioned entry; the versioned line already requires the package"@,
    )
}

/// The reports on the entries without a version in the group of `e`.
pub open spec fn group_findings(es: Seq<EntryView>, e: EntryView) -> Seq<DiagnosticView> {
    flat(es, |x: EntryView| given(same_group(x, e) && !x.versioned, subsumed_report(x)))
}

/// The reports on the group of entry `n`, if it is the first of its group and
/// one of the group names a version.
pub open spec fn findings_at(es: Seq<EntryView>, n: int) -> Seq<DiagnosticView> {
    if is_versioned(es, es[n]) && forall|j: int| 0 <= j < n ==> !same_group(#[trigger] es[j], es[n]) {
        group_findings(es, es[n])
    } else {
        Seq::empty()
    }
}

/// The reports on the groups of the first `n` entries.
pub open spec fn first_findings(es: Seq<EntryView>, n: nat) -> Seq<DiagnosticView>
    decreases n,
{
    if n == 0 {
        Seq::empty()
    } else {
        first_findings(es, (n - 1) as nat) + findings_at(es, n - 1)
    }
}

/// The reports on tag lines, group by group.
pub open spec fn lines_findings(items: Seq<PreambleItem>) -> Seq<DiagnosticView> {
    let es = entries_of(items);
    first_findings(es, es.len())
}

/// The tag line that an item is.
pub open spec fn line_of(item: Item) -> Seq<PreambleItem> {
    match item {
        Item::Preamble(p) => seq![p],
        _ => Seq::empty(),
    }
}

pub open spec fn package_findings(item: Item) -> Seq<DiagnosticView> {
    match item {
        Item::Section(s) => match *s {
            Section::Package { content, .. } => lines_findings(
                flat(content@, |i: Item| line_of(i)),
            ),
            _ => Seq::empty(),
        },
        _ => Seq::empty(),
    }
}

/// The main package with what its conditionals hold, then the subpackages at
/// the top level without.
pub open spec fn all_findings(spec: SpecFile) -> Seq<DiagnosticView> {
    lines_findings(top_level_preamble(spec)) + flat(spec.items@, |i: Item| package_findings(i))
}

fn entry(p: &PreambleItem) -> (r: Option<Entry>)
    ensures
        r is Some <==> entry_of(*p).len() > 0,
        r matches Some(e) ==> entry_of(*p) == seq![e@],
        r is None ==> entry_of(*p) == Seq::<EntryView>::empty(),
{
    let label = match label_of_narrowing(p.tag) {
        Some(l) => l,
        None => {
            return None;
        },
    };
    match &p.value {
        TagValue::Dep(DepExpr::Atom(a)) => {
            let name = match plain_str(&a.name) {
                Some(n) => n,
                None => {
                    return None;
                },
            };
            if name.is_empty() {
                return None;
            }
            let arch: Option<String> = match &a.arch {
                Some(t) => match plain_str(t) {
                    Some(q) => Some(q.to_owned()),
                    None => None,
                },
                None => None,
            };
            Some(
                Entry {
                    label,
                    name: name.to_owned(),
                    arch,
                    versioned: a.constraint.is_some(),
                    span: p.data,
                },
            )
        },
        _ => None,
    }
}

fn collect_entries(items: &Vec<&PreambleItem>) -> (r: Vec<Entry>)
    ensures
        entry_views(r@) == entries_of(preamble_views(items@)),
{
    let ghost v = preamble_views(items@);
    let ghost f = |p: PreambleItem| entry_of(p);
    let mut out: Vec<Entry> = Vec::new();
    let mut i: usize = 0;
    assert(entry_views(out@) =~= flat(v.take(0), f));
    while i < items.len()
        invariant
            i <= items.len(),
            v == preamble_views(items@),
            f == (|p: PreambleItem| entry_of(p)),
            entry_views(out@) == flat(v.take(i as int), f),
        decreases items.len() - i,
    {
        let ghost before = entry_views(out@);
        assert(v[i as int] == *items@[i as int]);
        match entry(items[i]) {
            Some(e) => {
                let ghost ev = e@;
                out.push(e);
                assert(entry_views(out@) =~= before + seq![ev]);
            },
            None => {
                assert(before + Seq::<EntryView>::empty() =~= before);
            },
        }
        proof {
            lemma_flat_step(v, f, i as int);
        }
        i = i + 1;
    }
    assert(v.take(i as int) == v);
    out
}

fn grouped(a: &Entry, b: &Entry) -> (r: bool)
    ensures
        r == same_group(a@, b@),
{
    let archs = match (&a.arch, &b.arch) {
        (None, None) => true,
        (Some(x), Some(y)) => *x == *y,
        _ => false,
    };
    same(a.label, b.label) && a.name == b.name && archs
}

fn has_version(es: &Vec<Entry>, n: usize) -> (r: bool)
    requires
        n < es.len(),
    ensures
        r == is_versioned(entry_views(es@), es@[n as int]@),
{
    let ghost v = entry_views(es@);
    let mut j: usize = 0;
    while j < es.len()
        invariant
            j <= es.len(),
            n < es.len(),
            v == entry_views(es@),
            forall|k: int|
                0 <= k < j ==> !(same_group(#[trigger] v[k], es@[n as int]@) && v[k].versioned),
        decreases es.len() - j,
    {
        assert(v[j as int] == es@[j as int]@);
        if grouped(&es[j], &es[n]) && es[j].versioned {
            return true;
        }
        j = j + 1;
    }
    false
}

fn is_first(es: &Vec<Entry>, n: usize) -> (r: bool)
    requires
        n < es.len(),
    ensures
        r == forall|j: int| 0 <= j < n ==> !same_group(#[trigger] entry_views(es@)[j], es@[n as int]@),
{
    let ghost v = entry_views(es@);
    let mut j: usize = 0;
    while j < n
        invariant
            j <= n < es.len(),
            v == entry_views(es@),
            forall|k: int| 0 <= k < j ==> !same_group(#[trigger] v[k], es@[n as int]@),
        decreases n - j,
    {
        assert(v[j as int] == es@[j as int]@);
        if grouped(&es[j], &es[n]) {
            return false;
        }
        j = j + 1;
    }
    true
}

fn report_entry(e: &Entry, out: &mut Vec<Diagnostic>)
    ensures
        reports(final(out)@) == reports(old(out)@) + seq![subsumed_report(e@)],
{
    let mut shown = String::from_str(e.name.as_str());
    match &e.arch {
        Some(a) => {
            shown.append("(");
            shown.append(a.as_str());
            shown.append(")");
        },
        None => {},
    }
    let mut message = String::from_str("`");
    message.append(e.label);
    message.append(": ");
    message.append(shown.as_str());
    message.append("` (no version) is subsumed by a versioned `");
    message.append(e.label);
    message.append(": ");
    message.append(shown.as_str());
    message.append(" OP V` elsewhere — drop the unversioned line");
    say(
        out,
        Diagnostic::new("RPM596", Severity::Warn, message.as_str(), e.span).with_advice(
            "delete the unversioned entry; the versioned line already requires the package",
        ),
    );
}

fn emit_for_group(es: &Vec<Entry>, n: usize, out: &mut Vec<Diagnostic>)
    requires
        n < es.len(),
    ensures
        reports(final(out)@) == reports(old(out)@) + group_findings(entry_views(es@), es@[n as int]@),
{
    let ghost v = entry_views(es@);
    let ghost e = es@[n as int]@;
    let ghost f = |x: EntryView| given(same_group(x, e) && !x.versioned, subsumed_report(x));
    let ghost start = reports(out@);
    let mut i: usize = 0;
    assert(start + flat(v.take(0), f) == start);
    while i < es.len()
        invariant
            i <= es.len(),
            n < es.len(),
            v == entry_views(es@),
            e == es@[n as int]@,
            f == (|x: EntryView| given(same_group(x, e) && !x.versioned, subsumed_report(x))),
            reports(out@) == start + flat(v.take(i as int), f),
        decreases es.len() - i,
    {
        let ghost so_far = flat(v.take(i as int), f);
        let ghost here = f(v[i as int]);
        assert(v[i as int] == es@[i as int]@);
        if grouped(&es[i], &es[n]) && !es[i].versioned {
            report_entry(&es[i], out);
        } else {
            assert(so_far + here == so_far);
        }
        proof {
            lemma_flat_step(v, f, i as int);
            assert(start + so_far + here == start + (so_far + here));
        }
        i = i + 1;
    }
    assert(v.take(i as int) == v);
}

fn check_lines(items: &Vec<&PreambleItem>, out: &mut Vec<Diagnostic>)
    ensures
        reports(final(out)@) == reports(old(out)@) + lines_findings(preamble_views(items@)),
{
    let es = collect_entries(items);
    let ghost v = entry_views(es@);
    let ghost start = reports(out@);
    let mut i: usize = 0;
    assert(start + first_findings(v, 0) == start);
    while i < es.len()
        invariant
            i <= es.len(),
            v == entry_views(es@),
            reports(out@) == start + first_findings(v, i as nat),
        decreases es.len() - i,
    {
        let ghost so_far = first_findings(v, i as nat);
        let ghost here = findings_at(v, i as int);
        assert(v[i as int] == es@[i as int]@);
        if has_version(&es, i) && is_first(&es, i) {
            emit_for_group(&es, i, out);
        } else {
            assert(so_far + here == so_far);
        }
        assert(start + so_far + here == start + (so_far + here));
        i = i + 1;
    }
}

fn own_lines<'a>(content: &'a Vec<Item>) -> (r: Vec<&'a PreambleItem>)
    ensures
        preamble_views(r@) == flat(content@, |i: Item| line_of(i)),
{
    let ghost f = |i: Item| line_of(i);
    let mut out: Vec<&'a PreambleItem> = Vec::new();
    let mut i: usize = 0;
    assert(preamble_views(out@) =~= flat(content@.take(0), f));
    while i < content.len()
        invariant
            i <= content.len(),
            f == (|i: Item| line_of(i)),
            preamble_views(out@) == flat(content@.take(i as int), f),
        decreases content.len() - i,
    {
        let ghost before = preamble_views(out@);
        match &content[i] {
            Item::Preamble(p) => {
                out.push(p);
                assert(preamble_views(out@) =~= before + seq![*p]);
            },
            _ => {
                assert(before + Seq::<PreambleItem>::empty() =~= before);
            },
        }
        proof {
            lemma_flat_step(content@, f, i as int);
        }
        i = i + 1;
    }
    assert(content@.take(i as int) == content@);
    out
}

fn check_package(item: &Item, out: &mut Vec<Diagnostic>)
    ensures
        reports(final(out)@) == reports(old(out)@) + package_findings(*item),
{
    match item {
        Item::Section(s) => match &**s {
            Section::Package { content, .. } => {
                let lines = own_lines(content);
                check_lines(&lines, out);
                return ;
            },
            _ => {},
        },
        _ => {},
    }
    assert(reports(out@) + Seq::<DiagnosticView>::empty() == reports(out@));
}

/// RPM596 `dependency-constraint-subsumption`: Unversioned dep atom is subsumed by a
/// versioned one for the same name; drop the unversioned line.
#[derive(Debug)]
pub struct DependencyConstraintSubsumption {
    pub diagnostics: Vec<Diagnostic>,
}

impl DependencyConstraintSubsumption {
    pub fn new() -> (r: DependencyConstraintSubsumption)
        ensures
            r.pending() == Seq::<DiagnosticView>::empty(),
    {
        let r = DependencyConstraintSubsumption { diagnostics: Vec::new() };
        assert(r.pending() =~= Seq::<DiagnosticView>::empty());
        r
    }
}

impl Default for DependencyConstraintSubsumption {
    fn default() -> (r: DependencyConstraintSubsumption)
        ensures
            r.pending() == Seq::<DiagnosticView>::empty(),
    {
        DependencyConstraintSubsumption::new()
    }
}

impl Lint for DependencyConstraintSubsumption {
    open spec fn identity() -> Identity {
        Identity {
            id: "RPM596"@,
            name: "dependency-constraint-subsumption"@,
            description: "Unversioned dep atom is subsumed by a versioned one for the same name; drop the unversioned line."@,
            default_severity: Severity::Warn,
            category: LintCategory::Correctness,
        }
    }

    open spec fn pending(&self) -> Seq<DiagnosticView> {
        reports(self.diagnostics@)
    }

    open spec fn after(&self, spec: SpecFile) -> Seq<DiagnosticView> {
        self.pending() + all_findings(spec)
    }

    open spec fn same_settings(&self, other: &Self) -> bool {
        true
    }

    fn metadata(&self) -> (r: LintMetadata) {
        LintMetadata {
            id: "RPM596",
            name: "dependency-constraint-subsumption",
            description: "Unversioned dep atom is subsumed by a versioned one for the same name; drop the unversioned line.",
            default_severity: Severity::Warn,
            category: LintCategory::Correctness,
        }
    }

    fn visit_spec(&mut self, spec: &SpecFile) {
        let items = collect_top_level_preamble(spec);
        check_lines(&items, &mut self.diagnostics);
        let ghost f = |i: Item| package_findings(i);
        let ghost start = self.pending();
        let mut i: usize = 0;
        assert(start + flat(spec.items@.take(0), f) == start);
        while i < spec.items.len()
            invariant
                i <= spec.items.len(),
                f == (|i: Item| package_findings(i)),
                self.pending() == start + flat(spec.items@.take(i as int), f),
            decreases spec.items.len() - i,
        {
            check_package(&spec.items[i], &mut self.diagnostics);
            proof {
                lemma_flat_step(spec.items@, f, i as int);
                let a = flat(spec.items@.take(i as int), f);
                let b = f(spec.items@[i as int]);
                assert(start + a + b == start + (a + b));
            }
            i = i + 1;
        }
        proof {
            assert(spec.items@.take(i as int) == spec.items@);
            let a = lines_findings(top_level_preamble(*spec));
            let b = flat(spec.items@, f);
            assert(old(self).pending() + a + b == old(self).pending() + (a + b));
        }
    }

    fn take_diagnostics(&mut self) -> (r: Vec<Diagnostic>) {
        drain(&mut self.diagnostics)
    }
}

/// The literal text of a qualifier, without whitespace around it. One with
/// macros counts as none.
pub open spec fn literal_qualifier(a: DepAtom) -> Option<Seq<char>> {
    match a.arch {
        Some(t) => match t.literal() {
            Some(s) => Some(trim(s)),
            None => None,
        },
        None => None,
    }
}

/// Whether `p` states a dependency without a version that `q` states with
/// one: under the same tag, with the same name and the same qualifier.
pub open spec fn needless(p: PreambleItem, q: PreambleItem) -> bool {
    match (p.value, q.value) {
        (TagValue::Dep(DepExpr::Atom(a)), TagValue::Dep(DepExpr::Atom(b))) => {
            &&& p.tag == q.tag
            &&& dep_label(p.tag) is Some
            &&& !(p.tag is Provides)
            &&& !(p.tag is Obsoletes)
            &&& a.constraint is None
            &&& b.constraint is Some
            &&& a.name.literal() matches Some(x) && (b.name.literal() matches Some(y) && trim(x)
                == trim(y) && trim(x).len() > 0)
            &&& literal_qualifier(a) == literal_qualifier(b)
        },
        _ => false,
    }
}

/// Whether both lines are of the main package, or both stand directly in one
/// subpackage at the top level.
pub open spec fn in_one_package(spec: SpecFile, p: PreambleItem, q: PreambleItem) -> bool {
    ||| top_level_preamble(spec).contains(p) && top_level_preamble(spec).contains(q)
    ||| exists|i: int|
        0 <= i < spec.items@.len() && (#[trigger] spec.items@[i] matches Item::Section(s) && (*s
            matches Section::Package { content, .. } && content@.contains(Item::Preamble(p))
            && content@.contains(Item::Preamble(q))))
}

proof fn lemma_entry(items: Seq<PreambleItem>, e: EntryView)
    ensures
        entries_of(items).contains(e) <==> exists|p: PreambleItem| #[trigger]
            items.contains(p) && entry_of(p) == seq![e],
{
    let f = |p: PreambleItem| entry_of(p);
    lemma_flat_contains(items, f, e);
    if entries_of(items).contains(e) {
        let i = choose|i: int| 0 <= i < items.len() && f(#[trigger] items[i]).contains(e);
        assert(items.contains(items[i]));
        assert(entry_of(items[i])[0] == e);
        assert(entry_of(items[i]) =~= seq![e]);
    }
    if exists|p: PreambleItem| #[trigger] items.contains(p) && entry_of(p) == seq![e] {
        let p = choose|p: PreambleItem| #[trigger] items.contains(p) && entry_of(p) == seq![e];
        let i = choose|i: int| 0 <= i < items.len() && items[i] == p;
        assert(f(items[i])[0] == e);
    }
}

/// What is said of the groups is said of an entry without a version in the
/// group of one with a version.
proof fn lemma_said(es: Seq<EntryView>, n: nat, d: DiagnosticView)
    requires
        n <= es.len(),
    ensures
        first_findings(es, n).contains(d) ==> exists|e: EntryView, v: EntryView|
            #![trigger same_group(e, v)]
            es.contains(e) && es.contains(v) && same_group(e, v) && !e.versioned && v.versioned && d
                == subsumed_report(e),
    decreases n,
{
    if n > 0 && first_findings(es, n).contains(d) {
        let m = (n - 1) as nat;
        let a = first_findings(es, m);
        let b = findings_at(es, n - 1);
        let k = choose|k: int| 0 <= k < (a + b).len() && (a + b)[k] == d;
        if k < a.len() {
            assert(a[k] == d);
            lemma_said(es, m, d);
        } else {
            assert(b[k - a.len()] == d);
            let g = es[n - 1];
            let f = |x: EntryView| given(same_group(x, g) && !x.versioned, subsumed_report(x));
            lemma_flat_contains(es, f, d);
            let i = choose|i: int| 0 <= i < es.len() && f(#[trigger] es[i]).contains(d);
            let j = choose|j: int|
                0 <= j < es.len() && same_group(#[trigger] es[j], g) && es[j].versioned;
            assert(f(es[i])[0] == d);
            assert(es.contains(es[i]) && es.contains(es[j]));
            assert(same_group(es[i], es[j]));
        }
    }
}

/// An entry without a version in the group of one with a version is reported.
proof fn lemma_unsaid(es: Seq<EntryView>, i: int, j: int)
    requires
        0 <= i < es.len(),
        0 <= j < es.len(),
        same_group(es[i], es[j]),
        !es[i].versioned,
        es[j].versioned,
    ensures
        first_findings(es, es.len()).contains(subsumed_report(es[i])),
{
    let first = lemma_first(es, i);
    let g = es[first];
    let f = |x: EntryView| given(same_group(x, g) && !x.versioned, subsumed_report(x));
    let d = subsumed_report(es[i]);
    assert(same_group(es[j], g));
    assert(is_versioned(es, g));
    lemma_flat_contains(es, f, d);
    assert(f(es[i])[0] == d);
    lemma_said_at(es, es.len(), first, d);
}

proof fn lemma_first(es: Seq<EntryView>, i: int) -> (r: int)
    requires
        0 <= i < es.len(),
    ensures
        0 <= r <= i,
        same_group(es[r], es[i]),
        forall|j: int| 0 <= j < r ==> !same_group(#[trigger] es[j], es[r]),
    decreases i,
{
    if exists|j: int| 0 <= j < i && same_group(#[trigger] es[j], es[i]) {
        let j = choose|j: int| 0 <= j < i && same_group(#[trigger] es[j], es[i]);
        lemma_first(es, j)
    } else {
        i
    }
}

proof fn lemma_said_at(es: Seq<EntryView>, n: nat, k: int, d: DiagnosticView)
    requires
        0 <= k < n <= es.len(),
        findings_at(es, k).contains(d),
    ensures
        first_findings(es, n).contains(d),
    decreases n,
{
    let a = first_findings(es, (n - 1) as nat);
    let b = findings_at(es, n - 1);
    if k == n - 1 {
        let i = choose|i: int| 0 <= i < b.len() && b[i] == d;
        assert((a + b)[a.len() + i] == d);
    } else {
        lemma_said_at(es, (n - 1) as nat, k, d);
        let i = choose|i: int| 0 <= i < a.len() && a[i] == d;
        assert((a + b)[i] == d);
    }
}

proof fn lemma_lines(items: Seq<PreambleItem>, d: DiagnosticView)
    requires
        lines_findings(items).contains(d),
    ensures
        exists|p: PreambleItem, q: PreambleItem|
            #![trigger needless(p, q)]
            items.contains(p) && items.contains(q) && needless(p, q) && d.primary_span == p.data,
{
    let es = entries_of(items);
    lemma_said(es, es.len(), d);
    let (e, v) = choose|e: EntryView, v: EntryView|
        #![trigger same_group(e, v)]
        es.contains(e) && es.contains(v) && same_group(e, v) && !e.versioned && v.versioned && d
            == subsumed_report(e);
    lemma_entry(items, e);
    lemma_entry(items, v);
    let p = choose|p: PreambleItem| #[trigger] items.contains(p) && entry_of(p) == seq![e];
    let q = choose|p: PreambleItem| #[trigger] items.contains(p) && entry_of(p) == seq![v];
    assert(seq![e][0] == e && seq![v][0] == v);
    assert(entry_of(p).len() == 1 && entry_of(q).len() == 1);
    labels_tell_tags_apart(p.tag, q.tag);
    assert(needless(p, q));
}

proof fn lemma_needless(items: Seq<PreambleItem>, p: PreambleItem, q: PreambleItem)
    requires
        items.contains(p),
        items.contains(q),
        needless(p, q),
    ensures
        exists|d: DiagnosticView|
            #[trigger] lines_findings(items).contains(d) && d.primary_span == p.data,
{
    let es = entries_of(items);
    let e = entry_of(p)[0];
    let v = entry_of(q)[0];
    assert(entry_of(p) =~= seq![e]);
    assert(entry_of(q) =~= seq![v]);
    lemma_entry(items, e);
    lemma_entry(items, v);
    let i = choose|i: int| 0 <= i < es.len() && es[i] == e;
    let j = choose|j: int| 0 <= j < es.len() && es[j] == v;
    lemma_unsaid(es, i, j);
    assert(lines_findings(items).contains(subsumed_report(e)));
}

proof fn lemma_direct_line(content: Seq<Item>, p: PreambleItem)
    ensures
        flat(content, |i: Item| line_of(i)).contains(p) <==> content.contains(Item::Preamble(p)),
{
    let f = |i: Item| line_of(i);
    lemma_flat_contains(content, f, p);
    if content.contains(Item::Preamble(p)) {
        let i = choose|i: int| 0 <= i < content.len() && content[i] == Item::Preamble(p);
        assert(f(content[i])[0] == p);
    }
    if flat(content, f).contains(p) {
        let i = choose|i: int| 0 <= i < content.len() && f(#[trigger] content[i]).contains(p);
        assert(content.contains(content[i]));
    }
}

/// A line is reported only where another line of the same package states the
/// same dependency with a version.
pub proof fn reported_line_has_a_versioned_twin(
    rule: DependencyConstraintSubsumption,
    spec: SpecFile,
    i: int,
)
    requires
        rule.pending().len() <= i < rule.after(spec).len(),
    ensures
        exists|p: PreambleItem, q: PreambleItem|
            #![trigger needless(p, q)]
            in_one_package(spec, p, q) && needless(p, q) && rule.after(spec)[i].primary_span
                == p.data,
{
    let d = rule.after(spec)[i];
    let main = top_level_preamble(spec);
    let a = lines_findings(main);
    let f = |i: Item| package_findings(i);
    let b = flat(spec.items@, f);
    let k = i - rule.pending().len();
    assert((a + b)[k] == d);
    if k < a.len() {
        assert(a[k] == d);
        lemma_lines(main, d);
    } else {
        assert(b[k - a.len()] == d);
        lemma_flat_contains(spec.items@, f, d);
        let n = choose|n: int| 0 <= n < spec.items@.len() && f(#[trigger] spec.items@[n]).contains(d);
        match spec.items@[n] {
            Item::Section(s) => match *s {
                Section::Package { content, .. } => {
                    let lines = flat(content@, |i: Item| line_of(i));
                    lemma_lines(lines, d);
                    let (p, q) = choose|p: PreambleItem, q: PreambleItem|
                        #![trigger needless(p, q)]
                        lines.contains(p) && lines.contains(q) && needless(p, q) && d.primary_span
                            == p.data;
                    lemma_direct_line(content@, p);
                    lemma_direct_line(content@, q);
                    assert(in_one_package(spec, p, q));
                },
                _ => {},
            },
            _ => {},
        }
    }
}

/// Every line that another line of the same package states with a version is
/// reported.
pub proof fn line_with_a_versioned_twin_is_reported(
    rule: DependencyConstraintSubsumption,
    spec: SpecFile,
    p: PreambleItem,
    q: PreambleItem,
)
    requires
        in_one_package(spec, p, q),
        needless(p, q),
    ensures
        exists|i: int|
            rule.pending().len() <= i < rule.after(spec).len() && (#[trigger] rule.after(
                spec,
            )[i]).primary_span == p.data,
{
    let main = top_level_preamble(spec);
    let a = lines_findings(main);
    let f = |i: Item| package_findings(i);
    let b = flat(spec.items@, f);
    let start = rule.pending().len();
    if main.contains(p) && main.contains(q) {
        lemma_needless(main, p, q);
        let d = choose|d: DiagnosticView| #[trigger] a.contains(d) && d.primary_span == p.data;
        let k = choose|k: int| 0 <= k < a.len() && a[k] == d;
        assert((a + b)[k] == d);
        assert(rule.after(spec)[start + k] == d);
    } else {
        let n = choose|i: int|
            0 <= i < spec.items@.len() && (#[trigger] spec.items@[i] matches Item::Section(s) && (*s
                matches Section::Package { content, .. } && content@.contains(Item::Preamble(p))
                && content@.contains(Item::Preamble(q))));
        match spec.items@[n] {
            Item::Section(s) => match *s {
                Section::Package { content, .. } => {
                    let lines = flat(content@, |i: Item| line_of(i));
                    lemma_direct_line(content@, p);
                    lemma_direct_line(content@, q);
                    lemma_needless(lines, p, q);
                    let d = choose|d: DiagnosticView|
                        #[trigger] lines_findings(lines).contains(d) && d.primary_span == p.data;
                    lemma_flat_contains(spec.items@, f, d);
                    assert(f(spec.items@[n]).contains(d));
                    let k = choose|k: int| 0 <= k < b.len() && b[k] == d;
                    assert((a + b)[a.len() + k] == d);
                    assert(rule.after(spec)[start + a.len() + k] == d);
                },
                _ => {},
            },
            _ => {},
        }
    }
}

} // verus!
