//! Dependencies that are stated twice, shadowed, on the package itself, or of
//! no use at run time.
use vstd::prelude::*;

use crate::ast::{DepAtom, PreambleItem, Span, SpecFile, Tag, Text};
use crate::diagnostic::{Diagnostic, DiagnosticView, LintCategory, Severity, plain, reports};
use crate::lint::{Identity, Lint, LintMetadata, drain};
use crate::packages::{
    Package, PackageView, Stated, StatedView, Tags, collect_atoms, dep_label, iter_packages,
    label_of_dep, package_views, packages, plain_str, plain_text, preamble_views, stated,
    stated_views, same_literal, same_optional,
};
use crate::rules::{given, say};
use crate::text::{has_suffix, opt_string, opt_view, same, trim};
use crate::walk::{flat, lemma_flat_step};
use crate::report_laws::{
    lemma_says_either, lemma_says_flat, lemma_says_given, lemma_says_one, says_at,
};

verus! {

/// What a dependency is on: a name and a qualifier.
#[derive(Debug)]
pub struct AtomKey {
    pub name: String,
    pub arch: Option<String>,
}

pub struct AtomKeyView {
    pub name: Seq<char>,
    pub arch: Option<Seq<char>>,
}

impl View for AtomKey {
    type V = AtomKeyView;

    open spec fn view(&self) -> AtomKeyView {
        AtomKeyView { name: self.name@, arch: opt_string(self.arch) }
    }
}

/// What a dependency without macros is on.
pub open spec fn key_of(a: DepAtom) -> Option<AtomKeyView> {
    match plain_text(a.name) {
        None => None,
        Some(name) => if name.len() == 0 {
            None
        } else {
            match a.arch {
                None => Some(AtomKeyView { name, arch: None }),
                Some(t) => match plain_text(t) {
                    Some(q) => Some(AtomKeyView { name, arch: Some(q) }),
                    None => None,
                },
            }
        },
    }
}

pub open spec fn key_text(k: AtomKeyView) -> Seq<char> {
    match k.arch {
        Some(q) => k.name + "("@ + q + ")"@,
        None => k.name,
    }
}

fn atom_key(a: &DepAtom) -> (r: Option<AtomKey>)
    ensures
        r is Some <==> key_of(*a) is Some,
        r matches Some(k) ==> key_of(*a) == Some(k@),
{
    let name = match plain_str(&a.name) {
        Some(n) => n,
        None => {
            return None;
        },
    };
    if name.is_empty() {
        return None;
    }
    match &a.arch {
        None => Some(AtomKey { name: name.to_owned(), arch: None }),
        Some(t) => match plain_str(t) {
            Some(q) => Some(AtomKey { name: name.to_owned(), arch: Some(q.to_owned()) }),
            None => None,
        },
    }
}

fn render_atom_key(k: &AtomKey) -> (r: String)
    ensures
        r@ == key_text(k@),
{
    let mut s = String::from_str(k.name.as_str());
    match &k.arch {
        Some(q) => {
            s.append("(");
            s.append(q.as_str());
            s.append(")");
        },
        None => {},
    }
    s
}

fn same_key(a: &AtomKey, b: &AtomKey) -> (r: bool)
    ensures
        r == (a@ == b@),
{
    let archs = match (&a.arch, &b.arch) {
        (None, None) => true,
        (Some(x), Some(y)) => *x == *y,
        _ => false,
    };
    a.name == b.name && archs
}

/// Whether one of the first `n` dependencies is on `k`.
pub open spec fn names_key(atoms: Seq<StatedView>, n: int, k: AtomKeyView) -> bool {
    exists|j: int| 0 <= j < n && key_of((#[trigger] atoms[j]).atom) == Some(k)
}

fn find_key(atoms: &Vec<Stated>, n: usize, k: &AtomKey) -> (r: bool)
    requires
        n <= atoms.len(),
    ensures
        r == names_key(stated_views(atoms@), n as int, k@),
{
    let ghost v = stated_views(atoms@);
    let mut j: usize = 0;
    while j < n
        invariant
            j <= n <= atoms.len(),
            v == stated_views(atoms@),
            forall|i: int| 0 <= i < j ==> key_of((#[trigger] v[i]).atom) != Some(k@),
        decreases n - j,
    {
        assert(v[j as int] == atoms@[j as int]@);
        match atom_key(atoms[j].atom) {
            Some(other) => {
                if same_key(&other, k) {
                    assert(key_of(v[j as int].atom) == Some(k@));
                    return true;
                }
            },
            None => {},
        }
        j = j + 1;
    }
    false
}

/// The tags of a class of dependencies.
pub open spec fn dep_classes() -> Seq<Tag> {
    seq![
        Tag::Requires,
        Tag::BuildRequires,
        Tag::Provides,
        Tag::Conflicts,
        Tag::Obsoletes,
        Tag::Recommends,
        Tag::Suggests,
        Tag::Supplements,
        Tag::Enhances,
    ]
}

pub open spec fn weak_classes() -> Seq<Tag> {
    seq![Tag::Recommends, Tag::Suggests, Tag::Supplements, Tag::Enhances]
}

/// The label of a tag, or nothing for a tag without dependencies.
pub open spec fn tag_label(tag: Tag) -> Seq<char> {
    match dep_label(tag) {
        Some(l) => l,
        None => ""@,
    }
}

fn label_of(tag: Tag) -> (r: &'static str)
    ensures
        r@ == tag_label(tag),
{
    match label_of_dep(tag) {
        Some(l) => l,
        None => "",
    }
}

fn all_classes() -> (r: Vec<Tag>)
    ensures
        r@ == dep_classes(),
{
    let mut v: Vec<Tag> = Vec::new();
    v.push(Tag::Requires);
    v.push(Tag::BuildRequires);
    v.push(Tag::Provides);
    v.push(Tag::Conflicts);
    v.push(Tag::Obsoletes);
    v.push(Tag::Recommends);
    v.push(Tag::Suggests);
    v.push(Tag::Supplements);
    v.push(Tag::Enhances);
    assert(v@ =~= dep_classes());
    v
}

fn all_weak_classes() -> (r: Vec<Tag>)
    ensures
        r@ == weak_classes(),
{
    let mut v: Vec<Tag> = Vec::new();
    v.push(Tag::Recommends);
    v.push(Tag::Suggests);
    v.push(Tag::Supplements);
    v.push(Tag::Enhances);
    assert(v@ =~= weak_classes());
    v
}

pub open spec fn duplicate_report(tag: Tag, k: AtomKeyView, span: Span) -> DiagnosticView {
    plain("RPM320"@, Severity::Warn, "`"@ + tag_label(tag) + ": "@ + key_text(k) + "` is listed more than once in this package"@, span)
}

/// The report on dependency `n`, if one before it is on the same.
pub open spec fn duplicate_at(tag: Tag, atoms: Seq<StatedView>, n: int) -> Seq<DiagnosticView> {
    match key_of(atoms[n].atom) {
        Some(k) => given(names_key(atoms, n, k), duplicate_report(tag, k, atoms[n].span)),
        None => Seq::empty(),
    }
}

/// The reports on the first `n` dependencies.
pub open spec fn duplicates(tag: Tag, atoms: Seq<StatedView>, n: nat) -> Seq<DiagnosticView>
    decreases n,
{
    if n == 0 {
        Seq::empty()
    } else {
        duplicates(tag, atoms, (n - 1) as nat) + duplicate_at(tag, atoms, n - 1)
    }
}

/// The reports on a package under one tag.
pub open spec fn class_duplicates(items: Seq<PreambleItem>, tag: Tag) -> Seq<DiagnosticView> {
    let atoms = stated(items, Tags::One(tag));
    duplicates(tag, atoms, atoms.len())
}

pub open spec fn package_duplicates(p: PackageView) -> Seq<DiagnosticView> {
    flat(dep_classes(), |t: Tag| class_duplicates(p.items, t))
}

pub open spec fn all_duplicates(spec: SpecFile) -> Seq<DiagnosticView> {
    flat(packages(spec), |p: PackageView| package_duplicates(p))
}

fn check_class(items: &Vec<&PreambleItem>, tag: Tag, out: &mut Vec<Diagnostic>)
    ensures
        reports(final(out)@) == reports(old(out)@) + class_duplicates(preamble_views(items@), tag),
{
    let atoms = collect_atoms(items, Tags::One(tag));
    let ghost v = stated_views(atoms@);
    let ghost start = reports(out@);
    let mut i: usize = 0;
    assert(start + duplicates(tag, v, 0) == start);
    while i < atoms.len()
        invariant
            i <= atoms.len(),
            v == stated_views(atoms@),
            reports(out@) == start + duplicates(tag, v, i as nat),
        decreases atoms.len() - i,
    {
        let ghost so_far = duplicates(tag, v, i as nat);
        let ghost here = duplicate_at(tag, v, i as int);
        assert(v[i as int] == atoms@[i as int]@);
        let mut said = false;
        match atom_key(atoms[i].atom) {
            Some(k) => {
                if find_key(&atoms, i, &k) {
                    said = true;
                    let mut message = String::from_str("`");
                    message.append(label_of(tag));
                    message.append(": ");
                    message.append(render_atom_key(&k).as_str());
                    message.append("` is listed more than once in this package");
                    say(out, Diagnostic::new("RPM320", Severity::Warn, message.as_str(), atoms[i].span));
                }
            },
            None => {},
        }
        proof {
            if !said {
                assert(so_far + here == so_far);
            }
            assert(start + so_far + here == start + (so_far + here));
        }
        i = i + 1;
    }
}

fn check_duplicates(p: &Package, out: &mut Vec<Diagnostic>)
    ensures
        reports(final(out)@) == reports(old(out)@) + package_duplicates(p@),
{
    let classes = all_classes();
    let ghost items = preamble_views(p.items@);
    let ghost f = |t: Tag| class_duplicates(p@.items, t);
    let ghost start = reports(out@);
    let mut i: usize = 0;
    assert(start + flat(classes@.take(0), f) == start);
    while i < classes.len()
        invariant
            i <= classes.len(),
            f == (|t: Tag| class_duplicates(p@.items, t)),
            reports(out@) == start + flat(classes@.take(i as int), f),
        decreases classes.len() - i,
    {
        check_class(&p.items, classes[i], out);
        proof {
            lemma_flat_step(classes@, f, i as int);
            let a = flat(classes@.take(i as int), f);
            assert(start + a + f(classes@[i as int]) == start + (a + f(classes@[i as int])));
        }
        i = i + 1;
    }
    assert(classes@.take(i as int) == classes@);
}

/// RPM320 `duplicate-dependency-atom`: Same dependency atom appears more than once inside
/// one tag's value list. RPM keeps one and ignores the rest; remove the duplicate.
#[derive(Debug)]
pub struct DuplicateDependencyAtom {
    pub diagnostics: Vec<Diagnostic>,
}

impl DuplicateDependencyAtom {
    pub fn new() -> (r: DuplicateDependencyAtom)
        ensures
            r.pending() == Seq::<DiagnosticView>::empty(),
    {
        let r = DuplicateDependencyAtom { diagnostics: Vec::new() };
        assert(r.pending() =~= Seq::<DiagnosticView>::empty());
        r
    }
}

impl Default for DuplicateDependencyAtom {
    fn default() -> (r: DuplicateDependencyAtom)
        ensures
            r.pending() == Seq::<DiagnosticView>::empty(),
    {
        DuplicateDependencyAtom::new()
    }
}

impl Lint for DuplicateDependencyAtom {
    open spec fn identity() -> Identity {
        Identity {
            id: "RPM320"@,
            name: "duplicate-dependency-atom"@,
            description: "Same dependency atom appears more than once inside one tag's value list. RPM keeps one and ignores the rest; remove the duplicate."@,
            default_severity: Severity::Warn,
            category: LintCategory::Style,
        }
    }

    open spec fn pending(&self) -> Seq<DiagnosticView> {
        reports(self.diagnostics@)
    }

    open spec fn after(&self, spec: SpecFile) -> Seq<DiagnosticView> {
        self.pending() + all_duplicates(spec)
    }

    open spec fn same_settings(&self, other: &Self) -> bool {
        true
    }

    fn metadata(&self) -> (r: LintMetadata) {
        LintMetadata {
            id: "RPM320",
            name: "duplicate-dependency-atom",
            description: "Same dependency atom appears more than once inside one tag's value list. RPM keeps one and ignores the rest; remove the duplicate.",
            default_severity: Severity::Warn,
            category: LintCategory::Style,
        }
    }

    fn visit_spec(&mut self, spec: &SpecFile) {
        let all = iter_packages(spec);
        let ghost ps = packages(*spec);
        let ghost f = |p: PackageView| package_duplicates(p);
        let ghost start = self.pending();
        let mut i: usize = 0;
        assert(start + flat(ps.take(0), f) == start);
        while i < all.len()
            invariant
                i <= all.len(),
                package_views(all@) == ps,
                f == (|p: PackageView| package_duplicates(p)),
                self.pending() == start + flat(ps.take(i as int), f),
            decreases all.len() - i,
        {
            assert(ps[i as int] == all@[i as int]@);
            check_duplicates(&all[i], &mut self.diagnostics);
            proof {
                lemma_flat_step(ps, f, i as int);
                let a = flat(ps.take(i as int), f);
                assert(start + a + f(ps[i as int]) == start + (a + f(ps[i as int])));
            }
            i = i + 1;
        }
        assert(ps.take(i as int) == ps);
    }

    fn take_diagnostics(&mut self) -> (r: Vec<Diagnostic>) {
        drain(&mut self.diagnostics)
    }
}

pub open spec fn shadowed_report(tag: Tag, k: AtomKeyView, span: Span) -> DiagnosticView {
    plain("RPM321"@, Severity::Warn, "`"@ + tag_label(tag) + ": "@ + key_text(k) + "` is shadowed by an existing `Requires: "@ + key_text(k) + "` — drop the weak dep"@, span)
}

/// The report on a weak dependency that a strong one is on as well.
pub open spec fn shadowed_at(tag: Tag, strong: Seq<StatedView>, a: StatedView) -> Seq<DiagnosticView> {
    match key_of(a.atom) {
        Some(k) => given(names_key(strong, strong.len() as int, k), shadowed_report(tag, k, a.span)),
        None => Seq::empty(),
    }
}

pub open spec fn class_shadowed(items: Seq<PreambleItem>, tag: Tag) -> Seq<DiagnosticView> {
    flat(
        stated(items, Tags::One(tag)),
        |a: StatedView| shadowed_at(tag, stated(items, Tags::One(Tag::Requires)), a),
    )
}

pub open spec fn package_shadowed(p: PackageView) -> Seq<DiagnosticView> {
    flat(weak_classes(), |t: Tag| class_shadowed(p.items, t))
}

pub open spec fn all_shadowed(spec: SpecFile) -> Seq<DiagnosticView> {
    flat(packages(spec), |p: PackageView| package_shadowed(p))
}

fn check_weak_class(items: &Vec<&PreambleItem>, tag: Tag, out: &mut Vec<Diagnostic>)
    ensures
        reports(final(out)@) == reports(old(out)@) + class_shadowed(preamble_views(items@), tag),
{
    let strong = collect_atoms(items, Tags::One(Tag::Requires));
    let weak = collect_atoms(items, Tags::One(tag));
    let ghost items_v = preamble_views(items@);
    let ghost w = stated_views(weak@);
    let ghost f = |a: StatedView| shadowed_at(tag, stated(items_v, Tags::One(Tag::Requires)), a);
    let ghost start = reports(out@);
    let mut i: usize = 0;
    assert(start + flat(w.take(0), f) == start);
    while i < weak.len()
        invariant
            i <= weak.len(),
            w == stated_views(weak@),
            stated_views(strong@) == stated(items_v, Tags::One(Tag::Requires)),
            f == (|a: StatedView| shadowed_at(tag, stated(items_v, Tags::One(Tag::Requires)), a)),
            reports(out@) == start + flat(w.take(i as int), f),
        decreases weak.len() - i,
    {
        let ghost so_far = flat(w.take(i as int), f);
        let ghost here = f(w[i as int]);
        assert(w[i as int] == weak@[i as int]@);
        let mut said = false;
        match atom_key(weak[i].atom) {
            Some(k) => {
                if find_key(&strong, strong.len(), &k) {
                    said = true;
                    let rendered = render_atom_key(&k);
                    let mut message = String::from_str("`");
                    message.append(label_of(tag));
                    message.append(": ");
                    message.append(rendered.as_str());
                    message.append("` is shadowed by an existing `Requires: ");
                    message.append(rendered.as_str());
                    message.append("` — drop the weak dep");
                    say(out, Diagnostic::new("RPM321", Severity::Warn, message.as_str(), weak[i].span));
                }
            },
            None => {},
        }
        proof {
            if !said {
                assert(so_far + here == so_far);
            }
            lemma_flat_step(w, f, i as int);
            assert(start + so_far + here == start + (so_far + here));
        }
        i = i + 1;
    }
    assert(w.take(i as int) == w);
}

fn check_shadowed(p: &Package, out: &mut Vec<Diagnostic>)
    ensures
        reports(final(out)@) == reports(old(out)@) + package_shadowed(p@),
{
    let classes = all_weak_classes();
    let ghost f = |t: Tag| class_shadowed(p@.items, t);
    let ghost start = reports(out@);
    let mut i: usize = 0;
    assert(start + flat(classes@.take(0), f) == start);
    while i < classes.len()
        invariant
            i <= classes.len(),
            f == (|t: Tag| class_shadowed(p@.items, t)),
            reports(out@) == start + flat(classes@.take(i as int), f),
        decreases classes.len() - i,
    {
        check_weak_class(&p.items, classes[i], out);
        proof {
            lemma_flat_step(classes@, f, i as int);
            let a = flat(classes@.take(i as int), f);
            assert(start + a + f(classes@[i as int]) == start + (a + f(classes@[i as int])));
        }
        i = i + 1;
    }
    assert(classes@.take(i as int) == classes@);
}

/// RPM321 `weak-dep-duplicates-strong-dep`: A weak dependency
/// (Recommends/Suggests/Supplements/Enhances) names a package already covered by a strong
/// `Requires:`. The weak entry is dead weight.
#[derive(Debug)]
pub struct WeakDepDuplicatesStrongDep {
    pub diagnostics: Vec<Diagnostic>,
}

impl WeakDepDuplicatesStrongDep {
    pub fn new() -> (r: WeakDepDuplicatesStrongDep)
        ensures
            r.pending() == Seq::<DiagnosticView>::empty(),
    {
        let r = WeakDepDuplicatesStrongDep { diagnostics: Vec::new() };
        assert(r.pending() =~= Seq::<DiagnosticView>::empty());
        r
    }
}

impl Default for WeakDepDuplicatesStrongDep {
    fn default() -> (r: WeakDepDuplicatesStrongDep)
        ensures
            r.pending() == Seq::<DiagnosticView>::empty(),
    {
        WeakDepDuplicatesStrongDep::new()
    }
}

impl Lint for WeakDepDuplicatesStrongDep {
    open spec fn identity() -> Identity {
        Identity {
            id: "RPM321"@,
            name: "weak-dep-duplicates-strong-dep"@,
            description: "A weak dependency (Recommends/Suggests/Supplements/Enhances) names a package already covered by a strong `Requires:`. The weak entry is dead weight."@,
            default_severity: Severity::Warn,
            category: LintCategory::Style,
        }
    }

    open spec fn pending(&self) -> Seq<DiagnosticView> {
        reports(self.diagnostics@)
    }

    open spec fn after(&self, spec: SpecFile) -> Seq<DiagnosticView> {
        self.pending() + all_shadowed(spec)
    }

    open spec fn same_settings(&self, other: &Self) -> bool {
        true
    }

    fn metadata(&self) -> (r: LintMetadata) {
        LintMetadata {
            id: "RPM321",
            name: "weak-dep-duplicates-strong-dep",
            description: "A weak dependency (Recommends/Suggests/Supplements/Enhances) names a package already covered by a strong `Requires:`. The weak entry is dead weight.",
            default_severity: Severity::Warn,
            category: LintCategory::Style,
        }
    }

    fn visit_spec(&mut self, spec: &SpecFile) {
        let all = iter_packages(spec);
        let ghost ps = packages(*spec);
        let ghost f = |p: PackageView| package_shadowed(p);
        let ghost start = self.pending();
        let mut i: usize = 0;
        assert(start + flat(ps.take(0), f) == start);
        while i < all.len()
            invariant
                i <= all.len(),
                package_views(all@) == ps,
                f == (|p: PackageView| package_shadowed(p)),
                self.pending() == start + flat(ps.take(i as int), f),
            decreases all.len() - i,
        {
            assert(ps[i as int] == all@[i as int]@);
            check_shadowed(&all[i], &mut self.diagnostics);
            proof {
                lemma_flat_step(ps, f, i as int);
                let a = flat(ps.take(i as int), f);
                assert(start + a + f(ps[i as int]) == start + (a + f(ps[i as int])));
            }
            i = i + 1;
        }
        assert(ps.take(i as int) == ps);
    }

    fn take_diagnostics(&mut self) -> (r: Vec<Diagnostic>) {
        drain(&mut self.diagnostics)
    }
}

/// The report on a weak dependency, without a qualifier, on the package
/// itself.
pub open spec fn self_at(name: Seq<char>, a: StatedView) -> Seq<DiagnosticView> {
    given(
        a.atom.arch is None && plain_text(a.atom.name) == Some(name),
        plain("RPM322"@, Severity::Warn, "package `"@ + name + "` has a weak dependency on itself; drop the entry"@, a.span),
    )
}

pub open spec fn named_self(name: Seq<char>, items: Seq<PreambleItem>) -> Seq<DiagnosticView> {
    flat(stated(items, Tags::Weak), |a: StatedView| self_at(name, a))
}

pub open spec fn package_self(p: PackageView) -> Seq<DiagnosticView> {
    match p.name {
        Some(name) => named_self(name, p.items),
        None => Seq::empty(),
    }
}

pub open spec fn all_self(spec: SpecFile) -> Seq<DiagnosticView> {
    flat(packages(spec), |p: PackageView| package_self(p))
}

fn is_on(a: &DepAtom, name: &str) -> (r: bool)
    ensures
        r == (a.arch is None && plain_text(a.name) == Some(name@)),
{
    if a.arch.is_some() {
        return false;
    }
    match plain_str(&a.name) {
        Some(n) => same(n, name),
        None => false,
    }
}

fn check_named_self(name: &str, items: &Vec<&PreambleItem>, out: &mut Vec<Diagnostic>)
    ensures
        reports(final(out)@) == reports(old(out)@) + named_self(name@, preamble_views(items@)),
{
    let atoms = collect_atoms(items, Tags::Weak);
    let ghost v = stated_views(atoms@);
    let ghost f = |a: StatedView| self_at(name@, a);
    let ghost start = reports(out@);
    let mut i: usize = 0;
    assert(start + flat(v.take(0), f) == start);
    while i < atoms.len()
        invariant
            i <= atoms.len(),
            v == stated_views(atoms@),
            f == (|a: StatedView| self_at(name@, a)),
            reports(out@) == start + flat(v.take(i as int), f),
        decreases atoms.len() - i,
    {
        let ghost so_far = flat(v.take(i as int), f);
        let ghost here = f(v[i as int]);
        assert(v[i as int] == atoms@[i as int]@);
        if is_on(atoms[i].atom, name) {
            let mut message = String::from_str("package `");
            message.append(name);
            message.append("` has a weak dependency on itself; drop the entry");
            say(out, Diagnostic::new("RPM322", Severity::Warn, message.as_str(), atoms[i].span));
        } else {
            assert(so_far + here == so_far);
        }
        proof {
            lemma_flat_step(v, f, i as int);
            assert(start + so_far + here == start + (so_far + here));
        }
        i = i + 1;
    }
    assert(v.take(i as int) == v);
}

fn check_self(p: &Package, out: &mut Vec<Diagnostic>)
    ensures
        reports(final(out)@) == reports(old(out)@) + package_self(p@),
{
    match &p.name {
        Some(name) => {
            check_named_self(name.as_str(), &p.items, out);
        },
        None => {
            assert(reports(out@) + Seq::<DiagnosticView>::empty() == reports(out@));
        },
    }
}

/// RPM322 `self-weak-dependency`: A weak dependency names the package itself. RPM treats
/// self-dependencies as no-ops; the entry is almost always copy-paste from another spec.
#[derive(Debug)]
pub struct SelfWeakDependency {
    pub diagnostics: Vec<Diagnostic>,
}

impl SelfWeakDependency {
    pub fn new() -> (r: SelfWeakDependency)
        ensures
            r.pending() == Seq::<DiagnosticView>::empty(),
    {
        let r = SelfWeakDependency { diagnostics: Vec::new() };
        assert(r.pending() =~= Seq::<DiagnosticView>::empty());
        r
    }
}

impl Default for SelfWeakDependency {
    fn default() -> (r: SelfWeakDependency)
        ensures
            r.pending() == Seq::<DiagnosticView>::empty(),
    {
        SelfWeakDependency::new()
    }
}

impl Lint for SelfWeakDependency {
    open spec fn identity() -> Identity {
        Identity {
            id: "RPM322"@,
            name: "self-weak-dependency"@,
            description: "A weak dependency names the package itself. RPM treats self-dependencies as no-ops; the entry is almost always copy-paste from another spec."@,
            default_severity: Severity::Warn,
            category: LintCategory::Correctness,
        }
    }

    open spec fn pending(&self) -> Seq<DiagnosticView> {
        reports(self.diagnostics@)
    }

    open spec fn after(&self, spec: SpecFile) -> Seq<DiagnosticView> {
        self.pending() + all_self(spec)
    }

    open spec fn same_settings(&self, other: &Self) -> bool {
        true
    }

    fn metadata(&self) -> (r: LintMetadata) {
        LintMetadata {
            id: "RPM322",
            name: "self-weak-dependency",
            description: "A weak dependency names the package itself. RPM treats self-dependencies as no-ops; the entry is almost always copy-paste from another spec.",
            default_severity: Severity::Warn,
            category: LintCategory::Correctness,
        }
    }

    fn visit_spec(&mut self, spec: &SpecFile) {
        let all = iter_packages(spec);
        let ghost ps = packages(*spec);
        let ghost f = |p: PackageView| package_self(p);
        let ghost start = self.pending();
        let mut i: usize = 0;
        assert(start + flat(ps.take(0), f) == start);
        while i < all.len()
            invariant
                i <= all.len(),
                package_views(all@) == ps,
                f == (|p: PackageView| package_self(p)),
                self.pending() == start + flat(ps.take(i as int), f),
            decreases all.len() - i,
        {
            assert(ps[i as int] == all@[i as int]@);
            check_self(&all[i], &mut self.diagnostics);
            proof {
                lemma_flat_step(ps, f, i as int);
                let a = flat(ps.take(i as int), f);
                assert(start + a + f(ps[i as int]) == start + (a + f(ps[i as int])));
            }
            i = i + 1;
        }
        assert(ps.take(i as int) == ps);
    }

    fn take_diagnostics(&mut self) -> (r: Vec<Diagnostic>) {
        drain(&mut self.diagnostics)
    }
}

/// Whether a name is that of a tool that is of use only while building.
pub open spec fn is_build_tool(name: Seq<char>) -> bool {
    ||| name == "gcc"@
    ||| name == "g++"@
    ||| name == "clang"@
    ||| name == "make"@
    ||| name == "cmake"@
    ||| name == "meson"@
    ||| name == "ninja"@
    ||| name == "autoconf"@
    ||| name == "automake"@
    ||| name == "libtool"@
    ||| name == "rustc"@
    ||| name == "cargo"@
}

fn build_tool(name: &str) -> (r: bool)
    ensures
        r == is_build_tool(name@),
{
    same(name, "gcc") || same(name, "g++") || same(name, "clang") || same(name, "make") || same(name, "cmake") || same(name, "meson") || same(name, "ninja") || same(name, "autoconf") || same(name, "automake") || same(name, "libtool") || same(name, "rustc") || same(name, "cargo")
}

/// Why a dependency looks like one for building.
pub open spec fn smell(name: Seq<char>, qualified: bool) -> Option<Seq<char>> {
    if qualified && name == "pkgconfig"@ {
        Some("pkgconfig(...) capability"@)
    } else if qualified && name == "cmake"@ {
        Some("cmake(...) capability"@)
    } else if is_build_tool(name) {
        Some("known build tool"@)
    } else if name == "pkgconfig"@ {
        Some("pkgconfig build helper"@)
    } else if "-devel"@.is_suffix_of(name) || "-dev"@.is_suffix_of(name) {
        Some("development subpackage"@)
    } else if "-static"@.is_suffix_of(name) {
        Some("static-library subpackage"@)
    } else {
        None
    }
}

/// Why a dependency looks like one for building.
pub fn build_smell(name: &str, has_arch: bool) -> (r: Option<&'static str>)
    ensures
        opt_view(r) == smell(name@, has_arch),
{
    if has_arch && same(name, "pkgconfig") {
        return Some("pkgconfig(...) capability");
    }
    if has_arch && same(name, "cmake") {
        return Some("cmake(...) capability");
    }
    if build_tool(name) {
        return Some("known build tool");
    }
    if same(name, "pkgconfig") {
        return Some("pkgconfig build helper");
    }
    if has_suffix(name, "-devel") || has_suffix(name, "-dev") {
        return Some("development subpackage");
    }
    if has_suffix(name, "-static") {
        return Some("static-library subpackage");
    }
    None
}

/// The dependency as it is shown: with its qualifier, where that holds no
/// macro.
pub open spec fn shown(name: Seq<char>, arch: Option<Text>) -> Seq<char> {
    match arch {
        Some(t) => match t.literal() {
            Some(q) => name + "("@ + q + ")"@,
            None => name,
        },
        None => name,
    }
}

pub open spec fn runtime_report(a: StatedView, name: Seq<char>, reason: Seq<char>) -> DiagnosticView {
    plain("RPM323"@, Severity::Warn, "`Requires: "@ + shown(name, a.atom.arch) + "` looks like a build-time dependency ("@ + reason + "); move it to `BuildRequires:`"@, a.span)
}

pub open spec fn runtime_at(a: StatedView) -> Seq<DiagnosticView> {
    match plain_text(a.atom.name) {
        Some(name) => match smell(name, a.atom.arch is Some) {
            Some(reason) => seq![runtime_report(a, name, reason)],
            None => Seq::empty(),
        },
        None => Seq::empty(),
    }
}

pub open spec fn package_runtime(p: PackageView) -> Seq<DiagnosticView> {
    flat(stated(p.items, Tags::One(Tag::Requires)), |a: StatedView| runtime_at(a))
}

pub open spec fn all_runtime(spec: SpecFile) -> Seq<DiagnosticView> {
    flat(packages(spec), |p: PackageView| package_runtime(p))
}

fn check_runtime_atom(s: &Stated, out: &mut Vec<Diagnostic>)
    ensures
        reports(final(out)@) == reports(old(out)@) + runtime_at(s@),
{
    match plain_str(&s.atom.name) {
        Some(name) => match build_smell(name, s.atom.arch.is_some()) {
            Some(reason) => {
                let mut rendered = String::from_str(name);
                match &s.atom.arch {
                    Some(t) => match t.literal_str() {
                        Some(q) => {
                            rendered.append("(");
                            rendered.append(q);
                            rendered.append(")");
                        },
                        None => {},
                    },
                    None => {},
                }
                let mut message = String::from_str("`Requires: ");
                message.append(rendered.as_str());
                message.append("` looks like a build-time dependency (");
                message.append(reason);
                message.append("); move it to `BuildRequires:`");
                say(out, Diagnostic::new("RPM323", Severity::Warn, message.as_str(), s.span));
                return ;
            },
            None => {},
        },
        None => {},
    }
    assert(reports(out@) + Seq::<DiagnosticView>::empty() == reports(out@));
}

fn check_runtime(p: &Package, out: &mut Vec<Diagnostic>)
    ensures
        reports(final(out)@) == reports(old(out)@) + package_runtime(p@),
{
    let atoms = collect_atoms(&p.items, Tags::One(Tag::Requires));
    let ghost v = stated_views(atoms@);
    let ghost f = |a: StatedView| runtime_at(a);
    let ghost start = reports(out@);
    let mut i: usize = 0;
    assert(start + flat(v.take(0), f) == start);
    while i < atoms.len()
        invariant
            i <= atoms.len(),
            v == stated_views(atoms@),
            f == (|a: StatedView| runtime_at(a)),
            reports(out@) == start + flat(v.take(i as int), f),
        decreases atoms.len() - i,
    {
        assert(v[i as int] == atoms@[i as int]@);
        check_runtime_atom(&atoms[i], out);
        proof {
            lemma_flat_step(v, f, i as int);
            let a = flat(v.take(i as int), f);
            assert(start + a + f(v[i as int]) == start + (a + f(v[i as int])));
        }
        i = i + 1;
    }
    assert(v.take(i as int) == v);
}

/// RPM323 `runtime-requires-looks-like-build-requires`: `Requires:` mentions a build-only
/// tool (`gcc`, `cmake`, a `*-devel` package, a `pkgconfig(...)` capability, …). Move it to
/// `BuildRequires:`.
#[derive(Debug)]
pub struct RuntimeRequiresLooksLikeBuildRequires {
    pub diagnostics: Vec<Diagnostic>,
}

impl RuntimeRequiresLooksLikeBuildRequires {
    pub fn new() -> (r: RuntimeRequiresLooksLikeBuildRequires)
        ensures
            r.pending() == Seq::<DiagnosticView>::empty(),
    {
        let r = RuntimeRequiresLooksLikeBuildRequires { diagnostics: Vec::new() };
        assert(r.pending() =~= Seq::<DiagnosticView>::empty());
        r
    }
}

impl Default for RuntimeRequiresLooksLikeBuildRequires {
    fn default() -> (r: RuntimeRequiresLooksLikeBuildRequires)
        ensures
            r.pending() == Seq::<DiagnosticView>::empty(),
    {
        RuntimeRequiresLooksLikeBuildRequires::new()
    }
}

impl Lint for RuntimeRequiresLooksLikeBuildRequires {
    open spec fn identity() -> Identity {
        Identity {
            id: "RPM323"@,
            name: "runtime-requires-looks-like-build-requires"@,
            description: "`Requires:` mentions a build-only tool (`gcc`, `cmake`, a `*-devel` package, a `pkgconfig(...)` capability, …). Move it to `BuildRequires:`."@,
            default_severity: Severity::Warn,
            category: LintCategory::Correctness,
        }
    }

    open spec fn pending(&self) -> Seq<DiagnosticView> {
        reports(self.diagnostics@)
    }

    open spec fn after(&self, spec: SpecFile) -> Seq<DiagnosticView> {
        self.pending() + all_runtime(spec)
    }

    open spec fn same_settings(&self, other: &Self) -> bool {
        true
    }

    fn metadata(&self) -> (r: LintMetadata) {
        LintMetadata {
            id: "RPM323",
            name: "runtime-requires-looks-like-build-requires",
            description: "`Requires:` mentions a build-only tool (`gcc`, `cmake`, a `*-devel` package, a `pkgconfig(...)` capability, …). Move it to `BuildRequires:`.",
            default_severity: Severity::Warn,
            category: LintCategory::Correctness,
        }
    }

    fn visit_spec(&mut self, spec: &SpecFile) {
        let all = iter_packages(spec);
        let ghost ps = packages(*spec);
        let ghost f = |p: PackageView| package_runtime(p);
        let ghost start = self.pending();
        let mut i: usize = 0;
        assert(start + flat(ps.take(0), f) == start);
        while i < all.len()
            invariant
                i <= all.len(),
                package_views(all@) == ps,
                f == (|p: PackageView| package_runtime(p)),
                self.pending() == start + flat(ps.take(i as int), f),
            decreases all.len() - i,
        {
            assert(ps[i as int] == all@[i as int]@);
            check_runtime(&all[i], &mut self.diagnostics);
            proof {
                lemma_flat_step(ps, f, i as int);
                let a = flat(ps.take(i as int), f);
                assert(start + a + f(ps[i as int]) == start + (a + f(ps[i as int])));
            }
            i = i + 1;
        }
        assert(ps.take(i as int) == ps);
    }

    fn take_diagnostics(&mut self) -> (r: Vec<Diagnostic>) {
        drain(&mut self.diagnostics)
    }
}

/// Two dependencies are on the same: literal names that agree, and no
/// qualifiers or literal ones that agree.
pub open spec fn on_the_same(a: DepAtom, b: DepAtom) -> bool {
    &&& same_literal(a.name, b.name)
    &&& a.name.literal() matches Some(s) && trim(s).len() > 0
    &&& same_optional(a.arch, b.arch)
}

proof fn lemma_keys(a: DepAtom, b: DepAtom)
    ensures
        key_of(a) is Some && key_of(a) == key_of(b) <==> on_the_same(a, b),
{
}

proof fn lemma_names_key(atoms: Seq<StatedView>, n: int, a: DepAtom)
    requires
        0 <= n <= atoms.len(),
    ensures
        key_of(a) is Some && names_key(atoms, n, key_of(a).unwrap()) <==> exists|j: int|
            0 <= j < n && on_the_same((#[trigger] atoms[j]).atom, a),
{
    if key_of(a) is Some && names_key(atoms, n, key_of(a).unwrap()) {
        let j = choose|j: int| 0 <= j < n && key_of((#[trigger] atoms[j]).atom) == key_of(a);
        lemma_keys(atoms[j].atom, a);
    }
    if exists|j: int| 0 <= j < n && on_the_same((#[trigger] atoms[j]).atom, a) {
        let j = choose|j: int| 0 <= j < n && on_the_same((#[trigger] atoms[j]).atom, a);
        lemma_keys(atoms[j].atom, a);
        assert(key_of(atoms[j].atom) == key_of(a));
    }
}

/// Dependency `n` repeats one before it.
pub open spec fn is_repeated(atoms: Seq<StatedView>, n: int) -> bool {
    exists|j: int| 0 <= j < n && on_the_same((#[trigger] atoms[j]).atom, atoms[n].atom)
}

proof fn lemma_duplicates(tag: Tag, atoms: Seq<StatedView>, n: nat, span: Span)
    requires
        n <= atoms.len(),
    ensures
        says_at(duplicates(tag, atoms, n), span) <==> exists|i: int|
            0 <= i < n && is_repeated(atoms, i) && (#[trigger] atoms[i]).span == span,
    decreases n,
{
    if n > 0 {
        let m = (n - 1) as nat;
        let a = atoms[n - 1].atom;
        lemma_duplicates(tag, atoms, m, span);
        lemma_says_either(duplicates(tag, atoms, m), duplicate_at(tag, atoms, n - 1), span);
        lemma_names_key(atoms, n - 1, a);
        match key_of(a) {
            Some(k) => lemma_says_given(
                names_key(atoms, n - 1, k),
                duplicate_report(tag, k, atoms[n - 1].span),
                span,
            ),
            None => {},
        }
        if says_at(duplicates(tag, atoms, m), span) {
            let i = choose|i: int|
                0 <= i < m && is_repeated(atoms, i) && (#[trigger] atoms[i]).span == span;
            assert(0 <= i < n);
        }
        if exists|i: int| 0 <= i < n && is_repeated(atoms, i) && (#[trigger] atoms[i]).span == span {
            let i = choose|i: int|
                0 <= i < n && is_repeated(atoms, i) && (#[trigger] atoms[i]).span == span;
            if i < m {
                assert(0 <= i < m);
            }
        }
    }
}

/// A dependency is reported as a duplicate exactly if one before it, under the
/// same tag of the same package, is on the same.
pub proof fn repeated_dependencies_are_reported(items: Seq<PreambleItem>, tag: Tag, span: Span)
    ensures
        says_at(class_duplicates(items, tag), span) <==> exists|i: int|
            0 <= i < stated(items, Tags::One(tag)).len() && is_repeated(
                stated(items, Tags::One(tag)),
                i,
            ) && (#[trigger] stated(items, Tags::One(tag))[i]).span == span,
{
    let atoms = stated(items, Tags::One(tag));
    lemma_duplicates(tag, atoms, atoms.len(), span);
}

/// A weak dependency is reported as shadowed exactly if a `Requires:` of the
/// same package is on the same.
pub proof fn shadowed_dependencies_are_reported(items: Seq<PreambleItem>, tag: Tag, span: Span)
    ensures
        says_at(class_shadowed(items, tag), span) <==> exists|i: int, j: int|
            #![trigger stated(items, Tags::One(tag))[i], stated(items, Tags::One(Tag::Requires))[j]]
            {
                &&& 0 <= i < stated(items, Tags::One(tag)).len()
                &&& 0 <= j < stated(items, Tags::One(Tag::Requires)).len()
                &&& on_the_same(
                    stated(items, Tags::One(Tag::Requires))[j].atom,
                    stated(items, Tags::One(tag))[i].atom,
                )
                &&& stated(items, Tags::One(tag))[i].span == span
            },
{
    let weak = stated(items, Tags::One(tag));
    let strong = stated(items, Tags::One(Tag::Requires));
    let f = |a: StatedView| shadowed_at(tag, strong, a);
    lemma_says_flat(weak, f, span);
    assert forall|i: int| 0 <= i < weak.len() implies (says_at(f(#[trigger] weak[i]), span) <==> (
    exists|j: int| 0 <= j < strong.len() && on_the_same((#[trigger] strong[j]).atom, weak[i].atom))
        && weak[i].span == span) by {
        lemma_names_key(strong, strong.len() as int, weak[i].atom);
        match key_of(weak[i].atom) {
            Some(k) => lemma_says_given(
                names_key(strong, strong.len() as int, k),
                shadowed_report(tag, k, weak[i].span),
                span,
            ),
            None => {},
        }
    }
    if says_at(class_shadowed(items, tag), span) {
        let i = choose|i: int| 0 <= i < weak.len() && says_at(f(#[trigger] weak[i]), span);
        let j = choose|j: int|
            0 <= j < strong.len() && on_the_same((#[trigger] strong[j]).atom, weak[i].atom);
        assert(on_the_same(strong[j].atom, weak[i].atom));
    }
    if exists|i: int, j: int|
        #![trigger weak[i], strong[j]]
        0 <= i < weak.len() && 0 <= j < strong.len() && on_the_same(strong[j].atom, weak[i].atom)
            && weak[i].span == span {
        let (i, j) = choose|i: int, j: int|
            #![trigger weak[i], strong[j]]
            0 <= i < weak.len() && 0 <= j < strong.len() && on_the_same(
                strong[j].atom,
                weak[i].atom,
            ) && weak[i].span == span;
        assert(says_at(f(weak[i]), span));
    }
}

/// A weak dependency is reported exactly if it is on the package itself,
/// without a qualifier.
pub proof fn self_dependencies_are_reported(p: PackageView, span: Span)
    ensures
        says_at(package_self(p), span) <==> (p.name matches Some(name) && exists|i: int|
            0 <= i < stated(p.items, Tags::Weak).len() && ((#[trigger] stated(
                p.items,
                Tags::Weak,
            )[i]).atom.name.literal() matches Some(s) && trim(s) == name) && stated(
                p.items,
                Tags::Weak,
            )[i].atom.arch is None && stated(p.items, Tags::Weak)[i].span == span),
{
    match p.name {
        Some(name) => {
            let weak = stated(p.items, Tags::Weak);
            let f = |a: StatedView| self_at(name, a);
            lemma_says_flat(weak, f, span);
            assert forall|i: int| 0 <= i < weak.len() implies (says_at(f(#[trigger] weak[i]), span)
                <==> (weak[i].atom.name.literal() matches Some(s) && trim(s) == name)
                && weak[i].atom.arch is None && weak[i].span == span) by {
                let a = weak[i];
                lemma_says_given(
                    a.atom.arch is None && plain_text(a.atom.name) == Some(name),
                    plain("RPM322"@, Severity::Warn, "package `"@ + name + "` has a weak dependency on itself; drop the entry"@, a.span),
                    span,
                );
            }
            if says_at(package_self(p), span) {
                let i = choose|i: int| 0 <= i < weak.len() && says_at(f(#[trigger] weak[i]), span);
                assert(weak[i].span == span);
            }
        },
        None => {},
    }
}

/// A name is that of something for building: a compiler or a build tool,
/// `pkgconfig`, or a package for development or static linking.
pub open spec fn is_for_building(name: Seq<char>) -> bool {
    ||| name == "gcc"@ || name == "g++"@ || name == "clang"@ || name == "rustc"@ || name == "cargo"@
    ||| name == "make"@ || name == "cmake"@ || name == "meson"@ || name == "ninja"@
    ||| name == "autoconf"@ || name == "automake"@ || name == "libtool"@
    ||| name == "pkgconfig"@
    ||| exists|stem: Seq<char>|
        name == #[trigger] (stem + "-devel"@) || name == stem + "-dev"@ || name == stem + "-static"@
}

/// A runtime dependency is reported exactly if its name is that of something
/// for building.
pub proof fn dependencies_for_building_are_reported(p: PackageView, span: Span)
    ensures
        says_at(package_runtime(p), span) <==> exists|i: int|
            0 <= i < stated(p.items, Tags::One(Tag::Requires)).len() && ((#[trigger] stated(
                p.items,
                Tags::One(Tag::Requires),
            )[i]).atom.name.literal() matches Some(s) && is_for_building(trim(s))) && stated(
                p.items,
                Tags::One(Tag::Requires),
            )[i].span == span,
{
    let all = stated(p.items, Tags::One(Tag::Requires));
    let f = |a: StatedView| runtime_at(a);
    lemma_says_flat(all, f, span);
    assert forall|i: int| 0 <= i < all.len() implies (says_at(f(#[trigger] all[i]), span) <==> (
    all[i].atom.name.literal() matches Some(s) && is_for_building(trim(s))) && all[i].span == span) by {
        let a = all[i];
        match a.atom.name.literal() {
            Some(s) => {
                let name = trim(s);
                lemma_smell(name, a.atom.arch is Some);
                match smell(name, a.atom.arch is Some) {
                    Some(reason) => lemma_says_one(runtime_report(a, name, reason), span),
                    None => {},
                }
            },
            None => {},
        }
    }
    if says_at(package_runtime(p), span) {
        let i = choose|i: int| 0 <= i < all.len() && says_at(f(#[trigger] all[i]), span);
        assert(all[i].span == span);
    }
}

proof fn lemma_suffix(name: Seq<char>, t: Seq<char>)
    ensures
        t.is_suffix_of(name) <==> exists|stem: Seq<char>| name == #[trigger] (stem + t),
{
    if t.is_suffix_of(name) {
        let stem = name.take(name.len() - t.len());
        assert(name =~= stem + t);
    }
    if exists|stem: Seq<char>| name == #[trigger] (stem + t) {
        let stem = choose|stem: Seq<char>| name == #[trigger] (stem + t);
        assert(t =~= name.subrange(name.len() - t.len(), name.len() as int));
    }
}

proof fn lemma_smell(name: Seq<char>, qualified: bool)
    ensures
        smell(name, qualified) is Some <==> is_for_building(name),
{
    lemma_suffix(name, "-devel"@);
    lemma_suffix(name, "-dev"@);
    lemma_suffix(name, "-static"@);
    if "-devel"@.is_suffix_of(name) {
        let stem = choose|stem: Seq<char>| name == #[trigger] (stem + "-devel"@);
        assert(name == stem + "-devel"@);
    }
    if "-dev"@.is_suffix_of(name) {
        let stem = choose|stem: Seq<char>| name == #[trigger] (stem + "-dev"@);
        let other = stem + "-devel"@;
        assert(name == stem + "-dev"@);
    }
    if "-static"@.is_suffix_of(name) {
        let stem = choose|stem: Seq<char>| name == #[trigger] (stem + "-static"@);
        let other = stem + "-devel"@;
        assert(name == stem + "-static"@);
    }
    if exists|stem: Seq<char>|
        name == #[trigger] (stem + "-devel"@) || name == stem + "-dev"@ || name == stem + "-static"@ {
        let stem = choose|stem: Seq<char>|
            name == #[trigger] (stem + "-devel"@) || name == stem + "-dev"@ || name == stem
                + "-static"@;
        if name == stem + "-dev"@ {
            assert(exists|t: Seq<char>| name == #[trigger] (t + "-dev"@));
        } else if name == stem + "-static"@ {
            assert(exists|t: Seq<char>| name == #[trigger] (t + "-static"@));
        }
    }
}

/// All packages and all tags are looked into: for duplicates every tag of
/// dependencies, for weak dependencies the four weak ones.
pub proof fn every_package_is_checked(spec: SpecFile, span: Span)
    ensures
        says_at(all_duplicates(spec), span) <==> exists|i: int, tag: Tag|
            #![trigger class_duplicates(packages(spec)[i].items, tag)]
            0 <= i < packages(spec).len() && (tag is Requires || tag is BuildRequires
                || tag is Provides || tag is Conflicts || tag is Obsoletes || tag is Recommends
                || tag is Suggests || tag is Supplements || tag is Enhances) && says_at(
                class_duplicates(packages(spec)[i].items, tag),
                span,
            ),
        says_at(all_shadowed(spec), span) <==> exists|i: int, tag: Tag|
            #![trigger class_shadowed(packages(spec)[i].items, tag)]
            0 <= i < packages(spec).len() && (tag is Recommends || tag is Suggests
                || tag is Supplements || tag is Enhances) && says_at(
                class_shadowed(packages(spec)[i].items, tag),
                span,
            ),
        says_at(all_self(spec), span) <==> exists|i: int|
            0 <= i < packages(spec).len() && says_at(
                package_self(#[trigger] packages(spec)[i]),
                span,
            ),
        says_at(all_runtime(spec), span) <==> exists|i: int|
            0 <= i < packages(spec).len() && says_at(
                package_runtime(#[trigger] packages(spec)[i]),
                span,
            ),
{
    let ps = packages(spec);
    lemma_checked_duplicates(spec, span);
    lemma_checked_shadowed(spec, span);
    lemma_says_flat(ps, |p: PackageView| package_self(p), span);
    lemma_says_flat(ps, |p: PackageView| package_runtime(p), span);
    let f = |p: PackageView| package_self(p);
    let g = |p: PackageView| package_runtime(p);
    assert forall|i: int| 0 <= i < ps.len() implies f(#[trigger] ps[i]) == package_self(ps[i])
        && g(ps[i]) == package_runtime(ps[i]) by {}
    if says_at(all_self(spec), span) {
        let i = choose|i: int| 0 <= i < ps.len() && says_at(f(#[trigger] ps[i]), span);
        assert(says_at(package_self(ps[i]), span));
    }
    if says_at(all_runtime(spec), span) {
        let i = choose|i: int| 0 <= i < ps.len() && says_at(g(#[trigger] ps[i]), span);
        assert(says_at(package_runtime(ps[i]), span));
    }
    if exists|i: int| 0 <= i < ps.len() && says_at(package_self(#[trigger] ps[i]), span) {
        let i = choose|i: int| 0 <= i < ps.len() && says_at(package_self(#[trigger] ps[i]), span);
        assert(says_at(f(ps[i]), span));
    }
    if exists|i: int| 0 <= i < ps.len() && says_at(package_runtime(#[trigger] ps[i]), span) {
        let i = choose|i: int| 0 <= i < ps.len() && says_at(package_runtime(#[trigger] ps[i]), span);
        assert(says_at(g(ps[i]), span));
    }
}

proof fn lemma_checked_duplicates(spec: SpecFile, span: Span)
    ensures
        says_at(all_duplicates(spec), span) <==> exists|i: int, tag: Tag|
            #![trigger class_duplicates(packages(spec)[i].items, tag)]
            0 <= i < packages(spec).len() && (tag is Requires || tag is BuildRequires
                || tag is Provides || tag is Conflicts || tag is Obsoletes || tag is Recommends
                || tag is Suggests || tag is Supplements || tag is Enhances) && says_at(
                class_duplicates(packages(spec)[i].items, tag),
                span,
            ),
{
    let ps = packages(spec);
    let f = |p: PackageView| package_duplicates(p);
    let ts = dep_classes();
    lemma_says_flat(ps, f, span);
    if says_at(all_duplicates(spec), span) {
        let i = choose|i: int| 0 <= i < ps.len() && says_at(f(#[trigger] ps[i]), span);
        let g = |t: Tag| class_duplicates(ps[i].items, t);
        lemma_says_flat(ts, g, span);
        let k = choose|k: int| 0 <= k < ts.len() && says_at(g(#[trigger] ts[k]), span);
        assert(says_at(class_duplicates(packages(spec)[i].items, ts[k]), span));
    }
    if exists|i: int, tag: Tag|
        #![trigger class_duplicates(ps[i].items, tag)]
        0 <= i < ps.len() && (tag is Requires || tag is BuildRequires || tag is Provides
            || tag is Conflicts || tag is Obsoletes || tag is Recommends || tag is Suggests
            || tag is Supplements || tag is Enhances) && says_at(
            class_duplicates(ps[i].items, tag),
            span,
        ) {
        let (i, tag) = choose|i: int, tag: Tag|
            #![trigger class_duplicates(ps[i].items, tag)]
            0 <= i < ps.len() && (tag is Requires || tag is BuildRequires || tag is Provides
                || tag is Conflicts || tag is Obsoletes || tag is Recommends || tag is Suggests
                || tag is Supplements || tag is Enhances) && says_at(
                class_duplicates(ps[i].items, tag),
                span,
            );
        let g = |t: Tag| class_duplicates(ps[i].items, t);
        lemma_says_flat(ts, g, span);
        assert(ts[0] == Tag::Requires && ts[1] == Tag::BuildRequires && ts[2] == Tag::Provides
            && ts[3] == Tag::Conflicts && ts[4] == Tag::Obsoletes && ts[5] == Tag::Recommends
            && ts[6] == Tag::Suggests && ts[7] == Tag::Supplements && ts[8] == Tag::Enhances);
        assert(exists|k: int| 0 <= k < ts.len() && #[trigger] ts[k] == tag);
        let k = choose|k: int| 0 <= k < ts.len() && #[trigger] ts[k] == tag;
        assert(says_at(g(ts[k]), span));
        assert(says_at(f(ps[i]), span));
    }
}

proof fn lemma_checked_shadowed(spec: SpecFile, span: Span)
    ensures
        says_at(all_shadowed(spec), span) <==> exists|i: int, tag: Tag|
            #![trigger class_shadowed(packages(spec)[i].items, tag)]
            0 <= i < packages(spec).len() && (tag is Recommends || tag is Suggests
                || tag is Supplements || tag is Enhances) && says_at(
                class_shadowed(packages(spec)[i].items, tag),
                span,
            ),
{
    let ps = packages(spec);
    let f = |p: PackageView| package_shadowed(p);
    let ts = weak_classes();
    lemma_says_flat(ps, f, span);
    if says_at(all_shadowed(spec), span) {
        let i = choose|i: int| 0 <= i < ps.len() && says_at(f(#[trigger] ps[i]), span);
        let g = |t: Tag| class_shadowed(ps[i].items, t);
        lemma_says_flat(ts, g, span);
        let k = choose|k: int| 0 <= k < ts.len() && says_at(g(#[trigger] ts[k]), span);
        assert(says_at(class_shadowed(packages(spec)[i].items, ts[k]), span));
    }
    if exists|i: int, tag: Tag|
        #![trigger class_shadowed(ps[i].items, tag)]
        0 <= i < ps.len() && (tag is Recommends || tag is Suggests || tag is Supplements
            || tag is Enhances) && says_at(class_shadowed(ps[i].items, tag), span) {
        let (i, tag) = choose|i: int, tag: Tag|
            #![trigger class_shadowed(ps[i].items, tag)]
            0 <= i < ps.len() && (tag is Recommends || tag is Suggests || tag is Supplements
                || tag is Enhances) && says_at(class_shadowed(ps[i].items, tag), span);
        let g = |t: Tag| class_shadowed(ps[i].items, t);
        lemma_says_flat(ts, g, span);
        assert(ts[0] == Tag::Recommends && ts[1] == Tag::Suggests && ts[2] == Tag::Supplements
            && ts[3] == Tag::Enhances);
        assert(exists|k: int| 0 <= k < ts.len() && #[trigger] ts[k] == tag);
        let k = choose|k: int| 0 <= k < ts.len() && #[trigger] ts[k] == tag;
        assert(says_at(g(ts[k]), span));
        assert(says_at(f(ps[i]), span));
    }
}

} // verus!
