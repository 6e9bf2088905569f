//! Guarded copies of a dependency that together leave no case out.
use vstd::prelude::*;

use crate::ast::{
    Conditional, DepExpr, Item, PreambleItem, Section, Span, SpecFile, Tag, TagValue,
};
use crate::condition::{AtomTable, Converted, string_texts};
use crate::diagnostic::{Diagnostic, DiagnosticView, LintCategory, Severity, plain, reports};
use crate::dnf::{
    AtomId, Dnf, Literal, MAX_ATOMS_FOR_TAUTOLOGY, covers, cube_holds, dnf_holds, is_tautology,
};
use crate::laws::{sound, truth_table_decides, union_means_or, valuation, within};
use crate::lint::{Identity, Lint, LintMetadata, drain};
use crate::names::{in_order, insert_name, ordering_keeps_the_names};
use crate::packages::{
    atom_text, dep_atom_text, dep_label, is_tidy, label_of_dep, labels_tell_tags_apart,
    lemma_parted_by, same_dependency, texts_tell_dependencies_apart,
};
use crate::path_cond::{
    MAX_PATH_STACK_DEPTH, always, branch_effect, branch_effective_dnf, compute_frame, current,
    current_path, else_effect, else_effective_dnf, frame, push_frame, stack_view,
    stack_wf,
};
use crate::path_laws::{
    describes, lemma_branch_entered, lemma_describes_more, lemma_effect_grows,
    lemma_else_entered, lemma_enter, lemma_means_more, lemma_minus_grows, lemma_prefix_chain, means,
    reached,
};
use crate::rules::say;
use crate::text::opt_string;
use crate::walk::{StepView, flat, lemma_flat_contains, lemma_flat_step};
use crate::report_laws::{lemma_says_flat, says_at};

verus! {

/// A guarded dependency and what holds where it stands.
#[derive(Debug)]
pub struct Occurrence {
    /// The tag and the dependency, as `Requires: foo`.
    pub entry: String,
    pub path: Dnf,
    pub span: Span,
}

pub struct OccurrenceView {
    pub entry: Seq<char>,
    pub path: Set<Set<Literal>>,
    pub span: Span,
}

impl View for Occurrence {
    type V = OccurrenceView;

    open spec fn view(&self) -> OccurrenceView {
        OccurrenceView { entry: self.entry@, path: self.path@, span: self.span }
    }
}

pub open spec fn occurrence_views(v: Seq<Occurrence>) -> Seq<OccurrenceView> {
    v.map_values(|o: Occurrence| o@)
}

pub open spec fn occurrences_wf(v: Seq<Occurrence>) -> bool {
    forall|i: int| 0 <= i < v.len() ==> (#[trigger] v[i]).path.wf()
}

/// The tag and the dependency of a line with a single dependency without
/// macros.
pub open spec fn entry_of(p: PreambleItem) -> Option<Seq<char>> {
    match (dep_label(p.tag), p.value) {
        (Some(label), TagValue::Dep(DepExpr::Atom(a))) => match atom_text(a) {
            Some(t) => Some(label + ": "@ + t),
            None => None,
        },
        _ => None,
    }
}

/// The occurrence that a line is, where it is guarded by known conditions
/// that can hold.
pub open spec fn occurrence_of(p: PreambleItem, stack: Seq<Option<Set<Set<Literal>>>>) -> Seq<OccurrenceView> {
    match (entry_of(p), current(stack)) {
        (Some(entry), Some(path)) => if path != Set::<Set<Literal>>::empty() {
            seq![OccurrenceView { entry, path, span: p.data }]
        } else {
            Seq::empty()
        },
        _ => Seq::empty(),
    }
}

/// The atoms met and the dependencies found so far.
pub struct Found {
    pub keys: Seq<Seq<char>>,
    pub occs: Seq<OccurrenceView>,
}

pub open spec fn found_items(items: Seq<Item>, stack: Seq<Option<Set<Set<Literal>>>>, f: Found) -> Found
    decreases items, 0int,
{
    if items.len() == 0 || stack.len() >= MAX_PATH_STACK_DEPTH {
        f
    } else {
        found_item(items.last(), stack, found_items(items.drop_last(), stack, f))
    }
}

pub open spec fn found_item(item: Item, stack: Seq<Option<Set<Set<Literal>>>>, f: Found) -> Found
    decreases item, 0int,
{
    match item {
        Item::Preamble(p) => Found { keys: f.keys, occs: f.occs + occurrence_of(p, stack) },
        Item::Conditional(c) => found_cond(c, stack, f),
        _ => f,
    }
}

pub open spec fn found_cond(c: Conditional, stack: Seq<Option<Set<Set<Literal>>>>, f: Found) -> Found
    decreases c, c.branches@.len() + 1,
{
    let g = found_arms(c, stack, f, c.branches@.len());
    match c.otherwise {
        None => g,
        Some(body) => {
            let e = else_effect(c.branches@, g.keys);
            found_items(body@, stack.push(frame(stack, e.dnf)), Found { keys: e.keys, occs: g.occs })
        },
    }
}

pub open spec fn found_arms(c: Conditional, stack: Seq<Option<Set<Set<Literal>>>>, f: Found, n: nat) -> Found
    decreases c, n,
{
    if n == 0 || n > c.branches@.len() {
        f
    } else {
        let g = found_arms(c, stack, f, (n - 1) as nat);
        let b = c.branches@[n - 1];
        let e = branch_effect(b, c.branches@.take(n - 1), g.keys);
        found_items(b.body@, stack.push(frame(stack, e.dnf)), Found { keys: e.keys, occs: g.occs })
    }
}

/// The guarded dependencies of a list of items.
pub open spec fn found_in(items: Seq<Item>) -> Found {
    found_items(items, Seq::empty(), Found { keys: Seq::empty(), occs: Seq::empty() })
}

/// The occurrences of one entry.
pub open spec fn group(occs: Seq<OccurrenceView>, entry: Seq<char>) -> Seq<OccurrenceView>
    decreases occs.len(),
{
    if occs.len() == 0 {
        Seq::empty()
    } else if occs.last().entry == entry {
        group(occs.drop_last(), entry).push(occs.last())
    } else {
        group(occs.drop_last(), entry)
    }
}

/// The cubes of all paths.
pub open spec fn paths_union(g: Seq<OccurrenceView>) -> Set<Set<Literal>>
    decreases g.len(),
{
    if g.len() == 0 {
        Set::empty()
    } else {
        paths_union(g.drop_last()).union(g.last().path)
    }
}

pub open spec fn guard_report(o: OccurrenceView) -> DiagnosticView {
    plain("RPM452"@, Severity::Warn, "`"@ + o.entry + "` is paired with complementary guards covering every assignment — make it unconditional"@, o.span).advise(
        "drop the guards and list this entry once at the top level"@,
    )
}

/// Whether at least two occurrences together cover every assignment to the
/// `n` atoms, as far as they are enumerated.
pub open spec fn is_covering(g: Seq<OccurrenceView>, n: nat) -> bool {
    g.len() >= 2 && n <= MAX_ATOMS_FOR_TAUTOLOGY && covers(paths_union(g), n)
}

pub open spec fn group_findings(occs: Seq<OccurrenceView>, entry: Seq<char>, n: nat) -> Seq<DiagnosticView> {
    let g = group(occs, entry);
    if is_covering(g, n) {
        g.map_values(|o: OccurrenceView| guard_report(o))
    } else {
        Seq::empty()
    }
}

/// The entries, in order, each once.
pub open spec fn entries(occs: Seq<OccurrenceView>) -> Seq<Seq<char>> {
    in_order(occs.map_values(|o: OccurrenceView| o.entry))
}

/// The reports on a list of items, entry by entry.
pub open spec fn guard_findings(items: Seq<Item>) -> Seq<DiagnosticView> {
    let f = found_in(items);
    flat(entries(f.occs), |e: Seq<char>| group_findings(f.occs, e, f.keys.len()))
}

pub open spec fn package_findings(item: Item) -> Seq<DiagnosticView> {
    match item {
        Item::Section(s) => match *s {
            Section::Package { content, .. } => guard_findings(content@),
            _ => Seq::empty(),
        },
        _ => Seq::empty(),
    }
}

/// The reports on the main package, then on the subpackages.
pub open spec fn all_findings(spec: SpecFile) -> Seq<DiagnosticView> {
    guard_findings(spec.items@) + flat(spec.items@, |i: Item| package_findings(i))
}

fn entry_text(p: &PreambleItem) -> (r: Option<String>)
    ensures
        opt_string(r) == entry_of(*p),
{
    let label = match label_of_dep(p.tag) {
        Some(l) => l,
        None => {
            return None;
        },
    };
    match &p.value {
        TagValue::Dep(DepExpr::Atom(a)) => match dep_atom_text(a) {
            Some(t) => {
                let mut s = String::from_str(label);
                s.append(": ");
                s.append(t.as_str());
                Some(s)
            },
            None => None,
        },
        _ => None,
    }
}

fn record_preamble(p: &PreambleItem, stack: &Vec<Option<Dnf>>, occs: &mut Vec<Occurrence>)
    requires
        stack_wf(stack@),
        occurrences_wf(old(occs)@),
    ensures
        occurrences_wf(final(occs)@),
        occurrence_views(final(occs)@) == occurrence_views(old(occs)@) + occurrence_of(
            *p,
            stack_view(stack@),
        ),
{
    match (entry_text(p), current_path(stack)) {
        (Some(entry), Some(path)) => {
            if !path.is_empty() {
                let o = Occurrence { entry, path: path.copy(), span: p.data };
                let ghost ov = o@;
                occs.push(o);
                assert(occurrence_views(occs@) =~= occurrence_views(old(occs)@) + seq![ov]);
                return ;
            }
        },
        _ => {},
    }
    assert(occurrence_views(occs@) + Seq::<OccurrenceView>::empty() =~= occurrence_views(occs@));
}

fn walk_items(
    items: &Vec<Item>,
    stack: &mut Vec<Option<Dnf>>,
    atoms: &mut AtomTable,
    occs: &mut Vec<Occurrence>,
)
    requires
        stack_wf(old(stack)@),
        occurrences_wf(old(occs)@),
    ensures
        final(stack)@ == old(stack)@,
        occurrences_wf(final(occs)@),
        (Found { keys: final(atoms)@, occs: occurrence_views(final(occs)@) }) == found_items(
            items@,
            stack_view(old(stack)@),
            Found { keys: old(atoms)@, occs: occurrence_views(old(occs)@) },
        ),
    decreases items, 0int,
{
    if stack.len() >= MAX_PATH_STACK_DEPTH {
        return ;
    }
    let ghost st = stack_view(stack@);
    let ghost f0 = Found { keys: atoms@, occs: occurrence_views(occs@) };
    let mut i: usize = 0;
    while i < items.len()
        invariant
            i <= items.len(),
            stack@ == old(stack)@,
            stack_wf(stack@),
            st == stack_view(stack@),
            st.len() < MAX_PATH_STACK_DEPTH,
            occurrences_wf(occs@),
            (Found { keys: atoms@, occs: occurrence_views(occs@) }) == found_items(
                items@.take(i as int),
                st,
                f0,
            ),
        decreases items.len() - i,
    {
        proof {
            assert(items@.take(i + 1).drop_last() == items@.take(i as int));
            assert(items@.take(i + 1).last() == items@[i as int]);
        }
        let ghost f = Found { keys: atoms@, occs: occurrence_views(occs@) };
        match &items[i] {
            Item::Preamble(p) => {
                record_preamble(p, stack, occs);
            },
            Item::Conditional(c) => {
                walk_cond(c, stack, atoms, occs);
            },
            _ => {},
        }
        assert((Found { keys: atoms@, occs: occurrence_views(occs@) }) == found_item(
            items@[i as int],
            st,
            f,
        ));
        i = i + 1;
    }
    assert(items@.take(i as int) == items@);
}

fn walk_cond(
    c: &Conditional,
    stack: &mut Vec<Option<Dnf>>,
    atoms: &mut AtomTable,
    occs: &mut Vec<Occurrence>,
)
    requires
        stack_wf(old(stack)@),
        occurrences_wf(old(occs)@),
    ensures
        final(stack)@ == old(stack)@,
        occurrences_wf(final(occs)@),
        (Found { keys: final(atoms)@, occs: occurrence_views(final(occs)@) }) == found_cond(
            *c,
            stack_view(old(stack)@),
            Found { keys: old(atoms)@, occs: occurrence_views(old(occs)@) },
        ),
    decreases c, 0int,
{
    let ghost st = stack_view(stack@);
    let ghost f0 = Found { keys: atoms@, occs: occurrence_views(occs@) };
    let mut i: usize = 0;
    while i < c.branches.len()
        invariant
            i <= c.branches.len(),
            stack@ == old(stack)@,
            stack_wf(stack@),
            st == stack_view(stack@),
            occurrences_wf(occs@),
            (Found { keys: atoms@, occs: occurrence_views(occs@) }) == found_arms(*c, st, f0, i as nat),
        decreases c.branches.len() - i,
    {
        let effect = branch_effective_dnf(&c.branches, i, atoms);
        let f = compute_frame(stack, effect);
        push_frame(stack, f);
        walk_items(&c.branches[i].body, stack, atoms, occs);
        let _top = stack.pop();
        assert(stack@ == old(stack)@);
        i = i + 1;
    }
    match &c.otherwise {
        Some(body) => {
            let effect = else_effective_dnf(&c.branches, atoms);
            let f = compute_frame(stack, effect);
            push_frame(stack, f);
            walk_items(body, stack, atoms, occs);
            let _top = stack.pop();
            assert(stack@ == old(stack)@);
        },
        None => {},
    }
}

fn ordered_entries(occs: &Vec<Occurrence>) -> (r: Vec<String>)
    ensures
        string_texts(r@) == entries(occurrence_views(occs@)),
{
    let ghost keys = occurrence_views(occs@).map_values(|o: OccurrenceView| o.entry);
    let mut out: Vec<String> = Vec::new();
    let mut i: usize = 0;
    assert(string_texts(out@) =~= in_order(keys.take(0)));
    while i < occs.len()
        invariant
            i <= occs.len(),
            keys == occurrence_views(occs@).map_values(|o: OccurrenceView| o.entry),
            string_texts(out@) == in_order(keys.take(i as int)),
        decreases occs.len() - i,
    {
        assert(keys.take(i + 1).drop_last() == keys.take(i as int));
        assert(keys.take(i + 1).last() == occs@[i as int].entry@);
        insert_name(&mut out, occs[i].entry.clone());
        i = i + 1;
    }
    assert(keys.take(i as int) == keys);
    out
}

/// The number of occurrences of an entry, and their paths together.
fn gather(occs: &Vec<Occurrence>, entry: &String) -> (r: (usize, Dnf))
    requires
        occurrences_wf(occs@),
    ensures
        r.0 == group(occurrence_views(occs@), entry@).len(),
        r.1.wf(),
        r.1@ == paths_union(group(occurrence_views(occs@), entry@)),
{
    let ghost v = occurrence_views(occs@);
    let mut n: usize = 0;
    let mut union = Dnf::new();
    let mut i: usize = 0;
    while i < occs.len()
        invariant
            i <= occs.len(),
            n <= i,
            v == occurrence_views(occs@),
            occurrences_wf(occs@),
            union.wf(),
            n == group(v.take(i as int), entry@).len(),
            union@ == paths_union(group(v.take(i as int), entry@)),
        decreases occs.len() - i,
    {
        assert(v.take(i + 1).drop_last() == v.take(i as int));
        assert(v.take(i + 1).last() == occs@[i as int]@);
        if occs[i].entry == *entry {
            let ghost g = group(v.take(i as int), entry@);
            union.extend(&occs[i].path);
            n = n + 1;
            assert(g.push(v[i as int]).drop_last() =~= g);
        }
        i = i + 1;
    }
    assert(v.take(i as int) == v);
    (n, union)
}

fn report_group(occs: &Vec<Occurrence>, entry: &String, out: &mut Vec<Diagnostic>)
    ensures
        reports(final(out)@) == reports(old(out)@) + group(occurrence_views(occs@), entry@).map_values(
            |o: OccurrenceView| guard_report(o),
        ),
{
    let ghost v = occurrence_views(occs@);
    let ghost f = |o: OccurrenceView| guard_report(o);
    let ghost start = reports(out@);
    let mut i: usize = 0;
    assert(start + group(v.take(0), entry@).map_values(f) =~= start);
    while i < occs.len()
        invariant
            i <= occs.len(),
            v == occurrence_views(occs@),
            f == (|o: OccurrenceView| guard_report(o)),
            reports(out@) == start + group(v.take(i as int), entry@).map_values(f),
        decreases occs.len() - i,
    {
        assert(v.take(i + 1).drop_last() == v.take(i as int));
        assert(v.take(i + 1).last() == occs@[i as int]@);
        if occs[i].entry == *entry {
            let ghost g = group(v.take(i as int), entry@);
            let mut message = String::from_str("`");
            message.append(occs[i].entry.as_str());
            message.append("` is paired with complementary guards covering every assignment — make it unconditional");
            say(
                out,
                Diagnostic::new("RPM452", Severity::Warn, message.as_str(), occs[i].span).with_advice(
                    "drop the guards and list this entry once at the top level",
                ),
            );
            assert(start + g.map_values(f) + seq![f(v[i as int])] =~= start + g.push(v[i as int]).map_values(f));
        }
        i = i + 1;
    }
    assert(v.take(i as int) == v);
}

fn emit(occs: &Vec<Occurrence>, atom_count: usize, out: &mut Vec<Diagnostic>)
    requires
        occurrences_wf(occs@),
    ensures
        reports(final(out)@) == reports(old(out)@) + flat(
            entries(occurrence_views(occs@)),
            |e: Seq<char>| group_findings(occurrence_views(occs@), e, atom_count as nat),
        ),
{
    let keys = ordered_entries(occs);
    let ghost v = occurrence_views(occs@);
    let ghost ks = string_texts(keys@);
    let ghost f = |e: Seq<char>| group_findings(occurrence_views(occs@), e, atom_count as nat);
    let ghost start = reports(out@);
    let mut i: usize = 0;
    assert(start + flat(ks.take(0), f) == start);
    while i < keys.len()
        invariant
            i <= keys.len(),
            v == occurrence_views(occs@),
            occurrences_wf(occs@),
            ks == string_texts(keys@),
            f == (|e: Seq<char>| group_findings(occurrence_views(occs@), e, atom_count as nat)),
            reports(out@) == start + flat(ks.take(i as int), f),
        decreases keys.len() - i,
    {
        let ghost so_far = flat(ks.take(i as int), f);
        assert(ks[i as int] == keys@[i as int]@);
        let (n, union) = gather(occs, &keys[i]);
        let covering = n >= 2 && match is_tautology(&union, atom_count) {
            Some(b) => b,
            None => false,
        };
        if covering {
            report_group(occs, &keys[i], out);
        } else {
            assert(so_far + Seq::<DiagnosticView>::empty() == so_far);
        }
        proof {
            lemma_flat_step(ks, f, i as int);
            assert(start + so_far + f(ks[i as int]) == start + (so_far + f(ks[i as int])));
        }
        i = i + 1;
    }
    assert(ks.take(i as int) == ks);
}

proof fn lemma_guard_findings(items: Seq<Item>, occs: Seq<OccurrenceView>, n: nat)
    requires
        found_in(items).occs == occs,
        found_in(items).keys.len() == n,
    ensures
        guard_findings(items) == flat(entries(occs), |e: Seq<char>| group_findings(occs, e, n)),
{
    let f = found_in(items);
    let a = |e: Seq<char>| group_findings(f.occs, e, f.keys.len());
    let b = |e: Seq<char>| group_findings(occs, e, n);
    lemma_flat_pointwise(entries(occs), a, b);
}

proof fn lemma_flat_pointwise<A, B>(s: Seq<A>, f: spec_fn(A) -> Seq<B>, g: spec_fn(A) -> Seq<B>)
    requires
        forall|a: A| #[trigger] f(a) == g(a),
    ensures
        flat(s, f) == flat(s, g),
    decreases s.len(),
{
    if s.len() > 0 {
        lemma_flat_pointwise(s.drop_last(), f, g);
        assert(f(s.last()) == g(s.last()));
    }
}

fn check_items(items: &Vec<Item>, out: &mut Vec<Diagnostic>)
    ensures
        reports(final(out)@) == reports(old(out)@) + guard_findings(items@),
{
    let mut stack: Vec<Option<Dnf>> = Vec::new();
    let mut atoms = AtomTable::new();
    let mut occs: Vec<Occurrence> = Vec::new();
    assert(stack_view(stack@) =~= Seq::empty());
    assert(occurrence_views(occs@) =~= Seq::empty());
    walk_items(items, &mut stack, &mut atoms, &mut occs);
    let n: usize = atoms.len();
    emit(&occs, n, out);
    proof {
        let v = occurrence_views(occs@);
        lemma_guard_findings(items@, v, n as nat);
        lemma_flat_pointwise(
            entries(v),
            |e: Seq<char>| group_findings(occurrence_views(occs@), e, n as nat),
            |e: Seq<char>| group_findings(v, e, n as nat),
        );
    }
}

/// RPM452 `complementary-guards-same-item`: Multiple guarded copies of the same dependency
/// atom collectively cover every truth assignment; the atom is effectively unconditional —
/// merge them.
#[derive(Debug)]
pub struct ComplementaryGuardsSameItem {
    pub diagnostics: Vec<Diagnostic>,
}

impl ComplementaryGuardsSameItem {
    pub fn new() -> (r: ComplementaryGuardsSameItem)
        ensures
            r.pending() == Seq::<DiagnosticView>::empty(),
    {
        let r = ComplementaryGuardsSameItem { diagnostics: Vec::new() };
        assert(r.pending() =~= Seq::<DiagnosticView>::empty());
        r
    }
}

impl Default for ComplementaryGuardsSameItem {
    fn default() -> (r: ComplementaryGuardsSameItem)
        ensures
            r.pending() == Seq::<DiagnosticView>::empty(),
    {
        ComplementaryGuardsSameItem::new()
    }
}

impl Lint for ComplementaryGuardsSameItem {
    open spec fn identity() -> Identity {
        Identity {
            id: "RPM452"@,
            name: "complementary-guards-same-item"@,
            description: "Multiple guarded copies of the same dependency atom collectively cover every truth assignment; the atom is effectively unconditional — merge them."@,
            default_severity: Severity::Warn,
            category: LintCategory::Correctness,
        }
    }

    open spec fn pending(&self) -> Seq<DiagnosticView> {
        reports(self.diagnostics@)
    }

    open spec fn after(&self, spec: SpecFile) -> Seq<DiagnosticView> {
        self.pending() + all_findings(spec)
    }

    open spec fn same_settings(&self, other: &Self) -> bool {
        true
    }

    fn metadata(&self) -> (r: LintMetadata) {
        LintMetadata {
            id: "RPM452",
            name: "complementary-guards-same-item",
            description: "Multiple guarded copies of the same dependency atom collectively cover every truth assignment; the atom is effectively unconditional — merge them.",
            default_severity: Severity::Warn,
            category: LintCategory::Correctness,
        }
    }

    fn visit_spec(&mut self, spec: &SpecFile) {
        check_items(&spec.items, &mut self.diagnostics);
        let ghost f = |i: Item| package_findings(i);
        let ghost start = self.pending();
        let mut i: usize = 0;
        assert(start + flat(spec.items@.take(0), f) == start);
        while i < spec.items.len()
            invariant
                i <= spec.items.len(),
                f == (|i: Item| package_findings(i)),
                self.pending() == start + flat(spec.items@.take(i as int), f),
            decreases spec.items.len() - i,
        {
            let ghost so_far = flat(spec.items@.take(i as int), f);
            let ghost here = f(spec.items@[i as int]);
            let mut checked = false;
            match &spec.items[i] {
                Item::Section(s) => match &**s {
                    Section::Package { content, .. } => {
                        checked = true;
                        check_items(content, &mut self.diagnostics);
                    },
                    _ => {},
                },
                _ => {},
            }
            proof {
                lemma_flat_step(spec.items@, f, i as int);
                assert(start + so_far + here == start + (so_far + here));
                if !checked {
                    assert(so_far + here == so_far);
                }
            }
            i = i + 1;
        }
        proof {
            assert(spec.items@.take(i as int) == spec.items@);
            let a = guard_findings(spec.items@);
            let b = flat(spec.items@, f);
            assert(old(self).pending() + a + b == old(self).pending() + (a + b));
        }
    }

    fn take_diagnostics(&mut self) -> (r: Vec<Diagnostic>) {
        drain(&mut self.diagnostics)
    }
}

// ---------------------------------------------------------------------
// What a report promises
// ---------------------------------------------------------------------

/// `line` stands in `items`, inside the nested branches of `path`.
pub open spec fn holds_line(items: Seq<Item>, path: Seq<StepView>, line: PreambleItem) -> bool
    decreases items, 0int,
{
    items.len() > 0 && (line_from(items.last(), path, line) || holds_line(
        items.drop_last(),
        path,
        line,
    ))
}

pub open spec fn line_from(item: Item, path: Seq<StepView>, line: PreambleItem) -> bool
    decreases item, 0int,
{
    match item {
        Item::Preamble(p) => path.len() == 0 && p == line,
        Item::Conditional(c) => path.len() > 0 && path[0].cond == c && {
            let arm = path[0].arm;
            if 0 <= arm < c.branches@.len() {
                holds_line(c.branches@[arm].body@, path.skip(1), line)
            } else {
                match c.otherwise {
                    Some(body) => arm == c.branches@.len() && holds_line(
                        body@,
                        path.skip(1),
                        line,
                    ),
                    None => false,
                }
            }
        },
        _ => false,
    }
}

/// An occurrence is that of the line, under the branches of `path`.
pub open spec fn is_line(
    o: OccurrenceView,
    keys: Seq<Seq<char>>,
    path: Seq<StepView>,
    line: PreambleItem,
) -> bool {
    &&& path.len() > 0
    &&& entry_of(line) == Some(o.entry)
    &&& line.data == o.span
    &&& means(o.path, keys, path)
}

/// An occurrence is that of a line in `items`, which are entered through
/// `outer`.
pub open spec fn seen(
    items: Seq<Item>,
    outer: Seq<StepView>,
    keys: Seq<Seq<char>>,
    o: OccurrenceView,
) -> bool {
    exists|path: Seq<StepView>, line: PreambleItem|
        #![trigger holds_line(items, path, line)]
        holds_line(items, path, line) && is_line(o, keys, outer + path, line)
}

pub open spec fn seen_from(
    item: Item,
    outer: Seq<StepView>,
    keys: Seq<Seq<char>>,
    o: OccurrenceView,
) -> bool {
    exists|path: Seq<StepView>, line: PreambleItem|
        #![trigger line_from(item, path, line)]
        line_from(item, path, line) && is_line(o, keys, outer + path, line)
}

proof fn lemma_seen_more(
    item: Item,
    outer: Seq<StepView>,
    keys: Seq<Seq<char>>,
    more: Seq<Seq<char>>,
    o: OccurrenceView,
)
    requires
        seen_from(item, outer, keys, o),
        keys.is_prefix_of(more),
    ensures
        seen_from(item, outer, more, o),
{
    let (path, line) = choose|path: Seq<StepView>, line: PreambleItem|
        #![trigger line_from(item, path, line)]
        line_from(item, path, line) && is_line(o, keys, outer + path, line);
    lemma_means_more(o.path, keys, more, outer + path);
}

proof fn lemma_found_items_grow(
    items: Seq<Item>,
    stack: Seq<Option<Set<Set<Literal>>>>,
    f: Found,
)
    ensures
        f.keys.is_prefix_of(found_items(items, stack, f).keys),
        f.occs.is_prefix_of(found_items(items, stack, f).occs),
    decreases items, 0int,
{
    if items.len() > 0 && stack.len() < MAX_PATH_STACK_DEPTH {
        let g = found_items(items.drop_last(), stack, f);
        let r = found_items(items, stack, f);
        lemma_found_items_grow(items.drop_last(), stack, f);
        lemma_found_item_grows(items.last(), stack, g);
        lemma_prefix_chain(f.keys, g.keys, r.keys);
        lemma_prefix_chain(f.occs, g.occs, r.occs);
    }
}

proof fn lemma_found_item_grows(item: Item, stack: Seq<Option<Set<Set<Literal>>>>, f: Found)
    ensures
        f.keys.is_prefix_of(found_item(item, stack, f).keys),
        f.occs.is_prefix_of(found_item(item, stack, f).occs),
    decreases item, 0int,
{
    match item {
        Item::Preamble(p) => {
            assert(f.occs =~= (f.occs + occurrence_of(p, stack)).subrange(
                0,
                f.occs.len() as int,
            ));
        },
        Item::Conditional(c) => {
            let g = found_arms(c, stack, f, c.branches@.len());
            lemma_found_arms_grow(c, stack, f, c.branches@.len());
            match c.otherwise {
                None => {},
                Some(body) => {
                    let prior = c.branches@;
                    let e = else_effect(prior, g.keys);
                    let inner = stack.push(frame(stack, e.dnf));
                    let mid = Found { keys: e.keys, occs: g.occs };
                    let r = found_items(body@, inner, mid);
                    lemma_minus_grows(Converted { dnf: Some(always()), keys: g.keys }, prior);
                    lemma_found_items_grow(body@, inner, mid);
                    lemma_prefix_chain(f.keys, g.keys, e.keys);
                    lemma_prefix_chain(f.keys, e.keys, r.keys);
                    lemma_prefix_chain(f.occs, g.occs, r.occs);
                },
            }
        },
        _ => {},
    }
}

proof fn lemma_found_arms_grow(
    c: Conditional,
    stack: Seq<Option<Set<Set<Literal>>>>,
    f: Found,
    n: nat,
)
    ensures
        f.keys.is_prefix_of(found_arms(c, stack, f, n).keys),
        f.occs.is_prefix_of(found_arms(c, stack, f, n).occs),
    decreases c, n,
{
    if 0 < n <= c.branches@.len() {
        let g = found_arms(c, stack, f, (n - 1) as nat);
        let b = c.branches@[n - 1];
        let prior = c.branches@.take(n - 1);
        let e = branch_effect(b, prior, g.keys);
        let inner = stack.push(frame(stack, e.dnf));
        let mid = Found { keys: e.keys, occs: g.occs };
        let r = found_items(b.body@, inner, mid);
        lemma_found_arms_grow(c, stack, f, (n - 1) as nat);
        lemma_effect_grows(b, prior, g.keys);
        lemma_found_items_grow(b.body@, inner, mid);
        lemma_prefix_chain(f.keys, g.keys, e.keys);
        lemma_prefix_chain(f.keys, e.keys, r.keys);
        lemma_prefix_chain(f.occs, g.occs, r.occs);
    }
}

proof fn lemma_items_seen(
    items: Seq<Item>,
    stack: Seq<Option<Set<Set<Literal>>>>,
    outer: Seq<StepView>,
    f: Found,
)
    requires
        describes(stack, f.keys, outer),
        found_items(items, stack, f).keys.len() <= usize::MAX,
    ensures
        forall|i: int|
            f.occs.len() <= i < found_items(items, stack, f).occs.len() ==> seen(
                items,
                outer,
                found_items(items, stack, f).keys,
                #[trigger] found_items(items, stack, f).occs[i],
            ),
    decreases items, 0int,
{
    if items.len() > 0 && stack.len() < MAX_PATH_STACK_DEPTH {
        let front = items.drop_last();
        let g = found_items(front, stack, f);
        let r = found_items(items, stack, f);
        lemma_found_items_grow(front, stack, f);
        lemma_found_item_grows(items.last(), stack, g);
        lemma_describes_more(stack, f.keys, g.keys, outer);
        lemma_items_seen(front, stack, outer, f);
        lemma_item_seen(items.last(), stack, outer, g);
        assert forall|i: int| f.occs.len() <= i < r.occs.len() implies seen(
            items,
            outer,
            r.keys,
            #[trigger] r.occs[i],
        ) by {
            let o = r.occs[i];
            if i < g.occs.len() {
                assert(o == g.occs[i]);
                assert(seen(front, outer, g.keys, g.occs[i]));
                let (path, line) = choose|path: Seq<StepView>, line: PreambleItem|
                    #![trigger holds_line(front, path, line)]
                    holds_line(front, path, line) && is_line(o, g.keys, outer + path, line);
                lemma_means_more(o.path, g.keys, r.keys, outer + path);
                assert(holds_line(items, path, line));
            } else {
                assert(seen_from(items.last(), outer, r.keys, o));
                let (path, line) = choose|path: Seq<StepView>, line: PreambleItem|
                    #![trigger line_from(items.last(), path, line)]
                    line_from(items.last(), path, line) && is_line(o, r.keys, outer + path, line);
                assert(holds_line(items, path, line));
            }
        }
    }
}

/// What is seen inside a branch is seen in the conditional.
proof fn lemma_seen_outside(
    c: Conditional,
    step: StepView,
    body: Seq<Item>,
    outer: Seq<StepView>,
    keys: Seq<Seq<char>>,
    o: OccurrenceView,
)
    requires
        step.cond == c,
        if 0 <= step.arm < c.branches@.len() {
            body == c.branches@[step.arm].body@
        } else {
            step.arm == c.branches@.len() && (c.otherwise matches Some(b) && body == b@)
        },
        seen(body, outer.push(step), keys, o),
    ensures
        seen_from(Item::Conditional(c), outer, keys, o),
{
    let (rest, line) = choose|path: Seq<StepView>, line: PreambleItem|
        #![trigger holds_line(body, path, line)]
        holds_line(body, path, line) && is_line(o, keys, outer.push(step) + path, line);
    let path = seq![step] + rest;
    assert(outer + path =~= outer.push(step) + rest);
    assert(path.skip(1) =~= rest);
    assert(path[0] == step);
    assert(line_from(Item::Conditional(c), path, line));
}

proof fn lemma_item_seen(
    item: Item,
    stack: Seq<Option<Set<Set<Literal>>>>,
    outer: Seq<StepView>,
    f: Found,
)
    requires
        describes(stack, f.keys, outer),
        found_item(item, stack, f).keys.len() <= usize::MAX,
    ensures
        forall|i: int|
            f.occs.len() <= i < found_item(item, stack, f).occs.len() ==> seen_from(
                item,
                outer,
                found_item(item, stack, f).keys,
                #[trigger] found_item(item, stack, f).occs[i],
            ),
    decreases item, 0int,
{
    let r = found_item(item, stack, f);
    match item {
        Item::Preamble(p) => {
            let none = Seq::<StepView>::empty();
            assert(outer + none =~= outer);
            assert forall|i: int| f.occs.len() <= i < r.occs.len() implies seen_from(
                item,
                outer,
                r.keys,
                #[trigger] r.occs[i],
            ) by {
                assert(r.occs[i] == occurrence_of(p, stack)[i - f.occs.len()]);
                assert(line_from(item, none, p));
                assert(is_line(r.occs[i], r.keys, outer + none, p));
            }
        },
        Item::Conditional(c) => {
            let n = c.branches@.len();
            let g = found_arms(c, stack, f, n);
            lemma_found_arms_grow(c, stack, f, n);
            match c.otherwise {
                None => lemma_arms_seen(c, stack, outer, f, n),
                Some(body) => {
                    let prior = c.branches@;
                    let e = else_effect(prior, g.keys);
                    let step = StepView { cond: c, arm: n as int };
                    let inner = stack.push(frame(stack, e.dnf));
                    let mid = Found { keys: e.keys, occs: g.occs };
                    lemma_minus_grows(Converted { dnf: Some(always()), keys: g.keys }, prior);
                    lemma_found_items_grow(body@, inner, mid);
                    lemma_arms_seen(c, stack, outer, f, n);
                    lemma_prefix_chain(f.keys, g.keys, e.keys);
                    lemma_prefix_chain(g.keys, e.keys, r.keys);
                    lemma_describes_more(stack, f.keys, e.keys, outer);
                    lemma_else_entered(c, g.keys);
                    lemma_enter(stack, e.keys, outer, step, e.dnf);
                    lemma_items_seen(body@, inner, outer.push(step), mid);
                    assert forall|i: int| f.occs.len() <= i < r.occs.len() implies seen_from(
                        item,
                        outer,
                        r.keys,
                        #[trigger] r.occs[i],
                    ) by {
                        if i < g.occs.len() {
                            assert(r.occs[i] == g.occs[i]);
                            lemma_seen_more(item, outer, g.keys, r.keys, r.occs[i]);
                        } else {
                            lemma_seen_outside(c, step, body@, outer, r.keys, r.occs[i]);
                        }
                    }
                },
            }
        },
        _ => {},
    }
}

proof fn lemma_arms_seen(
    c: Conditional,
    stack: Seq<Option<Set<Set<Literal>>>>,
    outer: Seq<StepView>,
    f: Found,
    n: nat,
)
    requires
        describes(stack, f.keys, outer),
        found_arms(c, stack, f, n).keys.len() <= usize::MAX,
    ensures
        forall|i: int|
            f.occs.len() <= i < found_arms(c, stack, f, n).occs.len() ==> seen_from(
                Item::Conditional(c),
                outer,
                found_arms(c, stack, f, n).keys,
                #[trigger] found_arms(c, stack, f, n).occs[i],
            ),
    decreases c, n,
{
    if 0 < n <= c.branches@.len() {
        let m = (n - 1) as nat;
        let g = found_arms(c, stack, f, m);
        let b = c.branches@[n - 1];
        let prior = c.branches@.take(n - 1);
        let e = branch_effect(b, prior, g.keys);
        let step = StepView { cond: c, arm: n - 1 };
        let inner = stack.push(frame(stack, e.dnf));
        let mid = Found { keys: e.keys, occs: g.occs };
        let r = found_arms(c, stack, f, n);
        lemma_found_arms_grow(c, stack, f, m);
        lemma_effect_grows(b, prior, g.keys);
        lemma_found_items_grow(b.body@, inner, mid);
        lemma_arms_seen(c, stack, outer, f, m);
        lemma_prefix_chain(f.keys, g.keys, e.keys);
        lemma_prefix_chain(g.keys, e.keys, r.keys);
        lemma_describes_more(stack, f.keys, e.keys, outer);
        lemma_branch_entered(step, g.keys);
        lemma_enter(stack, e.keys, outer, step, e.dnf);
        lemma_items_seen(b.body@, inner, outer.push(step), mid);
        assert forall|i: int| f.occs.len() <= i < r.occs.len() implies seen_from(
            Item::Conditional(c),
            outer,
            r.keys,
            #[trigger] r.occs[i],
        ) by {
            if i < g.occs.len() {
                assert(r.occs[i] == g.occs[i]);
                lemma_seen_more(Item::Conditional(c), outer, g.keys, r.keys, r.occs[i]);
            } else {
                lemma_seen_outside(c, step, b.body@, outer, r.keys, r.occs[i]);
            }
        }
    }
}

proof fn lemma_group_member(occs: Seq<OccurrenceView>, entry: Seq<char>, k: int)
    requires
        0 <= k < group(occs, entry).len(),
    ensures
        occs.contains(group(occs, entry)[k]),
        group(occs, entry)[k].entry == entry,
    decreases occs.len(),
{
    if occs.len() > 0 {
        let front = occs.drop_last();
        if occs.last().entry == entry && k == group(front, entry).len() {
            assert(occs[occs.len() - 1] == occs.last());
        } else {
            lemma_group_member(front, entry, k);
            let o = group(front, entry)[k];
            let j = choose|j: int| 0 <= j < front.len() && front[j] == o;
            assert(occs[j] == o);
        }
    }
}

proof fn lemma_union_member(g: Seq<OccurrenceView>, env: spec_fn(AtomId) -> bool) -> (k: int)
    requires
        dnf_holds(paths_union(g), env),
    ensures
        0 <= k < g.len(),
        dnf_holds(g[k].path, env),
    decreases g.len(),
{
    if g.len() == 0 {
        let c = choose|c: Set<Literal>| paths_union(g).contains(c) && #[trigger] cube_holds(c, env);
        0
    } else {
        union_means_or(paths_union(g.drop_last()), g.last().path, env);
        if dnf_holds(g.last().path, env) {
            g.len() - 1
        } else {
            lemma_union_member(g.drop_last(), env)
        }
    }
}

proof fn lemma_union_within(g: Seq<OccurrenceView>, n: nat)
    requires
        forall|k: int| 0 <= k < g.len() ==> sound((#[trigger] g[k]).path, n),
    ensures
        forall|c: Set<Literal>| #[trigger] paths_union(g).contains(c) ==> within(c, n),
    decreases g.len(),
{
    if g.len() > 0 {
        let front = g.drop_last();
        assert forall|k: int| 0 <= k < front.len() implies sound((#[trigger] front[k]).path, n) by {
            assert(front[k] == g[k]);
        }
        lemma_union_within(front, n);
        assert(sound(g[g.len() - 1].path, n));
        assert forall|c: Set<Literal>| #[trigger] paths_union(g).contains(c) implies within(c, n) by {
            assert(paths_union(front).contains(c) || g.last().path.contains(c));
        }
    }
}

/// An entry that is reported is unconditional: whatever the atoms of the
/// conditions are, one of the lines with it stands where each branch around
/// it is selected.
pub proof fn reported_entry_is_unconditional(
    items: Seq<Item>,
    entry: Seq<char>,
    val: spec_fn(Seq<char>) -> bool,
)
    requires
        group_findings(found_in(items).occs, entry, found_in(items).keys.len()).len() > 0,
    ensures
        exists|path: Seq<StepView>, line: PreambleItem| #[trigger]
            holds_line(items, path, line) && path.len() > 0 && entry_of(line) == Some(entry)
                && reached(path, val),
{
    let f = found_in(items);
    let n = f.keys.len();
    let g = group(f.occs, entry);
    let none = Seq::<StepView>::empty();
    let start = Found { keys: Seq::empty(), occs: Seq::empty() };
    lemma_items_seen(items, Seq::empty(), none, start);
    assert forall|k: int| 0 <= k < g.len() implies sound((#[trigger] g[k]).path, n) && seen(
        items,
        none,
        f.keys,
        g[k],
    ) && g[k].entry == entry by {
        lemma_group_member(f.occs, entry, k);
        let j = choose|j: int| 0 <= j < f.occs.len() && f.occs[j] == g[k];
        assert(seen(items, none, f.keys, f.occs[j]));
    }
    lemma_union_within(g, n);
    truth_table_decides(paths_union(g), n);
    let env = valuation(f.keys, val);
    assert(dnf_holds(paths_union(g), env));
    let k = lemma_union_member(g, env);
    assert(seen(items, none, f.keys, g[k]));
    let (path, line) = choose|path: Seq<StepView>, line: PreambleItem|
        #![trigger holds_line(items, path, line)]
        holds_line(items, path, line) && is_line(g[k], f.keys, none + path, line);
    assert(none + path =~= path);
    assert(dnf_holds(g[k].path, valuation(f.keys, val)) == reached(path, val));
}

/// Whether two lines state one and the same dependency under one tag.
pub open spec fn states_the_same(p: PreambleItem, q: PreambleItem) -> bool {
    match (p.value, q.value) {
        (TagValue::Dep(DepExpr::Atom(a)), TagValue::Dep(DepExpr::Atom(b))) => is_tidy(a) && is_tidy(
            b,
        ) ==> p.tag == q.tag && same_dependency(a, b),
        _ => false,
    }
}

/// Lines with the same entry state the same, version and tag included.
pub proof fn entries_tell_lines_apart(p: PreambleItem, q: PreambleItem)
    requires
        entry_of(p) is Some,
        entry_of(p) == entry_of(q),
    ensures
        states_the_same(p, q),
{
    match (p.value, q.value) {
        (TagValue::Dep(DepExpr::Atom(a)), TagValue::Dep(DepExpr::Atom(b))) => {
            if is_tidy(a) && is_tidy(b) {
                let x = dep_label(p.tag).unwrap();
                let y = dep_label(q.tag).unwrap();
                let s = atom_text(a).unwrap();
                let t = atom_text(b).unwrap();
                lemma_label(p.tag);
                lemma_label(q.tag);
                reveal_strlit(": ");
                assert(x + ": "@ + s =~= x + seq![':'] + (seq![' '] + s));
                assert(y + ": "@ + t =~= y + seq![':'] + (seq![' '] + t));
                lemma_parted_by(x, y, ':', seq![' '] + s, seq![' '] + t);
                assert(s =~= (seq![' '] + s).skip(1));
                assert(t =~= (seq![' '] + t).skip(1));
                labels_tell_tags_apart(p.tag, q.tag);
                texts_tell_dependencies_apart(a, b);
            }
        },
        _ => {},
    }
}

proof fn lemma_label(tag: Tag)
    requires
        dep_label(tag) is Some,
    ensures
        !dep_label(tag).unwrap().contains(':'),
{
    reveal_strlit("Requires");
    reveal_strlit("BuildRequires");
    reveal_strlit("Provides");
    reveal_strlit("Conflicts");
    reveal_strlit("Obsoletes");
    reveal_strlit("Recommends");
    reveal_strlit("Suggests");
    reveal_strlit("Supplements");
    reveal_strlit("Enhances");
    reveal_strlit("BuildConflicts");
    reveal_strlit("OrderWithRequires");
    let s = dep_label(tag).unwrap();
    assert forall|i: int| 0 <= i < s.len() implies s[i] != ':' by {}
}

/// `items` are those of the main package or of a subpackage at the top level.
pub open spec fn is_package(spec: SpecFile, items: Seq<Item>) -> bool {
    items == spec.items@ || exists|i: int|
        0 <= i < spec.items@.len() && (#[trigger] spec.items@[i] matches Item::Section(s) && (*s
            matches Section::Package { content, .. } && content@ == items))
}

/// Whether a line that states the same as `p` is reached, inside at least one
/// branch, where the atoms are as `val` says.
pub open spec fn is_stated(
    items: Seq<Item>,
    p: PreambleItem,
    val: spec_fn(Seq<char>) -> bool,
) -> bool {
    exists|path: Seq<StepView>, line: PreambleItem| #[trigger]
        holds_line(items, path, line) && path.len() > 0 && states_the_same(p, line) && reached(
            path,
            val,
        )
}

/// The line that a report is about: guarded, and stated whatever the atoms
/// are.
pub open spec fn is_covered_line(items: Seq<Item>, p: PreambleItem, span: Span) -> bool {
    &&& p.data == span
    &&& exists|path: Seq<StepView>| #[trigger] holds_line(items, path, p) && path.len() > 0
    &&& forall|val: spec_fn(Seq<char>) -> bool| #[trigger] is_stated(items, p, val)
}

proof fn lemma_covered(items: Seq<Item>, d: DiagnosticView)
    requires
        guard_findings(items).contains(d),
    ensures
        exists|p: PreambleItem| #[trigger] is_covered_line(items, p, d.primary_span),
{
    let f = found_in(items);
    let h = |e: Seq<char>| group_findings(f.occs, e, f.keys.len());
    lemma_flat_contains(entries(f.occs), h, d);
    let n = choose|n: int|
        0 <= n < entries(f.occs).len() && h(#[trigger] entries(f.occs)[n]).contains(d);
    let entry = entries(f.occs)[n];
    let g = group(f.occs, entry);
    let r = g.map_values(|o: OccurrenceView| guard_report(o));
    let k = choose|k: int| 0 <= k < r.len() && r[k] == d;
    assert(d == guard_report(g[k]));
    let none = Seq::<StepView>::empty();
    let start = Found { keys: Seq::empty(), occs: Seq::empty() };
    lemma_items_seen(items, Seq::empty(), none, start);
    lemma_group_member(f.occs, entry, k);
    let j = choose|j: int| 0 <= j < f.occs.len() && f.occs[j] == g[k];
    assert(seen(items, none, f.keys, f.occs[j]));
    let (path, p) = choose|path: Seq<StepView>, line: PreambleItem|
        #![trigger holds_line(items, path, line)]
        holds_line(items, path, line) && is_line(g[k], f.keys, none + path, line);
    assert(none + path =~= path);
    assert(holds_line(items, path, p) && path.len() > 0);
    assert forall|val: spec_fn(Seq<char>) -> bool| #[trigger] is_stated(items, p, val) by {
        reported_entry_is_unconditional(items, entry, val);
        let (path, line) = choose|path: Seq<StepView>, line: PreambleItem| #[trigger]
            holds_line(items, path, line) && path.len() > 0 && entry_of(line) == Some(entry)
                && reached(path, val);
        entries_tell_lines_apart(p, line);
        assert(holds_line(items, path, line));
    }
    assert(is_covered_line(items, p, d.primary_span));
}

/// A report is about a guarded line, and whatever the conditions come out as,
/// a line of the same package that states one and the same dependency, version
/// included, stands where the branches around it are taken.
pub proof fn reported_dependency_is_unconditional(
    rule: ComplementaryGuardsSameItem,
    spec: SpecFile,
    i: int,
)
    requires
        rule.pending().len() <= i < rule.after(spec).len(),
    ensures
        exists|items: Seq<Item>, p: PreambleItem|
            is_package(spec, items) && #[trigger] is_covered_line(
                items,
                p,
                rule.after(spec)[i].primary_span,
            ),
{
    let d = rule.after(spec)[i];
    let f = |i: Item| package_findings(i);
    let a = guard_findings(spec.items@);
    let b = flat(spec.items@, f);
    let k = i - rule.pending().len();
    assert((a + b)[k] == d);
    if k < a.len() {
        assert(a[k] == d);
        lemma_covered(spec.items@, d);
        let p = choose|p: PreambleItem| #[trigger]
            is_covered_line(spec.items@, p, d.primary_span);
        assert(is_package(spec, spec.items@));
    } else {
        assert(b[k - a.len()] == d);
        lemma_flat_contains(spec.items@, f, d);
        let n = choose|n: int| 0 <= n < spec.items@.len() && f(#[trigger] spec.items@[n]).contains(d);
        match spec.items@[n] {
            Item::Section(s) => match *s {
                Section::Package { content, .. } => {
                    lemma_covered(content@, d);
                    let p = choose|p: PreambleItem| #[trigger]
                        is_covered_line(content@, p, d.primary_span);
                    assert(is_package(spec, content@));
                },
                _ => {},
            },
            _ => {},
        }
    }
}

/// Whether, whatever holds, one of the occurrences of an entry is guarded by
/// conditions that do.
pub open spec fn is_everywhere(occs: Seq<OccurrenceView>, entry: Seq<char>) -> bool {
    forall|env: spec_fn(AtomId) -> bool| #[trigger] is_somewhere(occs, entry, env)
}

pub open spec fn is_somewhere(
    occs: Seq<OccurrenceView>,
    entry: Seq<char>,
    env: spec_fn(AtomId) -> bool,
) -> bool {
    exists|k: int|
        0 <= k < occs.len() && (#[trigger] occs[k]).entry == entry && dnf_holds(occs[k].path, env)
}

/// Whether occurrence `i` is one of an entry that stands at another place
/// too.
pub open spec fn is_paired(occs: Seq<OccurrenceView>, i: int) -> bool {
    exists|j: int| 0 <= j < occs.len() && j != i && (#[trigger] occs[j]).entry == occs[i].entry
}

proof fn lemma_grouped(occs: Seq<OccurrenceView>, entry: Seq<char>, env: spec_fn(AtomId) -> bool, span: Span)
    ensures
        group(occs, entry).len() >= 1 <==> exists|i: int|
            0 <= i < occs.len() && (#[trigger] occs[i]).entry == entry,
        group(occs, entry).len() >= 2 <==> exists|i: int|
            0 <= i < occs.len() && (#[trigger] occs[i]).entry == entry && is_paired(occs, i),
        dnf_holds(paths_union(group(occs, entry)), env) <==> is_somewhere(occs, entry, env),
        (exists|k: int|
            0 <= k < group(occs, entry).len() && (#[trigger] group(occs, entry)[k]).span == span)
            <==> exists|i: int|
            0 <= i < occs.len() && (#[trigger] occs[i]).entry == entry && occs[i].span == span,
    decreases occs.len(),
{
    let g = group(occs, entry);
    if occs.len() == 0 {
        assert(!dnf_holds(Set::<Set<Literal>>::empty(), env));
    } else {
        let front = occs.drop_last();
        let last = occs.last();
        let n = occs.len() - 1;
        let h = group(front, entry);
        lemma_grouped(front, entry, env, span);
        assert(occs[n] == last);
        assert forall|i: int| 0 <= i < n implies front[i] == #[trigger] occs[i] by {}
        assert forall|i: int| 0 <= i < n implies occs[i] == #[trigger] front[i] by {}
        if last.entry == entry {
            assert(g.drop_last() =~= h);
            assert(g.last() == last);
            union_means_or(paths_union(h), last.path, env);
            if h.len() >= 1 {
                let i = choose|i: int| 0 <= i < front.len() && (#[trigger] front[i]).entry == entry;
                assert(occs[i].entry == entry);
                assert(is_paired(occs, n)) by {
                    assert(occs[i].entry == occs[n].entry);
                }
            }
            if exists|i: int|
                0 <= i < occs.len() && (#[trigger] occs[i]).entry == entry && is_paired(occs, i) {
                let i = choose|i: int|
                    0 <= i < occs.len() && (#[trigger] occs[i]).entry == entry && is_paired(occs, i);
                let j = choose|j: int|
                    0 <= j < occs.len() && j != i && (#[trigger] occs[j]).entry == occs[i].entry;
                let k = if i < n {
                    i
                } else {
                    j
                };
                assert(front[k].entry == entry);
            }
            if is_somewhere(occs, entry, env) {
                let k = choose|k: int|
                    0 <= k < occs.len() && (#[trigger] occs[k]).entry == entry && dnf_holds(
                        occs[k].path,
                        env,
                    );
                if k < n {
                    assert(front[k].entry == entry);
                }
            }
            if is_somewhere(front, entry, env) {
                let k = choose|k: int|
                    0 <= k < front.len() && (#[trigger] front[k]).entry == entry && dnf_holds(
                        front[k].path,
                        env,
                    );
                assert(occs[k].entry == entry);
            }
            assert(g[h.len() as int] == last);
            if exists|k: int| 0 <= k < g.len() && (#[trigger] g[k]).span == span {
                let k = choose|k: int| 0 <= k < g.len() && (#[trigger] g[k]).span == span;
                if k < h.len() {
                    assert(h[k].span == span);
                    let i = choose|i: int|
                        0 <= i < front.len() && (#[trigger] front[i]).entry == entry
                            && front[i].span == span;
                    assert(occs[i].entry == entry);
                } else {
                    assert(occs[n].entry == entry && occs[n].span == span);
                }
            }
            if exists|i: int|
                0 <= i < occs.len() && (#[trigger] occs[i]).entry == entry && occs[i].span == span {
                let i = choose|i: int|
                    0 <= i < occs.len() && (#[trigger] occs[i]).entry == entry && occs[i].span
                        == span;
                if i < n {
                    assert(front[i].entry == entry && front[i].span == span);
                    let k = choose|k: int| 0 <= k < h.len() && (#[trigger] h[k]).span == span;
                    assert(g[k].span == span);
                } else {
                    assert(g[h.len() as int].span == span);
                }
            }
        } else {
            assert(g == h);
            if exists|i: int|
                0 <= i < front.len() && (#[trigger] front[i]).entry == entry && is_paired(front, i) {
                let i = choose|i: int|
                    0 <= i < front.len() && (#[trigger] front[i]).entry == entry && is_paired(
                        front,
                        i,
                    );
                let j = choose|j: int|
                    0 <= j < front.len() && j != i && (#[trigger] front[j]).entry == front[i].entry;
                assert(occs[j].entry == occs[i].entry);
                assert(is_paired(occs, i));
            }
            if exists|i: int|
                0 <= i < occs.len() && (#[trigger] occs[i]).entry == entry && is_paired(occs, i) {
                let i = choose|i: int|
                    0 <= i < occs.len() && (#[trigger] occs[i]).entry == entry && is_paired(occs, i);
                let j = choose|j: int|
                    0 <= j < occs.len() && j != i && (#[trigger] occs[j]).entry == occs[i].entry;
                assert(front[j].entry == front[i].entry);
                assert(is_paired(front, i));
            }
            if is_somewhere(occs, entry, env) {
                let k = choose|k: int|
                    0 <= k < occs.len() && (#[trigger] occs[k]).entry == entry && dnf_holds(
                        occs[k].path,
                        env,
                    );
                assert(front[k].entry == entry);
            }
            if is_somewhere(front, entry, env) {
                let k = choose|k: int|
                    0 <= k < front.len() && (#[trigger] front[k]).entry == entry && dnf_holds(
                        front[k].path,
                        env,
                    );
                assert(occs[k].entry == entry);
            }
        }
    }
}

proof fn lemma_group_within(occs: Seq<OccurrenceView>, entry: Seq<char>, n: nat)
    requires
        forall|i: int, c: Set<Literal>|
            0 <= i < occs.len() && #[trigger] occs[i].path.contains(c) ==> within(c, n),
    ensures
        forall|c: Set<Literal>| #[trigger]
            paths_union(group(occs, entry)).contains(c) ==> within(c, n),
    decreases occs.len(),
{
    if occs.len() > 0 {
        let front = occs.drop_last();
        assert forall|i: int, c: Set<Literal>|
            0 <= i < front.len() && #[trigger] front[i].path.contains(c) implies within(c, n) by {
            assert(occs[i].path.contains(c));
        }
        lemma_group_within(front, entry, n);
        let h = group(front, entry);
        if occs.last().entry == entry {
            let g = group(occs, entry);
            assert(g.drop_last() =~= h);
            assert(g.last() == occs.last());
            assert forall|c: Set<Literal>| #[trigger] paths_union(g).contains(c) implies within(c, n) by {
                if !paths_union(h).contains(c) {
                    assert(occs[occs.len() - 1].path.contains(c));
                }
            }
        }
    }
}

/// Exactly those occurrences are reported whose entry stands at two places or
/// more and, whatever holds, at one that counts.
pub proof fn covered_entries_are_reported(occs: Seq<OccurrenceView>, n: nat, span: Span)
    requires
        n <= 8,
        forall|i: int, c: Set<Literal>|
            0 <= i < occs.len() && #[trigger] occs[i].path.contains(c) ==> within(c, n),
    ensures
        says_at(flat(entries(occs), |e: Seq<char>| group_findings(occs, e, n)), span) <==> exists|
            i: int,
        |
            0 <= i < occs.len() && (#[trigger] occs[i]).span == span && is_paired(occs, i)
                && is_everywhere(occs, occs[i].entry),
{
    let es = entries(occs);
    let f = |e: Seq<char>| group_findings(occs, e, n);
    let name = |o: OccurrenceView| o.entry;
    ordering_keeps_the_names(occs.map_values(name));
    lemma_says_flat(es, f, span);
    if says_at(flat(es, f), span) {
        let k = choose|k: int| 0 <= k < es.len() && says_at(f(#[trigger] es[k]), span);
        lemma_one_entry(occs, es[k], n, span);
    }
    if exists|i: int|
        0 <= i < occs.len() && (#[trigger] occs[i]).span == span && is_paired(occs, i)
            && is_everywhere(occs, occs[i].entry) {
        let i = choose|i: int|
            0 <= i < occs.len() && (#[trigger] occs[i]).span == span && is_paired(occs, i)
                && is_everywhere(occs, occs[i].entry);
        let e = occs[i].entry;
        lemma_one_entry(occs, e, n, span);
        assert(occs.map_values(name)[i] == e);
        assert(occs.map_values(name).contains(e));
        assert(es.contains(e));
        let k = choose|k: int| 0 <= k < es.len() && es[k] == e;
        assert(says_at(f(es[k]), span));
    }
}

proof fn lemma_one_entry(occs: Seq<OccurrenceView>, entry: Seq<char>, n: nat, span: Span)
    requires
        n <= 8,
        forall|i: int, c: Set<Literal>|
            0 <= i < occs.len() && #[trigger] occs[i].path.contains(c) ==> within(c, n),
    ensures
        says_at(group_findings(occs, entry, n), span) <==> exists|i: int|
            0 <= i < occs.len() && (#[trigger] occs[i]).entry == entry && occs[i].span == span
                && is_paired(occs, i) && is_everywhere(occs, entry),
{
    let g = group(occs, entry);
    let d = paths_union(g);
    lemma_group_within(occs, entry, n);
    truth_table_decides(d, n);
    assert forall|env: spec_fn(AtomId) -> bool| #[trigger] dnf_holds(d, env) <==> is_somewhere(
        occs,
        entry,
        env,
    ) by {
        lemma_grouped(occs, entry, env, span);
    }
    let any = |a: AtomId| true;
    lemma_grouped(occs, entry, any, span);
    assert(covers(d, n) <==> is_everywhere(occs, entry)) by {
        if covers(d, n) {
            assert forall|env: spec_fn(AtomId) -> bool| #[trigger] is_somewhere(occs, entry, env) by {
                assert(dnf_holds(d, env));
            }
        }
        if is_everywhere(occs, entry) {
            assert forall|env: spec_fn(AtomId) -> bool| #[trigger] dnf_holds(d, env) by {
                assert(is_somewhere(occs, entry, env));
            }
        }
    }
    let on = group_findings(occs, entry, n);
    if is_covering(g, n) {
        assert(on.len() == g.len());
        if says_at(on, span) {
            let k = choose|k: int| 0 <= k < on.len() && (#[trigger] on[k]).primary_span == span;
            assert(g[k].span == span);
            let i = choose|i: int|
                0 <= i < occs.len() && (#[trigger] occs[i]).entry == entry && occs[i].span == span;
            lemma_pair_of(occs, entry, i);
        }
        if exists|k: int| 0 <= k < g.len() && (#[trigger] g[k]).span == span {
            let k = choose|k: int| 0 <= k < g.len() && (#[trigger] g[k]).span == span;
            assert(on[k].primary_span == span);
        }
    }
}

proof fn lemma_pair_of(occs: Seq<OccurrenceView>, entry: Seq<char>, i: int)
    requires
        0 <= i < occs.len(),
        occs[i].entry == entry,
        exists|k: int|
            0 <= k < occs.len() && (#[trigger] occs[k]).entry == entry && is_paired(occs, k),
    ensures
        is_paired(occs, i),
{
    let k = choose|k: int|
        0 <= k < occs.len() && (#[trigger] occs[k]).entry == entry && is_paired(occs, k);
    if k != i {
        assert(occs[k].entry == occs[i].entry);
    }
}

} // verus!
