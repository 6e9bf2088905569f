//! Adjacent blocks whose conditions exclude each other.
use vstd::prelude::*;

use crate::ast::{CondExpr, CondKind, Conditional, Item, Span, SpecFile};
use crate::bodies::{bodies_alike, bodies_source_eq, body_span, item_span};
use crate::condition::{AtomTable, cond_dnf, cond_to_dnf};
use crate::diagnostic::{Diagnostic, DiagnosticView, LintCategory, Severity, plain, reports};
use crate::dnf::{Literal, dnf_holds, product};
use crate::expr::{cond_expr_resolvably_eq, resolvably_eq};
use crate::laws::{
    cond_truth, lemma_more_atoms, normal_form_means_condition, product_means_and, valuation,
};
use crate::lint::{Identity, Lint, LintMetadata, drain};
use crate::path_cond::{both, conjoin, is_unsat};
use crate::path_laws::lemma_cond_grows;
use crate::rules::{given, say};
use crate::walk::{flat, lemma_flat_step, list_views, lists, spec_lists};
use crate::report_laws::{lemma_says_either, lemma_says_given, says_at};

verus! {

/// A plain `%if` without `%elif` and `%else`.
pub open spec fn is_simple_if(c: Conditional) -> bool {
    c.branches@.len() == 1 && c.branches@[0].kind is If && c.otherwise is None
}

/// The normal forms of two conditions over the same atoms, joined by `&&`.
pub open spec fn conjunction(a: CondExpr, b: CondExpr) -> Option<Set<Set<Literal>>> {
    let x = cond_dnf(a, Seq::empty(), false);
    match x.dnf {
        None => None,
        Some(_) => both(x.dnf, cond_dnf(b, x.keys, false).dnf),
    }
}

/// Whether two blocks have conditions that are not the same and exclude each
/// other, and bodies that are not the same.
pub open spec fn exclusive(a: Conditional, b: Conditional, source: Seq<char>) -> bool {
    &&& is_simple_if(a)
    &&& is_simple_if(b)
    &&& !resolvably_eq(a.branches@[0].expr, b.branches@[0].expr)
    &&& !bodies_alike(a.branches@[0].body@, b.branches@[0].body@, source, false)
    &&& conjunction(a.branches@[0].expr, b.branches@[0].expr) == Some(Set::<Set<Literal>>::empty())
}

/// The conditional before `n`, where only items without a span stand between.
pub open spec fn neighbour(items: Seq<Item>, n: int) -> Option<Conditional>
    decreases n,
{
    if n <= 0 || n > items.len() {
        None
    } else {
        match items[n - 1] {
            Item::Conditional(c) => Some(c),
            _ => if item_span(items[n - 1], false) is Some {
                None
            } else {
                neighbour(items, n - 1)
            },
        }
    }
}

pub open spec fn exclusive_report(span: Span) -> DiagnosticView {
    plain("RPM444"@, Severity::Warn, "adjacent `%if` blocks have mutually exclusive conditions; fold the second into an `%elif` of the first"@, span).advise(
        "rewrite as `%if A … %elif B … %endif`"@,
    )
}

/// The report on item `n`.
pub open spec fn item_findings(items: Seq<Item>, n: int, source: Seq<char>) -> Seq<DiagnosticView> {
    match (neighbour(items, n), items[n]) {
        (Some(a), Item::Conditional(b)) => given(exclusive(a, b, source), exclusive_report(b.data)),
        _ => Seq::empty(),
    }
}

/// The reports on the first `n` items of a list.
pub open spec fn list_findings(items: Seq<Item>, n: nat, source: Seq<char>) -> Seq<DiagnosticView>
    decreases n,
{
    if n == 0 {
        Seq::empty()
    } else {
        list_findings(items, (n - 1) as nat, source) + item_findings(items, n - 1, source)
    }
}

pub open spec fn mutex_findings(spec: SpecFile, source: Seq<char>) -> Seq<DiagnosticView> {
    flat(spec_lists(spec), |l: Seq<Item>| list_findings(l, l.len(), source))
}

fn simple_if(c: &Conditional) -> (r: bool)
    ensures
        r == is_simple_if(*c),
{
    c.branches.len() == 1 && matches!(c.branches[0].kind, CondKind::If) && c.otherwise.is_none()
}

fn check_pair(prev: &Conditional, curr: &Conditional, source: &str, out: &mut Vec<Diagnostic>)
    ensures
        reports(final(out)@) == reports(old(out)@) + given(
            exclusive(*prev, *curr, source@),
            exclusive_report(curr.data),
        ),
{
    assert(reports(out@) + Seq::<DiagnosticView>::empty() == reports(out@));
    if !simple_if(prev) || !simple_if(curr) {
        return ;
    }
    let a = &prev.branches[0];
    let b = &curr.branches[0];
    if cond_expr_resolvably_eq(&a.expr, &b.expr) {
        return ;
    }
    if bodies_source_eq(&a.body, &b.body, source, false) {
        return ;
    }
    let mut atoms = AtomTable::new();
    let prev_dnf = match cond_to_dnf(&a.expr, &mut atoms, false) {
        Some(d) => d,
        None => {
            return ;
        },
    };
    let curr_dnf = match cond_to_dnf(&b.expr, &mut atoms, false) {
        Some(d) => d,
        None => {
            return ;
        },
    };
    match conjoin(&prev_dnf, &curr_dnf) {
        Some(d) => {
            if is_unsat(&d) {
                say(
                    out,
                    Diagnostic::new("RPM444", Severity::Warn, "adjacent `%if` blocks have mutually exclusive conditions; fold the second into an `%elif` of the first", curr.data).with_advice(
                        "rewrite as `%if A … %elif B … %endif`",
                    ),
                );
            }
        },
        None => {},
    }
}

fn scan_adjacent(items: &Vec<Item>, source: &str, out: &mut Vec<Diagnostic>)
    ensures
        reports(final(out)@) == reports(old(out)@) + list_findings(items@, items@.len(), source@),
{
    let ghost start = reports(out@);
    let mut prev: Option<&Conditional> = None;
    let mut i: usize = 0;
    assert(start + list_findings(items@, 0, source@) == start);
    while i < items.len()
        invariant
            i <= items.len(),
            prev is Some <==> neighbour(items@, i as int) is Some,
            prev matches Some(p) ==> neighbour(items@, i as int) == Some(*p),
            reports(out@) == start + list_findings(items@, i as nat, source@),
        decreases items.len() - i,
    {
        let ghost so_far = list_findings(items@, i as nat, source@);
        let ghost here = item_findings(items@, i as int, source@);
        assert(start + so_far + here == start + (so_far + here));
        match &items[i] {
            Item::Conditional(c) => {
                match prev {
                    Some(p) => {
                        check_pair(p, c, source, out);
                    },
                    None => {
                        assert(so_far + here == so_far);
                    },
                }
                prev = Some(c);
            },
            _ => {
                assert(so_far + here == so_far);
                if body_span(&items[i], false).is_some() {
                    prev = None;
                }
            },
        }
        i = i + 1;
    }
}

/// RPM444 `adjacent-mutually-exclusive-ifs-to-elif`: Two adjacent `%if` blocks have
/// mutually exclusive conditions — merge into one `%if` / `%elif` chain.
#[derive(Debug)]
pub struct AdjacentMutexIfs {
    pub diagnostics: Vec<Diagnostic>,
    pub source: String,
}

impl AdjacentMutexIfs {
    pub fn new() -> (r: AdjacentMutexIfs)
        ensures
            r.pending() == Seq::<DiagnosticView>::empty(),
            r.source@ == Seq::<char>::empty(),
    {
        let r = AdjacentMutexIfs { diagnostics: Vec::new(), source: String::new() };
        assert(r.pending() =~= Seq::<DiagnosticView>::empty());
        r
    }
}

impl Default for AdjacentMutexIfs {
    fn default() -> (r: AdjacentMutexIfs)
        ensures
            r.pending() == Seq::<DiagnosticView>::empty(),
            r.source@ == Seq::<char>::empty(),
    {
        AdjacentMutexIfs::new()
    }
}

impl Lint for AdjacentMutexIfs {
    open spec fn identity() -> Identity {
        Identity {
            id: "RPM444"@,
            name: "adjacent-mutually-exclusive-ifs-to-elif"@,
            description: "Two adjacent `%if` blocks have mutually exclusive conditions — merge into one `%if` / `%elif` chain."@,
            default_severity: Severity::Warn,
            category: LintCategory::Style,
        }
    }

    open spec fn pending(&self) -> Seq<DiagnosticView> {
        reports(self.diagnostics@)
    }

    open spec fn after(&self, spec: SpecFile) -> Seq<DiagnosticView> {
        self.pending() + mutex_findings(spec, self.source@)
    }

    open spec fn same_settings(&self, other: &Self) -> bool {
        self.source == other.source
    }

    fn metadata(&self) -> (r: LintMetadata) {
        LintMetadata {
            id: "RPM444",
            name: "adjacent-mutually-exclusive-ifs-to-elif",
            description: "Two adjacent `%if` blocks have mutually exclusive conditions — merge into one `%if` / `%elif` chain.",
            default_severity: Severity::Warn,
            category: LintCategory::Style,
        }
    }

    fn visit_spec(&mut self, spec: &SpecFile) {
        let all = lists(spec);
        let ghost views = list_views(all@);
        let ghost source = self.source@;
        let ghost f = |l: Seq<Item>| list_findings(l, l.len(), source);
        let ghost start = self.pending();
        let mut i: usize = 0;
        assert(start + flat(views.take(0), f) == start);
        while i < all.len()
            invariant
                i <= all.len(),
                self.source == old(self).source,
                source == self.source@,
                views == list_views(all@),
                f == (|l: Seq<Item>| list_findings(l, l.len(), source)),
                self.pending() == start + flat(views.take(i as int), f),
            decreases all.len() - i,
        {
            let ghost so_far = flat(views.take(i as int), f);
            assert(views[i as int] == all@[i as int]@);
            scan_adjacent(all[i], self.source.as_str(), &mut self.diagnostics);
            proof {
                lemma_flat_step(views, f, i as int);
                assert(start + so_far + f(views[i as int]) == start + (so_far + f(views[i as int])));
            }
            i = i + 1;
        }
        assert(views.take(i as int) == views);
    }

    fn take_diagnostics(&mut self) -> (r: Vec<Diagnostic>) {
        drain(&mut self.diagnostics)
    }
}

impl AdjacentMutexIfs {
    /// Gives the rule the source text that bodies are compared in.
    pub fn set_source(&mut self, source: &str)
        ensures
            final(self).source@ == source@,
            final(self).pending() == old(self).pending(),
    {
        self.source = source.to_owned();
    }
}

/// Two conditions that are reported exclude each other: no values make both
/// true, so the second block can be an `%elif` of the first.
pub proof fn reported_conditions_exclude_each_other(
    a: CondExpr,
    b: CondExpr,
    val: spec_fn(Seq<char>) -> bool,
)
    requires
        conjunction(a, b) == Some(Set::<Set<Literal>>::empty()),
        cond_dnf(b, cond_dnf(a, Seq::empty(), false).keys, false).keys.len() <= usize::MAX,
    ensures
        !(cond_truth(a, val) && cond_truth(b, val)),
{
    let none = Seq::<Seq<char>>::empty();
    let x = cond_dnf(a, none, false);
    let y = cond_dnf(b, x.keys, false);
    lemma_cond_grows(b, x.keys, false);
    normal_form_means_condition(a, none, false, val);
    normal_form_means_condition(b, x.keys, false, val);
    let p = x.dnf.unwrap();
    let q = y.dnf.unwrap();
    let env = valuation(y.keys, val);
    lemma_more_atoms(p, x.keys, y.keys, val);
    product_means_and(p, q, env);
    assert(product(p, q) == Set::<Set<Literal>>::empty());
    assert(!dnf_holds(Set::<Set<Literal>>::empty(), env));
}

/// Whether blocks `i` and `n` of a list stand next to each other: nothing
/// that has a place in the source stands between them.
pub open spec fn are_neighbours(items: Seq<Item>, i: int, n: int) -> bool {
    &&& 0 <= i < n < items.len()
    &&& items[i] is Conditional && items[n] is Conditional
    &&& forall|k: int| i < k < n ==> item_span(#[trigger] items[k], false) is None
}

proof fn lemma_neighbour(items: Seq<Item>, n: int)
    requires
        0 <= n <= items.len(),
    ensures
        match neighbour(items, n) {
            Some(c) => exists|i: int|
                0 <= i < n && #[trigger] items[i] == Item::Conditional(c) && forall|k: int|
                    i < k < n ==> item_span(#[trigger] items[k], false) is None,
            None => forall|i: int|
                0 <= i < n && (#[trigger] items[i] is Conditional) ==> exists|k: int|
                    i < k < n && item_span(#[trigger] items[k], false) is Some,
        },
    decreases n,
{
    if n > 0 {
        let x = items[n - 1];
        if !(x is Conditional) {
            if item_span(x, false) is None {
                lemma_neighbour(items, n - 1);
                match neighbour(items, n - 1) {
                    Some(_) => {},
                    None => {
                        assert forall|i: int|
                            0 <= i < n && (#[trigger] items[i] is Conditional) implies exists|k: int|
                            i < k < n && item_span(#[trigger] items[k], false) is Some by {
                            assert(i < n - 1);
                            let k = choose|k: int|
                                i < k < n - 1 && item_span(#[trigger] items[k], false) is Some;
                            assert(i < k < n);
                        }
                    },
                }
            } else {
                assert forall|i: int|
                    0 <= i < n && (#[trigger] items[i] is Conditional) implies exists|k: int|
                    i < k < n && item_span(#[trigger] items[k], false) is Some by {
                    assert(i < n - 1);
                    assert(item_span(items[n - 1], false) is Some);
                }
            }
        } else {
            assert(items[n - 1] == x);
        }
    }
}

/// Whether block `n` is reported for block `i`, at `span`.
pub open spec fn excludes_neighbour(
    items: Seq<Item>,
    i: int,
    n: int,
    source: Seq<char>,
    span: Span,
) -> bool {
    &&& are_neighbours(items, i, n)
    &&& match (items[i], items[n]) {
        (Item::Conditional(a), Item::Conditional(b)) => {
            let p = a.branches@[0];
            let q = b.branches@[0];
            &&& b.data == span
            &&& a.branches@.len() == 1 && a.otherwise is None && p.kind == CondKind::If
            &&& b.branches@.len() == 1 && b.otherwise is None && q.kind == CondKind::If
            &&& !resolvably_eq(p.expr, q.expr)
            &&& !bodies_alike(p.body@, q.body@, source, false)
            &&& conjunction(p.expr, q.expr) == Some(Set::<Set<Literal>>::empty())
        },
        _ => false,
    }
}

proof fn lemma_first_exclusive(items: Seq<Item>, n: nat, source: Seq<char>, span: Span)
    requires
        n <= items.len(),
    ensures
        says_at(list_findings(items, n, source), span) <==> exists|i: int, j: int|
            j < n && #[trigger] excludes_neighbour(items, i, j, source, span),
    decreases n,
{
    if n > 0 {
        let k = n - 1;
        lemma_first_exclusive(items, k as nat, source, span);
        lemma_neighbour(items, k);
        let here = item_findings(items, k, source);
        lemma_says_either(list_findings(items, k as nat, source), here, span);
        match (neighbour(items, k), items[k]) {
            (Some(a), Item::Conditional(b)) => {
                lemma_says_given(exclusive(a, b, source), exclusive_report(b.data), span);
                let i = choose|i: int|
                    0 <= i < k && #[trigger] items[i] == Item::Conditional(a) && forall|j: int|
                        i < j < k ==> item_span(#[trigger] items[j], false) is None;
                assert(are_neighbours(items, i, k));
                if says_at(here, span) {
                    assert(excludes_neighbour(items, i, k, source, span));
                }
                if exists|j: int| #[trigger] excludes_neighbour(items, j, k, source, span) {
                    let j = choose|j: int| #[trigger]
                        excludes_neighbour(items, j, k, source, span);
                    assert(i == j) by {
                        if i < j {
                            assert(item_span(items[j], false) is None);
                        }
                        if j < i {
                            assert(item_span(items[i], false) is None);
                        }
                    }
                }
            },
            (None, Item::Conditional(_)) => {
                if exists|j: int| #[trigger] excludes_neighbour(items, j, k, source, span) {
                    let j = choose|j: int| #[trigger]
                        excludes_neighbour(items, j, k, source, span);
                    assert(items[j] is Conditional);
                }
            },
            _ => {},
        }
    }
}

/// In a list exactly those blocks are reported whose neighbour before them is
/// a plain `%if` too, with another body and a condition that excludes theirs.
pub proof fn exclusive_neighbours_are_reported(items: Seq<Item>, source: Seq<char>, span: Span)
    ensures
        says_at(list_findings(items, items.len(), source), span) <==> exists|i: int, j: int| #[trigger]
            excludes_neighbour(items, i, j, source, span),
{
    lemma_first_exclusive(items, items.len(), source, span);
}

} // verus!
