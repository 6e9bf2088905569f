//! Runs of `%doc` lines in a `%files` section.
use vstd::prelude::*;

use crate::ast::{Conditional, FileDirective, FileEntry, Item, Section, Span, SpecFile};
use crate::diagnostic::{Diagnostic, DiagnosticView, LintCategory, Severity, plain, reports};
use crate::lint::{Identity, Lint, LintMetadata, drain};
use crate::rules::{given, say};
use crate::text::before;
use crate::walk::{arms, flat, lemma_flat_step};
use crate::report_laws::{lemma_says_either, lemma_says_flat, lemma_says_given, says_at};

verus! {

/// Whether a line marks a path with `directive` and with nothing else.
pub open spec fn marks_path(e: FileEntry, directive: FileDirective) -> bool {
    &&& e.has_path
    &&& e.directives@.len() > 0
    &&& forall|i: int| 0 <= i < e.directives@.len() ==> #[trigger] e.directives@[i] == directive
}

fn is_marked(e: &FileEntry, directive: FileDirective) -> (r: bool)
    ensures
        r == marks_path(*e, directive),
{
    if !e.has_path || e.directives.len() == 0 {
        return false;
    }
    let mut i: usize = 0;
    while i < e.directives.len()
        invariant
            i <= e.directives.len(),
            forall|j: int| 0 <= j < i ==> #[trigger] e.directives@[j] == directive,
        decreases e.directives.len() - i,
    {
        if e.directives[i] != directive {
            assert(e.directives@[i as int] != directive);
            return false;
        }
        i = i + 1;
    }
    true
}

/// What is reported of a marked line that follows another.
pub open spec fn run_report(directive: FileDirective, span: Span) -> DiagnosticView {
    if directive is Doc {
        plain("RPM510"@, Severity::Warn, "adjacent `%doc` entries — merge into one `%doc A B C` line"@, span).advise(
            "combine consecutive `%doc PATH` entries into a single `%doc PATH1 PATH2 …` line"@,
        )
    } else {
        plain("RPM511"@, Severity::Warn, "adjacent `%license` entries — merge into one `%license A B C` line"@, span).advise(
            "combine consecutive `%license PATH` entries into a single `%license PATH1 PATH2 …` line"@,
        )
    }
}

/// What a scan has seen: whether the last line was marked, and the reports.
pub struct Run {
    pub open: bool,
    pub out: Seq<DiagnosticView>,
}

/// The scan of the first `n` items. Blank lines and comments do not end a run
/// of marked lines; the bodies of conditionals are scanned on their own.
pub open spec fn scanned(items: Seq<Item>, n: nat, directive: FileDirective) -> Run
    decreases items, n,
{
    if n == 0 || n > items.len() {
        Run { open: false, out: Seq::empty() }
    } else {
        let before = scanned(items, (n - 1) as nat, directive);
        match items[n - 1] {
            Item::Entry(e) => if marks_path(e, directive) {
                Run {
                    open: true,
                    out: before.out + given(before.open, run_report(directive, e.data)),
                }
            } else {
                Run { open: false, out: before.out }
            },
            Item::Blank => before,
            Item::Comment(_) => before,
            Item::Conditional(c) => Run { open: false, out: before.out + cond_findings(c, directive) },
            _ => Run { open: false, out: before.out },
        }
    }
}

/// The reports on a list of items.
pub open spec fn run_findings(items: Seq<Item>, directive: FileDirective) -> Seq<DiagnosticView>
    decreases items, items.len() + 1,
{
    scanned(items, items.len(), directive).out
}

pub open spec fn cond_findings(c: Conditional, directive: FileDirective) -> Seq<DiagnosticView>
    decreases c, c.branches@.len() + 1,
{
    let arms = arm_findings(c, c.branches@.len(), directive);
    match c.otherwise {
        Some(body) => arms + run_findings(body@, directive),
        None => arms,
    }
}

pub open spec fn arm_findings(c: Conditional, n: nat, directive: FileDirective) -> Seq<DiagnosticView>
    decreases c, n,
{
    if n == 0 || n > c.branches@.len() {
        Seq::empty()
    } else {
        arm_findings(c, (n - 1) as nat, directive) + run_findings(c.branches@[n - 1].body@, directive)
    }
}

/// The reports on the `%files` sections at the top level.
pub open spec fn files_findings(item: Item, directive: FileDirective) -> Seq<DiagnosticView> {
    match item {
        Item::Section(s) => match *s {
            Section::Files { content, .. } => run_findings(content@, directive),
            _ => Seq::empty(),
        },
        _ => Seq::empty(),
    }
}

fn report_run(directive: FileDirective, span: Span, out: &mut Vec<Diagnostic>)
    ensures
        reports(final(out)@) == reports(old(out)@) + seq![run_report(directive, span)],
{
    if matches!(directive, FileDirective::Doc) {
        say(
            out,
            Diagnostic::new("RPM510", Severity::Warn, "adjacent `%doc` entries — merge into one `%doc A B C` line", span).with_advice(
                "combine consecutive `%doc PATH` entries into a single `%doc PATH1 PATH2 …` line",
            ),
        );
    } else {
        say(
            out,
            Diagnostic::new("RPM511", Severity::Warn, "adjacent `%license` entries — merge into one `%license A B C` line", span).with_advice(
                "combine consecutive `%license PATH` entries into a single `%license PATH1 PATH2 …` line",
            ),
        );
    }
}

fn scan_files_content(items: &Vec<Item>, directive: FileDirective, out: &mut Vec<Diagnostic>)
    ensures
        reports(final(out)@) == reports(old(out)@) + run_findings(items@, directive),
    decreases items, 0int,
{
    let ghost start = reports(out@);
    let mut open = false;
    let mut i: usize = 0;
    assert(start + scanned(items@, 0, directive).out == start);
    while i < items.len()
        invariant
            i <= items.len(),
            open == scanned(items@, i as nat, directive).open,
            reports(out@) == start + scanned(items@, i as nat, directive).out,
        decreases items.len() - i,
    {
        let ghost so_far = scanned(items@, i as nat, directive).out;
        match &items[i] {
            Item::Entry(e) => {
                if is_marked(e, directive) {
                    if open {
                        report_run(directive, e.data, out);
                        assert(start + so_far + seq![run_report(directive, e.data)] == start + (so_far + seq![run_report(directive, e.data)]));
                    } else {
                        assert(so_far + Seq::<DiagnosticView>::empty() == so_far);
                    }
                    open = true;
                } else {
                    open = false;
                }
            },
            Item::Blank => {},
            Item::Comment(_) => {},
            Item::Conditional(c) => {
                scan_conditional(c, directive, out);
                assert(start + so_far + cond_findings(*c, directive) == start + (so_far + cond_findings(*c, directive)));
                open = false;
            },
            _ => {
                open = false;
            },
        }
        i = i + 1;
    }
}

fn scan_conditional(c: &Conditional, directive: FileDirective, out: &mut Vec<Diagnostic>)
    ensures
        reports(final(out)@) == reports(old(out)@) + cond_findings(*c, directive),
    decreases c, 0int,
{
    let ghost start = reports(out@);
    let mut i: usize = 0;
    assert(start + arm_findings(*c, 0, directive) == start);
    while i < c.branches.len()
        invariant
            i <= c.branches.len(),
            reports(out@) == start + arm_findings(*c, i as nat, directive),
        decreases c.branches.len() - i,
    {
        scan_files_content(&c.branches[i].body, directive, out);
        proof {
            let a = arm_findings(*c, i as nat, directive);
            let b = run_findings(c.branches@[i as int].body@, directive);
            assert(arm_findings(*c, (i + 1) as nat, directive) == a + b);
            assert(start + a + b == start + (a + b));
        }
        i = i + 1;
    }
    match &c.otherwise {
        Some(body) => {
            scan_files_content(body, directive, out);
            proof {
                let a = arm_findings(*c, i as nat, directive);
                let b = run_findings(body@, directive);
                assert(start + a + b == start + (a + b));
            }
        },
        None => {},
    }
}

/// The reports on all `%files` sections at the top level.
pub open spec fn all_files_findings(spec: SpecFile, directive: FileDirective) -> Seq<DiagnosticView> {
    flat(spec.items@, |item: Item| files_findings(item, directive))
}

pub fn scan_spec(spec: &SpecFile, directive: FileDirective, out: &mut Vec<Diagnostic>)
    ensures
        reports(final(out)@) == reports(old(out)@) + all_files_findings(*spec, directive),
{
    let ghost f = |item: Item| files_findings(item, directive);
    let ghost start = reports(out@);
    let mut i: usize = 0;
    assert(start + flat(spec.items@.take(0), f) == start);
    while i < spec.items.len()
        invariant
            i <= spec.items.len(),
            f == (|item: Item| files_findings(item, directive)),
            reports(out@) == start + flat(spec.items@.take(i as int), f),
        decreases spec.items.len() - i,
    {
        let ghost so_far = flat(spec.items@.take(i as int), f);
        let ghost here = f(spec.items@[i as int]);
        let mut scanned_one = false;
        match &spec.items[i] {
            Item::Section(s) => match &**s {
                Section::Files { content, .. } => {
                    scanned_one = true;
                    scan_files_content(content, directive, out);
                },
                _ => {},
            },
            _ => {},
        }
        proof {
            lemma_flat_step(spec.items@, f, i as int);
            assert(start + so_far + here == start + (so_far + here));
            if !scanned_one {
                assert(so_far + here == so_far);
            }
        }
        i = i + 1;
    }
    assert(spec.items@.take(i as int) == spec.items@);
}

/// RPM510 `adjacent-doc-lines-merge`: Adjacent `%doc PATH` entries within one `%files`
/// section — merge into a single `%doc A B C` line.
#[derive(Debug)]
pub struct AdjacentDocLines {
    pub diagnostics: Vec<Diagnostic>,
}

impl AdjacentDocLines {
    pub fn new() -> (r: AdjacentDocLines)
        ensures
            r.pending() == Seq::<DiagnosticView>::empty(),
    {
        let r = AdjacentDocLines { diagnostics: Vec::new() };
        assert(r.pending() =~= Seq::<DiagnosticView>::empty());
        r
    }
}

impl Default for AdjacentDocLines {
    fn default() -> (r: AdjacentDocLines)
        ensures
            r.pending() == Seq::<DiagnosticView>::empty(),
    {
        AdjacentDocLines::new()
    }
}

impl Lint for AdjacentDocLines {
    open spec fn identity() -> Identity {
        Identity {
            id: "RPM510"@,
            name: "adjacent-doc-lines-merge"@,
            description: "Adjacent `%doc PATH` entries within one `%files` section — merge into a single `%doc A B C` line."@,
            default_severity: Severity::Warn,
            category: LintCategory::Style,
        }
    }

    open spec fn pending(&self) -> Seq<DiagnosticView> {
        reports(self.diagnostics@)
    }

    open spec fn after(&self, spec: SpecFile) -> Seq<DiagnosticView> {
        self.pending() + all_files_findings(spec, FileDirective::Doc)
    }

    open spec fn same_settings(&self, other: &Self) -> bool {
        true
    }

    fn metadata(&self) -> (r: LintMetadata) {
        LintMetadata {
            id: "RPM510",
            name: "adjacent-doc-lines-merge",
            description: "Adjacent `%doc PATH` entries within one `%files` section — merge into a single `%doc A B C` line.",
            default_severity: Severity::Warn,
            category: LintCategory::Style,
        }
    }

    fn visit_spec(&mut self, spec: &SpecFile) {
        scan_spec(spec, FileDirective::Doc, &mut self.diagnostics);
    }

    fn take_diagnostics(&mut self) -> (r: Vec<Diagnostic>) {
        drain(&mut self.diagnostics)
    }
}

/// A line of a `%files` section that marks a path with `directive` and with no
/// other.
pub open spec fn is_marked_line(item: Item, directive: FileDirective) -> bool {
    item matches Item::Entry(e) && e.has_path && e.directives@.len() > 0 && forall|i: int|
        0 <= i < e.directives@.len() ==> #[trigger] e.directives@[i] == directive
}

/// A marked line stands before `n`, with nothing but blank lines and comments
/// between.
pub open spec fn follows_marked(items: Seq<Item>, n: int, directive: FileDirective) -> bool {
    exists|m: int|
        0 <= m < n && is_marked_line(#[trigger] items[m], directive) && forall|k: int|
            m < k < n ==> (#[trigger] items[k] is Blank) || items[k] is Comment
}

proof fn lemma_open(items: Seq<Item>, n: nat, directive: FileDirective)
    requires
        n <= items.len(),
    ensures
        scanned(items, n, directive).open <==> follows_marked(items, n as int, directive),
    decreases n,
{
    if n > 0 {
        let l = (n - 1) as nat;
        lemma_open(items, l, directive);
        let x = items[n - 1];
        if is_marked_line(x, directive) {
            assert(follows_marked(items, n as int, directive));
        }
        if x is Blank || x is Comment {
            if follows_marked(items, l as int, directive) {
                let m = choose|m: int|
                    0 <= m < l && is_marked_line(#[trigger] items[m], directive) && forall|k: int|
                        m < k < l ==> (#[trigger] items[k] is Blank) || items[k] is Comment;
                assert(0 <= m < n && is_marked_line(items[m], directive));
            }
        }
        if follows_marked(items, n as int, directive) {
            let m = choose|m: int|
                0 <= m < n && is_marked_line(#[trigger] items[m], directive) && forall|k: int|
                    m < k < n ==> (#[trigger] items[k] is Blank) || items[k] is Comment;
            if m < l {
                assert(items[l as int] is Blank || items[l as int] is Comment);
                assert(0 <= m < l && is_marked_line(items[m], directive));
            }
        }
    }
}

/// Something is said at `span` in an arm of the conditional.
pub open spec fn said_in_arm(c: Conditional, directive: FileDirective, span: Span) -> bool {
    ||| exists|i: int|
        0 <= i < c.branches@.len() && says_at(
            run_findings((#[trigger] c.branches@[i]).body@, directive),
            span,
        )
    ||| c.otherwise matches Some(body) && says_at(run_findings(body@, directive), span)
}

/// Item `n` is reported at `span`: it follows a marked line and is one, or it
/// holds a line that is reported.
pub open spec fn reported_item(
    items: Seq<Item>,
    n: int,
    directive: FileDirective,
    span: Span,
) -> bool {
    match items[n] {
        Item::Entry(e) => is_marked_line(items[n], directive) && follows_marked(items, n, directive)
            && e.data == span,
        Item::Conditional(c) => said_in_arm(c, directive, span),
        _ => false,
    }
}

proof fn lemma_said_in_arm(c: Conditional, n: nat, directive: FileDirective, span: Span)
    requires
        n <= c.branches@.len(),
    ensures
        says_at(arm_findings(c, n, directive), span) <==> exists|i: int|
            0 <= i < n && says_at(run_findings((#[trigger] c.branches@[i]).body@, directive), span),
    decreases n,
{
    if n > 0 {
        let m = (n - 1) as nat;
        lemma_said_in_arm(c, m, directive, span);
        assert(arm_findings(c, n, directive) == arm_findings(c, m, directive) + run_findings(
            c.branches@[n - 1].body@,
            directive,
        ));
        lemma_says_either(
            arm_findings(c, m, directive),
            run_findings(c.branches@[n - 1].body@, directive),
            span,
        );
        if says_at(arm_findings(c, m, directive), span) {
            let i = choose|i: int|
                0 <= i < m && says_at(
                    run_findings((#[trigger] c.branches@[i]).body@, directive),
                    span,
                );
            assert(0 <= i < n);
        }
        if exists|i: int|
            0 <= i < n && says_at(run_findings((#[trigger] c.branches@[i]).body@, directive), span) {
            let i = choose|i: int|
                0 <= i < n && says_at(
                    run_findings((#[trigger] c.branches@[i]).body@, directive),
                    span,
                );
            if i < m {
                assert(0 <= i < m);
            }
        }
    }
}

proof fn lemma_scanned(items: Seq<Item>, n: nat, directive: FileDirective, span: Span)
    requires
        n <= items.len(),
    ensures
        says_at(scanned(items, n, directive).out, span) <==> exists|k: int|
            0 <= k < n && reported_item(items, k, directive, span) && #[trigger] items[k] == items[k],
    decreases n,
{
    if n > 0 {
        let l = (n - 1) as nat;
        let before = scanned(items, l, directive);
        lemma_scanned(items, l, directive, span);
        lemma_open(items, l, directive);
        match items[n - 1] {
            Item::Entry(e) => {
                lemma_says_given(before.open, run_report(directive, e.data), span);
                lemma_says_either(
                    before.out,
                    given(before.open, run_report(directive, e.data)),
                    span,
                );
            },
            Item::Conditional(c) => {
                lemma_says_either(before.out, cond_findings(c, directive), span);
                lemma_said_in_arm(c, c.branches@.len(), directive, span);
                match c.otherwise {
                    Some(body) => lemma_says_either(
                        arm_findings(c, c.branches@.len(), directive),
                        run_findings(body@, directive),
                        span,
                    ),
                    None => {},
                }
            },
            _ => {},
        }
        assert(says_at(scanned(items, n, directive).out, span) <==> says_at(before.out, span)
            || reported_item(items, n - 1, directive, span));
        if says_at(before.out, span) {
            let k = choose|k: int|
                0 <= k < l && reported_item(items, k, directive, span) && #[trigger] items[k]
                    == items[k];
            assert(0 <= k < n && items[k] == items[k]);
        }
        if reported_item(items, n - 1, directive, span) {
            assert(items[n - 1] == items[n - 1]);
        }
        if exists|k: int|
            0 <= k < n && reported_item(items, k, directive, span) && #[trigger] items[k] == items[k] {
            let k = choose|k: int|
                0 <= k < n && reported_item(items, k, directive, span) && #[trigger] items[k]
                    == items[k];
            if k < l {
                assert(0 <= k < l && items[k] == items[k]);
            }
        }
    }
}

/// A line is reported exactly if it marks a path and the last line before it
/// that does something marks one too, in the same list.
pub proof fn marked_runs_are_reported(items: Seq<Item>, directive: FileDirective, span: Span)
    ensures
        says_at(run_findings(items, directive), span) <==> exists|k: int|
            0 <= k < items.len() && reported_item(items, k, directive, span) && #[trigger] items[k]
                == items[k],
{
    lemma_scanned(items, items.len(), directive, span);
}

/// The `%files` sections at the top level are looked into.
pub proof fn every_files_section_is_scanned(spec: SpecFile, directive: FileDirective, span: Span)
    ensures
        says_at(all_files_findings(spec, directive), span) <==> exists|i: int|
            0 <= i < spec.items@.len() && (#[trigger] spec.items@[i] matches Item::Section(s) && (*s
                matches Section::Files { content, .. } && says_at(
                run_findings(content@, directive),
                span,
            ))),
{
    let f = |item: Item| files_findings(item, directive);
    lemma_says_flat(spec.items@, f, span);
    assert forall|i: int| 0 <= i < spec.items@.len() implies (says_at(
        f(#[trigger] spec.items@[i]),
        span,
    ) <==> (spec.items@[i] matches Item::Section(s) && (*s matches Section::Files { content, .. }
        && says_at(run_findings(content@, directive), span)))) by {}
    if says_at(all_files_findings(spec, directive), span) {
        let i = choose|i: int| 0 <= i < spec.items@.len() && says_at(f(#[trigger] spec.items@[i]), span);
        assert(spec.items@[i] is Section);
    }
}

} // verus!
