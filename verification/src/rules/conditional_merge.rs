//! Adjacent blocks and branches that can be merged.
use vstd::prelude::*;

use crate::ast::{CondBranch, CondKind, Conditional, Item, Section, Span, SpecFile};
use crate::bodies::{bodies_alike, bodies_source_eq};
use crate::diagnostic::{Diagnostic, DiagnosticView, LintCategory, Severity, plain, reports};
use crate::expr::{cond_expr_resolvably_eq, resolvably_eq};
use crate::expr_laws::alike_conditions_are_true_together;
use crate::lint::{Identity, Lint, LintMetadata, drain};
use crate::path_laws::branch_truth;
use crate::rules::{SiteRule, given, run_sites, say, site_findings};
use crate::text::opt_string;
use crate::walk::{Site, SiteView};
use crate::report_laws::{lemma_says_either, lemma_says_given, says_at};

verus! {

/// One branch, no `%elif` and no `%else`.
pub open spec fn is_simple(c: Conditional) -> bool {
    c.branches@.len() == 1 && c.otherwise is None
}

fn is_simple_conditional(c: &Conditional) -> (r: bool)
    ensures
        r == is_simple(*c),
{
    c.branches.len() == 1 && c.otherwise.is_none()
}

/// Whether one keyword asks the opposite of the other.
pub open spec fn opposite_kinds(a: CondKind, b: CondKind) -> bool {
    ||| a is IfArch && b is IfNArch
    ||| a is IfNArch && b is IfArch
    ||| a is IfOs && b is IfNOs
    ||| a is IfNOs && b is IfOs
}

fn anti_arch_kinds(a: CondKind, b: CondKind) -> (r: bool)
    ensures
        r == opposite_kinds(a, b),
{
    match (a, b) {
        (CondKind::IfArch, CondKind::IfNArch) => true,
        (CondKind::IfNArch, CondKind::IfArch) => true,
        (CondKind::IfOs, CondKind::IfNOs) => true,
        (CondKind::IfNOs, CondKind::IfOs) => true,
        _ => false,
    }
}

/// How two adjacent blocks belong together.
#[derive(Clone, Copy, Debug, PartialEq, Eq, Structural)]
pub enum Link {
    /// They ask the same.
    Same,
    /// One asks for a platform, the other for every other platform.
    Opposite,
}

/// Whether two simple blocks are linked.
pub open spec fn linked(a: Conditional, b: Conditional, link: Link) -> bool {
    &&& is_simple(a)
    &&& is_simple(b)
    &&& match link {
        Link::Same => a.branches@[0].kind == b.branches@[0].kind,
        Link::Opposite => opposite_kinds(a.branches@[0].kind, b.branches@[0].kind),
    }
    &&& resolvably_eq(a.branches@[0].expr, b.branches@[0].expr)
}

fn are_linked(a: &Conditional, b: &Conditional, link: Link) -> (r: bool)
    ensures
        r == linked(*a, *b, link),
{
    if !is_simple_conditional(a) || !is_simple_conditional(b) {
        return false;
    }
    match link {
        Link::Same => {
            if a.branches[0].kind != b.branches[0].kind {
                return false;
            }
        },
        Link::Opposite => {
            if !anti_arch_kinds(a.branches[0].kind, b.branches[0].kind) {
                return false;
            }
        },
    }
    cond_expr_resolvably_eq(&a.branches[0].expr, &b.branches[0].expr)
}

/// The last item before `n` that is not a blank line.
pub open spec fn previous(items: Seq<Item>, n: int) -> Option<Item>
    decreases n,
{
    if n <= 0 || n > items.len() {
        None
    } else if items[n - 1] is Blank {
        previous(items, n - 1)
    } else {
        Some(items[n - 1])
    }
}

/// Whether item `n` is a block that is linked to the item before it.
pub open spec fn follows(items: Seq<Item>, n: int, link: Link) -> bool {
    match (previous(items, n), items[n]) {
        (Some(Item::Conditional(a)), Item::Conditional(b)) => linked(a, b, link),
        _ => false,
    }
}

pub open spec fn link_report(link: Link, item: Item) -> DiagnosticView {
    let span = match item {
        Item::Conditional(c) => c.data,
        _ => Span::bytes(0, 0),
    };
    match link {
        Link::Same => plain("RPM076"@, Severity::Warn, "this `%if` repeats the condition of the previous adjacent block; merge them"@, span).advise(
            "delete the `%endif` / `%if EXPR` pair between the two bodies"@,
        ),
        Link::Opposite => plain("RPM084"@, Severity::Warn, "adjacent `%ifarch X` and `%ifnarch X` (or `%ifos`/`%ifnos`) pair — fold the second block into an `%else`"@, span).advise(
            "merge into `%ifarch X ... %else ... %endif`"@,
        ),
    }
}

/// The reports on the first `n` items of a list.
pub open spec fn pair_findings(items: Seq<Item>, n: nat, link: Link) -> Seq<DiagnosticView>
    decreases n,
{
    if n == 0 {
        Seq::empty()
    } else {
        pair_findings(items, (n - 1) as nat, link) + given(
            follows(items, n - 1, link),
            link_report(link, items[n - 1]),
        )
    }
}

/// The reports on a list of items.
pub open spec fn list_findings(items: Seq<Item>, link: Link) -> Seq<DiagnosticView> {
    pair_findings(items, items.len(), link)
}

pub open spec fn package_findings(item: Item, link: Link) -> Seq<DiagnosticView> {
    match item {
        Item::Section(s) => match *s {
            Section::Package { content, .. } => list_findings(content@, link),
            _ => Seq::empty(),
        },
        _ => Seq::empty(),
    }
}

pub open spec fn files_findings(item: Item, link: Link) -> Seq<DiagnosticView> {
    match item {
        Item::Section(s) => match *s {
            Section::Files { content, .. } => list_findings(content@, link),
            _ => Seq::empty(),
        },
        _ => Seq::empty(),
    }
}

/// The reports on the packages, on the `%files` sections, or on both, as they
/// come.
pub open spec fn sections_findings(items: Seq<Item>, link: Link, packages: bool, files: bool) -> Seq<DiagnosticView>
    decreases items.len(),
{
    if items.len() == 0 {
        Seq::empty()
    } else {
        sections_findings(items.drop_last(), link, packages, files) + (if packages {
            package_findings(items.last(), link)
        } else {
            Seq::empty()
        }) + (if files {
            files_findings(items.last(), link)
        } else {
            Seq::empty()
        })
    }
}

/// The top level, then all packages, then all `%files` sections.
pub open spec fn merge_findings(spec: SpecFile) -> Seq<DiagnosticView> {
    list_findings(spec.items@, Link::Same) + sections_findings(
        spec.items@,
        Link::Same,
        true,
        false,
    ) + sections_findings(spec.items@, Link::Same, false, true)
}

/// The top level, then the packages and `%files` sections as they come.
pub open spec fn fold_findings(spec: SpecFile) -> Seq<DiagnosticView> {
    list_findings(spec.items@, Link::Opposite) + sections_findings(
        spec.items@,
        Link::Opposite,
        true,
        true,
    )
}

fn report_link(link: Link, span: Span, out: &mut Vec<Diagnostic>)
    ensures
        forall|c: Conditional|
            c.data == span ==> reports(final(out)@) == reports(old(out)@) + seq![
                #[trigger] link_report(link, Item::Conditional(c)),
            ],
{
    match link {
        Link::Same => {
            say(
                out,
                Diagnostic::new("RPM076", Severity::Warn, "this `%if` repeats the condition of the previous adjacent block; merge them", span).with_advice(
                    "delete the `%endif` / `%if EXPR` pair between the two bodies",
                ),
            );
        },
        Link::Opposite => {
            say(
                out,
                Diagnostic::new("RPM084", Severity::Warn, "adjacent `%ifarch X` and `%ifnarch X` (or `%ifos`/`%ifnos`) pair — fold the second block into an `%else`", span).with_advice(
                    "merge into `%ifarch X ... %else ... %endif`",
                ),
            );
        },
    }
}

fn scan_pairs(items: &Vec<Item>, link: Link, out: &mut Vec<Diagnostic>)
    ensures
        reports(final(out)@) == reports(old(out)@) + list_findings(items@, link),
{
    let ghost start = reports(out@);
    let mut prev: Option<&Item> = None;
    let mut i: usize = 0;
    assert(start + pair_findings(items@, 0, link) == start);
    while i < items.len()
        invariant
            i <= items.len(),
            prev is Some <==> previous(items@, i as int) is Some,
            prev matches Some(p) ==> previous(items@, i as int) == Some(*p),
            reports(out@) == start + pair_findings(items@, i as nat, link),
        decreases items.len() - i,
    {
        let ghost so_far = pair_findings(items@, i as nat, link);
        let mut found = false;
        match (prev, &items[i]) {
            (Some(Item::Conditional(a)), Item::Conditional(b)) => {
                if are_linked(a, b, link) {
                    found = true;
                    report_link(link, b.data, out);
                    let d = Ghost(link_report(link, items@[i as int]));
                    assert(start + so_far + seq![d@] == start + (so_far + seq![d@]));
                }
            },
            _ => {},
        }
        proof {
            if !found {
                assert(so_far + Seq::<DiagnosticView>::empty() == so_far);
            }
        }
        match &items[i] {
            Item::Blank => {},
            _ => {
                prev = Some(&items[i]);
            },
        }
        i = i + 1;
    }
}

fn scan_package(item: &Item, link: Link, out: &mut Vec<Diagnostic>)
    ensures
        reports(final(out)@) == reports(old(out)@) + package_findings(*item, link),
{
    match item {
        Item::Section(s) => match &**s {
            Section::Package { content, .. } => {
                scan_pairs(content, link, out);
                return ;
            },
            _ => {},
        },
        _ => {},
    }
    assert(reports(out@) + Seq::<DiagnosticView>::empty() == reports(out@));
}

fn scan_files(item: &Item, link: Link, out: &mut Vec<Diagnostic>)
    ensures
        reports(final(out)@) == reports(old(out)@) + files_findings(*item, link),
{
    match item {
        Item::Section(s) => match &**s {
            Section::Files { content, .. } => {
                scan_pairs(content, link, out);
                return ;
            },
            _ => {},
        },
        _ => {},
    }
    assert(reports(out@) + Seq::<DiagnosticView>::empty() == reports(out@));
}

/// Looks through the packages, the `%files` sections, or both.
fn scan_sections(items: &Vec<Item>, link: Link, packages: bool, files: bool, out: &mut Vec<Diagnostic>)
    ensures
        reports(final(out)@) == reports(old(out)@) + sections_findings(items@, link, packages, files),
{
    let ghost start = reports(out@);
    let mut i: usize = 0;
    assert(start + sections_findings(items@.take(0), link, packages, files) == start);
    while i < items.len()
        invariant
            i <= items.len(),
            reports(out@) == start + sections_findings(items@.take(i as int), link, packages, files),
        decreases items.len() - i,
    {
        let ghost so_far = sections_findings(items@.take(i as int), link, packages, files);
        let ghost a = if packages {
            package_findings(items@[i as int], link)
        } else {
            Seq::empty()
        };
        let ghost b = if files {
            files_findings(items@[i as int], link)
        } else {
            Seq::empty()
        };
        if packages {
            scan_package(&items[i], link, out);
        } else {
            assert(reports(out@) + a == reports(out@));
        }
        assert(reports(out@) == start + so_far + a);
        if files {
            scan_files(&items[i], link, out);
        } else {
            assert(reports(out@) + b == reports(out@));
        }
        proof {
            assert(items@.take(i + 1).drop_last() == items@.take(i as int));
            assert(start + so_far + a + b == start + (so_far + a + b));
        }
        i = i + 1;
    }
    assert(items@.take(i as int) == items@);
}

/// RPM076 `adjacent-mergeable-conditionals`: Two adjacent `%if` blocks share the same
/// condition; merge them into one block.
#[derive(Debug)]
pub struct AdjacentMergeableConditionals {
    pub diagnostics: Vec<Diagnostic>,
}

impl AdjacentMergeableConditionals {
    pub fn new() -> (r: AdjacentMergeableConditionals)
        ensures
            r.pending() == Seq::<DiagnosticView>::empty(),
    {
        let r = AdjacentMergeableConditionals { diagnostics: Vec::new() };
        assert(r.pending() =~= Seq::<DiagnosticView>::empty());
        r
    }
}

impl Default for AdjacentMergeableConditionals {
    fn default() -> (r: AdjacentMergeableConditionals)
        ensures
            r.pending() == Seq::<DiagnosticView>::empty(),
    {
        AdjacentMergeableConditionals::new()
    }
}

impl Lint for AdjacentMergeableConditionals {
    open spec fn identity() -> Identity {
        Identity {
            id: "RPM076"@,
            name: "adjacent-mergeable-conditionals"@,
            description: "Two adjacent `%if` blocks share the same condition; merge them into one block."@,
            default_severity: Severity::Warn,
            category: LintCategory::Style,
        }
    }

    open spec fn pending(&self) -> Seq<DiagnosticView> {
        reports(self.diagnostics@)
    }

    open spec fn after(&self, spec: SpecFile) -> Seq<DiagnosticView> {
        self.pending() + merge_findings(spec)
    }

    open spec fn same_settings(&self, other: &Self) -> bool {
        true
    }

    fn metadata(&self) -> (r: LintMetadata) {
        LintMetadata {
            id: "RPM076",
            name: "adjacent-mergeable-conditionals",
            description: "Two adjacent `%if` blocks share the same condition; merge them into one block.",
            default_severity: Severity::Warn,
            category: LintCategory::Style,
        }
    }

    fn visit_spec(&mut self, spec: &SpecFile) {
        scan_pairs(&spec.items, Link::Same, &mut self.diagnostics);
        scan_sections(&spec.items, Link::Same, true, false, &mut self.diagnostics);
        scan_sections(&spec.items, Link::Same, false, true, &mut self.diagnostics);
        proof {
            let x = list_findings(spec.items@, Link::Same);
            let y = sections_findings(spec.items@, Link::Same, true, false);
            let z = sections_findings(spec.items@, Link::Same, false, true);
            assert(old(self).pending() + x + y + z == old(self).pending() + (x + y + z));
        }
    }

    fn take_diagnostics(&mut self) -> (r: Vec<Diagnostic>) {
        drain(&mut self.diagnostics)
    }
}

/// RPM084 `if-not-x-after-if-x`: Two adjacent `%ifarch X` / `%ifnarch X` blocks form a
/// perfect `%else` — fold them.
#[derive(Debug)]
pub struct IfNotXAfterIfX {
    pub diagnostics: Vec<Diagnostic>,
}

impl IfNotXAfterIfX {
    pub fn new() -> (r: IfNotXAfterIfX)
        ensures
            r.pending() == Seq::<DiagnosticView>::empty(),
    {
        let r = IfNotXAfterIfX { diagnostics: Vec::new() };
        assert(r.pending() =~= Seq::<DiagnosticView>::empty());
        r
    }
}

impl Default for IfNotXAfterIfX {
    fn default() -> (r: IfNotXAfterIfX)
        ensures
            r.pending() == Seq::<DiagnosticView>::empty(),
    {
        IfNotXAfterIfX::new()
    }
}

impl Lint for IfNotXAfterIfX {
    open spec fn identity() -> Identity {
        Identity {
            id: "RPM084"@,
            name: "if-not-x-after-if-x"@,
            description: "Two adjacent `%ifarch X` / `%ifnarch X` blocks form a perfect `%else` — fold them."@,
            default_severity: Severity::Warn,
            category: LintCategory::Style,
        }
    }

    open spec fn pending(&self) -> Seq<DiagnosticView> {
        reports(self.diagnostics@)
    }

    open spec fn after(&self, spec: SpecFile) -> Seq<DiagnosticView> {
        self.pending() + fold_findings(spec)
    }

    open spec fn same_settings(&self, other: &Self) -> bool {
        true
    }

    fn metadata(&self) -> (r: LintMetadata) {
        LintMetadata {
            id: "RPM084",
            name: "if-not-x-after-if-x",
            description: "Two adjacent `%ifarch X` / `%ifnarch X` blocks form a perfect `%else` — fold them.",
            default_severity: Severity::Warn,
            category: LintCategory::Style,
        }
    }

    fn visit_spec(&mut self, spec: &SpecFile) {
        scan_pairs(&spec.items, Link::Opposite, &mut self.diagnostics);
        scan_sections(&spec.items, Link::Opposite, true, true, &mut self.diagnostics);
        proof {
            let x = list_findings(spec.items@, Link::Opposite);
            let y = sections_findings(spec.items@, Link::Opposite, true, true);
            assert(old(self).pending() + x + y == old(self).pending() + (x + y));
        }
    }

    fn take_diagnostics(&mut self) -> (r: Vec<Diagnostic>) {
        drain(&mut self.diagnostics)
    }
}

/// Whether branch `n` is an `%elif` with the body of the branch before it.
pub open spec fn repeats_body(branches: Seq<CondBranch>, n: int, source: Seq<char>) -> bool {
    &&& n > 0
    &&& branches[n].kind is Elif
    &&& branches[n - 1].kind is If || branches[n - 1].kind is Elif
    &&& bodies_alike(branches[n - 1].body@, branches[n].body@, source, false)
}

pub open spec fn elif_report(branch: CondBranch) -> DiagnosticView {
    plain("RPM099"@, Severity::Warn, "this `%elif` repeats the body of the previous branch — combine the two conditions with `||`"@, branch.data).advise(
        "merge with the previous branch using `||`"@,
    )
}

/// The reports on the first `n` branches.
pub open spec fn elif_findings(branches: Seq<CondBranch>, n: nat, source: Seq<char>) -> Seq<DiagnosticView>
    decreases n,
{
    if n == 0 {
        Seq::empty()
    } else {
        elif_findings(branches, (n - 1) as nat, source) + given(
            repeats_body(branches, n - 1, source),
            elif_report(branches[n - 1]),
        )
    }
}

fn body_repeats(branches: &Vec<CondBranch>, n: usize, source: &str) -> (r: bool)
    requires
        n < branches.len(),
    ensures
        r == repeats_body(branches@, n as int, source@),
{
    if n == 0 || !matches!(branches[n].kind, CondKind::Elif) {
        return false;
    }
    match branches[n - 1].kind {
        CondKind::If | CondKind::Elif => bodies_source_eq(
            &branches[n - 1].body,
            &branches[n].body,
            source,
            false,
        ),
        _ => false,
    }
}

fn check_elifs(branches: &Vec<CondBranch>, source: &str, out: &mut Vec<Diagnostic>)
    ensures
        reports(final(out)@) == reports(old(out)@) + elif_findings(branches@, branches@.len(), source@),
{
    let ghost start = reports(out@);
    let mut i: usize = 0;
    assert(start + elif_findings(branches@, 0, source@) == start);
    while i < branches.len()
        invariant
            i <= branches.len(),
            reports(out@) == start + elif_findings(branches@, i as nat, source@),
        decreases branches.len() - i,
    {
        let ghost so_far = elif_findings(branches@, i as nat, source@);
        if body_repeats(branches, i, source) {
            say(
                out,
                Diagnostic::new("RPM099", Severity::Warn, "this `%elif` repeats the body of the previous branch — combine the two conditions with `||`", branches[i].data).with_advice(
                    "merge with the previous branch using `||`",
                ),
            );
            assert(start + so_far + seq![elif_report(branches@[i as int])] == start + (so_far + seq![elif_report(branches@[i as int])]));
        } else {
            assert(so_far + Seq::<DiagnosticView>::empty() == so_far);
        }
        i = i + 1;
    }
}

/// RPM099 `merge-elif-same-body`: Two adjacent `%elif` branches share the same body —
/// combine their conditions via `||`.
#[derive(Debug)]
pub struct MergeElifSameBody {
    pub diagnostics: Vec<Diagnostic>,
    pub source: Option<String>,
}

impl MergeElifSameBody {
    pub fn new() -> (r: MergeElifSameBody)
        ensures
            r.pending() == Seq::<DiagnosticView>::empty(),
            r.source is None,
    {
        let r = MergeElifSameBody { diagnostics: Vec::new(), source: None };
        assert(r.pending() =~= Seq::<DiagnosticView>::empty());
        r
    }
}

impl Default for MergeElifSameBody {
    fn default() -> (r: MergeElifSameBody)
        ensures
            r.pending() == Seq::<DiagnosticView>::empty(),
            r.source is None,
    {
        MergeElifSameBody::new()
    }
}

impl Lint for MergeElifSameBody {
    open spec fn identity() -> Identity {
        Identity {
            id: "RPM099"@,
            name: "merge-elif-same-body"@,
            description: "Two adjacent `%elif` branches share the same body — combine their conditions via `||`."@,
            default_severity: Severity::Warn,
            category: LintCategory::Style,
        }
    }

    open spec fn pending(&self) -> Seq<DiagnosticView> {
        reports(self.diagnostics@)
    }

    open spec fn after(&self, spec: SpecFile) -> Seq<DiagnosticView> {
        self.pending() + site_findings::<MergeElifSameBody>(&self.source, spec)
    }

    open spec fn same_settings(&self, other: &Self) -> bool {
        self.source == other.source
    }

    fn metadata(&self) -> (r: LintMetadata) {
        LintMetadata {
            id: "RPM099",
            name: "merge-elif-same-body",
            description: "Two adjacent `%elif` branches share the same body — combine their conditions via `||`.",
            default_severity: Severity::Warn,
            category: LintCategory::Style,
        }
    }

    fn visit_spec(&mut self, spec: &SpecFile) {
        run_sites::<MergeElifSameBody>(&self.source, spec, &mut self.diagnostics);
    }

    fn take_diagnostics(&mut self) -> (r: Vec<Diagnostic>) {
        drain(&mut self.diagnostics)
    }
}

impl SiteRule for MergeElifSameBody {
    type Settings = Option<String>;

    open spec fn on_site(settings: &Option<String>, site: SiteView) -> Seq<DiagnosticView> {
        match opt_string(*settings) {
            Some(s) => elif_findings(site.cond.branches@, site.cond.branches@.len(), s),
            None => Seq::empty(),
        }
    }

    fn check_site(settings: &Option<String>, site: &Site, out: &mut Vec<Diagnostic>) {
        match settings {
            Some(s) => {
                check_elifs(&site.cond.branches, s.as_str(), out);
            },
            None => {
                assert(reports(out@) + Seq::<DiagnosticView>::empty() == reports(out@));
            },
        }
    }
}

impl MergeElifSameBody {
    /// Gives the rule the source text that bodies are compared in.
    pub fn set_source(&mut self, source: &str)
        ensures
            opt_string(final(self).source) == Some(source@),
            final(self).pending() == old(self).pending(),
    {
        self.source = Some(source.to_owned());
    }
}

/// Blocks that are reported as mergeable are taken together.
pub proof fn mergeable_blocks_are_taken_together(
    a: Conditional,
    b: Conditional,
    val: spec_fn(Seq<char>) -> bool,
)
    requires
        linked(a, b, Link::Same),
    ensures
        branch_truth(a.branches@[0], val) == branch_truth(b.branches@[0], val),
{
    alike_conditions_are_true_together(a.branches@[0].expr, b.branches@[0].expr, val);
}

/// Of two blocks that are reported as a block and its `%else`, exactly one is
/// taken.
pub proof fn folded_blocks_complete_each_other(
    a: Conditional,
    b: Conditional,
    val: spec_fn(Seq<char>) -> bool,
)
    requires
        linked(a, b, Link::Opposite),
    ensures
        branch_truth(a.branches@[0], val) != branch_truth(b.branches@[0], val),
{
    alike_conditions_are_true_together(a.branches@[0].expr, b.branches@[0].expr, val);
}

/// Whether blocks `i` and `n` of a list are linked and nothing but blank
/// lines stands between them.
pub open spec fn is_pair(items: Seq<Item>, i: int, n: int, link: Link) -> bool {
    &&& 0 <= i < n < items.len()
    &&& forall|k: int| i < k < n ==> (#[trigger] items[k] is Blank)
    &&& match (items[i], items[n]) {
        (Item::Conditional(a), Item::Conditional(b)) => {
            let p = a.branches@[0];
            let q = b.branches@[0];
            &&& a.branches@.len() == 1 && a.otherwise is None
            &&& b.branches@.len() == 1 && b.otherwise is None
            &&& link is Same ==> p.kind == q.kind
            &&& link is Opposite ==> p.kind != q.kind && p.kind.inverts() != q.kind.inverts()
                && on_architecture(p.kind) == on_architecture(q.kind) && opens(p.kind) && opens(
                q.kind,
            )
            &&& resolvably_eq(p.expr, q.expr)
        },
        _ => false,
    }
}

/// Whether a keyword asks for an architecture.
pub open spec fn on_architecture(kind: CondKind) -> bool {
    kind is IfArch || kind is IfNArch || kind is ElifArch
}

/// Whether a keyword opens a block on an architecture or a system.
pub open spec fn opens(kind: CondKind) -> bool {
    kind is IfArch || kind is IfNArch || kind is IfOs || kind is IfNOs
}

proof fn lemma_previous(items: Seq<Item>, n: int)
    requires
        0 <= n <= items.len(),
    ensures
        match previous(items, n) {
            Some(x) => exists|i: int|
                0 <= i < n && #[trigger] items[i] == x && !(x is Blank) && forall|k: int|
                    i < k < n ==> (#[trigger] items[k] is Blank),
            None => forall|k: int| 0 <= k < n ==> (#[trigger] items[k] is Blank),
        },
    decreases n,
{
    if n > 0 && items[n - 1] is Blank {
        lemma_previous(items, n - 1);
    }
}

proof fn lemma_pair(items: Seq<Item>, n: int, link: Link)
    requires
        0 <= n < items.len(),
    ensures
        follows(items, n, link) <==> exists|i: int| #[trigger] is_pair(items, i, n, link),
{
    lemma_previous(items, n);
    match previous(items, n) {
        Some(x) => {
            let i = choose|i: int|
                0 <= i < n && #[trigger] items[i] == x && !(x is Blank) && forall|k: int|
                    i < k < n ==> (#[trigger] items[k] is Blank);
            if follows(items, n, link) {
                assert(is_pair(items, i, n, link));
            }
            if exists|j: int| #[trigger] is_pair(items, j, n, link) {
                let j = choose|j: int| #[trigger] is_pair(items, j, n, link);
                assert(!(items[j] is Blank));
                assert(j == i);
            }
        },
        None => {
            if exists|j: int| #[trigger] is_pair(items, j, n, link) {
                let j = choose|j: int| #[trigger] is_pair(items, j, n, link);
                assert(items[j] is Blank);
            }
        },
    }
}

proof fn lemma_first_pairs(items: Seq<Item>, n: nat, link: Link, span: Span)
    requires
        n <= items.len(),
    ensures
        says_at(pair_findings(items, n, link), span) <==> exists|i: int, j: int|
            #[trigger] is_pair(items, i, j, link) && j < n && (items[j] matches Item::Conditional(c)
                && c.data == span),
    decreases n,
{
    if n > 0 {
        let k = n - 1;
        lemma_first_pairs(items, k as nat, link, span);
        lemma_pair(items, k, link);
        lemma_says_given(follows(items, k, link), link_report(link, items[k]), span);
        lemma_says_either(
            pair_findings(items, k as nat, link),
            given(follows(items, k, link), link_report(link, items[k])),
            span,
        );
        if follows(items, k, link) {
            let i = choose|i: int| #[trigger] is_pair(items, i, k, link);
            assert(is_pair(items, i, k, link));
        }
    }
}

/// In a list exactly those blocks are reported that follow a linked block,
/// with nothing but blank lines between the two.
pub proof fn linked_blocks_are_reported(items: Seq<Item>, link: Link, span: Span)
    ensures
        says_at(list_findings(items, link), span) <==> exists|i: int, j: int|
            #[trigger] is_pair(items, i, j, link) && (items[j] matches Item::Conditional(c)
                && c.data == span),
{
    lemma_first_pairs(items, items.len(), link, span);
}

/// Whether items are the content of a package or, where those count, of a
/// `%files` section.
pub open spec fn is_content(item: Item, content: Seq<Item>) -> bool {
    item matches Item::Section(s) && match *s {
        Section::Package { content: c, .. } => c@ == content,
        Section::Files { content: c, .. } => c@ == content,
        _ => false,
    }
}

proof fn lemma_sections(
    items: Seq<Item>,
    link: Link,
    packages: bool,
    files: bool,
    span: Span,
)
    ensures
        says_at(sections_findings(items, link, packages, files), span) <==> exists|i: int|
            0 <= i < items.len() && ((packages && says_at(
                package_findings(#[trigger] items[i], link),
                span,
            )) || (files && says_at(files_findings(items[i], link), span))),
    decreases items.len(),
{
    if items.len() > 0 {
        let front = items.drop_last();
        let x = items.last();
        let none = Seq::<DiagnosticView>::empty();
        let p = if packages {
            package_findings(x, link)
        } else {
            none
        };
        let q = if files {
            files_findings(x, link)
        } else {
            none
        };
        lemma_sections(front, link, packages, files, span);
        let rest = sections_findings(front, link, packages, files);
        lemma_says_either(rest, p, span);
        lemma_says_either(rest + p, q, span);
        assert(!says_at(none, span));
        assert(items[items.len() - 1] == x);
        assert forall|i: int| 0 <= i < front.len() implies front[i] == #[trigger] items[i] by {}
        if says_at(rest, span) {
            let i = choose|i: int|
                0 <= i < front.len() && ((packages && says_at(
                    package_findings(#[trigger] front[i], link),
                    span,
                )) || (files && says_at(files_findings(front[i], link), span)));
            assert(items[i] == front[i]);
        }
        if exists|i: int|
            0 <= i < items.len() && ((packages && says_at(
                package_findings(#[trigger] items[i], link),
                span,
            )) || (files && says_at(files_findings(items[i], link), span))) {
            let i = choose|i: int|
                0 <= i < items.len() && ((packages && says_at(
                    package_findings(#[trigger] items[i], link),
                    span,
                )) || (files && says_at(files_findings(items[i], link), span)));
            if i < front.len() {
                assert(front[i] == items[i]);
            }
        }
    }
}

/// Both rules look at the top level, at every package and at every `%files`
/// section, and nowhere else.
pub proof fn every_list_is_looked_at(spec: SpecFile, span: Span)
    ensures
        says_at(merge_findings(spec), span) <==> says_at(
            list_findings(spec.items@, Link::Same),
            span,
        ) || exists|i: int, content: Seq<Item>|
            0 <= i < spec.items@.len() && #[trigger] is_content(spec.items@[i], content) && says_at(
                list_findings(content, Link::Same),
                span,
            ),
        says_at(fold_findings(spec), span) <==> says_at(
            list_findings(spec.items@, Link::Opposite),
            span,
        ) || exists|i: int, content: Seq<Item>|
            0 <= i < spec.items@.len() && #[trigger] is_content(spec.items@[i], content) && says_at(
                list_findings(content, Link::Opposite),
                span,
            ),
{
    let items = spec.items@;
    lemma_sections(items, Link::Same, true, false, span);
    lemma_sections(items, Link::Same, false, true, span);
    lemma_sections(items, Link::Opposite, true, true, span);
    let top = list_findings(items, Link::Same);
    let packages = sections_findings(items, Link::Same, true, false);
    lemma_says_either(top, packages, span);
    lemma_says_either(top + packages, sections_findings(items, Link::Same, false, true), span);
    lemma_says_either(
        list_findings(items, Link::Opposite),
        sections_findings(items, Link::Opposite, true, true),
        span,
    );
    lemma_contents(items, Link::Same, span);
    lemma_contents(items, Link::Opposite, span);
}

proof fn lemma_contents(items: Seq<Item>, link: Link, span: Span)
    ensures
        (exists|i: int|
            0 <= i < items.len() && (says_at(package_findings(#[trigger] items[i], link), span)
                || says_at(files_findings(items[i], link), span))) <==> exists|
            i: int,
            content: Seq<Item>,
        |
            0 <= i < items.len() && #[trigger] is_content(items[i], content) && says_at(
                list_findings(content, link),
                span,
            ),
{
    assert forall|i: int| 0 <= i < items.len() && (says_at(package_findings(#[trigger] items[i], link), span)
                || says_at(files_findings(items[i], link), span)) implies exists|content: Seq<Item>|
        #[trigger] is_content(items[i], content) && says_at(list_findings(content, link), span) by {
        match items[i] {
            Item::Section(s) => match *s {
                Section::Package { content, .. } => {
                    assert(is_content(items[i], content@));
                },
                Section::Files { content, .. } => {
                    assert(is_content(items[i], content@));
                },
                _ => {},
            },
            _ => {},
        }
    }
    assert forall|i: int, content: Seq<Item>|
        0 <= i < items.len() && #[trigger] is_content(items[i], content) && says_at(
            list_findings(content, link),
            span,
        ) implies (says_at(package_findings(items[i], link), span) || says_at(
        files_findings(items[i], link),
        span,
    )) by {}
}

/// Whether branch `i` is an `%elif` at `span` with the body of the branch
/// right before it, which asks for an expression too.
pub open spec fn is_copy(branches: Seq<CondBranch>, i: int, source: Seq<char>, span: Span) -> bool {
    let before = branches[i - 1];
    &&& 0 < i < branches.len()
    &&& branches[i].data == span
    &&& branches[i].kind == CondKind::Elif
    &&& before.kind == CondKind::If || before.kind == CondKind::Elif
    &&& bodies_alike(before.body@, branches[i].body@, source, false)
}

proof fn lemma_first_elifs(branches: Seq<CondBranch>, n: nat, source: Seq<char>, span: Span)
    requires
        n <= branches.len(),
    ensures
        says_at(elif_findings(branches, n, source), span) <==> exists|i: int|
            i < n && #[trigger] is_copy(branches, i, source, span),
    decreases n,
{
    if n > 0 {
        let k = n - 1;
        lemma_first_elifs(branches, k as nat, source, span);
        lemma_says_given(repeats_body(branches, k, source), elif_report(branches[k]), span);
        lemma_says_either(
            elif_findings(branches, k as nat, source),
            given(repeats_body(branches, k, source), elif_report(branches[k])),
            span,
        );
        assert(is_copy(branches, k, source, span) <==> repeats_body(branches, k, source)
            && branches[k].data == span);
    }
}

/// In a chain exactly those `%elif` branches are reported whose body is that
/// of the branch right before them.
pub proof fn repeated_bodies_are_reported(
    branches: Seq<CondBranch>,
    source: Seq<char>,
    span: Span,
)
    ensures
        says_at(elif_findings(branches, branches.len(), source), span) <==> exists|i: int|
            #[trigger] is_copy(branches, i, source, span),
{
    lemma_first_elifs(branches, branches.len(), source, span);
}

} // verus!
