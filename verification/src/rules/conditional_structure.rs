//! The shape of conditionals: how deep they nest, whether their branches can
//! be reached and hold anything, and what their lists of architectures say.
use vstd::prelude::*;

use crate::ast::{CondBranch, CondExpr, CondKind, Conditional, Item, Span, SpecFile, Text};
use crate::bodies::{all_filler, only_filler};
use crate::diagnostic::{
    Applicability, Diagnostic, DiagnosticView, Edit, EditView, LintCategory, Severity,
    Suggestion, SuggestionView, advice, plain, reports,
};
use crate::expr::{cond_expr_resolvably_eq, resolvably_eq};
use crate::expr_laws::alike_conditions_are_true_together;
use crate::lint::{Identity, Lint, LintMetadata, drain};
use crate::path_laws::{branch_truth, taken};
use crate::rules::{
    BranchRule, SiteRule, branch_findings, given, run_branches, run_sites, say, site_findings,
};
use crate::text::{byte_len, byte_slice, count, decimal, number, opt_string, same, slice_bytes};
use crate::walk::{Site, SiteView, StepView, flat};
use vstd::utf8::encode_utf8;
use crate::report_laws::{
    adds_nothing, is_arm, lemma_news, lemma_says_either, lemma_says_given, news, says_at,
};

verus! {

/// Deeper nesting than this is reported.
pub const MAX_NESTING_DEPTH: usize = 4;

pub open spec fn depth_message(depth: nat) -> Seq<char> {
    "conditional nesting depth "@ + decimal(depth) + " exceeds the recommended maximum of "@
        + decimal(MAX_NESTING_DEPTH as nat)
}

/// RPM070 `deep-conditional-nesting`: Conditional nesting beyond 4 levels is hard to read;
/// refactor or split.
#[derive(Debug)]
pub struct DeepConditionalNesting {
    pub diagnostics: Vec<Diagnostic>,
}

impl DeepConditionalNesting {
    pub fn new() -> (r: DeepConditionalNesting)
        ensures
            r.pending() == Seq::<DiagnosticView>::empty(),
    {
        let r = DeepConditionalNesting { diagnostics: Vec::new() };
        assert(r.pending() =~= Seq::<DiagnosticView>::empty());
        r
    }
}

impl Default for DeepConditionalNesting {
    fn default() -> (r: DeepConditionalNesting)
        ensures
            r.pending() == Seq::<DiagnosticView>::empty(),
    {
        DeepConditionalNesting::new()
    }
}

impl Lint for DeepConditionalNesting {
    open spec fn identity() -> Identity {
        Identity {
            id: "RPM070"@,
            name: "deep-conditional-nesting"@,
            description: "Conditional nesting beyond 4 levels is hard to read; refactor or split."@,
            default_severity: Severity::Warn,
            category: LintCategory::Style,
        }
    }

    open spec fn pending(&self) -> Seq<DiagnosticView> {
        reports(self.diagnostics@)
    }

    open spec fn after(&self, spec: SpecFile) -> Seq<DiagnosticView> {
        self.pending() + site_findings::<DeepConditionalNesting>(&(), spec)
    }

    open spec fn same_settings(&self, other: &Self) -> bool {
        true
    }

    fn metadata(&self) -> (r: LintMetadata) {
        LintMetadata {
            id: "RPM070",
            name: "deep-conditional-nesting",
            description: "Conditional nesting beyond 4 levels is hard to read; refactor or split.",
            default_severity: Severity::Warn,
            category: LintCategory::Style,
        }
    }

    fn visit_spec(&mut self, spec: &SpecFile) {
        run_sites::<DeepConditionalNesting>(&(), spec, &mut self.diagnostics);
    }

    fn take_diagnostics(&mut self) -> (r: Vec<Diagnostic>) {
        drain(&mut self.diagnostics)
    }
}

impl SiteRule for DeepConditionalNesting {
    type Settings = ();

    open spec fn on_site(_settings: &(), site: SiteView) -> Seq<DiagnosticView> {
        given(
            site.path.len() + 1 > MAX_NESTING_DEPTH,
            plain("RPM070"@, Severity::Warn, depth_message(site.path.len() + 1), site.cond.data),
        )
    }

    fn check_site(_settings: &(), site: &Site, out: &mut Vec<Diagnostic>) {
        let depth: u128 = site.path.len() as u128 + 1;
        if depth > MAX_NESTING_DEPTH as u128 {
            let mut message = String::from_str("conditional nesting depth ");
            message.append(number(depth).as_str());
            message.append(" exceeds the recommended maximum of ");
            message.append(count(MAX_NESTING_DEPTH).as_str());
            say(out, Diagnostic::new("RPM070", Severity::Warn, message.as_str(), site.cond.data));
        } else {
            assert(reports(out@) + Seq::<DiagnosticView>::empty() == reports(out@));
        }
    }
}

/// Whether two branches of a block ask the same.
pub open spec fn ask_alike(a: CondBranch, b: CondBranch) -> bool {
    a.kind.asks_like(b.kind) && resolvably_eq(a.expr, b.expr)
}

/// Whether branch `n` asks what a branch before it asked.
pub open spec fn is_repeat(branches: Seq<CondBranch>, n: int) -> bool {
    exists|j: int| 0 <= j < n && ask_alike(#[trigger] branches[j], branches[n])
}

pub open spec fn elif_report(branch: CondBranch) -> DiagnosticView {
    plain("RPM071"@, Severity::Warn, "this `%elif` repeats an earlier branch's condition and is unreachable"@, branch.data)
}

/// The reports on the first `n` branches.
pub open spec fn repeated_elifs(branches: Seq<CondBranch>, n: nat) -> Seq<DiagnosticView>
    decreases n,
{
    if n == 0 {
        Seq::empty()
    } else {
        repeated_elifs(branches, (n - 1) as nat) + given(
            is_repeat(branches, n - 1),
            elif_report(branches[n - 1]),
        )
    }
}

fn repeats(branches: &Vec<CondBranch>, n: usize) -> (r: bool)
    requires
        n < branches.len(),
    ensures
        r == is_repeat(branches@, n as int),
{
    let mut j: usize = 0;
    while j < n
        invariant
            j <= n < branches.len(),
            forall|k: int| 0 <= k < j ==> !ask_alike(#[trigger] branches@[k], branches@[n as int]),
        decreases n - j,
    {
        if branches[j].kind.same_question(branches[n].kind) && cond_expr_resolvably_eq(
            &branches[j].expr,
            &branches[n].expr,
        ) {
            assert(ask_alike(branches@[j as int], branches@[n as int]));
            return true;
        }
        j = j + 1;
    }
    false
}

/// RPM071 `unreachable-elif-branch`: `%elif` with the same expression as an earlier branch
/// can never fire; likely a typo.
#[derive(Debug)]
pub struct UnreachableElifBranch {
    pub diagnostics: Vec<Diagnostic>,
}

impl UnreachableElifBranch {
    pub fn new() -> (r: UnreachableElifBranch)
        ensures
            r.pending() == Seq::<DiagnosticView>::empty(),
    {
        let r = UnreachableElifBranch { diagnostics: Vec::new() };
        assert(r.pending() =~= Seq::<DiagnosticView>::empty());
        r
    }
}

impl Default for UnreachableElifBranch {
    fn default() -> (r: UnreachableElifBranch)
        ensures
            r.pending() == Seq::<DiagnosticView>::empty(),
    {
        UnreachableElifBranch::new()
    }
}

impl Lint for UnreachableElifBranch {
    open spec fn identity() -> Identity {
        Identity {
            id: "RPM071"@,
            name: "unreachable-elif-branch"@,
            description: "`%elif` with the same expression as an earlier branch can never fire; likely a typo."@,
            default_severity: Severity::Warn,
            category: LintCategory::Correctness,
        }
    }

    open spec fn pending(&self) -> Seq<DiagnosticView> {
        reports(self.diagnostics@)
    }

    open spec fn after(&self, spec: SpecFile) -> Seq<DiagnosticView> {
        self.pending() + site_findings::<UnreachableElifBranch>(&(), spec)
    }

    open spec fn same_settings(&self, other: &Self) -> bool {
        true
    }

    fn metadata(&self) -> (r: LintMetadata) {
        LintMetadata {
            id: "RPM071",
            name: "unreachable-elif-branch",
            description: "`%elif` with the same expression as an earlier branch can never fire; likely a typo.",
            default_severity: Severity::Warn,
            category: LintCategory::Correctness,
        }
    }

    fn visit_spec(&mut self, spec: &SpecFile) {
        run_sites::<UnreachableElifBranch>(&(), spec, &mut self.diagnostics);
    }

    fn take_diagnostics(&mut self) -> (r: Vec<Diagnostic>) {
        drain(&mut self.diagnostics)
    }
}

impl SiteRule for UnreachableElifBranch {
    type Settings = ();

    open spec fn on_site(_settings: &(), site: SiteView) -> Seq<DiagnosticView> {
        repeated_elifs(site.cond.branches@, site.cond.branches@.len())
    }

    fn check_site(_settings: &(), site: &Site, out: &mut Vec<Diagnostic>) {
        let branches = &site.cond.branches;
        let ghost start = reports(out@);
        let mut i: usize = 0;
        assert(start + repeated_elifs(branches@, 0) == start);
        while i < branches.len()
            invariant
                i <= branches.len(),
                reports(out@) == start + repeated_elifs(branches@, i as nat),
            decreases branches.len() - i,
        {
            let ghost so_far = repeated_elifs(branches@, i as nat);
            if repeats(branches, i) {
                say(out, Diagnostic::new("RPM071", Severity::Warn, "this `%elif` repeats an earlier branch's condition and is unreachable", branches[i].data));
                assert(start + so_far + seq![elif_report(branches@[i as int])] == start + (so_far + seq![elif_report(branches@[i as int])]));
            } else {
                assert(so_far + Seq::<DiagnosticView>::empty() == so_far);
            }
            i = i + 1;
        }
    }
}

/// Whether items stand in a body and all of them are blank lines or comments.
/// A body without items says nothing: what stood there may not have been
/// understood.
pub open spec fn is_hollow_body(body: Seq<Item>) -> bool {
    body.len() > 0 && all_filler(body)
}

pub open spec fn is_hollow(c: Conditional) -> bool {
    &&& forall|i: int| 0 <= i < c.branches@.len() ==> is_hollow_body((#[trigger] c.branches@[i]).body@)
    &&& c.otherwise matches Some(body) ==> is_hollow_body(body@)
}

fn hollow(c: &Conditional) -> (r: bool)
    ensures
        r == is_hollow(*c),
{
    let mut i: usize = 0;
    while i < c.branches.len()
        invariant
            i <= c.branches.len(),
            forall|j: int| 0 <= j < i ==> is_hollow_body((#[trigger] c.branches@[j]).body@),
        decreases c.branches.len() - i,
    {
        let body = &c.branches[i].body;
        if body.len() == 0 || !only_filler(body) {
            assert(!is_hollow_body(c.branches@[i as int].body@));
            return false;
        }
        i = i + 1;
    }
    match &c.otherwise {
        Some(body) => body.len() > 0 && only_filler(body),
        None => true,
    }
}

/// RPM073 `empty-conditional-branch`: Conditional block has no real content in any branch —
/// drop the block.
#[derive(Debug)]
pub struct EmptyConditionalBranch {
    pub diagnostics: Vec<Diagnostic>,
}

impl EmptyConditionalBranch {
    pub fn new() -> (r: EmptyConditionalBranch)
        ensures
            r.pending() == Seq::<DiagnosticView>::empty(),
    {
        let r = EmptyConditionalBranch { diagnostics: Vec::new() };
        assert(r.pending() =~= Seq::<DiagnosticView>::empty());
        r
    }
}

impl Default for EmptyConditionalBranch {
    fn default() -> (r: EmptyConditionalBranch)
        ensures
            r.pending() == Seq::<DiagnosticView>::empty(),
    {
        EmptyConditionalBranch::new()
    }
}

impl Lint for EmptyConditionalBranch {
    open spec fn identity() -> Identity {
        Identity {
            id: "RPM073"@,
            name: "empty-conditional-branch"@,
            description: "Conditional block has no real content in any branch — drop the block."@,
            default_severity: Severity::Warn,
            category: LintCategory::Style,
        }
    }

    open spec fn pending(&self) -> Seq<DiagnosticView> {
        reports(self.diagnostics@)
    }

    open spec fn after(&self, spec: SpecFile) -> Seq<DiagnosticView> {
        self.pending() + site_findings::<EmptyConditionalBranch>(&(), spec)
    }

    open spec fn same_settings(&self, other: &Self) -> bool {
        true
    }

    fn metadata(&self) -> (r: LintMetadata) {
        LintMetadata {
            id: "RPM073",
            name: "empty-conditional-branch",
            description: "Conditional block has no real content in any branch — drop the block.",
            default_severity: Severity::Warn,
            category: LintCategory::Style,
        }
    }

    fn visit_spec(&mut self, spec: &SpecFile) {
        run_sites::<EmptyConditionalBranch>(&(), spec, &mut self.diagnostics);
    }

    fn take_diagnostics(&mut self) -> (r: Vec<Diagnostic>) {
        drain(&mut self.diagnostics)
    }
}

impl SiteRule for EmptyConditionalBranch {
    type Settings = ();

    open spec fn on_site(_settings: &(), site: SiteView) -> Seq<DiagnosticView> {
        given(
            is_hollow(site.cond),
            plain("RPM073"@, Severity::Warn, "conditional block has no content in any branch"@, site.cond.data).suggest(
                advice("remove the empty `%if`/`%endif` block"@, Applicability::MachineApplicable),
            ),
        )
    }

    fn check_site(_settings: &(), site: &Site, out: &mut Vec<Diagnostic>) {
        if hollow(site.cond) {
            say(
                out,
                Diagnostic::new("RPM073", Severity::Warn, "conditional block has no content in any branch", site.cond.data).with_suggestion(
                    Suggestion::advice("remove the empty `%if`/`%endif` block", Applicability::MachineApplicable),
                ),
            );
        } else {
            assert(reports(out@) + Seq::<DiagnosticView>::empty() == reports(out@));
        }
    }
}

/// Whether a branch asks for one of some architectures or systems.
pub open spec fn names_platform(kind: CondKind) -> bool {
    !(kind is If) && !(kind is Elif) && !kind.inverts()
}

fn platform_kind(kind: CondKind) -> (r: bool)
    ensures
        r == names_platform(kind),
{
    !matches!(kind, CondKind::If) && !matches!(kind, CondKind::Elif) && !kind.is_inverted()
}

fn is_empty_list(c: &CondExpr) -> (r: bool)
    ensures
        r == (*c matches CondExpr::ArchList(list) && list@.len() == 0),
{
    match c {
        CondExpr::ArchList(list) => list.len() == 0,
        _ => false,
    }
}

/// RPM077 `ifarch-empty-list`: `%ifarch`/`%ifos` with no architecture tokens is always
/// false; likely a missing argument.
#[derive(Debug)]
pub struct IfarchEmptyList {
    pub diagnostics: Vec<Diagnostic>,
}

impl IfarchEmptyList {
    pub fn new() -> (r: IfarchEmptyList)
        ensures
            r.pending() == Seq::<DiagnosticView>::empty(),
    {
        let r = IfarchEmptyList { diagnostics: Vec::new() };
        assert(r.pending() =~= Seq::<DiagnosticView>::empty());
        r
    }
}

impl Default for IfarchEmptyList {
    fn default() -> (r: IfarchEmptyList)
        ensures
            r.pending() == Seq::<DiagnosticView>::empty(),
    {
        IfarchEmptyList::new()
    }
}

impl Lint for IfarchEmptyList {
    open spec fn identity() -> Identity {
        Identity {
            id: "RPM077"@,
            name: "ifarch-empty-list"@,
            description: "`%ifarch`/`%ifos` with no architecture tokens is always false; likely a missing argument."@,
            default_severity: Severity::Warn,
            category: LintCategory::Correctness,
        }
    }

    open spec fn pending(&self) -> Seq<DiagnosticView> {
        reports(self.diagnostics@)
    }

    open spec fn after(&self, spec: SpecFile) -> Seq<DiagnosticView> {
        self.pending() + branch_findings::<IfarchEmptyList>(&(), spec)
    }

    open spec fn same_settings(&self, other: &Self) -> bool {
        true
    }

    fn metadata(&self) -> (r: LintMetadata) {
        LintMetadata {
            id: "RPM077",
            name: "ifarch-empty-list",
            description: "`%ifarch`/`%ifos` with no architecture tokens is always false; likely a missing argument.",
            default_severity: Severity::Warn,
            category: LintCategory::Correctness,
        }
    }

    fn visit_spec(&mut self, spec: &SpecFile) {
        run_branches::<IfarchEmptyList>(&(), spec, &mut self.diagnostics);
    }

    fn take_diagnostics(&mut self) -> (r: Vec<Diagnostic>) {
        drain(&mut self.diagnostics)
    }
}

impl BranchRule for IfarchEmptyList {
    type Settings = ();

    open spec fn on_branch(_settings: &(), branch: CondBranch) -> Seq<DiagnosticView> {
        given(
            names_platform(branch.kind) && (branch.expr matches CondExpr::ArchList(list) && list@.len() == 0),
            plain("RPM077"@, Severity::Warn, "`%ifarch`/`%ifos` with no tokens is always false; supply at least one architecture/OS name"@, branch.data),
        )
    }

    fn check_branch(_settings: &(), branch: &CondBranch, out: &mut Vec<Diagnostic>) {
        if platform_kind(branch.kind) && is_empty_list(&branch.expr) {
            say(out, Diagnostic::new("RPM077", Severity::Warn, "`%ifarch`/`%ifos` with no tokens is always false; supply at least one architecture/OS name", branch.data));
        } else {
            assert(reports(out@) + Seq::<DiagnosticView>::empty() == reports(out@));
        }
    }
}

/// Whether one comment and nothing but blank lines stands in a body.
pub open spec fn only_comment(body: Seq<Item>) -> bool {
    exists|k: int|
        0 <= k < body.len() && (#[trigger] body[k] is Comment) && forall|j: int|
            0 <= j < body.len() && j != k ==> (#[trigger] body[j] is Blank)
}

fn is_only_comment(body: &Vec<Item>) -> (r: bool)
    ensures
        r == only_comment(body@),
{
    let mut found: Option<usize> = None;
    let mut i: usize = 0;
    while i < body.len()
        invariant
            i <= body.len(),
            found matches Some(k) ==> k < i && body@[k as int] is Comment,
            forall|j: int| 0 <= j < i && found != Some(j as usize) ==> (#[trigger] body@[j] is Blank),
        decreases body.len() - i,
    {
        match &body[i] {
            Item::Blank => {},
            Item::Comment(_) => {
                if found.is_some() {
                    assert forall|k: int| 0 <= k < body@.len() && body@[k] is Comment implies exists|j: int|
                        0 <= j < body@.len() && j != k && !(#[trigger] body@[j] is Blank) by {
                        let f = found.unwrap() as int;
                        assert(!(body@[f] is Blank));
                        assert(!(body@[i as int] is Blank));
                    }
                    return false;
                }
                found = Some(i);
            },
            _ => {
                assert(!(body@[i as int] is Blank) && !(body@[i as int] is Comment));
                return false;
            },
        }
        i = i + 1;
    }
    match found {
        Some(k) => {
            assert forall|j: int| 0 <= j < body@.len() && j != k implies (#[trigger] body@[j] is Blank) by {}
            assert(body@[k as int] is Comment);
            true
        },
        None => {
            assert forall|k: int| 0 <= k < body@.len() implies !(#[trigger] body@[k] is Comment) by {}
            false
        },
    }
}

/// RPM089 `single-comment-only-branch`: Conditional branch contains only a comment — likely
/// a TODO left after a refactor.
#[derive(Debug)]
pub struct SingleCommentOnlyBranch {
    pub diagnostics: Vec<Diagnostic>,
}

impl SingleCommentOnlyBranch {
    pub fn new() -> (r: SingleCommentOnlyBranch)
        ensures
            r.pending() == Seq::<DiagnosticView>::empty(),
    {
        let r = SingleCommentOnlyBranch { diagnostics: Vec::new() };
        assert(r.pending() =~= Seq::<DiagnosticView>::empty());
        r
    }
}

impl Default for SingleCommentOnlyBranch {
    fn default() -> (r: SingleCommentOnlyBranch)
        ensures
            r.pending() == Seq::<DiagnosticView>::empty(),
    {
        SingleCommentOnlyBranch::new()
    }
}

impl Lint for SingleCommentOnlyBranch {
    open spec fn identity() -> Identity {
        Identity {
            id: "RPM089"@,
            name: "single-comment-only-branch"@,
            description: "Conditional branch contains only a comment — likely a TODO left after a refactor."@,
            default_severity: Severity::Warn,
            category: LintCategory::Style,
        }
    }

    open spec fn pending(&self) -> Seq<DiagnosticView> {
        reports(self.diagnostics@)
    }

    open spec fn after(&self, spec: SpecFile) -> Seq<DiagnosticView> {
        self.pending() + branch_findings::<SingleCommentOnlyBranch>(&(), spec)
    }

    open spec fn same_settings(&self, other: &Self) -> bool {
        true
    }

    fn metadata(&self) -> (r: LintMetadata) {
        LintMetadata {
            id: "RPM089",
            name: "single-comment-only-branch",
            description: "Conditional branch contains only a comment — likely a TODO left after a refactor.",
            default_severity: Severity::Warn,
            category: LintCategory::Style,
        }
    }

    fn visit_spec(&mut self, spec: &SpecFile) {
        run_branches::<SingleCommentOnlyBranch>(&(), spec, &mut self.diagnostics);
    }

    fn take_diagnostics(&mut self) -> (r: Vec<Diagnostic>) {
        drain(&mut self.diagnostics)
    }
}

impl BranchRule for SingleCommentOnlyBranch {
    type Settings = ();

    open spec fn on_branch(_settings: &(), branch: CondBranch) -> Seq<DiagnosticView> {
        given(
            only_comment(branch.body@),
            plain("RPM089"@, Severity::Warn, "conditional branch contains only a comment — possibly a forgotten TODO"@, branch.data),
        )
    }

    fn check_branch(_settings: &(), branch: &CondBranch, out: &mut Vec<Diagnostic>) {
        if is_only_comment(&branch.body) {
            say(out, Diagnostic::new("RPM089", Severity::Warn, "conditional branch contains only a comment — possibly a forgotten TODO", branch.data));
        } else {
            assert(reports(out@) + Seq::<DiagnosticView>::empty() == reports(out@));
        }
    }
}

/// Whether `noarch` is in the list of an architecture branch.
pub open spec fn asks_noarch(branch: CondBranch) -> bool {
    &&& branch.kind is IfArch || branch.kind is IfNArch || branch.kind is ElifArch
    &&& branch.expr matches CondExpr::ArchList(list) && exists|i: int|
        0 <= i < list@.len() && (#[trigger] list@[i]).literal() == Some("noarch"@)
}

fn lists(list: &Vec<Text>, name: &str) -> (r: bool)
    ensures
        r == exists|i: int| 0 <= i < list@.len() && (#[trigger] list@[i]).literal() == Some(name@),
{
    let mut i: usize = 0;
    while i < list.len()
        invariant
            i <= list.len(),
            forall|j: int| 0 <= j < i ==> (#[trigger] list@[j]).literal() != Some(name@),
        decreases list.len() - i,
    {
        match list[i].literal_str() {
            Some(s) => {
                if same(s, name) {
                    assert(list@[i as int].literal() == Some(name@));
                    return true;
                }
            },
            None => {},
        }
        i = i + 1;
    }
    false
}

fn mentions_noarch(branch: &CondBranch) -> (r: bool)
    ensures
        r == asks_noarch(*branch),
{
    match branch.kind {
        CondKind::IfArch | CondKind::IfNArch | CondKind::ElifArch => {},
        _ => {
            return false;
        },
    }
    match &branch.expr {
        CondExpr::ArchList(list) => lists(list, "noarch"),
        _ => false,
    }
}

/// RPM090 `ifarch-noarch`: `%ifarch noarch` is suspicious — `noarch` is a build marker, not
/// an architecture.
#[derive(Debug)]
pub struct IfarchNoarch {
    pub diagnostics: Vec<Diagnostic>,
}

impl IfarchNoarch {
    pub fn new() -> (r: IfarchNoarch)
        ensures
            r.pending() == Seq::<DiagnosticView>::empty(),
    {
        let r = IfarchNoarch { diagnostics: Vec::new() };
        assert(r.pending() =~= Seq::<DiagnosticView>::empty());
        r
    }
}

impl Default for IfarchNoarch {
    fn default() -> (r: IfarchNoarch)
        ensures
            r.pending() == Seq::<DiagnosticView>::empty(),
    {
        IfarchNoarch::new()
    }
}

impl Lint for IfarchNoarch {
    open spec fn identity() -> Identity {
        Identity {
            id: "RPM090"@,
            name: "ifarch-noarch"@,
            description: "`%ifarch noarch` is suspicious — `noarch` is a build marker, not an architecture."@,
            default_severity: Severity::Warn,
            category: LintCategory::Correctness,
        }
    }

    open spec fn pending(&self) -> Seq<DiagnosticView> {
        reports(self.diagnostics@)
    }

    open spec fn after(&self, spec: SpecFile) -> Seq<DiagnosticView> {
        self.pending() + branch_findings::<IfarchNoarch>(&(), spec)
    }

    open spec fn same_settings(&self, other: &Self) -> bool {
        true
    }

    fn metadata(&self) -> (r: LintMetadata) {
        LintMetadata {
            id: "RPM090",
            name: "ifarch-noarch",
            description: "`%ifarch noarch` is suspicious — `noarch` is a build marker, not an architecture.",
            default_severity: Severity::Warn,
            category: LintCategory::Correctness,
        }
    }

    fn visit_spec(&mut self, spec: &SpecFile) {
        run_branches::<IfarchNoarch>(&(), spec, &mut self.diagnostics);
    }

    fn take_diagnostics(&mut self) -> (r: Vec<Diagnostic>) {
        drain(&mut self.diagnostics)
    }
}

impl BranchRule for IfarchNoarch {
    type Settings = ();

    open spec fn on_branch(_settings: &(), branch: CondBranch) -> Seq<DiagnosticView> {
        given(
            asks_noarch(branch),
            plain("RPM090"@, Severity::Warn, "`noarch` in an `%ifarch` token list is suspicious — `noarch` is a build marker, not an architecture"@, branch.data),
        )
    }

    fn check_branch(_settings: &(), branch: &CondBranch, out: &mut Vec<Diagnostic>) {
        if mentions_noarch(branch) {
            say(out, Diagnostic::new("RPM090", Severity::Warn, "`noarch` in an `%ifarch` token list is suspicious — `noarch` is a build marker, not an architecture", branch.data));
        } else {
            assert(reports(out@) + Seq::<DiagnosticView>::empty() == reports(out@));
        }
    }
}

/// The first occurrence of `n` in `h` at or after `from`.
pub open spec fn byte_find(h: Seq<u8>, n: Seq<u8>, from: int) -> Option<int>
    decreases h.len() + 1 - from,
{
    if from < 0 || from + n.len() > h.len() {
        None
    } else if h.subrange(from, from + n.len()) == n {
        Some(from)
    } else {
        byte_find(h, n, from + 1)
    }
}

/// Whether a byte can be part of a name.
pub open spec fn name_byte(b: u8) -> bool {
    0x30 <= b <= 0x39 || 0x41 <= b <= 0x5a || 0x61 <= b <= 0x7a || b == 0x5f
}

/// Whether the bytes around `pos..end` are not part of a name.
pub open spec fn stands_alone(h: Seq<u8>, pos: int, end: int) -> bool {
    (pos == 0 || !name_byte(h[pos - 1])) && (end >= h.len() || !name_byte(h[end]))
}

/// The first occurrence of `n` as a whole word at or after `from`, looking
/// past the occurrences that are not.
pub open spec fn word_find(h: Seq<u8>, n: Seq<u8>, from: int) -> Option<int>
    decreases h.len() + 1 - from,
{
    match byte_find(h, n, from) {
        None => None,
        Some(pos) => if stands_alone(h, pos, pos + n.len()) {
            Some(pos)
        } else if n.len() == 0 || pos < from || pos + n.len() > h.len() {
            None
        } else {
            word_find(h, n, pos + n.len())
        },
    }
}

pub open spec fn blank_byte(b: u8) -> bool {
    b == 0x20 || b == 0x09 || b == 0x0a || b == 0x0c || b == 0x0d
}

/// The edit that removes the second `token` from the text at `anchor`, with
/// one blank before it.
pub open spec fn dedupe_edit(source: Seq<char>, anchor: Span, token: Seq<char>) -> Option<EditView> {
    let total = byte_len(source) as int;
    let end = if anchor.end_byte < total {
        anchor.end_byte as int
    } else {
        total
    };
    let start = if anchor.start_byte < end {
        anchor.start_byte as int
    } else {
        end
    };
    match byte_slice(source, start, end) {
        None => None,
        Some(slice) => {
            let h = encode_utf8(slice);
            let n = encode_utf8(token);
            match word_find(h, n, 0) {
                None => None,
                Some(first) => {
                    let after = first + n.len() as int;
                    match word_find(h.skip(after), n, 0) {
                        None => None,
                        Some(rel) => {
                            let second = after + rel;
                            let cut = if second > 0 && blank_byte(h[second - 1]) {
                                second - 1
                            } else {
                                second
                            };
                            Some(
                                EditView {
                                    span: Span::bytes(
                                        (start + cut) as usize,
                                        (start + second + n.len()) as usize,
                                    ),
                                    replacement: ""@,
                                },
                            )
                        },
                    }
                },
            }
        },
    }
}

pub open spec fn duplicate_report(source: Option<Seq<char>>, anchor: Span, token: Seq<char>) -> DiagnosticView {
    plain("RPM091"@, Severity::Warn, "duplicate `"@ + token + "` in arch/os token list"@, anchor).suggest(
        SuggestionView {
            message: "drop the redundant `"@ + token + "`"@,
            edits: match source {
                Some(s) => match dedupe_edit(s, anchor, token) {
                    Some(e) => seq![e],
                    None => Seq::empty(),
                },
                None => Seq::empty(),
            },
            applicability: if source is Some {
                Applicability::MachineApplicable
            } else {
                Applicability::Manual
            },
        },
    )
}

/// Whether token `n` is literal and stands in the list before.
pub open spec fn is_duplicate(list: Seq<Text>, n: int) -> bool {
    list[n].literal() is Some && exists|j: int|
        0 <= j < n && (#[trigger] list[j]).literal() == list[n].literal()
}

/// The reports on the first `n` tokens.
pub open spec fn duplicates(source: Option<Seq<char>>, anchor: Span, list: Seq<Text>, n: nat) -> Seq<DiagnosticView>
    decreases n,
{
    if n == 0 {
        Seq::empty()
    } else {
        duplicates(source, anchor, list, (n - 1) as nat) + given(
            is_duplicate(list, n - 1),
            duplicate_report(source, anchor, list[n - 1].literal().unwrap()),
        )
    }
}

impl DuplicateArchInList {
    /// Gives the rule the source text, which its edits need.
    pub fn set_source(&mut self, source: &str)
        ensures
            opt_string(final(self).source) == Some(source@),
            final(self).pending() == old(self).pending(),
    {
        self.source = Some(source.to_owned());
    }
}

fn find_bytes(h: &[u8], n: &[u8], from: usize) -> (r: Option<usize>)
    ensures
        r is Some <==> byte_find(h@, n@, from as int) is Some,
        r matches Some(p) ==> byte_find(h@, n@, from as int) == Some(p as int) && from <= p && p + n@.len() <= h@.len(),
{
    let mut i: usize = from;
    while n.len() <= h.len() && i <= h.len() - n.len()
        invariant
            from <= i,
            byte_find(h@, n@, from as int) == byte_find(h@, n@, i as int),
        decreases h.len() + 1 - i,
    {
        let mut k: usize = 0;
        while k < n.len() && h[i + k] == n[k]
            invariant
                k <= n.len(),
                i + n.len() <= h.len(),
                forall|j: int| 0 <= j < k ==> h@[i + j] == n@[j],
            decreases n.len() - k,
        {
            k = k + 1;
        }
        if k == n.len() {
            assert(h@.subrange(i as int, i + n@.len()) =~= n@);
            return Some(i);
        }
        assert(h@.subrange(i as int, i + n@.len())[k as int] != n@[k as int]);
        i = i + 1;
    }
    None
}

fn is_name_byte(b: u8) -> (r: bool)
    ensures
        r == name_byte(b),
{
    (0x30 <= b && b <= 0x39) || (0x41 <= b && b <= 0x5a) || (0x61 <= b && b <= 0x7a) || b == 0x5f
}

fn find_word_index(h: &[u8], n: &[u8]) -> (r: Option<usize>)
    ensures
        r is Some <==> word_find(h@, n@, 0) is Some,
        r matches Some(p) ==> word_find(h@, n@, 0) == Some(p as int) && p + n@.len() <= h@.len(),
{
    let total: usize = h.len();
    let mut from: usize = 0;
    loop
        invariant
            total == h@.len(),
            from <= total,
            word_find(h@, n@, 0) == word_find(h@, n@, from as int),
        decreases h@.len() - from,
    {
        match find_bytes(h, n, from) {
            None => {
                return None;
            },
            Some(pos) => {
                let end: usize = pos + n.len();
                let alone = (pos == 0 || !is_name_byte(h[pos - 1])) && (end >= h.len() || !is_name_byte(h[end]));
                if alone {
                    return Some(pos);
                }
                if n.len() == 0 {
                    return None;
                }
                from = end;
            },
        }
    }
}

fn edit_for(source: &str, anchor: Span, token: &str) -> (r: Option<Edit>)
    ensures
        r is Some <==> dedupe_edit(source@, anchor, token@) is Some,
        r matches Some(e) ==> dedupe_edit(source@, anchor, token@) == Some(e@),
{
    let total: usize = source.as_bytes().len();
    let end: usize = if anchor.end_byte < total {
        anchor.end_byte
    } else {
        total
    };
    let start: usize = if anchor.start_byte < end {
        anchor.start_byte
    } else {
        end
    };
    let slice = match slice_bytes(source, start, end) {
        Some(s) => s,
        None => {
            return None;
        },
    };
    let h = slice.as_bytes();
    let n = token.as_bytes();
    let first: usize = match find_word_index(h, n) {
        Some(p) => p,
        None => {
            return None;
        },
    };
    let after: usize = first + n.len();
    let tail = vstd::slice::slice_subrange(h, after, h.len());
    assert(tail@ =~= h@.skip(after as int));
    let rel: usize = match find_word_index(tail, n) {
        Some(p) => p,
        None => {
            return None;
        },
    };
    let second: usize = after + rel;
    let cut: usize = if second > 0 && (h[second - 1] == 0x20 || h[second - 1] == 0x09 || h[second - 1] == 0x0a
        || h[second - 1] == 0x0c || h[second - 1] == 0x0d) {
        second - 1
    } else {
        second
    };
    Some(Edit::new(Span::from_bytes(start + cut, start + second + n.len()), ""))
}

fn report_duplicate(source: &Option<String>, anchor: Span, token: &str, out: &mut Vec<Diagnostic>)
    ensures
        reports(final(out)@) == reports(old(out)@) + seq![duplicate_report(opt_string(*source), anchor, token@)],
{
    let mut message = String::from_str("duplicate `");
    message.append(token);
    message.append("` in arch/os token list");
    let mut hint = String::from_str("drop the redundant `");
    hint.append(token);
    hint.append("`");
    let mut edits: Vec<Edit> = Vec::new();
    let ghost none = edits@;
    let applicability = match source {
        Some(s) => {
            match edit_for(s.as_str(), anchor, token) {
                Some(e) => {
                    edits.push(e);
                    assert(edits@.map_values(|e: Edit| e@) =~= seq![e@]);
                },
                None => {
                    assert(edits@.map_values(|e: Edit| e@) =~= Seq::empty());
                },
            }
            Applicability::MachineApplicable
        },
        None => {
            assert(edits@.map_values(|e: Edit| e@) =~= Seq::empty());
            Applicability::Manual
        },
    };
    say(
        out,
        Diagnostic::new("RPM091", Severity::Warn, message.as_str(), anchor).with_suggestion(
            Suggestion::new(hint, edits, applicability),
        ),
    );
}

fn report_duplicates(source: &Option<String>, anchor: Span, list: &Vec<Text>, out: &mut Vec<Diagnostic>)
    ensures
        reports(final(out)@) == reports(old(out)@) + duplicates(opt_string(*source), anchor, list@, list@.len()),
{
    let ghost src = opt_string(*source);
    let ghost start = reports(out@);
    let mut i: usize = 0;
    assert(start + duplicates(src, anchor, list@, 0) == start);
    while i < list.len()
        invariant
            i <= list.len(),
            src == opt_string(*source),
            reports(out@) == start + duplicates(src, anchor, list@, i as nat),
        decreases list.len() - i,
    {
        let ghost so_far = duplicates(src, anchor, list@, i as nat);
        let mut twice = false;
        match list[i].literal_str() {
            Some(s) => {
                let mut j: usize = 0;
                while j < i && !twice
                    invariant
                        j <= i < list.len(),
                        list@[i as int].literal() == Some(s@),
                        twice ==> is_duplicate(list@, i as int),
                        !twice ==> forall|k: int| 0 <= k < j ==> (#[trigger] list@[k]).literal() != Some(s@),
                    decreases i - j,
                {
                    match list[j].literal_str() {
                        Some(t) => {
                            if same(s, t) {
                                assert(list@[j as int].literal() == list@[i as int].literal());
                                twice = true;
                            }
                        },
                        None => {},
                    }
                    j = j + 1;
                }
                if twice {
                    report_duplicate(source, anchor, s, out);
                }
            },
            None => {},
        }
        proof {
            if twice {
                let d = duplicate_report(src, anchor, list@[i as int].literal().unwrap());
                assert(start + so_far + seq![d] == start + (so_far + seq![d]));
            } else {
                assert(!is_duplicate(list@, i as int));
                assert(so_far + Seq::<DiagnosticView>::empty() == so_far);
            }
        }
        i = i + 1;
    }
}

/// RPM091 `duplicate-arch-in-list`: Duplicate token in `%ifarch`/`%ifos` list — drop the
/// redundant one.
#[derive(Debug)]
pub struct DuplicateArchInList {
    pub diagnostics: Vec<Diagnostic>,
    pub source: Option<String>,
}

impl DuplicateArchInList {
    pub fn new() -> (r: DuplicateArchInList)
        ensures
            r.pending() == Seq::<DiagnosticView>::empty(),
            r.source is None,
    {
        let r = DuplicateArchInList { diagnostics: Vec::new(), source: None };
        assert(r.pending() =~= Seq::<DiagnosticView>::empty());
        r
    }
}

impl Default for DuplicateArchInList {
    fn default() -> (r: DuplicateArchInList)
        ensures
            r.pending() == Seq::<DiagnosticView>::empty(),
            r.source is None,
    {
        DuplicateArchInList::new()
    }
}

impl Lint for DuplicateArchInList {
    open spec fn identity() -> Identity {
        Identity {
            id: "RPM091"@,
            name: "duplicate-arch-in-list"@,
            description: "Duplicate token in `%ifarch`/`%ifos` list — drop the redundant one."@,
            default_severity: Severity::Warn,
            category: LintCategory::Style,
        }
    }

    open spec fn pending(&self) -> Seq<DiagnosticView> {
        reports(self.diagnostics@)
    }

    open spec fn after(&self, spec: SpecFile) -> Seq<DiagnosticView> {
        self.pending() + branch_findings::<DuplicateArchInList>(&self.source, spec)
    }

    open spec fn same_settings(&self, other: &Self) -> bool {
        self.source == other.source
    }

    fn metadata(&self) -> (r: LintMetadata) {
        LintMetadata {
            id: "RPM091",
            name: "duplicate-arch-in-list",
            description: "Duplicate token in `%ifarch`/`%ifos` list — drop the redundant one.",
            default_severity: Severity::Warn,
            category: LintCategory::Style,
        }
    }

    fn visit_spec(&mut self, spec: &SpecFile) {
        run_branches::<DuplicateArchInList>(&self.source, spec, &mut self.diagnostics);
    }

    fn take_diagnostics(&mut self) -> (r: Vec<Diagnostic>) {
        drain(&mut self.diagnostics)
    }
}

impl BranchRule for DuplicateArchInList {
    type Settings = Option<String>;

    open spec fn on_branch(settings: &Option<String>, branch: CondBranch) -> Seq<DiagnosticView> {
        match branch.expr {
            CondExpr::ArchList(list) => duplicates(opt_string(*settings), branch.data, list@, list@.len()),
            _ => Seq::empty(),
        }
    }

    fn check_branch(settings: &Option<String>, branch: &CondBranch, out: &mut Vec<Diagnostic>) {
        match &branch.expr {
            CondExpr::ArchList(list) => {
                report_duplicates(settings, branch.data, list, out);
            },
            _ => {
                assert(reports(out@) + Seq::<DiagnosticView>::empty() == reports(out@));
            },
        }
    }
}

/// More branches than this are reported.
pub const MAX_BRANCH_SUM: usize = 15;

/// The number of branches of the top-level conditionals among `items` and of
/// those inside them, an `%else` counting as one.
pub open spec fn branch_sum(items: Seq<Item>) -> nat
    decreases items, 0int,
{
    if items.len() == 0 {
        0
    } else {
        branch_sum(items.drop_last()) + item_branch_sum(items.last())
    }
}

pub open spec fn item_branch_sum(item: Item) -> nat
    decreases item, 0int,
{
    match item {
        Item::Conditional(c) => cond_branch_sum(c),
        _ => 0,
    }
}

pub open spec fn cond_branch_sum(c: Conditional) -> nat
    decreases c, c.branches@.len() + 1,
{
    let arms = arms_branch_sum(c, c.branches@.len());
    match c.otherwise {
        Some(body) => arms + 1 + branch_sum(body@),
        None => arms,
    }
}

/// The first `n` branches of `c` and what stands inside them.
pub open spec fn arms_branch_sum(c: Conditional, n: nat) -> nat
    decreases c, n,
{
    if n == 0 || n > c.branches@.len() {
        0
    } else {
        arms_branch_sum(c, (n - 1) as nat) + 1 + branch_sum(c.branches@[n - 1].body@)
    }
}

/// `n`, or the largest number that is counted to.
pub open spec fn capped(n: nat) -> nat {
    if n <= u128::MAX {
        n
    } else {
        u128::MAX as nat
    }
}

pub open spec fn complexity_findings(spec: SpecFile) -> Seq<DiagnosticView> {
    let sum = capped(branch_sum(spec.items@));
    given(
        sum > MAX_BRANCH_SUM,
        plain("RPM092"@, Severity::Warn, "spec has "@ + decimal(sum) + " conditional branches in total — refactor or split"@, spec.data),
    )
}

fn plus(a: u128, b: u128) -> (r: u128)
    ensures
        r == capped((a + b) as nat),
{
    if a > u128::MAX - b {
        u128::MAX
    } else {
        a + b
    }
}

fn count_branches(items: &Vec<Item>) -> (r: u128)
    ensures
        r == capped(branch_sum(items@)),
    decreases items, 0int,
{
    let mut sum: u128 = 0;
    let mut i: usize = 0;
    while i < items.len()
        invariant
            i <= items.len(),
            sum == capped(branch_sum(items@.take(i as int))),
        decreases items.len() - i,
    {
        assert(items@.take(i + 1).drop_last() == items@.take(i as int));
        let n: u128 = match &items[i] {
            Item::Conditional(c) => count_cond(c),
            _ => 0,
        };
        assert(n == capped(item_branch_sum(items@[i as int])));
        sum = plus(sum, n);
        i = i + 1;
    }
    assert(items@.take(i as int) == items@);
    sum
}

fn count_cond(c: &Conditional) -> (r: u128)
    ensures
        r == capped(cond_branch_sum(*c)),
    decreases c, 0int,
{
    let mut sum: u128 = 0;
    let mut i: usize = 0;
    while i < c.branches.len()
        invariant
            i <= c.branches.len(),
            sum == capped(arms_branch_sum(*c, i as nat)),
        decreases c.branches.len() - i,
    {
        sum = plus(plus(sum, 1), count_branches(&c.branches[i].body));
        i = i + 1;
    }
    match &c.otherwise {
        Some(body) => plus(plus(sum, 1), count_branches(body)),
        None => sum,
    }
}

/// RPM092 `conditional-cyclomatic-complexity`: Section contains more conditional branches
/// than is comfortable to follow; refactor.
#[derive(Debug)]
pub struct ConditionalCyclomaticComplexity {
    pub diagnostics: Vec<Diagnostic>,
}

impl ConditionalCyclomaticComplexity {
    pub fn new() -> (r: ConditionalCyclomaticComplexity)
        ensures
            r.pending() == Seq::<DiagnosticView>::empty(),
    {
        let r = ConditionalCyclomaticComplexity { diagnostics: Vec::new() };
        assert(r.pending() =~= Seq::<DiagnosticView>::empty());
        r
    }
}

impl Default for ConditionalCyclomaticComplexity {
    fn default() -> (r: ConditionalCyclomaticComplexity)
        ensures
            r.pending() == Seq::<DiagnosticView>::empty(),
    {
        ConditionalCyclomaticComplexity::new()
    }
}

impl Lint for ConditionalCyclomaticComplexity {
    open spec fn identity() -> Identity {
        Identity {
            id: "RPM092"@,
            name: "conditional-cyclomatic-complexity"@,
            description: "Section contains more conditional branches than is comfortable to follow; refactor."@,
            default_severity: Severity::Warn,
            category: LintCategory::Style,
        }
    }

    open spec fn pending(&self) -> Seq<DiagnosticView> {
        reports(self.diagnostics@)
    }

    open spec fn after(&self, spec: SpecFile) -> Seq<DiagnosticView> {
        self.pending() + complexity_findings(spec)
    }

    open spec fn same_settings(&self, other: &Self) -> bool {
        true
    }

    fn metadata(&self) -> (r: LintMetadata) {
        LintMetadata {
            id: "RPM092",
            name: "conditional-cyclomatic-complexity",
            description: "Section contains more conditional branches than is comfortable to follow; refactor.",
            default_severity: Severity::Warn,
            category: LintCategory::Style,
        }
    }

    fn visit_spec(&mut self, spec: &SpecFile) {
        let sum: u128 = count_branches(&spec.items);
        if sum > MAX_BRANCH_SUM as u128 {
            let mut message = String::from_str("spec has ");
            message.append(number(sum).as_str());
            message.append(" conditional branches in total — refactor or split");
            say(&mut self.diagnostics, Diagnostic::new("RPM092", Severity::Warn, message.as_str(), spec.data));
        } else {
            assert(self.pending() + Seq::<DiagnosticView>::empty() == self.pending());
        }
    }

    fn take_diagnostics(&mut self) -> (r: Vec<Diagnostic>) {
        drain(&mut self.diagnostics)
    }
}

/// A branch that is reported for its empty list is never taken.
pub proof fn branch_with_empty_list_is_never_taken(
    b: CondBranch,
    val: spec_fn(Seq<char>) -> bool,
)
    requires
        IfarchEmptyList::on_branch(&(), b).len() > 0,
    ensures
        !branch_truth(b, val),
{
}

/// An `%elif` that is reported as a repeat is never taken.
pub proof fn repeated_elif_is_never_taken(
    c: Conditional,
    n: int,
    val: spec_fn(Seq<char>) -> bool,
)
    requires
        0 <= n < c.branches@.len(),
        is_repeat(c.branches@, n),
    ensures
        !taken(StepView { cond: c, arm: n }, val),
{
    let b = c.branches@;
    let s = StepView { cond: c, arm: n };
    let j = choose|j: int| 0 <= j < n && ask_alike(#[trigger] b[j], b[n]);
    alike_conditions_are_true_together(b[j].expr, b[n].expr, val);
    if taken(s, val) {
        assert(b.take(n)[j] == b[j]);
        assert(!branch_truth(b.take(n)[j], val));
    }
}

/// Exactly the blocks that stand inside four others or more are reported.
pub proof fn deep_blocks_are_reported(site: SiteView, span: Span)
    ensures
        says_at(DeepConditionalNesting::on_site(&(), site), span) <==> site.cond.data == span
            && site.path.len() >= 4,
{
    lemma_says_given(
        site.path.len() + 1 > MAX_NESTING_DEPTH,
        plain("RPM070"@, Severity::Warn, depth_message(site.path.len() + 1), site.cond.data),
        span,
    );
}

/// What a keyword asks about, and whether it asks for the opposite.
pub open spec fn question(kind: CondKind) -> (int, bool) {
    match kind {
        CondKind::If => (0, false),
        CondKind::Elif => (0, false),
        CondKind::IfArch => (1, false),
        CondKind::ElifArch => (1, false),
        CondKind::IfNArch => (1, true),
        CondKind::IfOs => (2, false),
        CondKind::ElifOs => (2, false),
        CondKind::IfNOs => (2, true),
    }
}

/// Whether branch `n` asks what branch `j` before it asked.
pub open spec fn asks_again(branches: Seq<CondBranch>, j: int, n: int) -> bool {
    &&& 0 <= j < n < branches.len()
    &&& question(branches[j].kind) == question(branches[n].kind)
    &&& resolvably_eq(branches[j].expr, branches[n].expr)
}

proof fn lemma_first_repeats(branches: Seq<CondBranch>, n: nat, span: Span)
    requires
        n <= branches.len(),
    ensures
        says_at(repeated_elifs(branches, n), span) <==> exists|j: int, i: int|
            #[trigger] asks_again(branches, j, i) && i < n && branches[i].data == span,
    decreases n,
{
    if n > 0 {
        let k = n - 1;
        lemma_first_repeats(branches, k as nat, span);
        lemma_says_given(is_repeat(branches, k), elif_report(branches[k]), span);
        lemma_says_either(
            repeated_elifs(branches, k as nat),
            given(is_repeat(branches, k), elif_report(branches[k])),
            span,
        );
        if is_repeat(branches, k) {
            let j = choose|j: int| 0 <= j < k && ask_alike(#[trigger] branches[j], branches[k]);
            assert(asks_again(branches, j, k));
        }
        if exists|j: int| #[trigger] asks_again(branches, j, k) {
            let j = choose|j: int| #[trigger] asks_again(branches, j, k);
            assert(ask_alike(branches[j], branches[k]));
        }
    }
}

/// Exactly those branches are reported that ask what a branch of the block
/// has asked before them.
pub proof fn repeated_questions_are_reported(site: SiteView, span: Span)
    ensures
        says_at(UnreachableElifBranch::on_site(&(), site), span) <==> exists|j: int, i: int|
            #[trigger] asks_again(site.cond.branches@, j, i) && site.cond.branches@[i].data == span,
{
    lemma_first_repeats(site.cond.branches@, site.cond.branches@.len(), span);
}

/// Exactly those blocks are reported in which every arm holds something, and
/// nothing but what can be left out.
pub proof fn empty_blocks_are_reported(site: SiteView, span: Span)
    ensures
        says_at(EmptyConditionalBranch::on_site(&(), site), span) <==> site.cond.data == span
            && forall|body: Seq<Item>| #[trigger]
            is_arm(site.cond, body) ==> body.len() > 0 && forall|k: int|
                0 <= k < body.len() ==> adds_nothing(#[trigger] body[k]),
{
    let c = site.cond;
    lemma_says_given(
        is_hollow(c),
        plain(
            "RPM073"@,
            Severity::Warn,
            "conditional block has no content in any branch"@,
            c.data,
        ).suggest(
            advice("remove the empty `%if`/`%endif` block"@, Applicability::MachineApplicable),
        ),
        span,
    );
    if is_hollow(c) {
        assert forall|body: Seq<Item>| #[trigger] is_arm(c, body) implies body.len() > 0 && forall|
            k: int,
        |
            0 <= k < body.len() ==> adds_nothing(#[trigger] body[k]) by {
            assert(is_hollow_body(body));
        }
    }
    if forall|body: Seq<Item>| #[trigger]
        is_arm(c, body) ==> body.len() > 0 && forall|k: int|
            0 <= k < body.len() ==> adds_nothing(#[trigger] body[k]) {
        assert forall|i: int| 0 <= i < c.branches@.len() implies is_hollow_body(
            (#[trigger] c.branches@[i]).body@,
        ) by {
            assert(is_arm(c, c.branches@[i].body@));
        }
        match c.otherwise {
            Some(body) => {
                assert(is_arm(c, body@));
            },
            None => {},
        }
    }
}

/// Exactly those branches are reported that ask for one of no names.
pub proof fn empty_lists_are_reported(branch: CondBranch, span: Span)
    ensures
        says_at(IfarchEmptyList::on_branch(&(), branch), span) <==> branch.data == span && question(
            branch.kind,
        ).0 != 0 && !question(branch.kind).1 && (branch.expr matches CondExpr::ArchList(list)
            && list@.len() == 0),
{
    let said = names_platform(branch.kind) && (branch.expr matches CondExpr::ArchList(list)
        && list@.len() == 0);
    lemma_says_given(
        said,
        plain(
            "RPM077"@,
            Severity::Warn,
            "`%ifarch`/`%ifos` with no tokens is always false; supply at least one architecture/OS name"@,
            branch.data,
        ),
        span,
    );
}

/// Exactly those branches are reported in which a comment stands and nothing
/// else but blank lines.
pub proof fn lone_comments_are_reported(branch: CondBranch, span: Span)
    ensures
        says_at(SingleCommentOnlyBranch::on_branch(&(), branch), span) <==> branch.data == span
            && exists|k: int|
            0 <= k < branch.body@.len() && (#[trigger] branch.body@[k] matches Item::Comment(_))
                && forall|j: int|
                0 <= j < branch.body@.len() ==> j == k || (#[trigger] branch.body@[j] matches
                    Item::Blank),
{
    let body = branch.body@;
    lemma_says_given(
        only_comment(body),
        plain(
            "RPM089"@,
            Severity::Warn,
            "conditional branch contains only a comment — possibly a forgotten TODO"@,
            branch.data,
        ),
        span,
    );
    if only_comment(body) {
        let k = choose|k: int|
            0 <= k < body.len() && (#[trigger] body[k] is Comment) && forall|j: int|
                0 <= j < body.len() && j != k ==> (#[trigger] body[j] is Blank);
        assert(body[k] matches Item::Comment(_));
    }
    if exists|k: int|
        0 <= k < body.len() && (#[trigger] body[k] matches Item::Comment(_)) && forall|j: int|
            0 <= j < body.len() ==> j == k || (#[trigger] body[j] matches Item::Blank) {
        let k = choose|k: int|
            0 <= k < body.len() && (#[trigger] body[k] matches Item::Comment(_)) && forall|j: int|
                0 <= j < body.len() ==> j == k || (#[trigger] body[j] matches Item::Blank);
        assert(body[k] is Comment);
    }
}

/// Exactly those branches are reported whose list of architectures names
/// `noarch`.
pub proof fn noarch_is_reported(branch: CondBranch, span: Span)
    ensures
        says_at(IfarchNoarch::on_branch(&(), branch), span) <==> branch.data == span && question(
            branch.kind,
        ).0 == 1 && (branch.expr matches CondExpr::ArchList(list) && exists|i: int|
            0 <= i < list@.len() && (#[trigger] list@[i]).literal() == Some("noarch"@)),
{
    lemma_says_given(
        asks_noarch(branch),
        plain(
            "RPM090"@,
            Severity::Warn,
            "`noarch` in an `%ifarch` token list is suspicious — `noarch` is a build marker, not an architecture"@,
            branch.data,
        ),
        span,
    );
}

/// Whether two places of a list hold the same literal name.
pub open spec fn is_twice(list: Seq<Text>, i: int, j: int) -> bool {
    0 <= i < j < list.len() && list[i].literal() is Some && list[i].literal() == list[j].literal()
}

proof fn lemma_first_twice(
    source: Option<Seq<char>>,
    anchor: Span,
    list: Seq<Text>,
    n: nat,
    span: Span,
)
    requires
        n <= list.len(),
    ensures
        says_at(duplicates(source, anchor, list, n), span) <==> anchor == span && exists|
            i: int,
            j: int,
        |
            j < n && #[trigger] is_twice(list, i, j),
    decreases n,
{
    if n > 0 {
        let k = n - 1;
        lemma_first_twice(source, anchor, list, k as nat, span);
        let d = duplicate_report(source, anchor, list[k].literal().unwrap());
        lemma_says_given(is_duplicate(list, k), d, span);
        lemma_says_either(
            duplicates(source, anchor, list, k as nat),
            given(is_duplicate(list, k), d),
            span,
        );
        if is_duplicate(list, k) {
            let i = choose|i: int|
                0 <= i < k && (#[trigger] list[i]).literal() == list[k].literal();
            assert(is_twice(list, i, k));
        }
        if exists|i: int| #[trigger] is_twice(list, i, k) {
            let i = choose|i: int| #[trigger] is_twice(list, i, k);
            assert(list[i].literal() == list[k].literal());
        }
    }
}

/// Exactly those branches are reported whose list names something twice.
pub proof fn repeated_names_are_reported(source: Option<String>, branch: CondBranch, span: Span)
    ensures
        says_at(DuplicateArchInList::on_branch(&source, branch), span) <==> branch.data == span && (
        branch.expr matches CondExpr::ArchList(list) && exists|i: int, j: int| #[trigger]
            is_twice(list@, i, j)),
{
    match branch.expr {
        CondExpr::ArchList(list) => lemma_first_twice(
            opt_string(source),
            branch.data,
            list@,
            list@.len(),
            span,
        ),
        _ => {},
    }
}

proof fn lemma_byte_find(h: Seq<u8>, n: Seq<u8>, from: int)
    ensures
        byte_find(h, n, from) matches Some(p) ==> from <= p && p + n.len() <= h.len() && h.subrange(
            p,
            p + n.len(),
        ) == n,
    decreases h.len() + 1 - from,
{
    if from < 0 || from + n.len() > h.len() {
    } else if h.subrange(from, from + n.len()) == n {
    } else {
        lemma_byte_find(h, n, from + 1);
    }
}

proof fn lemma_word_find(h: Seq<u8>, n: Seq<u8>, from: int)
    ensures
        word_find(h, n, from) matches Some(p) ==> from <= p && p + n.len() <= h.len() && h.subrange(
            p,
            p + n.len(),
        ) == n && (p == 0 || !name_byte(h[p - 1])) && (p + n.len() == h.len() || !name_byte(
            h[p + n.len()],
        )),
    decreases h.len() + 1 - from,
{
    lemma_byte_find(h, n, from);
    match byte_find(h, n, from) {
        None => {},
        Some(pos) => {
            if !stands_alone(h, pos, pos + n.len()) && n.len() > 0 && pos >= from && pos + n.len()
                <= h.len() {
                lemma_word_find(h, n, pos + n.len() as int);
            }
        },
    }
}

/// What is deleted is one name that stands in the text before, whole, with at
/// most the blank before it.
pub proof fn deletion_is_of_a_repeat(source: Seq<char>, anchor: Span, token: Seq<char>)
    requires
        anchor.start_byte <= anchor.end_byte <= byte_len(source),
        byte_slice(source, anchor.start_byte as int, anchor.end_byte as int) is Some,
        dedupe_edit(source, anchor, token) is Some,
    ensures
        ({
            let all = encode_utf8(
                byte_slice(source, anchor.start_byte as int, anchor.end_byte as int).unwrap(),
            );
            let n = encode_utf8(token);
            let e = dedupe_edit(source, anchor, token).unwrap();
            exists|first: int, second: int| #[trigger]
                is_repeat_at(all, n, first, second) && e.replacement.len() == 0 && e.span
                    == Span::bytes(
                    (anchor.start_byte + cut_from(all, second)) as usize,
                    (anchor.start_byte + second + n.len()) as usize,
                )
        }),
{
    let all = encode_utf8(
        byte_slice(source, anchor.start_byte as int, anchor.end_byte as int).unwrap(),
    );
    let n = encode_utf8(token);
    lemma_word_find(all, n, 0);
    let first = word_find(all, n, 0).unwrap();
    let after = first + n.len() as int;
    let rest = all.skip(after);
    lemma_word_find(rest, n, 0);
    let rel = word_find(rest, n, 0).unwrap();
    assert(rest.subrange(rel, rel + n.len()) =~= all.subrange(after + rel, after + rel + n.len()));
    assert(is_repeat_at(all, n, first, after + rel));
    reveal_strlit("");
}

/// Whether `n` stands in `h` at `first`, as a whole word, and again at
/// `second`, after that.
pub open spec fn is_repeat_at(h: Seq<u8>, n: Seq<u8>, first: int, second: int) -> bool {
    &&& 0 <= first
    &&& first + n.len() <= second
    &&& second + n.len() <= h.len()
    &&& h.subrange(first, first + n.len()) == n
    &&& h.subrange(second, second + n.len()) == n
    &&& first == 0 || !name_byte(h[first - 1])
}

/// Where the deletion of what stands at `second` starts: at the blank before
/// it, if there is one.
pub open spec fn cut_from(h: Seq<u8>, second: int) -> int {
    if second > 0 && (h[second - 1] == 32 || h[second - 1] == 9 || h[second - 1] == 10 || h[second
        - 1] == 12 || h[second - 1] == 13) {
        second - 1
    } else {
        second
    }
}

/// The items of the arms of a block, one arm after another.
pub open spec fn content(c: Conditional) -> Seq<Item> {
    flat(c.branches@, |b: CondBranch| b.body@) + match c.otherwise {
        Some(body) => body@,
        None => Seq::empty(),
    }
}

proof fn lemma_sum_parts(a: Seq<Item>, b: Seq<Item>)
    ensures
        branch_sum(a + b) == branch_sum(a) + branch_sum(b),
    decreases b.len(),
{
    if b.len() == 0 {
        assert(a + b =~= a);
    } else {
        lemma_sum_parts(a, b.drop_last());
        assert((a + b).drop_last() =~= a + b.drop_last());
    }
}

proof fn lemma_sum_arms(c: Conditional, n: nat)
    requires
        n <= c.branches@.len(),
    ensures
        arms_branch_sum(c, n) == n + branch_sum(
            flat(c.branches@.take(n as int), |b: CondBranch| b.body@),
        ),
    decreases n,
{
    let f = |b: CondBranch| b.body@;
    let now = c.branches@.take(n as int);
    if n > 0 {
        let k = n - 1;
        lemma_sum_arms(c, k as nat);
        assert(now.drop_last() =~= c.branches@.take(k));
        assert(now.last() == c.branches@[k]);
        lemma_sum_parts(flat(now.drop_last(), f), f(now.last()));
        assert(flat(now, f) == flat(now.drop_last(), f) + f(now.last()));
    }
}

/// Branches are counted one by one: those of lists add up, a block counts for
/// the number of its arms and for what stands in them, and nothing else
/// counts.
pub proof fn branches_add_up(a: Seq<Item>, b: Seq<Item>, item: Item)
    ensures
        branch_sum(a + b) == branch_sum(a) + branch_sum(b),
        item matches Item::Conditional(c) ==> branch_sum(seq![item]) == c.branches@.len() + (
        if c.otherwise is Some {
            1nat
        } else {
            0
        }) + branch_sum(content(c)),
        !(item is Conditional) ==> branch_sum(seq![item]) == 0,
{
    lemma_sum_parts(a, b);
    let one = seq![item];
    assert(one.drop_last() =~= Seq::<Item>::empty());
    assert(branch_sum(one.drop_last()) == 0);
    assert(one.last() == item);
    assert(branch_sum(one) == branch_sum(one.drop_last()) + item_branch_sum(one.last()));
    match item {
        Item::Conditional(c) => {
            let f = |b: CondBranch| b.body@;
            lemma_sum_arms(c, c.branches@.len());
            assert(c.branches@.take(c.branches@.len() as int) =~= c.branches@);
            let rest = match c.otherwise {
                Some(body) => body@,
                None => Seq::<Item>::empty(),
            };
            lemma_sum_parts(flat(c.branches@, f), rest);
            assert(content(c) =~= flat(c.branches@, f) + rest);
        },
        _ => {},
    }
}

/// A spec file with more than fifteen branches is reported, and no other.
pub proof fn many_branches_are_reported(
    rule: ConditionalCyclomaticComplexity,
    spec: SpecFile,
    span: Span,
)
    ensures
        says_at(news(rule, spec), span) <==> spec.data == span && branch_sum(spec.items@) > 15,
{
    let sum = capped(branch_sum(spec.items@));
    lemma_news(rule, spec, complexity_findings(spec));
    lemma_says_given(
        sum > MAX_BRANCH_SUM,
        plain(
            "RPM092"@,
            Severity::Warn,
            "spec has "@ + decimal(sum) + " conditional branches in total — refactor or split"@,
            spec.data,
        ),
        span,
    );
}

} // verus!
