//! An empty `%ifarch` branch beside an `%else` with content.
use vstd::prelude::*;

use crate::ast::{CondBranch, CondKind, Conditional, SpecFile, Span};
use crate::bodies::{all_filler, only_filler, is_filler};
use crate::diagnostic::{Diagnostic, DiagnosticView, LintCategory, Severity, plain, reports};
use crate::lint::{Identity, Lint, LintMetadata, drain};
use crate::path_laws::{branch_truth, none_true, taken};
use crate::rules::{SiteRule, run_sites, say, site_findings};
use crate::text::opt_view;
use crate::walk::{Site, SiteView, StepView};
use crate::report_laws::{adds_nothing, lemma_says_one, says_at};

verus! {

/// The keyword that asks the opposite, for the keywords that have one.
pub open spec fn opposite_keyword(kind: CondKind) -> Option<Seq<char>> {
    match kind {
        CondKind::IfArch => Some("ifnarch"@),
        CondKind::IfNArch => Some("ifarch"@),
        CondKind::IfOs => Some("ifnos"@),
        CondKind::IfNOs => Some("ifos"@),
        _ => None,
    }
}

fn flippable_arch_kind(kind: CondKind) -> (r: Option<&'static str>)
    ensures
        opt_view(r) == opposite_keyword(kind),
{
    match kind {
        CondKind::IfArch => Some("ifnarch"),
        CondKind::IfNArch => Some("ifarch"),
        CondKind::IfOs => Some("ifnos"),
        CondKind::IfNOs => Some("ifos"),
        _ => None,
    }
}

/// The keyword to write instead, where the only branch is empty and the
/// `%else` is not.
pub open spec fn inverted(c: Conditional) -> Option<Seq<char>> {
    if c.branches@.len() == 1 && all_filler(c.branches@[0].body@) && (c.otherwise matches Some(body)
        && !all_filler(body@)) {
        opposite_keyword(c.branches@[0].kind)
    } else {
        None
    }
}

fn check_invert_empty(c: &Conditional) -> (r: Option<&'static str>)
    ensures
        opt_view(r) == inverted(*c),
{
    if c.branches.len() != 1 {
        return None;
    }
    let other = match &c.otherwise {
        Some(body) => body,
        None => {
            return None;
        },
    };
    if !only_filler(&c.branches[0].body) || only_filler(other) {
        return None;
    }
    flippable_arch_kind(c.branches[0].kind)
}

/// RPM082 `invert-empty-if-arch`: `%ifarch X %else FOO %endif` — empty `%if` branch with
/// content in `%else`; flip kind.
#[derive(Debug)]
pub struct InvertEmptyIfArch {
    pub diagnostics: Vec<Diagnostic>,
}

impl InvertEmptyIfArch {
    pub fn new() -> (r: InvertEmptyIfArch)
        ensures
            r.pending() == Seq::<DiagnosticView>::empty(),
    {
        let r = InvertEmptyIfArch { diagnostics: Vec::new() };
        assert(r.pending() =~= Seq::<DiagnosticView>::empty());
        r
    }
}

impl Default for InvertEmptyIfArch {
    fn default() -> (r: InvertEmptyIfArch)
        ensures
            r.pending() == Seq::<DiagnosticView>::empty(),
    {
        InvertEmptyIfArch::new()
    }
}

impl Lint for InvertEmptyIfArch {
    open spec fn identity() -> Identity {
        Identity {
            id: "RPM082"@,
            name: "invert-empty-if-arch"@,
            description: "`%ifarch X %else FOO %endif` — empty `%if` branch with content in `%else`; flip kind."@,
            default_severity: Severity::Warn,
            category: LintCategory::Style,
        }
    }

    open spec fn pending(&self) -> Seq<DiagnosticView> {
        reports(self.diagnostics@)
    }

    open spec fn after(&self, spec: SpecFile) -> Seq<DiagnosticView> {
        self.pending() + site_findings::<InvertEmptyIfArch>(&(), spec)
    }

    open spec fn same_settings(&self, other: &Self) -> bool {
        true
    }

    fn metadata(&self) -> (r: LintMetadata) {
        LintMetadata {
            id: "RPM082",
            name: "invert-empty-if-arch",
            description: "`%ifarch X %else FOO %endif` — empty `%if` branch with content in `%else`; flip kind.",
            default_severity: Severity::Warn,
            category: LintCategory::Style,
        }
    }

    fn visit_spec(&mut self, spec: &SpecFile) {
        run_sites::<InvertEmptyIfArch>(&(), spec, &mut self.diagnostics);
    }

    fn take_diagnostics(&mut self) -> (r: Vec<Diagnostic>) {
        drain(&mut self.diagnostics)
    }
}

impl SiteRule for InvertEmptyIfArch {
    type Settings = ();

    open spec fn on_site(_settings: &(), site: SiteView) -> Seq<DiagnosticView> {
        match inverted(site.cond) {
            Some(keyword) => seq![
                plain("RPM082"@, Severity::Warn, "flip `%"@ + keyword + "` to its negation and drop the empty branch"@, site.cond.data).advise(
                    "rewrite to use the opposite arch/os keyword without `%else`"@,
                ),
            ],
            None => Seq::empty(),
        }
    }

    fn check_site(_settings: &(), site: &Site, out: &mut Vec<Diagnostic>) {
        match check_invert_empty(site.cond) {
            Some(keyword) => {
                let mut message = String::from_str("flip `%");
                message.append(keyword);
                message.append("` to its negation and drop the empty branch");
                say(
                    out,
                    Diagnostic::new("RPM082", Severity::Warn, message.as_str(), site.cond.data).with_advice(
                        "rewrite to use the opposite arch/os keyword without `%else`",
                    ),
                );
            },
            None => {
                assert(reports(out@) + Seq::<DiagnosticView>::empty() == reports(out@));
            },
        }
    }
}

/// Inverting is safe: the `%else` of a reported block is taken exactly where
/// a block with the opposite keyword and the same list is.
pub proof fn inverted_block_is_taken_like_the_else(
    c: Conditional,
    b: CondBranch,
    val: spec_fn(Seq<char>) -> bool,
)
    requires
        inverted(c) is Some,
        b.expr == c.branches@[0].expr,
        opposite_keyword(b.kind) is Some,
        inverted(c) == Some(keyword(b.kind)),
    ensures
        taken(StepView { cond: c, arm: 1 }, val) == branch_truth(b, val),
{
    reveal_strlit("ifarch");
    reveal_strlit("ifnarch");
    reveal_strlit("ifos");
    reveal_strlit("ifnos");
    assert("ifarch"@.len() == 6 && "ifnarch"@.len() == 7 && "ifos"@.len() == 4 && "ifnos"@.len()
        == 5);
    let before = c.branches@.take(1);
    assert(before[0] == c.branches@[0]);
    assert(none_true(before, val) == !branch_truth(before[0], val));
}

/// The keyword of a branch on architectures or systems.
pub open spec fn keyword(kind: CondKind) -> Seq<char> {
    match kind {
        CondKind::IfArch => "ifarch"@,
        CondKind::IfNArch => "ifnarch"@,
        CondKind::IfOs => "ifos"@,
        _ => "ifnos"@,
    }
}

/// Exactly those blocks on architectures or systems are reported whose only
/// branch adds nothing while their `%else` does.
pub proof fn inverted_blocks_are_reported(site: SiteView, span: Span)
    ensures
        says_at(InvertEmptyIfArch::on_site(&(), site), span) <==> ({
            let c = site.cond;
            let b = c.branches@[0];
            &&& c.data == span
            &&& c.branches@.len() == 1
            &&& b.kind == CondKind::IfArch || b.kind == CondKind::IfNArch || b.kind
                == CondKind::IfOs || b.kind == CondKind::IfNOs
            &&& forall|k: int| 0 <= k < b.body@.len() ==> adds_nothing(#[trigger] b.body@[k])
            &&& c.otherwise matches Some(body) && exists|k: int|
                0 <= k < body@.len() && !adds_nothing(#[trigger] body@[k])
        }),
{
    let c = site.cond;
    let on = InvertEmptyIfArch::on_site(&(), site);
    if inverted(c) is Some {
        lemma_says_one(on[0], span);
        assert(on =~= seq![on[0]]);
    }
    if c.branches@.len() == 1 {
        let b = c.branches@[0].body@;
        if all_filler(b) {
            assert forall|k: int| 0 <= k < b.len() implies adds_nothing(#[trigger] b[k]) by {
                assert(is_filler(b[k]));
            }
        }
        if forall|k: int| 0 <= k < b.len() ==> adds_nothing(#[trigger] b[k]) {
            assert forall|k: int| 0 <= k < b.len() implies is_filler(#[trigger] b[k]) by {
                assert(adds_nothing(b[k]));
            }
        }
    }
    match c.otherwise {
        Some(body) => {
            let b = body@;
            if !all_filler(b) {
                let k = choose|k: int| 0 <= k < b.len() && !is_filler(#[trigger] b[k]);
                assert(!adds_nothing(b[k]));
            }
            if exists|k: int| 0 <= k < b.len() && !adds_nothing(#[trigger] b[k]) {
                let k = choose|k: int| 0 <= k < b.len() && !adds_nothing(#[trigger] b[k]);
                assert(!is_filler(b[k]));
            }
        },
        None => {},
    }
}

} // verus!
