//! An `%else` that holds nothing but an `%if`.
use vstd::prelude::*;

use crate::ast::{CondKind, Conditional, Item, SpecFile, Span};
use crate::bodies::{is_sole, sole, is_filler};
use crate::diagnostic::{Diagnostic, DiagnosticView, LintCategory, Severity, plain, reports};
use crate::lint::{Identity, Lint, LintMetadata, drain};
use crate::rules::{SiteRule, given, run_sites, say, site_findings};
use crate::walk::{Site, SiteView};
use crate::report_laws::{adds_nothing, lemma_says_one, says_at};

verus! {

/// Whether a body holds one item besides blank lines and comments, and that
/// item is a conditional that starts with a plain `%if`.
pub open spec fn holds_single_if(body: Seq<Item>) -> bool {
    exists|k: int|
        #[trigger] is_sole(body, k) && (body[k] matches Item::Conditional(c) && c.branches@.len() > 0
            && c.branches@[0].kind is If)
}

fn else_holds_single_if(body: &Vec<Item>) -> (r: bool)
    ensures
        r == holds_single_if(body@),
{
    match sole(body) {
        None => false,
        Some(k) => {
            assert forall|j: int| is_sole(body@, j) implies j == k by {}
            match &body[k] {
                Item::Conditional(c) => c.branches.len() > 0 && matches!(c.branches[0].kind, CondKind::If),
                _ => false,
            }
        },
    }
}

fn else_is_if(c: &Conditional) -> (r: bool)
    ensures
        r == (c.otherwise matches Some(body) && holds_single_if(body@)),
{
    match &c.otherwise {
        Some(body) => else_holds_single_if(body),
        None => false,
    }
}

/// RPM100 `collapse-else-if-into-elif`: `%else` containing a single `%if` block can be
/// folded into an `%elif` — drops one nesting level.
#[derive(Debug)]
pub struct CollapseElseIfIntoElif {
    pub diagnostics: Vec<Diagnostic>,
}

impl CollapseElseIfIntoElif {
    pub fn new() -> (r: CollapseElseIfIntoElif)
        ensures
            r.pending() == Seq::<DiagnosticView>::empty(),
    {
        let r = CollapseElseIfIntoElif { diagnostics: Vec::new() };
        assert(r.pending() =~= Seq::<DiagnosticView>::empty());
        r
    }
}

impl Default for CollapseElseIfIntoElif {
    fn default() -> (r: CollapseElseIfIntoElif)
        ensures
            r.pending() == Seq::<DiagnosticView>::empty(),
    {
        CollapseElseIfIntoElif::new()
    }
}

impl Lint for CollapseElseIfIntoElif {
    open spec fn identity() -> Identity {
        Identity {
            id: "RPM100"@,
            name: "collapse-else-if-into-elif"@,
            description: "`%else` containing a single `%if` block can be folded into an `%elif` — drops one nesting level."@,
            default_severity: Severity::Warn,
            category: LintCategory::Style,
        }
    }

    open spec fn pending(&self) -> Seq<DiagnosticView> {
        reports(self.diagnostics@)
    }

    open spec fn after(&self, spec: SpecFile) -> Seq<DiagnosticView> {
        self.pending() + site_findings::<CollapseElseIfIntoElif>(&(), spec)
    }

    open spec fn same_settings(&self, other: &Self) -> bool {
        true
    }

    fn metadata(&self) -> (r: LintMetadata) {
        LintMetadata {
            id: "RPM100",
            name: "collapse-else-if-into-elif",
            description: "`%else` containing a single `%if` block can be folded into an `%elif` — drops one nesting level.",
            default_severity: Severity::Warn,
            category: LintCategory::Style,
        }
    }

    fn visit_spec(&mut self, spec: &SpecFile) {
        run_sites::<CollapseElseIfIntoElif>(&(), spec, &mut self.diagnostics);
    }

    fn take_diagnostics(&mut self) -> (r: Vec<Diagnostic>) {
        drain(&mut self.diagnostics)
    }
}

impl SiteRule for CollapseElseIfIntoElif {
    type Settings = ();

    open spec fn on_site(_settings: &(), site: SiteView) -> Seq<DiagnosticView> {
        given(
            site.cond.otherwise matches Some(body) && holds_single_if(body@),
            plain("RPM100"@, Severity::Warn, "`%else` contains a single nested `%if` — collapse into `%elif`"@, site.cond.data).advise("rewrite the `%else` + nested `%if` as `%elif <inner-cond>`"@),
        )
    }

    fn check_site(_settings: &(), site: &Site, out: &mut Vec<Diagnostic>) {
        if else_is_if(site.cond) {
            say(out, Diagnostic::new("RPM100", Severity::Warn, "`%else` contains a single nested `%if` — collapse into `%elif`", site.cond.data).with_advice("rewrite the `%else` + nested `%if` as `%elif <inner-cond>`"));
        } else {
            assert(reports(out@) + Seq::<DiagnosticView>::empty() == reports(out@));
        }
    }
}

/// Exactly those blocks are reported whose `%else` holds one block that
/// starts with a plain `%if`, and nothing else that adds anything.
pub proof fn blocks_in_else_are_reported(site: SiteView, span: Span)
    ensures
        says_at(CollapseElseIfIntoElif::on_site(&(), site), span) <==> site.cond.data == span && (
        site.cond.otherwise matches Some(body) && exists|k: int|
            0 <= k < body@.len() && opens_with_if(#[trigger] body@[k]) && forall|j: int|
                0 <= j < body@.len() && j != k ==> adds_nothing(#[trigger] body@[j])),
{
    let c = site.cond;
    let on = CollapseElseIfIntoElif::on_site(&(), site);
    if c.otherwise matches Some(body) && holds_single_if(body@) {
        lemma_says_one(on[0], span);
        assert(on =~= seq![on[0]]);
    }
    match c.otherwise {
        Some(body) => {
            let b = body@;
            if holds_single_if(b) {
                let k = choose|k: int|
                    #[trigger] is_sole(b, k) && (b[k] matches Item::Conditional(x)
                        && x.branches@.len() > 0 && x.branches@[0].kind is If);
                assert(opens_with_if(b[k]));
                assert forall|j: int| 0 <= j < b.len() && j != k implies adds_nothing(
                    #[trigger] b[j],
                ) by {
                    assert(is_filler(b[j]));
                }
            }
            if exists|k: int|
                0 <= k < b.len() && opens_with_if(#[trigger] b[k]) && forall|j: int|
                    0 <= j < b.len() && j != k ==> adds_nothing(#[trigger] b[j]) {
                let k = choose|k: int|
                    0 <= k < b.len() && opens_with_if(#[trigger] b[k]) && forall|j: int|
                        0 <= j < b.len() && j != k ==> adds_nothing(#[trigger] b[j]);
                assert(is_sole(b, k));
            }
        },
        None => {},
    }
}

/// Whether an item is a block that starts with a plain `%if`.
pub open spec fn opens_with_if(item: Item) -> bool {
    item matches Item::Conditional(c) && c.branches@.len() > 0 && c.branches@[0].kind
        == CondKind::If
}

} // verus!
