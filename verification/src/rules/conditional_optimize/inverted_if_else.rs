//! A negated `%if` with an `%else` that holds something.
use vstd::prelude::*;

use crate::ast::{CondExpr, CondKind, Conditional, ExprAst, SpecFile, Span};
use crate::bodies::{all_filler, only_filler, is_filler};
use crate::diagnostic::{Diagnostic, DiagnosticView, LintCategory, Severity, plain, reports};
use crate::lint::{Identity, Lint, LintMetadata, drain};
use crate::rules::{SiteRule, given, run_sites, say, site_findings};
use crate::text::{has_prefix, trim_start, trimmed_start};
use crate::walk::{Site, SiteView};
use crate::report_laws::{adds_nothing, lemma_says_one, says_at};

verus! {

/// Whether a condition is `!X`. A text that starts with `!=` is not.
pub open spec fn is_negation(c: CondExpr) -> bool {
    match c {
        CondExpr::Parsed(e) => e.bare() is Not,
        CondExpr::Raw(t) => match t.literal() {
            Some(s) => "!"@.is_prefix_of(trim_start(s)) && !"!="@.is_prefix_of(trim_start(s)),
            None => false,
        },
        CondExpr::ArchList(_) => false,
    }
}

fn head_is_negation(c: &CondExpr) -> (r: bool)
    ensures
        r == is_negation(*c),
{
    match c {
        CondExpr::Parsed(e) => matches!(e.peel_parens(), ExprAst::Not { .. }),
        CondExpr::Raw(t) => match t.literal_str() {
            Some(s) => {
                let head = trimmed_start(s);
                has_prefix(head, "!") && !has_prefix(head, "!=")
            },
            None => false,
        },
        CondExpr::ArchList(_) => false,
    }
}

/// Whether `%if !X` and an `%else` that holds something are all there is.
pub open spec fn is_inverted(c: Conditional) -> bool {
    &&& c.branches@.len() == 1
    &&& c.otherwise matches Some(body) && !all_filler(body@)
    &&& is_negation(c.branches@[0].expr)
    &&& c.branches@[0].kind is If
}

fn inverted(c: &Conditional) -> (r: bool)
    ensures
        r == is_inverted(*c),
{
    let other = match &c.otherwise {
        Some(body) => body,
        None => {
            return false;
        },
    };
    c.branches.len() == 1 && !only_filler(other) && head_is_negation(&c.branches[0].expr)
        && matches!(c.branches[0].kind, CondKind::If)
}

/// RPM105 `inverted-if-else`: `%if !X foo %else bar %endif` reads more naturally when the
/// negation is removed and the branches are swapped.
#[derive(Debug)]
pub struct InvertedIfElse {
    pub diagnostics: Vec<Diagnostic>,
}

impl InvertedIfElse {
    pub fn new() -> (r: InvertedIfElse)
        ensures
            r.pending() == Seq::<DiagnosticView>::empty(),
    {
        let r = InvertedIfElse { diagnostics: Vec::new() };
        assert(r.pending() =~= Seq::<DiagnosticView>::empty());
        r
    }
}

impl Default for InvertedIfElse {
    fn default() -> (r: InvertedIfElse)
        ensures
            r.pending() == Seq::<DiagnosticView>::empty(),
    {
        InvertedIfElse::new()
    }
}

impl Lint for InvertedIfElse {
    open spec fn identity() -> Identity {
        Identity {
            id: "RPM105"@,
            name: "inverted-if-else"@,
            description: "`%if !X foo %else bar %endif` reads more naturally when the negation is removed and the branches are swapped."@,
            default_severity: Severity::Warn,
            category: LintCategory::Style,
        }
    }

    open spec fn pending(&self) -> Seq<DiagnosticView> {
        reports(self.diagnostics@)
    }

    open spec fn after(&self, spec: SpecFile) -> Seq<DiagnosticView> {
        self.pending() + site_findings::<InvertedIfElse>(&(), spec)
    }

    open spec fn same_settings(&self, other: &Self) -> bool {
        true
    }

    fn metadata(&self) -> (r: LintMetadata) {
        LintMetadata {
            id: "RPM105",
            name: "inverted-if-else",
            description: "`%if !X foo %else bar %endif` reads more naturally when the negation is removed and the branches are swapped.",
            default_severity: Severity::Warn,
            category: LintCategory::Style,
        }
    }

    fn visit_spec(&mut self, spec: &SpecFile) {
        run_sites::<InvertedIfElse>(&(), spec, &mut self.diagnostics);
    }

    fn take_diagnostics(&mut self) -> (r: Vec<Diagnostic>) {
        drain(&mut self.diagnostics)
    }
}

impl SiteRule for InvertedIfElse {
    type Settings = ();

    open spec fn on_site(_settings: &(), site: SiteView) -> Seq<DiagnosticView> {
        given(
            is_inverted(site.cond),
            plain("RPM105"@, Severity::Warn, "`%if !X ... %else ... %endif` — remove the negation and swap the branch bodies"@, site.cond.data).advise("drop the leading `!` and swap the `%if` body with the `%else` body"@),
        )
    }

    fn check_site(_settings: &(), site: &Site, out: &mut Vec<Diagnostic>) {
        if inverted(site.cond) {
            say(out, Diagnostic::new("RPM105", Severity::Warn, "`%if !X ... %else ... %endif` — remove the negation and swap the branch bodies", site.cond.data).with_advice("drop the leading `!` and swap the `%if` body with the `%else` body"));
        } else {
            assert(reports(out@) + Seq::<DiagnosticView>::empty() == reports(out@));
        }
    }
}

/// Exactly those blocks are reported that are made of `%if !X` and an `%else`
/// that adds something. A text that starts with `!=` is no negation.
pub proof fn negated_blocks_are_reported(site: SiteView, span: Span)
    ensures
        says_at(InvertedIfElse::on_site(&(), site), span) <==> ({
            let c = site.cond;
            &&& c.data == span
            &&& c.branches@.len() == 1
            &&& c.branches@[0].kind == CondKind::If
            &&& starts_with_not(c.branches@[0].expr)
            &&& c.otherwise matches Some(body) && exists|k: int|
                0 <= k < body@.len() && !adds_nothing(#[trigger] body@[k])
        }),
{
    let c = site.cond;
    let on = InvertedIfElse::on_site(&(), site);
    if is_inverted(c) {
        lemma_says_one(on[0], span);
        assert(on =~= seq![on[0]]);
    }
    if c.branches@.len() == 1 {
        match c.branches@[0].expr {
            CondExpr::Raw(t) => match t.literal() {
                Some(s) => {
                    let u = trim_start(s);
                    reveal_strlit("!");
                    reveal_strlit("!=");
                    assert("!"@.len() == 1 && "!"@[0] == '!');
                    assert("!="@.len() == 2 && "!="@[0] == '!' && "!="@[1] == '=');
                    if u.len() > 0 {
                        assert(u.subrange(0, 1)[0] == u[0]);
                        if u[0] == '!' {
                            assert(u.subrange(0, 1) =~= "!"@);
                        }
                    }
                    if u.len() > 1 {
                        assert(u.subrange(0, 2)[0] == u[0] && u.subrange(0, 2)[1] == u[1]);
                        if u[0] == '!' && u[1] == '=' {
                            assert(u.subrange(0, 2) =~= "!="@);
                        }
                    }
                },
                None => {},
            },
            _ => {},
        }
    }
    match c.otherwise {
        Some(body) => {
            let b = body@;
            if !all_filler(b) {
                let k = choose|k: int| 0 <= k < b.len() && !is_filler(#[trigger] b[k]);
                assert(!adds_nothing(b[k]));
            }
            if exists|k: int| 0 <= k < b.len() && !adds_nothing(#[trigger] b[k]) {
                let k = choose|k: int| 0 <= k < b.len() && !adds_nothing(#[trigger] b[k]);
                assert(!is_filler(b[k]));
            }
        },
        None => {},
    }
}

/// Whether a condition negates something as a whole.
pub open spec fn starts_with_not(c: CondExpr) -> bool {
    match c {
        CondExpr::Parsed(e) => e.bare() is Not,
        CondExpr::Raw(t) => t.literal() matches Some(s) && ({
            let u = trim_start(s);
            u.len() > 0 && u[0] == '!' && !(u.len() > 1 && u[1] == '=')
        }),
        CondExpr::ArchList(_) => false,
    }
}

} // verus!
