//! Conditionals whose outcome or effect does not depend on their condition.
use vstd::prelude::*;

use crate::ast::{CondBranch, Conditional, Span, SpecFile, Item};
use crate::bodies::{bodies_alike, bodies_source_eq, body_text};
use crate::diagnostic::{Diagnostic, DiagnosticView, LintCategory, Severity, plain, reports};
use crate::expr::{
    cond_const_false, cond_const_true, cond_expr_resolvably_eq, is_constant_false_condition,
    is_constant_true_condition, resolvably_eq,
};
use crate::expr_laws::alike_conditions_are_true_together;
use crate::lint::{Identity, Lint, LintMetadata, drain};
use crate::path_laws::{reached, taken};
use crate::rules::{SiteRule, given, run_sites, say, site_findings};
use crate::text::{opt_string, trimmed_lines};
use crate::walk::{Site, SiteView, StepView, steps};
use crate::report_laws::{is_arm, lemma_says_given, lemma_says_one, says_at};

verus! {

pub open spec fn constant_report(verdict: Seq<char>, hint: Seq<char>, span: Span) -> DiagnosticView {
    plain("RPM072"@, Severity::Warn, "`%if` condition is "@ + verdict + "; one branch is dead code"@, span).advise(hint)
}

/// What is said of a conditional whose first condition is constant.
pub open spec fn constant_findings(c: Conditional) -> Seq<DiagnosticView> {
    if c.branches@.len() == 0 {
        Seq::empty()
    } else if cond_const_true(c.branches@[0].expr) {
        seq![constant_report("always true"@, "drop the `%if`/`%endif` wrapper and keep the body"@, c.data)]
    } else if cond_const_false(c.branches@[0].expr) {
        seq![constant_report("always false"@, "drop the `%if` body; keep the `%else` body if present"@, c.data)]
    } else {
        Seq::empty()
    }
}

fn report_constant(verdict: &str, hint: &str, span: Span, out: &mut Vec<Diagnostic>)
    ensures
        reports(final(out)@) == reports(old(out)@) + seq![constant_report(verdict@, hint@, span)],
{
    let mut message = String::from_str("`%if` condition is ");
    message.append(verdict);
    message.append("; one branch is dead code");
    say(out, Diagnostic::new("RPM072", Severity::Warn, message.as_str(), span).with_advice(hint));
}

/// RPM072 `constant-condition`: `%if 0` / `%if 1` has a fixed outcome; drop the block or
/// simplify to the live branch.
#[derive(Debug)]
pub struct ConstantCondition {
    pub diagnostics: Vec<Diagnostic>,
}

impl ConstantCondition {
    pub fn new() -> (r: ConstantCondition)
        ensures
            r.pending() == Seq::<DiagnosticView>::empty(),
    {
        let r = ConstantCondition { diagnostics: Vec::new() };
        assert(r.pending() =~= Seq::<DiagnosticView>::empty());
        r
    }
}

impl Default for ConstantCondition {
    fn default() -> (r: ConstantCondition)
        ensures
            r.pending() == Seq::<DiagnosticView>::empty(),
    {
        ConstantCondition::new()
    }
}

impl Lint for ConstantCondition {
    open spec fn identity() -> Identity {
        Identity {
            id: "RPM072"@,
            name: "constant-condition"@,
            description: "`%if 0` / `%if 1` has a fixed outcome; drop the block or simplify to the live branch."@,
            default_severity: Severity::Warn,
            category: LintCategory::Style,
        }
    }

    open spec fn pending(&self) -> Seq<DiagnosticView> {
        reports(self.diagnostics@)
    }

    open spec fn after(&self, spec: SpecFile) -> Seq<DiagnosticView> {
        self.pending() + site_findings::<ConstantCondition>(&(), spec)
    }

    open spec fn same_settings(&self, other: &Self) -> bool {
        true
    }

    fn metadata(&self) -> (r: LintMetadata) {
        LintMetadata {
            id: "RPM072",
            name: "constant-condition",
            description: "`%if 0` / `%if 1` has a fixed outcome; drop the block or simplify to the live branch.",
            default_severity: Severity::Warn,
            category: LintCategory::Style,
        }
    }

    fn visit_spec(&mut self, spec: &SpecFile) {
        run_sites::<ConstantCondition>(&(), spec, &mut self.diagnostics);
    }

    fn take_diagnostics(&mut self) -> (r: Vec<Diagnostic>) {
        drain(&mut self.diagnostics)
    }
}

impl SiteRule for ConstantCondition {
    type Settings = ();

    open spec fn on_site(_settings: &(), site: SiteView) -> Seq<DiagnosticView> {
        constant_findings(site.cond)
    }

    fn check_site(_settings: &(), site: &Site, out: &mut Vec<Diagnostic>) {
        let c = site.cond;
        if c.branches.len() > 0 && is_constant_true_condition(&c.branches[0].expr) {
            report_constant("always true", "drop the `%if`/`%endif` wrapper and keep the body", c.data, out);
        } else if c.branches.len() > 0 && is_constant_false_condition(&c.branches[0].expr) {
            report_constant("always false", "drop the `%if` body; keep the `%else` body if present", c.data, out);
        } else {
            assert(reports(out@) + Seq::<DiagnosticView>::empty() == reports(out@));
        }
    }
}

/// Whether there are at least two arms and the text of each is that of the
/// first, but for whitespace at the end of lines.
pub open spec fn arms_alike(c: Conditional, source: Seq<char>) -> bool {
    &&& c.branches@.len() + (if c.otherwise is Some { 1int } else { 0int }) >= 2
    &&& c.branches@.len() > 0
    &&& forall|i: int|
        0 < i < c.branches@.len() ==> bodies_alike(
            c.branches@[0].body@,
            (#[trigger] c.branches@[i]).body@,
            source,
            true,
        )
    &&& c.otherwise matches Some(body) ==> bodies_alike(c.branches@[0].body@, body@, source, true)
}

fn identical(c: &Conditional, source: &str) -> (r: bool)
    ensures
        r == arms_alike(*c, source@),
{
    if c.branches.len() == 0 || (c.branches.len() < 2 && c.otherwise.is_none()) {
        return false;
    }
    let mut i: usize = 1;
    while i < c.branches.len()
        invariant
            1 <= i <= c.branches.len(),
            forall|j: int|
                0 < j < i ==> bodies_alike(
                    c.branches@[0].body@,
                    (#[trigger] c.branches@[j]).body@,
                    source@,
                    true,
                ),
        decreases c.branches.len() - i,
    {
        if !bodies_source_eq(&c.branches[0].body, &c.branches[i].body, source, true) {
            assert(!bodies_alike(c.branches@[0].body@, c.branches@[i as int].body@, source@, true));
            return false;
        }
        i = i + 1;
    }
    match &c.otherwise {
        Some(body) => bodies_source_eq(&c.branches[0].body, body, source, true),
        None => true,
    }
}

fn identical_in(c: &Conditional, source: &Option<String>) -> (r: bool)
    ensures
        r == (opt_string(*source) matches Some(s) && arms_alike(*c, s)),
{
    match source {
        Some(s) => identical(c, s.as_str()),
        None => false,
    }
}

impl IdenticalConditionalBranches {
    /// Gives the rule the source text that bodies are compared in.
    pub fn set_source(&mut self, source: &str)
        ensures
            opt_string(final(self).source) == Some(source@),
            final(self).pending() == old(self).pending(),
    {
        self.source = Some(source.to_owned());
    }
}

/// RPM074 `identical-conditional-branches`: Every branch of this conditional has the same
/// body — the block is a no-op.
#[derive(Debug)]
pub struct IdenticalConditionalBranches {
    pub diagnostics: Vec<Diagnostic>,
    pub source: Option<String>,
}

impl IdenticalConditionalBranches {
    pub fn new() -> (r: IdenticalConditionalBranches)
        ensures
            r.pending() == Seq::<DiagnosticView>::empty(),
            r.source is None,
    {
        let r = IdenticalConditionalBranches { diagnostics: Vec::new(), source: None };
        assert(r.pending() =~= Seq::<DiagnosticView>::empty());
        r
    }
}

impl Default for IdenticalConditionalBranches {
    fn default() -> (r: IdenticalConditionalBranches)
        ensures
            r.pending() == Seq::<DiagnosticView>::empty(),
            r.source is None,
    {
        IdenticalConditionalBranches::new()
    }
}

impl Lint for IdenticalConditionalBranches {
    open spec fn identity() -> Identity {
        Identity {
            id: "RPM074"@,
            name: "identical-conditional-branches"@,
            description: "Every branch of this conditional has the same body — the block is a no-op."@,
            default_severity: Severity::Warn,
            category: LintCategory::Style,
        }
    }

    open spec fn pending(&self) -> Seq<DiagnosticView> {
        reports(self.diagnostics@)
    }

    open spec fn after(&self, spec: SpecFile) -> Seq<DiagnosticView> {
        self.pending() + site_findings::<IdenticalConditionalBranches>(&self.source, spec)
    }

    open spec fn same_settings(&self, other: &Self) -> bool {
        self.source == other.source
    }

    fn metadata(&self) -> (r: LintMetadata) {
        LintMetadata {
            id: "RPM074",
            name: "identical-conditional-branches",
            description: "Every branch of this conditional has the same body — the block is a no-op.",
            default_severity: Severity::Warn,
            category: LintCategory::Style,
        }
    }

    fn visit_spec(&mut self, spec: &SpecFile) {
        run_sites::<IdenticalConditionalBranches>(&self.source, spec, &mut self.diagnostics);
    }

    fn take_diagnostics(&mut self) -> (r: Vec<Diagnostic>) {
        drain(&mut self.diagnostics)
    }
}

impl SiteRule for IdenticalConditionalBranches {
    type Settings = Option<String>;

    open spec fn on_site(settings: &Option<String>, site: SiteView) -> Seq<DiagnosticView> {
        given(
            opt_string(*settings) matches Some(s) && arms_alike(site.cond, s),
            plain("RPM074"@, Severity::Warn, "all branches of this conditional contain the same body"@, site.cond.data).advise("replace the whole block with one copy of the shared body"@),
        )
    }

    fn check_site(settings: &Option<String>, site: &Site, out: &mut Vec<Diagnostic>) {
        if identical_in(site.cond, settings) {
            say(out, Diagnostic::new("RPM074", Severity::Warn, "all branches of this conditional contain the same body", site.cond.data).with_advice("replace the whole block with one copy of the shared body"));
        } else {
            assert(reports(out@) + Seq::<DiagnosticView>::empty() == reports(out@));
        }
    }
}

/// Whether a step leads into a first branch that asks what `b` asks.
pub open spec fn asked_by(step: StepView, b: CondBranch) -> bool {
    &&& step.arm == 0
    &&& step.cond.branches@.len() > 0
    &&& step.cond.branches@[0].kind == b.kind
    &&& resolvably_eq(step.cond.branches@[0].expr, b.expr)
}

/// Whether the first branch of `c` asks what one of the first branches that
/// it stands in has asked.
pub open spec fn repeats_enclosing(c: Conditional, path: Seq<StepView>) -> bool {
    c.branches@.len() > 0 && exists|i: int|
        0 <= i < path.len() && asked_by(#[trigger] path[i], c.branches@[0])
}

fn repeats_outer(site: &Site) -> (r: bool)
    ensures
        r == repeats_enclosing(site@.cond, site@.path),
{
    let c = site.cond;
    if c.branches.len() == 0 {
        return false;
    }
    let ghost path = site@.path;
    let mut i: usize = 0;
    while i < site.path.len()
        invariant
            i <= site.path.len(),
            path == steps(site.path@),
            path == site@.path,
            *c == site@.cond,
            c.branches.len() > 0,
            forall|j: int|
                0 <= j < i ==> !asked_by(#[trigger] path[j], c.branches@[0]),
        decreases site.path.len() - i,
    {
        let arm: usize = site.path[i].arm;
        let outer = site.path[i].cond;
        assert(path[i as int] == site.path@[i as int]@);
        if arm == 0 && outer.branches.len() > 0 && outer.branches[0].kind == c.branches[0].kind
            && cond_expr_resolvably_eq(&outer.branches[0].expr, &c.branches[0].expr) {
            return true;
        }
        i = i + 1;
    }
    false
}

/// RPM075 `redundant-nested-condition`: Inner `%if` repeats an enclosing `%if`'s condition;
/// the inner test always passes.
#[derive(Debug)]
pub struct RedundantNestedCondition {
    pub diagnostics: Vec<Diagnostic>,
}

impl RedundantNestedCondition {
    pub fn new() -> (r: RedundantNestedCondition)
        ensures
            r.pending() == Seq::<DiagnosticView>::empty(),
    {
        let r = RedundantNestedCondition { diagnostics: Vec::new() };
        assert(r.pending() =~= Seq::<DiagnosticView>::empty());
        r
    }
}

impl Default for RedundantNestedCondition {
    fn default() -> (r: RedundantNestedCondition)
        ensures
            r.pending() == Seq::<DiagnosticView>::empty(),
    {
        RedundantNestedCondition::new()
    }
}

impl Lint for RedundantNestedCondition {
    open spec fn identity() -> Identity {
        Identity {
            id: "RPM075"@,
            name: "redundant-nested-condition"@,
            description: "Inner `%if` repeats an enclosing `%if`'s condition; the inner test always passes."@,
            default_severity: Severity::Warn,
            category: LintCategory::Style,
        }
    }

    open spec fn pending(&self) -> Seq<DiagnosticView> {
        reports(self.diagnostics@)
    }

    open spec fn after(&self, spec: SpecFile) -> Seq<DiagnosticView> {
        self.pending() + site_findings::<RedundantNestedCondition>(&(), spec)
    }

    open spec fn same_settings(&self, other: &Self) -> bool {
        true
    }

    fn metadata(&self) -> (r: LintMetadata) {
        LintMetadata {
            id: "RPM075",
            name: "redundant-nested-condition",
            description: "Inner `%if` repeats an enclosing `%if`'s condition; the inner test always passes.",
            default_severity: Severity::Warn,
            category: LintCategory::Style,
        }
    }

    fn visit_spec(&mut self, spec: &SpecFile) {
        run_sites::<RedundantNestedCondition>(&(), spec, &mut self.diagnostics);
    }

    fn take_diagnostics(&mut self) -> (r: Vec<Diagnostic>) {
        drain(&mut self.diagnostics)
    }
}

impl SiteRule for RedundantNestedCondition {
    type Settings = ();

    open spec fn on_site(_settings: &(), site: SiteView) -> Seq<DiagnosticView> {
        given(
            repeats_enclosing(site.cond, site.path),
            plain("RPM075"@, Severity::Warn, "inner `%if` repeats an enclosing condition and is always satisfied"@, site.cond.data).advise("drop the inner `%if`/`%endif` wrapper"@),
        )
    }

    fn check_site(_settings: &(), site: &Site, out: &mut Vec<Diagnostic>) {
        if repeats_outer(site) {
            say(out, Diagnostic::new("RPM075", Severity::Warn, "inner `%if` repeats an enclosing condition and is always satisfied", site.cond.data).with_advice("drop the inner `%if`/`%endif` wrapper"));
        } else {
            assert(reports(out@) + Seq::<DiagnosticView>::empty() == reports(out@));
        }
    }
}

/// The test of a reported inner block passes wherever the block is reached:
/// its first branch is taken there.
pub proof fn repeated_test_always_passes(
    c: Conditional,
    path: Seq<StepView>,
    val: spec_fn(Seq<char>) -> bool,
)
    requires
        repeats_enclosing(c, path),
        reached(path, val),
    ensures
        taken(StepView { cond: c, arm: 0 }, val),
{
    let i = choose|i: int| 0 <= i < path.len() && asked_by(#[trigger] path[i], c.branches@[0]);
    assert(taken(path[i], val));
    alike_conditions_are_true_together(
        path[i].cond.branches@[0].expr,
        c.branches@[0].expr,
        val,
    );
}

/// Exactly those blocks are reported whose first condition is constant, and
/// the report says which constant it is.
pub proof fn constant_conditions_are_reported(site: SiteView, span: Span)
    ensures
        says_at(ConstantCondition::on_site(&(), site), span) <==> site.cond.data == span
            && site.cond.branches@.len() > 0 && (cond_const_true(site.cond.branches@[0].expr)
            || cond_const_false(site.cond.branches@[0].expr)),
        site.cond.branches@.len() > 0 && cond_const_true(site.cond.branches@[0].expr)
            ==> ConstantCondition::on_site(&(), site).len() == 1 && ConstantCondition::on_site(
            &(),
            site,
        )[0].message == "`%if` condition is always true; one branch is dead code"@,
        site.cond.branches@.len() > 0 && cond_const_false(site.cond.branches@[0].expr)
            && !cond_const_true(site.cond.branches@[0].expr) ==> ConstantCondition::on_site(
            &(),
            site,
        ).len() == 1 && ConstantCondition::on_site(&(), site)[0].message
            == "`%if` condition is always false; one branch is dead code"@,
{
    let c = site.cond;
    reveal_strlit("`%if` condition is ");
    reveal_strlit("always true");
    reveal_strlit("always false");
    reveal_strlit("; one branch is dead code");
    reveal_strlit("`%if` condition is always true; one branch is dead code");
    reveal_strlit("`%if` condition is always false; one branch is dead code");
    let yes = constant_report(
        "always true"@,
        "drop the `%if`/`%endif` wrapper and keep the body"@,
        c.data,
    );
    let no = constant_report(
        "always false"@,
        "drop the `%if` body; keep the `%else` body if present"@,
        c.data,
    );
    lemma_says_one(yes, span);
    lemma_says_one(no, span);
    assert(yes.message =~= "`%if` condition is always true; one branch is dead code"@);
    assert(no.message =~= "`%if` condition is always false; one branch is dead code"@);
}

/// Exactly those blocks are reported that have two arms or more, any two of
/// which have the same text.
pub proof fn equal_arms_are_reported(source: Option<String>, site: SiteView, span: Span)
    requires
        site.cond.branches@.len() > 0,
    ensures
        says_at(IdenticalConditionalBranches::on_site(&source, site), span) <==> site.cond.data
            == span && (site.cond.branches@.len() >= 2 || site.cond.otherwise is Some) && (
        source matches Some(text) && forall|a: Seq<Item>, b: Seq<Item>|
            #![trigger is_arm(site.cond, a), is_arm(site.cond, b)]
            is_arm(site.cond, a) && is_arm(site.cond, b) ==> same_text(a, b, text@)),
{
    let c = site.cond;
    lemma_says_given(
        opt_string(source) matches Some(s) && arms_alike(c, s),
        plain(
            "RPM074"@,
            Severity::Warn,
            "all branches of this conditional contain the same body"@,
            c.data,
        ).advise("replace the whole block with one copy of the shared body"@),
        span,
    );
    match source {
        Some(text) => {
            let first = c.branches@[0].body@;
            assert(is_arm(c, first));
            if arms_alike(c, text@) {
                assert forall|a: Seq<Item>| #[trigger] is_arm(c, a) implies a == first || same_text(
                    first,
                    a,
                    text@,
                ) by {
                    if exists|i: int|
                        0 <= i < c.branches@.len() && (#[trigger] c.branches@[i]).body@ == a {
                        let i = choose|i: int|
                            0 <= i < c.branches@.len() && (#[trigger] c.branches@[i]).body@ == a;
                        if i > 0 {
                            assert(bodies_alike(first, c.branches@[i].body@, text@, true));
                        }
                    }
                }
                if c.branches@.len() >= 2 {
                    assert(bodies_alike(first, c.branches@[1].body@, text@, true));
                }
                assert(same_text(first, first, text@));
            }
            if (c.branches@.len() >= 2 || c.otherwise is Some) && forall|a: Seq<Item>, b: Seq<Item>|
                #![trigger is_arm(c, a), is_arm(c, b)]
                is_arm(c, a) && is_arm(c, b) ==> same_text(a, b, text@) {
                assert forall|i: int| 0 < i < c.branches@.len() implies bodies_alike(
                    first,
                    (#[trigger] c.branches@[i]).body@,
                    text@,
                    true,
                ) by {
                    assert(is_arm(c, c.branches@[i].body@));
                }
                match c.otherwise {
                    Some(body) => {
                        assert(is_arm(c, body@));
                    },
                    None => {},
                }
            }
        },
        None => {},
    }
}

/// Whether two bodies have a text, and the same but for whitespace at the end
/// of lines.
pub open spec fn same_text(a: Seq<Item>, b: Seq<Item>, source: Seq<char>) -> bool {
    match (body_text(a, source, true), body_text(b, source, true)) {
        (Some(s), Some(t)) => trimmed_lines(s) == trimmed_lines(t),
        _ => false,
    }
}

/// Exactly those blocks are reported whose first question was asked by the
/// first branch of a block that they stand in, in that branch.
pub proof fn repeated_tests_are_reported(site: SiteView, span: Span)
    ensures
        says_at(RedundantNestedCondition::on_site(&(), site), span) <==> site.cond.data == span
            && site.cond.branches@.len() > 0 && exists|i: int|
            0 <= i < site.path.len() && (#[trigger] site.path[i]).arm == 0
                && site.path[i].cond.branches@.len() > 0 && site.path[i].cond.branches@[0].kind
                == site.cond.branches@[0].kind && resolvably_eq(
                site.path[i].cond.branches@[0].expr,
                site.cond.branches@[0].expr,
            ),
{
    lemma_says_given(
        repeats_enclosing(site.cond, site.path),
        plain(
            "RPM075"@,
            Severity::Warn,
            "inner `%if` repeats an enclosing condition and is always satisfied"@,
            site.cond.data,
        ).advise("drop the inner `%if`/`%endif` wrapper"@),
        span,
    );
    if repeats_enclosing(site.cond, site.path) {
        let i = choose|i: int|
            0 <= i < site.path.len() && asked_by(#[trigger] site.path[i], site.cond.branches@[0]);
        assert(site.path[i].arm == 0);
    }
}

} // verus!
