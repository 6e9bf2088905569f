//! Plain `%if` blocks nested without anything between them.
use vstd::prelude::*;

use crate::ast::{CondExpr, CondKind, Conditional, ExprAst, Item, SpecFile, Span};
use crate::bodies::{is_sole, sole, is_filler};
use crate::diagnostic::{Diagnostic, DiagnosticView, LintCategory, Severity, plain, reports};
use crate::expr::{concat_text, parts_text};
use crate::lint::{Identity, Lint, LintMetadata, drain};
use crate::rules::{SiteRule, given, run_sites, say, site_findings};
use crate::text::chars;
use crate::walk::{Site, SiteView};
use crate::report_laws::{adds_nothing, lemma_says_one, says_at};

verus! {

/// The first position at or after `i` that is not a space or a tab.
pub open spec fn past_blanks(s: Seq<char>, i: int) -> int
    decreases s.len() - i,
{
    if 0 <= i < s.len() && (s[i] == ' ' || s[i] == '\t') {
        past_blanks(s, i + 1)
    } else {
        i
    }
}

proof fn lemma_past_blanks(s: Seq<char>, i: int)
    requires
        0 <= i,
    ensures
        past_blanks(s, i) >= i,
    decreases s.len() - i,
{
    if i < s.len() && (s[i] == ' ' || s[i] == '\t') {
        lemma_past_blanks(s, i + 1);
    }
}

/// Whether every macro from position `i` on expands to nothing where it is
/// not defined: `%{?name}` or `%{!?name}`. `%%` is no macro.
pub open spec fn safe_from(s: Seq<char>, i: int) -> bool
    decreases s.len() - i,
{
    if i < 0 || i + 1 >= s.len() {
        true
    } else if s[i] != '%' {
        safe_from(s, i + 1)
    } else if s[i + 1] == '%' {
        safe_from(s, i + 2)
    } else if s[i + 1] == '{' {
        let j = past_blanks(s, i + 2);
        j >= i && j < s.len() && (s[j] == '?' || s[j] == '!') && safe_from(s, j + 1)
    } else {
        false
    }
}

/// Whether an expression text can be evaluated whatever macros are defined.
pub fn inner_expr_safe_to_merge(expr: &str) -> (r: bool)
    ensures
        r == safe_from(expr@, 0),
{
    let s = chars(expr);
    let n: usize = s.len();
    let mut i: usize = 0;
    while i < n && i + 1 < n
        invariant
            n == s.len(),
            i <= n,
            s@ == expr@,
            safe_from(s@, 0) == safe_from(s@, i as int),
        decreases n - i,
    {
        if s[i] != '%' {
            i = i + 1;
        } else if s[i + 1] == '%' {
            i = i + 2;
        } else if s[i + 1] == '{' {
            let mut j: usize = i + 2;
            while j < n && (s[j] == ' ' || s[j] == '\t')
                invariant
                    n == s.len(),
                    i + 2 <= j <= n,
                    past_blanks(s@, i + 2) == past_blanks(s@, j as int),
                decreases n - j,
            {
                j = j + 1;
            }
            if j < n && (s[j] == '?' || s[j] == '!') {
                i = j + 1;
            } else {
                return false;
            }
        } else {
            return false;
        }
    }
    true
}

/// Whether an expression can be evaluated whatever macros are defined.
pub open spec fn expr_safe(e: ExprAst) -> bool
    decreases e,
{
    match e {
        ExprAst::Integer { .. } => true,
        ExprAst::Identifier { .. } => true,
        ExprAst::String { value, .. } => safe_from(value@, 0),
        ExprAst::Macro { text, .. } => safe_from(text@, 0),
        ExprAst::Paren { inner, .. } => expr_safe(*inner),
        ExprAst::Not { inner, .. } => expr_safe(*inner),
        ExprAst::Binary { lhs, rhs, .. } => expr_safe(*lhs) && expr_safe(*rhs),
        ExprAst::NumericConcat { parts, .. } => safe_from(parts_text(parts@), 0),
    }
}

fn expr_ast_safe_to_merge(e: &ExprAst) -> (r: bool)
    ensures
        r == expr_safe(*e),
    decreases e,
{
    match e {
        ExprAst::Integer { .. } => true,
        ExprAst::Identifier { .. } => true,
        ExprAst::String { value, .. } => inner_expr_safe_to_merge(value.as_str()),
        ExprAst::Macro { text, .. } => inner_expr_safe_to_merge(text.as_str()),
        ExprAst::Paren { inner, .. } => expr_ast_safe_to_merge(inner),
        ExprAst::Not { inner, .. } => expr_ast_safe_to_merge(inner),
        ExprAst::Binary { lhs, rhs, .. } => expr_ast_safe_to_merge(lhs) && expr_ast_safe_to_merge(rhs),
        ExprAst::NumericConcat { parts, .. } => inner_expr_safe_to_merge(concat_text(parts).as_str()),
    }
}

pub open spec fn cond_safe(c: CondExpr) -> bool {
    match c {
        CondExpr::Raw(t) => match t.literal() {
            Some(s) => safe_from(s, 0),
            None => false,
        },
        CondExpr::Parsed(e) => expr_safe(*e),
        CondExpr::ArchList(_) => false,
    }
}

fn safe_to_merge(c: &CondExpr) -> (r: bool)
    ensures
        r == cond_safe(*c),
{
    match c {
        CondExpr::Raw(t) => match t.literal_str() {
            Some(s) => inner_expr_safe_to_merge(s),
            None => false,
        },
        CondExpr::Parsed(e) => expr_ast_safe_to_merge(e),
        CondExpr::ArchList(_) => false,
    }
}

/// A plain `%if` without `%elif` and `%else`.
pub open spec fn is_plain_block(c: Conditional) -> bool {
    c.branches@.len() == 1 && c.otherwise is None && c.branches@[0].kind is If
}

fn plain_block(c: &Conditional) -> (r: bool)
    ensures
        r == is_plain_block(*c),
{
    c.branches.len() == 1 && c.otherwise.is_none() && matches!(c.branches[0].kind, CondKind::If)
}

/// Whether nothing but a plain block stands in `body`, whose condition can be
/// evaluated where the one around it fails.
pub open spec fn holds_plain_block(body: Seq<Item>) -> bool {
    exists|k: int|
        #[trigger] is_sole(body, k) && (body[k] matches Item::Conditional(inner) && is_plain_block(
            inner,
        ) && cond_safe(inner.branches@[0].expr))
}

pub open spec fn is_nested_and(outer: Conditional) -> bool {
    is_plain_block(outer) && holds_plain_block(outer.branches@[0].body@)
}

fn nested_and_pattern(outer: &Conditional) -> (r: bool)
    ensures
        r == is_nested_and(*outer),
{
    if !plain_block(outer) {
        return false;
    }
    let body = &outer.branches[0].body;
    match sole(body) {
        None => false,
        Some(k) => {
            assert forall|j: int| is_sole(body@, j) implies j == k by {}
            match &body[k] {
                Item::Conditional(inner) => plain_block(inner) && safe_to_merge(&inner.branches[0].expr),
                _ => false,
            }
        },
    }
}

/// RPM080 `nested-and-collapse`: Two single-branch `%if` blocks nested directly can be
/// merged into one with `&&`.
#[derive(Debug)]
pub struct NestedAndCollapse {
    pub diagnostics: Vec<Diagnostic>,
}

impl NestedAndCollapse {
    pub fn new() -> (r: NestedAndCollapse)
        ensures
            r.pending() == Seq::<DiagnosticView>::empty(),
    {
        let r = NestedAndCollapse { diagnostics: Vec::new() };
        assert(r.pending() =~= Seq::<DiagnosticView>::empty());
        r
    }
}

impl Default for NestedAndCollapse {
    fn default() -> (r: NestedAndCollapse)
        ensures
            r.pending() == Seq::<DiagnosticView>::empty(),
    {
        NestedAndCollapse::new()
    }
}

impl Lint for NestedAndCollapse {
    open spec fn identity() -> Identity {
        Identity {
            id: "RPM080"@,
            name: "nested-and-collapse"@,
            description: "Two single-branch `%if` blocks nested directly can be merged into one with `&&`."@,
            default_severity: Severity::Warn,
            category: LintCategory::Style,
        }
    }

    open spec fn pending(&self) -> Seq<DiagnosticView> {
        reports(self.diagnostics@)
    }

    open spec fn after(&self, spec: SpecFile) -> Seq<DiagnosticView> {
        self.pending() + site_findings::<NestedAndCollapse>(&(), spec)
    }

    open spec fn same_settings(&self, other: &Self) -> bool {
        true
    }

    fn metadata(&self) -> (r: LintMetadata) {
        LintMetadata {
            id: "RPM080",
            name: "nested-and-collapse",
            description: "Two single-branch `%if` blocks nested directly can be merged into one with `&&`.",
            default_severity: Severity::Warn,
            category: LintCategory::Style,
        }
    }

    fn visit_spec(&mut self, spec: &SpecFile) {
        run_sites::<NestedAndCollapse>(&(), spec, &mut self.diagnostics);
    }

    fn take_diagnostics(&mut self) -> (r: Vec<Diagnostic>) {
        drain(&mut self.diagnostics)
    }
}

impl SiteRule for NestedAndCollapse {
    type Settings = ();

    open spec fn on_site(_settings: &(), site: SiteView) -> Seq<DiagnosticView> {
        given(
            is_nested_and(site.cond),
            plain("RPM080"@, Severity::Warn, "nested `%if`s can be safely merged into one with `&&` (inner condition uses only conditional macro refs)"@, site.cond.data).advise("rewrite as `%if (outer-expr) && (inner-expr)` and drop one `%if`/`%endif` pair"@),
        )
    }

    fn check_site(_settings: &(), site: &Site, out: &mut Vec<Diagnostic>) {
        if nested_and_pattern(site.cond) {
            say(out, Diagnostic::new("RPM080", Severity::Warn, "nested `%if`s can be safely merged into one with `&&` (inner condition uses only conditional macro refs)", site.cond.data).with_advice("rewrite as `%if (outer-expr) && (inner-expr)` and drop one `%if`/`%endif` pair"));
        } else {
            assert(reports(out@) + Seq::<DiagnosticView>::empty() == reports(out@));
        }
    }
}

proof fn lemma_shift_blanks(p: Seq<char>, q: Seq<char>, i: int)
    requires
        0 <= i,
    ensures
        past_blanks(p + q, p.len() + i) == p.len() + past_blanks(q, i),
        past_blanks(q, i) >= i,
    decreases q.len() - i,
{
    if i < q.len() {
        assert((p + q)[p.len() + i] == q[i]);
        if q[i] == ' ' || q[i] == '\t' {
            lemma_shift_blanks(p, q, i + 1);
        }
    }
}

proof fn lemma_shift_safe(p: Seq<char>, q: Seq<char>, i: int)
    requires
        0 <= i,
    ensures
        safe_from(p + q, p.len() + i) == safe_from(q, i),
    decreases q.len() - i,
{
    let s = p + q;
    if i + 1 < q.len() {
        assert(s[p.len() + i] == q[i]);
        assert(s[p.len() + i + 1] == q[i + 1]);
        if q[i] != '%' {
            lemma_shift_safe(p, q, i + 1);
        } else if q[i + 1] == '%' {
            lemma_shift_safe(p, q, i + 2);
        } else if q[i + 1] == '{' {
            lemma_shift_blanks(p, q, i + 2);
            let j = past_blanks(q, i + 2);
            if j < q.len() {
                assert(s[p.len() + j] == q[j]);
                lemma_shift_safe(p, q, j + 1);
            }
        }
    }
}

proof fn lemma_plain_lead(p: Seq<char>, q: Seq<char>, i: int)
    requires
        0 <= i <= p.len(),
        !p.contains('%'),
    ensures
        safe_from(p + q, i) == safe_from(q, 0),
    decreases p.len() - i,
{
    let s = p + q;
    if i == p.len() {
        lemma_shift_safe(p, q, 0);
    } else {
        assert(s[i] == p[i]);
        assert(p[i] != '%');
        lemma_plain_lead(p, q, i + 1);
        if i + 1 >= s.len() {
            assert(q.len() == 0 || q.len() == 1);
        }
    }
}

/// A text is read from one `%` to the next: plain text in front of a macro
/// makes no difference, `%%` is no macro, a macro is fine exactly if a `?` or
/// a `!` stands first in its braces, and any other use of `%` is not.
pub proof fn only_guarded_macros_are_safe(
    lead: Seq<char>,
    blanks: Seq<char>,
    c: char,
    rest: Seq<char>,
)
    requires
        !lead.contains('%'),
        forall|i: int| 0 <= i < blanks.len() ==> #[trigger] blanks[i] == ' ' || blanks[i] == '\t',
    ensures
        safe_from(lead, 0),
        safe_from(lead + (seq!['%', '%'] + rest), 0) == safe_from(rest, 0),
        c != ' ' && c != '\t' ==> safe_from(lead + (seq!['%', '{'] + blanks + (seq![c] + rest)), 0)
            == ((c == '?' || c == '!') && safe_from(rest, 0)),
        c != '%' && c != '{' ==> !safe_from(lead + (seq!['%', c] + rest), 0),
{
    lemma_plain_lead(lead, Seq::empty(), 0);
    assert(lead + Seq::<char>::empty() =~= lead);
    let double = seq!['%', '%'] + rest;
    lemma_plain_lead(lead, double, 0);
    lemma_shift_safe(seq!['%', '%'], rest, 0);
    assert(double[0] == '%' && double[1] == '%');
    let other = seq!['%', c] + rest;
    lemma_plain_lead(lead, other, 0);
    assert(other[0] == '%' && other[1] == c);
    let open = seq!['%', '{'] + blanks;
    let tail = seq![c] + rest;
    let braced = open + tail;
    lemma_plain_lead(lead, braced, 0);
    assert(braced[0] == '%' && braced[1] == '{');
    if c != ' ' && c != '\t' {
        assert(braced[open.len() as int] == c);
        lemma_over_blanks(braced, 2, open.len() as int);
        assert(braced =~= open.push(c) + rest);
        lemma_shift_safe(open.push(c), rest, 0);
    }
}

proof fn lemma_over_blanks(s: Seq<char>, i: int, end: int)
    requires
        0 <= i <= end < s.len(),
        forall|k: int| i <= k < end ==> #[trigger] s[k] == ' ' || s[k] == '\t',
        s[end] != ' ' && s[end] != '\t',
    ensures
        past_blanks(s, i) == end,
    decreases end - i,
{
    if i < end {
        assert(s[i] == ' ' || s[i] == '\t');
        lemma_over_blanks(s, i + 1, end);
    }
}

/// Whether an item is a plain `%if` alone, whose condition can be asked
/// whatever is defined.
pub open spec fn is_mergeable(item: Item) -> bool {
    item matches Item::Conditional(c) && c.branches@.len() == 1 && c.otherwise is None
        && c.branches@[0].kind == CondKind::If && cond_safe(c.branches@[0].expr)
}

/// Exactly those plain `%if` blocks are reported that hold one more of the
/// kind and nothing else that adds anything.
pub proof fn nested_blocks_are_reported(site: SiteView, span: Span)
    ensures
        says_at(NestedAndCollapse::on_site(&(), site), span) <==> ({
            let c = site.cond;
            let body = c.branches@[0].body@;
            &&& c.data == span
            &&& c.branches@.len() == 1 && c.otherwise is None && c.branches@[0].kind == CondKind::If
            &&& exists|k: int|
                0 <= k < body.len() && is_mergeable(#[trigger] body[k]) && forall|j: int|
                    0 <= j < body.len() && j != k ==> adds_nothing(#[trigger] body[j])
        }),
{
    let c = site.cond;
    let on = NestedAndCollapse::on_site(&(), site);
    if is_nested_and(c) {
        lemma_says_one(on[0], span);
        assert(on =~= seq![on[0]]);
    }
    if c.branches@.len() == 1 {
        let b = c.branches@[0].body@;
        if holds_plain_block(b) {
            let k = choose|k: int|
                #[trigger] is_sole(b, k) && (b[k] matches Item::Conditional(inner)
                    && is_plain_block(inner) && cond_safe(inner.branches@[0].expr));
            assert(is_mergeable(b[k]));
            assert forall|j: int| 0 <= j < b.len() && j != k implies adds_nothing(
                #[trigger] b[j],
            ) by {
                assert(is_filler(b[j]));
            }
        }
        if exists|k: int|
            0 <= k < b.len() && is_mergeable(#[trigger] b[k]) && forall|j: int|
                0 <= j < b.len() && j != k ==> adds_nothing(#[trigger] b[j]) {
            let k = choose|k: int|
                0 <= k < b.len() && is_mergeable(#[trigger] b[k]) && forall|j: int|
                    0 <= j < b.len() && j != k ==> adds_nothing(#[trigger] b[j]);
            assert(is_sole(b, k));
        }
    }
}

} // verus!
