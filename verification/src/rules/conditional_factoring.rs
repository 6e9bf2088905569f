//! Conditions that are repeated so often that they deserve a name.
use vstd::prelude::*;

use crate::ast::{CondBranch, CondExpr, ExprAst, Span, SpecFile, BinOp};
use crate::condition::string_texts;
use crate::diagnostic::{Diagnostic, DiagnosticView, LintCategory, Severity, plain, reports};
use crate::lint::{Identity, Lint, LintMetadata, drain};
use crate::names::{in_order, insert_name, ordering_keeps_the_names};
use crate::rules::{given, say};
use crate::expr::{concat_text, parts_text};
use crate::text::{
    chars, count, decimal, has_prefix, opt_string, signed_decimal, signed_number, strip_prefix,
    trim, trim_start, trimmed, trimmed_start, without_prefix,
};
use crate::walk::{SiteView, conditionals, flat, lemma_flat_step, site_views, spec_sites};
use crate::report_laws::{lemma_says_flat, lemma_says_given, says_at};
use crate::rules::conditional_optimize::expr_constants::part_of;
use crate::text_laws::signed_decimal_tells_numbers_apart;

verus! {

/// A condition that is repeated this often is reported.
pub const THRESHOLD: usize = 5;

/// No more than this many repetitions are pointed at.
pub const MAX_LABELS: usize = 4;

/// Whether an expression is a single macro, name or constant, perhaps negated
/// or joined with digits: there is nothing to give a name to.
pub open spec fn is_trivial(e: ExprAst) -> bool
    decreases e,
{
    match e {
        ExprAst::Paren { inner, .. } => is_trivial(*inner),
        ExprAst::Not { inner, .. } => is_trivial(*inner),
        ExprAst::Binary { .. } => false,
        _ => true,
    }
}

fn is_trivial_ast(e: &ExprAst) -> (r: bool)
    ensures
        r == is_trivial(*e),
    decreases e,
{
    match e {
        ExprAst::Paren { inner, .. } => is_trivial_ast(inner),
        ExprAst::Not { inner, .. } => is_trivial_ast(inner),
        ExprAst::Binary { .. } => false,
        _ => true,
    }
}

/// A space, a tab or a character that operators are made of.
pub open spec fn is_operator(c: char) -> bool {
    c == ' ' || c == '\t' || c == '&' || c == '|' || c == '=' || c == '<' || c == '>' || c == '!'
        || c == '+' || c == '-' || c == '*' || c == '/'
}

/// `s` without `p` at its start, if it is there.
pub open spec fn past(s: Seq<char>, p: Seq<char>) -> Seq<char> {
    match strip_prefix(s, p) {
        Some(rest) => rest,
        None => s,
    }
}

/// `s` without a `!` at its start and the whitespace after it.
pub open spec fn past_negation(s: Seq<char>) -> Seq<char> {
    match strip_prefix(s, "!"@) {
        Some(rest) => trim_start(rest),
        None => s,
    }
}

/// Whether a text is a single macro, perhaps negated or after a `0`.
pub open spec fn is_trivial_text(s: Seq<char>) -> bool {
    let bare = past(past_negation(s), "0"@);
    "%"@.is_prefix_of(bare) && forall|i: int| 0 <= i < bare.len() ==> !is_operator(#[trigger] bare[i])
}

fn is_trivial_raw(s: &str) -> (r: bool)
    ensures
        r == is_trivial_text(s@),
{
    let t = match without_prefix(s, "!") {
        Some(rest) => trimmed_start(rest),
        None => s,
    };
    let bare = match without_prefix(t, "0") {
        Some(rest) => rest,
        None => t,
    };
    assert(t@ == past_negation(s@));
    assert(bare@ == past(t@, "0"@));
    has_prefix(bare, "%") && has_no_operator(bare)
}

fn has_no_operator(s: &str) -> (r: bool)
    ensures
        r == forall|i: int| 0 <= i < s@.len() ==> !is_operator(#[trigger] s@[i]),
{
    let v = chars(s);
    let mut i: usize = 0;
    while i < v.len()
        invariant
            i <= v.len(),
            v@ == s@,
            forall|k: int| 0 <= k < i ==> !is_operator(#[trigger] v@[k]),
        decreases v.len() - i,
    {
        let c = v[i];
        if c == ' ' || c == '\t' || c == '&' || c == '|' || c == '=' || c == '<' || c == '>' || c == '!'
            || c == '+' || c == '-' || c == '*' || c == '/' {
            assert(is_operator(s@[i as int]));
            return false;
        }
        i = i + 1;
    }
    true
}

/// The text of an expression without its layout.
pub open spec fn rendered(e: ExprAst) -> Seq<char>
    decreases e,
{
    match e {
        ExprAst::Integer { value, .. } => signed_decimal(value as int),
        ExprAst::String { value, .. } => "\""@ + value@ + "\""@,
        ExprAst::Macro { text, .. } => text@,
        ExprAst::Identifier { name, .. } => name@,
        ExprAst::Paren { inner, .. } => "("@ + rendered(*inner) + ")"@,
        ExprAst::Not { inner, .. } => "!"@ + rendered(*inner),
        ExprAst::Binary { kind, lhs, rhs, .. } => rendered(*lhs) + kind.symbol() + rendered(*rhs),
        ExprAst::NumericConcat { parts, .. } => parts_text(parts@),
    }
}

fn render(e: &ExprAst) -> (r: String)
    ensures
        r@ == rendered(*e),
    decreases e,
{
    match e {
        ExprAst::Integer { value, .. } => signed_number(*value),
        ExprAst::String { value, .. } => {
            let mut s = String::from_str("\"");
            s.append(value.as_str());
            s.append("\"");
            s
        },
        ExprAst::Macro { text, .. } => text.as_str().to_owned(),
        ExprAst::Identifier { name, .. } => name.as_str().to_owned(),
        ExprAst::Paren { inner, .. } => {
            let mut s = String::from_str("(");
            s.append(render(inner).as_str());
            s.append(")");
            s
        },
        ExprAst::Not { inner, .. } => {
            let mut s = String::from_str("!");
            s.append(render(inner).as_str());
            s
        },
        ExprAst::Binary { kind, lhs, rhs, .. } => {
            let mut s = render(lhs);
            s.append(kind.as_str());
            s.append(render(rhs).as_str());
            s
        },
        ExprAst::NumericConcat { parts, .. } => concat_text(parts),
    }
}

/// The text by which a condition is counted. Trivial conditions and lists of
/// architectures are not.
pub open spec fn mention_key(c: CondExpr) -> Option<Seq<char>> {
    match c {
        CondExpr::Raw(t) => match t.literal() {
            Some(s) => if is_trivial_text(trim(s)) || trim(s).len() == 0 {
                None
            } else {
                Some(trim(s))
            },
            None => None,
        },
        CondExpr::Parsed(e) => if is_trivial(*e) || rendered(*e).len() == 0 {
            None
        } else {
            Some(rendered(*e))
        },
        CondExpr::ArchList(_) => None,
    }
}

fn key_of(c: &CondExpr) -> (r: Option<String>)
    ensures
        opt_string(r) == mention_key(*c),
{
    match c {
        CondExpr::Raw(t) => match t.literal_str() {
            Some(s) => {
                let text = trimmed(s);
                if is_trivial_raw(text) || text.is_empty() {
                    None
                } else {
                    Some(text.to_owned())
                }
            },
            None => None,
        },
        CondExpr::Parsed(e) => {
            if is_trivial_ast(e) {
                return None;
            }
            let s = render(e);
            if s.as_str().is_empty() {
                None
            } else {
                Some(s)
            }
        },
        CondExpr::ArchList(_) => None,
    }
}

/// A condition and where it stands.
#[derive(Debug)]
pub struct Mention {
    pub key: String,
    pub span: Span,
}

pub struct MentionView {
    pub key: Seq<char>,
    pub span: Span,
}

impl View for Mention {
    type V = MentionView;

    open spec fn view(&self) -> MentionView {
        MentionView { key: self.key@, span: self.span }
    }
}

pub open spec fn mention_views(v: Seq<Mention>) -> Seq<MentionView> {
    v.map_values(|m: Mention| m@)
}

pub open spec fn mention_of(branch: CondBranch) -> Seq<MentionView> {
    match mention_key(branch.expr) {
        Some(key) => seq![MentionView { key, span: branch.data }],
        None => Seq::empty(),
    }
}

pub open spec fn chain_mentions(branches: Seq<CondBranch>) -> Seq<MentionView> {
    flat(branches, |b: CondBranch| mention_of(b))
}

/// The conditions of `spec`, in source order.
pub open spec fn spec_mentions(spec: SpecFile) -> Seq<MentionView> {
    flat(spec_sites(spec), |s: SiteView| chain_mentions(s.cond.branches@))
}

/// The keys of the mentions, in order, each once.
pub open spec fn mention_keys(ms: Seq<MentionView>) -> Seq<Seq<char>> {
    in_order(ms.map_values(|m: MentionView| m.key))
}

/// Where `key` is mentioned.
pub open spec fn spans_of(ms: Seq<MentionView>, key: Seq<char>) -> Seq<Span>
    decreases ms.len(),
{
    if ms.len() == 0 {
        Seq::empty()
    } else if ms.last().key == key {
        spans_of(ms.drop_last(), key).push(ms.last().span)
    } else {
        spans_of(ms.drop_last(), key)
    }
}

pub open spec fn many_message(key: Seq<char>, n: nat) -> Seq<char> {
    let head = "condition `"@ + key + "` appears "@ + decimal(n) + " times across this spec — consider factoring into a `%global` flag"@;
    if n - 1 > MAX_LABELS {
        head + " (showing "@ + decimal(MAX_LABELS as nat) + " of "@ + decimal((n - 1) as nat) + " other sites; "@ + decimal((n - 1 - MAX_LABELS) as nat) + " more not labelled)"@
    } else {
        head
    }
}

/// `d` with labels at the sites after the first, up to site `n`.
pub open spec fn labelled(d: DiagnosticView, spans: Seq<Span>, n: int) -> DiagnosticView
    decreases n,
{
    if n <= 0 {
        d
    } else {
        labelled(d, spans, n - 1).label(spans[n], "also here"@)
    }
}

/// The report on a condition that stands at all of `spans`.
pub open spec fn many_report(key: Seq<char>, spans: Seq<Span>) -> DiagnosticView {
    labelled(
        plain("RPM093"@, Severity::Warn, many_message(key, spans.len()), spans[0]),
        spans,
        if spans.len() - 1 > MAX_LABELS {
            MAX_LABELS as int
        } else {
            spans.len() - 1
        },
    )
}

pub open spec fn key_findings(ms: Seq<MentionView>, key: Seq<char>) -> Seq<DiagnosticView> {
    given(spans_of(ms, key).len() >= THRESHOLD, many_report(key, spans_of(ms, key)))
}

/// One report for each condition that is repeated often enough.
pub open spec fn mention_findings(ms: Seq<MentionView>) -> Seq<DiagnosticView> {
    flat(mention_keys(ms), |k: Seq<char>| key_findings(ms, k))
}

fn record_chain(branches: &Vec<CondBranch>, out: &mut Vec<Mention>)
    ensures
        mention_views(final(out)@) == mention_views(old(out)@) + chain_mentions(branches@),
{
    let ghost f = |b: CondBranch| mention_of(b);
    let ghost start = mention_views(out@);
    let mut i: usize = 0;
    assert(start + flat(branches@.take(0), f) == start);
    while i < branches.len()
        invariant
            i <= branches.len(),
            f == (|b: CondBranch| mention_of(b)),
            mention_views(out@) == start + flat(branches@.take(i as int), f),
        decreases branches.len() - i,
    {
        let ghost so_far = flat(branches@.take(i as int), f);
        let ghost here = f(branches@[i as int]);
        match key_of(&branches[i].expr) {
            Some(key) => {
                let mention = Mention { key, span: branches[i].data };
                let ghost mv = mention@;
                out.push(mention);
                assert(mention_views(out@) =~= (start + so_far).push(mv));
                assert(here =~= seq![mv]);
            },
            None => {
                assert(so_far + here =~= so_far);
            },
        }
        proof {
            lemma_flat_step(branches@, f, i as int);
            assert(start + so_far + here =~= start + (so_far + here));
        }
        i = i + 1;
    }
    assert(branches@.take(i as int) == branches@);
}

fn record_all(spec: &SpecFile, out: &mut Vec<Mention>)
    ensures
        mention_views(final(out)@) == mention_views(old(out)@) + spec_mentions(*spec),
{
    let sites = conditionals(spec);
    let ghost views = site_views(sites@);
    let ghost f = |s: SiteView| chain_mentions(s.cond.branches@);
    let ghost start = mention_views(out@);
    let mut i: usize = 0;
    assert(start + flat(views.take(0), f) == start);
    while i < sites.len()
        invariant
            i <= sites.len(),
            views == site_views(sites@),
            f == (|s: SiteView| chain_mentions(s.cond.branches@)),
            mention_views(out@) == start + flat(views.take(i as int), f),
        decreases sites.len() - i,
    {
        record_chain(&sites[i].cond.branches, out);
        proof {
            lemma_flat_step(views, f, i as int);
            assert(views[i as int] == sites@[i as int]@);
            let a = flat(views.take(i as int), f);
            assert(start + a + f(views[i as int]) == start + (a + f(views[i as int])));
        }
        i = i + 1;
    }
    assert(views.take(i as int) == views);
}

fn ordered_keys(ms: &Vec<Mention>) -> (r: Vec<String>)
    ensures
        string_texts(r@) == mention_keys(mention_views(ms@)),
{
    let ghost keys = mention_views(ms@).map_values(|m: MentionView| m.key);
    let mut out: Vec<String> = Vec::new();
    let mut i: usize = 0;
    assert(string_texts(out@) =~= in_order(keys.take(0)));
    while i < ms.len()
        invariant
            i <= ms.len(),
            keys == mention_views(ms@).map_values(|m: MentionView| m.key),
            string_texts(out@) == in_order(keys.take(i as int)),
        decreases ms.len() - i,
    {
        assert(keys.take(i + 1).drop_last() == keys.take(i as int));
        assert(keys.take(i + 1).last() == ms@[i as int].key@);
        insert_name(&mut out, ms[i].key.clone());
        i = i + 1;
    }
    assert(keys.take(i as int) == keys);
    out
}

fn collect_spans(ms: &Vec<Mention>, key: &String) -> (r: Vec<Span>)
    ensures
        r@ == spans_of(mention_views(ms@), key@),
{
    let ghost v = mention_views(ms@);
    let mut out: Vec<Span> = Vec::new();
    let mut i: usize = 0;
    while i < ms.len()
        invariant
            i <= ms.len(),
            v == mention_views(ms@),
            out@ == spans_of(v.take(i as int), key@),
        decreases ms.len() - i,
    {
        assert(v.take(i + 1).drop_last() == v.take(i as int));
        assert(v.take(i + 1).last() == ms@[i as int]@);
        if ms[i].key == *key {
            out.push(ms[i].span);
        }
        i = i + 1;
    }
    assert(v.take(i as int) == v);
    out
}

fn report_many(key: &str, spans: &Vec<Span>, out: &mut Vec<Diagnostic>)
    requires
        spans@.len() >= THRESHOLD,
    ensures
        reports(final(out)@) == reports(old(out)@) + seq![many_report(key@, spans@)],
{
    let n: usize = spans.len();
    let mut message = String::from_str("condition `");
    message.append(key);
    message.append("` appears ");
    message.append(count(n).as_str());
    message.append(" times across this spec — consider factoring into a `%global` flag");
    let attached: usize = if n - 1 > MAX_LABELS {
        MAX_LABELS
    } else {
        n - 1
    };
    if n - 1 > MAX_LABELS {
        message.append(" (showing ");
        message.append(count(MAX_LABELS).as_str());
        message.append(" of ");
        message.append(count(n - 1).as_str());
        message.append(" other sites; ");
        message.append(count(n - 1 - MAX_LABELS).as_str());
        message.append(" more not labelled)");
    }
    let mut d = Diagnostic::new("RPM093", Severity::Warn, message.as_str(), spans[0]);
    let ghost first = d@;
    let mut i: usize = 0;
    while i < attached
        invariant
            i <= attached < spans.len(),
            d@ == labelled(first, spans@, i as int),
        decreases attached - i,
    {
        i = i + 1;
        d = d.with_label(spans[i], "also here");
    }
    say(out, d);
}

fn report_mentions(ms: &Vec<Mention>, out: &mut Vec<Diagnostic>)
    ensures
        reports(final(out)@) == reports(old(out)@) + mention_findings(mention_views(ms@)),
{
    let keys = ordered_keys(ms);
    let ghost v = mention_views(ms@);
    let ghost ks = string_texts(keys@);
    let ghost f = |k: Seq<char>| key_findings(v, k);
    let ghost start = reports(out@);
    let mut i: usize = 0;
    assert(start + flat(ks.take(0), f) == start);
    while i < keys.len()
        invariant
            i <= keys.len(),
            v == mention_views(ms@),
            ks == string_texts(keys@),
            f == (|k: Seq<char>| key_findings(v, k)),
            reports(out@) == start + flat(ks.take(i as int), f),
        decreases keys.len() - i,
    {
        let ghost so_far = flat(ks.take(i as int), f);
        assert(ks[i as int] == keys@[i as int]@);
        let spans = collect_spans(ms, &keys[i]);
        if spans.len() >= THRESHOLD {
            report_many(keys[i].as_str(), &spans, out);
        } else {
            assert(so_far + Seq::<DiagnosticView>::empty() == so_far);
        }
        proof {
            lemma_flat_step(ks, f, i as int);
            assert(start + so_far + f(ks[i as int]) == start + (so_far + f(ks[i as int])));
        }
        i = i + 1;
    }
    assert(ks.take(i as int) == ks);
}

/// RPM093 `condition-mentioned-many-times`: Same `%if` expression appears many times across
/// the spec; consider factoring it into a `%global` flag.
#[derive(Debug)]
pub struct ConditionMentionedManyTimes {
    pub diagnostics: Vec<Diagnostic>,
    pub mentions: Vec<Mention>,
}

impl ConditionMentionedManyTimes {
    pub fn new() -> (r: ConditionMentionedManyTimes)
        ensures
            r.pending() == Seq::<DiagnosticView>::empty(),
            r.mentions@.len() == 0,
    {
        let r = ConditionMentionedManyTimes { diagnostics: Vec::new(), mentions: Vec::new() };
        proof {
            let none = Seq::<MentionView>::empty();
            assert(mention_views(r.mentions@) =~= none);
            assert(none.map_values(|m: MentionView| m.key) =~= Seq::empty());
            assert(mention_keys(none) =~= Seq::empty());
            assert(mention_findings(none) =~= Seq::empty());
        }
        assert(r.pending() =~= Seq::<DiagnosticView>::empty());
        r
    }
}

impl Default for ConditionMentionedManyTimes {
    fn default() -> (r: ConditionMentionedManyTimes)
        ensures
            r.pending() == Seq::<DiagnosticView>::empty(),
            r.mentions@.len() == 0,
    {
        ConditionMentionedManyTimes::new()
    }
}

impl Lint for ConditionMentionedManyTimes {
    open spec fn identity() -> Identity {
        Identity {
            id: "RPM093"@,
            name: "condition-mentioned-many-times"@,
            description: "Same `%if` expression appears many times across the spec; consider factoring it into a `%global` flag."@,
            default_severity: Severity::Warn,
            category: LintCategory::Style,
        }
    }

    open spec fn pending(&self) -> Seq<DiagnosticView> {
        reports(self.diagnostics@) + mention_findings(mention_views(self.mentions@))
    }

    open spec fn after(&self, spec: SpecFile) -> Seq<DiagnosticView> {
        reports(self.diagnostics@) + mention_findings(
            mention_views(self.mentions@) + spec_mentions(spec),
        )
    }

    open spec fn same_settings(&self, other: &Self) -> bool {
        true
    }

    fn metadata(&self) -> (r: LintMetadata) {
        LintMetadata {
            id: "RPM093",
            name: "condition-mentioned-many-times",
            description: "Same `%if` expression appears many times across the spec; consider factoring it into a `%global` flag.",
            default_severity: Severity::Warn,
            category: LintCategory::Style,
        }
    }

    fn visit_spec(&mut self, spec: &SpecFile)
        ensures
            mention_views(final(self).mentions@) == mention_views(old(self).mentions@)
                + spec_mentions(*spec),
            final(self).diagnostics@ == old(self).diagnostics@,
    {
        record_all(spec, &mut self.mentions);
    }

    fn take_diagnostics(&mut self) -> (r: Vec<Diagnostic>)
        ensures
            final(self).mentions@.len() == 0,
            final(self).diagnostics@.len() == 0,
    {
        report_mentions(&self.mentions, &mut self.diagnostics);
        self.mentions = Vec::new();
        proof {
            assert(mention_views(self.mentions@) =~= Seq::empty());
            let none = Seq::<MentionView>::empty();
            assert(mention_keys(none) =~= Seq::empty()) by {
                assert(none.map_values(|m: MentionView| m.key) =~= Seq::empty());
            }
            assert(mention_findings(none) =~= Seq::empty());
        }
        let r = drain(&mut self.diagnostics);
        assert(self.pending() =~= Seq::<DiagnosticView>::empty());
        r
    }
}

/// An expression is not worth a name exactly if no operator joins two parts
/// of it.
pub proof fn only_joined_conditions_count(e: ExprAst)
    ensures
        is_trivial(e) <==> forall|p: ExprAst| #[trigger] part_of(p, e) ==> !(p is Binary),
    decreases e,
{
    assert(part_of(e, e));
    match e {
        ExprAst::Paren { inner, .. } => {
            only_joined_conditions_count(*inner);
            if !is_trivial(e) {
                let p = choose|p: ExprAst| #[trigger] part_of(p, *inner) && p is Binary;
                assert(part_of(p, e));
            }
            if is_trivial(e) {
                assert forall|p: ExprAst| #[trigger] part_of(p, e) implies !(p is Binary) by {
                    assert(p == e || part_of(p, *inner));
                }
            }
        },
        ExprAst::Not { inner, .. } => {
            only_joined_conditions_count(*inner);
            if !is_trivial(e) {
                let p = choose|p: ExprAst| #[trigger] part_of(p, *inner) && p is Binary;
                assert(part_of(p, e));
            }
            if is_trivial(e) {
                assert forall|p: ExprAst| #[trigger] part_of(p, e) implies !(p is Binary) by {
                    assert(p == e || part_of(p, *inner));
                }
            }
        },
        _ => {},
    }
}

/// Cutting the same text off both sides leaves the same text.
proof fn lemma_cancel(a: Seq<char>, x: Seq<char>, y: Seq<char>, b: Seq<char>)
    requires
        a + x + b == a + y + b,
    ensures
        x == y,
{
    let s = a + x + b;
    let t = a + y + b;
    assert(s.len() == t.len());
    assert forall|i: int| 0 <= i < x.len() implies x[i] == y[i] by {
        assert(s[a.len() + i] == x[i]);
        assert(t[a.len() + i] == y[i]);
    }
    assert(x =~= y);
}

proof fn lemma_symbols(a: BinOp, b: BinOp)
    requires
        a.symbol() == b.symbol(),
    ensures
        a == b,
{
    reveal_strlit("||");
    reveal_strlit("&&");
    reveal_strlit("==");
    reveal_strlit("!=");
    reveal_strlit("<");
    reveal_strlit(">");
    reveal_strlit("<=");
    reveal_strlit(">=");
    assert("||"@.len() == 2 && "||"@[0] == '|');
    assert("&&"@.len() == 2 && "&&"@[0] == '&');
    assert("=="@.len() == 2 && "=="@[0] == '=');
    assert("!="@.len() == 2 && "!="@[0] == '!');
    assert("<"@.len() == 1 && "<"@[0] == '<');
    assert(">"@.len() == 1 && ">"@[0] == '>');
    assert("<="@.len() == 2 && "<="@[0] == '<');
    assert(">="@.len() == 2 && ">="@[0] == '>');
}

/// Nothing of an operation is left out of its text: where two operations have
/// one text and two of their three parts agree, the third does.
pub proof fn text_depends_on_every_part(a: ExprAst, b: ExprAst)
    requires
        rendered(a) == rendered(b),
    ensures
        match (a, b) {
            (
                ExprAst::Binary { kind: k, lhs: x, rhs: y, .. },
                ExprAst::Binary { kind: l, lhs: u, rhs: v, .. },
            ) => {
                &&& rendered(*x) == rendered(*u) && rendered(*y) == rendered(*v) ==> k == l
                &&& k == l && rendered(*y) == rendered(*v) ==> rendered(*x) == rendered(*u)
                &&& k == l && rendered(*x) == rendered(*u) ==> rendered(*y) == rendered(*v)
            },
            (ExprAst::Not { inner: x, .. }, ExprAst::Not { inner: y, .. }) => rendered(*x)
                == rendered(*y),
            (ExprAst::Paren { inner: x, .. }, ExprAst::Paren { inner: y, .. }) => rendered(*x)
                == rendered(*y),
            (ExprAst::Integer { value: x, .. }, ExprAst::Integer { value: y, .. }) => x == y,
            (ExprAst::String { value: x, .. }, ExprAst::String { value: y, .. }) => x@ == y@,
            (ExprAst::Macro { text: x, .. }, ExprAst::Macro { text: y, .. }) => x@ == y@,
            (ExprAst::Identifier { name: x, .. }, ExprAst::Identifier { name: y, .. }) => x@ == y@,
            _ => true,
        },
{
    let none = Seq::<char>::empty();
    match (a, b) {
        (
            ExprAst::Binary { kind: k, lhs: x, rhs: y, .. },
            ExprAst::Binary { kind: l, lhs: u, rhs: v, .. },
        ) => {
            if rendered(*x) == rendered(*u) && rendered(*y) == rendered(*v) {
                lemma_cancel(rendered(*x), k.symbol(), l.symbol(), rendered(*y));
                lemma_symbols(k, l);
            }
            if k == l && rendered(*y) == rendered(*v) {
                let end = k.symbol() + rendered(*y);
                assert(none + rendered(*x) + end =~= rendered(a));
                assert(none + rendered(*u) + end =~= rendered(b));
                lemma_cancel(none, rendered(*x), rendered(*u), end);
            }
            if k == l && rendered(*x) == rendered(*u) {
                let lead = rendered(*x) + k.symbol();
                assert(lead + rendered(*y) + none =~= rendered(a));
                assert(lead + rendered(*v) + none =~= rendered(b));
                lemma_cancel(lead, rendered(*y), rendered(*v), none);
            }
        },
        (ExprAst::Not { inner: x, .. }, ExprAst::Not { inner: y, .. }) => {
            assert("!"@ + rendered(*x) + none =~= rendered(a));
            assert("!"@ + rendered(*y) + none =~= rendered(b));
            lemma_cancel("!"@, rendered(*x), rendered(*y), none);
        },
        (ExprAst::Paren { inner: x, .. }, ExprAst::Paren { inner: y, .. }) => lemma_cancel(
            "("@,
            rendered(*x),
            rendered(*y),
            ")"@,
        ),
        (ExprAst::Integer { value: x, .. }, ExprAst::Integer { value: y, .. }) => {
            if x != y {
                signed_decimal_tells_numbers_apart(x as int, y as int);
            }
        },
        (ExprAst::String { value: x, .. }, ExprAst::String { value: y, .. }) => lemma_cancel(
            "\""@,
            x@,
            y@,
            "\""@,
        ),
        _ => {},
    }
}

/// Whether a mention is of `key`.
pub open spec fn is_of(key: Seq<char>) -> spec_fn(MentionView) -> bool {
    |m: MentionView| m.key == key
}

proof fn lemma_spans(ms: Seq<MentionView>, key: Seq<char>)
    ensures
        spans_of(ms, key) == ms.filter(is_of(key)).map_values(|m: MentionView| m.span),
    decreases ms.len(),
{
    let f = |m: MentionView| m.span;
    reveal(Seq::filter);
    if ms.len() == 0 {
        assert(spans_of(ms, key) =~= ms.filter(is_of(key)).map_values(f));
    } else {
        let front = ms.drop_last();
        lemma_spans(front, key);
        let kept = front.filter(is_of(key));
        if ms.last().key == key {
            assert(ms.filter(is_of(key)) == kept.push(ms.last()));
            assert(kept.push(ms.last()).map_values(f) =~= kept.map_values(f).push(ms.last().span));
        } else {
            assert(ms.filter(is_of(key)) == kept);
        }
    }
}

proof fn lemma_first_kept(ms: Seq<MentionView>, key: Seq<char>)
    ensures
        ms.filter(is_of(key)).len() == 0 ==> forall|i: int|
            0 <= i < ms.len() ==> (#[trigger] ms[i]).key != key,
        ms.filter(is_of(key)).len() > 0 ==> exists|i: int|
            0 <= i < ms.len() && #[trigger] ms[i] == ms.filter(is_of(key))[0] && ms[i].key == key
                && forall|j: int| 0 <= j < i ==> (#[trigger] ms[j]).key != key,
    decreases ms.len(),
{
    reveal(Seq::filter);
    if ms.len() > 0 {
        let front = ms.drop_last();
        lemma_first_kept(front, key);
        let kept = front.filter(is_of(key));
        let n = ms.len() - 1;
        assert forall|i: int| 0 <= i < n implies front[i] == #[trigger] ms[i] by {}
        if kept.len() == 0 {
            if ms.last().key == key {
                assert(ms.filter(is_of(key))[0] == ms.last());
                assert(ms[n] == ms.filter(is_of(key))[0]);
            }
        } else {
            let i = choose|i: int|
                0 <= i < front.len() && #[trigger] front[i] == kept[0] && front[i].key == key
                    && forall|j: int| 0 <= j < i ==> (#[trigger] front[j]).key != key;
            assert(ms.filter(is_of(key))[0] == kept[0]);
            assert(ms[i] == ms.filter(is_of(key))[0]);
        }
    }
}

/// Whether mention `i` is the first of its condition, which is mentioned five
/// times or more.
pub open spec fn leads_many(ms: Seq<MentionView>, i: int) -> bool {
    &&& 0 <= i < ms.len()
    &&& forall|j: int| 0 <= j < i ==> (#[trigger] ms[j]).key != ms[i].key
    &&& ms.filter(is_of(ms[i].key)).len() >= 5
}

proof fn lemma_labelled(d: DiagnosticView, spans: Seq<Span>, n: int)
    requires
        0 <= n,
    ensures
        labelled(d, spans, n).primary_span == d.primary_span,
        labelled(d, spans, n).labels.len() == d.labels.len() + n,
        forall|i: int|
            0 <= i < n ==> (#[trigger] labelled(d, spans, n).labels[d.labels.len() + i]).span
                == spans[i + 1],
    decreases n,
{
    if n > 0 {
        lemma_labelled(d, spans, n - 1);
        let before = labelled(d, spans, n - 1);
        let now = labelled(d, spans, n);
        assert forall|i: int| 0 <= i < n implies (#[trigger] now.labels[d.labels.len() + i]).span
            == spans[i + 1] by {
            if i < n - 1 {
                assert(now.labels[d.labels.len() + i] == before.labels[d.labels.len() + i]);
            }
        }
    }
}

/// Exactly the first mentions of conditions that are mentioned five times or
/// more are reported.
pub proof fn frequent_conditions_are_reported(ms: Seq<MentionView>, span: Span)
    ensures
        says_at(mention_findings(ms), span) <==> exists|i: int| #[trigger]
            leads_many(ms, i) && ms[i].span == span,
{
    let keys = mention_keys(ms);
    let f = |k: Seq<char>| key_findings(ms, k);
    let g = |m: MentionView| m.key;
    lemma_says_flat(keys, f, span);
    ordering_keeps_the_names(ms.map_values(g));
    assert forall|k: Seq<char>| #[trigger] says_at(key_findings(ms, k), span) <==> exists|i: int|
        #[trigger]
        leads_many(ms, i) && ms[i].span == span && ms[i].key == k by {
        lemma_one_key(ms, k, span);
    }
    if says_at(mention_findings(ms), span) {
        let n = choose|n: int| 0 <= n < keys.len() && says_at(f(#[trigger] keys[n]), span);
        assert(says_at(key_findings(ms, keys[n]), span));
    }
    if exists|i: int| #[trigger] leads_many(ms, i) && ms[i].span == span {
        let i = choose|i: int| #[trigger] leads_many(ms, i) && ms[i].span == span;
        let k = ms[i].key;
        assert(ms.map_values(g)[i] == k);
        assert(ms.map_values(g).contains(k));
        assert(keys.contains(k));
        let n = choose|n: int| 0 <= n < keys.len() && keys[n] == k;
        assert(says_at(key_findings(ms, k), span));
        assert(says_at(f(keys[n]), span));
    }
}

proof fn lemma_one_key(ms: Seq<MentionView>, key: Seq<char>, span: Span)
    ensures
        says_at(key_findings(ms, key), span) <==> exists|i: int| #[trigger]
            leads_many(ms, i) && ms[i].span == span && ms[i].key == key,
{
    let spans = spans_of(ms, key);
    lemma_spans(ms, key);
    lemma_first_kept(ms, key);
    let kept = ms.filter(is_of(key));
    assert(spans.len() == kept.len());
    if spans.len() >= THRESHOLD {
        let n = if spans.len() - 1 > MAX_LABELS {
            MAX_LABELS as int
        } else {
            spans.len() - 1
        };
        lemma_labelled(
            plain("RPM093"@, Severity::Warn, many_message(key, spans.len()), spans[0]),
            spans,
            n,
        );
        let i = choose|i: int|
            0 <= i < ms.len() && #[trigger] ms[i] == kept[0] && ms[i].key == key && forall|j: int|
                0 <= j < i ==> (#[trigger] ms[j]).key != key;
        assert(leads_many(ms, i));
        assert(ms[i].span == spans[0]);
        assert forall|j: int| #[trigger] leads_many(ms, j) && ms[j].key == key implies j == i by {
            if i < j {
                assert(ms[i].key != ms[j].key);
            }
            if j < i {
                assert(ms[j].key != key);
            }
        }
    }
    lemma_says_given(spans.len() >= THRESHOLD, many_report(key, spans), span);
}

/// The places after the first are labelled, in order, at most four of them.
pub proof fn other_mentions_are_labelled(ms: Seq<MentionView>, key: Seq<char>, i: int)
    requires
        ms.filter(is_of(key)).len() >= 5,
        0 <= i,
    ensures
        key_findings(ms, key).len() == 1,
        key_findings(ms, key)[0].labels.len() == 4,
        i < 4 ==> key_findings(ms, key)[0].labels[i].span == ms.filter(is_of(key))[i + 1].span,
{
    let spans = spans_of(ms, key);
    lemma_spans(ms, key);
    let d = plain("RPM093"@, Severity::Warn, many_message(key, spans.len()), spans[0]);
    assert(MAX_LABELS == 4);
    lemma_labelled(d, spans, 4);
    assert(d.labels.len() == 0);
    let kept = ms.filter(is_of(key));
    assert(spans.len() == kept.len());
    assert(many_report(key, spans) == labelled(d, spans, 4));
    if i < 4 {
        assert(labelled(d, spans, 4).labels[d.labels.len() + i].span == spans[i + 1]);
        assert(spans[i + 1] == kept[i + 1].span);
    }
}

} // verus!
