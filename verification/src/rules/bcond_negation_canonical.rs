//! Negated build options that have a name of their own.
use vstd::prelude::*;

use crate::ast::{CondBranch, CondExpr, ExprAst, Span, SpecFile};
use crate::diagnostic::{Diagnostic, DiagnosticView, LintCategory, Severity, plain, reports};
use crate::lint::{Identity, Lint, LintMetadata, drain};
use crate::rules::{BranchRule, branch_findings, run_branches, say};
use crate::text::{
    same, split_words, strip_prefix, strip_suffix, texts, trim, trimmed, without_prefix,
    without_suffix, words,
};
use crate::report_laws::{lemma_says_one, says_at};

verus! {

/// The keyword and the name in `%{keyword name}`.
pub open spec fn keyword_and_name(text: Seq<char>) -> Option<(Seq<char>, Seq<char>)> {
    match strip_prefix(trim(text), "%{"@) {
        None => None,
        Some(rest) => match strip_suffix(rest, "}"@) {
            None => None,
            Some(body) => if words(body).len() == 2 {
                Some((words(body)[0], words(body)[1]))
            } else {
                None
            },
        },
    }
}

/// The keyword, its opposite and the name in `!%{with name}` and
/// `!%{without name}`.
pub open spec fn negated_bcond(c: CondExpr) -> Option<(Seq<char>, Seq<char>, Seq<char>)> {
    match c {
        CondExpr::Parsed(e) => match e.bare() {
            ExprAst::Not { inner, .. } => match inner.bare() {
                ExprAst::Macro { text, .. } => match keyword_and_name(text@) {
                    Some((keyword, name)) => if keyword == "with"@ {
                        Some(("with"@, "without"@, name))
                    } else if keyword == "without"@ {
                        Some(("without"@, "with"@, name))
                    } else {
                        None
                    },
                    None => None,
                },
                _ => None,
            },
            _ => None,
        },
        _ => None,
    }
}

pub open spec fn flip_report(from: Seq<char>, to: Seq<char>, name: Seq<char>, span: Span) -> DiagnosticView {
    plain("RPM436"@, Severity::Warn, "`!%{"@ + from + " "@ + name + "}` is just `%{"@ + to + " "@ + name + "}`; flip the polarity instead of negating"@, span).advise(
        "rewrite as `%{"@ + to + " "@ + name + "}`"@,
    )
}

fn split_macro<'a>(text: &'a str) -> (r: Option<(&'a str, &'a str)>)
    ensures
        r is Some <==> keyword_and_name(text@) is Some,
        r matches Some(p) ==> keyword_and_name(text@) == Some((p.0@, p.1@)),
{
    let rest = match without_prefix(trimmed(text), "%{") {
        Some(s) => s,
        None => {
            return None;
        },
    };
    let body = match without_suffix(rest, "}") {
        Some(s) => s,
        None => {
            return None;
        },
    };
    let parts = split_words(body);
    assert(texts(parts@).len() == parts@.len());
    if parts.len() != 2 {
        return None;
    }
    assert(texts(parts@)[0] == parts@[0]@ && texts(parts@)[1] == parts@[1]@);
    Some((parts[0], parts[1]))
}

fn match_negated_bcond<'a>(c: &'a CondExpr) -> (r: Option<(&'static str, &'static str, &'a str)>)
    ensures
        r is Some <==> negated_bcond(*c) is Some,
        r matches Some(p) ==> negated_bcond(*c) == Some((p.0@, p.1@, p.2@)),
{
    match c {
        CondExpr::Parsed(e) => match e.peel_parens() {
            ExprAst::Not { inner, .. } => match inner.peel_parens() {
                ExprAst::Macro { text, .. } => match split_macro(text.as_str()) {
                    Some((keyword, name)) => {
                        if same(keyword, "with") {
                            Some(("with", "without", name))
                        } else if same(keyword, "without") {
                            Some(("without", "with", name))
                        } else {
                            None
                        }
                    },
                    None => None,
                },
                _ => None,
            },
            _ => None,
        },
        _ => None,
    }
}

/// RPM436 `bcond-negation-canonical`: `%if !%{with NAME}` / `%if !%{without NAME}` can be
/// canonicalised by flipping polarity (`!%{with X}` → `%{without X}`).
#[derive(Debug)]
pub struct BcondNegationCanonical {
    pub diagnostics: Vec<Diagnostic>,
}

impl BcondNegationCanonical {
    pub fn new() -> (r: BcondNegationCanonical)
        ensures
            r.pending() == Seq::<DiagnosticView>::empty(),
    {
        let r = BcondNegationCanonical { diagnostics: Vec::new() };
        assert(r.pending() =~= Seq::<DiagnosticView>::empty());
        r
    }
}

impl Default for BcondNegationCanonical {
    fn default() -> (r: BcondNegationCanonical)
        ensures
            r.pending() == Seq::<DiagnosticView>::empty(),
    {
        BcondNegationCanonical::new()
    }
}

impl Lint for BcondNegationCanonical {
    open spec fn identity() -> Identity {
        Identity {
            id: "RPM436"@,
            name: "bcond-negation-canonical"@,
            description: "`%if !%{with NAME}` / `%if !%{without NAME}` can be canonicalised by flipping polarity (`!%{with X}` → `%{without X}`)."@,
            default_severity: Severity::Warn,
            category: LintCategory::Style,
        }
    }

    open spec fn pending(&self) -> Seq<DiagnosticView> {
        reports(self.diagnostics@)
    }

    open spec fn after(&self, spec: SpecFile) -> Seq<DiagnosticView> {
        self.pending() + branch_findings::<BcondNegationCanonical>(&(), spec)
    }

    open spec fn same_settings(&self, other: &Self) -> bool {
        true
    }

    fn metadata(&self) -> (r: LintMetadata) {
        LintMetadata {
            id: "RPM436",
            name: "bcond-negation-canonical",
            description: "`%if !%{with NAME}` / `%if !%{without NAME}` can be canonicalised by flipping polarity (`!%{with X}` → `%{without X}`).",
            default_severity: Severity::Warn,
            category: LintCategory::Style,
        }
    }

    fn visit_spec(&mut self, spec: &SpecFile) {
        run_branches::<BcondNegationCanonical>(&(), spec, &mut self.diagnostics);
    }

    fn take_diagnostics(&mut self) -> (r: Vec<Diagnostic>) {
        drain(&mut self.diagnostics)
    }
}

impl BranchRule for BcondNegationCanonical {
    type Settings = ();

    open spec fn on_branch(_settings: &(), branch: CondBranch) -> Seq<DiagnosticView> {
        match negated_bcond(branch.expr) {
            Some((from, to, name)) => seq![flip_report(from, to, name, branch.data)],
            None => Seq::empty(),
        }
    }

    fn check_branch(_settings: &(), branch: &CondBranch, out: &mut Vec<Diagnostic>) {
        match match_negated_bcond(&branch.expr) {
            Some((from, to, name)) => {
                let mut message = String::from_str("`!%{");
                message.append(from);
                message.append(" ");
                message.append(name);
                message.append("}` is just `%{");
                message.append(to);
                message.append(" ");
                message.append(name);
                message.append("}`; flip the polarity instead of negating");
                let mut hint = String::from_str("rewrite as `%{");
                hint.append(to);
                hint.append(" ");
                hint.append(name);
                hint.append("}`");
                say(
                    out,
                    Diagnostic::new("RPM436", Severity::Warn, message.as_str(), branch.data).with_advice(
                        hint.as_str(),
                    ),
                );
            },
            None => {
                assert(reports(out@) + Seq::<DiagnosticView>::empty() == reports(out@));
            },
        }
    }
}

/// Whether a text asks by `keyword` for the option `name`: `%{keyword name}`,
/// whatever whitespace stands between and around.
pub open spec fn asks_by(text: Seq<char>, keyword: Seq<char>, name: Seq<char>) -> bool {
    exists|body: Seq<char>|
        trim(text) == #[trigger] ("%{"@ + body + "}"@) && words(body) == seq![keyword, name]
}

/// The keyword and the name are read exactly from such a text.
pub proof fn query_is_read_whole(text: Seq<char>, keyword: Seq<char>, name: Seq<char>)
    ensures
        keyword_and_name(text) == Some((keyword, name)) <==> asks_by(text, keyword, name),
{
    let t = trim(text);
    let p = "%{"@;
    let q = "}"@;
    if asks_by(text, keyword, name) {
        let body = choose|body: Seq<char>|
            t == #[trigger] (p + body + q) && words(body) == seq![keyword, name];
        let rest = body + q;
        assert(t =~= p + rest);
        assert(p.is_prefix_of(t)) by {
            assert(t.subrange(0, p.len() as int) =~= p);
        }
        assert(t.skip(p.len() as int) =~= rest);
        assert(strip_prefix(t, p) == Some(rest));
        assert(q.is_suffix_of(rest)) by {
            assert(rest.subrange(rest.len() - q.len(), rest.len() as int) =~= q);
        }
        assert(rest.take(rest.len() - q.len()) =~= body);
        assert(strip_suffix(rest, q) == Some(body));
        assert(words(body)[0] == keyword && words(body)[1] == name);
    }
    if keyword_and_name(text) == Some((keyword, name)) {
        let rest = strip_prefix(t, p).unwrap();
        let body = strip_suffix(rest, q).unwrap();
        assert(t =~= p + rest);
        assert(rest =~= body + q);
        assert(t =~= p + body + q);
        assert(words(body) =~= seq![keyword, name]);
        assert(t == (p + body + q) && words(body) == seq![keyword, name]);
    }
}

/// Whether a condition is the negation of such a query.
pub open spec fn negates_query(c: CondExpr, keyword: Seq<char>, name: Seq<char>) -> bool {
    c matches CondExpr::Parsed(e) && (e.bare() matches ExprAst::Not { inner, .. } && (
    inner.bare() matches ExprAst::Macro { text, .. } && asks_by(text@, keyword, name)))
}

/// Exactly the negations of `with` and `without` are reported, and each is
/// replaced by the other.
pub proof fn negated_queries_are_reported(branch: CondBranch, span: Span)
    ensures
        says_at(BcondNegationCanonical::on_branch(&(), branch), span) <==> branch.data == span && (
        exists|name: Seq<char>| #[trigger]
            negates_query(branch.expr, "with"@, name) || negates_query(
                branch.expr,
                "without"@,
                name,
            )),
        forall|name: Seq<char>| #[trigger]
            negates_query(branch.expr, "with"@, name) ==> BcondNegationCanonical::on_branch(
                &(),
                branch,
            ) == seq![flip_report("with"@, "without"@, name, branch.data)],
        forall|name: Seq<char>| #[trigger]
            negates_query(branch.expr, "without"@, name) ==> BcondNegationCanonical::on_branch(
                &(),
                branch,
            ) == seq![flip_report("without"@, "with"@, name, branch.data)],
{
    reveal_strlit("with");
    reveal_strlit("without");
    assert("with"@.len() == 4 && "without"@.len() == 7);
    assert forall|text: Seq<char>, k: Seq<char>, n: Seq<char>| #[trigger]
        asks_by(text, k, n) <==> keyword_and_name(text) == Some((k, n)) by {
        query_is_read_whole(text, k, n);
    }
    let on = BcondNegationCanonical::on_branch(&(), branch);
    match negated_bcond(branch.expr) {
        Some((from, to, name)) => {
            lemma_says_one(flip_report(from, to, name, branch.data), span);
            assert(negates_query(branch.expr, from, name));
            assert(negates_query(branch.expr, "with"@, name) || negates_query(
                branch.expr,
                "without"@,
                name,
            ));
        },
        None => {},
    }
}

} // verus!
