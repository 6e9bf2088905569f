//! Diagnostics and what they are made of.
use vstd::prelude::*;

use crate::ast::Span;

verus! {

#[derive(Clone, Copy, Debug, PartialEq, Eq, Structural)]
pub enum Severity {
    Allow,
    Warn,
    Deny,
}

#[derive(Clone, Copy, Debug, PartialEq, Eq, Structural)]
pub enum LintCategory {
    Style,
    Correctness,
    Packaging,
}

/// How safely a suggestion can be applied.
#[derive(Clone, Copy, Debug, PartialEq, Eq, Structural)]
pub enum Applicability {
    MachineApplicable,
    Manual,
}

/// A replacement of a range of the source.
#[derive(Debug)]
pub struct Edit {
    pub span: Span,
    pub replacement: String,
}

pub struct EditView {
    pub span: Span,
    pub replacement: Seq<char>,
}

impl View for Edit {
    type V = EditView;

    open spec fn view(&self) -> EditView {
        EditView { span: self.span, replacement: self.replacement@ }
    }
}

impl Edit {
    pub fn new(span: Span, replacement: &str) -> (r: Edit)
        ensures
            r@ == (EditView { span, replacement: replacement@ }),
    {
        Edit { span, replacement: replacement.to_owned() }
    }
}

/// Advice on how to act on a diagnostic.
#[derive(Debug)]
pub struct Suggestion {
    pub message: String,
    pub edits: Vec<Edit>,
    pub applicability: Applicability,
}

pub struct SuggestionView {
    pub message: Seq<char>,
    pub edits: Seq<EditView>,
    pub applicability: Applicability,
}

impl View for Suggestion {
    type V = SuggestionView;

    open spec fn view(&self) -> SuggestionView {
        SuggestionView {
            message: self.message@,
            edits: self.edits@.map_values(|e: Edit| e@),
            applicability: self.applicability,
        }
    }
}

/// A second place that a diagnostic points at.
#[derive(Debug)]
pub struct Label {
    pub span: Span,
    pub message: String,
}

pub struct LabelView {
    pub span: Span,
    pub message: Seq<char>,
}

impl View for Label {
    type V = LabelView;

    open spec fn view(&self) -> LabelView {
        LabelView { span: self.span, message: self.message@ }
    }
}

/// One finding of a rule.
#[derive(Debug)]
pub struct Diagnostic {
    pub lint_id: &'static str,
    pub severity: Severity,
    pub message: String,
    pub primary_span: Span,
    pub labels: Vec<Label>,
    pub suggestions: Vec<Suggestion>,
}

pub struct DiagnosticView {
    pub lint_id: Seq<char>,
    pub severity: Severity,
    pub message: Seq<char>,
    pub primary_span: Span,
    pub labels: Seq<LabelView>,
    pub suggestions: Seq<SuggestionView>,
}

impl View for Diagnostic {
    type V = DiagnosticView;

    open spec fn view(&self) -> DiagnosticView {
        DiagnosticView {
            lint_id: self.lint_id@,
            severity: self.severity,
            message: self.message@,
            primary_span: self.primary_span,
            labels: self.labels@.map_values(|l: Label| l@),
            suggestions: self.suggestions@.map_values(|s: Suggestion| s@),
        }
    }
}

/// A diagnostic without labels and suggestions.
pub open spec fn plain(
    id: Seq<char>,
    severity: Severity,
    message: Seq<char>,
    span: Span,
) -> DiagnosticView {
    DiagnosticView {
        lint_id: id,
        severity,
        message,
        primary_span: span,
        labels: Seq::empty(),
        suggestions: Seq::empty(),
    }
}

/// A suggestion without edits.
pub open spec fn advice(message: Seq<char>, applicability: Applicability) -> SuggestionView {
    SuggestionView { message, edits: Seq::empty(), applicability }
}

/// A suggestion to be followed by hand.
pub open spec fn manual(message: Seq<char>) -> SuggestionView {
    advice(message, Applicability::Manual)
}

impl DiagnosticView {
    pub open spec fn suggest(self, suggestion: SuggestionView) -> DiagnosticView {
        DiagnosticView { suggestions: self.suggestions.push(suggestion), ..self }
    }

    pub open spec fn label(self, span: Span, message: Seq<char>) -> DiagnosticView {
        DiagnosticView { labels: self.labels.push(LabelView { span, message }), ..self }
    }

    /// The same diagnostic with a suggestion to be followed by hand.
    pub open spec fn advise(self, message: Seq<char>) -> DiagnosticView {
        self.suggest(manual(message))
    }
}

impl Suggestion {
    pub fn new(message: String, edits: Vec<Edit>, applicability: Applicability) -> (r: Suggestion)
        ensures
            r@ == (SuggestionView {
                message: message@,
                edits: edits@.map_values(|e: Edit| e@),
                applicability,
            }),
    {
        Suggestion { message, edits, applicability }
    }

    /// A suggestion without edits.
    pub fn advice(message: &str, applicability: Applicability) -> (r: Suggestion)
        ensures
            r@ == advice(message@, applicability),
    {
        let r = Suggestion { message: message.to_owned(), edits: Vec::new(), applicability };
        assert(r@.edits =~= Seq::empty());
        r
    }

    /// A suggestion to be followed by hand.
    pub fn manual(message: &str) -> (r: Suggestion)
        ensures
            r@ == manual(message@),
    {
        Suggestion::advice(message, Applicability::Manual)
    }
}

impl Diagnostic {
    pub fn new(lint_id: &'static str, severity: Severity, message: &str, span: Span) -> (r:
        Diagnostic)
        ensures
            r@ == plain(lint_id@, severity, message@, span),
    {
        let r = Diagnostic {
            lint_id,
            severity,
            message: message.to_owned(),
            primary_span: span,
            labels: Vec::new(),
            suggestions: Vec::new(),
        };
        assert(r@.labels =~= Seq::empty());
        assert(r@.suggestions =~= Seq::empty());
        r
    }

    pub fn with_suggestion(self, suggestion: Suggestion) -> (r: Diagnostic)
        ensures
            r@ == self@.suggest(suggestion@),
    {
        let mut r = self;
        let ghost before = r.suggestions@;
        r.suggestions.push(suggestion);
        assert(r@.suggestions =~= self@.suggestions.push(suggestion@));
        r
    }

    /// Adds a suggestion to be followed by hand.
    pub fn with_advice(self, message: &str) -> (r: Diagnostic)
        ensures
            r@ == self@.advise(message@),
    {
        self.with_suggestion(Suggestion::manual(message))
    }

    pub fn with_label(self, span: Span, message: &str) -> (r: Diagnostic)
        ensures
            r@ == self@.label(span, message@),
    {
        let mut r = self;
        r.labels.push(Label { span, message: message.to_owned() });
        assert(r@.labels =~= self@.labels.push(LabelView { span, message: message@ }));
        r
    }
}

/// What a list of diagnostics says.
pub open spec fn reports(ds: Seq<Diagnostic>) -> Seq<DiagnosticView> {
    ds.map_values(|d: Diagnostic| d@)
}

} // verus!
