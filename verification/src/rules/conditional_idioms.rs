//! Conditionals where the language has a better idiom.
use vstd::prelude::*;

use crate::ast::{CondBranch, CondExpr, Conditional, ExprAst, Item, Span, SpecFile, Tag};
use crate::bodies::{all_filler, filler, is_filler, only_filler};
use crate::diagnostic::{Diagnostic, DiagnosticView, LintCategory, Severity, plain, reports};
use crate::expr::{concat_text, parts_text};
use crate::lint::{Identity, Lint, LintMetadata, drain};
use crate::rules::{
    BranchRule, SiteRule, branch_findings, given, run_branches, run_sites, say, site_findings,
};
use crate::text::{
    chars, ident, is_ident, opt_view, strip_prefix, strip_suffix, trim, trimmed, without_prefix,
    without_suffix,
};
use crate::walk::{Scope, Site, SiteView, flat, lemma_flat_step};
use crate::report_laws::{
    lemma_says_either, lemma_says_flat, lemma_says_given, lemma_says_one, says_at, adds_nothing,
    is_arm,
};

verus! {

/// The name in `0%{?with_NAME}`.
pub open spec fn with_name(text: Seq<char>) -> Option<Seq<char>> {
    match strip_prefix(text, "0%{?with_"@) {
        None => None,
        Some(rest) => match strip_suffix(rest, "}"@) {
            None => None,
            Some(name) => if name.len() > 0 && forall|i: int|
                0 <= i < name.len() ==> is_ident(#[trigger] name[i]) {
                Some(name)
            } else {
                None
            },
        },
    }
}

/// The name of the build option that a condition asks for by `0%{?with_NAME}`.
pub open spec fn build_option(c: CondExpr) -> Option<Seq<char>> {
    match c {
        CondExpr::Raw(t) => with_name(
            match t.literal() {
                Some(s) => trim(s),
                None => Seq::empty(),
            },
        ),
        CondExpr::Parsed(e) => match *e {
            ExprAst::NumericConcat { parts, .. } => with_name(parts_text(parts@)),
            _ => None,
        },
        CondExpr::ArchList(_) => None,
    }
}

/// The name in `0%{?with_NAME}`.
pub fn parse_with_pattern<'a>(text: &'a str) -> (r: Option<&'a str>)
    ensures
        opt_view(r) == with_name(text@),
{
    let rest = match without_prefix(text, "0%{?with_") {
        Some(s) => s,
        None => {
            return None;
        },
    };
    let name = match without_suffix(rest, "}") {
        Some(s) => s,
        None => {
            return None;
        },
    };
    let v = chars(name);
    if v.len() == 0 {
        return None;
    }
    let mut i: usize = 0;
    while i < v.len()
        invariant
            i <= v.len(),
            v@ == name@,
            with_name(text@) == (if v@.len() > 0 && forall|k: int| 0 <= k < v@.len() ==> is_ident(#[trigger] v@[k]) {
                Some(name@)
            } else {
                None
            }),
            forall|k: int| 0 <= k < i ==> is_ident(#[trigger] v@[k]),
        decreases v.len() - i,
    {
        if !ident(v[i]) {
            assert(!is_ident(v@[i as int]));
            return None;
        }
        i = i + 1;
    }
    Some(name)
}

pub open spec fn bcond_report(name: Seq<char>, span: Span) -> DiagnosticView {
    plain("RPM095"@, Severity::Warn, "`0%{?with_"@ + name + "}` is the build-option idiom — declare `%bcond_with "@ + name + "` in the preamble and use `%{with "@ + name + "}` here"@, span).advise(
        "rewrite as `%bcond_with NAME` + `%{with NAME}`"@,
    )
}

fn report_option(name: &str, span: Span, out: &mut Vec<Diagnostic>)
    ensures
        reports(final(out)@) == reports(old(out)@) + seq![bcond_report(name@, span)],
{
    let mut message = String::from_str("`0%{?with_");
    message.append(name);
    message.append("}` is the build-option idiom — declare `%bcond_with ");
    message.append(name);
    message.append("` in the preamble and use `%{with ");
    message.append(name);
    message.append("}` here");
    say(
        out,
        Diagnostic::new("RPM095", Severity::Warn, message.as_str(), span).with_advice(
            "rewrite as `%bcond_with NAME` + `%{with NAME}`",
        ),
    );
}

fn option_text(c: &CondExpr) -> (r: Option<String>)
    ensures
        r matches Some(s) ==> build_option(*c) == with_name(s@),
        r is None ==> build_option(*c) is None,
{
    match c {
        CondExpr::Raw(t) => match t.literal_str() {
            Some(s) => Some(trimmed(s).to_owned()),
            None => Some(String::new()),
        },
        CondExpr::Parsed(e) => match &**e {
            ExprAst::NumericConcat { parts, .. } => Some(concat_text(parts)),
            _ => None,
        },
        CondExpr::ArchList(_) => None,
    }
}

/// RPM095 `prefer-bcond-for-build-options`: `%if 0%{?with_NAME}` pattern is the
/// build-option idiom; use `%bcond_with NAME` instead.
#[derive(Debug)]
pub struct PreferBcondForBuildOptions {
    pub diagnostics: Vec<Diagnostic>,
}

impl PreferBcondForBuildOptions {
    pub fn new() -> (r: PreferBcondForBuildOptions)
        ensures
            r.pending() == Seq::<DiagnosticView>::empty(),
    {
        let r = PreferBcondForBuildOptions { diagnostics: Vec::new() };
        assert(r.pending() =~= Seq::<DiagnosticView>::empty());
        r
    }
}

impl Default for PreferBcondForBuildOptions {
    fn default() -> (r: PreferBcondForBuildOptions)
        ensures
            r.pending() == Seq::<DiagnosticView>::empty(),
    {
        PreferBcondForBuildOptions::new()
    }
}

impl Lint for PreferBcondForBuildOptions {
    open spec fn identity() -> Identity {
        Identity {
            id: "RPM095"@,
            name: "prefer-bcond-for-build-options"@,
            description: "`%if 0%{?with_NAME}` pattern is the build-option idiom; use `%bcond_with NAME` instead."@,
            default_severity: Severity::Allow,
            category: LintCategory::Style,
        }
    }

    open spec fn pending(&self) -> Seq<DiagnosticView> {
        reports(self.diagnostics@)
    }

    open spec fn after(&self, spec: SpecFile) -> Seq<DiagnosticView> {
        self.pending() + branch_findings::<PreferBcondForBuildOptions>(&(), spec)
    }

    open spec fn same_settings(&self, other: &Self) -> bool {
        true
    }

    fn metadata(&self) -> (r: LintMetadata) {
        LintMetadata {
            id: "RPM095",
            name: "prefer-bcond-for-build-options",
            description: "`%if 0%{?with_NAME}` pattern is the build-option idiom; use `%bcond_with NAME` instead.",
            default_severity: Severity::Allow,
            category: LintCategory::Style,
        }
    }

    fn visit_spec(&mut self, spec: &SpecFile) {
        run_branches::<PreferBcondForBuildOptions>(&(), spec, &mut self.diagnostics);
    }

    fn take_diagnostics(&mut self) -> (r: Vec<Diagnostic>) {
        drain(&mut self.diagnostics)
    }
}

impl BranchRule for PreferBcondForBuildOptions {
    type Settings = ();

    open spec fn on_branch(_settings: &(), branch: CondBranch) -> Seq<DiagnosticView> {
        match build_option(branch.expr) {
            Some(name) => seq![bcond_report(name, branch.data)],
            None => Seq::empty(),
        }
    }

    fn check_branch(_settings: &(), branch: &CondBranch, out: &mut Vec<Diagnostic>) {
        match option_text(&branch.expr) {
            Some(text) => {
                match parse_with_pattern(text.as_str()) {
                    Some(name) => {
                        report_option(name, branch.data, out);
                        return ;
                    },
                    None => {},
                }
            },
            None => {},
        }
        assert(reports(out@) + Seq::<DiagnosticView>::empty() == reports(out@));
    }
}

/// Whether an item is a tag line with the given tag.
pub open spec fn has_tag(item: Item, tag: Tag) -> bool {
    item matches Item::Preamble(p) && p.tag == tag
}

fn is_tagged(item: &Item, tag: Tag) -> (r: bool)
    ensures
        r == has_tag(*item, tag),
{
    match item {
        Item::Preamble(p) => p.tag == tag,
        _ => false,
    }
}

/// Whether `BuildRequires:` lines stand in a body and nothing else does but
/// blank lines and comments.
pub open spec fn only_build_requires(body: Seq<Item>) -> bool {
    &&& forall|i: int|
        0 <= i < body.len() ==> is_filler(#[trigger] body[i]) || has_tag(body[i], Tag::BuildRequires)
    &&& exists|i: int| 0 <= i < body.len() && has_tag(#[trigger] body[i], Tag::BuildRequires)
}

fn holds_only_build_requires(body: &Vec<Item>) -> (r: bool)
    ensures
        r == only_build_requires(body@),
{
    let mut any = false;
    let mut i: usize = 0;
    while i < body.len()
        invariant
            i <= body.len(),
            forall|j: int|
                0 <= j < i ==> is_filler(#[trigger] body@[j]) || has_tag(body@[j], Tag::BuildRequires),
            any == exists|j: int| 0 <= j < i && has_tag(#[trigger] body@[j], Tag::BuildRequires),
        decreases body.len() - i,
    {
        if is_tagged(&body[i], Tag::BuildRequires) {
            assert(has_tag(body@[i as int], Tag::BuildRequires));
            any = true;
        } else if !filler(&body[i]) {
            assert(!is_filler(body@[i as int]) && !has_tag(body@[i as int], Tag::BuildRequires));
            return false;
        }
        i = i + 1;
    }
    any
}

/// Whether the conditional stands among tag lines, all its branches hold
/// `BuildRequires:` lines only, and its `%else` holds nothing else.
pub open spec fn guards_build_requires(scope: Scope, c: Conditional) -> bool {
    &&& !(scope is Files)
    &&& forall|i: int|
        0 <= i < c.branches@.len() ==> only_build_requires((#[trigger] c.branches@[i]).body@)
    &&& c.otherwise matches Some(body) ==> all_filler(body@) || only_build_requires(body@)
}

fn guards_only_build_requires(site: &Site) -> (r: bool)
    ensures
        r == guards_build_requires(site@.scope, site@.cond),
{
    match site.scope {
        Scope::Files => {
            return false;
        },
        _ => {},
    }
    let c = site.cond;
    let mut i: usize = 0;
    while i < c.branches.len()
        invariant
            i <= c.branches.len(),
            *c == site@.cond,
            forall|j: int| 0 <= j < i ==> only_build_requires((#[trigger] c.branches@[j]).body@),
        decreases c.branches.len() - i,
    {
        if !holds_only_build_requires(&c.branches[i].body) {
            assert(!only_build_requires(c.branches@[i as int].body@));
            return false;
        }
        i = i + 1;
    }
    match &c.otherwise {
        Some(body) => only_filler(body) || holds_only_build_requires(body),
        None => true,
    }
}

/// RPM096 `if-only-buildrequires`: `%if X BuildRequires: foo %endif` is stylistically
/// heavy; consider `%bcond_with` or a conditional dependency clause.
#[derive(Debug)]
pub struct IfOnlyBuildRequires {
    pub diagnostics: Vec<Diagnostic>,
}

impl IfOnlyBuildRequires {
    pub fn new() -> (r: IfOnlyBuildRequires)
        ensures
            r.pending() == Seq::<DiagnosticView>::empty(),
    {
        let r = IfOnlyBuildRequires { diagnostics: Vec::new() };
        assert(r.pending() =~= Seq::<DiagnosticView>::empty());
        r
    }
}

impl Default for IfOnlyBuildRequires {
    fn default() -> (r: IfOnlyBuildRequires)
        ensures
            r.pending() == Seq::<DiagnosticView>::empty(),
    {
        IfOnlyBuildRequires::new()
    }
}

impl Lint for IfOnlyBuildRequires {
    open spec fn identity() -> Identity {
        Identity {
            id: "RPM096"@,
            name: "if-only-buildrequires"@,
            description: "`%if X BuildRequires: foo %endif` is stylistically heavy; consider `%bcond_with` or a conditional dependency clause."@,
            default_severity: Severity::Allow,
            category: LintCategory::Style,
        }
    }

    open spec fn pending(&self) -> Seq<DiagnosticView> {
        reports(self.diagnostics@)
    }

    open spec fn after(&self, spec: SpecFile) -> Seq<DiagnosticView> {
        self.pending() + site_findings::<IfOnlyBuildRequires>(&(), spec)
    }

    open spec fn same_settings(&self, other: &Self) -> bool {
        true
    }

    fn metadata(&self) -> (r: LintMetadata) {
        LintMetadata {
            id: "RPM096",
            name: "if-only-buildrequires",
            description: "`%if X BuildRequires: foo %endif` is stylistically heavy; consider `%bcond_with` or a conditional dependency clause.",
            default_severity: Severity::Allow,
            category: LintCategory::Style,
        }
    }

    fn visit_spec(&mut self, spec: &SpecFile) {
        run_sites::<IfOnlyBuildRequires>(&(), spec, &mut self.diagnostics);
    }

    fn take_diagnostics(&mut self) -> (r: Vec<Diagnostic>) {
        drain(&mut self.diagnostics)
    }
}

impl SiteRule for IfOnlyBuildRequires {
    type Settings = ();

    open spec fn on_site(_settings: &(), site: SiteView) -> Seq<DiagnosticView> {
        given(
            guards_build_requires(site.scope, site.cond),
            plain("RPM096"@, Severity::Warn, "conditional block contains only `BuildRequires:` items — use `%bcond_with` or a conditional `Requires:` clause instead"@, site.cond.data).advise("rewrite using `%bcond_with NAME` or the rich-dependency `(foo if bar)` form"@),
        )
    }

    fn check_site(_settings: &(), site: &Site, out: &mut Vec<Diagnostic>) {
        if guards_only_build_requires(site) {
            say(out, Diagnostic::new("RPM096", Severity::Warn, "conditional block contains only `BuildRequires:` items — use `%bcond_with` or a conditional `Requires:` clause instead", site.cond.data).with_advice("rewrite using `%bcond_with NAME` or the rich-dependency `(foo if bar)` form"));
        } else {
            assert(reports(out@) + Seq::<DiagnosticView>::empty() == reports(out@));
        }
    }
}

/// A report on every line of a body with the given tag.
pub open spec fn tagged_findings(body: Seq<Item>, tag: Tag, report: spec_fn(Span) -> DiagnosticView) -> Seq<DiagnosticView> {
    flat(
        body,
        |item: Item|
            match item {
                Item::Preamble(p) => given(p.tag == tag, report(p.data)),
                _ => Seq::empty(),
            },
    )
}

/// The reports on the branches and then on the `%else`.
pub open spec fn tag_findings(c: Conditional, tag: Tag, report: spec_fn(Span) -> DiagnosticView) -> Seq<DiagnosticView> {
    let branches = flat(
        c.branches@,
        |b: CondBranch| tagged_findings(b.body@, tag, report),
    );
    match c.otherwise {
        Some(body) => branches + tagged_findings(body@, tag, report),
        None => branches,
    }
}

/// The tags that must not depend on a condition.
#[derive(Clone, Copy, Debug, PartialEq, Eq, Structural)]
pub enum Fixed {
    BuildArch,
    Name,
}

impl Fixed {
    pub open spec fn tag(self) -> Tag {
        match self {
            Fixed::BuildArch => Tag::BuildArch,
            Fixed::Name => Tag::Name,
        }
    }

    pub open spec fn report(self) -> spec_fn(Span) -> DiagnosticView {
        match self {
            Fixed::BuildArch => |span: Span|
                plain("RPM106"@, Severity::Warn, "`BuildArch:` inside a `%if` block — RPM uses the last definition, so the effective arch depends on file order; consider moving the tag outside the conditional or using `%ifarch` instead"@, span),
            Fixed::Name => |span: Span|
                plain("RPM107"@, Severity::Warn, "`Name:` inside a `%if` block — the package name then depends on build flags; consider a fixed name and `%bcond` instead"@, span),
        }
    }
}

fn report_fixed(fixed: Fixed, span: Span, out: &mut Vec<Diagnostic>)
    ensures
        reports(final(out)@) == reports(old(out)@) + seq![(fixed.report())(span)],
{
    match fixed {
        Fixed::BuildArch => {
            say(out, Diagnostic::new("RPM106", Severity::Warn, "`BuildArch:` inside a `%if` block — RPM uses the last definition, so the effective arch depends on file order; consider moving the tag outside the conditional or using `%ifarch` instead", span));
        },
        Fixed::Name => {
            say(out, Diagnostic::new("RPM107", Severity::Warn, "`Name:` inside a `%if` block — the package name then depends on build flags; consider a fixed name and `%bcond` instead", span));
        },
    }
}

fn check_body(body: &Vec<Item>, fixed: Fixed, out: &mut Vec<Diagnostic>)
    ensures
        reports(final(out)@) == reports(old(out)@) + tagged_findings(body@, fixed.tag(), fixed.report()),
{
    let ghost f = |item: Item|
        match item {
            Item::Preamble(p) => given(p.tag == fixed.tag(), (fixed.report())(p.data)),
            _ => Seq::empty(),
        };
    let ghost start = reports(out@);
    let mut i: usize = 0;
    let tag = match fixed {
        Fixed::BuildArch => Tag::BuildArch,
        Fixed::Name => Tag::Name,
    };
    assert(start + flat(body@.take(0), f) == start);
    while i < body.len()
        invariant
            i <= body.len(),
            tag == fixed.tag(),
            f == (|item: Item|
                match item {
                    Item::Preamble(p) => given(p.tag == fixed.tag(), (fixed.report())(p.data)),
                    _ => Seq::empty(),
                }),
            reports(out@) == start + flat(body@.take(i as int), f),
        decreases body.len() - i,
    {
        let ghost so_far = flat(body@.take(i as int), f);
        let mut found = false;
        match &body[i] {
            Item::Preamble(p) => {
                if p.tag == tag {
                    found = true;
                    report_fixed(fixed, p.data, out);
                }
            },
            _ => {},
        }
        proof {
            lemma_flat_step(body@, f, i as int);
            let here = f(body@[i as int]);
            if !found {
                assert(here == Seq::<DiagnosticView>::empty());
                assert(so_far + here == so_far);
            } else {
                assert(start + so_far + here == start + (so_far + here));
            }
        }
        i = i + 1;
    }
    assert(body@.take(i as int) == body@);
}

fn check_tags(c: &Conditional, fixed: Fixed, out: &mut Vec<Diagnostic>)
    ensures
        reports(final(out)@) == reports(old(out)@) + tag_findings(*c, fixed.tag(), fixed.report()),
{
    let ghost f = |b: CondBranch| tagged_findings(b.body@, fixed.tag(), fixed.report());
    let ghost start = reports(out@);
    let mut i: usize = 0;
    assert(start + flat(c.branches@.take(0), f) == start);
    while i < c.branches.len()
        invariant
            i <= c.branches.len(),
            f == (|b: CondBranch| tagged_findings(b.body@, fixed.tag(), fixed.report())),
            reports(out@) == start + flat(c.branches@.take(i as int), f),
        decreases c.branches.len() - i,
    {
        let ghost so_far = flat(c.branches@.take(i as int), f);
        check_body(&c.branches[i].body, fixed, out);
        proof {
            lemma_flat_step(c.branches@, f, i as int);
            let here = f(c.branches@[i as int]);
            assert(start + so_far + here == start + (so_far + here));
        }
        i = i + 1;
    }
    assert(c.branches@.take(i as int) == c.branches@);
    let ghost arms = flat(c.branches@, f);
    match &c.otherwise {
        Some(body) => {
            check_body(body, fixed, out);
            let ghost last = tagged_findings(body@, fixed.tag(), fixed.report());
            assert(start + arms + last == start + (arms + last));
        },
        None => {},
    }
}

/// RPM106 `conditional-buildarch`: `BuildArch:` inside a `%if` block — RPM uses last-wins
/// semantics, so this is fragile.
#[derive(Debug)]
pub struct ConditionalBuildArch {
    pub diagnostics: Vec<Diagnostic>,
}

impl ConditionalBuildArch {
    pub fn new() -> (r: ConditionalBuildArch)
        ensures
            r.pending() == Seq::<DiagnosticView>::empty(),
    {
        let r = ConditionalBuildArch { diagnostics: Vec::new() };
        assert(r.pending() =~= Seq::<DiagnosticView>::empty());
        r
    }
}

impl Default for ConditionalBuildArch {
    fn default() -> (r: ConditionalBuildArch)
        ensures
            r.pending() == Seq::<DiagnosticView>::empty(),
    {
        ConditionalBuildArch::new()
    }
}

impl Lint for ConditionalBuildArch {
    open spec fn identity() -> Identity {
        Identity {
            id: "RPM106"@,
            name: "conditional-buildarch"@,
            description: "`BuildArch:` inside a `%if` block — RPM uses last-wins semantics, so this is fragile."@,
            default_severity: Severity::Allow,
            category: LintCategory::Correctness,
        }
    }

    open spec fn pending(&self) -> Seq<DiagnosticView> {
        reports(self.diagnostics@)
    }

    open spec fn after(&self, spec: SpecFile) -> Seq<DiagnosticView> {
        self.pending() + site_findings::<ConditionalBuildArch>(&(), spec)
    }

    open spec fn same_settings(&self, other: &Self) -> bool {
        true
    }

    fn metadata(&self) -> (r: LintMetadata) {
        LintMetadata {
            id: "RPM106",
            name: "conditional-buildarch",
            description: "`BuildArch:` inside a `%if` block — RPM uses last-wins semantics, so this is fragile.",
            default_severity: Severity::Allow,
            category: LintCategory::Correctness,
        }
    }

    fn visit_spec(&mut self, spec: &SpecFile) {
        run_sites::<ConditionalBuildArch>(&(), spec, &mut self.diagnostics);
    }

    fn take_diagnostics(&mut self) -> (r: Vec<Diagnostic>) {
        drain(&mut self.diagnostics)
    }
}

impl SiteRule for ConditionalBuildArch {
    type Settings = ();

    open spec fn on_site(_settings: &(), site: SiteView) -> Seq<DiagnosticView> {
        if site.scope is Files {
            Seq::empty()
        } else {
            tag_findings(site.cond, Fixed::BuildArch.tag(), Fixed::BuildArch.report())
        }
    }

    fn check_site(_settings: &(), site: &Site, out: &mut Vec<Diagnostic>) {
        match site.scope {
            Scope::Files => {
                assert(reports(out@) + Seq::<DiagnosticView>::empty() == reports(out@));
            },
            _ => {
                check_tags(site.cond, Fixed::BuildArch, out);
            },
        }
    }
}

/// RPM107 `conditional-name-tag`: `Name:` inside a `%if` block — the package will have
/// different names in different build contexts, which confuses downstream tooling.
#[derive(Debug)]
pub struct ConditionalNameTag {
    pub diagnostics: Vec<Diagnostic>,
}

impl ConditionalNameTag {
    pub fn new() -> (r: ConditionalNameTag)
        ensures
            r.pending() == Seq::<DiagnosticView>::empty(),
    {
        let r = ConditionalNameTag { diagnostics: Vec::new() };
        assert(r.pending() =~= Seq::<DiagnosticView>::empty());
        r
    }
}

impl Default for ConditionalNameTag {
    fn default() -> (r: ConditionalNameTag)
        ensures
            r.pending() == Seq::<DiagnosticView>::empty(),
    {
        ConditionalNameTag::new()
    }
}

impl Lint for ConditionalNameTag {
    open spec fn identity() -> Identity {
        Identity {
            id: "RPM107"@,
            name: "conditional-name-tag"@,
            description: "`Name:` inside a `%if` block — the package will have different names in different build contexts, which confuses downstream tooling."@,
            default_severity: Severity::Allow,
            category: LintCategory::Correctness,
        }
    }

    open spec fn pending(&self) -> Seq<DiagnosticView> {
        reports(self.diagnostics@)
    }

    open spec fn after(&self, spec: SpecFile) -> Seq<DiagnosticView> {
        self.pending() + site_findings::<ConditionalNameTag>(&(), spec)
    }

    open spec fn same_settings(&self, other: &Self) -> bool {
        true
    }

    fn metadata(&self) -> (r: LintMetadata) {
        LintMetadata {
            id: "RPM107",
            name: "conditional-name-tag",
            description: "`Name:` inside a `%if` block — the package will have different names in different build contexts, which confuses downstream tooling.",
            default_severity: Severity::Allow,
            category: LintCategory::Correctness,
        }
    }

    fn visit_spec(&mut self, spec: &SpecFile) {
        run_sites::<ConditionalNameTag>(&(), spec, &mut self.diagnostics);
    }

    fn take_diagnostics(&mut self) -> (r: Vec<Diagnostic>) {
        drain(&mut self.diagnostics)
    }
}

impl SiteRule for ConditionalNameTag {
    type Settings = ();

    open spec fn on_site(_settings: &(), site: SiteView) -> Seq<DiagnosticView> {
        if site.scope is Files {
            Seq::empty()
        } else {
            tag_findings(site.cond, Fixed::Name.tag(), Fixed::Name.report())
        }
    }

    fn check_site(_settings: &(), site: &Site, out: &mut Vec<Diagnostic>) {
        match site.scope {
            Scope::Files => {
                assert(reports(out@) + Seq::<DiagnosticView>::empty() == reports(out@));
            },
            _ => {
                check_tags(site.cond, Fixed::Name, out);
            },
        }
    }
}

/// Whether a text is `0%{?with_NAME}`.
pub open spec fn is_idiom(text: Seq<char>, name: Seq<char>) -> bool {
    &&& text == "0%{?with_"@ + name + "}"@
    &&& name.len() > 0
    &&& forall|i: int| 0 <= i < name.len() ==> is_ident(#[trigger] name[i])
}

/// The name is read exactly from the idiom, whole.
pub proof fn idiom_names_the_option(text: Seq<char>, name: Seq<char>)
    ensures
        with_name(text) == Some(name) <==> is_idiom(text, name),
{
    let p = "0%{?with_"@;
    let q = "}"@;
    if is_idiom(text, name) {
        let rest = name + q;
        assert(text =~= p + rest);
        assert(p.is_prefix_of(text)) by {
            assert(text.subrange(0, p.len() as int) =~= p);
        }
        assert(strip_prefix(text, p) == Some(rest)) by {
            assert(text.skip(p.len() as int) =~= rest);
        }
        assert(q.is_suffix_of(rest)) by {
            assert(rest.subrange(rest.len() - q.len(), rest.len() as int) =~= q);
        }
        assert(rest.take(rest.len() - q.len()) =~= name);
    }
    if with_name(text) == Some(name) {
        let rest = strip_prefix(text, p).unwrap();
        assert(text =~= p + rest);
        assert(rest =~= name + q);
        assert(text =~= p + name + q);
    }
}

/// A condition is reported exactly if it is the idiom: as raw text, but for
/// the whitespace around it, or as the pieces of a joined number.
pub proof fn idioms_are_reported(branch: CondBranch, span: Span)
    ensures
        says_at(PreferBcondForBuildOptions::on_branch(&(), branch), span) <==> branch.data == span
            && exists|name: Seq<char>| #[trigger] asks_by_idiom(branch.expr, name),
{
    match build_option(branch.expr) {
        Some(name) => {
            lemma_says_one(bcond_report(name, branch.data), span);
        },
        None => {},
    }
    assert forall|name: Seq<char>| #[trigger] asks_by_idiom(branch.expr, name) <==> build_option(
        branch.expr,
    ) == Some(name) by {
        match branch.expr {
            CondExpr::Raw(t) => match t.literal() {
                Some(s) => idiom_names_the_option(trim(s), name),
                None => {
                    idiom_names_the_option(Seq::empty(), name);
                    reveal_strlit("}");
                },
            },
            CondExpr::Parsed(e) => match *e {
                ExprAst::NumericConcat { parts, .. } => idiom_names_the_option(
                    parts_text(parts@),
                    name,
                ),
                _ => {},
            },
            CondExpr::ArchList(_) => {},
        }
    }
    if build_option(branch.expr) is Some {
        assert(asks_by_idiom(branch.expr, build_option(branch.expr).unwrap()));
    }
}

/// Whether a condition asks for an option by the idiom.
pub open spec fn asks_by_idiom(c: CondExpr, name: Seq<char>) -> bool {
    match c {
        CondExpr::Raw(t) => t.literal() matches Some(s) && is_idiom(trim(s), name),
        CondExpr::Parsed(e) => (*e matches ExprAst::NumericConcat { parts, .. } && is_idiom(
            parts_text(parts@),
            name,
        )),
        CondExpr::ArchList(_) => false,
    }
}

/// Whether a line with the tag stands at `span` in a body.
pub open spec fn holds_tag(body: Seq<Item>, tag: Tag, span: Span) -> bool {
    exists|i: int|
        0 <= i < body.len() && (#[trigger] body[i] matches Item::Preamble(p) && p.tag == tag
            && p.data == span)
}

proof fn lemma_tagged(body: Seq<Item>, fixed: Fixed, span: Span)
    ensures
        says_at(tagged_findings(body, fixed.tag(), fixed.report()), span) <==> holds_tag(
            body,
            fixed.tag(),
            span,
        ),
{
    let tag = fixed.tag();
    let report = fixed.report();
    let f = |item: Item|
        match item {
            Item::Preamble(p) => given(p.tag == tag, report(p.data)),
            _ => Seq::empty(),
        };
    lemma_says_flat(body, f, span);
    assert forall|i: int| 0 <= i < body.len() implies (says_at(f(#[trigger] body[i]), span) <==> (
    body[i] matches Item::Preamble(p) && p.tag == tag && p.data == span)) by {
        match body[i] {
            Item::Preamble(p) => lemma_says_given(p.tag == tag, report(p.data), span),
            _ => {},
        }
    }
    if says_at(flat(body, f), span) {
        let i = choose|i: int| 0 <= i < body.len() && says_at(f(#[trigger] body[i]), span);
        assert(body[i] is Preamble);
    }
    if holds_tag(body, tag, span) {
        let i = choose|i: int|
            0 <= i < body.len() && (#[trigger] body[i] matches Item::Preamble(p) && p.tag == tag
                && p.data == span);
        assert(says_at(f(body[i]), span));
    }
}

/// Exactly the `BuildArch:` lines, or the `Name:` lines, that stand right in
/// an arm of a block among tag lines are reported.
pub proof fn fixed_tags_in_blocks_are_reported(site: SiteView, span: Span)
    ensures
        says_at(ConditionalBuildArch::on_site(&(), site), span) <==> !(site.scope is Files)
            && in_some_arm(site.cond, Tag::BuildArch, span),
        says_at(ConditionalNameTag::on_site(&(), site), span) <==> !(site.scope is Files)
            && in_some_arm(site.cond, Tag::Name, span),
{
    lemma_in_arms(site.cond, Fixed::BuildArch, span);
    lemma_in_arms(site.cond, Fixed::Name, span);
}

/// Whether a line with the tag stands at `span` in a branch or in the
/// `%else`.
pub open spec fn in_some_arm(c: Conditional, tag: Tag, span: Span) -> bool {
    ||| exists|i: int|
        0 <= i < c.branches@.len() && holds_tag((#[trigger] c.branches@[i]).body@, tag, span)
    ||| c.otherwise matches Some(body) && holds_tag(body@, tag, span)
}

proof fn lemma_in_arms(c: Conditional, fixed: Fixed, span: Span)
    ensures
        says_at(tag_findings(c, fixed.tag(), fixed.report()), span) <==> in_some_arm(
            c,
            fixed.tag(),
            span,
        ),
{
    let tag = fixed.tag();
    let report = fixed.report();
    let bs = c.branches@;
    let f = |b: CondBranch| tagged_findings(b.body@, tag, report);
    lemma_says_flat(bs, f, span);
    assert forall|i: int| 0 <= i < bs.len() implies (says_at(f(#[trigger] bs[i]), span)
        <==> holds_tag(bs[i].body@, tag, span)) by {
        lemma_tagged(bs[i].body@, fixed, span);
    }
    match c.otherwise {
        Some(body) => {
            lemma_tagged(body@, fixed, span);
            lemma_says_either(flat(bs, f), tagged_findings(body@, tag, report), span);
        },
        None => {},
    }
    if says_at(flat(bs, f), span) {
        let i = choose|i: int| 0 <= i < bs.len() && says_at(f(#[trigger] bs[i]), span);
        assert(holds_tag(bs[i].body@, tag, span));
    }
    if exists|i: int| 0 <= i < bs.len() && holds_tag((#[trigger] bs[i]).body@, tag, span) {
        let i = choose|i: int| 0 <= i < bs.len() && holds_tag((#[trigger] bs[i]).body@, tag, span);
        assert(says_at(f(bs[i]), span));
    }
}

/// Whether an item is a dependency for building.
pub open spec fn is_for_building(item: Item) -> bool {
    item matches Item::Preamble(p) && p.tag == Tag::BuildRequires
}

/// Exactly those blocks among tag lines are reported in which every branch
/// holds dependencies for building, and no arm holds anything else that adds
/// something.
pub proof fn blocks_of_dependencies_are_reported(site: SiteView, span: Span)
    ensures
        says_at(IfOnlyBuildRequires::on_site(&(), site), span) <==> ({
            let c = site.cond;
            &&& c.data == span
            &&& !(site.scope is Files)
            &&& forall|body: Seq<Item>, k: int|
                #![trigger is_arm(c, body), body[k]]
                is_arm(c, body) && 0 <= k < body.len() ==> adds_nothing(body[k]) || is_for_building(
                    body[k],
                )
            &&& forall|i: int| 0 <= i < c.branches@.len() ==> holds_dependency(
                    (#[trigger] c.branches@[i]).body@,
                )
        }),
{
    let c = site.cond;
    let on = IfOnlyBuildRequires::on_site(&(), site);
    if guards_build_requires(site.scope, c) {
        lemma_says_one(on[0], span);
        assert(on =~= seq![on[0]]);
        assert forall|body: Seq<Item>, k: int|
            #![trigger is_arm(c, body), body[k]]
            is_arm(c, body) && 0 <= k < body.len() implies adds_nothing(body[k]) || is_for_building(
            body[k],
        ) by {
            if exists|i: int| 0 <= i < c.branches@.len() && (#[trigger] c.branches@[i]).body@ == body {
                let i = choose|i: int|
                    0 <= i < c.branches@.len() && (#[trigger] c.branches@[i]).body@ == body;
                assert(only_build_requires(c.branches@[i].body@));
            }
            assert(is_filler(body[k]) || has_tag(body[k], Tag::BuildRequires));
        }
        assert forall|i: int| 0 <= i < c.branches@.len() implies holds_dependency(
            (#[trigger] c.branches@[i]).body@,
        ) by {
            let body = c.branches@[i].body@;
            assert(only_build_requires(body));
            let k = choose|k: int| 0 <= k < body.len() && has_tag(#[trigger] body[k], Tag::BuildRequires);
            assert(is_for_building(body[k]));
        }
    }
    if !(site.scope is Files) && (forall|body: Seq<Item>, k: int|
        #![trigger is_arm(c, body), body[k]]
        is_arm(c, body) && 0 <= k < body.len() ==> adds_nothing(body[k]) || is_for_building(body[k]))
        && forall|i: int| 0 <= i < c.branches@.len() ==> holds_dependency(
        (#[trigger] c.branches@[i]).body@,
    ) {
        assert forall|i: int| 0 <= i < c.branches@.len() implies only_build_requires(
            (#[trigger] c.branches@[i]).body@,
        ) by {
            let body = c.branches@[i].body@;
            assert(is_arm(c, body));
            assert(holds_dependency(body));
            assert forall|k: int| 0 <= k < body.len() implies is_filler(#[trigger] body[k]) || has_tag(
                body[k],
                Tag::BuildRequires,
            ) by {
                assert(adds_nothing(body[k]) || is_for_building(body[k]));
            }
            let k = choose|k: int| 0 <= k < body.len() && is_for_building(#[trigger] body[k]);
            assert(has_tag(body[k], Tag::BuildRequires));
        }
        match c.otherwise {
            Some(body) => {
                let b = body@;
                assert(is_arm(c, b));
                assert forall|k: int| 0 <= k < b.len() implies is_filler(#[trigger] b[k]) || has_tag(
                    b[k],
                    Tag::BuildRequires,
                ) by {
                    assert(adds_nothing(b[k]) || is_for_building(b[k]));
                }
                if !all_filler(b) {
                    let k = choose|k: int| 0 <= k < b.len() && !is_filler(#[trigger] b[k]);
                    assert(has_tag(b[k], Tag::BuildRequires));
                    assert(only_build_requires(b));
                }
            },
            None => {},
        }
        assert(guards_build_requires(site.scope, c));
    }
}

/// Whether a dependency for building stands in a body.
pub open spec fn holds_dependency(body: Seq<Item>) -> bool {
    exists|k: int| 0 <= k < body.len() && is_for_building(#[trigger] body[k])
}

} // verus!
