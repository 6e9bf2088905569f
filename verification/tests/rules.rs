//! The rules, each run on small spec files that `rpm_spec` parses.

use rpm_spec::ast as src;
use rpm_spec_analyzer::ast::{
    BinOp, BoolDep, BuildCondStyle, BuildCondition, BuildScriptKind, BuiltinMacro, ChangelogDate,
    ChangelogEntry, ConcatPart, CondBranch, CondExpr, CondKind, Conditional, DepAtom,
    DepConstraint, DepExpr, Evr, ExprAst, FileDirective, FileEntry, Item, MacroDef, MacroDefKind,
    MacroKind, MacroRef, Month, PackageName, PreambleItem, Section, Span, SpecFile, Tag,
    TagQualifier, TagValue, Text, TextSegment, VerOp, Weekday,
};
use rpm_spec_analyzer::calendar::Today;
use rpm_spec_analyzer::condition::{canonicalise, to_dnf, AtomTable};
use rpm_spec_analyzer::diagnostic::{Applicability, Diagnostic};
use rpm_spec_analyzer::dnf::{is_contradiction, is_tautology, simplify_subsumption, Dnf};
use rpm_spec_analyzer::lint::Lint;
use rpm_spec_analyzer::profile::{Family, Profile};
use rpm_spec_analyzer::rules::adjacent_doc_lines::AdjacentDocLines;
use rpm_spec_analyzer::rules::adjacent_license_lines::AdjacentLicenseLines;
use rpm_spec_analyzer::rules::adjacent_mutex_ifs::AdjacentMutexIfs;
use rpm_spec_analyzer::rules::always_true_branch::AlwaysTrueBranch;
use rpm_spec_analyzer::rules::arch_complement_shorter::ArchComplementShorter;
use rpm_spec_analyzer::rules::arch_condition_domain_simplify::ArchConditionDomainSimplify;
use rpm_spec_analyzer::rules::arch_policy::ArchPolicyContradiction;
use rpm_spec_analyzer::rules::arch_subset_under_parent::ArchSubsetUnderParent;
use rpm_spec_analyzer::rules::autoreqprov_comment::AutoreqprovWithoutComment;
use rpm_spec_analyzer::rules::bcond_modern::PreferBcondNewSyntax;
use rpm_spec_analyzer::rules::bcond_negation_canonical::BcondNegationCanonical;
use rpm_spec_analyzer::rules::bcond_on_non_fedora::BcondOnNonFedora;
use rpm_spec_analyzer::rules::bcond_usage::{BcondDefinedButUnused, WithConditionWithoutBcond};
use rpm_spec_analyzer::rules::boolean_dnf::{BooleanContradictionByCubes, BooleanDnfRedundancy, BooleanTautologyByCubes};
use rpm_spec_analyzer::rules::branch_item_subset::BranchItemSubset;
use rpm_spec_analyzer::rules::build_tool_brs::{BuildToolUsedWithoutBuildRequires, ToolPackage};
use rpm_spec_analyzer::rules::buildarch_reparse::BuildarchReparseHazard;
use rpm_spec_analyzer::rules::buildsystem_macros::BuildsystemMacroModernization;
use rpm_spec_analyzer::rules::canonical_major_section_order::CanonicalMajorSectionOrder;
use rpm_spec_analyzer::rules::changelog_health::{ChangelogFutureDate, ChangelogImplausibleDate, ChangelogOrderWeekdayEvr, EmptyChangelogEntry};
use rpm_spec_analyzer::rules::combine_install_dirs::CombineInstallDirs;
use rpm_spec_analyzer::rules::commented_out_spec_code::CommentedOutSpecCode;
use rpm_spec_analyzer::rules::complementary_guards_same_item::ComplementaryGuardsSameItem;
use rpm_spec_analyzer::rules::condition_common_disjunct_factor::ConditionCommonDisjunctFactor;
use rpm_spec_analyzer::rules::condition_common_factor::ConditionCommonFactor;
use rpm_spec_analyzer::rules::conditional_factoring::ConditionMentionedManyTimes;
use rpm_spec_analyzer::rules::conditional_hoist::{HoistCommonPrefix, HoistCommonSuffix};
use rpm_spec_analyzer::rules::conditional_idioms::{ConditionalBuildArch, ConditionalNameTag, IfOnlyBuildRequires, PreferBcondForBuildOptions};
use rpm_spec_analyzer::rules::conditional_intervals::{InequalityContradiction, InequalityRedundancy};
use rpm_spec_analyzer::rules::conditional_merge::{AdjacentMergeableConditionals, IfNotXAfterIfX, MergeElifSameBody};
use rpm_spec_analyzer::rules::conditional_optimize::absorption::AbsorptionInExpr;
use rpm_spec_analyzer::rules::conditional_optimize::elif_collapse::CollapseElifIntoElse;
use rpm_spec_analyzer::rules::conditional_optimize::else_if_elif::CollapseElseIfIntoElif;
use rpm_spec_analyzer::rules::conditional_optimize::empty_else::EmptyElseDrop;
use rpm_spec_analyzer::rules::conditional_optimize::expr_constants::{ConstantTautologyInExpr, DoubleNegationInExpr};
use rpm_spec_analyzer::rules::conditional_optimize::idempotent_self::{IdempotentInExpr, SelfComparisonInExpr};
use rpm_spec_analyzer::rules::conditional_optimize::invert_arch::InvertEmptyIfArch;
use rpm_spec_analyzer::rules::conditional_optimize::inverted_if_else::InvertedIfElse;
use rpm_spec_analyzer::rules::conditional_optimize::line_continuation::LineContinuationInCondition;
use rpm_spec_analyzer::rules::conditional_optimize::nested_and::{NestedAndCollapse, inner_expr_safe_to_merge};
use rpm_spec_analyzer::rules::conditional_optimize::string_set::StringSetRedundancy;
use rpm_spec_analyzer::rules::conditional_simplify::{ConstantCondition, IdenticalConditionalBranches, RedundantNestedCondition};
use rpm_spec_analyzer::rules::conditional_structure::{ConditionalCyclomaticComplexity, DeepConditionalNesting, DuplicateArchInList, EmptyConditionalBranch, IfarchEmptyList, IfarchNoarch, SingleCommentOnlyBranch, UnreachableElifBranch};
use rpm_spec_analyzer::rules::context_redundant_part::ContextRedundantPart;
use rpm_spec_analyzer::rules::cp_chmod_to_install_m::CpChmodToInstallM;
use rpm_spec_analyzer::rules::dead_elif::DeadElif;
use rpm_spec_analyzer::rules::dep_features::{ContradictoryDependencyQualifiers, UnsupportedDependencyFeature};
use rpm_spec_analyzer::rules::dep_health::{DuplicateDependencyAtom, RuntimeRequiresLooksLikeBuildRequires, SelfWeakDependency, WeakDepDuplicatesStrongDep};
use rpm_spec_analyzer::rules::dependency_constraint_subsumption::DependencyConstraintSubsumption;
use rpm_spec_analyzer::rules::deprecated_clean_section::DeprecatedCleanSection;

// ---------------------------------------------------------------------
// From the parsed tree to the library's own
// ---------------------------------------------------------------------

fn text(t: &src::Text) -> Text {
    Text {
        segments: t
            .segments
            .iter()
            .map(|s| match s {
                src::TextSegment::Literal(l) => TextSegment::Literal(l.clone()),
                src::TextSegment::Macro(m) => TextSegment::Macro(Box::new(macro_ref(m))),
                _ => TextSegment::Literal(String::new()),
            })
            .collect(),
    }
}

fn texts(ts: &[src::Text]) -> Vec<Text> {
    ts.iter().map(text).collect()
}

fn macro_ref(m: &src::MacroRef) -> MacroRef {
    MacroRef {
        kind: match &m.kind {
            src::MacroKind::Plain => MacroKind::Plain,
            src::MacroKind::Braced => MacroKind::Braced,
            src::MacroKind::Parametric => MacroKind::Parametric,
            src::MacroKind::Shell => MacroKind::Shell,
            src::MacroKind::Expr => MacroKind::Expr,
            src::MacroKind::Lua => MacroKind::Lua,
            src::MacroKind::Builtin(src::BuiltinMacro::With) => {
                MacroKind::Builtin(BuiltinMacro::With)
            }
            src::MacroKind::Builtin(src::BuiltinMacro::Without) => {
                MacroKind::Builtin(BuiltinMacro::Without)
            }
            _ => MacroKind::Builtin(BuiltinMacro::Other),
        },
        name: m.name.clone(),
        args: texts(&m.args),
        with_value: m.with_value.as_ref().map(text),
    }
}

fn span(s: src::Span) -> Span {
    Span {
        start_byte: s.start_byte,
        end_byte: s.end_byte,
        start_line: s.start_line,
        start_column: s.start_column,
        end_line: s.end_line,
        end_column: s.end_column,
    }
}

fn bin_op(op: src::BinOp) -> BinOp {
    match op {
        src::BinOp::LogOr => BinOp::LogOr,
        src::BinOp::LogAnd => BinOp::LogAnd,
        src::BinOp::Eq => BinOp::Eq,
        src::BinOp::Ne => BinOp::Ne,
        src::BinOp::Lt => BinOp::Lt,
        src::BinOp::Gt => BinOp::Gt,
        src::BinOp::Le => BinOp::Le,
        src::BinOp::Ge => BinOp::Ge,
    }
}

/// An expression of a kind that is not known here becomes a number joined
/// with nothing, which no rule reasons about.
fn expr(e: &src::ExprAst<src::Span>) -> ExprAst {
    match e {
        src::ExprAst::Integer { value, data } => ExprAst::Integer {
            value: *value,
            data: span(*data),
        },
        src::ExprAst::String { value, data } => ExprAst::String {
            value: value.clone(),
            data: span(*data),
        },
        src::ExprAst::Macro { text, data } => ExprAst::Macro {
            text: text.clone(),
            data: span(*data),
        },
        src::ExprAst::Identifier { name, data } => ExprAst::Identifier {
            name: name.clone(),
            data: span(*data),
        },
        src::ExprAst::Paren { inner, data } => ExprAst::Paren {
            inner: Box::new(expr(inner)),
            data: span(*data),
        },
        src::ExprAst::Not { inner, data } => ExprAst::Not {
            inner: Box::new(expr(inner)),
            data: span(*data),
        },
        src::ExprAst::Binary {
            kind,
            lhs,
            rhs,
            data,
        } => ExprAst::Binary {
            kind: bin_op(*kind),
            lhs: Box::new(expr(lhs)),
            rhs: Box::new(expr(rhs)),
            data: span(*data),
        },
        src::ExprAst::NumericConcat { parts, data } => ExprAst::NumericConcat {
            parts: parts.iter().filter_map(concat_part).collect(),
            data: span(*data),
        },
        other => ExprAst::NumericConcat {
            parts: Vec::new(),
            data: span(*other.data()),
        },
    }
}

fn concat_part(p: &src::ConcatPart<src::Span>) -> Option<ConcatPart> {
    match p {
        src::ConcatPart::Literal { text, .. } => Some(ConcatPart::Literal(text.clone())),
        src::ConcatPart::Macro { text, .. } => Some(ConcatPart::Macro(text.clone())),
        _ => None,
    }
}

fn cond_expr(c: &src::CondExpr<src::Span>) -> CondExpr {
    match c {
        src::CondExpr::Raw(t) => CondExpr::Raw(text(t)),
        src::CondExpr::Parsed(e) => CondExpr::Parsed(Box::new(expr(e))),
        src::CondExpr::ArchList(ts) => CondExpr::ArchList(texts(ts)),
        _ => CondExpr::Raw(Text {
            segments: Vec::new(),
        }),
    }
}

fn cond_kind(k: src::CondKind) -> CondKind {
    match k {
        src::CondKind::If => CondKind::If,
        src::CondKind::IfArch => CondKind::IfArch,
        src::CondKind::IfNArch => CondKind::IfNArch,
        src::CondKind::IfOs => CondKind::IfOs,
        src::CondKind::IfNOs => CondKind::IfNOs,
        src::CondKind::Elif => CondKind::Elif,
        src::CondKind::ElifArch => CondKind::ElifArch,
        src::CondKind::ElifOs => CondKind::ElifOs,
        other => panic!("unknown keyword {other:?}"),
    }
}

fn conditional<B>(c: &src::Conditional<src::Span, B>, body: fn(&B) -> Item) -> Conditional {
    Conditional {
        branches: c
            .branches
            .iter()
            .map(|b| CondBranch {
                kind: cond_kind(b.kind),
                expr: cond_expr(&b.expr),
                body: b.body.iter().map(body).collect(),
                data: span(b.data),
            })
            .collect(),
        otherwise: c
            .otherwise
            .as_ref()
            .map(|o| o.iter().map(body).collect()),
        data: span(c.data),
    }
}

fn tag(t: &src::Tag) -> Tag {
    match t {
        src::Tag::Name => Tag::Name,
        src::Tag::Version => Tag::Version,
        src::Tag::Release => Tag::Release,
        src::Tag::Epoch => Tag::Epoch,
        src::Tag::BuildArch => Tag::BuildArch,
        src::Tag::ExclusiveArch => Tag::ExclusiveArch,
        src::Tag::ExcludeArch => Tag::ExcludeArch,
        src::Tag::Requires => Tag::Requires,
        src::Tag::BuildRequires => Tag::BuildRequires,
        src::Tag::Provides => Tag::Provides,
        src::Tag::Conflicts => Tag::Conflicts,
        src::Tag::Obsoletes => Tag::Obsoletes,
        src::Tag::Recommends => Tag::Recommends,
        src::Tag::Suggests => Tag::Suggests,
        src::Tag::Supplements => Tag::Supplements,
        src::Tag::Enhances => Tag::Enhances,
        src::Tag::BuildConflicts => Tag::BuildConflicts,
        src::Tag::OrderWithRequires => Tag::OrderWithRequires,
        src::Tag::AutoReqProv => Tag::AutoReqProv,
        src::Tag::AutoReq => Tag::AutoReq,
        src::Tag::AutoProv => Tag::AutoProv,
        _ => Tag::Other,
    }
}

fn qualifier(q: &src::TagQualifier) -> TagQualifier {
    match q {
        src::TagQualifier::Pre => TagQualifier::Pre,
        src::TagQualifier::Post => TagQualifier::Post,
        src::TagQualifier::Preun => TagQualifier::Preun,
        src::TagQualifier::Postun => TagQualifier::Postun,
        src::TagQualifier::Pretrans => TagQualifier::Pretrans,
        src::TagQualifier::Posttrans => TagQualifier::Posttrans,
        src::TagQualifier::Preuntrans => TagQualifier::Preuntrans,
        src::TagQualifier::Postuntrans => TagQualifier::Postuntrans,
        src::TagQualifier::Meta => TagQualifier::Meta,
        _ => TagQualifier::Other,
    }
}

fn ver_op(op: &src::VerOp) -> VerOp {
    match op {
        src::VerOp::Lt => VerOp::Lt,
        src::VerOp::Le => VerOp::Le,
        src::VerOp::Eq => VerOp::Eq,
        src::VerOp::Ge => VerOp::Ge,
        src::VerOp::Gt => VerOp::Gt,
        src::VerOp::Ne => VerOp::Ne,
        other => panic!("unknown comparison {other:?}"),
    }
}

fn dep_atom(a: &src::DepAtom) -> DepAtom {
    DepAtom {
        name: text(&a.name),
        arch: a.arch.as_ref().map(text),
        constraint: a.constraint.as_ref().map(|c| DepConstraint {
            op: ver_op(&c.op),
            evr: Evr {
                epoch: c.evr.epoch,
                version: text(&c.evr.version),
                release: c.evr.release.as_ref().map(text),
            },
        }),
    }
}

fn dep(d: &src::DepExpr) -> DepExpr {
    match d {
        src::DepExpr::Atom(a) => DepExpr::Atom(dep_atom(a)),
        src::DepExpr::Rich(b) => DepExpr::Rich(Box::new(bool_dep(b))),
        other => panic!("unknown dependency {other:?}"),
    }
}

fn deps(ds: &[src::DepExpr]) -> Vec<DepExpr> {
    ds.iter().map(dep).collect()
}

fn bool_dep(b: &src::BoolDep) -> BoolDep {
    match b {
        src::BoolDep::And(xs) => BoolDep::And(deps(xs)),
        src::BoolDep::Or(xs) => BoolDep::Or(deps(xs)),
        src::BoolDep::With(xs) => BoolDep::With(deps(xs)),
        src::BoolDep::If {
            cond,
            then,
            otherwise,
        } => BoolDep::If {
            cond: Box::new(dep(cond)),
            consequent: Box::new(dep(then)),
            otherwise: otherwise.as_ref().map(|o| Box::new(dep(o))),
        },
        src::BoolDep::Unless {
            cond,
            then,
            otherwise,
        } => BoolDep::Unless {
            cond: Box::new(dep(cond)),
            consequent: Box::new(dep(then)),
            otherwise: otherwise.as_ref().map(|o| Box::new(dep(o))),
        },
        src::BoolDep::Without { left, right } => BoolDep::Without {
            left: Box::new(dep(left)),
            right: Box::new(dep(right)),
        },
        other => panic!("unknown dependency {other:?}"),
    }
}

fn preamble_item(p: &src::PreambleItem<src::Span>) -> PreambleItem {
    PreambleItem {
        tag: tag(&p.tag),
        qualifiers: p.qualifiers.iter().map(qualifier).collect(),
        value: match &p.value {
            src::TagValue::Text(t) => TagValue::Text(text(t)),
            src::TagValue::Dep(d) => TagValue::Dep(dep(d)),
            src::TagValue::Bool(b) => TagValue::Bool(*b),
            src::TagValue::Number(n) => TagValue::Number(*n),
            src::TagValue::ArchList(ts) => TagValue::ArchList(texts(ts)),
            _ => TagValue::Text(Text {
                segments: Vec::new(),
            }),
        },
        data: span(p.data),
    }
}

fn preamble_content(c: &src::PreambleContent<src::Span>) -> Item {
    match c {
        src::PreambleContent::Item(p) => Item::Preamble(preamble_item(p)),
        src::PreambleContent::Conditional(c) => {
            Item::Conditional(conditional(c, preamble_content))
        }
        src::PreambleContent::Comment(c) => Item::Comment(span(c.data)),
        _ => Item::Blank,
    }
}

fn directive(d: &src::FileDirective) -> FileDirective {
    match d {
        src::FileDirective::Doc => FileDirective::Doc,
        src::FileDirective::License => FileDirective::License,
        _ => FileDirective::Other,
    }
}

fn files_content(c: &src::FilesContent<src::Span>) -> Item {
    match c {
        src::FilesContent::Entry(e) => Item::Entry(FileEntry {
            directives: e.directives.iter().map(directive).collect(),
            has_path: e.path.is_some(),
            data: span(e.data),
        }),
        src::FilesContent::Conditional(c) => Item::Conditional(conditional(c, files_content)),
        src::FilesContent::Comment(c) => Item::Comment(span(c.data)),
        _ => Item::Blank,
    }
}

fn month(m: src::Month) -> Month {
    match m {
        src::Month::Jan => Month::Jan,
        src::Month::Feb => Month::Feb,
        src::Month::Mar => Month::Mar,
        src::Month::Apr => Month::Apr,
        src::Month::May => Month::May,
        src::Month::Jun => Month::Jun,
        src::Month::Jul => Month::Jul,
        src::Month::Aug => Month::Aug,
        src::Month::Sep => Month::Sep,
        src::Month::Oct => Month::Oct,
        src::Month::Nov => Month::Nov,
        src::Month::Dec => Month::Dec,
    }
}

fn weekday(w: src::Weekday) -> Weekday {
    match w {
        src::Weekday::Mon => Weekday::Mon,
        src::Weekday::Tue => Weekday::Tue,
        src::Weekday::Wed => Weekday::Wed,
        src::Weekday::Thu => Weekday::Thu,
        src::Weekday::Fri => Weekday::Fri,
        src::Weekday::Sat => Weekday::Sat,
        src::Weekday::Sun => Weekday::Sun,
    }
}

fn changelog_entry(e: &src::ChangelogEntry<src::Span>) -> ChangelogEntry {
    ChangelogEntry {
        date: ChangelogDate {
            weekday: weekday(e.date.weekday),
            month: month(e.date.month),
            day: e.date.day,
            year: e.date.year,
        },
        version: e.version.as_ref().map(text),
        body: texts(&e.body),
        data: span(e.data),
    }
}

fn package_name(n: &src::PackageName) -> Option<PackageName> {
    match n {
        src::PackageName::Relative(t) => Some(PackageName::Relative(text(t))),
        src::PackageName::Absolute(t) => Some(PackageName::Absolute(text(t))),
        #[allow(unreachable_patterns)]
        _ => None,
    }
}

fn script_kind(k: src::BuildScriptKind) -> BuildScriptKind {
    match k {
        src::BuildScriptKind::Prep => BuildScriptKind::Prep,
        src::BuildScriptKind::Build => BuildScriptKind::Build,
        src::BuildScriptKind::Install => BuildScriptKind::Install,
        src::BuildScriptKind::Check => BuildScriptKind::Check,
        src::BuildScriptKind::Clean => BuildScriptKind::Clean,
        _ => BuildScriptKind::Other,
    }
}

fn section(s: &src::Section<src::Span>) -> Option<Section> {
    Some(match s {
        src::Section::Description { body, data, .. } => Section::Description {
            lines: texts(&body.lines),
            data: span(*data),
        },
        src::Section::Package {
            name_arg,
            content,
            data,
        } => Section::Package {
            name_arg: package_name(name_arg),
            content: content.iter().map(preamble_content).collect(),
            data: span(*data),
        },
        src::Section::BuildScript { kind, body, data } => Section::BuildScript {
            kind: script_kind(*kind),
            lines: texts(&body.lines),
            data: span(*data),
        },
        src::Section::Files { content, data, .. } => Section::Files {
            content: content.iter().map(files_content).collect(),
            data: span(*data),
        },
        src::Section::Scriptlet(s) => Section::Scriptlet {
            lines: texts(&s.body.lines),
            data: span(s.data),
        },
        src::Section::Trigger(t) => Section::Trigger {
            lines: texts(&t.body.lines),
            data: span(t.data),
        },
        src::Section::FileTrigger(t) => Section::FileTrigger {
            lines: texts(&t.body.lines),
            data: span(t.data),
        },
        src::Section::Verify { body, data, .. } => Section::Verify {
            lines: texts(&body.lines),
            data: span(*data),
        },
        src::Section::Sepolicy { body, data, .. } => Section::Sepolicy {
            lines: texts(&body.lines),
            data: span(*data),
        },
        src::Section::Changelog { entries, data } => Section::Changelog {
            entries: entries.iter().map(changelog_entry).collect(),
            data: span(*data),
        },
        src::Section::SourceList { data, .. } => Section::SourceList { data: span(*data) },
        src::Section::PatchList { data, .. } => Section::PatchList { data: span(*data) },
        _ => return None,
    })
}

fn item(i: &src::SpecItem<src::Span>) -> Item {
    match i {
        src::SpecItem::Preamble(p) => Item::Preamble(preamble_item(p)),
        src::SpecItem::Section(s) => match section(s) {
            Some(s) => Item::Section(Box::new(s)),
            None => Item::Blank,
        },
        src::SpecItem::Conditional(c) => Item::Conditional(conditional(c, item)),
        src::SpecItem::MacroDef(m) => Item::MacroDef(MacroDef {
            kind: match m.kind {
                src::MacroDefKind::Global => MacroDefKind::Global,
                src::MacroDefKind::Undefine => MacroDefKind::Undefine,
                _ => MacroDefKind::Define,
            },
            name: m.name.clone(),
            body: text(&m.body),
            data: span(m.data),
        }),
        src::SpecItem::BuildCondition(b) => Item::BuildCondition(BuildCondition {
            style: match b.style {
                src::BuildCondStyle::BcondWith => BuildCondStyle::BcondWith,
                src::BuildCondStyle::BcondWithout => BuildCondStyle::BcondWithout,
                _ => BuildCondStyle::Bcond,
            },
            name: b.name.clone(),
            default: b.default.as_ref().map(text),
            data: span(b.data),
        }),
        src::SpecItem::Include(i) => Item::Include(span(i.data)),
        src::SpecItem::Statement(m) => Item::Statement(Box::new(macro_ref(m))),
        src::SpecItem::Comment(c) => Item::Comment(span(c.data)),
        _ => Item::Blank,
    }
}

fn spec_file(s: &src::SpecFile<src::Span>) -> SpecFile {
    SpecFile {
        items: s.items.iter().map(item).collect(),
        data: span(s.data),
    }
}

// ---------------------------------------------------------------------
// Running a rule
// ---------------------------------------------------------------------

fn parse(text: &str) -> SpecFile {
    spec_file(&rpm_spec::parser::parse_str_with_spans(text).spec)
}

fn check<L: Lint>(mut lint: L, text: &str) -> Vec<Diagnostic> {
    lint.visit_spec(&parse(text));
    lint.take_diagnostics()
}

fn visit<L: Lint>(mut lint: L, spec: &SpecFile) -> Vec<Diagnostic> {
    lint.visit_spec(spec);
    lint.take_diagnostics()
}

fn literal(s: &str) -> Text {
    Text {
        segments: vec![TextSegment::Literal(s.to_string())],
    }
}

/// A spec file with one block of one branch.
fn spec_of(kind: CondKind, expr: CondExpr) -> SpecFile {
    let at = Span::from_bytes(0, 0);
    SpecFile {
        items: vec![Item::Conditional(Conditional {
            branches: vec![CondBranch {
                kind,
                expr,
                body: Vec::new(),
                data: at,
            }],
            otherwise: None,
            data: at,
        })],
        data: at,
    }
}

fn family(of: Option<Family>) -> Profile {
    let mut p = Profile::default();
    p.family = of;
    p
}

/// A rule that quotes or edits the source text.
trait Sourced: Sized {
    fn with_source(self, text: &str) -> Self;
}

impl Sourced for AdjacentMutexIfs {
    fn with_source(mut self, text: &str) -> Self {
        self.set_source(text);
        self
    }
}

impl Sourced for BcondOnNonFedora {
    fn with_source(mut self, text: &str) -> Self {
        self.set_source(text);
        self
    }
}

impl Sourced for BranchItemSubset {
    fn with_source(mut self, text: &str) -> Self {
        self.set_source(text);
        self
    }
}

impl Sourced for CommentedOutSpecCode {
    fn with_source(mut self, text: &str) -> Self {
        self.set_source(text);
        self
    }
}

impl Sourced for DuplicateArchInList {
    fn with_source(mut self, text: &str) -> Self {
        self.set_source(text);
        self
    }
}

impl Sourced for HoistCommonPrefix {
    fn with_source(mut self, text: &str) -> Self {
        self.set_source(text);
        self
    }
}

impl Sourced for HoistCommonSuffix {
    fn with_source(mut self, text: &str) -> Self {
        self.set_source(text);
        self
    }
}

impl Sourced for IdenticalConditionalBranches {
    fn with_source(mut self, text: &str) -> Self {
        self.set_source(text);
        self
    }
}

impl Sourced for MergeElifSameBody {
    fn with_source(mut self, text: &str) -> Self {
        self.set_source(text);
        self
    }
}

// ---------------------------------------------------------------------
// adjacent_doc_lines
// ---------------------------------------------------------------------

#[test]
fn flags_adjacent_doc_pair() {
    let src = "Name: x\n%files\n%doc README\n%doc NEWS\n";
    let diags = check(AdjacentDocLines::new(), src);
    assert_eq!(diags.len(), 1, "{diags:?}");
    assert_eq!(diags[0].lint_id, "RPM510");
}

#[test]
fn flags_three_adjacent_doc_lines() {
    let src = "Name: x\n%files\n%doc README\n%doc NEWS\n%doc CHANGES\n";
    let diags = check(AdjacentDocLines::new(), src);
    // Two adjacency events (NEWS after README, CHANGES after NEWS).
    assert_eq!(diags.len(), 2, "{diags:?}");
}

#[test]
fn silent_for_single_doc() {
    let src = "Name: x\n%files\n%doc README\n";
    assert!(check(AdjacentDocLines::new(), src).is_empty());
}

#[test]
fn silent_when_separated_by_non_doc_entry() {
    let src = "Name: x\n%files\n%doc README\n%{_bindir}/foo\n%doc NEWS\n";
    assert!(check(AdjacentDocLines::new(), src).is_empty());
}

#[test]
fn silent_for_doc_and_license_mix() {
    // `%license` is a separate directive — not RPM510's case.
    let src = "Name: x\n%files\n%doc README\n%license LICENSE\n";
    assert!(check(AdjacentDocLines::new(), src).is_empty());
}

/// `%lang(ja) %doc README.ja` carries a locale qualifier that does
/// not survive a naive merge into a single `%doc A B C` line. The
/// rule must skip any entry whose directives include `%lang(...)`
/// (or any other per-line qualifier). Adjacency must not span
/// across such a line either — at most a single diagnostic is
/// acceptable, jumping over the `%lang` entry.
#[test]
fn silent_when_lang_qualifier_between_doc_lines() {
    let src = "Name: x\n\
%files\n\
%doc README\n\
%lang(ja) %doc README.ja\n\
%doc CHANGELOG\n";
    let diags = check(AdjacentDocLines::new(), src);
    assert!(
        diags.len() <= 1,
        "must not merge across %lang qualifier; got {diags:?}"
    );
}

// ---------------------------------------------------------------------
// adjacent_license_lines
// ---------------------------------------------------------------------

#[test]
fn flags_adjacent_license_pair() {
    let src = "Name: x\n%files\n%license LICENSE\n%license NOTICE\n";
    let diags = check(AdjacentLicenseLines::new(), src);
    assert_eq!(diags.len(), 1, "{diags:?}");
    assert_eq!(diags[0].lint_id, "RPM511");
}

#[test]
fn silent_for_single_license() {
    let src = "Name: x\n%files\n%license LICENSE\n";
    assert!(check(AdjacentLicenseLines::new(), src).is_empty());
}

#[test]
fn silent_for_separated_pair() {
    let src = "Name: x\n%files\n%license LICENSE\n%{_bindir}/foo\n%license NOTICE\n";
    assert!(check(AdjacentLicenseLines::new(), src).is_empty());
}

/// `%lang(ja) %license COPYING.ja` carries a locale qualifier that
/// does not survive a naive merge into a single `%license A B C`
/// line. The rule must skip any entry whose directives include
/// `%lang(...)` (or any other per-line qualifier). Adjacency must
/// not span across such a line either — at most a single diagnostic
/// is acceptable, jumping over the `%lang` entry.
///
/// As in a ruby package:
///   %files
///   %license BSDL
///   %license COPYING
///   %lang(ja) %license COPYING.ja
///   %license GPL
#[test]
fn silent_when_lang_qualifier_between_license_lines() {
    let src = "Name: x\n\
%files\n\
%license BSDL\n\
%license COPYING\n\
%lang(ja) %license COPYING.ja\n\
%license GPL\n";
    let diags = check(AdjacentLicenseLines::new(), src);
    assert!(
        diags.len() <= 1,
        "must not merge across %lang qualifier; got {diags:?}"
    );
}

// ---------------------------------------------------------------------
// adjacent_mutex_ifs
// ---------------------------------------------------------------------

#[test]
fn flags_a_and_not_a_pair_with_different_bodies() {
    let src = "Name: x\n\
%if A\n\
License: MIT\n\
%endif\n\
%if !A\n\
License: GPL\n\
%endif\n";
    let diags = check(AdjacentMutexIfs::new().with_source(src), src);
    assert_eq!(diags.len(), 1, "{diags:?}");
    assert_eq!(diags[0].lint_id, "RPM444");
}

#[test]
fn flags_a_and_not_a_and_b() {
    let src = "Name: x\n\
%if A\n\
License: MIT\n\
%endif\n\
%if !A && B\n\
License: GPL\n\
%endif\n";
    let diags = check(AdjacentMutexIfs::new().with_source(src), src);
    assert_eq!(diags.len(), 1, "{diags:?}");
}

#[test]
fn silent_for_compatible_conditions() {
    let src = "Name: x\n\
%if A\n\
License: MIT\n\
%endif\n\
%if B\n\
License: GPL\n\
%endif\n";
    assert!(check(AdjacentMutexIfs::new().with_source(src), src).is_empty());
}

#[test]
fn silent_for_same_body_pair() {
    // RPM445's territory.
    let src = "Name: x\n\
%if A\n\
License: MIT\n\
%endif\n\
%if !A\n\
License: MIT\n\
%endif\n";
    assert!(check(AdjacentMutexIfs::new().with_source(src), src).is_empty());
}

#[test]
fn silent_for_same_condition() {
    // RPM076's territory.
    let src = "Name: x\n\
%if A\n\
License: MIT\n\
%endif\n\
%if A\n\
License: GPL\n\
%endif\n";
    assert!(check(AdjacentMutexIfs::new().with_source(src), src).is_empty());
}

#[test]
fn silent_when_blocks_separated_by_other_item() {
    let src = "Name: x\n\
%if A\nLicense: MIT\n%endif\n\
Version: 1\n\
%if !A\nLicense: GPL\n%endif\n";
    assert!(check(AdjacentMutexIfs::new().with_source(src), src).is_empty());
}

// ---------------------------------------------------------------------
// always_true_branch
// ---------------------------------------------------------------------

#[test]
fn rpm114_flags_implied_inner_repeat() {
    // path = X; inner = X — implied → fires.
    let src = "Name: x\n%if X\n%if X\n%global foo bar\n%endif\n%endif\n";
    let diags = check(AlwaysTrueBranch::new(), src);
    assert_eq!(diags.len(), 1, "{diags:?}");
    assert_eq!(diags[0].lint_id, "RPM114");
}

#[test]
fn rpm114_flags_implied_inner_subset() {
    // path = X && Y; inner = X — implied.
    let src = "Name: x\n%if X && Y\n%if X\n%global foo bar\n%endif\n%endif\n";
    let diags = check(AlwaysTrueBranch::new(), src);
    assert_eq!(diags.len(), 1, "{diags:?}");
}

#[test]
fn rpm114_silent_for_independent_inner() {
    let src = "Name: x\n%if X\n%if Y\n%global foo bar\n%endif\n%endif\n";
    assert!(check(AlwaysTrueBranch::new(), src).is_empty());
}

#[test]
fn rpm114_silent_at_root_level() {
    let src = "Name: x\n%if 1\n%global foo bar\n%endif\n";
    assert!(check(AlwaysTrueBranch::new(), src).is_empty());
}

// ---------------------------------------------------------------------
// arch_complement_shorter
// ---------------------------------------------------------------------

fn universe_of(archs: &[&str]) -> Profile {
    let mut p = Profile::default();
    p.arch_universe = Some(archs.iter().map(|a| (*a).to_string()).collect());
    p
}

fn run_arch_complement_shorter(src: &str, archs: &[&str]) -> Vec<Diagnostic> {
    let spec = parse(src);
    let profile = universe_of(archs);
    let mut lint = ArchComplementShorter::new();
    lint.set_profile(&profile);
    lint.visit_spec(&spec);
    lint.take_diagnostics()
}

#[test]
fn flags_when_complement_is_shorter() {
    // Universe = 5 arches; exclude 3, complement is 2 (shorter).
    let src = "Name: x\n%ifnarch i686 ppc64le s390x\nLicense: MIT\n%endif\n";
    let diags = run_arch_complement_shorter(src, &["x86_64", "aarch64", "i686", "ppc64le", "s390x"]);
    assert_eq!(diags.len(), 1, "{diags:?}");
    assert_eq!(diags[0].lint_id, "RPM441");
}

#[test]
fn silent_when_complement_is_longer() {
    // Exclude 2; complement is 3 — flipping doesn't help.
    let src = "Name: x\n%ifnarch i686 ppc64le\nLicense: MIT\n%endif\n";
    let diags = run_arch_complement_shorter(src, &["x86_64", "aarch64", "i686", "ppc64le", "s390x"]);
    assert!(diags.is_empty());
}

#[test]
fn silent_when_excluded_outside_universe() {
    // `ppc64le` not in universe → don't claim the flip is sound.
    let src = "Name: x\n%ifnarch i686 ppc64le\nLicense: MIT\n%endif\n";
    let diags = run_arch_complement_shorter(src, &["x86_64", "aarch64"]);
    assert!(diags.is_empty());
}

#[test]
fn silent_for_ifarch() {
    let src = "Name: x\n%ifarch i686\nLicense: MIT\n%endif\n";
    let diags = run_arch_complement_shorter(src, &["x86_64", "aarch64", "i686"]);
    assert!(diags.is_empty());
}

#[test]
fn arch_complement_shorter_silent_when_profile_has_no_universe() {
    let src = "Name: x\n%ifnarch i686 ppc64le s390x\nLicense: MIT\n%endif\n";
    let spec = parse(src);
    let profile = Profile::default();
    let mut lint = ArchComplementShorter::new();
    lint.set_profile(&profile);
    lint.visit_spec(&spec);
    assert!(lint.take_diagnostics().is_empty());
}

// ---------------------------------------------------------------------
// arch_condition_domain_simplify
// ---------------------------------------------------------------------

fn run_arch_condition_domain_simplify(src: &str, archs: &[&str]) -> Vec<Diagnostic> {
    let spec = parse(src);
    let profile = universe_of(archs);
    let mut lint = ArchConditionDomainSimplify::new();
    lint.set_profile(&profile);
    lint.visit_spec(&spec);
    lint.take_diagnostics()
}

#[test]
fn flags_full_universe_cover() {
    let src = "Name: x\n%ifarch x86_64 aarch64\nLicense: MIT\n%endif\n";
    let diags = run_arch_condition_domain_simplify(src, &["x86_64", "aarch64"]);
    assert_eq!(diags.len(), 1, "{diags:?}");
    assert_eq!(diags[0].lint_id, "RPM440");
}

#[test]
fn flags_superset_cover() {
    // Universe = {x86_64, aarch64}; list includes ppc64le too.
    let src = "Name: x\n%ifarch x86_64 aarch64 ppc64le\nLicense: MIT\n%endif\n";
    let diags = run_arch_condition_domain_simplify(src, &["x86_64", "aarch64"]);
    assert_eq!(diags.len(), 1);
}

#[test]
fn silent_for_partial_cover() {
    let src = "Name: x\n%ifarch x86_64\nLicense: MIT\n%endif\n";
    let diags = run_arch_condition_domain_simplify(src, &["x86_64", "aarch64"]);
    assert!(diags.is_empty());
}

#[test]
fn arch_condition_domain_simplify_silent_when_profile_has_no_universe() {
    // No `target_arch_universe` → rule stays silent.
    let src = "Name: x\n%ifarch x86_64 aarch64\nLicense: MIT\n%endif\n";
    let spec = parse(src);
    let profile = Profile::default();
    let mut lint = ArchConditionDomainSimplify::new();
    lint.set_profile(&profile);
    lint.visit_spec(&spec);
    assert!(lint.take_diagnostics().is_empty());
}

#[test]
fn silent_for_ifnarch() {
    // RPM440 only handles `%ifarch`, not `%ifnarch` (different semantics).
    let src = "Name: x\n%ifnarch x86_64 aarch64\nLicense: MIT\n%endif\n";
    let diags = run_arch_condition_domain_simplify(src, &["x86_64", "aarch64"]);
    assert!(diags.is_empty());
}

// ---------------------------------------------------------------------
// arch_policy
// ---------------------------------------------------------------------

#[test]
fn flags_noarch_with_exclusivearch() {
    let src = "Name: x\nBuildArch: noarch\nExclusiveArch: x86_64\n";
    let diags = check(ArchPolicyContradiction::new(), src);
    assert_eq!(diags.len(), 1, "{diags:?}");
    assert_eq!(diags[0].lint_id, "RPM310");
    assert!(diags[0].message.contains("noarch"));
}

#[test]
fn flags_noarch_with_excludearch() {
    let src = "Name: x\nBuildArch: noarch\nExcludeArch: s390x\n";
    let diags = check(ArchPolicyContradiction::new(), src);
    assert_eq!(diags.len(), 1);
    assert!(diags[0].message.contains("ExcludeArch"));
}

#[test]
fn flags_exclusivearch_excludearch_overlap() {
    let src = "Name: x\nExclusiveArch: x86_64 aarch64\nExcludeArch: aarch64 s390x\n";
    let diags = check(ArchPolicyContradiction::new(), src);
    assert_eq!(diags.len(), 1);
    assert!(diags[0].message.contains("aarch64"));
}

#[test]
fn silent_for_distinct_arch_lists() {
    let src = "Name: x\nExclusiveArch: x86_64\nExcludeArch: s390x\n";
    assert!(check(ArchPolicyContradiction::new(), src).is_empty());
}

#[test]
fn silent_for_buildarch_x86_64_alone() {
    let src = "Name: x\nBuildArch: x86_64\nExclusiveArch: x86_64\n";
    // No noarch hazard; ExclusiveArch alone is fine.
    assert!(check(ArchPolicyContradiction::new(), src).is_empty());
}

#[test]
fn silent_when_exclusivearch_only_macro_archs() {
    // `ExclusiveArch: %{ix86}` — we can't compare against literal,
    // so no flag.
    let src = "Name: x\nExclusiveArch: %{ix86}\nExcludeArch: s390x\n";
    assert!(check(ArchPolicyContradiction::new(), src).is_empty());
}

// ---------------------------------------------------------------------
// arch_subset_under_parent
// ---------------------------------------------------------------------

#[test]
fn flags_inner_superset_of_outer() {
    let src = "Name: x\n\
%ifarch x86_64 aarch64\n\
%ifarch x86_64 aarch64 ppc64le\n\
License: MIT\n\
%endif\n\
%endif\n";
    let diags = check(ArchSubsetUnderParent::new(), src);
    assert_eq!(diags.len(), 1, "{diags:?}");
    assert_eq!(diags[0].lint_id, "RPM442");
}

#[test]
fn flags_inner_equal_to_outer() {
    // Inner equals outer — outer ⊆ inner is true with equality.
    let src = "Name: x\n\
%ifarch x86_64\n\
%ifarch x86_64\n\
License: MIT\n\
%endif\n\
%endif\n";
    let diags = check(ArchSubsetUnderParent::new(), src);
    assert_eq!(diags.len(), 1, "{diags:?}");
}

#[test]
fn silent_when_inner_narrows() {
    // Inner is SUBSET of outer — inner adds restriction; not always true.
    let src = "Name: x\n\
%ifarch x86_64 aarch64\n\
%ifarch x86_64\n\
License: MIT\n\
%endif\n\
%endif\n";
    assert!(check(ArchSubsetUnderParent::new(), src).is_empty());
}

#[test]
fn silent_for_independent_arch_lists() {
    let src = "Name: x\n\
%ifarch x86_64\n\
%ifarch aarch64\n\
License: MIT\n\
%endif\n\
%endif\n";
    assert!(check(ArchSubsetUnderParent::new(), src).is_empty());
}

#[test]
fn silent_at_top_level() {
    // No enclosing arch guard.
    let src = "Name: x\n%ifarch x86_64 aarch64 ppc64le\nLicense: MIT\n%endif\n";
    assert!(check(ArchSubsetUnderParent::new(), src).is_empty());
}

#[test]
fn finds_subset_through_non_arch_layer() {
    // Intermediate `%if` doesn't break the arch reasoning.
    let src = "Name: x\n\
%ifarch x86_64 aarch64\n\
%if Z\n\
%ifarch x86_64 aarch64 ppc64le\n\
License: MIT\n\
%endif\n\
%endif\n\
%endif\n";
    let diags = check(ArchSubsetUnderParent::new(), src);
    assert_eq!(diags.len(), 1, "{diags:?}");
}

// ---------------------------------------------------------------------
// autoreqprov_comment
// ---------------------------------------------------------------------

#[test]
fn flags_autoreqprov_no_without_comment() {
    let src = "Name: x\nVersion: 1\nAutoReqProv: no\n";
    let diags = check(AutoreqprovWithoutComment::new(), src);
    assert_eq!(diags.len(), 1, "{diags:?}");
    assert_eq!(diags[0].lint_id, "RPM308");
    assert!(diags[0].message.contains("AutoReqProv"));
}

#[test]
fn flags_autoreq_no_and_autoprov_no_separately() {
    let src = "Name: x\nAutoReq: no\nAutoProv: no\n";
    let diags = check(AutoreqprovWithoutComment::new(), src);
    // Each is its own offence; AutoReq has neighbour AutoProv (not
    // a comment), AutoProv's neighbour AutoReq (not a comment).
    assert_eq!(diags.len(), 2);
}

#[test]
fn silent_when_preceding_comment_present() {
    let src = "Name: x\n# bundled libs — auto-deps would pull system ones\nAutoReqProv: no\n";
    assert!(check(AutoreqprovWithoutComment::new(), src).is_empty());
}

#[test]
fn silent_when_following_comment_present() {
    let src = "Name: x\nAutoReqProv: no\n# explanation continues on next line\n";
    assert!(check(AutoreqprovWithoutComment::new(), src).is_empty());
}

#[test]
fn silent_when_autoreqprov_yes() {
    // We only care about `no` / `0`.
    let src = "Name: x\nAutoReqProv: yes\n";
    assert!(check(AutoreqprovWithoutComment::new(), src).is_empty());
}

#[test]
fn flags_inside_subpackage() {
    let src = "Name: x\n\
%package devel\n\
Summary: dev\n\
AutoReqProv: no\n\
%description devel\nbody\n";
    let diags = check(AutoreqprovWithoutComment::new(), src);
    assert_eq!(diags.len(), 1);
}

#[test]
fn silent_inside_subpackage_with_comment() {
    let src = "Name: x\n\
%package devel\n\
Summary: dev\n\
# vendored deps\n\
AutoReqProv: no\n\
%description devel\nbody\n";
    assert!(check(AutoreqprovWithoutComment::new(), src).is_empty());
}

// ---------------------------------------------------------------------
// bcond_modern
// ---------------------------------------------------------------------

fn run_with_bcond_modern(src: &str, profile: &Profile) -> Vec<Diagnostic> {
    let spec = parse(src);
    let mut lint = PreferBcondNewSyntax::new();
    lint.set_profile(profile);
    lint.visit_spec(&spec);
    lint.take_diagnostics()
}

#[test]
fn flags_bcond_with_on_fedora() {
    let src = "%bcond_with systemd\nName: x\n";
    let diags = run_with_bcond_modern(src, &family(Some(Family::Fedora)));
    assert_eq!(diags.len(), 1, "{diags:?}");
    assert_eq!(diags[0].lint_id, "RPM400");
    assert!(diags[0].message.contains("%bcond systemd 0"));
}

#[test]
fn flags_bcond_without_on_fedora() {
    let src = "%bcond_without docs\nName: x\n";
    let diags = run_with_bcond_modern(src, &family(Some(Family::Fedora)));
    assert_eq!(diags.len(), 1);
    assert!(diags[0].message.contains("%bcond docs 1"));
}

#[test]
fn silent_for_modern_bcond_form() {
    let src = "%bcond systemd 0\nName: x\n";
    assert!(run_with_bcond_modern(src, &family(Some(Family::Fedora))).is_empty());
}

#[test]
fn silent_on_rhel_profile() {
    // RHEL 9 ships rpm 4.16 — modern bcond unavailable.
    let mut p = Profile::default();
    p.family = Some(Family::Rhel);
    let src = "%bcond_with systemd\nName: x\n";
    assert!(run_with_bcond_modern(src, &p).is_empty());
}

#[test]
fn silent_on_opensuse_profile() {
    // openSUSE Leap is on rpm 4.14; out of scope.
    let mut p = Profile::default();
    p.family = Some(Family::Opensuse);
    let src = "%bcond_with systemd\nName: x\n";
    assert!(run_with_bcond_modern(src, &p).is_empty());
}

#[test]
fn silent_on_alt_profile() {
    // ALT's rpm version varies across branches and isn't uniformly
    // ≥ 4.17.1 — the rule stays silent rather than assuming.
    let mut p = Profile::default();
    p.family = Some(Family::Alt);
    let src = "%bcond_with systemd\nName: x\n";
    assert!(run_with_bcond_modern(src, &p).is_empty());
}

#[test]
fn silent_on_generic_profile() {
    let src = "%bcond_with systemd\nName: x\n";
    assert!(run_with_bcond_modern(src, &Profile::default()).is_empty());
}

#[test]
fn flags_inside_conditional() {
    let src = "Name: x\n%if 0%{?fedora}\n%bcond_with extra\n%endif\n";
    assert_eq!(run_with_bcond_modern(src, &family(Some(Family::Fedora))).len(), 1);
}

#[test]
fn flags_multiple_declarations() {
    let src = "%bcond_with a\n%bcond_without b\n%bcond c 1\nName: x\n";
    let diags = run_with_bcond_modern(src, &family(Some(Family::Fedora)));
    // First two flagged; `%bcond c 1` already modern.
    assert_eq!(diags.len(), 2, "{diags:?}");
}

// ---------------------------------------------------------------------
// bcond_negation_canonical
// ---------------------------------------------------------------------

#[test]
fn flags_negated_with() {
    let src = "Name: x\n%if !%{with tests}\nLicense: MIT\n%endif\n";
    let diags = check(BcondNegationCanonical::new(), src);
    assert_eq!(diags.len(), 1, "{diags:?}");
    assert_eq!(diags[0].lint_id, "RPM436");
    assert!(diags[0].message.contains("without tests"));
}

#[test]
fn flags_negated_without() {
    let src = "Name: x\n%if !%{without gui}\nLicense: MIT\n%endif\n";
    let diags = check(BcondNegationCanonical::new(), src);
    assert_eq!(diags.len(), 1);
    assert!(diags[0].message.contains("with gui"));
}

#[test]
fn silent_for_canonical_with() {
    let src = "Name: x\n%if %{with tests}\nLicense: MIT\n%endif\n";
    assert!(check(BcondNegationCanonical::new(), src).is_empty());
}

#[test]
fn silent_for_negated_non_bcond_macro() {
    let src = "Name: x\n%if !%{some_other_macro}\nLicense: MIT\n%endif\n";
    assert!(check(BcondNegationCanonical::new(), src).is_empty());
}

// ---------------------------------------------------------------------
// bcond_on_non_fedora
// ---------------------------------------------------------------------

fn run_bcond_on_non_fedora(src: &str, profile: &Profile) -> Vec<Diagnostic> {
    let mut lint = BcondOnNonFedora::new();
    if !lint.applies_to_profile(profile) {
        return Vec::new();
    }
    lint.set_profile(profile);
    check(lint.with_source(src), src)
}

#[test]
fn fires_on_alt_with_bcond_with() {
    let profile = family(Some(Family::Alt));
    let src = "Name: x\n%bcond_with python3\n";
    let diags = run_bcond_on_non_fedora(src, &profile);
    assert_eq!(diags.len(), 1, "got {diags:?}");
    assert_eq!(diags[0].lint_id, "RPM129");
    assert!(diags[0].message.contains("%bcond_with"));
}

#[test]
fn fires_on_opensuse_with_bcond_without() {
    let profile = family(Some(Family::Opensuse));
    let src = "Name: x\n%bcond_without gtk\n";
    let diags = run_bcond_on_non_fedora(src, &profile);
    assert_eq!(diags.len(), 1);
    assert!(diags[0].message.contains("%bcond_without"));
}

#[test]
fn silent_on_fedora() {
    let profile = family(Some(Family::Fedora));
    let src = "Name: x\n%bcond_with python3\n";
    assert!(
        run_bcond_on_non_fedora(src, &profile).is_empty(),
        "Fedora natively supports %bcond_*"
    );
}

#[test]
fn silent_on_rhel() {
    let profile = family(Some(Family::Rhel));
    let src = "Name: x\n%bcond_with python3\n";
    assert!(
        run_bcond_on_non_fedora(src, &profile).is_empty(),
        "RHEL inherits %bcond_* from upstream"
    );
}

#[test]
fn silent_on_alt_without_bcond() {
    let profile = family(Some(Family::Alt));
    let src = "Name: x\n%define with_python 1\n%if %{with_python}\n%endif\n";
    assert!(run_bcond_on_non_fedora(src, &profile).is_empty());
}

#[test]
fn silent_when_no_family() {
    // The distribution is unknown: stay silent.
    let profile = family(None);
    let src = "Name: x\n%bcond_with python3\n";
    assert!(run_bcond_on_non_fedora(src, &profile).is_empty());
}

#[test]
fn skips_bcond_inside_comment() {
    let profile = family(Some(Family::Alt));
    let src = "Name: x\n# %bcond_with python3 is Fedora-only\n";
    assert!(run_bcond_on_non_fedora(src, &profile).is_empty(), "comments don't count");
}

#[test]
fn fires_multiple_uses_independently() {
    let profile = family(Some(Family::Mageia));
    let src = "Name: x\n%bcond_with python3\n%bcond_without docs\n";
    let diags = run_bcond_on_non_fedora(src, &profile);
    assert_eq!(diags.len(), 2);
}

#[test]
fn handles_leading_whitespace() {
    let profile = family(Some(Family::Alt));
    // Indented (rare but legal at the top of a section).
    let src = "Name: x\n    %bcond_with python3\n";
    let diags = run_bcond_on_non_fedora(src, &profile);
    assert_eq!(diags.len(), 1);
}

#[test]
fn silent_when_no_profile_set() {
    // Without a `set_profile` call the rule stays inert.
    let spec = parse("Name: x\n%bcond_with python3\n");
    let mut lint = BcondOnNonFedora::new();
    lint.set_source("Name: x\n%bcond_with python3\n");
    lint.visit_spec(&spec);
    let diags = lint.take_diagnostics();
    assert!(
        diags.is_empty(),
        "rule must be inert without an explicit non-Fedora set_profile; got {diags:?}"
    );
}

#[test]
fn silent_under_fedora_profile() {
    // `applies_to_profile` is not asked: the profile that was set is
    // the only gate here.
    let profile = family(Some(Family::Fedora));
    let spec = parse("Name: llvm\n%bcond_with snapshot_build\n");
    let mut lint = BcondOnNonFedora::new();
    lint.set_profile(&profile);
    lint.set_source("Name: llvm\n%bcond_with snapshot_build\n");
    lint.visit_spec(&spec);
    let diags = lint.take_diagnostics();
    assert!(
        diags.is_empty(),
        "Fedora profile must suppress RPM129; got {diags:?}"
    );
}

// ---------------------------------------------------------------------
// bcond_usage
// ---------------------------------------------------------------------

// ----- RPM401 -----

#[test]
fn rpm401_flags_unused_bcond_with() {
    let src = "%bcond_with foo\nName: x\n";
    let diags = check(BcondDefinedButUnused::new(), src);
    assert_eq!(diags.len(), 1, "{diags:?}");
    assert_eq!(diags[0].lint_id, "RPM401");
    assert!(diags[0].message.contains("foo"));
}

#[test]
fn rpm401_flags_unused_bcond_without() {
    let src = "%bcond_without bar\nName: x\n";
    assert_eq!(check(BcondDefinedButUnused::new(), src).len(), 1);
}

#[test]
fn rpm401_silent_when_bcond_used_with_macro() {
    let src = "%bcond_with foo\nName: x\n\
%if %{with foo}\nBuildRequires: extra\n%endif\n";
    assert!(check(BcondDefinedButUnused::new(), src).is_empty());
}

#[test]
fn rpm401_silent_when_bcond_used_without_macro() {
    let src = "%bcond_without bar\nName: x\n\
%if %{without bar}\nBuildRequires: alt\n%endif\n";
    assert!(check(BcondDefinedButUnused::new(), src).is_empty());
}

#[test]
fn rpm401_flags_one_of_two_when_only_one_referenced() {
    let src = "%bcond_with used\n%bcond_with unused\nName: x\n\
%if %{with used}\nBuildRequires: a\n%endif\n";
    let diags = check(BcondDefinedButUnused::new(), src);
    assert_eq!(diags.len(), 1);
    assert!(diags[0].message.contains("unused"));
}

#[test]
fn rpm401_silent_for_modern_bcond_form() {
    // `%bcond name DEFAULT` (rpm ≥ 4.17.1) — same usage check.
    let src = "%bcond newcond 1\nName: x\n\
%if %{with newcond}\nRequires: a\n%endif\n";
    assert!(check(BcondDefinedButUnused::new(), src).is_empty());
}

#[test]
fn rpm401_silent_when_bcond_used_via_optional_with() {
    // `%{?with foo}` is the tolerant optional form; RPM still
    // treats it as a `with` reference at evaluation time, so a
    // declared bcond is "used".
    let src = "%bcond_with foo\nName: x\n\
%if %{?with foo}\nBuildRequires: extra\n%endif\n";
    assert!(check(BcondDefinedButUnused::new(), src).is_empty(), "{:?}", check(BcondDefinedButUnused::new(), src));
}

#[test]
fn silent_when_with_used_inside_build_section() {
    // `%if %{with FOO}` inside a `%build` body — the parser keeps
    // the conditional as text lines, so the macro reference must
    // still be picked up by the bcond usage walker.
    let src = "Name: x\n%bcond_with FOO\n%prep\n%build\n\
%if %{with FOO}\necho on\n%endif\n";
    let diags = check(BcondDefinedButUnused::new(), src);
    assert!(diags.is_empty(), "{diags:?}");
}

#[test]
fn silent_when_with_used_inside_check_section() {
    let src = "Name: x\n%bcond_with FOO\n%check\n\
%if %{with FOO}\nmake check\n%endif\n";
    let diags = check(BcondDefinedButUnused::new(), src);
    assert!(diags.is_empty(), "{diags:?}");
}

#[test]
fn silent_when_without_used_inside_install_section() {
    let src = "Name: x\n%bcond_with FOO\n%install\n\
%if %{without FOO}\nrm extra\n%endif\n";
    let diags = check(BcondDefinedButUnused::new(), src);
    assert!(diags.is_empty(), "{diags:?}");
}

#[test]
fn rpm401_silent_when_bcond_declared_in_subpackage_used_in_main() {
    // Declaration at top level, usage inside a subpackage's
    // preamble via `%if %{with foo}` so the walker exercises the
    // Section::Package preamble-content path through a nested
    // conditional. The bcond is referenced, so RPM401 must stay
    // silent.
    let src = "%bcond_with foo\n\
Name: x\nVersion: 1\nRelease: 1\nSummary: s\nLicense: MIT\n\
%description\nmain\n\
%package devel\nSummary: d\n\
%if %{with foo}\nRequires: foo-extras\n%endif\n\
%description devel\ndevel\n";
    assert!(check(BcondDefinedButUnused::new(), src).is_empty(), "{:?}", check(BcondDefinedButUnused::new(), src));
}

// ----- RPM402 -----

#[test]
fn rpm402_flags_with_without_bcond() {
    let src = "Name: x\n%if %{with foo}\nBuildRequires: a\n%endif\n";
    let diags = check(WithConditionWithoutBcond::new(), src);
    assert_eq!(diags.len(), 1, "{diags:?}");
    assert_eq!(diags[0].lint_id, "RPM402");
    assert!(diags[0].message.contains("foo"));
}

#[test]
fn rpm402_flags_without_without_bcond() {
    let src = "Name: x\n%if %{without bar}\nBuildRequires: a\n%endif\n";
    assert_eq!(check(WithConditionWithoutBcond::new(), src).len(), 1);
}

#[test]
fn rpm402_silent_when_bcond_declared() {
    let src = "%bcond_with foo\nName: x\n%if %{with foo}\nBuildRequires: a\n%endif\n";
    assert!(check(WithConditionWithoutBcond::new(), src).is_empty());
}

#[test]
fn rpm402_deduplicates_repeated_references() {
    // Two references to the same undeclared bcond → one diagnostic.
    let src = "Name: x\n\
%if %{with foo}\nBuildRequires: a\n%endif\n\
%if %{with foo}\nBuildRequires: b\n%endif\n";
    assert_eq!(check(WithConditionWithoutBcond::new(), src).len(), 1);
}

#[test]
fn rpm402_silent_when_bcond_modern_form_declared() {
    let src = "%bcond foo 1\nName: x\n%if %{with foo}\nBuildRequires: a\n%endif\n";
    assert!(check(WithConditionWithoutBcond::new(), src).is_empty());
}

#[test]
fn rpm402_flags_each_distinct_missing_name() {
    let src = "Name: x\n%if %{with foo}\nBuildRequires: a\n%endif\n\
%if %{without bar}\nBuildRequires: b\n%endif\n";
    let diags = check(WithConditionWithoutBcond::new(), src);
    assert_eq!(diags.len(), 2, "{diags:?}");
}

#[test]
fn rpm402_silent_on_clean_spec() {
    let src = "Name: x\nVersion: 1\n";
    assert!(check(WithConditionWithoutBcond::new(), src).is_empty());
}

#[test]
fn rpm402_flags_optional_with_without_bcond() {
    // `%{?with foo}` with no declared bcond — the optional form
    // doesn't excuse the undeclared bcond; RPM still expands it
    // to nothing, the branch silently never fires.
    let src = "Name: x\n%if %{?with foo}\nBuildRequires: a\n%endif\n";
    let diags = check(WithConditionWithoutBcond::new(), src);
    assert_eq!(diags.len(), 1, "{diags:?}");
    assert!(diags[0].message.contains("foo"));
}

#[test]
fn rpm402_handles_negated_optional() {
    // `%{!?with foo}` — negated optional, still a `with`
    // reference for the purpose of bcond hygiene.
    let src = "Name: x\n%if %{!?with foo}\nBuildRequires: a\n%endif\n";
    let diags = check(WithConditionWithoutBcond::new(), src);
    assert_eq!(diags.len(), 1, "{diags:?}");
    assert!(diags[0].message.contains("foo"));
}

// ---------------------------------------------------------------------
// boolean_dnf
// ---------------------------------------------------------------------

// ---- DNF infrastructure ----

fn first_condition(spec: &SpecFile) -> Option<&Conditional> {
    spec.items.iter().find_map(|i| match i {
        Item::Conditional(c) => Some(c),
        _ => None,
    })
}

fn dnf_of(src: &str) -> Option<Dnf> {
    let spec = parse(&format!("Name: x\n%if {src}\nLicense: MIT\n%endif\n"));
    let item = first_condition(&spec)?;
    let CondExpr::Parsed(ast) = &item.branches[0].expr else {
        return None;
    };
    let mut atoms = AtomTable::new();
    let raw = to_dnf(ast, &mut atoms, false)?;
    let (simplified, _) = simplify_subsumption(&raw);
    Some(simplified)
}

#[test]
fn dnf_handles_simple_and() {
    let dnf = dnf_of("A && B").unwrap();
    assert_eq!(dnf.len(), 1, "{dnf:?}");
    assert_eq!(dnf.cubes[0].len(), 2);
}

#[test]
fn dnf_distributes_over_or() {
    let dnf = dnf_of("(A || B) && C").unwrap();
    assert_eq!(dnf.len(), 2, "{dnf:?}");
}

#[test]
fn dnf_subsumes_redundant_cube() {
    // (A && B) || (A && B && C) → after subsumption, just (A && B).
    let dnf = dnf_of("(A && B) || (A && B && C)").unwrap();
    assert_eq!(dnf.len(), 1, "{dnf:?}");
}

#[test]
fn dnf_recognises_contradiction() {
    let dnf = dnf_of("A && !A").unwrap();
    assert!(is_contradiction(&dnf), "{dnf:?}");
}

#[test]
fn dnf_recognises_tautology() {
    let dnf = dnf_of("A || !A").unwrap();
    assert_eq!(is_tautology(&dnf, 1), Some(true), "{dnf:?}");
}

#[test]
fn dnf_tautology_three_atoms() {
    // `A || (!A && B) || (!A && !B)` is a tautology.
    let dnf = dnf_of("A || (!A && B) || (!A && !B)").unwrap();
    assert_eq!(is_tautology(&dnf, 2), Some(true), "{dnf:?}");
}

#[test]
fn canonicalise_unmodelled_variant_returns_none() {
    let m = ExprAst::Macro {
        text: "%{?rhel}".to_owned(),
        data: Span {
            start_byte: 0,
            end_byte: 0,
            start_line: 0,
            start_column: 0,
            end_line: 0,
            end_column: 0,
        },
    };
    assert_eq!(canonicalise(&m), Some("%{?rhel}".to_owned()));
    let i = ExprAst::Integer {
        value: 7,
        data: Span {
            start_byte: 0,
            end_byte: 0,
            start_line: 0,
            start_column: 0,
            end_line: 0,
            end_column: 0,
        },
    };
    assert_eq!(canonicalise(&i), Some("7".to_owned()));
}

#[test]
fn dnf_bails_on_unsupported_grammar() {
    // Arithmetic `+` is no part of an expression, so the condition
    // stays raw text.
    let src = "Name: x\n%if 1 + 2 == 3\nLicense: MIT\n%endif\n";
    let spec = parse(src);
    let item = first_condition(&spec).unwrap();
    assert!(matches!(item.branches[0].expr, CondExpr::Raw(_)));
}

// ---- RPM110 ----

#[test]
fn rpm110_flags_subsumed_cube() {
    let src = "Name: x\n%if (A && B) || (A && B && C)\nLicense: MIT\n%endif\n";
    let diags = check(BooleanDnfRedundancy::new(), src);
    assert_eq!(diags.len(), 1, "{diags:?}");
    assert_eq!(diags[0].lint_id, "RPM110");
}

#[test]
fn rpm110_flags_duplicate_or_branch() {
    // `A || A` after normalisation is a single cube; the source
    // had two `||` operands → redundancy.
    let src = "Name: x\n%if A || A\nLicense: MIT\n%endif\n";
    let diags = check(BooleanDnfRedundancy::new(), src);
    assert_eq!(diags.len(), 1, "{diags:?}");
}

#[test]
fn rpm110_silent_for_minimal_expression() {
    let src = "Name: x\n%if A && B\nLicense: MIT\n%endif\n";
    assert!(check(BooleanDnfRedundancy::new(), src).is_empty());
}

#[test]
fn rpm110_silent_for_pure_atom() {
    // Single atom — no boolean structure to redundantize.
    let src = "Name: x\n%if A\nLicense: MIT\n%endif\n";
    assert!(check(BooleanDnfRedundancy::new(), src).is_empty());
}

// ---- RPM111 ----

#[test]
fn rpm111_flags_excluded_middle() {
    let src = "Name: x\n%if A || !A\nLicense: MIT\n%endif\n";
    let diags = check(BooleanTautologyByCubes::new(), src);
    assert_eq!(diags.len(), 1, "{diags:?}");
    assert_eq!(diags[0].lint_id, "RPM111");
}

#[test]
fn rpm111_flags_three_atom_tautology() {
    let src = "Name: x\n%if A || (!A && B) || (!A && !B)\nLicense: MIT\n%endif\n";
    let diags = check(BooleanTautologyByCubes::new(), src);
    assert_eq!(diags.len(), 1, "{diags:?}");
}

#[test]
fn rpm111_silent_for_satisfiable_non_tautology() {
    let src = "Name: x\n%if A && B\nLicense: MIT\n%endif\n";
    assert!(check(BooleanTautologyByCubes::new(), src).is_empty());
}

// ---- RPM112 ----

#[test]
fn rpm112_flags_a_and_not_a() {
    let src = "Name: x\n%if A && !A\nLicense: MIT\n%endif\n";
    let diags = check(BooleanContradictionByCubes::new(), src);
    assert_eq!(diags.len(), 1, "{diags:?}");
    assert_eq!(diags[0].lint_id, "RPM112");
}

#[test]
fn rpm112_flags_multi_atom_contradiction() {
    // (A && !B) && B → after distribute, every cube has A && !B && B → contradiction.
    let src = "Name: x\n%if (A && !B) && B\nLicense: MIT\n%endif\n";
    let diags = check(BooleanContradictionByCubes::new(), src);
    assert_eq!(diags.len(), 1, "{diags:?}");
}

#[test]
fn rpm112_silent_for_satisfiable() {
    let src = "Name: x\n%if A && B\nLicense: MIT\n%endif\n";
    assert!(check(BooleanContradictionByCubes::new(), src).is_empty());
}

// ---------------------------------------------------------------------
// branch_item_subset
// ---------------------------------------------------------------------

#[test]
fn flags_branch_subset_of_else() {
    // %if branch has {foo}; %else has {foo, bar}. {foo} ⊂ {foo, bar}.
    let src = "Name: x\n\
%package devel\n\
Summary: dev\n\
%if A\n\
Requires: foo\n\
%else\n\
Requires: foo\n\
Requires: bar\n\
%endif\n\
%description devel\nbody\n";
    let diags = check(BranchItemSubset::new().with_source(src), src);
    assert_eq!(diags.len(), 1, "{diags:?}");
    assert_eq!(diags[0].lint_id, "RPM456");
}

#[test]
fn flags_branch_subset_of_other_branch() {
    let src = "Name: x\n\
%package devel\n\
Summary: dev\n\
%if A\n\
Requires: foo\n\
Requires: bar\n\
Requires: baz\n\
%elif B\n\
Requires: foo\n\
Requires: bar\n\
%endif\n\
%description devel\nbody\n";
    let diags = check(BranchItemSubset::new().with_source(src), src);
    assert_eq!(diags.len(), 1, "{diags:?}");
}

#[test]
fn silent_for_independent_branches() {
    let src = "Name: x\n\
%package devel\n\
Summary: dev\n\
%if A\nRequires: foo\n%else\nRequires: bar\n%endif\n\
%description devel\nbody\n";
    assert!(check(BranchItemSubset::new().with_source(src), src).is_empty());
}

#[test]
fn silent_for_equal_sets() {
    // Identical sets — not a STRICT subset. RPM074 covers this.
    let src = "Name: x\n\
%package devel\n\
Summary: dev\n\
%if A\nRequires: foo\n%else\nRequires: foo\n%endif\n\
%description devel\nbody\n";
    assert!(check(BranchItemSubset::new().with_source(src), src).is_empty());
}

#[test]
fn silent_for_single_branch() {
    let src = "Name: x\n\
%package devel\n\
Summary: dev\n\
%if A\nRequires: foo\n%endif\n\
%description devel\nbody\n";
    assert!(check(BranchItemSubset::new().with_source(src), src).is_empty());
}

// ---------------------------------------------------------------------
// build_tool_brs
// ---------------------------------------------------------------------

fn run_build_tool_brs(src: &str) -> Vec<Diagnostic> {
    let mut lint = BuildToolUsedWithoutBuildRequires::new();
    lint.set_profile(&family(Some(Family::Fedora)));
    check(lint, src)
}

#[test]
fn flags_cmake_without_br() {
    let src = "Name: x\n%build\ncmake .\n";
    let diags = run_build_tool_brs(src);
    assert_eq!(diags.len(), 1, "{diags:?}");
    assert_eq!(diags[0].lint_id, "RPM324");
    assert!(diags[0].message.contains("cmake"));
}

#[test]
fn silent_with_buildrequires() {
    let src = "Name: x\nBuildRequires: cmake\n%build\ncmake .\n";
    assert!(run_build_tool_brs(src).is_empty());
}

#[test]
fn flags_meson_in_install() {
    let src = "Name: x\n%install\nmeson install\n";
    assert_eq!(run_build_tool_brs(src).len(), 1);
}

#[test]
fn silent_for_known_runtime_command() {
    let src = "Name: x\n%build\nls -la\n";
    assert!(run_build_tool_brs(src).is_empty());
}

#[test]
fn build_tool_brs_deduplicates_repeated_calls() {
    // `cmake` used three times in different sections — one diag.
    let src =
        "Name: x\n%build\ncmake .\ncmake --build .\n%check\ncmake --build . --target test\n";
    assert_eq!(run_build_tool_brs(src).len(), 1);
}

#[test]
fn flags_pkgconfig_call() {
    let src = "Name: x\n%build\npkg-config --cflags openssl\n";
    let diags = run_build_tool_brs(src);
    assert_eq!(diags.len(), 1);
    assert!(diags[0].message.contains("pkgconfig"));
}

#[test]
fn silent_in_scriptlet() {
    // Scriptlet calls are RPM328's territory, not RPM324.
    let src = "Name: x\n%post\ncmake --version\nexit 0\n";
    assert!(run_build_tool_brs(src).is_empty());
}

#[test]
fn silent_with_rich_buildrequires() {
    // `(cmake if 0%{?fedora})` — the rich dep walker should still
    // see `cmake` as declared.
    let src =
        "Name: x\nBuildRequires: (cmake if 0%{?fedora}) and ninja-build\n%build\ncmake .\n";
    assert!(run_build_tool_brs(src).is_empty(), "rich BR should silence the rule");
}

#[test]
fn silent_when_br_inside_conditional() {
    // `BuildRequires:` inside `%if`/%endif still counts.
    let src = "Name: x\n%if 0%{?fedora}\nBuildRequires: cmake\n%endif\n%build\ncmake .\n";
    assert!(run_build_tool_brs(src).is_empty());
}

#[test]
fn macro_named_br_is_silently_dropped() {
    // `%{cmake_pkg}` can't be resolved literally, so the helper
    // skips it — and the rule will then fire because `cmake` isn't
    // in the declared set. Documents intentional behaviour: the
    // rule prefers a false positive over a false negative when the
    // BR name is opaque.
    let src = "Name: x\nBuildRequires: %{cmake_pkg}\n%build\ncmake .\n";
    let diags = run_build_tool_brs(src);
    assert_eq!(diags.len(), 1, "macro-named BR is conservatively dropped");
}

// ---------------------------------------------------------------------
// buildarch_reparse
// ---------------------------------------------------------------------

#[test]
fn flags_shell_macro_before_buildarch() {
    let src = "Name: x\n\
%global builddate %(date +%%Y%%m%%d)\n\
Version: 1\n\
BuildArch: noarch\n";
    let diags = check(BuildarchReparseHazard::new(), src);
    assert_eq!(diags.len(), 1, "{diags:?}");
    assert_eq!(diags[0].lint_id, "RPM309");
    assert!(diags[0].message.contains("builddate"));
}

#[test]
fn flags_lua_macro_before_buildarch() {
    let src = "Name: x\n\
%global counter %{lua:print(os.time())}\n\
BuildArch: noarch\n";
    let diags = check(BuildarchReparseHazard::new(), src);
    assert_eq!(diags.len(), 1);
    assert!(diags[0].message.contains("counter"));
}

#[test]
fn silent_when_macro_appears_after_buildarch() {
    let src = "Name: x\n\
BuildArch: noarch\n\
%global builddate %(date +%%Y%%m%%d)\n";
    assert!(check(BuildarchReparseHazard::new(), src).is_empty());
}

#[test]
fn silent_for_pure_macro_before_buildarch() {
    let src = "Name: x\n\
%global counter 42\n\
BuildArch: noarch\n";
    assert!(check(BuildarchReparseHazard::new(), src).is_empty());
}

#[test]
fn silent_when_buildarch_absent() {
    // No BuildArch ⇒ no reparse hazard.
    let src = "Name: x\n%global builddate %(date)\nVersion: 1\n";
    assert!(check(BuildarchReparseHazard::new(), src).is_empty());
}

#[test]
fn flags_define_with_shell_expansion() {
    let src = "Name: x\n\
%define ts %(date +%%s)\n\
BuildArch: noarch\n";
    let diags = check(BuildarchReparseHazard::new(), src);
    assert_eq!(diags.len(), 1);
}

// ---------------------------------------------------------------------
// buildsystem_macros
// ---------------------------------------------------------------------

fn profile_with(macros: &[&str]) -> Profile {
    let mut p = Profile::default();
    p.macros = macros.iter().map(|m| (*m).to_string()).collect();
    p
}

fn run_with_buildsystem_macros(src: &str, profile: &Profile) -> Vec<Diagnostic> {
    let spec = parse(src);
    let mut lint = BuildsystemMacroModernization::new();
    lint.set_profile(profile);
    lint.visit_spec(&spec);
    lint.take_diagnostics()
}

#[test]
fn flags_bare_cmake_when_macro_available() {
    let src = "Name: x\n%build\ncmake .\n";
    let diags = run_with_buildsystem_macros(src, &profile_with(&["cmake"]));
    assert_eq!(diags.len(), 1, "{diags:?}");
    assert_eq!(diags[0].lint_id, "RPM390");
    assert!(diags[0].message.contains("%cmake"));
}

#[test]
fn flags_cmake_build() {
    let src = "Name: x\n%build\ncmake --build build\n";
    let diags = run_with_buildsystem_macros(src, &profile_with(&["cmake_build"]));
    assert_eq!(diags.len(), 1);
    assert!(diags[0].message.contains("%cmake_build"));
}

#[test]
fn flags_cmake_install() {
    let src = "Name: x\n%install\ncmake --install build\n";
    let diags = run_with_buildsystem_macros(src, &profile_with(&["cmake_install"]));
    assert_eq!(diags.len(), 1);
    assert!(diags[0].message.contains("%cmake_install"));
}

#[test]
fn flags_meson_setup() {
    let src = "Name: x\n%build\nmeson setup builddir\n";
    let diags = run_with_buildsystem_macros(src, &profile_with(&["meson"]));
    assert_eq!(diags.len(), 1);
    assert!(diags[0].message.contains("%meson"));
}

#[test]
fn flags_cargo_build() {
    let src = "Name: x\n%build\ncargo build --release\n";
    let diags = run_with_buildsystem_macros(src, &profile_with(&["cargo_build"]));
    assert_eq!(diags.len(), 1);
}

#[test]
fn flags_python_setup_py_build() {
    let src = "Name: x\n%build\npython3 setup.py build\n";
    let diags = run_with_buildsystem_macros(src, &profile_with(&["py3_build"]));
    assert_eq!(diags.len(), 1);
    assert!(diags[0].message.contains("%py3_build"));
}

#[test]
fn flags_python_m_build() {
    let src = "Name: x\n%build\npython3 -m build --wheel\n";
    let diags = run_with_buildsystem_macros(src, &profile_with(&["pyproject_wheel"]));
    assert_eq!(diags.len(), 1);
}

#[test]
fn flags_go_build() {
    let src = "Name: x\n%build\ngo build ./cmd/foo\n";
    let diags = run_with_buildsystem_macros(src, &profile_with(&["gobuild"]));
    assert_eq!(diags.len(), 1);
}

#[test]
fn silent_when_macro_unavailable() {
    // Profile has no `cmake` macro → no suggestion.
    let src = "Name: x\n%build\ncmake .\n";
    assert!(run_with_buildsystem_macros(src, &Profile::default()).is_empty());
}

#[test]
fn silent_for_unrelated_command() {
    let src = "Name: x\n%build\nmake\n";
    let diags = run_with_buildsystem_macros(src, &profile_with(&["cmake", "meson"]));
    assert!(diags.is_empty());
}

#[test]
fn silent_in_check_section() {
    // Rule scoped to %build/%install. `meson test` is correct in %check.
    let src = "Name: x\n%check\nmeson test\n";
    assert!(run_with_buildsystem_macros(src, &profile_with(&["meson"])).is_empty());
}

#[test]
fn buildsystem_macros_deduplicates_repeated_calls() {
    let src = "Name: x\n%build\ncmake .\ncmake .\n";
    let diags = run_with_buildsystem_macros(src, &profile_with(&["cmake"]));
    assert_eq!(diags.len(), 1);
}

// ---------------------------------------------------------------------
// canonical_major_section_order
// ---------------------------------------------------------------------

#[test]
fn flags_files_before_install() {
    let src = "Name: x\n%files\n%{_bindir}/foo\n%install\nmkdir -p target\n";
    let diags = check(CanonicalMajorSectionOrder::new(), src);
    assert_eq!(diags.len(), 1, "{diags:?}");
    assert_eq!(diags[0].lint_id, "RPM573");
}

#[test]
fn flags_check_after_files() {
    let src = "Name: x\n%install\necho i\n%files\n%{_bindir}/foo\n%check\nmake test\n";
    let diags = check(CanonicalMajorSectionOrder::new(), src);
    assert_eq!(diags.len(), 1);
}

#[test]
fn silent_for_canonical_order() {
    let src = "Name: x\n\
%description\nx\n\
%prep\necho p\n\
%build\necho b\n\
%install\necho i\n\
%check\necho c\n\
%files\n%{_bindir}/foo\n\
%changelog\n* Mon Jan 01 2024 me 1-1\n- init\n";
    assert!(check(CanonicalMajorSectionOrder::new(), src).is_empty());
}

// ---------------------------------------------------------------------
// changelog_health
// ---------------------------------------------------------------------

// ----- RPM037 -----

#[test]
fn empty_flags_blank_body() {
    let src = "Name: x\n%changelog\n* Mon Jan 01 2024 a <a@b> - 1-1\n\n";
    let diags = check(EmptyChangelogEntry::new(), src);
    assert_eq!(diags.len(), 1);
    assert_eq!(diags[0].lint_id, "RPM037");
}

#[test]
fn empty_silent_for_real_body() {
    let src = "Name: x\n%changelog\n* Mon Jan 01 2024 a <a@b> - 1-1\n- something\n";
    assert!(check(EmptyChangelogEntry::new(), src).is_empty());
}

// ----- RPM038 -----

#[test]
fn future_flags_year_3000() {
    let src = "Name: x\n%changelog\n* Mon Jan 01 3000 a <a@b> - 1-1\n- init\n";
    let diags = check(ChangelogFutureDate::new(), src);
    assert_eq!(diags.len(), 1);
    assert_eq!(diags[0].lint_id, "RPM038");
}

#[test]
fn future_silent_for_past_year() {
    let src = "Name: x\n%changelog\n* Mon Jan 01 2020 a <a@b> - 1-1\n- init\n";
    assert!(check(ChangelogFutureDate::new(), src).is_empty());
}

// ----- RPM039 -----

#[test]
fn implausible_flags_old_year() {
    let src = "Name: x\n%changelog\n* Mon Jan 01 1500 a <a@b> - 1-1\n- init\n";
    let diags = check(ChangelogImplausibleDate::new(), src);
    assert_eq!(diags.len(), 1);
    assert_eq!(diags[0].lint_id, "RPM039");
    assert!(diags[0].message.contains("1500"));
}

#[test]
fn implausible_silent_for_normal_date() {
    let src = "Name: x\n%changelog\n* Mon Jan 15 2024 a <a@b> - 1-1\n- init\n";
    assert!(check(ChangelogImplausibleDate::new(), src).is_empty());
}

#[test]
fn current_year_is_reasonable() {
    // The clock gives a recent year.
    let y = ChangelogFutureDate::new().today.year;
    assert!(
        (2020..=2100).contains(&y),
        "the current year is {y}, system clock looks broken"
    );
}

// ----- RPM311 -----

#[test]
fn rpm311_flags_out_of_order_entries() {
    // First entry dated 2024-01-01, second dated 2024-06-01 —
    // newer than the first, so the changelog isn't newest-first.
    // 2024-01-01 was a Monday; 2024-06-01 a Saturday.
    let src = "Name: x\nVersion: 1\nRelease: 1\n%changelog\n\
* Mon Jan 01 2024 a <a@b> - 1-1\n- old\n\
* Sat Jun 01 2024 b <b@b> - 1-2\n- newer than the previous entry\n";
    let diags = check(ChangelogOrderWeekdayEvr::new(), src);
    assert!(
        diags.iter().any(|d| d.message.contains("newer than")),
        "{diags:?}"
    );
}

#[test]
fn rpm311_flags_weekday_mismatch() {
    // 2024-01-01 is Monday, not Tuesday.
    let src = "Name: x\nVersion: 1\nRelease: 1\n%changelog\n\
* Tue Jan 01 2024 a <a@b> - 1-1\n- bad weekday\n";
    let diags = check(ChangelogOrderWeekdayEvr::new(), src);
    assert!(
        diags.iter().any(|d| d.message.contains("weekday")),
        "{diags:?}"
    );
}

#[test]
fn rpm311_flags_evr_mismatch_against_spec() {
    // Spec says 1.2-3 but changelog says 1.1-1.
    let src = "Name: x\nVersion: 1.2\nRelease: 3\n%changelog\n\
* Mon Jan 01 2024 a <a@b> - 1.1-1\n- stale evr\n";
    let diags = check(ChangelogOrderWeekdayEvr::new(), src);
    assert!(diags.iter().any(|d| d.message.contains("spec is")));
}

#[test]
fn rpm311_silent_on_clean_changelog() {
    // 2024-01-01 = Monday, EVR matches.
    let src = "Name: x\nVersion: 1\nRelease: 1\n%changelog\n\
* Mon Jan 01 2024 a <a@b> - 1-1\n- init\n";
    assert!(check(ChangelogOrderWeekdayEvr::new(), src).is_empty());
}

#[test]
fn rpm311_handles_release_with_dist_macro() {
    // Release: 1%{?dist} → literal prefix is `1`. Changelog has 1-1.
    let src = "Name: x\nVersion: 1\nRelease: 1%{?dist}\n%changelog\n\
* Mon Jan 01 2024 a <a@b> - 1-1\n- init\n";
    assert!(check(ChangelogOrderWeekdayEvr::new(), src).is_empty());
}

#[test]
fn rpm311_silent_when_no_changelog_section() {
    let src = "Name: x\nVersion: 1\nRelease: 1\n";
    assert!(check(ChangelogOrderWeekdayEvr::new(), src).is_empty());
}

// ---------------------------------------------------------------------
// combine_install_dirs
// ---------------------------------------------------------------------

#[test]
fn flags_adjacent_install_d() {
    let src = "Name: x\n%install\ninstall -d a\ninstall -d b\n";
    let diags = check(CombineInstallDirs::new(), src);
    assert_eq!(diags.len(), 1, "{diags:?}");
    assert_eq!(diags[0].lint_id, "RPM532");
}

#[test]
fn flags_adjacent_mkdir_p() {
    let src = "Name: x\n%install\nmkdir -p a\nmkdir -p b\n";
    let diags = check(CombineInstallDirs::new(), src);
    assert_eq!(diags.len(), 1);
}

#[test]
fn silent_for_mixed_install_and_mkdir() {
    // Different kinds — don't combine.
    let src = "Name: x\n%install\ninstall -d a\nmkdir -p b\n";
    assert!(check(CombineInstallDirs::new(), src).is_empty());
}

#[test]
fn silent_for_separated() {
    let src = "Name: x\n%install\ninstall -d a\necho hi\ninstall -d b\n";
    assert!(check(CombineInstallDirs::new(), src).is_empty());
}

// ---------------------------------------------------------------------
// commented_out_spec_code
// ---------------------------------------------------------------------

#[test]
fn flags_three_consecutive_commented_lines() {
    let src = "Name: x\n\
#BuildRequires: foo\n\
#BuildRequires: bar\n\
#%patch0 -p1\n\
Version: 1\n";
    let diags = check(CommentedOutSpecCode::new().with_source(src), src);
    assert_eq!(diags.len(), 1, "{diags:?}");
    assert_eq!(diags[0].lint_id, "RPM570");
}

#[test]
fn silent_for_short_run() {
    let src = "Name: x\n#BuildRequires: foo\n#BuildRequires: bar\nVersion: 1\n";
    assert!(check(CommentedOutSpecCode::new().with_source(src), src).is_empty());
}

#[test]
fn silent_for_normal_comments() {
    let src = "Name: x\n\
# This explains a workaround.\n\
# Continued explanation.\n\
# Final line.\n\
Version: 1\n";
    assert!(check(CommentedOutSpecCode::new().with_source(src), src).is_empty());
}

#[test]
fn correct_span_under_crlf_input() {
    // CRLF input must produce a span whose `start_byte` lands on
    // the actual byte offset of the first commented-out line in
    // the source — not be shifted by the number of preceding
    // `\r\n` pairs.
    let src = "Name: x\r\n\
#BuildRequires: foo\r\n\
#BuildRequires: bar\r\n\
#%patch0 -p1\r\n\
Version: 1\r\n";
    let diags = check(CommentedOutSpecCode::new().with_source(src), src);
    assert_eq!(diags.len(), 1, "{diags:?}");
    let span = diags[0].primary_span;
    let expected_start = src
        .find("#BuildRequires: foo")
        .expect("comment block present");
    assert_eq!(
        span.start_byte, expected_start,
        "span.start_byte drifted under CRLF: got {} expected {}",
        span.start_byte, expected_start
    );
    // Span must end just before `Version:` (i.e. at the line_start
    // of the non-matching line).
    let expected_end = src.find("Version: 1").expect("Version line present");
    assert_eq!(
        span.end_byte, expected_end,
        "span.end_byte drifted under CRLF: got {} expected {}",
        span.end_byte, expected_end
    );
}

// ---------------------------------------------------------------------
// complementary_guards_same_item
// ---------------------------------------------------------------------

#[test]
fn flags_a_and_not_a_pair() {
    let src = "Name: x\n\
%if A\n\
BuildRequires: foo\n\
%endif\n\
%if !A\n\
BuildRequires: foo\n\
%endif\n";
    let diags = check(ComplementaryGuardsSameItem::new(), src);
    // Two occurrences, both diagnosed.
    assert_eq!(diags.len(), 2, "{diags:?}");
    assert!(diags.iter().all(|d| d.lint_id == "RPM452"));
}

#[test]
fn silent_for_non_covering_pair() {
    // A and B don't cover ⊤ (both can be false simultaneously).
    let src = "Name: x\n\
%if A\n\
BuildRequires: foo\n\
%endif\n\
%if B\n\
BuildRequires: foo\n\
%endif\n";
    assert!(check(ComplementaryGuardsSameItem::new(), src).is_empty());
}

#[test]
fn silent_for_overlapping_but_not_total_pair() {
    // A and A&&B → union = A, not ⊤.
    let src = "Name: x\n\
%if A\n\
BuildRequires: foo\n\
%endif\n\
%if A && B\n\
BuildRequires: foo\n\
%endif\n";
    assert!(check(ComplementaryGuardsSameItem::new(), src).is_empty());
}

#[test]
fn silent_for_single_occurrence() {
    let src = "Name: x\n%if A\nBuildRequires: foo\n%endif\n";
    assert!(check(ComplementaryGuardsSameItem::new(), src).is_empty());
}

#[test]
fn fires_in_subpackage() {
    let src = "Name: x\n\
%package devel\n\
Summary: devel\n\
%if A\nRequires: foo\n%endif\n\
%if !A\nRequires: foo\n%endif\n\
%description devel\nbody\n";
    let diags = check(ComplementaryGuardsSameItem::new(), src);
    assert_eq!(diags.len(), 2, "{diags:?}");
}

// ---------------------------------------------------------------------
// condition_common_disjunct_factor
// ---------------------------------------------------------------------

#[test]
fn flags_two_clause_common_disjunct() {
    let src = "Name: x\n%if (A || B) && (A || C)\nLicense: MIT\n%endif\n";
    let diags = check(ConditionCommonDisjunctFactor::new(), src);
    assert_eq!(diags.len(), 1, "{diags:?}");
    assert_eq!(diags[0].lint_id, "RPM433");
}

#[test]
fn flags_three_clause_common_disjunct() {
    let src = "Name: x\n%if (A || B) && (A || C) && (A || D)\nLicense: MIT\n%endif\n";
    let diags = check(ConditionCommonDisjunctFactor::new(), src);
    assert_eq!(diags.len(), 1);
}

#[test]
fn silent_for_no_common_disjunct() {
    let src = "Name: x\n%if (A || B) && (C || D)\nLicense: MIT\n%endif\n";
    assert!(check(ConditionCommonDisjunctFactor::new(), src).is_empty());
}

#[test]
fn silent_for_pure_and_chain() {
    // No `||` at all — nothing to factor.
    let src = "Name: x\n%if A && B && C\nLicense: MIT\n%endif\n";
    assert!(check(ConditionCommonDisjunctFactor::new(), src).is_empty());
}

#[test]
fn silent_for_pure_or_chain() {
    let src = "Name: x\n%if A || B || C\nLicense: MIT\n%endif\n";
    assert!(check(ConditionCommonDisjunctFactor::new(), src).is_empty());
}

#[test]
fn silent_when_one_clause_is_a_singleton() {
    // `A && (B || C)` — top-level has one disjunct (`A`) and one
    // `||`-chain. No factoring opportunity at this shape.
    let src = "Name: x\n%if A && (B || C)\nLicense: MIT\n%endif\n";
    assert!(check(ConditionCommonDisjunctFactor::new(), src).is_empty());
}

// ---------------------------------------------------------------------
// condition_common_factor
// ---------------------------------------------------------------------

#[test]
fn flags_two_cube_common_factor() {
    let src = "Name: x\n%if (A && B) || (A && C)\nLicense: MIT\n%endif\n";
    let diags = check(ConditionCommonFactor::new(), src);
    assert_eq!(diags.len(), 1, "{diags:?}");
    assert_eq!(diags[0].lint_id, "RPM432");
}

#[test]
fn flags_three_cube_common_factor() {
    let src = "Name: x\n%if (A && B) || (A && C) || (A && D)\nLicense: MIT\n%endif\n";
    let diags = check(ConditionCommonFactor::new(), src);
    assert_eq!(diags.len(), 1, "{diags:?}");
}

#[test]
fn silent_for_single_cube() {
    let src = "Name: x\n%if A && B && C\nLicense: MIT\n%endif\n";
    assert!(check(ConditionCommonFactor::new(), src).is_empty());
}

#[test]
fn silent_for_no_common_factor() {
    let src = "Name: x\n%if (A && B) || (C && D)\nLicense: MIT\n%endif\n";
    assert!(check(ConditionCommonFactor::new(), src).is_empty());
}

#[test]
fn silent_when_subsumption_already_collapsed() {
    // `(A && B) || (A && B && C)` simplifies via subsumption to
    // `A && B`. After subsumption, only one cube remains — RPM432
    // bows out (RPM110 already fires here).
    let src = "Name: x\n%if (A && B) || (A && B && C)\nLicense: MIT\n%endif\n";
    assert!(check(ConditionCommonFactor::new(), src).is_empty());
}

#[test]
fn fires_with_negated_common_factor() {
    let src = "Name: x\n%if (!A && B) || (!A && C)\nLicense: MIT\n%endif\n";
    let diags = check(ConditionCommonFactor::new(), src);
    assert_eq!(diags.len(), 1, "{diags:?}");
}

#[test]
fn silent_when_one_cube_is_just_the_factor() {
    // `A || (A && B)` — first cube IS the factor, so subsumption
    // collapses it to `A` (handled by RPM101/RPM110).
    let src = "Name: x\n%if A || (A && B)\nLicense: MIT\n%endif\n";
    assert!(check(ConditionCommonFactor::new(), src).is_empty());
}

// ---------------------------------------------------------------------
// conditional_factoring
// ---------------------------------------------------------------------

#[test]
fn rpm093_flags_repeated_condition() {
    // 5 identical `%if 0%{?rhel} >= 8` blocks → at threshold (>=5).
    // Use a composite comparison so the trivial-condition filter
    // does not suppress the diagnostic.
    //
    // We emit exactly ONE diagnostic for the repeated condition
    // (anchored at the first occurrence, with the count baked into
    // the message and the other sites attached as labels). Emitting
    // N identical warnings would drown the user in noise on real
    // specs where the same condition can repeat 80+ times.
    let mut src = String::from("Name: x\n");
    for _ in 0..5 {
        src.push_str("%if 0%{?rhel} >= 8\nLicense: MIT\n%endif\n");
    }
    let diags = check(ConditionMentionedManyTimes::new(), &src);
    assert_eq!(
        diags.len(),
        1,
        "expected exactly one aggregated diag: {diags:?}"
    );
    assert_eq!(diags[0].lint_id, "RPM093");
    // Message should reflect the threshold-exceeding count.
    assert!(
        diags[0].message.contains("5 times"),
        "message should mention occurrence count: {}",
        diags[0].message
    );
}

#[test]
fn rpm093_silent_below_threshold() {
    let mut src = String::from("Name: x\n");
    for _ in 0..4 {
        src.push_str("%if 0%{?rhel} >= 8\nLicense: MIT\n%endif\n");
    }
    assert!(check(ConditionMentionedManyTimes::new(), &src).is_empty());
}

#[test]
fn rpm093_distinct_conditions_dont_aggregate() {
    let src = "Name: x\n\
               %if 0%{?rhel} >= 8\nLicense: MIT\n%endif\n\
               %if 0%{?fedora} >= 35\nLicense: MIT\n%endif\n";
    assert!(check(ConditionMentionedManyTimes::new(), src).is_empty());
}

#[test]
fn rpm093_silent_for_trivial_single_macro_reference() {
    // `%if %{build_libatomic}` is the canonical flag-usage form
    // already — "factor into a %global flag" would be a no-op and
    // is misleading noise.
    let mut src = String::from("Name: x\n");
    for _ in 0..6 {
        src.push_str(
            "%if %{build_libatomic}\n\
             Requires: libatomic\n\
             %endif\n",
        );
    }
    assert!(
        check(ConditionMentionedManyTimes::new(), &src).is_empty(),
        "trivial single-macro condition must not trigger RPM093"
    );
}

#[test]
fn rpm093_silent_for_negated_single_macro() {
    // `%if !%{X}` is still single-token-shaped after stripping the
    // unary `!`; the `%global` advice doesn't apply.
    let mut src = String::from("Name: x\n");
    for _ in 0..6 {
        src.push_str("%if !%{X}\nLicense: MIT\n%endif\n");
    }
    assert!(check(ConditionMentionedManyTimes::new(), &src).is_empty());
}

#[test]
fn rpm093_fires_for_composite_expression_with_macro() {
    // `%{?rhel} >= 8` has structure — a comparison against a
    // literal — which IS worth lifting into a named flag.
    let mut src = String::from("Name: x\n");
    for _ in 0..5 {
        src.push_str("%if %{?rhel} >= 8\nLicense: MIT\n%endif\n");
    }
    let diags = check(ConditionMentionedManyTimes::new(), &src);
    assert!(!diags.is_empty(), "composite expression should still fire");
}

#[test]
fn emits_single_diagnostic_for_n_occurrences() {
    // An `%if` repeated far above the threshold must collapse into ONE diagnostic
    // with the count baked in, not N identical warnings.
    let mut src = String::from("Name: x\n");
    for _ in 0..12 {
        src.push_str("%if 0%{?rhel} >= 8\nLicense: MIT\n%endif\n");
    }
    let diags = check(ConditionMentionedManyTimes::new(), &src);
    assert_eq!(
        diags.len(),
        1,
        "12 occurrences must collapse to one diagnostic: {diags:?}"
    );
    assert!(
        diags[0].message.contains("12 times"),
        "message should report aggregated count: {}",
        diags[0].message
    );
}

// ---------------------------------------------------------------------
// conditional_hoist
// ---------------------------------------------------------------------

// ---- RPM097 prefix ----

#[test]
fn rpm097_flags_common_buildrequires_prefix() {
    let src = "Name: x\n%if A\n\
               BuildRequires: common\n\
               BuildRequires: a-specific\n\
               %else\n\
               BuildRequires: common\n\
               BuildRequires: b-specific\n\
               %endif\n";
    let diags = check(HoistCommonPrefix::new().with_source(src), src);
    assert_eq!(diags.len(), 1, "{diags:?}");
    assert_eq!(diags[0].lint_id, "RPM097");
}

#[test]
fn rpm097_silent_when_branches_differ_from_start() {
    let src = "Name: x\n%if A\n\
               BuildRequires: a\n\
               %else\n\
               BuildRequires: b\n\
               %endif\n";
    assert!(check(HoistCommonPrefix::new().with_source(src), src).is_empty());
}

#[test]
fn rpm097_silent_when_no_else() {
    // Single branch — nothing to hoist against.
    let src = "Name: x\n%if A\nBuildRequires: common\n%endif\n";
    assert!(check(HoistCommonPrefix::new().with_source(src), src).is_empty());
}

#[test]
fn rpm097_silent_when_hoist_would_empty_branch() {
    // Identical bodies — RPM074 (identical branches) would
    // already trigger; this rule stays silent so we don't
    // double-report.
    let src = "Name: x\n%if A\n\
               BuildRequires: common\n\
               %else\n\
               BuildRequires: common\n\
               %endif\n";
    assert!(check(HoistCommonPrefix::new().with_source(src), src).is_empty());
}

// ---- RPM098 suffix ----

#[test]
fn rpm098_flags_common_suffix() {
    let src = "Name: x\n%if A\n\
               BuildRequires: a-specific\n\
               BuildRequires: common\n\
               %else\n\
               BuildRequires: b-specific\n\
               BuildRequires: common\n\
               %endif\n";
    let diags = check(HoistCommonSuffix::new().with_source(src), src);
    assert_eq!(diags.len(), 1, "{diags:?}");
    assert_eq!(diags[0].lint_id, "RPM098");
}

#[test]
fn rpm098_silent_when_no_common_suffix() {
    let src = "Name: x\n%if A\n\
               BuildRequires: common\n\
               BuildRequires: a\n\
               %else\n\
               BuildRequires: common\n\
               BuildRequires: b\n\
               %endif\n";
    assert!(check(HoistCommonSuffix::new().with_source(src), src).is_empty());
}

// ---------------------------------------------------------------------
// conditional_idioms
// ---------------------------------------------------------------------

// ---- RPM095 ----

#[test]
fn rpm095_flags_with_python() {
    let src = "Name: x\n%if 0%{?with_python}\nBuildRequires: python3-devel\n%endif\n";
    let diags = check(PreferBcondForBuildOptions::new(), src);
    assert_eq!(diags.len(), 1, "{diags:?}");
    assert_eq!(diags[0].lint_id, "RPM095");
    assert!(diags[0].message.contains("with_python"));
}

#[test]
fn rpm095_silent_for_other_macros() {
    let src = "Name: x\n%if 0%{?rhel}\nBuildRequires: python3-devel\n%endif\n";
    assert!(check(PreferBcondForBuildOptions::new(), src).is_empty());
}

// ---- RPM096 ----

#[test]
fn rpm096_flags_br_only_block() {
    let src = "Name: x\n%if 1\nBuildRequires: foo\nBuildRequires: bar\n%endif\n";
    let diags = check(IfOnlyBuildRequires::new(), src);
    assert_eq!(diags.len(), 1, "{diags:?}");
    assert_eq!(diags[0].lint_id, "RPM096");
}

#[test]
fn rpm096_silent_when_mixed_content() {
    let src = "Name: x\n%if 1\nBuildRequires: foo\nVersion: 2\n%endif\n";
    assert!(check(IfOnlyBuildRequires::new(), src).is_empty());
}

// ---- RPM106 conditional-buildarch ----

#[test]
fn rpm106_flags_buildarch_inside_if() {
    let src = "Name: x\n%if 1\nBuildArch: noarch\n%endif\n";
    let diags = check(ConditionalBuildArch::new(), src);
    assert_eq!(diags.len(), 1, "{diags:?}");
    assert_eq!(diags[0].lint_id, "RPM106");
}

#[test]
fn rpm106_silent_when_buildarch_outside() {
    let src = "Name: x\nBuildArch: noarch\n%if 1\nVersion: 2\n%endif\n";
    assert!(check(ConditionalBuildArch::new(), src).is_empty());
}

// ---- RPM107 conditional-name-tag ----

#[test]
fn rpm107_flags_name_inside_if() {
    // The outer `Name: x` is preamble; inside the `%if` we have
    // a second `Name:` definition — the rule fires on it.
    let src = "Name: x\n%if 1\nName: y\n%endif\n";
    let diags = check(ConditionalNameTag::new(), src);
    assert_eq!(diags.len(), 1, "{diags:?}");
    assert_eq!(diags[0].lint_id, "RPM107");
}

#[test]
fn rpm107_silent_when_name_outside() {
    let src = "Name: x\n%if 1\nLicense: MIT\n%endif\n";
    assert!(check(ConditionalNameTag::new(), src).is_empty());
}

// ---------------------------------------------------------------------
// conditional_intervals
// ---------------------------------------------------------------------

// ---- RPM102 inequality-redundancy ----

#[test]
fn rpm102_flags_two_ge_same_lhs() {
    let src = "Name: x\n%if %{?rhel} >= 8 && %{?rhel} >= 6\nLicense: MIT\n%endif\n";
    let diags = check(InequalityRedundancy::new(), src);
    assert_eq!(diags.len(), 1, "{diags:?}");
    assert_eq!(diags[0].lint_id, "RPM102");
}

#[test]
fn rpm102_flags_two_le_same_lhs() {
    let src = "Name: x\n%if X <= 5 && X <= 10\nLicense: MIT\n%endif\n";
    let diags = check(InequalityRedundancy::new(), src);
    assert_eq!(diags.len(), 1, "{diags:?}");
}

#[test]
fn rpm102_silent_for_different_lhs() {
    let src = "Name: x\n%if X >= 8 && Y >= 6\nLicense: MIT\n%endif\n";
    assert!(check(InequalityRedundancy::new(), src).is_empty());
}

#[test]
fn rpm102_silent_for_cross_direction() {
    // `X >= 5 && X <= 10` is a real range, not a redundancy.
    let src = "Name: x\n%if X >= 5 && X <= 10\nLicense: MIT\n%endif\n";
    assert!(check(InequalityRedundancy::new(), src).is_empty());
}

#[test]
fn rpm102_silent_for_or_chain() {
    // Only top-level `&&` chains are compared.
    let src = "Name: x\n%if X >= 8 || X >= 6\nLicense: MIT\n%endif\n";
    assert!(check(InequalityRedundancy::new(), src).is_empty());
}

// ---- RPM103 inequality-contradiction ----

#[test]
fn rpm103_flags_empty_intersection() {
    let src = "Name: x\n%if X >= 10 && X < 5\nLicense: MIT\n%endif\n";
    let diags = check(InequalityContradiction::new(), src);
    assert_eq!(diags.len(), 1, "{diags:?}");
    assert_eq!(diags[0].lint_id, "RPM103");
}

#[test]
fn rpm103_flags_boundary_contradiction() {
    // `X > 5 && X < 6` — only integer 5 would satisfy `> 5`, but
    // `< 6` excludes 6, so satisfiable. Whereas `X > 6 && X < 6`
    // is empty.
    let src = "Name: x\n%if X > 6 && X < 6\nLicense: MIT\n%endif\n";
    let diags = check(InequalityContradiction::new(), src);
    assert_eq!(diags.len(), 1, "{diags:?}");
}

#[test]
fn rpm103_silent_for_satisfiable_range() {
    let src = "Name: x\n%if X >= 5 && X < 10\nLicense: MIT\n%endif\n";
    assert!(check(InequalityContradiction::new(), src).is_empty());
}

#[test]
fn rpm103_silent_for_different_lhs() {
    let src = "Name: x\n%if X >= 10 && Y < 5\nLicense: MIT\n%endif\n";
    assert!(check(InequalityContradiction::new(), src).is_empty());
}

// ---------------------------------------------------------------------
// conditional_merge
// ---------------------------------------------------------------------

#[test]
fn flags_adjacent_same_condition() {
    let src = "Name: x\n%if 1\nVersion: 1\n%endif\n%if 1\nRelease: 1\n%endif\n";
    let diags = check(AdjacentMergeableConditionals::new(), src);
    assert_eq!(diags.len(), 1, "{diags:?}");
    assert_eq!(diags[0].lint_id, "RPM076");
}

#[test]
fn flags_with_blank_line_between() {
    // Blank line doesn't disrupt adjacency.
    let src = "Name: x\n%if 1\nVersion: 1\n%endif\n\n%if 1\nRelease: 1\n%endif\n";
    let diags = check(AdjacentMergeableConditionals::new(), src);
    assert_eq!(diags.len(), 1, "{diags:?}");
}

#[test]
fn silent_for_distinct_conditions() {
    let src = "Name: x\n%if 1\nVersion: 1\n%endif\n%if 0\nRelease: 1\n%endif\n";
    assert!(check(AdjacentMergeableConditionals::new(), src).is_empty());
}

#[test]
fn silent_when_preamble_between() {
    let src = "Name: x\n%if 1\nVersion: 1\n%endif\nLicense: MIT\n%if 1\nRelease: 1\n%endif\n";
    assert!(check(AdjacentMergeableConditionals::new(), src).is_empty());
}

#[test]
fn silent_for_multi_branch_block() {
    // First block has %else — merging would change semantics.
    let src =
        "Name: x\n%if 1\nVersion: 1\n%else\nVersion: 2\n%endif\n%if 1\nRelease: 1\n%endif\n";
    assert!(check(AdjacentMergeableConditionals::new(), src).is_empty());
}

#[test]
fn silent_for_macro_condition() {
    // Conservative bail-out on macros — we can't claim the two
    // `%if 0%{?rhel}` blocks are equivalent without evaluating.
    let src = "Name: x\n%if 0%{?rhel}\nVersion: 1\n%endif\n%if 0%{?rhel}\nRelease: 1\n%endif\n";
    assert!(check(AdjacentMergeableConditionals::new(), src).is_empty());
}

#[test]
fn rpm084_flags_ifarch_then_ifnarch() {
    let src = "Name: x\n%ifarch x86_64\nLicense: MIT\n%endif\n\
               %ifnarch x86_64\nLicense: GPL\n%endif\n";
    let diags = check(IfNotXAfterIfX::new(), src);
    assert_eq!(diags.len(), 1, "{diags:?}");
    assert_eq!(diags[0].lint_id, "RPM084");
}

#[test]
fn rpm084_silent_for_same_kind() {
    let src = "Name: x\n%ifarch x86_64\nLicense: MIT\n%endif\n\
               %ifarch x86_64\nLicense: GPL\n%endif\n";
    assert!(check(IfNotXAfterIfX::new(), src).is_empty());
}

#[test]
fn rpm084_silent_for_distinct_arches() {
    let src = "Name: x\n%ifarch x86_64\nLicense: MIT\n%endif\n\
               %ifnarch i386\nLicense: GPL\n%endif\n";
    assert!(check(IfNotXAfterIfX::new(), src).is_empty());
}

#[test]
fn rpm099_flags_elif_with_same_body() {
    let src = "Name: x\n%if A\nLicense: MIT\n%elif B\nLicense: MIT\n%endif\n";
    let diags = check(MergeElifSameBody::new().with_source(src), src);
    assert_eq!(diags.len(), 1, "{diags:?}");
    assert_eq!(diags[0].lint_id, "RPM099");
}

#[test]
fn rpm099_silent_for_different_bodies() {
    let src = "Name: x\n%if A\nLicense: MIT\n%elif B\nLicense: GPL\n%endif\n";
    assert!(check(MergeElifSameBody::new().with_source(src), src).is_empty());
}

#[test]
fn rpm099_flags_chain_of_three() {
    // Three consecutive same-body branches → two diagnostics
    // (the second and third).
    let src =
        "Name: x\n%if A\nLicense: MIT\n%elif B\nLicense: MIT\n%elif C\nLicense: MIT\n%endif\n";
    let diags = check(MergeElifSameBody::new().with_source(src), src);
    assert_eq!(diags.len(), 2, "{diags:?}");
}

// ---------------------------------------------------------------------
// conditional_optimize
// ---------------------------------------------------------------------

// ---- RPM080 nested-and-collapse ----

#[test]
fn conditional_optimize_rpm080_flags_nested_and() {
    let src = "Name: x\n%if 1\n%if 1\nVersion: 1\n%endif\n%endif\n";
    let diags = check(NestedAndCollapse::new(), src);
    assert_eq!(diags.len(), 1, "{diags:?}");
    assert_eq!(diags[0].lint_id, "RPM080");
}

#[test]
fn conditional_optimize_rpm080_silent_when_outer_has_else() {
    let src = "Name: x\n%if 1\n%if 1\nVersion: 1\n%endif\n%else\nVersion: 2\n%endif\n";
    assert!(check(NestedAndCollapse::new(), src).is_empty());
}

#[test]
fn conditional_optimize_rpm080_silent_when_inner_has_else() {
    let src = "Name: x\n%if 1\n%if 1\nVersion: 1\n%else\nVersion: 2\n%endif\n%endif\n";
    assert!(check(NestedAndCollapse::new(), src).is_empty());
}

#[test]
fn conditional_optimize_rpm080_silent_when_extra_item_outside_inner() {
    let src = "Name: x\n%if 1\nLicense: MIT\n%if 1\nVersion: 1\n%endif\n%endif\n";
    assert!(check(NestedAndCollapse::new(), src).is_empty());
}

#[test]
fn conditional_optimize_rpm080_silent_for_ifarch_outer() {
    // `%ifarch` can't be merged with a plain `%if` via `&&`.
    let src = "Name: x\n%ifarch x86_64\n%if 1\nVersion: 1\n%endif\n%endif\n";
    assert!(check(NestedAndCollapse::new(), src).is_empty());
}

#[test]
fn conditional_optimize_rpm080_allows_blank_around_inner() {
    // Blank lines inside outer's body don't count as content.
    let src = "Name: x\n%if 1\n\n%if 1\nVersion: 1\n%endif\n\n%endif\n";
    let diags = check(NestedAndCollapse::new(), src);
    assert_eq!(diags.len(), 1, "{diags:?}");
}

#[test]
fn conditional_optimize_rpm080_flags_conditional_macro_in_inner() {
    // Inner uses `%{?sle_version}` — conditional ref, safe to
    // merge: undefined → empty → `0 >= 1` → false.
    let src = "Name: x\n%if \"%{?_vendor}\" == \"suse\"\n\
               %if 0%{?sle_version} >= 120000\nVersion: 1\n%endif\n%endif\n";
    let diags = check(NestedAndCollapse::new(), src);
    assert_eq!(diags.len(), 1, "{diags:?}");
}

#[test]
fn conditional_optimize_rpm080_silent_for_unconditional_braced_macro_in_inner() {
    // Inner references `%{pgsql_major}` without `?`. On a system
    // where that macro is undefined, evaluating the merged
    // condition would parse-error. Skip the suggestion.
    let src = "Name: x\n%if 1\n%if %{pgsql_major} >= 17\nVersion: 1\n%endif\n%endif\n";
    assert!(
        check(NestedAndCollapse::new(), src).is_empty(),
        "should bail on unconditional %{{...}} in inner"
    );
}

#[test]
fn conditional_optimize_rpm080_silent_for_bare_macro_in_inner() {
    // `%pgsql_major` bare form — same risk as `%{pgsql_major}`.
    let src = "Name: x\n%if 1\n%if %pgsql_major >= 17\nVersion: 1\n%endif\n%endif\n";
    assert!(
        check(NestedAndCollapse::new(), src).is_empty(),
        "should bail on bare %name in inner"
    );
}

#[test]
fn conditional_optimize_rpm080_flags_double_percent_escape_in_inner() {
    // `%%` is an escaped literal `%`, not a macro reference.
    // Inner has no real macro refs — safe.
    let src = "Name: x\n%if 1\n%if \"%%foo\" == \"%foo\"\nVersion: 1\n%endif\n%endif\n";
    // NB: this is a deliberately weird condition; the point is
    // that `%%foo` should NOT count as an unconditional macro.
    // The `\"%foo\"` later WOULD count, but in this test we keep
    // only `%%foo`:
    let safer = "Name: x\n%if 1\n%if 1 == 1\nVersion: 1\n%endif\n%endif\n";
    assert_eq!(check(NestedAndCollapse::new(), safer).len(), 1);
    // The one with the bare `%foo` is rejected:
    assert!(check(NestedAndCollapse::new(), src).is_empty());
}

#[test]
fn conditional_optimize_rpm080_unit_inner_expr_safe_to_merge() {
    // Direct unit tests for the safety classifier.
    assert!(inner_expr_safe_to_merge("1"));
    assert!(inner_expr_safe_to_merge("1 || 0"));
    assert!(inner_expr_safe_to_merge("0%{?foo} >= 1"));
    assert!(inner_expr_safe_to_merge("%{!?foo:1}"));
    assert!(inner_expr_safe_to_merge("\"%%x\" == \"y\""));
    assert!(!inner_expr_safe_to_merge("%{foo}"));
    assert!(!inner_expr_safe_to_merge("%foo"));
    assert!(!inner_expr_safe_to_merge("%(echo hi)"));
    assert!(!inner_expr_safe_to_merge("0%{?ok} && %{bad}"));
}

// ---- RPM081 empty-else-drop ----

#[test]
fn conditional_optimize_rpm081_flags_empty_else() {
    let src = "Name: x\n%if 1\nVersion: 1\n%else\n%endif\n";
    let diags = check(EmptyElseDrop::new(), src);
    assert_eq!(diags.len(), 1, "{diags:?}");
    assert_eq!(diags[0].lint_id, "RPM081");
}

#[test]
fn conditional_optimize_rpm081_silent_when_else_has_content() {
    let src = "Name: x\n%if 1\nVersion: 1\n%else\nVersion: 2\n%endif\n";
    assert!(check(EmptyElseDrop::new(), src).is_empty());
}

#[test]
fn conditional_optimize_rpm081_silent_when_no_else() {
    let src = "Name: x\n%if 1\nVersion: 1\n%endif\n";
    assert!(check(EmptyElseDrop::new(), src).is_empty());
}

#[test]
fn conditional_optimize_rpm081_silent_when_all_branches_empty() {
    // RPM073 (empty-conditional-branch) handles this case.
    let src = "Name: x\n%if 0\n%else\n%endif\n";
    assert!(check(EmptyElseDrop::new(), src).is_empty());
}

// ---- RPM082 invert-empty-if-arch ----

#[test]
fn conditional_optimize_rpm082_flags_empty_ifarch_branch() {
    let src = "Name: x\n%ifarch x86_64\n%else\nBuildArch: noarch\n%endif\n";
    let diags = check(InvertEmptyIfArch::new(), src);
    assert_eq!(diags.len(), 1, "{diags:?}");
    assert_eq!(diags[0].lint_id, "RPM082");
    assert!(diags[0].message.contains("ifnarch"));
}

#[test]
fn conditional_optimize_rpm082_silent_for_plain_if() {
    // Only fires on arch/os kinds.
    let src = "Name: x\n%if 1\n%else\nBuildArch: noarch\n%endif\n";
    assert!(check(InvertEmptyIfArch::new(), src).is_empty());
}

#[test]
fn conditional_optimize_rpm082_silent_when_if_branch_has_content() {
    let src = "Name: x\n%ifarch x86_64\nVersion: 1\n%else\nBuildArch: noarch\n%endif\n";
    assert!(check(InvertEmptyIfArch::new(), src).is_empty());
}

#[test]
fn conditional_optimize_rpm082_silent_when_no_else() {
    let src = "Name: x\n%ifarch x86_64\n%endif\n";
    assert!(check(InvertEmptyIfArch::new(), src).is_empty());
}

// ---- RPM085 constant-tautology-in-expr ----

#[test]
fn conditional_optimize_rpm085_flags_or_one() {
    let src = "Name: x\n%if 0 || 1\nVersion: 1\n%endif\n";
    let diags = check(ConstantTautologyInExpr::new(), src);
    assert_eq!(diags.len(), 1, "{diags:?}");
    assert!(diags[0].message.contains("always-true"));
}

#[test]
fn conditional_optimize_rpm085_flags_and_zero() {
    let src = "Name: x\n%if 1 && 0\nVersion: 1\n%endif\n";
    let diags = check(ConstantTautologyInExpr::new(), src);
    assert_eq!(diags.len(), 1, "{diags:?}");
    assert!(diags[0].message.contains("always-false"));
}

#[test]
fn conditional_optimize_rpm085_flags_true_or() {
    let src = "Name: x\n%if true || 0\nVersion: 1\n%endif\n";
    let diags = check(ConstantTautologyInExpr::new(), src);
    assert_eq!(diags.len(), 1, "{diags:?}");
}

#[test]
fn conditional_optimize_rpm085_silent_for_normal_or() {
    let src = "Name: x\n%if 0 || 0\nVersion: 1\n%endif\n";
    // `0 || 0` is always false but RPM072 already catches constant
    // conditions; RPM085 should not also fire on it (no `|| 1` or
    // `&& 0` pattern).
    assert!(check(ConstantTautologyInExpr::new(), src).is_empty());
}

#[test]
fn conditional_optimize_rpm085_silent_for_macro_expression() {
    let src = "Name: x\n%if 0%{?rhel} || 1\nVersion: 1\n%endif\n";
    // Bails on `%` — conservative.
    assert!(check(ConstantTautologyInExpr::new(), src).is_empty());
}

#[test]
fn conditional_optimize_rpm085_silent_for_non_constant_operands() {
    // Both sides are non-constant identifiers; nothing to flag.
    let src = "Name: x\n%if X || Y\nVersion: 1\n%endif\n";
    assert!(check(ConstantTautologyInExpr::new(), src).is_empty());
}

// ---- RPM087 double-negation-in-expr ----

#[test]
fn conditional_optimize_rpm087_flags_double_bang() {
    let src = "Name: x\n%if !!X\nVersion: 1\n%endif\n";
    let diags = check(DoubleNegationInExpr::new(), src);
    assert_eq!(diags.len(), 1, "{diags:?}");
    assert_eq!(diags[0].lint_id, "RPM087");
}

#[test]
fn conditional_optimize_rpm087_flags_double_bang_with_macro() {
    // `!!` is itself non-macro text; works even if X is a macro.
    let src = "Name: x\n%if !!0%{?rhel}\nVersion: 1\n%endif\n";
    let diags = check(DoubleNegationInExpr::new(), src);
    assert_eq!(diags.len(), 1, "{diags:?}");
}

#[test]
fn conditional_optimize_rpm087_silent_for_single_negation() {
    let src = "Name: x\n%if !X\nVersion: 1\n%endif\n";
    assert!(check(DoubleNegationInExpr::new(), src).is_empty());
}

#[test]
fn conditional_optimize_rpm087_silent_for_not_equal() {
    // `!=` contains `!` but no `!!`.
    let src = "Name: x\n%if X != 1\nVersion: 1\n%endif\n";
    assert!(check(DoubleNegationInExpr::new(), src).is_empty());
}

// ---- RPM083 collapse-elif-into-else ----

#[test]
fn conditional_optimize_rpm083_flags_final_elif_true() {
    let src = "Name: x\n%if 0\nLicense: MIT\n%elif 1\nLicense: GPL\n%endif\n";
    let diags = check(CollapseElifIntoElse::new(), src);
    assert_eq!(diags.len(), 1, "{diags:?}");
    assert_eq!(diags[0].lint_id, "RPM083");
}

#[test]
fn conditional_optimize_rpm083_silent_when_already_has_else() {
    let src =
        "Name: x\n%if 0\nLicense: MIT\n%elif 1\nLicense: GPL\n%else\nLicense: BSD\n%endif\n";
    assert!(check(CollapseElifIntoElse::new(), src).is_empty());
}

#[test]
fn conditional_optimize_rpm083_silent_when_elif_not_constant_true() {
    let src = "Name: x\n%if 0\nLicense: MIT\n%elif X\nLicense: GPL\n%endif\n";
    assert!(check(CollapseElifIntoElse::new(), src).is_empty());
}

// ---- RPM086 idempotent-in-expr ----

#[test]
fn conditional_optimize_rpm086_flags_x_and_x() {
    let src = "Name: x\n%if 5 && 5\nLicense: MIT\n%endif\n";
    let diags = check(IdempotentInExpr::new(), src);
    assert_eq!(diags.len(), 1, "{diags:?}");
    assert_eq!(diags[0].lint_id, "RPM086");
}

#[test]
fn conditional_optimize_rpm086_silent_for_distinct_operands() {
    let src = "Name: x\n%if 1 && 2\nLicense: MIT\n%endif\n";
    assert!(check(IdempotentInExpr::new(), src).is_empty());
}

// ---- RPM088 self-comparison-in-expr ----

#[test]
fn conditional_optimize_rpm088_flags_self_eq() {
    let src = "Name: x\n%if 5 == 5\nLicense: MIT\n%endif\n";
    let diags = check(SelfComparisonInExpr::new(), src);
    assert_eq!(diags.len(), 1, "{diags:?}");
    assert!(diags[0].message.contains("always-true"));
}

#[test]
fn conditional_optimize_rpm088_flags_self_lt() {
    let src = "Name: x\n%if 5 < 5\nLicense: MIT\n%endif\n";
    let diags = check(SelfComparisonInExpr::new(), src);
    assert_eq!(diags.len(), 1, "{diags:?}");
    assert!(diags[0].message.contains("always-false"));
}

#[test]
fn conditional_optimize_rpm088_silent_for_distinct_operands() {
    let src = "Name: x\n%if 5 == 4\nLicense: MIT\n%endif\n";
    assert!(check(SelfComparisonInExpr::new(), src).is_empty());
}

// ---- RPM094 line-continuation-in-condition ----

#[test]
fn conditional_optimize_rpm094_flags_continuation() {
    // `%if A \<NL>  B` joins to a literal containing `\n`.
    // The joined text is no expression, so it stays raw.
    let src = "Name: x\n%if A \\\n  B\nLicense: MIT\n%endif\n";
    let diags = check(LineContinuationInCondition::new(), src);
    assert_eq!(diags.len(), 1, "{diags:?}");
    assert_eq!(diags[0].lint_id, "RPM094");
}

#[test]
fn conditional_optimize_rpm094_silent_for_normal_if() {
    let src = "Name: x\n%if 1\nLicense: MIT\n%endif\n";
    assert!(check(LineContinuationInCondition::new(), src).is_empty());
}

// ---- RPM100 collapse-else-if-into-elif ----

#[test]
fn conditional_optimize_rpm100_flags_else_holding_single_if() {
    let src = "Name: x\n%if A\nLicense: MIT\n%else\n%if B\nLicense: GPL\n%endif\n%endif\n";
    let diags = check(CollapseElseIfIntoElif::new(), src);
    assert_eq!(diags.len(), 1, "{diags:?}");
    assert_eq!(diags[0].lint_id, "RPM100");
}

#[test]
fn conditional_optimize_rpm100_silent_when_else_has_more_content() {
    let src = "Name: x\n%if A\nLicense: MIT\n%else\nLicense: BSD\n%if B\nLicense: GPL\n%endif\n%endif\n";
    assert!(check(CollapseElseIfIntoElif::new(), src).is_empty());
}

#[test]
fn conditional_optimize_rpm100_silent_when_no_else() {
    let src = "Name: x\n%if A\n%if B\nLicense: GPL\n%endif\n%endif\n";
    assert!(check(CollapseElseIfIntoElif::new(), src).is_empty());
}

// ---- RPM101 absorption-in-expr ----

#[test]
fn conditional_optimize_rpm101_flags_or_absorption() {
    // `5 || (5 && 6)` → can be reduced to `5`. Use integer
    // literals to avoid macro bail-out; absorption is a pure
    // boolean-algebra reduction.
    let src = "Name: x\n%if 5 || (5 && 6)\nLicense: MIT\n%endif\n";
    let diags = check(AbsorptionInExpr::new(), src);
    assert_eq!(diags.len(), 1, "{diags:?}");
    assert_eq!(diags[0].lint_id, "RPM101");
}

#[test]
fn conditional_optimize_rpm101_flags_and_absorption() {
    let src = "Name: x\n%if 5 && (5 || 6)\nLicense: MIT\n%endif\n";
    let diags = check(AbsorptionInExpr::new(), src);
    assert_eq!(diags.len(), 1, "{diags:?}");
}

#[test]
fn conditional_optimize_rpm101_silent_for_independent_operands() {
    let src = "Name: x\n%if 5 || (6 && 7)\nLicense: MIT\n%endif\n";
    assert!(check(AbsorptionInExpr::new(), src).is_empty());
}

// ---- RPM104 string-set-redundancy ----

#[test]
fn conditional_optimize_rpm104_flags_repeated_string_in_or() {
    let src = "Name: x\n%if %{?_vendor} == \"a\" || %{?_vendor} == \"b\" || %{?_vendor} == \"a\"\nLicense: MIT\n%endif\n";
    let diags = check(StringSetRedundancy::new(), src);
    assert_eq!(diags.len(), 1, "{diags:?}");
    assert_eq!(diags[0].lint_id, "RPM104");
}

#[test]
fn conditional_optimize_rpm104_silent_for_unique_strings() {
    let src =
        "Name: x\n%if %{?_vendor} == \"a\" || %{?_vendor} == \"b\"\nLicense: MIT\n%endif\n";
    assert!(check(StringSetRedundancy::new(), src).is_empty());
}

#[test]
fn conditional_optimize_rpm104_silent_for_different_lhs() {
    // Same literal `"a"` but compared against different macros — not a dupe.
    let src = "Name: x\n%if %{?x} == \"a\" || %{?y} == \"a\"\nLicense: MIT\n%endif\n";
    assert!(check(StringSetRedundancy::new(), src).is_empty());
}

// ---- RPM105 inverted-if-else ----

#[test]
fn conditional_optimize_rpm105_flags_negated_if_with_else() {
    let src = "Name: x\n%if !X\nLicense: MIT\n%else\nLicense: GPL\n%endif\n";
    let diags = check(InvertedIfElse::new(), src);
    assert_eq!(diags.len(), 1, "{diags:?}");
    assert_eq!(diags[0].lint_id, "RPM105");
}

#[test]
fn conditional_optimize_rpm105_silent_for_non_negated_if() {
    let src = "Name: x\n%if X\nLicense: MIT\n%else\nLicense: GPL\n%endif\n";
    assert!(check(InvertedIfElse::new(), src).is_empty());
}

#[test]
fn conditional_optimize_rpm105_silent_when_no_else() {
    let src = "Name: x\n%if !X\nLicense: MIT\n%endif\n";
    assert!(check(InvertedIfElse::new(), src).is_empty());
}

#[test]
fn conditional_optimize_rpm105_silent_for_not_equal_op() {
    // `X != 1` starts with `X`, not `!`. Should not trigger.
    let src = "Name: x\n%if X != 1\nLicense: MIT\n%else\nLicense: GPL\n%endif\n";
    assert!(check(InvertedIfElse::new(), src).is_empty());
}

// ---------------------------------------------------------------------
// absorption
// ---------------------------------------------------------------------

#[test]
fn absorption_rpm101_flags_or_absorption() {
    // `5 || (5 && 6)` → can be reduced to `5`. Use integer
    // literals to avoid macro bail-out; absorption is a pure
    // boolean-algebra reduction.
    let src = "Name: x\n%if 5 || (5 && 6)\nLicense: MIT\n%endif\n";
    let diags = check(AbsorptionInExpr::new(), src);
    assert_eq!(diags.len(), 1, "{diags:?}");
    assert_eq!(diags[0].lint_id, "RPM101");
}

#[test]
fn absorption_rpm101_flags_and_absorption() {
    let src = "Name: x\n%if 5 && (5 || 6)\nLicense: MIT\n%endif\n";
    let diags = check(AbsorptionInExpr::new(), src);
    assert_eq!(diags.len(), 1, "{diags:?}");
}

#[test]
fn absorption_rpm101_silent_for_independent_operands() {
    let src = "Name: x\n%if 5 || (6 && 7)\nLicense: MIT\n%endif\n";
    assert!(check(AbsorptionInExpr::new(), src).is_empty());
}

// ---------------------------------------------------------------------
// elif_collapse
// ---------------------------------------------------------------------

#[test]
fn elif_collapse_rpm083_flags_final_elif_true() {
    let src = "Name: x\n%if 0\nLicense: MIT\n%elif 1\nLicense: GPL\n%endif\n";
    let diags = check(CollapseElifIntoElse::new(), src);
    assert_eq!(diags.len(), 1, "{diags:?}");
    assert_eq!(diags[0].lint_id, "RPM083");
}

#[test]
fn elif_collapse_rpm083_silent_when_already_has_else() {
    let src =
        "Name: x\n%if 0\nLicense: MIT\n%elif 1\nLicense: GPL\n%else\nLicense: BSD\n%endif\n";
    assert!(check(CollapseElifIntoElse::new(), src).is_empty());
}

#[test]
fn elif_collapse_rpm083_silent_when_elif_not_constant_true() {
    let src = "Name: x\n%if 0\nLicense: MIT\n%elif X\nLicense: GPL\n%endif\n";
    assert!(check(CollapseElifIntoElse::new(), src).is_empty());
}

// ---------------------------------------------------------------------
// else_if_elif
// ---------------------------------------------------------------------

#[test]
fn else_if_elif_rpm100_flags_else_holding_single_if() {
    let src = "Name: x\n%if A\nLicense: MIT\n%else\n%if B\nLicense: GPL\n%endif\n%endif\n";
    let diags = check(CollapseElseIfIntoElif::new(), src);
    assert_eq!(diags.len(), 1, "{diags:?}");
    assert_eq!(diags[0].lint_id, "RPM100");
}

#[test]
fn else_if_elif_rpm100_silent_when_else_has_more_content() {
    let src = "Name: x\n%if A\nLicense: MIT\n%else\nLicense: BSD\n%if B\nLicense: GPL\n%endif\n%endif\n";
    assert!(check(CollapseElseIfIntoElif::new(), src).is_empty());
}

#[test]
fn else_if_elif_rpm100_silent_when_no_else() {
    let src = "Name: x\n%if A\n%if B\nLicense: GPL\n%endif\n%endif\n";
    assert!(check(CollapseElseIfIntoElif::new(), src).is_empty());
}

// ---------------------------------------------------------------------
// empty_else
// ---------------------------------------------------------------------

#[test]
fn empty_else_rpm081_flags_empty_else() {
    let src = "Name: x\n%if 1\nVersion: 1\n%else\n%endif\n";
    let diags = check(EmptyElseDrop::new(), src);
    assert_eq!(diags.len(), 1, "{diags:?}");
    assert_eq!(diags[0].lint_id, "RPM081");
}

#[test]
fn empty_else_rpm081_silent_when_else_has_content() {
    let src = "Name: x\n%if 1\nVersion: 1\n%else\nVersion: 2\n%endif\n";
    assert!(check(EmptyElseDrop::new(), src).is_empty());
}

#[test]
fn empty_else_rpm081_silent_when_no_else() {
    let src = "Name: x\n%if 1\nVersion: 1\n%endif\n";
    assert!(check(EmptyElseDrop::new(), src).is_empty());
}

#[test]
fn empty_else_rpm081_silent_when_all_branches_empty() {
    // RPM073 (empty-conditional-branch) handles this case.
    let src = "Name: x\n%if 0\n%else\n%endif\n";
    assert!(check(EmptyElseDrop::new(), src).is_empty());
}

// ---------------------------------------------------------------------
// expr_constants
// ---------------------------------------------------------------------

// ---- RPM085 constant-tautology-in-expr ----

#[test]
fn expr_constants_rpm085_flags_or_one() {
    let src = "Name: x\n%if 0 || 1\nVersion: 1\n%endif\n";
    let diags = check(ConstantTautologyInExpr::new(), src);
    assert_eq!(diags.len(), 1, "{diags:?}");
    assert!(diags[0].message.contains("always-true"));
}

#[test]
fn expr_constants_rpm085_flags_and_zero() {
    let src = "Name: x\n%if 1 && 0\nVersion: 1\n%endif\n";
    let diags = check(ConstantTautologyInExpr::new(), src);
    assert_eq!(diags.len(), 1, "{diags:?}");
    assert!(diags[0].message.contains("always-false"));
}

#[test]
fn expr_constants_rpm085_flags_true_or() {
    let src = "Name: x\n%if true || 0\nVersion: 1\n%endif\n";
    let diags = check(ConstantTautologyInExpr::new(), src);
    assert_eq!(diags.len(), 1, "{diags:?}");
}

#[test]
fn expr_constants_rpm085_silent_for_normal_or() {
    let src = "Name: x\n%if 0 || 0\nVersion: 1\n%endif\n";
    // `0 || 0` is always false but RPM072 already catches constant
    // conditions; RPM085 should not also fire on it (no `|| 1` or
    // `&& 0` pattern).
    assert!(check(ConstantTautologyInExpr::new(), src).is_empty());
}

#[test]
fn expr_constants_rpm085_silent_for_macro_expression() {
    let src = "Name: x\n%if 0%{?rhel} || 1\nVersion: 1\n%endif\n";
    // Bails on `%` — conservative.
    assert!(check(ConstantTautologyInExpr::new(), src).is_empty());
}

#[test]
fn expr_constants_rpm085_silent_for_non_constant_operands() {
    // Both sides are non-constant identifiers; nothing to flag.
    let src = "Name: x\n%if X || Y\nVersion: 1\n%endif\n";
    assert!(check(ConstantTautologyInExpr::new(), src).is_empty());
}

// ---- RPM087 double-negation-in-expr ----

#[test]
fn expr_constants_rpm087_flags_double_bang() {
    let src = "Name: x\n%if !!X\nVersion: 1\n%endif\n";
    let diags = check(DoubleNegationInExpr::new(), src);
    assert_eq!(diags.len(), 1, "{diags:?}");
    assert_eq!(diags[0].lint_id, "RPM087");
}

#[test]
fn expr_constants_rpm087_flags_double_bang_with_macro() {
    // `!!` is itself non-macro text; works even if X is a macro.
    let src = "Name: x\n%if !!0%{?rhel}\nVersion: 1\n%endif\n";
    let diags = check(DoubleNegationInExpr::new(), src);
    assert_eq!(diags.len(), 1, "{diags:?}");
}

#[test]
fn expr_constants_rpm087_silent_for_single_negation() {
    let src = "Name: x\n%if !X\nVersion: 1\n%endif\n";
    assert!(check(DoubleNegationInExpr::new(), src).is_empty());
}

#[test]
fn expr_constants_rpm087_silent_for_not_equal() {
    // `!=` contains `!` but no `!!`.
    let src = "Name: x\n%if X != 1\nVersion: 1\n%endif\n";
    assert!(check(DoubleNegationInExpr::new(), src).is_empty());
}

// ---------------------------------------------------------------------
// idempotent_self
// ---------------------------------------------------------------------

// ---- RPM086 idempotent-in-expr ----

#[test]
fn idempotent_self_rpm086_flags_x_and_x() {
    let src = "Name: x\n%if 5 && 5\nLicense: MIT\n%endif\n";
    let diags = check(IdempotentInExpr::new(), src);
    assert_eq!(diags.len(), 1, "{diags:?}");
    assert_eq!(diags[0].lint_id, "RPM086");
}

#[test]
fn idempotent_self_rpm086_silent_for_distinct_operands() {
    let src = "Name: x\n%if 1 && 2\nLicense: MIT\n%endif\n";
    assert!(check(IdempotentInExpr::new(), src).is_empty());
}

// ---- RPM088 self-comparison-in-expr ----

#[test]
fn idempotent_self_rpm088_flags_self_eq() {
    let src = "Name: x\n%if 5 == 5\nLicense: MIT\n%endif\n";
    let diags = check(SelfComparisonInExpr::new(), src);
    assert_eq!(diags.len(), 1, "{diags:?}");
    assert!(diags[0].message.contains("always-true"));
}

#[test]
fn idempotent_self_rpm088_flags_self_lt() {
    let src = "Name: x\n%if 5 < 5\nLicense: MIT\n%endif\n";
    let diags = check(SelfComparisonInExpr::new(), src);
    assert_eq!(diags.len(), 1, "{diags:?}");
    assert!(diags[0].message.contains("always-false"));
}

#[test]
fn idempotent_self_rpm088_silent_for_distinct_operands() {
    let src = "Name: x\n%if 5 == 4\nLicense: MIT\n%endif\n";
    assert!(check(SelfComparisonInExpr::new(), src).is_empty());
}

// ---------------------------------------------------------------------
// invert_arch
// ---------------------------------------------------------------------

#[test]
fn invert_arch_rpm082_flags_empty_ifarch_branch() {
    let src = "Name: x\n%ifarch x86_64\n%else\nBuildArch: noarch\n%endif\n";
    let diags = check(InvertEmptyIfArch::new(), src);
    assert_eq!(diags.len(), 1, "{diags:?}");
    assert_eq!(diags[0].lint_id, "RPM082");
    assert!(diags[0].message.contains("ifnarch"));
}

#[test]
fn invert_arch_rpm082_silent_for_plain_if() {
    // Only fires on arch/os kinds.
    let src = "Name: x\n%if 1\n%else\nBuildArch: noarch\n%endif\n";
    assert!(check(InvertEmptyIfArch::new(), src).is_empty());
}

#[test]
fn invert_arch_rpm082_silent_when_if_branch_has_content() {
    let src = "Name: x\n%ifarch x86_64\nVersion: 1\n%else\nBuildArch: noarch\n%endif\n";
    assert!(check(InvertEmptyIfArch::new(), src).is_empty());
}

#[test]
fn invert_arch_rpm082_silent_when_no_else() {
    let src = "Name: x\n%ifarch x86_64\n%endif\n";
    assert!(check(InvertEmptyIfArch::new(), src).is_empty());
}

// ---------------------------------------------------------------------
// inverted_if_else
// ---------------------------------------------------------------------

#[test]
fn inverted_if_else_rpm105_flags_negated_if_with_else() {
    let src = "Name: x\n%if !X\nLicense: MIT\n%else\nLicense: GPL\n%endif\n";
    let diags = check(InvertedIfElse::new(), src);
    assert_eq!(diags.len(), 1, "{diags:?}");
    assert_eq!(diags[0].lint_id, "RPM105");
}

#[test]
fn inverted_if_else_rpm105_silent_for_non_negated_if() {
    let src = "Name: x\n%if X\nLicense: MIT\n%else\nLicense: GPL\n%endif\n";
    assert!(check(InvertedIfElse::new(), src).is_empty());
}

#[test]
fn inverted_if_else_rpm105_silent_when_no_else() {
    let src = "Name: x\n%if !X\nLicense: MIT\n%endif\n";
    assert!(check(InvertedIfElse::new(), src).is_empty());
}

#[test]
fn inverted_if_else_rpm105_silent_for_not_equal_op() {
    // `X != 1` starts with `X`, not `!`. Should not trigger.
    let src = "Name: x\n%if X != 1\nLicense: MIT\n%else\nLicense: GPL\n%endif\n";
    assert!(check(InvertedIfElse::new(), src).is_empty());
}

// ---------------------------------------------------------------------
// line_continuation
// ---------------------------------------------------------------------

#[test]
fn line_continuation_rpm094_flags_continuation() {
    // `%if A \<NL>  B` joins to a literal containing `\n`.
    // The joined text is no expression, so it stays raw.
    let src = "Name: x\n%if A \\\n  B\nLicense: MIT\n%endif\n";
    let diags = check(LineContinuationInCondition::new(), src);
    assert_eq!(diags.len(), 1, "{diags:?}");
    assert_eq!(diags[0].lint_id, "RPM094");
}

#[test]
fn line_continuation_rpm094_silent_for_normal_if() {
    let src = "Name: x\n%if 1\nLicense: MIT\n%endif\n";
    assert!(check(LineContinuationInCondition::new(), src).is_empty());
}

// ---------------------------------------------------------------------
// nested_and
// ---------------------------------------------------------------------

#[test]
fn nested_and_rpm080_flags_nested_and() {
    let src = "Name: x\n%if 1\n%if 1\nVersion: 1\n%endif\n%endif\n";
    let diags = check(NestedAndCollapse::new(), src);
    assert_eq!(diags.len(), 1, "{diags:?}");
    assert_eq!(diags[0].lint_id, "RPM080");
}

#[test]
fn nested_and_rpm080_silent_when_outer_has_else() {
    let src = "Name: x\n%if 1\n%if 1\nVersion: 1\n%endif\n%else\nVersion: 2\n%endif\n";
    assert!(check(NestedAndCollapse::new(), src).is_empty());
}

#[test]
fn nested_and_rpm080_silent_when_inner_has_else() {
    let src = "Name: x\n%if 1\n%if 1\nVersion: 1\n%else\nVersion: 2\n%endif\n%endif\n";
    assert!(check(NestedAndCollapse::new(), src).is_empty());
}

#[test]
fn nested_and_rpm080_silent_when_extra_item_outside_inner() {
    let src = "Name: x\n%if 1\nLicense: MIT\n%if 1\nVersion: 1\n%endif\n%endif\n";
    assert!(check(NestedAndCollapse::new(), src).is_empty());
}

#[test]
fn nested_and_rpm080_silent_for_ifarch_outer() {
    // `%ifarch` can't be merged with a plain `%if` via `&&`.
    let src = "Name: x\n%ifarch x86_64\n%if 1\nVersion: 1\n%endif\n%endif\n";
    assert!(check(NestedAndCollapse::new(), src).is_empty());
}

#[test]
fn nested_and_rpm080_allows_blank_around_inner() {
    // Blank lines inside outer's body don't count as content.
    let src = "Name: x\n%if 1\n\n%if 1\nVersion: 1\n%endif\n\n%endif\n";
    let diags = check(NestedAndCollapse::new(), src);
    assert_eq!(diags.len(), 1, "{diags:?}");
}

#[test]
fn nested_and_rpm080_flags_conditional_macro_in_inner() {
    // Inner uses `%{?sle_version}` — conditional ref, safe to
    // merge: undefined → empty → `0 >= 1` → false.
    let src = "Name: x\n%if \"%{?_vendor}\" == \"suse\"\n\
               %if 0%{?sle_version} >= 120000\nVersion: 1\n%endif\n%endif\n";
    let diags = check(NestedAndCollapse::new(), src);
    assert_eq!(diags.len(), 1, "{diags:?}");
}

#[test]
fn nested_and_rpm080_silent_for_unconditional_braced_macro_in_inner() {
    // Inner references `%{pgsql_major}` without `?`. On a system
    // where that macro is undefined, evaluating the merged
    // condition would parse-error. Skip the suggestion.
    let src = "Name: x\n%if 1\n%if %{pgsql_major} >= 17\nVersion: 1\n%endif\n%endif\n";
    assert!(
        check(NestedAndCollapse::new(), src).is_empty(),
        "should bail on unconditional %{{...}} in inner"
    );
}

#[test]
fn nested_and_rpm080_silent_for_bare_macro_in_inner() {
    // `%pgsql_major` bare form — same risk as `%{pgsql_major}`.
    let src = "Name: x\n%if 1\n%if %pgsql_major >= 17\nVersion: 1\n%endif\n%endif\n";
    assert!(
        check(NestedAndCollapse::new(), src).is_empty(),
        "should bail on bare %name in inner"
    );
}

#[test]
fn nested_and_rpm080_flags_double_percent_escape_in_inner() {
    // `%%` is an escaped literal `%`, not a macro reference.
    // Inner has no real macro refs — safe.
    let src = "Name: x\n%if 1\n%if \"%%foo\" == \"%foo\"\nVersion: 1\n%endif\n%endif\n";
    // NB: this is a deliberately weird condition; the point is
    // that `%%foo` should NOT count as an unconditional macro.
    // The `\"%foo\"` later WOULD count, but in this test we keep
    // only `%%foo`:
    let safer = "Name: x\n%if 1\n%if 1 == 1\nVersion: 1\n%endif\n%endif\n";
    assert_eq!(check(NestedAndCollapse::new(), safer).len(), 1);
    // The one with the bare `%foo` is rejected:
    assert!(check(NestedAndCollapse::new(), src).is_empty());
}

#[test]
fn nested_and_rpm080_unit_inner_expr_safe_to_merge() {
    // Direct unit tests for the safety classifier.
    assert!(inner_expr_safe_to_merge("1"));
    assert!(inner_expr_safe_to_merge("1 || 0"));
    assert!(inner_expr_safe_to_merge("0%{?foo} >= 1"));
    assert!(inner_expr_safe_to_merge("%{!?foo:1}"));
    assert!(inner_expr_safe_to_merge("\"%%x\" == \"y\""));
    assert!(!inner_expr_safe_to_merge("%{foo}"));
    assert!(!inner_expr_safe_to_merge("%foo"));
    assert!(!inner_expr_safe_to_merge("%(echo hi)"));
    assert!(!inner_expr_safe_to_merge("0%{?ok} && %{bad}"));
}

// ---------------------------------------------------------------------
// string_set
// ---------------------------------------------------------------------

#[test]
fn string_set_rpm104_flags_repeated_string_in_or() {
    let src = "Name: x\n%if %{?_vendor} == \"a\" || %{?_vendor} == \"b\" || %{?_vendor} == \"a\"\nLicense: MIT\n%endif\n";
    let diags = check(StringSetRedundancy::new(), src);
    assert_eq!(diags.len(), 1, "{diags:?}");
    assert_eq!(diags[0].lint_id, "RPM104");
}

#[test]
fn string_set_rpm104_silent_for_unique_strings() {
    let src =
        "Name: x\n%if %{?_vendor} == \"a\" || %{?_vendor} == \"b\"\nLicense: MIT\n%endif\n";
    assert!(check(StringSetRedundancy::new(), src).is_empty());
}

#[test]
fn string_set_rpm104_silent_for_different_lhs() {
    // Same literal `"a"` but compared against different macros — not a dupe.
    let src = "Name: x\n%if %{?x} == \"a\" || %{?y} == \"a\"\nLicense: MIT\n%endif\n";
    assert!(check(StringSetRedundancy::new(), src).is_empty());
}

// ---------------------------------------------------------------------
// conditional_simplify
// ---------------------------------------------------------------------

// ---- RPM072 ----

#[test]
fn rpm072_flags_if_1() {
    let src = "Name: x\n%if 1\nVersion: 1\n%endif\n";
    let diags = check(ConstantCondition::new(), src);
    assert_eq!(diags.len(), 1, "{diags:?}");
    assert_eq!(diags[0].lint_id, "RPM072");
    assert!(diags[0].message.contains("always true"));
}

#[test]
fn rpm072_flags_if_0() {
    let src = "Name: x\n%if 0\nVersion: 1\n%endif\n";
    let diags = check(ConstantCondition::new(), src);
    assert_eq!(diags.len(), 1, "{diags:?}");
    assert!(diags[0].message.contains("always false"));
}

#[test]
fn rpm072_silent_for_macro_condition() {
    let src = "Name: x\n%if 0%{?rhel}\nVersion: 1\n%endif\n";
    assert!(check(ConstantCondition::new(), src).is_empty());
}

// ---- RPM074 ----

#[test]
fn rpm074_flags_identical_branches() {
    let src = "Name: x\n%if 0\nVersion: 1\n%else\nVersion: 1\n%endif\n";
    let diags = check(IdenticalConditionalBranches::new().with_source(src), src);
    assert_eq!(diags.len(), 1, "{diags:?}");
    assert_eq!(diags[0].lint_id, "RPM074");
}

#[test]
fn rpm074_silent_for_different_branches() {
    let src = "Name: x\n%if 0\nVersion: 1\n%else\nVersion: 2\n%endif\n";
    assert!(check(IdenticalConditionalBranches::new().with_source(src), src).is_empty());
}

#[test]
fn rpm074_silent_for_single_branch() {
    let src = "Name: x\n%if 0\nVersion: 1\n%endif\n";
    assert!(check(IdenticalConditionalBranches::new().with_source(src), src).is_empty());
}

// ---- RPM075 ----

#[test]
fn rpm075_flags_nested_same_condition() {
    let src = "Name: x\n%if 1\n%if 1\nVersion: 1\n%endif\n%endif\n";
    let diags = check(RedundantNestedCondition::new(), src);
    assert_eq!(diags.len(), 1, "{diags:?}");
    assert_eq!(diags[0].lint_id, "RPM075");
}

#[test]
fn rpm075_silent_for_distinct_nested_conditions() {
    let src = "Name: x\n%if 0\n%if 1\nVersion: 1\n%endif\n%endif\n";
    assert!(check(RedundantNestedCondition::new(), src).is_empty());
}

#[test]
fn rpm075_silent_for_nested_macros() {
    // Both conditions are macros; conservative bail-out applies.
    let src = "Name: x\n%if 0%{?rhel}\n%if 0%{?rhel}\nVersion: 1\n%endif\n%endif\n";
    assert!(check(RedundantNestedCondition::new(), src).is_empty());
}

// ---------------------------------------------------------------------
// conditional_structure
// ---------------------------------------------------------------------

// ---- RPM070 deep-conditional-nesting ----

#[test]
fn rpm070_flags_depth_5() {
    let src = "Name: x\n%if 1\n%if 1\n%if 1\n%if 1\n%if 1\nVersion: 1\n\
               %endif\n%endif\n%endif\n%endif\n%endif\n";
    let diags = check(DeepConditionalNesting::new(), src);
    assert!(!diags.is_empty(), "expected RPM070 at depth 5: {diags:?}");
    assert_eq!(diags[0].lint_id, "RPM070");
}

#[test]
fn rpm070_silent_at_depth_4() {
    let src = "Name: x\n%if 1\n%if 1\n%if 1\n%if 1\nVersion: 1\n\
               %endif\n%endif\n%endif\n%endif\n";
    assert!(check(DeepConditionalNesting::new(), src).is_empty());
}

#[test]
fn rpm070_silent_for_flat_chain() {
    // Many siblings, no nesting — should not trigger.
    let src = "Name: x\n%if 0\n%endif\n%if 0\n%endif\n%if 0\n%endif\n";
    assert!(check(DeepConditionalNesting::new(), src).is_empty());
}

// ---- RPM071 unreachable-elif-branch ----

#[test]
fn rpm071_flags_repeated_elif() {
    let src = "Name: x\n%if 0\nVersion: 1\n%elif 0\nVersion: 2\n%endif\n";
    let diags = check(UnreachableElifBranch::new(), src);
    assert_eq!(diags.len(), 1, "{diags:?}");
    assert_eq!(diags[0].lint_id, "RPM071");
}

#[test]
fn rpm071_silent_for_distinct_elif() {
    let src = "Name: x\n%if 0\nVersion: 1\n%elif 1\nVersion: 2\n%endif\n";
    assert!(check(UnreachableElifBranch::new(), src).is_empty());
}

#[test]
fn rpm071_silent_for_macro_in_condition() {
    // Both conditions reference macros — we can't statically tell
    // they're equal, so we bail out (conservative).
    let src = "Name: x\n%if 0%{?rhel}\nVersion: 1\n%elif 0%{?rhel}\nVersion: 2\n%endif\n";
    assert!(check(UnreachableElifBranch::new(), src).is_empty());
}

// ---- RPM073 empty-conditional-branch ----

#[test]
fn rpm073_silent_for_zero_item_block() {
    // Zero-item body means the parser dropped its contents (e.g.
    // an unknown project macro). Don't fire RPM073 — that would
    // be a false positive on the bulk of real specs that use
    // private macros like `%gendep_perl_libs` inside `%if`.
    // Genuine empty-with-blank-line cases are covered by
    // `rpm073_flags_empty_branches_with_blanks`.
    let src = "Name: x\n%if 0\n%endif\n";
    let diags = check(EmptyConditionalBranch::new(), src);
    assert!(diags.is_empty(), "{diags:?}");
}

#[test]
fn rpm073_flags_empty_branches_with_blanks() {
    // Blank lines inside count as filler — still empty.
    let src = "Name: x\n%if 0\n\n%else\n\n%endif\n";
    let diags = check(EmptyConditionalBranch::new(), src);
    assert_eq!(diags.len(), 1, "{diags:?}");
}

#[test]
fn rpm073_silent_when_branch_has_content() {
    let src = "Name: x\n%if 0\nVersion: 1\n%endif\n";
    assert!(check(EmptyConditionalBranch::new(), src).is_empty());
}

// ---- RPM077 ifarch-empty-list ----

#[test]
fn rpm077_flags_empty_ifarch() {
    let src = "Name: x\n%ifarch\nVersion: 1\n%endif\n";
    let diags = check(IfarchEmptyList::new(), src);
    assert_eq!(diags.len(), 1, "{diags:?}");
    assert_eq!(diags[0].lint_id, "RPM077");
}

#[test]
fn rpm077_silent_for_non_empty_ifarch() {
    let src = "Name: x\n%ifarch x86_64\nVersion: 1\n%endif\n";
    assert!(check(IfarchEmptyList::new(), src).is_empty());
}

#[test]
fn rpm077_silent_for_plain_if() {
    // Plain `%if` is not an arch/os branch; should not be touched.
    let src = "Name: x\n%if 0\nVersion: 1\n%endif\n";
    assert!(check(IfarchEmptyList::new(), src).is_empty());
}

// ---- RPM089 single-comment-only-branch ----

#[test]
fn rpm089_flags_comment_only_branch() {
    let src = "Name: x\n%if 1\n# TODO: fill in\n%endif\n";
    let diags = check(SingleCommentOnlyBranch::new(), src);
    assert_eq!(diags.len(), 1, "{diags:?}");
    assert_eq!(diags[0].lint_id, "RPM089");
}

#[test]
fn rpm089_silent_for_real_content() {
    let src = "Name: x\n%if 1\n# note\nVersion: 1\n%endif\n";
    assert!(check(SingleCommentOnlyBranch::new(), src).is_empty());
}

// ---- RPM090 ifarch-noarch ----

#[test]
fn rpm090_flags_ifarch_noarch() {
    let src = "Name: x\n%ifarch noarch\nVersion: 1\n%endif\n";
    let diags = check(IfarchNoarch::new(), src);
    assert_eq!(diags.len(), 1, "{diags:?}");
    assert_eq!(diags[0].lint_id, "RPM090");
}

#[test]
fn rpm090_silent_for_real_arch() {
    let src = "Name: x\n%ifarch x86_64\nVersion: 1\n%endif\n";
    assert!(check(IfarchNoarch::new(), src).is_empty());
}

// ---- RPM091 duplicate-arch-in-list ----

#[test]
fn rpm091_flags_duplicate_arch() {
    let src = "Name: x\n%ifarch x86_64 x86_64\nVersion: 1\n%endif\n";
    let mut lint = DuplicateArchInList::new();
    lint.set_source(src);
    let spec = parse(src);
    lint.visit_spec(&spec);
    let diags = lint.take_diagnostics();
    assert_eq!(diags.len(), 1, "{diags:?}");
    assert_eq!(diags[0].lint_id, "RPM091");
    // MachineApplicable: an edit must be present.
    assert!(!diags[0].suggestions[0].edits.is_empty());
}

#[test]
fn rpm091_silent_for_distinct_arches() {
    let src = "Name: x\n%ifarch x86_64 aarch64\nVersion: 1\n%endif\n";
    assert!(check(DuplicateArchInList::new(), src).is_empty());
}

// ---- RPM092 conditional-cyclomatic-complexity ----

#[test]
fn rpm092_flags_many_branches() {
    // 16 `%if` blocks at top level → branch count >= 16 > 15.
    let mut src = String::from("Name: x\n");
    for _ in 0..16 {
        src.push_str("%if 0\nLicense: MIT\n%endif\n");
    }
    let diags = check(ConditionalCyclomaticComplexity::new(), &src);
    assert_eq!(diags.len(), 1, "{diags:?}");
    assert_eq!(diags[0].lint_id, "RPM092");
}

#[test]
fn rpm092_silent_below_threshold() {
    let mut src = String::from("Name: x\n");
    for _ in 0..5 {
        src.push_str("%if 0\nLicense: MIT\n%endif\n");
    }
    assert!(check(ConditionalCyclomaticComplexity::new(), &src).is_empty());
}

// ---------------------------------------------------------------------
// context_redundant_part
// ---------------------------------------------------------------------

#[test]
fn flags_redundant_conjunct_in_inner_if() {
    // Outer `%if A`, inner `%if A && B` → A is redundant in inner.
    let src = "Name: x\n%if A\n%if A && B\n%global foo bar\n%endif\n%endif\n";
    let diags = check(ContextRedundantPart::new(), src);
    assert_eq!(diags.len(), 1, "{diags:?}");
    assert_eq!(diags[0].lint_id, "RPM430");
}

#[test]
fn flags_redundant_conjunct_under_two_outer_levels() {
    // Outer `%if A`, middle `%if B`, inner `%if A && C` — `A` from
    // outer is implied; inner's `C` survives.
    let src = "Name: x\n%if A\n%if B\n%if A && C\n%global foo bar\n%endif\n%endif\n%endif\n";
    let diags = check(ContextRedundantPart::new(), src);
    assert_eq!(diags.len(), 1, "{diags:?}");
}

#[test]
fn silent_when_inner_fully_implied() {
    // `%if A` outer, inner `%if A` — every literal is implied; the
    // entire branch is always-true. RPM114 owns that case; this
    // rule deliberately stays silent to avoid a double-warn.
    let src = "Name: x\n%if A\n%if A\n%global foo bar\n%endif\n%endif\n";
    assert!(check(ContextRedundantPart::new(), src).is_empty());
}

#[test]
fn silent_when_inner_has_no_redundancy() {
    let src = "Name: x\n%if A\n%if B && C\n%global foo bar\n%endif\n%endif\n";
    assert!(check(ContextRedundantPart::new(), src).is_empty());
}

#[test]
fn silent_at_root_level() {
    // No enclosing path-condition; nothing to imply against.
    let src = "Name: x\n%if A && B\n%global foo bar\n%endif\n";
    assert!(check(ContextRedundantPart::new(), src).is_empty());
}

#[test]
fn silent_for_disjunctive_head() {
    // Inner `(A && B) || C` has two cubes; this rule's single-cube
    // restriction makes it skip — left to a future extension.
    let src = "Name: x\n%if A\n%if (A && B) || C\n%global foo bar\n%endif\n%endif\n";
    assert!(check(ContextRedundantPart::new(), src).is_empty());
}

#[test]
fn flags_with_negation_in_path() {
    // Outer `%if !A`, inner `%if !A && B` → !A is redundant.
    let src = "Name: x\n%if !A\n%if !A && B\n%global foo bar\n%endif\n%endif\n";
    let diags = check(ContextRedundantPart::new(), src);
    assert_eq!(diags.len(), 1, "{diags:?}");
}

// ---------------------------------------------------------------------
// cp_chmod_to_install_m
// ---------------------------------------------------------------------

#[test]
fn flags_cp_chmod_pair() {
    let src = "Name: x\n%install\ncp src dst\nchmod 0755 dst\n";
    let diags = check(CpChmodToInstallM::new(), src);
    assert_eq!(diags.len(), 1, "{diags:?}");
    assert_eq!(diags[0].lint_id, "RPM533");
}

#[test]
fn flags_cp_dir_chmod_file() {
    let src = "Name: x\n%install\ncp script bindir\nchmod 0755 bindir/script\n";
    let diags = check(CpChmodToInstallM::new(), src);
    assert_eq!(diags.len(), 1);
}

#[test]
fn silent_when_chmod_target_unrelated() {
    let src = "Name: x\n%install\ncp src dst\nchmod 0755 other\n";
    assert!(check(CpChmodToInstallM::new(), src).is_empty());
}

#[test]
fn silent_for_lone_cp() {
    let src = "Name: x\n%install\ncp src dst\n";
    assert!(check(CpChmodToInstallM::new(), src).is_empty());
}

// ---------------------------------------------------------------------
// dead_elif
// ---------------------------------------------------------------------

#[test]
fn rpm115_flags_elif_repeating_prior_branch() {
    // `%if A %elif A` — second branch_effective = A ∧ ¬A = ⊥.
    let src = "Name: x\n%if A\n%global foo bar\n%elif A\n%global baz qux\n%endif\n";
    let diags = check(DeadElif::new(), src);
    assert_eq!(diags.len(), 1, "{diags:?}");
    assert_eq!(diags[0].lint_id, "RPM115");
}

#[test]
fn rpm115_silent_for_first_branch_dead() {
    // `%if 0` is RPM072 / RPM113 territory, not RPM115.
    let src = "Name: x\n%if 0\n%global foo bar\n%endif\n";
    assert!(check(DeadElif::new(), src).is_empty());
}

#[test]
fn rpm115_silent_for_satisfiable_elif() {
    let src = "Name: x\n%if A\n%global foo bar\n%elif B\n%global baz qux\n%endif\n";
    assert!(check(DeadElif::new(), src).is_empty());
}

// ---------------------------------------------------------------------
// dep_features
// ---------------------------------------------------------------------

fn features(names: &[&str]) -> Profile {
    let mut p = Profile::default();
    p.rpmlib_features = names.iter().map(|n| (*n).to_string()).collect();
    p
}

fn old_rpm_profile() -> Profile {
    features(&["rpmlib(PartialHardlinkSets)"])
}

fn modern_rpm_profile() -> Profile {
    features(&["rpmlib(RichDependencies)", "rpmlib(MetaDependencies)"])
}

fn run_with_features(src: &str, profile: &Profile) -> Vec<Diagnostic> {
    let spec = parse(src);
    let mut lint = UnsupportedDependencyFeature::new();
    lint.set_profile(profile);
    lint.visit_spec(&spec);
    lint.take_diagnostics()
}

// ----- RPM326 -----

#[test]
fn rpm326_flags_rich_on_old_rpm() {
    let src = "Name: x\nRequires: (foo and bar)\n";
    let diags = run_with_features(src, &old_rpm_profile());
    assert_eq!(diags.len(), 1, "{diags:?}");
    assert_eq!(diags[0].lint_id, "RPM326");
    assert!(diags[0].message.contains("RichDependencies"));
}

#[test]
fn rpm326_silent_on_modern_rpm() {
    let src = "Name: x\nRequires: (foo and bar)\n";
    assert!(run_with_features(src, &modern_rpm_profile()).is_empty());
}

#[test]
fn rpm326_silent_for_plain_atom_on_old_rpm() {
    let src = "Name: x\nRequires: foo\n";
    assert!(run_with_features(src, &old_rpm_profile()).is_empty());
}

#[test]
fn rpm326_silent_when_features_empty() {
    // Generic profile / no showrc — rule has no signal.
    let mut p = Profile::default();
    p.rpmlib_features = Vec::new();
    let src = "Name: x\nRequires: (foo and bar)\n";
    assert!(run_with_features(src, &p).is_empty());
}

#[test]
fn rpm326_flags_meta_qualifier_on_old_rpm() {
    let src = "Name: x\nRequires(meta): foo\n";
    let diags = run_with_features(src, &old_rpm_profile());
    assert_eq!(diags.len(), 1);
    assert!(diags[0].message.contains("MetaDependencies"));
}

// ----- RPM327 -----

#[test]
fn rpm327_flags_meta_plus_pre() {
    let src = "Name: x\nRequires(pre,meta): foo\n";
    let diags = check(ContradictoryDependencyQualifiers::new(), src);
    assert_eq!(diags.len(), 1);
    assert_eq!(diags[0].lint_id, "RPM327");
    assert!(diags[0].message.contains("pre"));
}

#[test]
fn rpm327_flags_meta_plus_post() {
    let src = "Name: x\nRequires(post,meta): foo\n";
    let diags = check(ContradictoryDependencyQualifiers::new(), src);
    assert_eq!(diags.len(), 1);
    assert!(diags[0].message.contains("post"));
}

#[test]
fn rpm327_silent_for_meta_alone() {
    let src = "Name: x\nRequires(meta): foo\n";
    assert!(check(ContradictoryDependencyQualifiers::new(), src).is_empty());
}

#[test]
fn rpm327_silent_for_pre_alone() {
    let src = "Name: x\nRequires(pre): foo\n";
    assert!(check(ContradictoryDependencyQualifiers::new(), src).is_empty());
}

#[test]
fn rpm327_flags_pre_post_meta_triple() {
    // 3-arity: `Requires(pre,post,meta)` — `meta` contradicts both
    // phase qualifiers. One diagnostic per item (first phase wins
    // for the message).
    let src = "Name: x\nRequires(pre,post,meta): foo\n";
    let diags = check(ContradictoryDependencyQualifiers::new(), src);
    assert_eq!(diags.len(), 1, "{diags:?}");
}

#[test]
fn rpm326_flags_combined_rich_and_meta() {
    // Both flavours unsupported on the same old-rpm profile —
    // each yields its own Deny.
    let src = "Name: x\nRequires: (foo and bar)\nRequires(meta): baz\n";
    let diags = run_with_features(src, &old_rpm_profile());
    assert_eq!(diags.len(), 2, "{diags:?}");
}

// ---------------------------------------------------------------------
// dep_health
// ---------------------------------------------------------------------

// ----- RPM320 -----

#[test]
fn rpm320_flags_duplicate_requires() {
    let src = "Name: x\nRequires: foo\nRequires: foo\n";
    let diags = check(DuplicateDependencyAtom::new(), src);
    assert_eq!(diags.len(), 1, "{diags:?}");
    assert_eq!(diags[0].lint_id, "RPM320");
    assert!(diags[0].message.contains("foo"));
}

#[test]
fn rpm320_flags_duplicate_in_one_line_list() {
    let src = "Name: x\nRequires: foo, bar, foo\n";
    let diags = check(DuplicateDependencyAtom::new(), src);
    assert_eq!(diags.len(), 1);
}

#[test]
fn rpm320_silent_for_distinct_atoms() {
    let src = "Name: x\nRequires: foo, bar\n";
    assert!(check(DuplicateDependencyAtom::new(), src).is_empty());
}

#[test]
fn rpm320_flags_duplicate_buildrequires() {
    let src = "Name: x\nBuildRequires: foo\nBuildRequires: foo\n";
    let diags = check(DuplicateDependencyAtom::new(), src);
    assert_eq!(diags.len(), 1);
    assert!(diags[0].message.contains("BuildRequires"));
}

#[test]
fn rpm320_silent_across_different_tags() {
    // `Requires: foo` and `BuildRequires: foo` are separate
    // namespaces; not a duplicate.
    let src = "Name: x\nRequires: foo\nBuildRequires: foo\n";
    assert!(check(DuplicateDependencyAtom::new(), src).is_empty());
}

#[test]
fn rpm320_silent_for_distinct_pkgconfig_capabilities() {
    // `pkgconfig(openssl)`
    // and `pkgconfig(zlib)` both parse with `name = "pkgconfig"`,
    // but the arch qualifier distinguishes them.
    let src = "Name: x\nRequires: pkgconfig(openssl)\nRequires: pkgconfig(zlib)\n";
    assert!(check(DuplicateDependencyAtom::new(), src).is_empty(), "{:?}", check(DuplicateDependencyAtom::new(), src));
}

#[test]
fn rpm320_flags_identical_pkgconfig_capability() {
    let src = "Name: x\nRequires: pkgconfig(openssl)\nRequires: pkgconfig(openssl)\n";
    let diags = check(DuplicateDependencyAtom::new(), src);
    assert_eq!(diags.len(), 1);
    assert!(diags[0].message.contains("pkgconfig(openssl)"));
}

#[test]
fn rpm320_flags_duplicate_inside_subpackage() {
    let src = "Name: x\n\
%package devel\n\
Summary: dev\n\
Requires: foo\n\
Requires: foo\n\
%description devel\nbody\n";
    let diags = check(DuplicateDependencyAtom::new(), src);
    assert_eq!(diags.len(), 1);
}

// ----- RPM321 -----

#[test]
fn rpm321_flags_recommends_shadowed_by_requires() {
    let src = "Name: x\nRequires: foo\nRecommends: foo\n";
    let diags = check(WeakDepDuplicatesStrongDep::new(), src);
    assert_eq!(diags.len(), 1);
    assert_eq!(diags[0].lint_id, "RPM321");
}

#[test]
fn rpm321_flags_suggests_shadowed() {
    let src = "Name: x\nRequires: foo\nSuggests: foo\n";
    assert_eq!(check(WeakDepDuplicatesStrongDep::new(), src).len(), 1);
}

#[test]
fn rpm321_flags_supplements_shadowed() {
    let src = "Name: x\nRequires: foo\nSupplements: foo\n";
    let diags = check(WeakDepDuplicatesStrongDep::new(), src);
    assert_eq!(diags.len(), 1);
    assert!(diags[0].message.contains("Supplements"));
}

#[test]
fn rpm321_flags_enhances_shadowed() {
    let src = "Name: x\nRequires: foo\nEnhances: foo\n";
    let diags = check(WeakDepDuplicatesStrongDep::new(), src);
    assert_eq!(diags.len(), 1);
    assert!(diags[0].message.contains("Enhances"));
}

#[test]
fn rpm321_silent_when_weak_is_distinct() {
    let src = "Name: x\nRequires: foo\nRecommends: bar\n";
    assert!(check(WeakDepDuplicatesStrongDep::new(), src).is_empty());
}

#[test]
fn rpm321_silent_without_requires() {
    let src = "Name: x\nRecommends: foo\n";
    assert!(check(WeakDepDuplicatesStrongDep::new(), src).is_empty());
}

#[test]
fn rpm321_silent_for_distinct_pkgconfig_capabilities() {
    // pkgconfig(openssl) vs pkgconfig(zlib) — distinct keys.
    let src = "Name: x\nRequires: pkgconfig(openssl)\nRecommends: pkgconfig(zlib)\n";
    assert!(check(WeakDepDuplicatesStrongDep::new(), src).is_empty(), "{:?}", check(WeakDepDuplicatesStrongDep::new(), src));
}

// ----- RPM322 -----

#[test]
fn rpm322_flags_self_recommends() {
    let src = "Name: foo\nRecommends: foo\n";
    let diags = check(SelfWeakDependency::new(), src);
    assert_eq!(diags.len(), 1);
    assert_eq!(diags[0].lint_id, "RPM322");
}

#[test]
fn rpm322_flags_self_suggests() {
    let src = "Name: foo\nSuggests: foo\n";
    assert_eq!(check(SelfWeakDependency::new(), src).len(), 1);
}

#[test]
fn rpm322_flags_self_supplements() {
    let src = "Name: foo\nSupplements: foo\n";
    assert_eq!(check(SelfWeakDependency::new(), src).len(), 1);
}

#[test]
fn rpm322_flags_self_enhances() {
    let src = "Name: foo\nEnhances: foo\n";
    assert_eq!(check(SelfWeakDependency::new(), src).len(), 1);
}

#[test]
fn rpm322_silent_for_other_package() {
    let src = "Name: foo\nRecommends: bar\n";
    assert!(check(SelfWeakDependency::new(), src).is_empty());
}

#[test]
fn rpm322_silent_when_strong_self_dep() {
    // Requires self isn't covered by RPM322; that's a separate
    // smell (RPM033 self-obsoletion / similar). Make sure 322
    // only fires on weak deps.
    let src = "Name: foo\nRequires: foo\n";
    assert!(check(SelfWeakDependency::new(), src).is_empty());
}

#[test]
fn rpm322_silent_for_capability_with_same_name() {
    // `Name: foo` + `Recommends: foo(bar)` — capability has an
    // arch qualifier, so it's conceptually a different thing
    // from the package itself.
    let src = "Name: foo\nRecommends: foo(bar)\n";
    assert!(check(SelfWeakDependency::new(), src).is_empty());
}

// ----- RPM323 -----

#[test]
fn rpm323_flags_gcc_in_requires() {
    let src = "Name: x\nRequires: gcc\n";
    let diags = check(RuntimeRequiresLooksLikeBuildRequires::new(), src);
    assert_eq!(diags.len(), 1);
    assert_eq!(diags[0].lint_id, "RPM323");
    assert!(diags[0].message.contains("build tool"));
}

#[test]
fn rpm323_flags_meson_in_requires() {
    let src = "Name: x\nRequires: meson\n";
    assert_eq!(check(RuntimeRequiresLooksLikeBuildRequires::new(), src).len(), 1);
}

#[test]
fn rpm323_flags_cargo_in_requires() {
    let src = "Name: x\nRequires: cargo\n";
    assert_eq!(check(RuntimeRequiresLooksLikeBuildRequires::new(), src).len(), 1);
}

#[test]
fn rpm323_flags_devel_subpackage() {
    let src = "Name: x\nRequires: openssl-devel\n";
    let diags = check(RuntimeRequiresLooksLikeBuildRequires::new(), src);
    assert_eq!(diags.len(), 1);
    assert!(diags[0].message.contains("development"));
}

#[test]
fn rpm323_flags_dev_subpackage() {
    let src = "Name: x\nRequires: libfoo-dev\n";
    let diags = check(RuntimeRequiresLooksLikeBuildRequires::new(), src);
    assert_eq!(diags.len(), 1);
    assert!(diags[0].message.contains("development"));
}

#[test]
fn rpm323_flags_static_subpackage() {
    let src = "Name: x\nRequires: libfoo-static\n";
    let diags = check(RuntimeRequiresLooksLikeBuildRequires::new(), src);
    assert_eq!(diags.len(), 1);
    assert!(diags[0].message.contains("static-library"));
}

#[test]
fn rpm323_flags_pkgconfig_capability() {
    let src = "Name: x\nRequires: pkgconfig(openssl)\n";
    let diags = check(RuntimeRequiresLooksLikeBuildRequires::new(), src);
    assert_eq!(diags.len(), 1);
    assert!(diags[0].message.contains("pkgconfig(openssl)"));
}

#[test]
fn rpm323_flags_cmake_capability() {
    let src = "Name: x\nRequires: cmake(Foo)\n";
    let diags = check(RuntimeRequiresLooksLikeBuildRequires::new(), src);
    assert_eq!(diags.len(), 1);
    assert!(diags[0].message.contains("cmake(...)"));
}

#[test]
fn rpm323_silent_for_runtime_dep() {
    let src = "Name: x\nRequires: glibc\n";
    assert!(check(RuntimeRequiresLooksLikeBuildRequires::new(), src).is_empty());
}

#[test]
fn rpm323_silent_for_buildrequires() {
    // BuildRequires: gcc is correct — RPM323 only inspects Requires.
    let src = "Name: x\nBuildRequires: gcc\n";
    assert!(check(RuntimeRequiresLooksLikeBuildRequires::new(), src).is_empty());
}

// ---------------------------------------------------------------------
// dependency_constraint_subsumption
// ---------------------------------------------------------------------

#[test]
fn flags_unversioned_when_versioned_present() {
    let src = "Name: x\nRequires: foo\nRequires: foo >= 1.2\n";
    let diags = check(DependencyConstraintSubsumption::new(), src);
    assert_eq!(diags.len(), 1, "{diags:?}");
    assert_eq!(diags[0].lint_id, "RPM596");
}

#[test]
fn silent_when_only_versioned() {
    let src = "Name: x\nRequires: foo >= 1.2\n";
    assert!(check(DependencyConstraintSubsumption::new(), src).is_empty());
}

#[test]
fn silent_when_only_unversioned() {
    let src = "Name: x\nRequires: foo\n";
    assert!(check(DependencyConstraintSubsumption::new(), src).is_empty());
}

#[test]
fn silent_across_different_tags() {
    let src = "Name: x\nRequires: foo\nBuildRequires: foo >= 1.2\n";
    assert!(check(DependencyConstraintSubsumption::new(), src).is_empty());
}

#[test]
fn fires_inside_subpackage() {
    let src = "Name: x\n%package devel\nSummary: dev\nRequires: bar\nRequires: bar = 1\n\
%description devel\nbody\n";
    let diags = check(DependencyConstraintSubsumption::new(), src);
    assert_eq!(diags.len(), 1, "{diags:?}");
}

// ---------------------------------------------------------------------
// deprecated_clean_section
// ---------------------------------------------------------------------

fn run_with_family(src: &str, of: Option<Family>) -> Vec<Diagnostic> {
    let spec = parse(src);
    let mut lint = DeprecatedCleanSection::new();
    lint.set_profile(&family(of));
    lint.visit_spec(&spec);
    lint.take_diagnostics()
}

#[test]
fn flags_clean_section() {
    let src = "Name: x\n%clean\nrm -rf %{buildroot}\n";
    let diags = check(DeprecatedCleanSection::new(), src);
    assert_eq!(diags.len(), 1);
    assert_eq!(diags[0].lint_id, "RPM021");
    // No profile set → autofix_safe() defaults to true.
    assert!(!diags[0].suggestions.is_empty());
    assert_eq!(
        diags[0].suggestions[0].applicability,
        Applicability::MachineApplicable
    );
}

#[test]
fn silent_when_no_clean_section() {
    let src = "Name: x\n%build\nmake\n";
    assert!(check(DeprecatedCleanSection::new(), src).is_empty());
}

#[test]
fn fedora_autofix_is_machine_applicable() {
    let diags = run_with_family(
        "Name: x\n%clean\nrm -rf %{buildroot}\n",
        Some(Family::Fedora),
    );
    assert_eq!(diags.len(), 1);
    assert_eq!(
        diags[0].suggestions[0].applicability,
        Applicability::MachineApplicable,
        "Fedora: %clean is obsolete; autofix is safe"
    );
}

#[test]
fn rhel_autofix_is_machine_applicable() {
    let diags = run_with_family("Name: x\n%clean\nrm -rf %{buildroot}\n", Some(Family::Rhel));
    assert_eq!(
        diags[0].suggestions[0].applicability,
        Applicability::MachineApplicable
    );
}

#[test]
fn opensuse_degrades_to_manual_hint() {
    let diags = run_with_family(
        "Name: x\n%clean\nrm -rf %{buildroot}\n",
        Some(Family::Opensuse),
    );
    assert_eq!(diags.len(), 1, "warning still fires");
    assert_eq!(
        diags[0].suggestions[0].applicability,
        Applicability::Manual,
        "openSUSE: don't auto-delete — some specs still rely on %clean"
    );
    // No edits attached on the Manual path.
    assert!(diags[0].suggestions[0].edits.is_empty());
}

#[test]
fn alt_degrades_to_manual_hint() {
    let diags = run_with_family("Name: x\n%clean\nrm -rf %{buildroot}\n", Some(Family::Alt));
    assert_eq!(diags[0].suggestions[0].applicability, Applicability::Manual);
}

#[test]
fn unknown_family_preserves_legacy_autofix() {
    // Without a family the fix is machine-applicable.
    let diags = run_with_family("Name: x\n%clean\nrm -rf %{buildroot}\n", None);
    assert_eq!(
        diags[0].suggestions[0].applicability,
        Applicability::MachineApplicable
    );
}

// ---------------------------------------------------------------------
// What every rule keeps
// ---------------------------------------------------------------------

#[test]
fn taking_the_diagnostics_leaves_none() {
    let spec = parse("Name: x\n%if 1\nVersion: 1\n%endif\n");
    let mut lint = ConstantCondition::new();
    lint.visit_spec(&spec);
    assert_eq!(lint.take_diagnostics().len(), 1);
    assert!(lint.take_diagnostics().is_empty());
}

#[test]
fn visiting_twice_adds_to_what_was_said() {
    let spec = parse("Name: x\n%if 1\nVersion: 1\n%endif\n%if 0\nVersion: 2\n%endif\n");
    let mut lint = ConstantCondition::new();
    lint.visit_spec(&spec);
    lint.visit_spec(&spec);
    let diags = lint.take_diagnostics();
    assert_eq!(diags.len(), 4);
    assert!(diags[0].message.contains("always true"));
    assert!(diags[1].message.contains("always false"));
    assert_eq!(diags[0].message, diags[2].message);
    assert_eq!(diags[1].message, diags[3].message);
}

#[test]
fn metadata_names_the_rule() {
    let m = DeadElif::new().metadata();
    assert_eq!(m.id, "RPM115");
    assert_eq!(m.name, "dead-elif-after-parent");
    assert_eq!(ConditionCommonFactor::new().metadata().id, "RPM432");
    assert_eq!(ArchSubsetUnderParent::new().metadata().name, "arch-subset-under-parent");
}

// ---------------------------------------------------------------------
// Nested conditions
// ---------------------------------------------------------------------

#[test]
fn a_branch_under_its_own_condition_is_implied() {
    let src = "Name: x\n%if A || B\n%if B || A\nVersion: 1\n%endif\n%endif\n";
    let diags = check(AlwaysTrueBranch::new(), src);
    assert_eq!(diags.len(), 1, "{diags:?}");
    assert_eq!(
        diags[0].message,
        "`%if` condition is implied by the enclosing path; the test is redundant"
    );
    assert_eq!(diags[0].primary_span.start_byte, src.find("%if B").unwrap());
}

#[test]
fn an_else_knows_that_the_branch_failed() {
    let src = "Name: x\n%if A\nVersion: 1\n%else\n%if !A\nVersion: 2\n%endif\n%endif\n";
    assert_eq!(check(AlwaysTrueBranch::new(), src).len(), 1);
}

#[test]
fn an_elif_that_contradicts_the_path_is_dead() {
    let src = "Name: x\n%if A\n%if B\nVersion: 1\n%elif !A && C\nVersion: 2\n%endif\n%endif\n";
    let diags = check(DeadElif::new(), src);
    assert_eq!(diags.len(), 1, "{diags:?}");
    assert_eq!(
        diags[0].message,
        "`%elif` branch cannot be satisfied under the path-condition and preceding sibling negations"
    );
    assert_eq!(diags[0].primary_span.start_byte, src.find("%elif").unwrap());
}

#[test]
fn nothing_is_said_under_an_unknown_condition() {
    let src = "Name: x\n%if 1 + 2 == 3\n%if A\n%if A\nVersion: 1\n%endif\n%endif\n%endif\n";
    assert!(check(AlwaysTrueBranch::new(), src).is_empty());
}

#[test]
fn lists_after_ifnarch_are_negated() {
    // The inner block is never taken.
    let src = "Name: x\n%ifarch x86_64\n%ifnarch x86_64\nVersion: 1\n%endif\n%endif\n";
    assert!(check(AlwaysTrueBranch::new(), src).is_empty());
    // These are always taken.
    let src = "Name: x\n%ifnarch x86_64 i686\n%ifnarch i686\nVersion: 1\n%endif\n%endif\n";
    assert_eq!(check(AlwaysTrueBranch::new(), src).len(), 1);
    let src = "Name: x\n%ifos linux\n%ifos linux\nVersion: 1\n%endif\n%endif\n";
    assert_eq!(check(AlwaysTrueBranch::new(), src).len(), 1);
}

#[test]
fn systems_are_not_architectures() {
    let src = "Name: x\n%ifarch sun4\n%ifos sun4\nVersion: 1\n%endif\n%endif\n";
    assert!(check(AlwaysTrueBranch::new(), src).is_empty());
    let src = "Name: x\n%ifnos linux\n%ifnos linux bsd\nVersion: 1\n%endif\n%endif\n";
    assert!(check(AlwaysTrueBranch::new(), src).is_empty());
    assert_eq!(check(ContextRedundantPart::new(), src).len(), 1);
}

#[test]
fn an_elif_after_ifnarch_can_be_taken() {
    let src = "Name: x\n%ifnarch x86_64\nVersion: 1\n%elifarch x86_64\nVersion: 2\n%endif\n";
    assert!(check(DeadElif::new(), src).is_empty());
    assert!(check(UnreachableElifBranch::new(), src).is_empty());
    let src = "Name: x\n%ifarch x86_64\nVersion: 1\n%elifarch x86_64\nVersion: 2\n%endif\n";
    assert_eq!(check(DeadElif::new(), src).len(), 1);
    assert_eq!(check(UnreachableElifBranch::new(), src).len(), 1);
}

#[test]
fn blocks_with_opposite_keywords_are_not_merged() {
    let src = "Name: x\n%ifarch x86_64\nVersion: 1\n%endif\n%ifnarch x86_64\nRelease: 1\n%endif\n";
    assert!(check(AdjacentMergeableConditionals::new(), src).is_empty());
    let src = "Name: x\n%ifnarch x86_64\nVersion: 1\n%endif\n%ifnarch x86_64\nRelease: 1\n%endif\n";
    assert_eq!(check(AdjacentMergeableConditionals::new(), src).len(), 1);
}

#[test]
fn a_repeated_test_passes_only_inside_its_own_branch() {
    let src = "Name: x\n%if 7 > 3\nVersion: 1\n%else\n%if 7 > 3\nVersion: 2\n%endif\n%endif\n";
    assert!(check(RedundantNestedCondition::new(), src).is_empty());
    let src = "Name: x\n%ifarch x86_64\n%ifnarch x86_64\nVersion: 1\n%endif\n%endif\n";
    assert!(check(RedundantNestedCondition::new(), src).is_empty());
    let src = "Name: x\n%ifnarch x86_64\n%ifnarch x86_64\nVersion: 1\n%endif\n%endif\n";
    assert_eq!(check(RedundantNestedCondition::new(), src).len(), 1);
}

#[test]
fn an_empty_list_after_ifnarch_is_not_always_false() {
    let branch = |kind: CondKind| {
        spec_of(kind, CondExpr::ArchList(Vec::new()))
    };
    assert!(visit(IfarchEmptyList::new(), &branch(CondKind::IfNArch)).is_empty());
    assert!(visit(IfarchEmptyList::new(), &branch(CondKind::IfNOs)).is_empty());
    assert_eq!(visit(IfarchEmptyList::new(), &branch(CondKind::IfArch)).len(), 1);
    assert_eq!(visit(IfarchEmptyList::new(), &branch(CondKind::ElifOs)).len(), 1);
}

#[test]
fn only_ifnarch_is_flipped_to_its_complement() {
    let universe = ["x86_64", "aarch64", "i686"];
    let list = || CondExpr::ArchList(vec![literal("x86_64"), literal("i686")]);
    let found = |kind: CondKind| {
        let mut lint = ArchComplementShorter::new();
        lint.set_profile(&universe_of(&universe));
        visit(lint, &spec_of(kind, list())).len()
    };
    assert_eq!(found(CondKind::IfNArch), 1);
    assert_eq!(found(CondKind::ElifOs), 0);
    assert_eq!(found(CondKind::IfArch), 0);
}

#[test]
fn patterns_are_not_copied_by_install() {
    for source in ["a*.txt", "a?.txt", "[ab].txt"] {
        let src = format!("Name: x\n%install\ncp {source} dst\nchmod 0644 dst\n");
        assert!(check(CpChmodToInstallM::new(), &src).is_empty(), "{source}");
    }
}

/// The label that is given for an expression that was not parsed.
fn raw_label(expr: &str) -> Option<String> {
    let spec = spec_of(CondKind::If, CondExpr::Raw(literal(expr)));
    visit(ConstantTautologyInExpr::new(), &spec)
        .first()
        .map(|d| d.message.clone())
}

#[test]
fn constant_operands_of_a_text_count_outside_brackets() {
    let says = |label: &str| Some(format!("condition is {label}; simplify or drop the guard"));
    assert_eq!(raw_label("X || 1"), says("always-true (`|| 1`)"));
    assert_eq!(raw_label("(X && Y) || true"), says("always-true (`|| 1`)"));
    assert_eq!(raw_label("1 || X"), says("always-true (`1 ||`)"));
    assert_eq!(raw_label("X && 0"), says("always-false (`&& 0`)"));
    assert_eq!(raw_label("false && X && Y"), says("always-false (`0 &&`)"));
    assert_eq!(raw_label("X && Y || 1"), says("always-true (`|| 1`)"));
    // Inside brackets, beside an operator that binds otherwise, in a string,
    // or with more to the operand.
    assert_eq!(raw_label("(X || 1) && Y"), None);
    assert_eq!(raw_label("(X && 0) || Y"), None);
    assert_eq!(raw_label("X && 0 || Y"), None);
    assert_eq!(raw_label("X || 1 && Y"), None);
    assert_eq!(raw_label("X == \"a || 1\""), None);
    assert_eq!(raw_label("X || 10"), None);
    assert_eq!(raw_label("21 || X"), None);
    assert_eq!(raw_label("X || 1 == Y"), None);
    assert_eq!(raw_label("%{x} || 1"), None);
}

#[test]
fn a_constant_operand_of_a_part_is_said_of_the_part() {
    let message = |expr: &str| {
        let src = format!("Name: x\n%if {expr}\nVersion: 1\n%endif\n");
        let diags = check(ConstantTautologyInExpr::new(), &src);
        assert_eq!(diags.len(), 1, "{diags:?}");
        diags[0].message.clone()
    };
    assert_eq!(
        message("(X || 1) && Y"),
        "part of the condition is always-true (`|| 1`); simplify or drop the guard"
    );
    assert_eq!(
        message("!(X && 0)"),
        "part of the condition is always-false (`&& 0`); simplify or drop the guard"
    );
    assert_eq!(
        message("(X && 0) || (Y || 1)"),
        "condition is always-true (`|| 1`); simplify or drop the guard"
    );
    assert_eq!(
        message("X && (Y && 0)"),
        "condition is always-false (`&& 0`); simplify or drop the guard"
    );
}

#[test]
fn nothing_is_hoisted_before_an_item_without_text() {
    // A blank line follows what the arms share.
    let src = "Name: x\n%if A\nLicense: MIT\n\nVersion: 1\n%else\nLicense: MIT\n\nVersion: 2\n%endif\n";
    assert!(check(HoistCommonPrefix::new().with_source(src), src).is_empty());
    let src = "Name: x\n%if A\nLicense: MIT\nVersion: 1\n%else\nLicense: MIT\nVersion: 2\n%endif\n";
    assert_eq!(check(HoistCommonPrefix::new().with_source(src), src).len(), 1);
    // A blank line stands before what they share at the end.
    let src = "Name: x\n%if A\nVersion: 1\n\nLicense: MIT\n%else\nVersion: 2\n\nLicense: MIT\n%endif\n";
    assert!(check(HoistCommonSuffix::new().with_source(src), src).is_empty());
    let src = "Name: x\n%if A\nVersion: 1\nLicense: MIT\n%else\nVersion: 2\nLicense: MIT\n%endif\n";
    assert_eq!(check(HoistCommonSuffix::new().with_source(src), src).len(), 1);
    // One arm is enough.
    let src = "Name: x\n%if A\nLicense: MIT\n\nVersion: 1\n%else\nLicense: MIT\nVersion: 2\n%endif\n";
    assert!(check(HoistCommonPrefix::new().with_source(src), src).is_empty());
}

#[test]
fn an_else_with_other_lines_is_no_block_of_build_requires() {
    let src = "Name: x\n%if 1\nBuildRequires: foo\n%else\nVersion: 2\n%endif\n";
    assert!(check(IfOnlyBuildRequires::new(), src).is_empty());
    let src = "Name: x\n%if 1\nBuildRequires: foo\n%else\nBuildRequires: bar\n%endif\n";
    assert_eq!(check(IfOnlyBuildRequires::new(), src).len(), 1);
}

#[test]
fn a_negated_option_may_stand_in_brackets() {
    for expr in ["(!%{with tests})", "!(%{with tests})", "((!(%{with tests})))"] {
        let src = format!("Name: x\n%if {expr}\nLicense: MIT\n%endif\n");
        let diags = check(BcondNegationCanonical::new(), &src);
        assert_eq!(diags.len(), 1, "{expr}");
        assert!(diags[0].message.contains("%{without tests}"));
    }
}

#[test]
fn an_option_joined_to_a_number_is_used() {
    let at = Span::from_bytes(3, 9);
    let joined = || {
        CondExpr::Parsed(Box::new(ExprAst::NumericConcat {
            parts: vec![
                ConcatPart::Literal("0".to_string()),
                ConcatPart::Macro("%{with docs}".to_string()),
            ],
            data: at,
        }))
    };
    let undeclared = visit(WithConditionWithoutBcond::new(), &spec_of(CondKind::If, joined()));
    assert_eq!(undeclared.len(), 1, "{undeclared:?}");
    assert_eq!(undeclared[0].primary_span, at);
    let mut spec = spec_of(CondKind::If, joined());
    spec.items.push(Item::BuildCondition(BuildCondition {
        style: BuildCondStyle::BcondWith,
        name: "docs".to_string(),
        default: None,
        data: at,
    }));
    assert!(visit(BcondDefinedButUnused::new(), &spec).is_empty());
}

#[test]
fn an_item_that_no_rule_reads_breaks_adjacency() {
    let block = || spec_of(CondKind::If, CondExpr::Raw(literal("1"))).items.remove(0);
    let spec = |between: Item| SpecFile {
        items: vec![block(), between, block()],
        data: Span::from_bytes(0, 0),
    };
    assert_eq!(visit(AdjacentMergeableConditionals::new(), &spec(Item::Blank)).len(), 1);
    assert!(visit(AdjacentMergeableConditionals::new(), &spec(Item::Other)).is_empty());
}

#[test]
fn an_empty_else_is_not_swapped() {
    let src = "Name: x\n%if !X\nLicense: MIT\n%else\n\n%endif\n";
    assert!(check(InvertedIfElse::new(), src).is_empty());
}

#[test]
fn mentions_do_not_outlive_the_report() {
    let mut src = String::from("Name: x\n");
    for i in 0..6 {
        src.push_str(&format!("%if 7 > 3\nVersion: {i}\n%endif\n"));
    }
    let mut lint = ConditionMentionedManyTimes::new();
    lint.visit_spec(&parse(&src));
    let first = lint.take_diagnostics();
    assert!(lint.mentions.is_empty());
    lint.visit_spec(&parse(&src));
    assert_eq!(lint.take_diagnostics().len(), first.len());
}

#[test]
fn tools_can_be_given() {
    let mut lint = BuildToolUsedWithoutBuildRequires::new();
    lint.set_tools(vec![ToolPackage {
        tool: "scons",
        package: "python3-scons",
    }]);
    let diags = check(lint, "Name: x\n%build\nscons\ncmake .\n");
    assert_eq!(diags.len(), 1, "{diags:?}");
    assert!(diags[0].message.contains("BuildRequires: python3-scons"));
}

#[test]
fn rearranged_lines_are_not_a_subset() {
    let src = "Name: x\n%package devel\nSummary: dev\n\
%if A\nRequires: foo\nRequires: bar\n%else\nRequires: bar\nRequires: foo\n%endif\n\
%description devel\nbody\n";
    assert!(check(BranchItemSubset::new().with_source(src), src).is_empty());
}

#[test]
fn implied_operands_are_counted() {
    let src = "Name: x\n%if A && B\n%if A && B && C\nVersion: 1\n%endif\n%endif\n";
    let diags = check(ContextRedundantPart::new(), src);
    assert_eq!(diags.len(), 1, "{diags:?}");
    assert_eq!(
        diags[0].message,
        "`%if` expression contains 2 operand(s) already implied by the enclosing path; drop them"
    );
}

#[test]
fn three_guards_can_cover_every_case() {
    let src = "Name: x\n%if A\nRequires: foo\n%elif B\nRequires: foo\n%else\nRequires: foo\n%endif\n";
    let diags = check(ComplementaryGuardsSameItem::new(), src);
    assert_eq!(diags.len(), 3, "{diags:?}");
    assert_eq!(
        diags[0].message,
        "`Requires: foo` is paired with complementary guards covering every assignment — make it unconditional"
    );
}

#[test]
fn exclusive_blocks_can_be_one_chain() {
    let src = "Name: x\n%if A && B\nVersion: 1\n%endif\n%if !A\nVersion: 2\n%endif\n";
    let diags = check(AdjacentMutexIfs::new().with_source(src), src);
    assert_eq!(diags.len(), 1, "{diags:?}");
    assert_eq!(diags[0].primary_span.start_byte, src.find("%if !A").unwrap());
}

// ---------------------------------------------------------------------
// Expressions
// ---------------------------------------------------------------------

#[test]
fn redundancy_counts_the_cubes() {
    let src = "Name: x\n%if (A && B) || A || C\nVersion: 1\n%endif\n";
    let diags = check(BooleanDnfRedundancy::new(), src);
    assert_eq!(diags.len(), 1, "{diags:?}");
    assert_eq!(
        diags[0].message,
        "boolean expression has 3 top-level cubes that normalise to 2; some operands are absorbed by others"
    );
}

#[test]
fn common_factors_are_counted() {
    let src = "Name: x\n%if (A && B && C) || (A && B && D)\nVersion: 1\n%endif\n";
    let diags = check(ConditionCommonFactor::new(), src);
    assert_eq!(diags.len(), 1, "{diags:?}");
    assert_eq!(
        diags[0].message,
        "`%if` expression has 2 cube(s) all sharing 2 common literal(s); factor the shared operand(s) out"
    );
}

#[test]
fn absorption_works_in_either_order() {
    let src = "Name: x\n%if (B && A) || A\nVersion: 1\n%endif\n";
    assert_eq!(check(AbsorptionInExpr::new(), src).len(), 1);
    let src = "Name: x\n%if A && (B || (A))\nVersion: 1\n%endif\n";
    assert_eq!(check(AbsorptionInExpr::new(), src).len(), 1);
}

#[test]
fn strings_with_macros_keep_a_constant_operand_quiet() {
    let src = "Name: x\n%if \"%{x}\" == \"a\" || 1\nVersion: 1\n%endif\n";
    assert!(check(ConstantTautologyInExpr::new(), src).is_empty());
    let src = "Name: x\n%if \"x\" == \"a\" || 1\nVersion: 1\n%endif\n";
    assert_eq!(check(ConstantTautologyInExpr::new(), src).len(), 1);
}

// ---------------------------------------------------------------------
// Architectures
// ---------------------------------------------------------------------

#[test]
fn overlapping_architectures_are_listed_in_order() {
    let src = "Name: x\nExclusiveArch: x86_64 s390x aarch64\nExcludeArch: s390x aarch64\n";
    let diags = check(ArchPolicyContradiction::new(), src);
    assert_eq!(diags.len(), 1, "{diags:?}");
    assert_eq!(
        diags[0].message,
        "`ExclusiveArch` and `ExcludeArch` both list `aarch64, s390x` — either include or exclude, not both"
    );
    assert_eq!(diags[0].labels.len(), 1);
    assert_eq!(diags[0].labels[0].message, "`ExclusiveArch:` declared here");
}

#[test]
fn the_complement_is_counted() {
    let mut lint = ArchComplementShorter::new();
    lint.set_profile(&universe_of(&["a", "b", "c", "d"]));
    let diags = check(lint, "Name: x\n%ifnarch a b c\nVersion: 1\n%endif\n");
    assert_eq!(diags.len(), 1, "{diags:?}");
    assert_eq!(
        diags[0].message,
        "`%ifnarch` excludes 3 arches; the complement against the profile universe is 1 arches — flip to `%ifarch`"
    );
}

#[test]
fn a_repeated_architecture_is_cut_out() {
    let src = "Name: x\n%ifarch x86_64 s390x x86_64\nVersion: 1\n%endif\n";
    let diags = check(DuplicateArchInList::new().with_source(src), src);
    assert_eq!(diags.len(), 1, "{diags:?}");
    let suggestion = &diags[0].suggestions[0];
    assert_eq!(suggestion.applicability, Applicability::MachineApplicable);
    assert_eq!(suggestion.edits.len(), 1);
    let edit = &suggestion.edits[0];
    let mut fixed = src.to_string();
    fixed.replace_range(edit.span.start_byte..edit.span.end_byte, &edit.replacement);
    assert_eq!(fixed, "Name: x\n%ifarch x86_64 s390x\nVersion: 1\n%endif\n");
    assert!(check(DuplicateArchInList::new().with_source(&fixed), &fixed).is_empty());
}

#[test]
fn inverting_names_the_opposite_keyword() {
    let src = "Name: x\n%ifnos linux\n%else\nVersion: 1\n%endif\n";
    let diags = check(InvertEmptyIfArch::new(), src);
    assert_eq!(diags.len(), 1, "{diags:?}");
    assert!(diags[0].message.contains("ifos"));
}

// ---------------------------------------------------------------------
// Options
// ---------------------------------------------------------------------

#[test]
fn conditional_queries_name_their_option() {
    let src = "Name: x\n%if %{?with gui}\nVersion: 1\n%endif\n";
    let diags = check(WithConditionWithoutBcond::new(), src);
    assert_eq!(diags.len(), 1, "{diags:?}");
    assert!(diags[0].message.contains("`%{with gui}`"), "{diags:?}");
}

#[test]
fn options_are_unused_or_undeclared_never_both() {
    let src = "%bcond_with tests\n%bcond_without docs\nName: x\n%if %{with tests}\nVersion: 1\n%endif\n%if %{with gui}\nVersion: 2\n%endif\n";
    let unused = check(BcondDefinedButUnused::new(), src);
    let undeclared = check(WithConditionWithoutBcond::new(), src);
    assert_eq!(unused.len(), 1, "{unused:?}");
    assert!(unused[0].message.contains("`docs`"));
    assert_eq!(undeclared.len(), 1, "{undeclared:?}");
    assert!(undeclared[0].message.contains("gui"));
}

// ---------------------------------------------------------------------
// Changelogs
// ---------------------------------------------------------------------

fn day(year: i32, month: u8, day: u8) -> Today {
    Today { year, month, day }
}

fn dated(entry: &str) -> String {
    format!("Name: x\nVersion: 1\nRelease: 1\n%changelog\n* {entry} A B <a@b> - 1-1\n- text\n")
}

#[test]
fn today_can_be_given() {
    let src = dated("Fri Jan 02 2026");
    assert_eq!(check(ChangelogFutureDate::with_today(day(2025, 12, 31)), &src).len(), 1);
    assert_eq!(check(ChangelogFutureDate::with_today(day(2026, 1, 1)), &src).len(), 1);
    assert!(check(ChangelogFutureDate::with_today(day(2026, 1, 2)), &src).is_empty());
    assert!(check(ChangelogFutureDate::with_today(day(2026, 1, 3)), &src).is_empty());
}

#[test]
fn an_entry_later_in_the_year_is_future() {
    let src = dated("Tue Dec 31 2024");
    let diags = check(ChangelogFutureDate::with_today(day(2024, 3, 1)), &src);
    assert_eq!(diags.len(), 1, "{diags:?}");
    assert_eq!(diags[0].lint_id, "RPM038");
    assert_eq!(
        diags[0].message,
        "changelog entry dated 2024 — future entries are usually typos"
    );
    // A day later in the month, and one that the calendar does not have.
    let next = dated("Sat Mar 02 2024");
    assert_eq!(check(ChangelogFutureDate::with_today(day(2024, 3, 1)), &next).len(), 1);
    let never = dated("Sat Jun 31 2024");
    assert!(check(ChangelogFutureDate::with_today(day(2024, 3, 1)), &never).is_empty());
    assert_eq!(check(ChangelogFutureDate::with_today(day(2023, 3, 1)), &never).len(), 1);
}

#[test]
fn a_year_too_far_ahead_is_future_as_well() {
    let src = dated("Fri Jan 02 2026");
    let far = check(ChangelogImplausibleDate::with_current_year(2020), &src);
    assert_eq!(far.len(), 1, "{far:?}");
    assert_eq!(
        far[0].message,
        "implausible changelog date: year `2026` is too far in the future (current is 2020)"
    );
    assert_eq!(check(ChangelogFutureDate::with_today(day(2020, 6, 1)), &src).len(), 1);
    assert!(check(ChangelogImplausibleDate::with_current_year(2021), &src).is_empty());
}

#[test]
fn implausible_days_and_years_are_named() {
    let far = check(ChangelogImplausibleDate::with_current_year(2025), &dated("Fri Jan 02 1989"));
    assert_eq!(
        far[0].message,
        "implausible changelog date: year `1989` is before 1990 — likely a two-digit typo"
    );
    let day = check(ChangelogImplausibleDate::with_current_year(2025), &dated("Fri Jan 45 2024"));
    assert_eq!(
        day[0].message,
        "implausible changelog date: day-of-month `45` is outside 1..=31"
    );
}

#[test]
fn a_wrong_weekday_is_corrected() {
    // 2024-01-02 was a Tuesday.
    let diags = check(ChangelogOrderWeekdayEvr::new(), &dated("Fri Jan 02 2024"));
    assert_eq!(diags.len(), 1, "{diags:?}");
    assert!(diags[0].message.contains("2024-01-02"), "{diags:?}");
    assert!(diags[0].message.contains("Tue"), "{diags:?}");
    assert!(check(ChangelogOrderWeekdayEvr::new(), &dated("Tue Jan 02 2024")).is_empty());
}

// ---------------------------------------------------------------------
// Layout
// ---------------------------------------------------------------------

#[test]
fn sections_in_the_usual_order_are_left_alone() {
    let src = "Name: x\n%description\nd\n%prep\n%build\n%install\n%check\n%files\n%post\ntrue\n%changelog\n";
    assert!(check(CanonicalMajorSectionOrder::new(), src).is_empty());
    let src = "Name: x\n%description\nd\n%build\n%prep\n%install\n%changelog\n%files\n";
    assert_eq!(check(CanonicalMajorSectionOrder::new(), src).len(), 2);
}

#[test]
fn a_shared_prefix_is_counted() {
    let src = "Name: x\n%if A\nRequires: a\nRequires: b\nRequires: c\n%else\nRequires: a\nRequires: b\nRequires: d\n%endif\n";
    let diags = check(HoistCommonPrefix::new().with_source(src), src);
    assert_eq!(diags.len(), 1, "{diags:?}");
    assert!(diags[0].message.contains('2'), "{diags:?}");
    assert!(check(HoistCommonSuffix::new().with_source(src), src).is_empty());
}

#[test]
fn complementary_blocks_are_a_block_and_its_else() {
    let src = "Name: x\n%ifos linux\nVersion: 1\n%endif\n%ifnos linux\nVersion: 2\n%endif\n";
    assert_eq!(check(IfNotXAfterIfX::new(), src).len(), 1);
}
