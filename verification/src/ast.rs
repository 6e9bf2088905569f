//! The syntax tree of a spec file.
use vstd::prelude::*;

verus! {

/// A range of the source text.
#[derive(Clone, Copy, Debug, PartialEq, Eq, Structural)]
pub struct Span {
    pub start_byte: usize,
    pub end_byte: usize,
    pub start_line: u32,
    pub start_column: u32,
    pub end_line: u32,
    pub end_column: u32,
}

impl Span {
    /// The span of a byte range whose lines and columns are unknown.
    pub open spec fn bytes(start: usize, end: usize) -> Span {
        Span {
            start_byte: start,
            end_byte: end,
            start_line: 0,
            start_column: 0,
            end_line: 0,
            end_column: 0,
        }
    }

    pub fn from_bytes(start_byte: usize, end_byte: usize) -> (r: Span)
        ensures
            r == Span::bytes(start_byte, end_byte),
    {
        Span { start_byte, end_byte, start_line: 0, start_column: 0, end_line: 0, end_column: 0 }
    }
}

#[derive(Clone, Copy, Debug, PartialEq, Eq, Structural)]
pub enum BuiltinMacro {
    With,
    Without,
    Other,
}

#[derive(Clone, Copy, Debug, PartialEq, Eq, Structural)]
pub enum MacroKind {
    Plain,
    Braced,
    Parametric,
    Shell,
    Expr,
    Lua,
    Builtin(BuiltinMacro),
}

/// A macro invocation, as `%{name arg}`.
#[derive(Debug)]
pub struct MacroRef {
    pub kind: MacroKind,
    pub name: String,
    pub args: Vec<Text>,
    pub with_value: Option<Text>,
}

#[derive(Debug)]
pub enum TextSegment {
    Literal(String),
    Macro(Box<MacroRef>),
}

/// Text in which macros may stand.
#[derive(Debug)]
pub struct Text {
    pub segments: Vec<TextSegment>,
}

#[derive(Clone, Copy, Debug, PartialEq, Eq, Structural)]
pub enum BinOp {
    LogOr,
    LogAnd,
    Eq,
    Ne,
    Lt,
    Gt,
    Le,
    Ge,
}

#[derive(Debug)]
pub enum ConcatPart {
    Literal(String),
    Macro(String),
}

/// A parsed `%if` expression.
#[allow(inconsistent_fields)]
#[derive(Debug)]
pub enum ExprAst {
    Integer { value: i64, data: Span },
    String { value: String, data: Span },
    Macro { text: String, data: Span },
    Identifier { name: String, data: Span },
    Paren { inner: Box<ExprAst>, data: Span },
    Not { inner: Box<ExprAst>, data: Span },
    Binary { kind: BinOp, lhs: Box<ExprAst>, rhs: Box<ExprAst>, data: Span },
    NumericConcat { parts: Vec<ConcatPart>, data: Span },
}

/// The condition of a branch.
#[derive(Debug)]
pub enum CondExpr {
    Raw(Text),
    Parsed(Box<ExprAst>),
    ArchList(Vec<Text>),
}

#[derive(Clone, Copy, Debug, PartialEq, Eq, Structural)]
pub enum CondKind {
    If,
    IfArch,
    IfNArch,
    IfOs,
    IfNOs,
    Elif,
    ElifArch,
    ElifOs,
}

impl CondKind {
    /// Whether the keyword asks that none of the listed names is the right one.
    pub open spec fn inverts(self) -> bool {
        self is IfNArch || self is IfNOs
    }

    pub fn is_inverted(self) -> (r: bool)
        ensures
            r == self.inverts(),
    {
        matches!(self, CondKind::IfNArch | CondKind::IfNOs)
    }

    /// Whether the keyword asks for the operating system.
    pub open spec fn asks_system(self) -> bool {
        self is IfOs || self is IfNOs || self is ElifOs
    }

    pub fn is_system(self) -> (r: bool)
        ensures
            r == self.asks_system(),
    {
        matches!(self, CondKind::IfOs | CondKind::IfNOs | CondKind::ElifOs)
    }

    /// Whether two keywords ask the same of the same condition. A keyword that
    /// opens a block and the one that goes on with it do.
    pub open spec fn asks_like(self, other: CondKind) -> bool {
        ||| self == other
        ||| self is If && other is Elif
        ||| self is Elif && other is If
        ||| self is IfArch && other is ElifArch
        ||| self is ElifArch && other is IfArch
        ||| self is IfOs && other is ElifOs
        ||| self is ElifOs && other is IfOs
    }

    pub fn same_question(self, other: CondKind) -> (r: bool)
        ensures
            r == self.asks_like(other),
    {
        self == other || matches!(
            (self, other),
            (CondKind::If, CondKind::Elif) | (CondKind::Elif, CondKind::If)
            | (CondKind::IfArch, CondKind::ElifArch) | (CondKind::ElifArch, CondKind::IfArch)
            | (CondKind::IfOs, CondKind::ElifOs) | (CondKind::ElifOs, CondKind::IfOs)
        )
    }
}

#[derive(Debug)]
pub struct CondBranch {
    pub kind: CondKind,
    pub expr: CondExpr,
    pub body: Vec<Item>,
    pub data: Span,
}

/// An `%if` block: its branches and the body of its `%else`.
#[derive(Debug)]
pub struct Conditional {
    pub branches: Vec<CondBranch>,
    pub otherwise: Option<Vec<Item>>,
    pub data: Span,
}

#[derive(Clone, Copy, Debug, PartialEq, Eq, Structural)]
pub enum Tag {
    Name,
    Version,
    Release,
    Epoch,
    BuildArch,
    ExclusiveArch,
    ExcludeArch,
    Requires,
    BuildRequires,
    Provides,
    Conflicts,
    Obsoletes,
    Recommends,
    Suggests,
    Supplements,
    Enhances,
    BuildConflicts,
    OrderWithRequires,
    AutoReqProv,
    AutoReq,
    AutoProv,
    Other,
}

#[derive(Clone, Copy, Debug, PartialEq, Eq, Structural)]
pub enum TagQualifier {
    Pre,
    Post,
    Preun,
    Postun,
    Pretrans,
    Posttrans,
    Preuntrans,
    Postuntrans,
    Meta,
    Other,
}

#[derive(Clone, Copy, Debug, PartialEq, Eq, Structural)]
pub enum VerOp {
    Lt,
    Le,
    Eq,
    Ge,
    Gt,
    Ne,
}

#[derive(Debug)]
pub struct Evr {
    pub epoch: Option<u32>,
    pub version: Text,
    pub release: Option<Text>,
}

#[derive(Debug)]
pub struct DepConstraint {
    pub op: VerOp,
    pub evr: Evr,
}

/// One dependency, as `name(arch) >= 1.0`.
#[derive(Debug)]
pub struct DepAtom {
    pub name: Text,
    pub arch: Option<Text>,
    pub constraint: Option<DepConstraint>,
}

#[derive(Debug)]
pub enum DepExpr {
    Atom(DepAtom),
    Rich(Box<BoolDep>),
}

/// A boolean dependency, as `(foo if bar else baz)`.
#[derive(Debug)]
pub enum BoolDep {
    And(Vec<DepExpr>),
    Or(Vec<DepExpr>),
    With(Vec<DepExpr>),
    If { cond: Box<DepExpr>, consequent: Box<DepExpr>, otherwise: Option<Box<DepExpr>> },
    Unless { cond: Box<DepExpr>, consequent: Box<DepExpr>, otherwise: Option<Box<DepExpr>> },
    Without { left: Box<DepExpr>, right: Box<DepExpr> },
}

#[derive(Debug)]
pub enum TagValue {
    Text(Text),
    Dep(DepExpr),
    Bool(bool),
    Number(u32),
    ArchList(Vec<Text>),
}

#[derive(Debug)]
pub struct PreambleItem {
    pub tag: Tag,
    pub qualifiers: Vec<TagQualifier>,
    pub value: TagValue,
    pub data: Span,
}

#[derive(Clone, Copy, Debug, PartialEq, Eq, Structural)]
pub enum FileDirective {
    Doc,
    License,
    Other,
}

/// A line of a `%files` section.
#[derive(Debug)]
pub struct FileEntry {
    pub directives: Vec<FileDirective>,
    pub has_path: bool,
    pub data: Span,
}

#[derive(Clone, Copy, Debug, PartialEq, Eq, Structural)]
pub enum MacroDefKind {
    Define,
    Global,
    Undefine,
}

#[derive(Debug)]
pub struct MacroDef {
    pub kind: MacroDefKind,
    pub name: String,
    pub body: Text,
    pub data: Span,
}

#[derive(Clone, Copy, Debug, PartialEq, Eq, Structural)]
pub enum BuildCondStyle {
    BcondWith,
    BcondWithout,
    Bcond,
}

#[derive(Debug)]
pub struct BuildCondition {
    pub style: BuildCondStyle,
    pub name: String,
    pub default: Option<Text>,
    pub data: Span,
}

/// What may stand in a spec file, in a `%package` section and in a `%files`
/// section. Which items occur depends on where they stand: a file entry only
/// under `%files`, a section only at the top level.
#[derive(Debug)]
pub enum Item {
    Preamble(PreambleItem),
    Entry(FileEntry),
    Section(Box<Section>),
    Conditional(Conditional),
    MacroDef(MacroDef),
    BuildCondition(BuildCondition),
    Include(Span),
    Statement(Box<MacroRef>),
    Comment(Span),
    Blank,
    /// Something that no rule reads.
    Other,
}

#[derive(Clone, Copy, Debug, PartialEq, Eq, Structural)]
pub enum BuildScriptKind {
    Prep,
    Build,
    Install,
    Check,
    Clean,
    Other,
}

#[derive(Clone, Copy, Debug, PartialEq, Eq, Structural)]
pub enum Weekday {
    Mon,
    Tue,
    Wed,
    Thu,
    Fri,
    Sat,
    Sun,
}

#[derive(Clone, Copy, Debug, PartialEq, Eq, Structural)]
pub enum Month {
    Jan,
    Feb,
    Mar,
    Apr,
    May,
    Jun,
    Jul,
    Aug,
    Sep,
    Oct,
    Nov,
    Dec,
}

#[derive(Clone, Copy, Debug, PartialEq, Eq, Structural)]
pub struct ChangelogDate {
    pub weekday: Weekday,
    pub month: Month,
    pub day: u8,
    pub year: u16,
}

#[derive(Debug)]
pub struct ChangelogEntry {
    pub date: ChangelogDate,
    pub version: Option<Text>,
    pub body: Vec<Text>,
    pub data: Span,
}

#[derive(Debug)]
pub enum Section {
    Description { lines: Vec<Text>, data: Span },
    Package { name_arg: Option<PackageName>, content: Vec<Item>, data: Span },
    BuildScript { kind: BuildScriptKind, lines: Vec<Text>, data: Span },
    Files { content: Vec<Item>, data: Span },
    Scriptlet { lines: Vec<Text>, data: Span },
    Trigger { lines: Vec<Text>, data: Span },
    FileTrigger { lines: Vec<Text>, data: Span },
    Verify { lines: Vec<Text>, data: Span },
    Sepolicy { lines: Vec<Text>, data: Span },
    Changelog { entries: Vec<ChangelogEntry>, data: Span },
    SourceList { data: Span },
    PatchList { data: Span },
}

/// The name of a subpackage: `%package foo` or `%package -n foo`.
#[derive(Debug)]
pub enum PackageName {
    Relative(Text),
    Absolute(Text),
}

#[derive(Debug)]
pub struct SpecFile {
    pub items: Vec<Item>,
    pub data: Span,
}

impl Text {
    /// The text, where no macro stands in it: empty, or a single literal.
    pub open spec fn literal(&self) -> Option<Seq<char>> {
        if self.segments@.len() == 0 {
            Some(Seq::empty())
        } else if self.segments@.len() == 1 {
            match self.segments@[0] {
                TextSegment::Literal(s) => Some(s@),
                _ => None,
            }
        } else {
            None
        }
    }

    pub fn literal_str(&self) -> (r: Option<&str>)
        ensures
            crate::text::opt_view(r) == self.literal(),
    {
        if self.segments.len() == 0 {
            proof {
                reveal_strlit("");
                assert(""@ =~= Seq::<char>::empty());
            }
            return Some("");
        }
        if self.segments.len() > 1 {
            return None;
        }
        match &self.segments[0] {
            TextSegment::Literal(s) => Some(s.as_str()),
            _ => None,
        }
    }
}

impl BinOp {
    pub open spec fn symbol(self) -> Seq<char> {
        match self {
            BinOp::LogOr => "||"@,
            BinOp::LogAnd => "&&"@,
            BinOp::Eq => "=="@,
            BinOp::Ne => "!="@,
            BinOp::Lt => "<"@,
            BinOp::Gt => ">"@,
            BinOp::Le => "<="@,
            BinOp::Ge => ">="@,
        }
    }

    pub fn as_str(self) -> (r: &'static str)
        ensures
            r@ == self.symbol(),
    {
        match self {
            BinOp::LogOr => "||",
            BinOp::LogAnd => "&&",
            BinOp::Eq => "==",
            BinOp::Ne => "!=",
            BinOp::Lt => "<",
            BinOp::Gt => ">",
            BinOp::Le => "<=",
            BinOp::Ge => ">=",
        }
    }

    /// Whether the operator compares its operands.
    pub open spec fn compares(self) -> bool {
        !(self is LogOr || self is LogAnd)
    }
}

impl ExprAst {
    /// The expression inside any parentheses around it.
    pub open spec fn bare(&self) -> ExprAst
        decreases self,
    {
        match self {
            ExprAst::Paren { inner, .. } => inner.bare(),
            _ => *self,
        }
    }

    pub fn peel_parens(&self) -> (r: &ExprAst)
        ensures
            *r == self.bare(),
            !(r is Paren),
        decreases self,
    {
        match self {
            ExprAst::Paren { inner, .. } => inner.peel_parens(),
            _ => self,
        }
    }
}

} // verus!
