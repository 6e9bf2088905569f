//! Lines that make directories one after another.
use vstd::prelude::*;

use crate::ast::{Span, SpecFile, Text};
use crate::diagnostic::{Diagnostic, DiagnosticView, LintCategory, Severity, plain, reports};
use crate::lint::{Identity, Lint, LintMetadata, drain};
use crate::rules::{given, say};
use crate::shell::{
    Body, BodyView, body_views, line_text, render_shell_line, shell_bodies, spec_bodies,
};
use crate::text::{before, has_prefix, lines, same, split_words, texts, trim, trimmed, words};
use crate::walk::{flat, lemma_flat_step};

verus! {

#[derive(Clone, Copy, Debug, PartialEq, Eq, Structural)]
pub enum MkdirKind {
    InstallD,
    MkdirP,
}

/// How a line makes directories, if it does.
pub open spec fn mkdir_kind(line: Seq<char>) -> Option<MkdirKind> {
    let ws = words(line);
    if ws.len() < 3 {
        None
    } else if (ws[0] == "install"@ || ws[0] == "/usr/bin/install"@) && ws[1] == "-d"@ {
        Some(MkdirKind::InstallD)
    } else if (ws[0] == "mkdir"@ || ws[0] == "/bin/mkdir"@ || ws[0] == "/usr/bin/mkdir"@) && ws[1] == "-p"@ {
        Some(MkdirKind::MkdirP)
    } else {
        None
    }
}

/// Whether a line is empty or a comment.
pub open spec fn is_idle(line: Seq<char>) -> bool {
    line.len() == 0 || "#"@.is_prefix_of(line)
}

/// How the last line that does something makes directories, if it does.
pub open spec fn last_kind(lines: Seq<Text>) -> Option<MkdirKind>
    decreases lines.len(),
{
    if lines.len() == 0 {
        None
    } else {
        let line = trim(line_text(lines.last()));
        if is_idle(line) {
            last_kind(lines.drop_last())
        } else {
            mkdir_kind(line)
        }
    }
}

pub open spec fn combine_report(span: Span) -> DiagnosticView {
    plain("RPM532"@, Severity::Warn, "adjacent directory-creation lines — combine into one `install -d` / `mkdir -p` invocation"@, span).advise(
        "merge the consecutive lines into one with all targets on one command"@,
    )
}

/// A report for each line that makes directories as the one before it does.
pub open spec fn lines_findings(lines: Seq<Text>, span: Span) -> Seq<DiagnosticView>
    decreases lines.len(),
{
    if lines.len() == 0 {
        Seq::empty()
    } else {
        let line = trim(line_text(lines.last()));
        let before = lines.drop_last();
        lines_findings(before, span) + given(
            !is_idle(line) && mkdir_kind(line) is Some && mkdir_kind(line) == last_kind(before),
            combine_report(span),
        )
    }
}

pub open spec fn body_findings(b: BodyView) -> Seq<DiagnosticView> {
    lines_findings(b.lines, b.span)
}

pub open spec fn all_findings(spec: SpecFile) -> Seq<DiagnosticView> {
    flat(spec_bodies(spec), |b: BodyView| body_findings(b))
}

fn classify(line: &str) -> (r: Option<MkdirKind>)
    ensures
        r == mkdir_kind(line@),
{
    let ws = split_words(line);
    assert(texts(ws@).len() == ws@.len());
    if ws.len() < 3 {
        return None;
    }
    assert(texts(ws@)[0] == ws@[0]@ && texts(ws@)[1] == ws@[1]@);
    let cmd = ws[0];
    let flag = ws[1];
    if (same(cmd, "install") || same(cmd, "/usr/bin/install")) && same(flag, "-d") {
        Some(MkdirKind::InstallD)
    } else if (same(cmd, "mkdir") || same(cmd, "/bin/mkdir") || same(cmd, "/usr/bin/mkdir")) && same(flag, "-p") {
        Some(MkdirKind::MkdirP)
    } else {
        None
    }
}

fn same_kind(a: Option<MkdirKind>, b: Option<MkdirKind>) -> (r: bool)
    ensures
        r == (a is Some && a == b),
{
    match (a, b) {
        (Some(x), Some(y)) => x == y,
        _ => false,
    }
}

fn check_body(b: &Body, out: &mut Vec<Diagnostic>)
    ensures
        reports(final(out)@) == reports(old(out)@) + body_findings(b@),
{
    let ghost start = reports(out@);
    let span = b.span;
    let mut prev: Option<MkdirKind> = None;
    let mut i: usize = 0;
    assert(start + lines_findings(b.lines@.take(0), span) == start);
    while i < b.lines.len()
        invariant
            i <= b.lines.len(),
            prev == last_kind(b.lines@.take(i as int)),
            reports(out@) == start + lines_findings(b.lines@.take(i as int), span),
        decreases b.lines.len() - i,
    {
        let ghost so_far = lines_findings(b.lines@.take(i as int), span);
        assert(b.lines@.take(i + 1).drop_last() == b.lines@.take(i as int));
        assert(so_far + Seq::<DiagnosticView>::empty() == so_far);
        let raw = render_shell_line(&b.lines[i]);
        let line = trimmed(raw.as_str());
        if !line.is_empty() && !has_prefix(line, "#") {
            let curr = classify(line);
            if same_kind(curr, prev) {
                say(
                    out,
                    Diagnostic::new("RPM532", Severity::Warn, "adjacent directory-creation lines — combine into one `install -d` / `mkdir -p` invocation", span).with_advice(
                        "merge the consecutive lines into one with all targets on one command",
                    ),
                );
                assert(start + so_far + seq![combine_report(span)] == start + (so_far + seq![combine_report(span)]));
            }
            prev = curr;
        }
        i = i + 1;
    }
    assert(b.lines@.take(i as int) == b.lines@);
}

/// RPM532 `combine-install-dirs`: Adjacent `install -d` (or `mkdir -p`) lines — combine
/// into one invocation with all directories.
#[derive(Debug)]
pub struct CombineInstallDirs {
    pub diagnostics: Vec<Diagnostic>,
}

impl CombineInstallDirs {
    pub fn new() -> (r: CombineInstallDirs)
        ensures
            r.pending() == Seq::<DiagnosticView>::empty(),
    {
        let r = CombineInstallDirs { diagnostics: Vec::new() };
        assert(r.pending() =~= Seq::<DiagnosticView>::empty());
        r
    }
}

impl Default for CombineInstallDirs {
    fn default() -> (r: CombineInstallDirs)
        ensures
            r.pending() == Seq::<DiagnosticView>::empty(),
    {
        CombineInstallDirs::new()
    }
}

impl Lint for CombineInstallDirs {
    open spec fn identity() -> Identity {
        Identity {
            id: "RPM532"@,
            name: "combine-install-dirs"@,
            description: "Adjacent `install -d` (or `mkdir -p`) lines — combine into one invocation with all directories."@,
            default_severity: Severity::Allow,
            category: LintCategory::Style,
        }
    }

    open spec fn pending(&self) -> Seq<DiagnosticView> {
        reports(self.diagnostics@)
    }

    open spec fn after(&self, spec: SpecFile) -> Seq<DiagnosticView> {
        self.pending() + all_findings(spec)
    }

    open spec fn same_settings(&self, other: &Self) -> bool {
        true
    }

    fn metadata(&self) -> (r: LintMetadata) {
        LintMetadata {
            id: "RPM532",
            name: "combine-install-dirs",
            description: "Adjacent `install -d` (or `mkdir -p`) lines — combine into one invocation with all directories.",
            default_severity: Severity::Allow,
            category: LintCategory::Style,
        }
    }

    fn visit_spec(&mut self, spec: &SpecFile) {
        let all = shell_bodies(spec);
        let ghost bs = spec_bodies(*spec);
        let ghost f = |b: BodyView| body_findings(b);
        let ghost start = self.pending();
        let mut i: usize = 0;
        assert(start + flat(bs.take(0), f) == start);
        while i < all.len()
            invariant
                i <= all.len(),
                body_views(all@) == bs,
                f == (|b: BodyView| body_findings(b)),
                self.pending() == start + flat(bs.take(i as int), f),
            decreases all.len() - i,
        {
            assert(bs[i as int] == all@[i as int]@);
            check_body(&all[i], &mut self.diagnostics);
            proof {
                lemma_flat_step(bs, f, i as int);
                let a = flat(bs.take(i as int), f);
                assert(start + a + f(bs[i as int]) == start + (a + f(bs[i as int])));
            }
            i = i + 1;
        }
        assert(bs.take(i as int) == bs);
    }

    fn take_diagnostics(&mut self) -> (r: Vec<Diagnostic>) {
        drain(&mut self.diagnostics)
    }
}

/// A line makes directories in the way of `kind`: the command, its flag and at
/// least one directory.
pub open spec fn makes_directories(line: Seq<char>, kind: MkdirKind) -> bool {
    let ws = words(line);
    &&& ws.len() >= 3
    &&& match kind {
        MkdirKind::InstallD => (ws[0] == "install"@ || ws[0] == "/usr/bin/install"@) && ws[1]
            == "-d"@,
        MkdirKind::MkdirP => (ws[0] == "mkdir"@ || ws[0] == "/bin/mkdir"@ || ws[0]
            == "/usr/bin/mkdir"@) && ws[1] == "-p"@,
    }
}

/// A line does nothing: it is empty or a comment.
pub open spec fn does_nothing(line: Text) -> bool {
    let s = trim(line_text(line));
    s.len() == 0 || s[0] == '#'
}

/// Lines `m` and `n` make directories in the same way, and the lines between
/// them do nothing.
pub open spec fn combinable(lines: Seq<Text>, m: int, n: int) -> bool {
    &&& 0 <= m < n < lines.len()
    &&& !does_nothing(lines[m])
    &&& !does_nothing(lines[n])
    &&& exists|kind: MkdirKind|
        #[trigger] makes_directories(trim(line_text(lines[m])), kind) && makes_directories(
            trim(line_text(lines[n])),
            kind,
        )
    &&& forall|k: int| m < k < n ==> does_nothing(#[trigger] lines[k])
}

proof fn lemma_kind(line: Seq<char>, kind: MkdirKind)
    ensures
        mkdir_kind(line) == Some(kind) <==> makes_directories(line, kind),
{
    reveal_strlit("install");
    reveal_strlit("/usr/bin/install");
    reveal_strlit("mkdir");
    reveal_strlit("/bin/mkdir");
    reveal_strlit("/usr/bin/mkdir");
    assert("install"@.len() == 7 && "/usr/bin/install"@.len() == 16 && "mkdir"@.len() == 5
        && "/bin/mkdir"@.len() == 10 && "/usr/bin/mkdir"@.len() == 14);
}

proof fn lemma_idle(line: Text)
    ensures
        is_idle(trim(line_text(line))) == does_nothing(line),
{
    reveal_strlit("#");
    let s = trim(line_text(line));
    if s.len() > 0 {
        assert(s.subrange(0, 1)[0] == s[0]);
        if s[0] == '#' {
            assert("#"@ =~= s.subrange(0, 1));
        } else {
            assert("#"@[0] == '#');
        }
    }
}

proof fn lemma_last_kind(lines: Seq<Text>, kind: MkdirKind)
    ensures
        last_kind(lines) == Some(kind) <==> exists|m: int|
            0 <= m < lines.len() && !does_nothing(#[trigger] lines[m]) && makes_directories(
                trim(line_text(lines[m])),
                kind,
            ) && forall|k: int| m < k < lines.len() ==> does_nothing(#[trigger] lines[k]),
    decreases lines.len(),
{
    if lines.len() > 0 {
        let front = lines.drop_last();
        let last = lines.len() - 1;
        assert(lines[last] == lines.last());
        lemma_idle(lines.last());
        lemma_kind(trim(line_text(lines.last())), kind);
        lemma_last_kind(front, kind);
        if last_kind(lines) == Some(kind) && does_nothing(lines.last()) {
            let m = choose|m: int|
                0 <= m < front.len() && !does_nothing(#[trigger] front[m]) && makes_directories(
                    trim(line_text(front[m])),
                    kind,
                ) && forall|k: int| m < k < front.len() ==> does_nothing(#[trigger] front[k]);
            assert(lines[m] == front[m]);
            assert forall|k: int| m < k < lines.len() implies does_nothing(#[trigger] lines[k]) by {
                if k < last {
                    assert(front[k] == lines[k]);
                }
            }
        }
        if exists|m: int|
            0 <= m < lines.len() && !does_nothing(#[trigger] lines[m]) && makes_directories(
                trim(line_text(lines[m])),
                kind,
            ) && forall|k: int| m < k < lines.len() ==> does_nothing(#[trigger] lines[k]) {
            let m = choose|m: int|
                0 <= m < lines.len() && !does_nothing(#[trigger] lines[m]) && makes_directories(
                    trim(line_text(lines[m])),
                    kind,
                ) && forall|k: int| m < k < lines.len() ==> does_nothing(#[trigger] lines[k]);
            if m < last {
                assert(does_nothing(lines[last]));
                assert(front[m] == lines[m]);
                assert forall|k: int| m < k < front.len() implies does_nothing(#[trigger] front[k]) by {
                    assert(front[k] == lines[k]);
                }
            }
        }
    }
}

/// A script is reported exactly if two of its lines make directories in the
/// same way with nothing done between.
pub proof fn combinable_lines_are_reported(lines: Seq<Text>, span: Span)
    ensures
        lines_findings(lines, span).len() > 0 <==> exists|m: int, n: int|
            #[trigger] combinable(lines, m, n),
    decreases lines.len(),
{
    if lines.len() > 0 {
        let front = lines.drop_last();
        let last = lines.len() - 1;
        let line = trim(line_text(lines.last()));
        combinable_lines_are_reported(front, span);
        assert(lines[last] == lines.last());
        lemma_idle(lines.last());
        if exists|m: int, n: int| #[trigger] combinable(front, m, n) {
            let (m, n) = choose|m: int, n: int| #[trigger] combinable(front, m, n);
            assert forall|k: int| m <= k <= n implies front[k] == #[trigger] lines[k] by {}
            assert(lines[m] == front[m] && lines[n] == front[n]);
            assert(combinable(lines, m, n));
        }
        if !is_idle(line) && mkdir_kind(line) is Some && mkdir_kind(line) == last_kind(front) {
            let kind = mkdir_kind(line).unwrap();
            lemma_kind(line, kind);
            lemma_last_kind(front, kind);
            let m = choose|m: int|
                0 <= m < front.len() && !does_nothing(#[trigger] front[m]) && makes_directories(
                    trim(line_text(front[m])),
                    kind,
                ) && forall|k: int| m < k < front.len() ==> does_nothing(#[trigger] front[k]);
            assert(lines[m] == front[m]);
            assert forall|k: int| m < k < last implies does_nothing(#[trigger] lines[k]) by {
                assert(front[k] == lines[k]);
            }
            assert(makes_directories(trim(line_text(lines[m])), kind));
            assert(combinable(lines, m, last));
        }
        if exists|m: int, n: int| #[trigger] combinable(lines, m, n) {
            let (m, n) = choose|m: int, n: int| #[trigger] combinable(lines, m, n);
            let kind = choose|kind: MkdirKind|
                #[trigger] makes_directories(trim(line_text(lines[m])), kind) && makes_directories(
                    trim(line_text(lines[n])),
                    kind,
                );
            assert(front[m] == lines[m]);
            if n < last {
                assert(front[n] == lines[n]);
                assert forall|k: int| m < k < n implies does_nothing(#[trigger] front[k]) by {
                    assert(front[k] == lines[k]);
                }
                assert(makes_directories(trim(line_text(front[m])), kind));
                assert(combinable(front, m, n));
            } else {
                assert forall|k: int| m < k < front.len() implies does_nothing(#[trigger] front[k]) by {
                    assert(front[k] == lines[k]);
                }
                lemma_last_kind(front, kind);
                lemma_kind(line, kind);
            }
        }
    }
}

} // verus!
