//! Copies whose mode is changed right after.
use vstd::prelude::*;

use crate::ast::{Span, SpecFile, Text};
use crate::diagnostic::{Diagnostic, DiagnosticView, LintCategory, Severity, plain, reports};
use crate::lint::{Identity, Lint, LintMetadata, drain};
use crate::rules::{given, say};
use crate::rules::combine_install_dirs::is_idle;
use crate::shell::{
    Body, BodyView, body_views, line_text, render_shell_line, shell_bodies, spec_bodies,
};
use crate::text::{
    before, has_char, has_prefix, lines, opt_string, same, split_words, texts, trim, trimmed,
    words,
};
use crate::walk::{flat, lemma_flat_step};
use crate::report_laws::{lemma_says_either, lemma_says_given, says_at};

verus! {

/// The first word from `i` on that is not a flag, or the number of words.
pub open spec fn past_flags(ws: Seq<Seq<char>>, i: int) -> int
    decreases ws.len() - i,
{
    if 0 <= i < ws.len() && "-"@.is_prefix_of(ws[i]) {
        past_flags(ws, i + 1)
    } else {
        i
    }
}

/// Whether a word stands for the files that match it.
pub open spec fn is_pattern(word: Seq<char>) -> bool {
    word.contains('*') || word.contains('?') || word.contains('[')
}

/// Where `cp source target` copies to. Several sources, or a pattern for one,
/// do not count.
pub open spec fn cp_target(line: Seq<char>) -> Option<Seq<char>> {
    let ws = words(line);
    if ws.len() >= 3 && (ws[0] == "cp"@ || ws[0] == "/bin/cp"@ || ws[0] == "/usr/bin/cp"@) {
        let k = past_flags(ws, 1);
        if k + 2 == ws.len() && !is_pattern(ws[k]) {
            Some(ws[k + 1])
        } else {
            None
        }
    } else {
        None
    }
}

/// What `chmod mode target` changes.
pub open spec fn chmod_target(line: Seq<char>) -> Option<Seq<char>> {
    let ws = words(line);
    if ws.len() == 3 && (ws[0] == "chmod"@ || ws[0] == "/bin/chmod"@ || ws[0] == "/usr/bin/chmod"@) {
        Some(ws[2])
    } else {
        None
    }
}

/// Whether the mode of what was copied is changed: of the target itself, or
/// of a file in it.
pub open spec fn changes_copy(copied: Seq<char>, changed: Seq<char>) -> bool {
    copied == changed || (copied + "/"@).is_prefix_of(changed)
}

/// Where the last line that does something copies to, if it copies.
pub open spec fn last_copy(lines: Seq<Text>) -> Option<Seq<char>>
    decreases lines.len(),
{
    if lines.len() == 0 {
        None
    } else {
        let line = trim(line_text(lines.last()));
        if is_idle(line) {
            last_copy(lines.drop_last())
        } else {
            cp_target(line)
        }
    }
}

/// Whether a line changes the mode of what the lines before it copied last.
pub open spec fn completes(before: Seq<Text>, line: Seq<char>) -> bool {
    match (last_copy(before), chmod_target(line)) {
        (Some(copied), Some(changed)) => !is_idle(line) && changes_copy(copied, changed),
        _ => false,
    }
}

pub open spec fn pair_report(span: Span) -> DiagnosticView {
    plain("RPM533"@, Severity::Warn, "`cp` + `chmod` pair — collapse into a single `install -m MODE src dst`"@, span).advise(
        "replace the `cp src dst` / `chmod MODE dst` lines with one `install -m MODE src dst`"@,
    )
}

pub open spec fn lines_findings(lines: Seq<Text>, span: Span) -> Seq<DiagnosticView>
    decreases lines.len(),
{
    if lines.len() == 0 {
        Seq::empty()
    } else {
        lines_findings(lines.drop_last(), span) + given(
            completes(lines.drop_last(), trim(line_text(lines.last()))),
            pair_report(span),
        )
    }
}

pub open spec fn body_findings(b: BodyView) -> Seq<DiagnosticView> {
    lines_findings(b.lines, b.span)
}

pub open spec fn all_findings(spec: SpecFile) -> Seq<DiagnosticView> {
    flat(spec_bodies(spec), |b: BodyView| body_findings(b))
}

fn extract_cp_dst(line: &str) -> (r: Option<String>)
    ensures
        opt_string(r) == cp_target(line@),
{
    let ws = split_words(line);
    let ghost t = words(line@);
    assert(texts(ws@).len() == ws@.len());
    if ws.len() < 3 {
        return None;
    }
    assert(forall|i: int| 0 <= i < ws@.len() ==> #[trigger] t[i] == ws@[i]@) by {
        assert(forall|i: int| 0 <= i < ws@.len() ==> #[trigger] texts(ws@)[i] == ws@[i]@);
    }
    if !(same(ws[0], "cp") || same(ws[0], "/bin/cp") || same(ws[0], "/usr/bin/cp")) {
        return None;
    }
    let mut k: usize = 1;
    while k < ws.len() && has_prefix(ws[k], "-")
        invariant
            1 <= k <= ws.len(),
            t.len() == ws@.len(),
            forall|i: int| 0 <= i < ws@.len() ==> #[trigger] t[i] == ws@[i]@,
            past_flags(t, 1) == past_flags(t, k as int),
        decreases ws.len() - k,
    {
        assert(t[k as int] == ws@[k as int]@);
        k = k + 1;
    }
    assert(k < ws.len() ==> t[k as int] == ws@[k as int]@);
    assert(past_flags(t, 1) == k);
    if ws.len() - k != 2 || has_char(ws[k], '*') || has_char(ws[k], '?') || has_char(
        ws[k],
        '[',
    ) {
        return None;
    }
    assert(t[k + 1] == ws@[k + 1]@);
    Some(ws[k + 1].to_owned())
}

fn extract_chmod_target(line: &str) -> (r: Option<String>)
    ensures
        opt_string(r) == chmod_target(line@),
{
    let ws = split_words(line);
    assert(texts(ws@).len() == ws@.len());
    if ws.len() != 3 {
        return None;
    }
    assert(texts(ws@)[0] == ws@[0]@ && texts(ws@)[2] == ws@[2]@);
    if !(same(ws[0], "chmod") || same(ws[0], "/bin/chmod") || same(ws[0], "/usr/bin/chmod")) {
        return None;
    }
    Some(ws[2].to_owned())
}

fn chmod_targets_cp_result(copied: &str, changed: &str) -> (r: bool)
    ensures
        r == changes_copy(copied@, changed@),
{
    if same(copied, changed) {
        return true;
    }
    let mut inside = String::from_str(copied);
    inside.append("/");
    has_prefix(changed, inside.as_str())
}

fn check_body(b: &Body, out: &mut Vec<Diagnostic>)
    ensures
        reports(final(out)@) == reports(old(out)@) + body_findings(b@),
{
    let ghost start = reports(out@);
    let span = b.span;
    let mut prev: Option<String> = None;
    let mut i: usize = 0;
    assert(start + lines_findings(b.lines@.take(0), span) == start);
    while i < b.lines.len()
        invariant
            i <= b.lines.len(),
            opt_string(prev) == last_copy(b.lines@.take(i as int)),
            reports(out@) == start + lines_findings(b.lines@.take(i as int), span),
        decreases b.lines.len() - i,
    {
        let ghost so_far = lines_findings(b.lines@.take(i as int), span);
        assert(b.lines@.take(i + 1).drop_last() == b.lines@.take(i as int));
        assert(so_far + Seq::<DiagnosticView>::empty() == so_far);
        let raw = render_shell_line(&b.lines[i]);
        let line = trimmed(raw.as_str());
        if !line.is_empty() && !has_prefix(line, "#") {
            let pair = match (&prev, extract_chmod_target(line)) {
                (Some(copied), Some(changed)) => chmod_targets_cp_result(copied.as_str(), changed.as_str()),
                _ => false,
            };
            if pair {
                say(
                    out,
                    Diagnostic::new("RPM533", Severity::Warn, "`cp` + `chmod` pair — collapse into a single `install -m MODE src dst`", span).with_advice(
                        "replace the `cp src dst` / `chmod MODE dst` lines with one `install -m MODE src dst`",
                    ),
                );
                assert(start + so_far + seq![pair_report(span)] == start + (so_far + seq![pair_report(span)]));
            }
            prev = extract_cp_dst(line);
        }
        i = i + 1;
    }
    assert(b.lines@.take(i as int) == b.lines@);
}

/// RPM533 `cp-chmod-to-install-m`: `cp src dst` + `chmod MODE dst` pair — fold into
/// `install -m MODE src dst`.
#[derive(Debug)]
pub struct CpChmodToInstallM {
    pub diagnostics: Vec<Diagnostic>,
}

impl CpChmodToInstallM {
    pub fn new() -> (r: CpChmodToInstallM)
        ensures
            r.pending() == Seq::<DiagnosticView>::empty(),
    {
        let r = CpChmodToInstallM { diagnostics: Vec::new() };
        assert(r.pending() =~= Seq::<DiagnosticView>::empty());
        r
    }
}

impl Default for CpChmodToInstallM {
    fn default() -> (r: CpChmodToInstallM)
        ensures
            r.pending() == Seq::<DiagnosticView>::empty(),
    {
        CpChmodToInstallM::new()
    }
}

impl Lint for CpChmodToInstallM {
    open spec fn identity() -> Identity {
        Identity {
            id: "RPM533"@,
            name: "cp-chmod-to-install-m"@,
            description: "`cp src dst` + `chmod MODE dst` pair — fold into `install -m MODE src dst`."@,
            default_severity: Severity::Allow,
            category: LintCategory::Style,
        }
    }

    open spec fn pending(&self) -> Seq<DiagnosticView> {
        reports(self.diagnostics@)
    }

    open spec fn after(&self, spec: SpecFile) -> Seq<DiagnosticView> {
        self.pending() + all_findings(spec)
    }

    open spec fn same_settings(&self, other: &Self) -> bool {
        true
    }

    fn metadata(&self) -> (r: LintMetadata) {
        LintMetadata {
            id: "RPM533",
            name: "cp-chmod-to-install-m",
            description: "`cp src dst` + `chmod MODE dst` pair — fold into `install -m MODE src dst`.",
            default_severity: Severity::Allow,
            category: LintCategory::Style,
        }
    }

    fn visit_spec(&mut self, spec: &SpecFile) {
        let all = shell_bodies(spec);
        let ghost bs = spec_bodies(*spec);
        let ghost f = |b: BodyView| body_findings(b);
        let ghost start = self.pending();
        let mut i: usize = 0;
        assert(start + flat(bs.take(0), f) == start);
        while i < all.len()
            invariant
                i <= all.len(),
                body_views(all@) == bs,
                f == (|b: BodyView| body_findings(b)),
                self.pending() == start + flat(bs.take(i as int), f),
            decreases all.len() - i,
        {
            assert(bs[i as int] == all@[i as int]@);
            check_body(&all[i], &mut self.diagnostics);
            proof {
                lemma_flat_step(bs, f, i as int);
                let a = flat(bs.take(i as int), f);
                assert(start + a + f(bs[i as int]) == start + (a + f(bs[i as int])));
            }
            i = i + 1;
        }
        assert(bs.take(i as int) == bs);
    }

    fn take_diagnostics(&mut self) -> (r: Vec<Diagnostic>) {
        drain(&mut self.diagnostics)
    }
}

/// Whether a command copies one file, named without a pattern, to `target`.
pub open spec fn copies_to(ws: Seq<Seq<char>>, target: Seq<char>) -> bool {
    &&& ws.len() >= 3
    &&& ws[0] == "cp"@ || ws[0] == "/bin/cp"@ || ws[0] == "/usr/bin/cp"@
    &&& forall|i: int| 1 <= i < ws.len() - 2 ==> "-"@.is_prefix_of(#[trigger] ws[i])
    &&& !"-"@.is_prefix_of(ws[ws.len() - 2])
    &&& !ws[ws.len() - 2].contains('*') && !ws[ws.len() - 2].contains('?') && !ws[ws.len()
        - 2].contains('[')
    &&& ws.last() == target
}

/// Whether a command changes the mode of `target`.
pub open spec fn changes_mode_of(ws: Seq<Seq<char>>, target: Seq<char>) -> bool {
    &&& ws.len() == 3
    &&& ws[0] == "chmod"@ || ws[0] == "/bin/chmod"@ || ws[0] == "/usr/bin/chmod"@
    &&& ws[2] == target
}

/// The words of a line, without the whitespace around it.
pub open spec fn said(t: Text) -> Seq<Seq<char>> {
    words(trim(line_text(t)))
}

/// Whether a line does nothing: it is blank or a comment.
pub open spec fn does_nothing(t: Text) -> bool {
    is_idle(trim(line_text(t)))
}

/// Whether line `i` copies a file and line `j`, the next that does something,
/// changes its mode or that of a file in it.
pub open spec fn is_copy_and_change(lines: Seq<Text>, i: int, j: int) -> bool {
    &&& 0 <= i < j < lines.len()
    &&& !does_nothing(lines[i]) && !does_nothing(lines[j])
    &&& forall|k: int| i < k < j ==> does_nothing(#[trigger] lines[k])
    &&& exists|a: Seq<char>, b: Seq<char>|
        #[trigger] copies_to(said(lines[i]), a) && #[trigger] changes_mode_of(said(lines[j]), b) && (
        b == a || exists|rest: Seq<char>| b == #[trigger] (a + "/"@ + rest))
}

proof fn lemma_past_flags(ws: Seq<Seq<char>>, i: int)
    requires
        0 <= i <= ws.len(),
    ensures
        i <= past_flags(ws, i) <= ws.len(),
        forall|k: int| i <= k < past_flags(ws, i) ==> "-"@.is_prefix_of(#[trigger] ws[k]),
        past_flags(ws, i) < ws.len() ==> !"-"@.is_prefix_of(ws[past_flags(ws, i)]),
    decreases ws.len() - i,
{
    if i < ws.len() && "-"@.is_prefix_of(ws[i]) {
        lemma_past_flags(ws, i + 1);
    }
}

proof fn lemma_targets(line: Seq<char>, target: Seq<char>)
    ensures
        cp_target(line) == Some(target) <==> copies_to(words(line), target),
        chmod_target(line) == Some(target) <==> changes_mode_of(words(line), target),
{
    let ws = words(line);
    if ws.len() >= 3 {
        lemma_past_flags(ws, 1);
        let k = past_flags(ws, 1);
        if copies_to(ws, target) {
            assert(k == ws.len() - 2) by {
                if k < ws.len() - 2 {
                    assert("-"@.is_prefix_of(ws[k]));
                }
                if k > ws.len() - 2 {
                    assert("-"@.is_prefix_of(ws[ws.len() - 2]));
                }
            }
        }
    }
}

proof fn lemma_last_copy(lines: Seq<Text>)
    ensures
        match last_copy(lines) {
            Some(a) => exists|i: int|
                0 <= i < lines.len() && copies_to(said(#[trigger] lines[i]), a) && !does_nothing(
                    lines[i],
                ) && forall|k: int| i < k < lines.len() ==> does_nothing(#[trigger] lines[k]),
            None => forall|i: int, a: Seq<char>|
                0 <= i < lines.len() && !does_nothing(lines[i]) && (forall|k: int|
                    i < k < lines.len() ==> does_nothing(#[trigger] lines[k])) ==> !(
                #[trigger] copies_to(said(lines[i]), a)),
        },
    decreases lines.len(),
{
    if lines.len() > 0 {
        let front = lines.drop_last();
        let n = lines.len() - 1;
        let line = trim(line_text(lines.last()));
        lemma_last_copy(front);
        assert forall|k: int| 0 <= k < n implies front[k] == #[trigger] lines[k] by {}
        if is_idle(line) {
            match last_copy(front) {
                Some(a) => {
                    let i = choose|i: int|
                        0 <= i < front.len() && copies_to(said(#[trigger] front[i]), a)
                            && !does_nothing(front[i]) && forall|k: int|
                            i < k < front.len() ==> does_nothing(#[trigger] front[k]);
                    assert(copies_to(said(lines[i]), a));
                },
                None => {
                    assert forall|i: int, a: Seq<char>|
                        0 <= i < lines.len() && !does_nothing(lines[i]) && (forall|k: int|
                            i < k < lines.len() ==> does_nothing(#[trigger] lines[k])) implies !(
                    #[trigger] copies_to(said(lines[i]), a)) by {
                        assert(front[i] == lines[i]);
                        assert forall|k: int| i < k < front.len() implies does_nothing(
                            #[trigger] front[k],
                        ) by {
                            assert(lines[k] == front[k]);
                        }
                        assert(!copies_to(said(front[i]), a));
                    }
                },
            }
        } else {
            assert(!does_nothing(lines[n]));
            match cp_target(line) {
                Some(a) => {
                    lemma_targets(line, a);
                    assert(copies_to(said(lines[n]), a));
                },
                None => {
                    assert forall|i: int, a: Seq<char>|
                        0 <= i < lines.len() && !does_nothing(lines[i]) && (forall|k: int|
                            i < k < lines.len() ==> does_nothing(#[trigger] lines[k])) implies !(
                    #[trigger] copies_to(said(lines[i]), a)) by {
                        if i < n {
                            assert(does_nothing(lines[n]));
                        }
                        lemma_targets(line, a);
                    }
                },
            }
        }
    }
}

proof fn lemma_completes(lines: Seq<Text>, n: int)
    requires
        0 <= n < lines.len(),
    ensures
        completes(lines.take(n), trim(line_text(lines[n]))) <==> exists|i: int|
            #[trigger] is_copy_and_change(lines, i, n),
{
    let before = lines.take(n);
    let line = trim(line_text(lines[n]));
    lemma_last_copy(before);
    assert forall|k: int| 0 <= k < n implies before[k] == #[trigger] lines[k] by {}
    if completes(before, line) {
        let a = last_copy(before).unwrap();
        let b = chmod_target(line).unwrap();
        lemma_targets(line, b);
        let i = choose|i: int|
            0 <= i < before.len() && copies_to(said(#[trigger] before[i]), a) && !does_nothing(
                before[i],
            ) && forall|k: int| i < k < before.len() ==> does_nothing(#[trigger] before[k]);
        assert(copies_to(said(lines[i]), a));
        assert(changes_mode_of(said(lines[n]), b));
        if a != b {
            let p = a + "/"@;
            let rest = b.skip(p.len() as int);
            assert(b =~= a + "/"@ + rest);
        }
        assert forall|k: int| i < k < n implies does_nothing(#[trigger] lines[k]) by {
            assert(before[k] == lines[k]);
        }
        assert(is_copy_and_change(lines, i, n));
    }
    if exists|i: int| #[trigger] is_copy_and_change(lines, i, n) {
        let i = choose|i: int| #[trigger] is_copy_and_change(lines, i, n);
        let (a, b) = choose|a: Seq<char>, b: Seq<char>|
            #[trigger] copies_to(said(lines[i]), a) && #[trigger] changes_mode_of(said(lines[n]), b)
                && (b == a || exists|rest: Seq<char>| b == #[trigger] (a + "/"@ + rest));
        lemma_targets(line, b);
        assert(before[i] == lines[i]);
        assert forall|k: int| i < k < before.len() implies does_nothing(#[trigger] before[k]) by {
            assert(before[k] == lines[k]);
        }
        assert(copies_to(said(before[i]), a));
        match last_copy(before) {
            Some(c) => {
                let j = choose|j: int|
                    0 <= j < before.len() && copies_to(said(#[trigger] before[j]), c)
                        && !does_nothing(before[j]) && forall|k: int|
                        j < k < before.len() ==> does_nothing(#[trigger] before[k]);
                assert(i == j) by {
                    if i < j {
                        assert(does_nothing(before[j]));
                    }
                    if j < i {
                        assert(does_nothing(before[i]));
                    }
                }
                assert(a == c);
                if b != a {
                    let rest = choose|rest: Seq<char>| b == #[trigger] (a + "/"@ + rest);
                    let p = a + "/"@;
                    assert(p.is_prefix_of(p + rest)) by {
                        assert((p + rest).subrange(0, p.len() as int) =~= p);
                    }
                }
            },
            None => {},
        }
    }
}

proof fn lemma_first_lines(lines: Seq<Text>, n: nat, span: Span)
    requires
        n <= lines.len(),
    ensures
        says_at(lines_findings(lines.take(n as int), span), span) <==> exists|i: int, j: int|
            j < n && #[trigger] is_copy_and_change(lines, i, j),
    decreases n,
{
    let now = lines.take(n as int);
    if n > 0 {
        let k = n - 1;
        lemma_first_lines(lines, k as nat, span);
        lemma_completes(lines, k);
        assert(now.drop_last() =~= lines.take(k));
        assert(now.last() == lines[k]);
        let said_now = completes(lines.take(k), trim(line_text(lines[k])));
        lemma_says_given(said_now, pair_report(span), span);
        lemma_says_either(
            lines_findings(lines.take(k), span),
            given(said_now, pair_report(span)),
            span,
        );
        if said_now {
            let i = choose|i: int| #[trigger] is_copy_and_change(lines, i, k);
            assert(is_copy_and_change(lines, i, k));
        }
    } else {
        assert(!says_at(lines_findings(now, span), span));
    }
}

/// A script is reported exactly if a line copies a file and the next line
/// that does something changes its mode.
pub proof fn copies_with_a_mode_are_reported(lines: Seq<Text>, span: Span)
    ensures
        says_at(lines_findings(lines, span), span) <==> exists|i: int, j: int|
            #[trigger] is_copy_and_change(lines, i, j),
{
    lemma_first_lines(lines, lines.len(), span);
    assert(lines.take(lines.len() as int) =~= lines);
}

} // verus!
