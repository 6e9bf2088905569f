//! Build-option macros where the distribution lacks them.
use vstd::prelude::*;

use crate::ast::{Span, SpecFile};
use crate::diagnostic::{Diagnostic, DiagnosticView, LintCategory, Severity, plain, reports};
use crate::lint::{Identity, Lint, LintMetadata, drain};
use crate::profile::{Family, Profile};
use crate::rules::say;
use crate::source::{
    lemma_bytes_at_least, lemma_line_ranges, lemma_trim_start_bytes, lines_of, range_views,
    source_lines,
};
use crate::text::{
    byte_len, byte_slice, has_prefix, ident, is_ident, opt_string, slice_bytes, trim_start,
    trimmed_start, is_space,
};
use crate::walk::{flat, lemma_flat_step};
use vstd::utf8::encode_utf8;
use crate::report_laws::{lemma_news, lemma_says_flat, news, says_at};
use crate::text_laws::ascii_whitespace;

verus! {

/// Whether the family is one that is known to lack these macros.
pub open spec fn lacks_bcond(profile: Profile) -> bool {
    profile.family == Some(Family::Alt) || profile.family == Some(Family::Opensuse) || profile.family
        == Some(Family::Mageia)
}

fn is_non_fedora_family(profile: &Profile) -> (r: bool)
    ensures
        r == lacks_bcond(*profile),
{
    match profile.family {
        Some(Family::Alt) | Some(Family::Opensuse) | Some(Family::Mageia) => true,
        _ => false,
    }
}

#[derive(Clone, Copy, Debug, PartialEq, Eq, Structural)]
pub enum BcondKind {
    With,
    Without,
}

/// Whether `word` stands at the start of `s` and no name goes on after it.
pub open spec fn starts_with_word(s: Seq<char>, word: Seq<char>) -> bool {
    word.is_prefix_of(s) && (s.len() == word.len() || !is_ident(s[word.len() as int]))
}

fn has_word(s: &str, word: &str) -> (r: bool)
    ensures
        r == starts_with_word(s@, word@),
{
    if !has_prefix(s, word) {
        return false;
    }
    let n: usize = word.unicode_len();
    let m: usize = s.unicode_len();
    m == n || !ident(s.get_char(n))
}

/// The macro that a line starts with after whitespace, and its offset. A
/// comment starts with none.
pub open spec fn line_use(source: Seq<char>, start: int, end: int) -> Option<(int, BcondKind)> {
    match byte_slice(source, start, end) {
        None => None,
        Some(line) => {
            let t = trim_start(line);
            let at = start + byte_len(line) - byte_len(t);
            if "#"@.is_prefix_of(t) {
                None
            } else if starts_with_word(t, "%bcond_without"@) {
                Some((at, BcondKind::Without))
            } else if starts_with_word(t, "%bcond_with"@) {
                Some((at, BcondKind::With))
            } else {
                None
            }
        },
    }
}

pub open spec fn use_report(at: int, kind: BcondKind) -> DiagnosticView {
    let (name, n) = match kind {
        BcondKind::With => ("%bcond_with"@, 11int),
        BcondKind::Without => ("%bcond_without"@, 14int),
    };
    plain("RPM129"@, Severity::Warn, "`"@ + name + "` is a Fedora/RHEL macro and isn't natively supported on this distro"@, Span::bytes(at as usize, (at + n) as usize)).advise(
        "rewrite as `%define NAME 1` (default-on) or `%define NAME 0` (default-off) and replace `%{with NAME}` with `%if %{NAME}` checks"@,
    )
}

pub open spec fn line_findings(source: Seq<char>, range: (int, int)) -> Seq<DiagnosticView> {
    match line_use(source, range.0, range.1) {
        Some((at, kind)) => seq![use_report(at, kind)],
        None => Seq::empty(),
    }
}

/// The reports on the lines of a source text.
pub open spec fn source_findings(source: Seq<char>) -> Seq<DiagnosticView> {
    flat(source_lines(source), |r: (int, int)| line_findings(source, r))
}

fn scan_line(source: &str, start: usize, end: usize) -> (r: Option<(usize, BcondKind)>)
    requires
        start <= end,
    ensures
        r is Some <==> line_use(source@, start as int, end as int) is Some,
        r matches Some(u) ==> line_use(source@, start as int, end as int) == Some((u.0 as int, u.1))
            && u.0 + (if u.1 is With { 11int } else { 14int }) <= end,
{
    let line = match slice_bytes(source, start, end) {
        Some(l) => l,
        None => {
            return None;
        },
    };
    let t = trimmed_start(line);
    if has_prefix(t, "#") {
        return None;
    }
    let total: usize = line.as_bytes().len();
    let rest: usize = t.as_bytes().len();
    proof {
        lemma_trim_start_bytes(line@);
        lemma_bytes_at_least(t@);
        assert(encode_utf8(line@).len() == end - start);
        reveal_strlit("%bcond_without");
        reveal_strlit("%bcond_with");
    }
    let at: usize = start + (total - rest);
    if has_word(t, "%bcond_without") {
        return Some((at, BcondKind::Without));
    }
    if has_word(t, "%bcond_with") {
        return Some((at, BcondKind::With));
    }
    None
}

fn check_line(source: &str, start: usize, end: usize, out: &mut Vec<Diagnostic>)
    requires
        start <= end,
    ensures
        reports(final(out)@) == reports(old(out)@) + line_findings(source@, (start as int, end as int)),
{
    match scan_line(source, start, end) {
        Some((at, kind)) => {
            let name = match kind {
                BcondKind::With => "%bcond_with",
                BcondKind::Without => "%bcond_without",
            };
            let n: usize = match kind {
                BcondKind::With => 11,
                BcondKind::Without => 14,
            };
            let mut message = String::from_str("`");
            message.append(name);
            message.append("` is a Fedora/RHEL macro and isn't natively supported on this distro");
            say(
                out,
                Diagnostic::new("RPM129", Severity::Warn, message.as_str(), Span::from_bytes(at, at + n)).with_advice(
                    "rewrite as `%define NAME 1` (default-on) or `%define NAME 0` (default-off) and replace `%{with NAME}` with `%if %{NAME}` checks",
                ),
            );
        },
        None => {
            assert(reports(out@) + Seq::<DiagnosticView>::empty() == reports(out@));
        },
    }
}

fn check_source(source: &str, out: &mut Vec<Diagnostic>)
    ensures
        reports(final(out)@) == reports(old(out)@) + source_findings(source@),
{
    let ranges = lines_of(source);
    let ghost rs = source_lines(source@);
    let ghost f = |r: (int, int)| line_findings(source@, r);
    let ghost start = reports(out@);
    let mut i: usize = 0;
    proof {
        lemma_line_ranges(encode_utf8(source@));
    }
    assert(start + flat(rs.take(0), f) == start);
    while i < ranges.len()
        invariant
            i <= ranges.len(),
            range_views(ranges@) == rs,
            forall|k: int| 0 <= k < rs.len() ==> (#[trigger] rs[k]).0 <= rs[k].1,
            f == (|r: (int, int)| line_findings(source@, r)),
            reports(out@) == start + flat(rs.take(i as int), f),
        decreases ranges.len() - i,
    {
        let ghost so_far = flat(rs.take(i as int), f);
        assert(rs[i as int] == (ranges@[i as int].0 as int, ranges@[i as int].1 as int));
        let (a, b) = ranges[i];
        check_line(source, a, b, out);
        proof {
            lemma_flat_step(rs, f, i as int);
            assert(start + so_far + f(rs[i as int]) == start + (so_far + f(rs[i as int])));
        }
        i = i + 1;
    }
    assert(rs.take(i as int) == rs);
}

/// RPM129 `bcond-on-non-fedora`: `%bcond_with` / `%bcond_without` are Fedora/RHEL-specific
/// build-option macros; use `%define NAME 1` + plain `%if` on other distros.
#[derive(Debug)]
pub struct BcondOnNonFedora {
    pub diagnostics: Vec<Diagnostic>,
    pub source: Option<String>,
    pub active: Option<bool>,
}

impl BcondOnNonFedora {
    pub fn new() -> (r: BcondOnNonFedora)
        ensures
            r.pending() == Seq::<DiagnosticView>::empty(),
            r.source is None,
            r.active is None,
    {
        let r = BcondOnNonFedora { diagnostics: Vec::new(), source: None, active: None };
        assert(r.pending() =~= Seq::<DiagnosticView>::empty());
        r
    }
}

impl Default for BcondOnNonFedora {
    fn default() -> (r: BcondOnNonFedora)
        ensures
            r.pending() == Seq::<DiagnosticView>::empty(),
            r.source is None,
            r.active is None,
    {
        BcondOnNonFedora::new()
    }
}

impl Lint for BcondOnNonFedora {
    open spec fn identity() -> Identity {
        Identity {
            id: "RPM129"@,
            name: "bcond-on-non-fedora"@,
            description: "`%bcond_with` / `%bcond_without` are Fedora/RHEL-specific build-option macros; use `%define NAME 1` + plain `%if` on other distros."@,
            default_severity: Severity::Warn,
            category: LintCategory::Packaging,
        }
    }

    open spec fn pending(&self) -> Seq<DiagnosticView> {
        reports(self.diagnostics@)
    }

    open spec fn after(&self, spec: SpecFile) -> Seq<DiagnosticView> {
        match (self.active, self.source) {
            (Some(true), Some(source)) => self.pending() + source_findings(source@),
            _ => self.pending(),
        }
    }

    open spec fn same_settings(&self, other: &Self) -> bool {
        self.source == other.source && self.active == other.active
    }

    fn metadata(&self) -> (r: LintMetadata) {
        LintMetadata {
            id: "RPM129",
            name: "bcond-on-non-fedora",
            description: "`%bcond_with` / `%bcond_without` are Fedora/RHEL-specific build-option macros; use `%define NAME 1` + plain `%if` on other distros.",
            default_severity: Severity::Warn,
            category: LintCategory::Packaging,
        }
    }

    fn visit_spec(&mut self, _spec: &SpecFile) {
        match (self.active, &self.source) {
            (Some(true), Some(source)) => {
                check_source(source.as_str(), &mut self.diagnostics);
            },
            _ => {},
        }
    }

    fn take_diagnostics(&mut self) -> (r: Vec<Diagnostic>) {
        drain(&mut self.diagnostics)
    }
}

impl BcondOnNonFedora {
    /// Gives the rule the source text, which it looks through.
    pub fn set_source(&mut self, source: &str)
        ensures
            opt_string(final(self).source) == Some(source@),
            final(self).active == old(self).active,
            final(self).pending() == old(self).pending(),
    {
        self.source = Some(source.to_owned());
    }

    pub fn applies_to_profile(&self, profile: &Profile) -> (r: bool)
        ensures
            r == lacks_bcond(*profile),
    {
        is_non_fedora_family(profile)
    }

    /// Switches the rule on or off, as the profile asks.
    pub fn set_profile(&mut self, profile: &Profile)
        ensures
            final(self).active == Some(lacks_bcond(*profile)),
            final(self).source == old(self).source,
            final(self).pending() == old(self).pending(),
    {
        self.active = Some(is_non_fedora_family(profile));
    }
}

/// Whether a line uses one of the macros: it stands first, but for
/// whitespace, and no name goes on after it.
pub open spec fn uses(line: Seq<char>, name: Seq<char>) -> bool {
    exists|spaces: Seq<char>, rest: Seq<char>|
        line == #[trigger] (spaces + (name + rest)) && (forall|i: int|
            0 <= i < spaces.len() ==> is_space(#[trigger] spaces[i])) && (rest.len() > 0
            ==> !is_ident(rest[0]))
}

proof fn lemma_after_spaces(spaces: Seq<char>, s: Seq<char>)
    requires
        forall|i: int| 0 <= i < spaces.len() ==> is_space(#[trigger] spaces[i]),
        s.len() > 0 ==> !is_space(s[0]),
    ensures
        trim_start(spaces + s) == s,
    decreases spaces.len(),
{
    if spaces.len() == 0 {
        assert(spaces + s =~= s);
    } else {
        assert((spaces + s)[0] == spaces[0]);
        assert((spaces + s).skip(1) =~= spaces.skip(1) + s);
        lemma_after_spaces(spaces.skip(1), s);
    }
}

proof fn lemma_split(s: Seq<char>) -> (spaces: Seq<char>)
    ensures
        s == spaces + trim_start(s),
        forall|i: int| 0 <= i < spaces.len() ==> is_space(#[trigger] spaces[i]),
    decreases s.len(),
{
    if s.len() > 0 && is_space(s[0]) {
        let more = lemma_split(s.skip(1));
        let spaces = seq![s[0]] + more;
        assert(trim_start(s) == trim_start(s.skip(1)));
        assert(s =~= seq![s[0]] + s.skip(1));
        assert(s =~= spaces + trim_start(s));
        spaces
    } else {
        assert(s =~= Seq::<char>::empty() + s);
        Seq::empty()
    }
}

proof fn lemma_uses(line: Seq<char>, name: Seq<char>)
    requires
        name.len() > 0,
        !is_space(name[0]),
    ensures
        uses(line, name) <==> starts_with_word(trim_start(line), name),
{
    let t = trim_start(line);
    if uses(line, name) {
        let (spaces, rest) = choose|spaces: Seq<char>, rest: Seq<char>|
            line == #[trigger] (spaces + (name + rest)) && (forall|i: int|
                0 <= i < spaces.len() ==> is_space(#[trigger] spaces[i])) && (rest.len() > 0
                ==> !is_ident(rest[0]));
        assert((name + rest)[0] == name[0]);
        lemma_after_spaces(spaces, name + rest);
        assert(t.subrange(0, name.len() as int) =~= name);
        if rest.len() > 0 {
            assert(t[name.len() as int] == rest[0]);
        }
    }
    if starts_with_word(t, name) {
        let spaces = lemma_split(line);
        let rest = t.skip(name.len() as int);
        assert(t =~= name + rest);
        if rest.len() > 0 {
            assert(rest[0] == t[name.len() as int]);
        }
        assert(line == (spaces + (name + rest)));
    }
}

/// A line is reported exactly if it uses `%bcond_with` or `%bcond_without`,
/// and the two are told apart.
pub proof fn uses_are_told_apart(source: Seq<char>, start: int, end: int, line: Seq<char>)
    requires
        byte_slice(source, start, end) == Some(line),
    ensures
        line_use(source, start, end) is Some <==> uses(line, "%bcond_with"@) || uses(
            line,
            "%bcond_without"@,
        ),
        line_use(source, start, end) matches Some(u) ==> (u.1 is With <==> uses(
            line,
            "%bcond_with"@,
        )) && (u.1 is Without <==> uses(line, "%bcond_without"@)),
        line_use(source, start, end) matches Some(u) ==> u.0 == start + byte_len(line) - byte_len(
            trim_start(line),
        ),
{
    reveal_strlit("%bcond_with");
    reveal_strlit("%bcond_without");
    reveal_strlit("#");
    let a = "%bcond_with"@;
    let b = "%bcond_without"@;
    assert(a.len() == 11 && a[0] == '%');
    assert(b.len() == 14 && b[0] == '%' && b[11] == 'o');
    assert("#"@.len() == 1 && "#"@[0] == '#');
    ascii_whitespace('%');
    lemma_uses(line, a);
    lemma_uses(line, b);
    let t = trim_start(line);
    if b.is_prefix_of(t) {
        assert(t.subrange(0, 14)[11] == t[11]);
        assert(t.subrange(0, 14)[0] == t[0]);
    }
    if a.is_prefix_of(t) {
        assert(t.subrange(0, 11)[0] == t[0]);
    }
    if "#"@.is_prefix_of(t) {
        assert(t.subrange(0, 1)[0] == t[0]);
    }
}

/// Every line of the source is looked at, where the family is one that lacks
/// the macros.
pub proof fn every_line_is_looked_at(rule: BcondOnNonFedora, spec: SpecFile, span: Span)
    ensures
        says_at(news(rule, spec), span) <==> rule.active == Some(true) && (rule.source matches Some(
            source,
        ) && exists|i: int|
            0 <= i < source_lines(source@).len() && says_at(
                line_findings(source@, #[trigger] source_lines(source@)[i]),
                span,
            )),
{
    let none = Seq::<DiagnosticView>::empty();
    match (rule.active, rule.source) {
        (Some(true), Some(source)) => {
            let f = |r: (int, int)| line_findings(source@, r);
            let all = source_lines(source@);
            lemma_news(rule, spec, source_findings(source@));
            lemma_says_flat(all, f, span);
            if says_at(source_findings(source@), span) {
                let i = choose|i: int| 0 <= i < all.len() && says_at(f(#[trigger] all[i]), span);
                assert(says_at(line_findings(source@, all[i]), span));
            }
            if exists|i: int|
                0 <= i < all.len() && says_at(line_findings(source@, #[trigger] all[i]), span) {
                let i = choose|i: int|
                    0 <= i < all.len() && says_at(line_findings(source@, #[trigger] all[i]), span);
                assert(says_at(f(all[i]), span));
            }
        },
        _ => {
            assert(rule.after(spec) =~= rule.pending() + none);
            lemma_news(rule, spec, none);
        },
    }
}

} // verus!
