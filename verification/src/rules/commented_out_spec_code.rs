//! Runs of comments that look like code.
use vstd::prelude::*;

use crate::ast::{Span, SpecFile};
use crate::diagnostic::{Diagnostic, DiagnosticView, LintCategory, Severity, plain, reports};
use crate::lint::{Identity, Lint, LintMetadata, drain};
use crate::rules::say;
use crate::source::{lines_of, range_views, source_lines};
use crate::text::{
    before, byte_len, byte_slice, chars, find_chars, find_from, has_prefix, ident, is_ident,
    is_upper, occurs_at, slice_bytes, strip_prefix, strip_suffix, trim_start, trimmed_start, upper,
    without_prefix, without_suffix, is_space,
};

verus! {

/// So many lines in a row are reported.
pub const RUN: usize = 3;

/// Whether a text starts like a tag line: a name with a capital, then a colon.
pub open spec fn starts_with_tag(s: Seq<char>) -> bool {
    match find_from(s, ":"@, 0) {
        None => false,
        Some(k) => k > 0 && is_upper(s[0]) && forall|i: int| 0 <= i < k ==> is_ident(#[trigger] s[i]),
    }
}

/// Whether a line is a comment on a tag line or on a macro.
pub open spec fn looks_like_code(line: Seq<char>) -> bool {
    match strip_prefix(trim_start(line), "#"@) {
        None => false,
        Some(rest) => starts_with_tag(trim_start(rest)) || "%"@.is_prefix_of(trim_start(rest)),
    }
}

/// Line `r` of the source, without a carriage return at its end.
pub open spec fn line_text(source: Seq<char>, r: (int, int)) -> Seq<char> {
    match byte_slice(source, r.0, r.1) {
        None => Seq::empty(),
        Some(line) => match strip_suffix(line, "\r"@) {
            Some(rest) => rest,
            None => line,
        },
    }
}

pub open spec fn is_code(source: Seq<char>, r: (int, int)) -> bool {
    looks_like_code(line_text(source, r))
}

/// What a scan has seen: the length and start of the run that the last line
/// is in, and the runs that ended before and are long enough.
pub struct Runs {
    pub len: nat,
    pub start: int,
    pub hits: Seq<(int, int)>,
}

/// The scan of the first `n` lines.
pub open spec fn runs(source: Seq<char>, rs: Seq<(int, int)>, n: nat) -> Runs
    decreases n,
{
    if n == 0 {
        Runs { len: 0, start: 0, hits: Seq::empty() }
    } else {
        let before = runs(source, rs, (n - 1) as nat);
        let r = rs[n - 1];
        if is_code(source, r) {
            Runs {
                len: before.len + 1,
                start: if before.len == 0 {
                    r.0
                } else {
                    before.start
                },
                hits: before.hits,
            }
        } else {
            Runs {
                len: 0,
                start: before.start,
                hits: if before.len >= RUN {
                    before.hits.push((before.start, r.0))
                } else {
                    before.hits
                },
            }
        }
    }
}

/// The byte ranges of the runs of a source text: each up to the line after
/// it, the last up to the end.
pub open spec fn source_runs(source: Seq<char>) -> Seq<(int, int)> {
    let rs = source_lines(source);
    let all = runs(source, rs, rs.len());
    if all.len >= RUN {
        all.hits.push((all.start, byte_len(source) as int))
    } else {
        all.hits
    }
}

pub open spec fn run_report(r: (int, int)) -> DiagnosticView {
    plain("RPM570"@, Severity::Warn, "consecutive commented-out lines look like spec syntax — remove or replace with `%dnl` plus a rationale"@, Span::bytes(r.0 as usize, r.1 as usize)).advise(
        "delete the dead block or annotate it with `%dnl` and a comment explaining why it's kept"@,
    )
}

pub open spec fn run_findings(source: Seq<char>) -> Seq<DiagnosticView> {
    source_runs(source).map_values(|r: (int, int)| run_report(r))
}

fn has_tag_start(s: &str) -> (r: bool)
    ensures
        r == starts_with_tag(s@),
{
    let v = chars(s);
    let colon = chars(":");
    match find_chars(&v, &colon, 0) {
        None => false,
        Some(k) => {
            if k == 0 {
                return false;
            }
            proof {
                reveal_strlit(":");
                assert(occurs_at(v@, colon@, k as int));
            }
            if !upper(v[0]) {
                return false;
            }
            let mut i: usize = 0;
            while i < k
                invariant
                    i <= k < v.len(),
                    v@ == s@,
                    forall|j: int| 0 <= j < i ==> is_ident(#[trigger] v@[j]),
                    find_from(s@, ":"@, 0) == Some(k as int),
                decreases k - i,
            {
                if !ident(v[i]) {
                    assert(!is_ident(s@[i as int]));
                    return false;
                }
                i = i + 1;
            }
            true
        },
    }
}

fn looks_like_commented_spec_code(line: &str) -> (r: bool)
    ensures
        r == looks_like_code(line@),
{
    match without_prefix(trimmed_start(line), "#") {
        None => false,
        Some(rest) => {
            let body = trimmed_start(rest);
            has_tag_start(body) || has_prefix(body, "%")
        },
    }
}

fn code_line(source: &str, start: usize, end: usize) -> (r: bool)
    ensures
        r == is_code(source@, (start as int, end as int)),
{
    match slice_bytes(source, start, end) {
        None => {
            let none = "";
            proof {
                reveal_strlit("");
                assert(none@ =~= Seq::<char>::empty());
            }
            looks_like_commented_spec_code(none)
        },
        Some(line) => match without_suffix(line, "\r") {
            Some(rest) => looks_like_commented_spec_code(rest),
            None => looks_like_commented_spec_code(line),
        },
    }
}

fn find_runs(source: &str) -> (r: Vec<(usize, usize)>)
    ensures
        range_views(r@) == source_runs(source@),
{
    let total: usize = source.as_bytes().len();
    let ranges = lines_of(source);
    let ghost rs = source_lines(source@);
    let mut hits: Vec<(usize, usize)> = Vec::new();
    let mut run_start: usize = 0;
    let mut run_len: usize = 0;
    let mut i: usize = 0;
    assert(range_views(hits@) =~= Seq::empty());
    while i < ranges.len()
        invariant
            i <= ranges.len(),
            run_len <= i,
            range_views(ranges@) == rs,
            run_len == runs(source@, rs, i as nat).len,
            run_start == runs(source@, rs, i as nat).start,
            range_views(hits@) == runs(source@, rs, i as nat).hits,
        decreases ranges.len() - i,
    {
        assert(rs[i as int] == (ranges@[i as int].0 as int, ranges@[i as int].1 as int));
        let (a, b) = ranges[i];
        if code_line(source, a, b) {
            if run_len == 0 {
                run_start = a;
            }
            run_len = run_len + 1;
        } else {
            if run_len >= RUN {
                let ghost before = range_views(hits@);
                hits.push((run_start, a));
                assert(range_views(hits@) =~= before.push((run_start as int, a as int)));
            }
            run_len = 0;
        }
        i = i + 1;
    }
    if run_len >= RUN {
        let ghost before = range_views(hits@);
        hits.push((run_start, total));
        assert(range_views(hits@) =~= before.push((run_start as int, total as int)));
    }
    hits
}

fn report_runs(source: &str, out: &mut Vec<Diagnostic>)
    ensures
        reports(final(out)@) == reports(old(out)@) + run_findings(source@),
{
    let hits = find_runs(source);
    let ghost all = run_findings(source@);
    let ghost start = reports(out@);
    let mut i: usize = 0;
    assert(start + all.take(0) =~= start);
    while i < hits.len()
        invariant
            i <= hits.len(),
            range_views(hits@) == source_runs(source@),
            all == run_findings(source@),
            reports(out@) == start + all.take(i as int),
        decreases hits.len() - i,
    {
        let (a, b) = hits[i];
        assert(range_views(hits@)[i as int] == (a as int, b as int));
        say(
            out,
            Diagnostic::new("RPM570", Severity::Warn, "consecutive commented-out lines look like spec syntax — remove or replace with `%dnl` plus a rationale", Span::from_bytes(a, b)).with_advice(
                "delete the dead block or annotate it with `%dnl` and a comment explaining why it's kept",
            ),
        );
        assert(all[i as int] == run_report((a as int, b as int)));
        assert(start + all.take(i as int) + seq![all[i as int]] =~= start + all.take(i + 1));
        i = i + 1;
    }
    assert(all.take(i as int) == all);
}

/// RPM570 `commented-out-spec-code`: Three or more consecutive `#`-commented lines look
/// like commented-out spec syntax — remove or replace with `%dnl` + rationale.
#[derive(Debug)]
pub struct CommentedOutSpecCode {
    pub diagnostics: Vec<Diagnostic>,
    pub source: String,
}

impl CommentedOutSpecCode {
    pub fn new() -> (r: CommentedOutSpecCode)
        ensures
            r.pending() == Seq::<DiagnosticView>::empty(),
            r.source@ == Seq::<char>::empty(),
    {
        let r = CommentedOutSpecCode { diagnostics: Vec::new(), source: String::new() };
        assert(r.pending() =~= Seq::<DiagnosticView>::empty());
        r
    }
}

impl Default for CommentedOutSpecCode {
    fn default() -> (r: CommentedOutSpecCode)
        ensures
            r.pending() == Seq::<DiagnosticView>::empty(),
            r.source@ == Seq::<char>::empty(),
    {
        CommentedOutSpecCode::new()
    }
}

impl Lint for CommentedOutSpecCode {
    open spec fn identity() -> Identity {
        Identity {
            id: "RPM570"@,
            name: "commented-out-spec-code"@,
            description: "Three or more consecutive `#`-commented lines look like commented-out spec syntax — remove or replace with `%dnl` + rationale."@,
            default_severity: Severity::Allow,
            category: LintCategory::Style,
        }
    }

    open spec fn pending(&self) -> Seq<DiagnosticView> {
        reports(self.diagnostics@)
    }

    open spec fn after(&self, spec: SpecFile) -> Seq<DiagnosticView> {
        self.pending() + run_findings(self.source@)
    }

    open spec fn same_settings(&self, other: &Self) -> bool {
        self.source == other.source
    }

    fn metadata(&self) -> (r: LintMetadata) {
        LintMetadata {
            id: "RPM570",
            name: "commented-out-spec-code",
            description: "Three or more consecutive `#`-commented lines look like commented-out spec syntax — remove or replace with `%dnl` + rationale.",
            default_severity: Severity::Allow,
            category: LintCategory::Style,
        }
    }

    fn visit_spec(&mut self, _spec: &SpecFile) {
        report_runs(self.source.as_str(), &mut self.diagnostics);
    }

    fn take_diagnostics(&mut self) -> (r: Vec<Diagnostic>) {
        drain(&mut self.diagnostics)
    }
}

impl CommentedOutSpecCode {
    /// Gives the rule the source text, which it looks through.
    pub fn set_source(&mut self, source: &str)
        ensures
            final(self).source@ == source@,
            final(self).pending() == old(self).pending(),
    {
        self.source = source.to_owned();
    }
}

/// Whether a text starts with a tag: a capital, then letters, digits and
/// underscores, then a colon.
pub open spec fn leads_with_tag(s: Seq<char>) -> bool {
    exists|k: int|
        0 < k < s.len() && #[trigger] s[k] == ':' && is_upper(s[0]) && forall|i: int|
            0 <= i < k ==> is_ident(#[trigger] s[i])
}

proof fn lemma_first_colon(s: Seq<char>, from: int)
    requires
        0 <= from,
    ensures
        match find_from(s, ":"@, from) {
            Some(k) => from <= k < s.len() && s[k] == ':' && forall|i: int|
                from <= i < k ==> #[trigger] s[i] != ':',
            None => forall|i: int| from <= i < s.len() ==> #[trigger] s[i] != ':',
        },
    decreases s.len() - from,
{
    reveal_strlit(":");
    assert(":"@.len() == 1 && ":"@[0] == ':');
    if from < s.len() {
        assert(s.subrange(from, from + 1)[0] == s[from]);
        if s[from] == ':' {
            assert(s.subrange(from, from + 1) =~= ":"@);
        } else {
            lemma_first_colon(s, from + 1);
        }
    }
}

/// The tag is read up to the first colon.
pub proof fn tags_end_at_a_colon(s: Seq<char>)
    ensures
        starts_with_tag(s) <==> leads_with_tag(s),
{
    lemma_first_colon(s, 0);
    match find_from(s, ":"@, 0) {
        Some(k) => {
            if leads_with_tag(s) {
                let j = choose|j: int|
                    0 < j < s.len() && #[trigger] s[j] == ':' && is_upper(s[0]) && forall|i: int|
                        0 <= i < j ==> is_ident(#[trigger] s[i]);
                assert(j == k) by {
                    if k < j {
                        assert(is_ident(s[k]));
                    }
                }
            }
        },
        None => {},
    }
}

proof fn lemma_after_spaces(spaces: Seq<char>, s: Seq<char>)
    requires
        forall|i: int| 0 <= i < spaces.len() ==> is_space(#[trigger] spaces[i]),
        s.len() > 0 ==> !is_space(s[0]),
    ensures
        trim_start(spaces + s) == s,
    decreases spaces.len(),
{
    if spaces.len() == 0 {
        assert(spaces + s =~= s);
    } else {
        assert((spaces + s)[0] == spaces[0]);
        assert((spaces + s).skip(1) =~= spaces.skip(1) + s);
        lemma_after_spaces(spaces.skip(1), s);
    }
}

/// A line looks like code exactly if a `#` comes first and a tag or a `%`
/// after it, whatever whitespace stands before the two.
pub proof fn commented_code_is_known_by_its_start(a: Seq<char>, c: char, b: Seq<char>, s: Seq<char>)
    requires
        forall|i: int| 0 <= i < a.len() ==> is_space(#[trigger] a[i]),
        forall|i: int| 0 <= i < b.len() ==> is_space(#[trigger] b[i]),
        !is_space(c),
        s.len() > 0 ==> !is_space(s[0]),
    ensures
        looks_like_code(a + (seq![c] + (b + s))) <==> c == '#' && (leads_with_tag(s) || (s.len() > 0
            && s[0] == '%')),
{
    let rest = b + s;
    let t = seq![c] + rest;
    assert(t[0] == c);
    lemma_after_spaces(a, t);
    lemma_after_spaces(b, s);
    tags_end_at_a_colon(s);
    reveal_strlit("#");
    reveal_strlit("%");
    assert("#"@.len() == 1 && "#"@[0] == '#');
    assert("%"@.len() == 1 && "%"@[0] == '%');
    assert(t.subrange(0, 1)[0] == c);
    if c == '#' {
        assert(t.subrange(0, 1) =~= "#"@);
        assert(t.skip(1) =~= rest);
    }
    if s.len() > 0 {
        assert(s.subrange(0, 1)[0] == s[0]);
        if s[0] == '%' {
            assert(s.subrange(0, 1) =~= "%"@);
        }
    }
}

/// Whether lines `i` to `j` look like code, at least three of them, and the
/// lines around them do not.
pub open spec fn is_run(source: Seq<char>, rs: Seq<(int, int)>, i: int, j: int) -> bool {
    &&& 0 <= i && i + 3 <= j <= rs.len()
    &&& forall|k: int| i <= k < j ==> is_code(source, #[trigger] rs[k])
    &&& i > 0 ==> !is_code(source, rs[i - 1])
    &&& j < rs.len() ==> !is_code(source, rs[j])
}

proof fn lemma_runs(source: Seq<char>, rs: Seq<(int, int)>, n: nat, h: (int, int))
    requires
        n <= rs.len(),
    ensures
        ({
            let r = runs(source, rs, n);
            let i = n - r.len;
            &&& 0 <= i
            &&& forall|k: int| i <= k < n ==> is_code(source, #[trigger] rs[k])
            &&& i > 0 ==> !is_code(source, rs[i - 1])
            &&& r.len > 0 ==> r.start == rs[i].0
            &&& r.hits.contains(h) <==> exists|a: int, b: int| #[trigger]
                is_run(source, rs, a, b) && b < n && h == (rs[a].0, rs[b].0)
        }),
    decreases n,
{
    if n > 0 {
        let k = n - 1;
        lemma_runs(source, rs, k as nat, h);
        let before = runs(source, rs, k as nat);
        let i = k - before.len;
        let now = runs(source, rs, n);
        if is_code(source, rs[k]) {
            assert(now.hits == before.hits);
            if now.hits.contains(h) {
                let (a, b) = choose|a: int, b: int| #[trigger]
                    is_run(source, rs, a, b) && b < k && h == (rs[a].0, rs[b].0);
                assert(is_run(source, rs, a, b) && b < n);
            }
            if exists|a: int, b: int| #[trigger]
                is_run(source, rs, a, b) && b < n && h == (rs[a].0, rs[b].0) {
                let (a, b) = choose|a: int, b: int| #[trigger]
                    is_run(source, rs, a, b) && b < n && h == (rs[a].0, rs[b].0);
                assert(b != k);
            }
        } else {
            if before.len >= RUN {
                assert(is_run(source, rs, i, k));
                assert(now.hits == before.hits.push((before.start, rs[k].0)));
                assert(now.hits[before.hits.len() as int] == (rs[i].0, rs[k].0));
            }
            if now.hits.contains(h) {
                let m = choose|m: int| 0 <= m < now.hits.len() && now.hits[m] == h;
                if m < before.hits.len() {
                    assert(before.hits[m] == h);
                    let (a, b) = choose|a: int, b: int| #[trigger]
                        is_run(source, rs, a, b) && b < k && h == (rs[a].0, rs[b].0);
                    assert(is_run(source, rs, a, b) && b < n);
                } else {
                    assert(is_run(source, rs, i, k) && k < n && h == (rs[i].0, rs[k].0));
                }
            }
            if exists|a: int, b: int| #[trigger]
                is_run(source, rs, a, b) && b < n && h == (rs[a].0, rs[b].0) {
                let (a, b) = choose|a: int, b: int| #[trigger]
                    is_run(source, rs, a, b) && b < n && h == (rs[a].0, rs[b].0);
                if b < k {
                    assert(before.hits.contains(h));
                    let m = choose|m: int| 0 <= m < before.hits.len() && before.hits[m] == h;
                    assert(now.hits[m] == h);
                } else {
                    assert(a == i) by {
                        if a < i {
                            assert(is_code(source, rs[i - 1]));
                        }
                        if a > i {
                            assert(is_code(source, rs[a - 1]));
                        }
                    }
                    assert(now.hits.contains(h));
                }
            }
        }
    }
}

/// Exactly the longest runs of at least three lines that look like code are
/// found: from the start of the first to the start of the line after the
/// last, or to the end.
pub proof fn runs_of_code_are_found(source: Seq<char>, h: (int, int))
    ensures
        source_runs(source).contains(h) <==> exists|i: int, j: int| #[trigger]
            is_run(source, source_lines(source), i, j) && h == (
                source_lines(source)[i].0,
                if j < source_lines(source).len() {
                    source_lines(source)[j].0
                } else {
                    byte_len(source) as int
                },
            ),
{
    let rs = source_lines(source);
    let n = rs.len();
    let all = runs(source, rs, n);
    let found = source_runs(source);
    let end = byte_len(source) as int;
    let i = n - all.len;
    lemma_runs(source, rs, n, h);
    if all.len >= RUN {
        assert(is_run(source, rs, i, n as int));
        assert(found[all.hits.len() as int] == (rs[i].0, end));
    }
    if found.contains(h) {
        let m = choose|m: int| 0 <= m < found.len() && found[m] == h;
        if m < all.hits.len() {
            assert(all.hits[m] == h);
            let (a, b) = choose|a: int, b: int| #[trigger]
                is_run(source, rs, a, b) && b < n && h == (rs[a].0, rs[b].0);
            assert(is_run(source, rs, a, b));
        } else {
            assert(is_run(source, rs, i, n as int));
        }
    }
    if exists|a: int, b: int| #[trigger]
        is_run(source, rs, a, b) && h == (
            rs[a].0,
            if b < n {
                rs[b].0
            } else {
                end
            },
        ) {
        let (a, b) = choose|a: int, b: int| #[trigger]
            is_run(source, rs, a, b) && h == (
                rs[a].0,
                if b < n {
                    rs[b].0
                } else {
                    end
                },
            );
        if b < n {
            assert(all.hits.contains(h));
            let m = choose|m: int| 0 <= m < all.hits.len() && all.hits[m] == h;
            assert(found[m] == h);
        } else {
            assert(a == i) by {
                if a < i {
                    assert(is_code(source, rs[i - 1]));
                }
                if a > i {
                    assert(is_code(source, rs[a - 1]));
                }
            }
            assert(found.contains(h));
        }
    }
}

} // verus!
