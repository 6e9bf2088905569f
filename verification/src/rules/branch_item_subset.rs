//! Branches of a package whose lines are part of those of another.
use vstd::prelude::*;

use crate::ast::{CondBranch, Conditional, Item, PreambleItem, Span, SpecFile};
use crate::condition::string_texts;
use crate::diagnostic::{Diagnostic, DiagnosticView, LintCategory, Severity, plain, reports};
use crate::lint::{Identity, Lint, LintMetadata, drain};
use crate::packages::Package;
use crate::rules::{SiteRule, given, run_sites, say, site_findings};
use crate::text::{
    before, byte_len, byte_slice, lines, opt_string, slice_bytes, trim_end, trimmed_end,
};
use crate::walk::{Scope, Site, SiteView, arms, flat};
use crate::report_laws::{lemma_says_given, says_at};

verus! {

/// The source text of a tag line, as far as the source goes, without
/// whitespace at its end.
pub open spec fn line_text(p: PreambleItem, source: Seq<char>) -> Option<Seq<char>> {
    let total = byte_len(source) as int;
    let end = if p.data.end_byte < total {
        p.data.end_byte as int
    } else {
        total
    };
    let start = if p.data.start_byte < end {
        p.data.start_byte as int
    } else {
        end
    };
    match byte_slice(source, start, end) {
        Some(s) => Some(trim_end(s)),
        None => None,
    }
}

/// The texts of the tag lines of a body, unless something else stands in it
/// than tag lines, blank lines and comments.
pub open spec fn body_lines(body: Seq<Item>, source: Seq<char>) -> Option<Seq<Seq<char>>>
    decreases body.len(),
{
    if body.len() == 0 {
        Some(Seq::empty())
    } else {
        match (body_lines(body.drop_last(), source), body.last()) {
            (None, _) => None,
            (Some(rest), Item::Preamble(p)) => match line_text(p, source) {
                Some(t) => Some(rest.push(t)),
                None => None,
            },
            (Some(rest), Item::Blank) => Some(rest),
            (Some(rest), Item::Comment(_)) => Some(rest),
            _ => None,
        }
    }
}

/// The lines of each branch, and of the `%else` after them, unless those of
/// one are unknown or none.
pub open spec fn arm_lines(c: Conditional, source: Seq<char>) -> Option<Seq<Seq<Seq<char>>>> {
    match (branch_lines(c.branches@, source), c.otherwise) {
        (Some(ls), None) => Some(ls),
        (Some(ls), Some(body)) => match some_lines(body@, source) {
            Some(l) => Some(ls.push(l)),
            None => None,
        },
        _ => None,
    }
}

pub open spec fn some_lines(body: Seq<Item>, source: Seq<char>) -> Option<Seq<Seq<char>>> {
    match body_lines(body, source) {
        Some(l) => if l.len() > 0 {
            Some(l)
        } else {
            None
        },
        None => None,
    }
}

pub open spec fn branch_lines(branches: Seq<CondBranch>, source: Seq<char>) -> Option<Seq<Seq<Seq<char>>>>
    decreases branches.len(),
{
    if branches.len() == 0 {
        Some(Seq::empty())
    } else {
        match (branch_lines(branches.drop_last(), source), some_lines(branches.last().body@, source)) {
            (Some(rest), Some(l)) => Some(rest.push(l)),
            _ => None,
        }
    }
}

/// Whether `b` holds each line of `a` at least as often, and more lines.
pub open spec fn is_part(a: Seq<Seq<char>>, b: Seq<Seq<char>>) -> bool {
    a.len() < b.len() && a.to_multiset().subset_of(b.to_multiset())
}

/// Whether the lines of arm `i` are part of those of another.
pub open spec fn is_part_of_another(arms: Seq<Seq<Seq<char>>>, i: int) -> bool {
    exists|j: int| 0 <= j < arms.len() && j != i && is_part(arms[i], #[trigger] arms[j])
}

/// The first arm from `i` on whose lines are part of those of another.
pub open spec fn first_part(arms: Seq<Seq<Seq<char>>>, i: int) -> Option<int>
    decreases arms.len() - i,
{
    if i < 0 || i >= arms.len() {
        None
    } else if is_part_of_another(arms, i) {
        Some(i)
    } else {
        first_part(arms, i + 1)
    }
}

pub open spec fn subset_report(span: Span) -> DiagnosticView {
    plain("RPM456"@, Severity::Warn, "one branch's items are a strict subset of another's — hoist the shared items above the conditional"@, span).advise(
        "lift the shared items out; keep only the branch-specific ones inside"@,
    )
}

/// The report on a conditional of a package: at the first branch whose lines
/// are part of those of another, or at the block for the `%else`.
pub open spec fn subset_findings(scope: Scope, c: Conditional, source: Seq<char>) -> Seq<DiagnosticView> {
    match arm_lines(c, source) {
        Some(arms) => match first_part(arms, 0) {
            Some(i) => given(
                scope is Package,
                subset_report(
                    if i < c.branches@.len() {
                        c.branches@[i].data
                    } else {
                        c.data
                    },
                ),
            ),
            None => Seq::empty(),
        },
        None => Seq::empty(),
    }
}

/// The lines that a list of owned lines says.
pub open spec fn line_views(v: Seq<Vec<String>>) -> Seq<Seq<Seq<char>>> {
    v.map_values(|l: Vec<String>| string_texts(l@))
}

fn text_of_line(p: &PreambleItem, source: &str) -> (r: Option<String>)
    ensures
        opt_string(r) == line_text(*p, source@),
{
    let total: usize = source.as_bytes().len();
    let end: usize = if p.data.end_byte < total {
        p.data.end_byte
    } else {
        total
    };
    let start: usize = if p.data.start_byte < end {
        p.data.start_byte
    } else {
        end
    };
    match slice_bytes(source, start, end) {
        Some(s) => Some(trimmed_end(s).to_owned()),
        None => None,
    }
}

fn canonical_lines(body: &Vec<Item>, source: &str) -> (r: Option<Vec<String>>)
    ensures
        r is Some <==> body_lines(body@, source@) is Some,
        r matches Some(v) ==> body_lines(body@, source@) == Some(string_texts(v@)),
{
    let mut out: Vec<String> = Vec::new();
    let mut i: usize = 0;
    assert(string_texts(out@) =~= Seq::empty());
    while i < body.len()
        invariant
            i <= body.len(),
            body_lines(body@.take(i as int), source@) == Some(string_texts(out@)),
        decreases body.len() - i,
    {
        let ghost before = string_texts(out@);
        assert(body@.take(i + 1).drop_last() == body@.take(i as int));
        let mut known = true;
        match &body[i] {
            Item::Preamble(p) => match text_of_line(p, source) {
                Some(t) => {
                    let ghost tv = t@;
                    out.push(t);
                    assert(string_texts(out@) =~= before.push(tv));
                },
                None => {
                    known = false;
                },
            },
            Item::Blank => {},
            Item::Comment(_) => {},
            _ => {
                known = false;
            },
        }
        if !known {
            proof {
                lemma_lines_unknown(body@, source@, i + 1);
            }
            return None;
        }
        i = i + 1;
    }
    assert(body@.take(i as int) == body@);
    Some(out)
}

proof fn lemma_lines_unknown(body: Seq<Item>, source: Seq<char>, n: int)
    requires
        0 <= n <= body.len(),
        body_lines(body.take(n), source) is None,
    ensures
        body_lines(body, source) is None,
    decreases body.len(),
{
    if n < body.len() {
        assert(body.drop_last().take(n) == body.take(n));
        lemma_lines_unknown(body.drop_last(), source, n);
    } else {
        assert(body.take(n) == body);
    }
}

proof fn lemma_branches_unknown(branches: Seq<CondBranch>, source: Seq<char>, n: int)
    requires
        0 <= n <= branches.len(),
        branch_lines(branches.take(n), source) is None,
    ensures
        branch_lines(branches, source) is None,
    decreases branches.len(),
{
    if n < branches.len() {
        assert(branches.drop_last().take(n) == branches.take(n));
        lemma_branches_unknown(branches.drop_last(), source, n);
    } else {
        assert(branches.take(n) == branches);
    }
}

fn nonempty_lines(body: &Vec<Item>, source: &str) -> (r: Option<Vec<String>>)
    ensures
        r is Some <==> some_lines(body@, source@) is Some,
        r matches Some(v) ==> some_lines(body@, source@) == Some(string_texts(v@)),
{
    match canonical_lines(body, source) {
        Some(v) => {
            if v.len() > 0 {
                Some(v)
            } else {
                None
            }
        },
        None => None,
    }
}

fn collect_arms(c: &Conditional, source: &str) -> (r: Option<Vec<Vec<String>>>)
    ensures
        r is Some <==> arm_lines(*c, source@) is Some,
        r matches Some(v) ==> arm_lines(*c, source@) == Some(line_views(v@)),
{
    let mut out: Vec<Vec<String>> = Vec::new();
    let mut i: usize = 0;
    assert(line_views(out@) =~= Seq::empty());
    while i < c.branches.len()
        invariant
            i <= c.branches.len(),
            branch_lines(c.branches@.take(i as int), source@) == Some(line_views(out@)),
        decreases c.branches.len() - i,
    {
        let ghost before = line_views(out@);
        assert(c.branches@.take(i + 1).drop_last() == c.branches@.take(i as int));
        match nonempty_lines(&c.branches[i].body, source) {
            Some(l) => {
                let ghost lv = string_texts(l@);
                out.push(l);
                assert(line_views(out@) =~= before.push(lv));
            },
            None => {
                proof {
                    lemma_branches_unknown(c.branches@, source@, i + 1);
                }
                return None;
            },
        }
        i = i + 1;
    }
    assert(c.branches@.take(i as int) == c.branches@);
    match &c.otherwise {
        Some(body) => match nonempty_lines(body, source) {
            Some(l) => {
                let ghost before = line_views(out@);
                let ghost lv = string_texts(l@);
                out.push(l);
                assert(line_views(out@) =~= before.push(lv));
                Some(out)
            },
            None => None,
        },
        None => Some(out),
    }
}

fn count_line(lines: &Vec<String>, line: &String) -> (r: usize)
    ensures
        r == string_texts(lines@).to_multiset().count(line@),
{
    let ghost t = string_texts(lines@);
    let mut n: usize = 0;
    let mut i: usize = 0;
    proof {
        assert(t.take(0) =~= Seq::empty());
        t.take(0).to_multiset_ensures();
    }
    while i < lines.len()
        invariant
            i <= lines.len(),
            n <= i,
            t == string_texts(lines@),
            n == t.take(i as int).to_multiset().count(line@),
        decreases lines.len() - i,
    {
        proof {
            t.take(i as int).to_multiset_ensures();
            assert(t.take(i + 1) =~= t.take(i as int).push(t[i as int]));
            assert(t[i as int] == lines@[i as int]@);
        }
        if lines[i] == *line {
            n = n + 1;
        }
        i = i + 1;
    }
    assert(t.take(i as int) == t);
    n
}

/// Whether `b` holds each line of `a` at least as often, and more lines.
pub fn is_strict_submultiset(a: &Vec<String>, b: &Vec<String>) -> (r: bool)
    ensures
        r == is_part(string_texts(a@), string_texts(b@)),
{
    let ghost x = string_texts(a@);
    let ghost y = string_texts(b@);
    if a.len() >= b.len() {
        return false;
    }
    let mut i: usize = 0;
    while i < a.len()
        invariant
            i <= a.len(),
            x == string_texts(a@),
            y == string_texts(b@),
            forall|j: int|
                0 <= j < i ==> x.to_multiset().count(#[trigger] x[j]) <= y.to_multiset().count(x[j]),
        decreases a.len() - i,
    {
        assert(x[i as int] == a@[i as int]@);
        if count_line(a, &a[i]) > count_line(b, &a[i]) {
            assert(x.to_multiset().count(x[i as int]) > y.to_multiset().count(x[i as int]));
            return false;
        }
        i = i + 1;
    }
    proof {
        x.to_multiset_ensures();
        assert forall|l: Seq<char>| #[trigger] x.to_multiset().count(l) <= y.to_multiset().count(l) by {
            if x.contains(l) {
                let j = choose|j: int| 0 <= j < x.len() && x[j] == l;
                assert(x.to_multiset().count(x[j]) <= y.to_multiset().count(x[j]));
            }
        }
    }
    true
}

fn find_part(arms: &Vec<Vec<String>>) -> (r: Option<usize>)
    ensures
        r is Some <==> first_part(line_views(arms@), 0) is Some,
        r matches Some(i) ==> first_part(line_views(arms@), 0) == Some(i as int) && i < arms@.len(),
{
    let ghost v = line_views(arms@);
    let mut i: usize = 0;
    while i < arms.len()
        invariant
            i <= arms.len(),
            v == line_views(arms@),
            first_part(v, 0) == first_part(v, i as int),
        decreases arms.len() - i,
    {
        let mut found = false;
        let mut j: usize = 0;
        while j < arms.len() && !found
            invariant
                i < arms.len(),
                j <= arms.len(),
                v == line_views(arms@),
                found ==> is_part_of_another(v, i as int),
                !found ==> forall|k: int|
                    0 <= k < j && k != i ==> !is_part(v[i as int], #[trigger] v[k]),
            decreases arms.len() - j,
        {
            assert(v[i as int] == string_texts(arms@[i as int]@));
            assert(v[j as int] == string_texts(arms@[j as int]@));
            if i != j && is_strict_submultiset(&arms[i], &arms[j]) {
                found = true;
            }
            j = j + 1;
        }
        if found {
            return Some(i);
        }
        i = i + 1;
    }
    None
}

fn check(c: &Conditional, source: &str, out: &mut Vec<Diagnostic>)
    ensures
        reports(final(out)@) == reports(old(out)@) + subset_findings(Scope::Package, *c, source@),
{
    match collect_arms(c, source) {
        Some(arms) => match find_part(&arms) {
            Some(i) => {
                let span = if i < c.branches.len() {
                    c.branches[i].data
                } else {
                    c.data
                };
                say(
                    out,
                    Diagnostic::new("RPM456", Severity::Warn, "one branch's items are a strict subset of another's — hoist the shared items above the conditional", span).with_advice(
                        "lift the shared items out; keep only the branch-specific ones inside",
                    ),
                );
                return ;
            },
            None => {},
        },
        None => {},
    }
    assert(reports(out@) + Seq::<DiagnosticView>::empty() == reports(out@));
}

/// RPM456 `branch-item-subset`: One branch of a conditional contains a strict subset of
/// another branch's items — hoist the shared items above the conditional.
#[derive(Debug)]
pub struct BranchItemSubset {
    pub diagnostics: Vec<Diagnostic>,
    pub source: String,
}

impl BranchItemSubset {
    pub fn new() -> (r: BranchItemSubset)
        ensures
            r.pending() == Seq::<DiagnosticView>::empty(),
            r.source@ == Seq::<char>::empty(),
    {
        let r = BranchItemSubset { diagnostics: Vec::new(), source: String::new() };
        assert(r.pending() =~= Seq::<DiagnosticView>::empty());
        r
    }
}

impl Default for BranchItemSubset {
    fn default() -> (r: BranchItemSubset)
        ensures
            r.pending() == Seq::<DiagnosticView>::empty(),
            r.source@ == Seq::<char>::empty(),
    {
        BranchItemSubset::new()
    }
}

impl Lint for BranchItemSubset {
    open spec fn identity() -> Identity {
        Identity {
            id: "RPM456"@,
            name: "branch-item-subset"@,
            description: "One branch of a conditional contains a strict subset of another branch's items — hoist the shared items above the conditional."@,
            default_severity: Severity::Warn,
            category: LintCategory::Style,
        }
    }

    open spec fn pending(&self) -> Seq<DiagnosticView> {
        reports(self.diagnostics@)
    }

    open spec fn after(&self, spec: SpecFile) -> Seq<DiagnosticView> {
        self.pending() + site_findings::<BranchItemSubset>(&self.source, spec)
    }

    open spec fn same_settings(&self, other: &Self) -> bool {
        self.source == other.source
    }

    fn metadata(&self) -> (r: LintMetadata) {
        LintMetadata {
            id: "RPM456",
            name: "branch-item-subset",
            description: "One branch of a conditional contains a strict subset of another branch's items — hoist the shared items above the conditional.",
            default_severity: Severity::Warn,
            category: LintCategory::Style,
        }
    }

    fn visit_spec(&mut self, spec: &SpecFile) {
        run_sites::<BranchItemSubset>(&self.source, spec, &mut self.diagnostics);
    }

    fn take_diagnostics(&mut self) -> (r: Vec<Diagnostic>) {
        drain(&mut self.diagnostics)
    }
}

impl SiteRule for BranchItemSubset {
    type Settings = String;

    open spec fn on_site(settings: &String, site: SiteView) -> Seq<DiagnosticView> {
        subset_findings(site.scope, site.cond, settings@)
    }

    fn check_site(settings: &String, site: &Site, out: &mut Vec<Diagnostic>) {
        match site.scope {
            Scope::Package => {
                check(site.cond, settings.as_str(), out);
            },
            _ => {
                assert(reports(out@) + Seq::<DiagnosticView>::empty() == reports(out@));
            },
        }
    }
}

impl BranchItemSubset {
    /// Gives the rule the source text that lines are compared in.
    pub fn set_source(&mut self, source: &str)
        ensures
            final(self).source@ == source@,
            final(self).pending() == old(self).pending(),
    {
        self.source = source.to_owned();
    }
}

/// What is part of something else holds nothing that the other does not, and
/// is not the same, in whatever order the lines stand.
pub proof fn part_is_strict(a: Seq<Seq<char>>, b: Seq<Seq<char>>)
    requires
        is_part(a, b),
    ensures
        a.to_multiset().subset_of(b.to_multiset()),
        a.to_multiset() != b.to_multiset(),
{
    a.to_multiset_ensures();
    b.to_multiset_ensures();
}

/// Two lists of lines are never part of each other.
pub proof fn parts_are_never_mutual(a: Seq<Seq<char>>, b: Seq<Seq<char>>)
    ensures
        !(is_part(a, b) && is_part(b, a)),
{
}

/// Lines that only stand in another order are no part.
pub proof fn rearranged_lines_are_no_part(a: Seq<Seq<char>>, b: Seq<Seq<char>>)
    requires
        a.to_multiset() == b.to_multiset(),
    ensures
        !is_part(a, b),
        !is_part(b, a),
{
    a.to_multiset_ensures();
    b.to_multiset_ensures();
}

/// Whether nothing but tag lines with a text, blank lines and comments stands
/// in a body, and `lines` are the texts of the tag lines.
pub open spec fn is_made_of(body: Seq<Item>, source: Seq<char>, lines: Seq<Seq<char>>) -> bool {
    &&& forall|k: int|
        0 <= k < body.len() ==> (#[trigger] body[k] is Blank) || body[k] is Comment || (
        body[k] matches Item::Preamble(p) && line_text(p, source) is Some)
    &&& lines == flat(body, |item: Item| tag_text(item, source))
}

/// The text of a tag line.
pub open spec fn tag_text(item: Item, source: Seq<char>) -> Seq<Seq<char>> {
    match item {
        Item::Preamble(p) => match line_text(p, source) {
            Some(t) => seq![t],
            None => Seq::empty(),
        },
        _ => Seq::empty(),
    }
}

/// The lines of a body are its tag lines, in order, and are known exactly if
/// nothing else stands in it but blank lines and comments.
pub proof fn lines_of_a_body_are_its_tag_lines(
    body: Seq<Item>,
    source: Seq<char>,
    lines: Seq<Seq<char>>,
)
    ensures
        body_lines(body, source) == Some(lines) <==> is_made_of(body, source, lines),
    decreases body.len(),
{
    let f = |item: Item| tag_text(item, source);
    if body.len() == 0 {
        assert(flat(body, f) =~= Seq::empty());
    } else {
        let front = body.drop_last();
        let n = body.len() - 1;
        let head = flat(front, f);
        lines_of_a_body_are_its_tag_lines(front, source, head);
        assert(flat(body, f) == head + f(body.last()));
        assert forall|k: int| 0 <= k < n implies front[k] == #[trigger] body[k] by {}
        match body_lines(front, source) {
            Some(rest) => {
                lines_of_a_body_are_its_tag_lines(front, source, rest);
                match body.last() {
                    Item::Preamble(p) => match line_text(p, source) {
                        Some(t) => {
                            assert(rest.push(t) =~= head + seq![t]);
                        },
                        None => {
                            assert(body[n] is Preamble);
                        },
                    },
                    _ => {
                        assert(rest =~= head + Seq::<Seq<char>>::empty());
                        assert(body[n] == body.last());
                    },
                }
                assert forall|k: int| 0 <= k < n implies (#[trigger] body[k] is Blank) || body[k] is Comment
                    || (body[k] matches Item::Preamble(p) && line_text(p, source) is Some) by {
                    assert(front[k] == body[k]);
                }
            },
            None => {
                if is_made_of(body, source, lines) {
                    assert forall|k: int| 0 <= k < n implies (#[trigger] front[k] is Blank)
                        || front[k] is Comment || (front[k] matches Item::Preamble(p) && line_text(
                        p,
                        source,
                    ) is Some) by {
                        assert(front[k] == body[k]);
                    }
                    assert(is_made_of(front, source, head));
                }
            },
        }
    }
}

proof fn lemma_first_part(arms: Seq<Seq<Seq<char>>>, i: int)
    requires
        0 <= i,
    ensures
        match first_part(arms, i) {
            Some(k) => i <= k < arms.len() && is_part_of_another(arms, k) && forall|j: int|
                i <= j < k ==> !(#[trigger] is_part_of_another(arms, j)),
            None => forall|j: int|
                i <= j < arms.len() ==> !(#[trigger] is_part_of_another(arms, j)),
        },
    decreases arms.len() - i,
{
    if i < arms.len() && !is_part_of_another(arms, i) {
        lemma_first_part(arms, i + 1);
    }
}

/// Exactly those blocks of a package are reported in which an arm holds some
/// of the lines of another arm and no other lines: at the first such branch,
/// or at the block where only the `%else` is one.
pub proof fn smaller_arms_are_reported(
    scope: Scope,
    c: Conditional,
    source: Seq<char>,
    arms: Seq<Seq<Seq<char>>>,
    span: Span,
)
    requires
        arm_lines(c, source) == Some(arms),
    ensures
        says_at(subset_findings(scope, c, source), span) <==> scope is Package && exists|i: int|
            0 <= i < arms.len() && #[trigger] is_smaller(arms, i) && (forall|k: int|
                0 <= k < i ==> !(#[trigger] is_smaller(arms, k))) && span == if i
                < c.branches@.len() {
                c.branches@[i].data
            } else {
                c.data
            },
{
    lemma_first_part(arms, 0);
    assert forall|i: int| #[trigger] is_smaller(arms, i) <==> is_part_of_another(arms, i) by {
        if is_smaller(arms, i) {
            let j = choose|j: int|
                0 <= j < arms.len() && j != i && is_less(arms[i], #[trigger] arms[j]);
            assert(is_part(arms[i], arms[j]));
        }
        if is_part_of_another(arms, i) {
            let j = choose|j: int|
                0 <= j < arms.len() && j != i && is_part(arms[i], #[trigger] arms[j]);
            assert(is_less(arms[i], arms[j]));
        }
    }
    match first_part(arms, 0) {
        Some(i) => {
            let at = if i < c.branches@.len() {
                c.branches@[i].data
            } else {
                c.data
            };
            lemma_says_given(scope is Package, subset_report(at), span);
            assert(is_smaller(arms, i));
            assert forall|k: int| 0 <= k < arms.len() && #[trigger] is_smaller(arms, k) && (forall|
                j: int,
            |
                0 <= j < k ==> !(#[trigger] is_smaller(arms, j))) implies k == i by {
                if i < k {
                    assert(!is_smaller(arms, i));
                }
                if k < i {
                    assert(!is_part_of_another(arms, k));
                }
            }
        },
        None => {},
    }
}

/// Whether each line stands in `b` at least as often as in `a`, and `b` has
/// more lines.
pub open spec fn is_less(a: Seq<Seq<char>>, b: Seq<Seq<char>>) -> bool {
    &&& a.len() < b.len()
    &&& forall|l: Seq<char>|
        a.to_multiset().count(l) <= #[trigger] b.to_multiset().count(l)
}

/// Whether the lines of arm `i` are fewer than those of another, and among
/// them.
pub open spec fn is_smaller(arms: Seq<Seq<Seq<char>>>, i: int) -> bool {
    exists|j: int| 0 <= j < arms.len() && j != i && is_less(arms[i], #[trigger] arms[j])
}

/// The lines of a block are those of its branches and then of its `%else`,
/// and are known exactly if those of every arm are, and each has some.
pub proof fn every_arm_has_its_lines(c: Conditional, source: Seq<char>, arms: Seq<Seq<Seq<char>>>)
    ensures
        arm_lines(c, source) == Some(arms) <==> ({
            let n = c.branches@.len();
            &&& arms.len() == n + (if c.otherwise is Some {
                1int
            } else {
                0
            })
            &&& forall|i: int|
                0 <= i < n ==> is_made_of(c.branches@[i].body@, source, #[trigger] arms[i])
            &&& c.otherwise matches Some(body) ==> is_made_of(body@, source, arms[n as int])
            &&& forall|i: int| 0 <= i < arms.len() ==> (#[trigger] arms[i]).len() > 0
        }),
{
    let n = c.branches@.len();
    match c.otherwise {
        None => lemma_branch_lines(c.branches@, source, arms),
        Some(body) => {
            if arms.len() == n + 1 {
                let front = arms.drop_last();
                lemma_branch_lines(c.branches@, source, front);
                lemma_some_lines(body@, source, arms.last());
                assert(arms =~= front.push(arms.last()));
                assert forall|i: int| 0 <= i < n implies front[i] == #[trigger] arms[i] by {}
                if arm_lines(c, source) == Some(arms) {
                    let ls = branch_lines(c.branches@, source).unwrap();
                    let l = some_lines(body@, source).unwrap();
                    assert(ls.push(l).drop_last() =~= ls);
                    assert(ls == front && l == arms.last());
                    assert forall|i: int| 0 <= i < arms.len() implies (#[trigger] arms[i]).len() > 0 by {
                        if i < n {
                            assert(front[i].len() > 0);
                        }
                    }
                    assert forall|i: int| 0 <= i < n implies is_made_of(
                        c.branches@[i].body@,
                        source,
                        #[trigger] arms[i],
                    ) by {
                        assert(is_made_of(c.branches@[i].body@, source, front[i]));
                    }
                }
                if (forall|i: int|
                    0 <= i < n ==> is_made_of(c.branches@[i].body@, source, #[trigger] arms[i]))
                    && is_made_of(body@, source, arms[n as int]) && forall|i: int|
                    0 <= i < arms.len() ==> (#[trigger] arms[i]).len() > 0 {
                    assert forall|i: int| 0 <= i < n implies is_made_of(
                        c.branches@[i].body@,
                        source,
                        #[trigger] front[i],
                    ) && front[i].len() > 0 by {
                        assert(front[i] == arms[i]);
                    }
                    assert(arms[n as int].len() > 0);
                }
            } else if arm_lines(c, source) == Some(arms) {
                let ls = branch_lines(c.branches@, source).unwrap();
                lemma_branch_lines(c.branches@, source, ls);
            }
        },
    }
}

proof fn lemma_some_lines(body: Seq<Item>, source: Seq<char>, l: Seq<Seq<char>>)
    ensures
        some_lines(body, source) == Some(l) <==> is_made_of(body, source, l) && l.len() > 0,
{
    lines_of_a_body_are_its_tag_lines(body, source, l);
}

proof fn lemma_branch_lines(
    branches: Seq<CondBranch>,
    source: Seq<char>,
    ls: Seq<Seq<Seq<char>>>,
)
    ensures
        branch_lines(branches, source) == Some(ls) <==> ls.len() == branches.len() && forall|i: int|
            0 <= i < ls.len() ==> is_made_of(branches[i].body@, source, #[trigger] ls[i])
                && ls[i].len() > 0,
    decreases branches.len(),
{
    if branches.len() == 0 {
        if ls.len() == 0 {
            assert(ls =~= Seq::empty());
        }
    } else {
        let front = branches.drop_last();
        let n = branches.len() - 1;
        if ls.len() == branches.len() {
            let head = ls.drop_last();
            lemma_branch_lines(front, source, head);
            lemma_some_lines(branches.last().body@, source, ls.last());
            assert(ls =~= head.push(ls.last()));
            assert forall|i: int| 0 <= i < n implies head[i] == #[trigger] ls[i] && front[i]
                == branches[i] by {}
            if branch_lines(branches, source) == Some(ls) {
                let rest = branch_lines(front, source).unwrap();
                let l = some_lines(branches.last().body@, source).unwrap();
                assert(rest.push(l).drop_last() =~= rest);
                assert(rest == head && l == ls.last());
                assert forall|i: int| 0 <= i < ls.len() implies is_made_of(
                    branches[i].body@,
                    source,
                    #[trigger] ls[i],
                ) && ls[i].len() > 0 by {
                    if i < n {
                        assert(is_made_of(front[i].body@, source, head[i]));
                    }
                }
            }
            if forall|i: int|
                0 <= i < ls.len() ==> is_made_of(branches[i].body@, source, #[trigger] ls[i])
                    && ls[i].len() > 0 {
                assert forall|i: int| 0 <= i < n implies is_made_of(
                    front[i].body@,
                    source,
                    #[trigger] head[i],
                ) && head[i].len() > 0 by {
                    assert(head[i] == ls[i]);
                }
                assert(is_made_of(branches[n].body@, source, ls[n]));
            }
        } else if branch_lines(branches, source) == Some(ls) {
            let rest = branch_lines(front, source).unwrap();
            lemma_branch_lines(front, source, rest);
        }
    }
}

} // verus!
