//! Automatic dependencies that are switched off without a word.
use vstd::prelude::*;

use crate::ast::{Conditional, Item, PreambleItem, Section, Span, SpecFile, Tag, TagValue};
use crate::diagnostic::{Diagnostic, DiagnosticView, LintCategory, Severity, plain, reports};
use crate::lint::{Identity, Lint, LintMetadata, drain};
use crate::rules::{given, say};
use crate::text::opt_view;
use crate::walk::{arms, flat, item_views, leaf_items, leaves, lemma_flat_step};
use crate::report_laws::{lemma_says_either, lemma_says_flat, lemma_says_given, says_at};

verus! {

/// The tag of a line that switches off automatic dependencies.
pub open spec fn disabled(p: PreambleItem) -> Option<Seq<char>> {
    match (p.tag, p.value) {
        (Tag::AutoReqProv, TagValue::Bool(false)) => Some("AutoReqProv"@),
        (Tag::AutoReq, TagValue::Bool(false)) => Some("AutoReq"@),
        (Tag::AutoProv, TagValue::Bool(false)) => Some("AutoProv"@),
        _ => None,
    }
}

fn disable_label(p: &PreambleItem) -> (r: Option<&'static str>)
    ensures
        opt_view(r) == disabled(*p),
{
    let off = match p.value {
        TagValue::Bool(b) => !b,
        _ => false,
    };
    if !off {
        return None;
    }
    match p.tag {
        Tag::AutoReqProv => Some("AutoReqProv"),
        Tag::AutoReq => Some("AutoReq"),
        Tag::AutoProv => Some("AutoProv"),
        _ => None,
    }
}

/// Whether the item before or after item `n` is a comment.
pub open spec fn is_explained(items: Seq<Item>, n: int) -> bool {
    (n > 0 && items[n - 1] is Comment) || (n + 1 < items.len() && items[n + 1] is Comment)
}

fn neighbour_is_comment(items: &Vec<Item>, n: usize) -> (r: bool)
    requires
        n < items.len(),
    ensures
        r == is_explained(items@, n as int),
{
    (n > 0 && matches!(items[n - 1], Item::Comment(_))) || (n < items.len() - 1 && matches!(
        items[n + 1],
        Item::Comment(_)
    ))
}

pub open spec fn disabled_report(label: Seq<char>, span: Span) -> DiagnosticView {
    plain("RPM308"@, Severity::Warn, "`"@ + label + ": no` disables RPM's auto-dependency generation; add a neighbouring comment that explains why"@, span)
}

/// The reports on the first `n` items of a list and inside them.
pub open spec fn first_findings(items: Seq<Item>, n: nat) -> Seq<DiagnosticView>
    decreases items, n,
{
    if n == 0 || n > items.len() {
        Seq::empty()
    } else {
        first_findings(items, (n - 1) as nat) + match items[n - 1] {
            Item::Preamble(p) => match disabled(p) {
                Some(label) => given(!is_explained(items, n - 1), disabled_report(label, p.data)),
                None => Seq::empty(),
            },
            Item::Conditional(c) => cond_findings(c),
            _ => Seq::empty(),
        }
    }
}

/// The reports on a list.
pub open spec fn list_findings(items: Seq<Item>) -> Seq<DiagnosticView>
    decreases items, items.len() + 1,
{
    first_findings(items, items.len())
}

pub open spec fn cond_findings(c: Conditional) -> Seq<DiagnosticView>
    decreases c, c.branches@.len() + 1,
{
    let arms = arm_findings(c, c.branches@.len());
    match c.otherwise {
        Some(body) => arms + list_findings(body@),
        None => arms,
    }
}

pub open spec fn arm_findings(c: Conditional, n: nat) -> Seq<DiagnosticView>
    decreases c, n,
{
    if n == 0 || n > c.branches@.len() {
        Seq::empty()
    } else {
        arm_findings(c, (n - 1) as nat) + list_findings(c.branches@[n - 1].body@)
    }
}

pub open spec fn package_findings(item: Item) -> Seq<DiagnosticView> {
    match item {
        Item::Section(s) => match *s {
            Section::Package { content, .. } => list_findings(content@),
            _ => Seq::empty(),
        },
        _ => Seq::empty(),
    }
}

/// The main package, then the subpackages.
pub open spec fn all_findings(spec: SpecFile) -> Seq<DiagnosticView> {
    list_findings(spec.items@) + flat(leaves(spec.items@), |i: Item| package_findings(i))
}

fn walk_items(items: &Vec<Item>, out: &mut Vec<Diagnostic>)
    ensures
        reports(final(out)@) == reports(old(out)@) + list_findings(items@),
    decreases items, 0int,
{
    let ghost start = reports(out@);
    let mut i: usize = 0;
    assert(start + first_findings(items@, 0) == start);
    while i < items.len()
        invariant
            i <= items.len(),
            reports(out@) == start + first_findings(items@, i as nat),
        decreases items.len() - i,
    {
        let ghost so_far = first_findings(items@, i as nat);
        let ghost none = Seq::<DiagnosticView>::empty();
        assert(so_far + none == so_far);
        match &items[i] {
            Item::Preamble(p) => match disable_label(p) {
                Some(label) => {
                    if !neighbour_is_comment(items, i) {
                        let mut message = String::from_str("`");
                        message.append(label);
                        message.append(": no` disables RPM's auto-dependency generation; add a neighbouring comment that explains why");
                        say(out, Diagnostic::new("RPM308", Severity::Warn, message.as_str(), p.data));
                        assert(start + so_far + seq![disabled_report(label@, p.data)] == start + (so_far + seq![disabled_report(label@, p.data)]));
                    }
                },
                None => {},
            },
            Item::Conditional(c) => {
                walk_cond(c, out);
                assert(start + so_far + cond_findings(*c) == start + (so_far + cond_findings(*c)));
            },
            _ => {},
        }
        i = i + 1;
    }
}

fn walk_cond(c: &Conditional, out: &mut Vec<Diagnostic>)
    ensures
        reports(final(out)@) == reports(old(out)@) + cond_findings(*c),
    decreases c, 0int,
{
    let ghost start = reports(out@);
    let mut i: usize = 0;
    assert(start + arm_findings(*c, 0) == start);
    while i < c.branches.len()
        invariant
            i <= c.branches.len(),
            reports(out@) == start + arm_findings(*c, i as nat),
        decreases c.branches.len() - i,
    {
        walk_items(&c.branches[i].body, out);
        proof {
            let a = arm_findings(*c, i as nat);
            let b = list_findings(c.branches@[i as int].body@);
            assert(arm_findings(*c, (i + 1) as nat) == a + b);
            assert(start + a + b == start + (a + b));
        }
        i = i + 1;
    }
    match &c.otherwise {
        Some(body) => {
            walk_items(body, out);
            proof {
                let a = arm_findings(*c, i as nat);
                let b = list_findings(body@);
                assert(start + a + b == start + (a + b));
            }
        },
        None => {},
    }
}

fn check_package(item: &Item, out: &mut Vec<Diagnostic>)
    ensures
        reports(final(out)@) == reports(old(out)@) + package_findings(*item),
{
    match item {
        Item::Section(s) => match &**s {
            Section::Package { content, .. } => {
                walk_items(content, out);
                return ;
            },
            _ => {},
        },
        _ => {},
    }
    assert(reports(out@) + Seq::<DiagnosticView>::empty() == reports(out@));
}

/// RPM308 `autoreqprov-disabled-without-comment`: `AutoReqProv` / `AutoReq` / `AutoProv` is
/// set to `no` without a neighbouring comment. Disabling RPM's auto-dependency generation
/// is unusual and almost always needs justification.
#[derive(Debug)]
pub struct AutoreqprovWithoutComment {
    pub diagnostics: Vec<Diagnostic>,
}

impl AutoreqprovWithoutComment {
    pub fn new() -> (r: AutoreqprovWithoutComment)
        ensures
            r.pending() == Seq::<DiagnosticView>::empty(),
    {
        let r = AutoreqprovWithoutComment { diagnostics: Vec::new() };
        assert(r.pending() =~= Seq::<DiagnosticView>::empty());
        r
    }
}

impl Default for AutoreqprovWithoutComment {
    fn default() -> (r: AutoreqprovWithoutComment)
        ensures
            r.pending() == Seq::<DiagnosticView>::empty(),
    {
        AutoreqprovWithoutComment::new()
    }
}

impl Lint for AutoreqprovWithoutComment {
    open spec fn identity() -> Identity {
        Identity {
            id: "RPM308"@,
            name: "autoreqprov-disabled-without-comment"@,
            description: "`AutoReqProv` / `AutoReq` / `AutoProv` is set to `no` without a neighbouring comment. Disabling RPM's auto-dependency generation is unusual and almost always needs justification."@,
            default_severity: Severity::Warn,
            category: LintCategory::Correctness,
        }
    }

    open spec fn pending(&self) -> Seq<DiagnosticView> {
        reports(self.diagnostics@)
    }

    open spec fn after(&self, spec: SpecFile) -> Seq<DiagnosticView> {
        self.pending() + all_findings(spec)
    }

    open spec fn same_settings(&self, other: &Self) -> bool {
        true
    }

    fn metadata(&self) -> (r: LintMetadata) {
        LintMetadata {
            id: "RPM308",
            name: "autoreqprov-disabled-without-comment",
            description: "`AutoReqProv` / `AutoReq` / `AutoProv` is set to `no` without a neighbouring comment. Disabling RPM's auto-dependency generation is unusual and almost always needs justification.",
            default_severity: Severity::Warn,
            category: LintCategory::Correctness,
        }
    }

    fn visit_spec(&mut self, spec: &SpecFile) {
        walk_items(&spec.items, &mut self.diagnostics);
        let all = leaf_items(&spec.items);
        let ghost ls = leaves(spec.items@);
        let ghost f = |i: Item| package_findings(i);
        let ghost start = self.pending();
        let mut i: usize = 0;
        assert(start + flat(ls.take(0), f) == start);
        while i < all.len()
            invariant
                i <= all.len(),
                item_views(all@) == ls,
                f == (|i: Item| package_findings(i)),
                self.pending() == start + flat(ls.take(i as int), f),
            decreases all.len() - i,
        {
            let ghost so_far = flat(ls.take(i as int), f);
            assert(ls[i as int] == *all@[i as int]);
            check_package(all[i], &mut self.diagnostics);
            proof {
                lemma_flat_step(ls, f, i as int);
                assert(start + so_far + f(ls[i as int]) == start + (so_far + f(ls[i as int])));
            }
            i = i + 1;
        }
        assert(ls.take(i as int) == ls);
        proof {
            let a = list_findings(spec.items@);
            let b = flat(ls, f);
            assert(old(self).pending() + a + b == old(self).pending() + (a + b));
        }
    }

    fn take_diagnostics(&mut self) -> (r: Vec<Diagnostic>) {
        drain(&mut self.diagnostics)
    }
}

/// Whether a tag line turns off the finding of dependencies, of what is
/// provided, or of both.
pub open spec fn turns_off(p: PreambleItem) -> bool {
    (p.tag == Tag::AutoReq || p.tag == Tag::AutoProv || p.tag == Tag::AutoReqProv) && p.value
        == TagValue::Bool(false)
}

/// Whether item `n` of a list is such a line at `span`, with no comment right
/// before or after it.
pub open spec fn is_bare(items: Seq<Item>, n: int, span: Span) -> bool {
    &&& items[n] matches Item::Preamble(p) && turns_off(p) && p.data == span
    &&& n > 0 ==> !(items[n - 1] is Comment)
    &&& n + 1 < items.len() ==> !(items[n + 1] is Comment)
}

/// Whether something is said at `span` inside one of the arms of item `n`.
pub open spec fn is_said_inside(items: Seq<Item>, n: int, span: Span) -> bool {
    items[n] matches Item::Conditional(c) && says_at(cond_findings(c), span)
}

/// Whether item `n` is such a line or holds what is reported.
pub open spec fn is_wanting(items: Seq<Item>, n: int, span: Span) -> bool {
    is_bare(items, n, span) || is_said_inside(items, n, span)
}

proof fn lemma_first_said(items: Seq<Item>, n: nat, span: Span)
    requires
        n <= items.len(),
    ensures
        says_at(first_findings(items, n), span) <==> exists|i: int|
            0 <= i < n && #[trigger] is_wanting(items, i, span),
    decreases n,
{
    if n > 0 {
        let k = n - 1;
        lemma_first_said(items, k as nat, span);
        let here: Seq<DiagnosticView> = match items[k] {
            Item::Preamble(p) => match disabled(p) {
                Some(label) => given(!is_explained(items, k), disabled_report(label, p.data)),
                None => Seq::empty(),
            },
            Item::Conditional(c) => cond_findings(c),
            _ => Seq::empty(),
        };
        assert(first_findings(items, n) =~= first_findings(items, k as nat) + here);
        lemma_says_either(first_findings(items, k as nat), here, span);
        match items[k] {
            Item::Preamble(p) => {
                match disabled(p) {
                    Some(label) => lemma_says_given(
                        !is_explained(items, k),
                        disabled_report(label, p.data),
                        span,
                    ),
                    None => {},
                }
            },
            _ => {},
        }
        assert(says_at(here, span) <==> is_wanting(items, k, span));
        if says_at(first_findings(items, k as nat), span) {
            let i = choose|i: int|
                0 <= i < k && #[trigger] is_wanting(items, i, span);
            assert(is_wanting(items, i, span));
        }
    } else {
        assert(first_findings(items, n) == Seq::<DiagnosticView>::empty());
    }
}

/// In a list exactly those lines are reported that turn automatic
/// dependencies off with no comment beside them, and what the blocks in it
/// hold is looked at in the same way.
pub proof fn unexplained_lines_are_reported(items: Seq<Item>, span: Span)
    ensures
        says_at(list_findings(items), span) <==> exists|i: int|
            0 <= i < items.len() && #[trigger] is_wanting(items, i, span),
{
    lemma_first_said(items, items.len(), span);
}

proof fn lemma_arms_said(c: Conditional, n: nat, span: Span)
    requires
        n <= c.branches@.len(),
    ensures
        says_at(arm_findings(c, n), span) <==> exists|i: int|
            0 <= i < n && says_at(list_findings((#[trigger] c.branches@[i]).body@), span),
    decreases n,
{
    if n > 0 {
        let k = n - 1;
        lemma_arms_said(c, k as nat, span);
        lemma_says_either(
            arm_findings(c, k as nat),
            list_findings(c.branches@[k].body@),
            span,
        );
    }
}

/// Every branch of a block is looked at, and its `%else`.
pub proof fn every_arm_is_looked_at(c: Conditional, span: Span)
    ensures
        says_at(cond_findings(c), span) <==> (exists|i: int|
            0 <= i < c.branches@.len() && says_at(
                list_findings((#[trigger] c.branches@[i]).body@),
                span,
            )) || (c.otherwise matches Some(body) && says_at(list_findings(body@), span)),
{
    lemma_arms_said(c, c.branches@.len(), span);
    match c.otherwise {
        Some(body) => lemma_says_either(
            arm_findings(c, c.branches@.len()),
            list_findings(body@),
            span,
        ),
        None => {},
    }
}

/// Whether an item is a package with the given content.
pub open spec fn is_package_of(item: Item, content: Seq<Item>) -> bool {
    item matches Item::Section(s) && (*s matches Section::Package { content: c, .. } && c@
        == content)
}

/// The main package is looked at and every subpackage.
pub proof fn every_package_is_looked_at(spec: SpecFile, span: Span)
    ensures
        says_at(all_findings(spec), span) <==> says_at(list_findings(spec.items@), span) || exists|
            i: int,
            content: Seq<Item>,
        |
            0 <= i < leaves(spec.items@).len() && #[trigger] is_package_of(
                leaves(spec.items@)[i],
                content,
            ) && says_at(list_findings(content), span),
{
    let all = leaves(spec.items@);
    let f = |i: Item| package_findings(i);
    lemma_says_flat(all, f, span);
    lemma_says_either(list_findings(spec.items@), flat(all, f), span);
    if says_at(flat(all, f), span) {
        let i = choose|i: int| 0 <= i < all.len() && says_at(f(#[trigger] all[i]), span);
        match all[i] {
            Item::Section(s) => match *s {
                Section::Package { content, .. } => {
                    assert(is_package_of(all[i], content@));
                },
                _ => {},
            },
            _ => {},
        }
    }
    if exists|i: int, content: Seq<Item>|
        0 <= i < all.len() && #[trigger] is_package_of(all[i], content) && says_at(
            list_findings(content),
            span,
        ) {
        let (i, content) = choose|i: int, content: Seq<Item>|
            0 <= i < all.len() && #[trigger] is_package_of(all[i], content) && says_at(
                list_findings(content),
                span,
            );
        assert(says_at(f(all[i]), span));
    }
}

} // verus!
