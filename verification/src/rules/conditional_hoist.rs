//! Items that every arm of a conditional shares at its start or end.
use vstd::prelude::*;

use crate::ast::{Conditional, Item, SpecFile};
use crate::bodies::{body_span, item_span};
use crate::diagnostic::{Diagnostic, DiagnosticView, LintCategory, Severity, plain, reports};
use crate::lint::{Identity, Lint, LintMetadata, drain};
use crate::rules::{SiteRule, run_sites, say, site_findings};
use crate::text::{
    byte_slice, count, decimal, opt_string, same_chars, slice_bytes, trim_lines, trimmed_lines,
};
use crate::walk::{Site, SiteView};
use crate::report_laws::is_arm;

verus! {

/// The text of an item, without whitespace at the end of its lines.
pub open spec fn item_text(item: Item, source: Seq<char>) -> Option<Seq<char>> {
    match item_span(item, false) {
        None => None,
        Some(sp) => match byte_slice(source, sp.start_byte as int, sp.end_byte as int) {
            Some(s) => Some(trimmed_lines(s)),
            None => None,
        },
    }
}

/// Whether two items have texts and the same one.
pub open spec fn same_item(a: Item, b: Item, source: Seq<char>) -> bool {
    item_text(a, source) is Some && item_text(a, source) == item_text(b, source)
}

/// The number of arms: the branches and the `%else`.
pub open spec fn arm_count(c: Conditional) -> int {
    c.branches@.len() + if c.otherwise is Some {
        1int
    } else {
        0int
    }
}

/// The body of arm `i`.
pub open spec fn arm_body(c: Conditional, i: int) -> Seq<Item> {
    if i < c.branches@.len() {
        c.branches@[i].body@
    } else {
        match c.otherwise {
            Some(body) => body@,
            None => Seq::empty(),
        }
    }
}

/// Item `k` of a body, from its start or from its end.
pub open spec fn item_at(body: Seq<Item>, k: int, from_end: bool) -> Item {
    if from_end {
        body[body.len() - 1 - k]
    } else {
        body[k]
    }
}

/// Whether every arm has an item `k` and they are all the same.
pub open spec fn shared_at(c: Conditional, k: int, from_end: bool, source: Seq<char>) -> bool {
    forall|i: int|
        0 <= i < arm_count(c) ==> k < (#[trigger] arm_body(c, i)).len() && same_item(
            item_at(arm_body(c, 0), k, from_end),
            item_at(arm_body(c, i), k, from_end),
            source,
        )
}

/// The number of items from `k` on that all arms share without interruption.
pub open spec fn shared_from(c: Conditional, k: int, from_end: bool, source: Seq<char>) -> nat
    decreases arm_body(c, 0).len() - k,
{
    if 0 <= k < arm_body(c, 0).len() && shared_at(c, k, from_end, source) {
        1 + shared_from(c, k + 1, from_end, source)
    } else {
        0
    }
}

/// Whether every arm has an item `k`.
pub open spec fn reaches(c: Conditional, k: int) -> bool {
    forall|i: int| 0 <= i < arm_count(c) ==> k < (#[trigger] arm_body(c, i)).len()
}

/// Whether item `k` of some arm has no text that it could be compared by.
pub open spec fn incomparable_at(c: Conditional, k: int, from_end: bool, source: Seq<char>) -> bool {
    exists|i: int|
        0 <= i < arm_count(c) && item_text(
            item_at(#[trigger] arm_body(c, i), k, from_end),
            source,
        ) is None
}

/// The number of items at the start, or the end, that all arms share. It is
/// given up where the run ends at an item that cannot be compared.
pub open spec fn shared_len(c: Conditional, from_end: bool, source: Seq<char>) -> nat {
    let n = shared_from(c, 0, from_end, source);
    if reaches(c, n as int) && incomparable_at(c, n as int, from_end, source) {
        0
    } else {
        n
    }
}

/// The number of items at the start, or the end, that all of at least two
/// arms share, where each arm has more.
pub open spec fn hoistable(c: Conditional, from_end: bool, source: Seq<char>) -> Option<nat> {
    let n = shared_len(c, from_end, source);
    if arm_count(c) >= 2 && n > 0 && reaches(c, n as int) {
        Some(n)
    } else {
        None
    }
}

fn text_of_item(item: &Item, source: &str) -> (r: Option<Vec<char>>)
    ensures
        r is Some <==> item_text(*item, source@) is Some,
        r matches Some(v) ==> item_text(*item, source@) == Some(v@),
{
    match body_span(item, false) {
        None => None,
        Some(sp) => match slice_bytes(source, sp.start_byte, sp.end_byte) {
            Some(s) => Some(trim_lines(s)),
            None => None,
        },
    }
}

fn items_alike(a: &Item, b: &Item, source: &str) -> (r: bool)
    ensures
        r == same_item(*a, *b, source@),
{
    match (text_of_item(a, source), text_of_item(b, source)) {
        (Some(s), Some(t)) => same_chars(&s, &t),
        _ => false,
    }
}

fn nth<'a>(body: &'a Vec<Item>, k: usize, from_end: bool) -> (r: &'a Item)
    requires
        k < body.len(),
    ensures
        *r == item_at(body@, k as int, from_end),
{
    if from_end {
        &body[body.len() - 1 - k]
    } else {
        &body[k]
    }
}

/// The bodies of all arms.
fn all_bodies<'a>(c: &'a Conditional) -> (r: Vec<&'a Vec<Item>>)
    ensures
        r@.len() == arm_count(*c),
        forall|i: int| 0 <= i < r@.len() ==> (#[trigger] r@[i])@ == arm_body(*c, i),
{
    let mut out: Vec<&'a Vec<Item>> = Vec::new();
    let mut i: usize = 0;
    while i < c.branches.len()
        invariant
            i <= c.branches.len(),
            out@.len() == i,
            forall|j: int| 0 <= j < i ==> (#[trigger] out@[j])@ == arm_body(*c, j),
        decreases c.branches.len() - i,
    {
        out.push(&c.branches[i].body);
        i = i + 1;
    }
    match &c.otherwise {
        Some(body) => {
            out.push(body);
        },
        None => {},
    }
    out
}

fn all_share(c: &Conditional, bodies: &Vec<&Vec<Item>>, k: usize, from_end: bool, source: &str) -> (r: bool)
    requires
        bodies@.len() == arm_count(*c),
        bodies@.len() > 0,
        forall|i: int| 0 <= i < bodies@.len() ==> (#[trigger] bodies@[i])@ == arm_body(*c, i),
    ensures
        r == shared_at(*c, k as int, from_end, source@),
{
    assert(bodies@[0]@ == arm_body(*c, 0));
    let mut i: usize = 0;
    while i < bodies.len()
        invariant
            i <= bodies.len(),
            bodies@.len() == arm_count(*c),
            bodies@.len() > 0,
            bodies@[0]@ == arm_body(*c, 0),
            i > 0 ==> k < bodies@[0]@.len(),
            forall|j: int| 0 <= j < bodies@.len() ==> (#[trigger] bodies@[j])@ == arm_body(*c, j),
            forall|j: int|
                0 <= j < i ==> k < (#[trigger] arm_body(*c, j)).len() && same_item(
                    item_at(arm_body(*c, 0), k as int, from_end),
                    item_at(arm_body(*c, j), k as int, from_end),
                    source@,
                ),
        decreases bodies.len() - i,
    {
        assert(bodies@[i as int]@ == arm_body(*c, i as int));
        if k >= bodies[i].len() || k >= bodies[0].len() || !items_alike(
            nth(bodies[0], k, from_end),
            nth(bodies[i], k, from_end),
            source,
        ) {
            assert(0 <= i < arm_count(*c));
            return false;
        }
        i = i + 1;
    }
    true
}

/// The number of items that can be moved out of the conditional.
fn common_len(c: &Conditional, from_end: bool, source: &str) -> (r: Option<usize>)
    ensures
        r is Some <==> hoistable(*c, from_end, source@) is Some,
        r matches Some(n) ==> hoistable(*c, from_end, source@) == Some(n as nat),
{
    let bodies = all_bodies(c);
    if bodies.len() < 2 {
        return None;
    }
    let ghost total = shared_from(*c, 0, from_end, source@);
    assert(bodies@[0]@ == arm_body(*c, 0));
    let mut k: usize = 0;
    while k < bodies[0].len() && all_share(c, &bodies, k, from_end, source)
        invariant
            bodies@.len() == arm_count(*c),
            bodies@.len() >= 2,
            bodies@[0]@ == arm_body(*c, 0),
            forall|i: int| 0 <= i < bodies@.len() ==> (#[trigger] bodies@[i])@ == arm_body(*c, i),
            k <= bodies@[0]@.len(),
            total == k + shared_from(*c, k as int, from_end, source@),
        decreases bodies@[0]@.len() - k,
    {
        k = k + 1;
    }
    assert(total == k);
    if k == 0 {
        return None;
    }
    let mut i: usize = 0;
    while i < bodies.len()
        invariant
            i <= bodies.len(),
            bodies@.len() == arm_count(*c),
            k == shared_from(*c, 0, from_end, source@),
            forall|j: int| 0 <= j < bodies@.len() ==> (#[trigger] bodies@[j])@ == arm_body(*c, j),
            forall|j: int|
                0 <= j < i ==> k < (#[trigger] arm_body(*c, j)).len() && item_text(
                    item_at(arm_body(*c, j), k as int, from_end),
                    source@,
                ) is Some,
        decreases bodies.len() - i,
    {
        assert(bodies@[i as int]@ == arm_body(*c, i as int));
        if bodies[i].len() <= k {
            assert(!reaches(*c, k as int));
            return None;
        }
        if text_of_item(nth(bodies[i], k, from_end), source).is_none() {
            assert(incomparable_at(*c, k as int, from_end, source@));
            return None;
        }
        i = i + 1;
    }
    Some(k)
}

fn common_len_in(c: &Conditional, from_end: bool, source: &Option<String>) -> (r: Option<usize>)
    ensures
        r is Some <==> hoistable_in(*c, from_end, opt_string(*source)) is Some,
        r matches Some(n) ==> hoistable_in(*c, from_end, opt_string(*source)) == Some(n as nat),
{
    match source {
        Some(s) => common_len(c, from_end, s.as_str()),
        None => None,
    }
}

pub open spec fn hoistable_in(c: Conditional, from_end: bool, source: Option<Seq<char>>) -> Option<nat> {
    match source {
        Some(s) => hoistable(c, from_end, s),
        None => None,
    }
}

/// RPM097 `hoist-common-prefix-from-branches`: All branches of this conditional start with
/// the same item(s); lift them above the block.
#[derive(Debug)]
pub struct HoistCommonPrefix {
    pub diagnostics: Vec<Diagnostic>,
    pub source: Option<String>,
}

impl HoistCommonPrefix {
    pub fn new() -> (r: HoistCommonPrefix)
        ensures
            r.pending() == Seq::<DiagnosticView>::empty(),
            r.source is None,
    {
        let r = HoistCommonPrefix { diagnostics: Vec::new(), source: None };
        assert(r.pending() =~= Seq::<DiagnosticView>::empty());
        r
    }
}

impl Default for HoistCommonPrefix {
    fn default() -> (r: HoistCommonPrefix)
        ensures
            r.pending() == Seq::<DiagnosticView>::empty(),
            r.source is None,
    {
        HoistCommonPrefix::new()
    }
}

impl Lint for HoistCommonPrefix {
    open spec fn identity() -> Identity {
        Identity {
            id: "RPM097"@,
            name: "hoist-common-prefix-from-branches"@,
            description: "All branches of this conditional start with the same item(s); lift them above the block."@,
            default_severity: Severity::Warn,
            category: LintCategory::Style,
        }
    }

    open spec fn pending(&self) -> Seq<DiagnosticView> {
        reports(self.diagnostics@)
    }

    open spec fn after(&self, spec: SpecFile) -> Seq<DiagnosticView> {
        self.pending() + site_findings::<HoistCommonPrefix>(&self.source, spec)
    }

    open spec fn same_settings(&self, other: &Self) -> bool {
        self.source == other.source
    }

    fn metadata(&self) -> (r: LintMetadata) {
        LintMetadata {
            id: "RPM097",
            name: "hoist-common-prefix-from-branches",
            description: "All branches of this conditional start with the same item(s); lift them above the block.",
            default_severity: Severity::Warn,
            category: LintCategory::Style,
        }
    }

    fn visit_spec(&mut self, spec: &SpecFile) {
        run_sites::<HoistCommonPrefix>(&self.source, spec, &mut self.diagnostics);
    }

    fn take_diagnostics(&mut self) -> (r: Vec<Diagnostic>) {
        drain(&mut self.diagnostics)
    }
}

impl SiteRule for HoistCommonPrefix {
    type Settings = Option<String>;

    open spec fn on_site(settings: &Option<String>, site: SiteView) -> Seq<DiagnosticView> {
        match hoistable_in(site.cond, false, opt_string(*settings)) {
            Some(n) => seq![
                plain("RPM097"@, Severity::Warn, "all branches start with the same "@ + decimal(n) + " item(s) — hoist them above the `%if` block"@, site.cond.data).advise(
                    "move the shared prefix outside the conditional and drop it from each branch"@,
                ),
            ],
            None => Seq::empty(),
        }
    }

    fn check_site(settings: &Option<String>, site: &Site, out: &mut Vec<Diagnostic>) {
        match common_len_in(site.cond, false, settings) {
            Some(n) => {
                let mut message = String::from_str("all branches start with the same ");
                message.append(count(n).as_str());
                message.append(" item(s) — hoist them above the `%if` block");
                say(
                    out,
                    Diagnostic::new("RPM097", Severity::Warn, message.as_str(), site.cond.data).with_advice(
                        "move the shared prefix outside the conditional and drop it from each branch",
                    ),
                );
            },
            None => {
                assert(reports(out@) + Seq::<DiagnosticView>::empty() == reports(out@));
            },
        }
    }
}

impl HoistCommonPrefix {
    /// Gives the rule the source text that bodies are compared in.
    pub fn set_source(&mut self, source: &str)
        ensures
            opt_string(final(self).source) == Some(source@),
            final(self).pending() == old(self).pending(),
    {
        self.source = Some(source.to_owned());
    }
}

/// RPM098 `hoist-common-suffix-from-branches`: All branches of this conditional end with
/// the same item(s); lift them below the block.
#[derive(Debug)]
pub struct HoistCommonSuffix {
    pub diagnostics: Vec<Diagnostic>,
    pub source: Option<String>,
}

impl HoistCommonSuffix {
    pub fn new() -> (r: HoistCommonSuffix)
        ensures
            r.pending() == Seq::<DiagnosticView>::empty(),
            r.source is None,
    {
        let r = HoistCommonSuffix { diagnostics: Vec::new(), source: None };
        assert(r.pending() =~= Seq::<DiagnosticView>::empty());
        r
    }
}

impl Default for HoistCommonSuffix {
    fn default() -> (r: HoistCommonSuffix)
        ensures
            r.pending() == Seq::<DiagnosticView>::empty(),
            r.source is None,
    {
        HoistCommonSuffix::new()
    }
}

impl Lint for HoistCommonSuffix {
    open spec fn identity() -> Identity {
        Identity {
            id: "RPM098"@,
            name: "hoist-common-suffix-from-branches"@,
            description: "All branches of this conditional end with the same item(s); lift them below the block."@,
            default_severity: Severity::Warn,
            category: LintCategory::Style,
        }
    }

    open spec fn pending(&self) -> Seq<DiagnosticView> {
        reports(self.diagnostics@)
    }

    open spec fn after(&self, spec: SpecFile) -> Seq<DiagnosticView> {
        self.pending() + site_findings::<HoistCommonSuffix>(&self.source, spec)
    }

    open spec fn same_settings(&self, other: &Self) -> bool {
        self.source == other.source
    }

    fn metadata(&self) -> (r: LintMetadata) {
        LintMetadata {
            id: "RPM098",
            name: "hoist-common-suffix-from-branches",
            description: "All branches of this conditional end with the same item(s); lift them below the block.",
            default_severity: Severity::Warn,
            category: LintCategory::Style,
        }
    }

    fn visit_spec(&mut self, spec: &SpecFile) {
        run_sites::<HoistCommonSuffix>(&self.source, spec, &mut self.diagnostics);
    }

    fn take_diagnostics(&mut self) -> (r: Vec<Diagnostic>) {
        drain(&mut self.diagnostics)
    }
}

impl SiteRule for HoistCommonSuffix {
    type Settings = Option<String>;

    open spec fn on_site(settings: &Option<String>, site: SiteView) -> Seq<DiagnosticView> {
        match hoistable_in(site.cond, true, opt_string(*settings)) {
            Some(n) => seq![
                plain("RPM098"@, Severity::Warn, "all branches end with the same "@ + decimal(n) + " item(s) — hoist them below the `%endif`"@, site.cond.data).advise(
                    "move the shared suffix after `%endif` and drop it from each branch"@,
                ),
            ],
            None => Seq::empty(),
        }
    }

    fn check_site(settings: &Option<String>, site: &Site, out: &mut Vec<Diagnostic>) {
        match common_len_in(site.cond, true, settings) {
            Some(n) => {
                let mut message = String::from_str("all branches end with the same ");
                message.append(count(n).as_str());
                message.append(" item(s) — hoist them below the `%endif`");
                say(
                    out,
                    Diagnostic::new("RPM098", Severity::Warn, message.as_str(), site.cond.data).with_advice(
                        "move the shared suffix after `%endif` and drop it from each branch",
                    ),
                );
            },
            None => {
                assert(reports(out@) + Seq::<DiagnosticView>::empty() == reports(out@));
            },
        }
    }
}

impl HoistCommonSuffix {
    /// Gives the rule the source text that bodies are compared in.
    pub fn set_source(&mut self, source: &str)
        ensures
            opt_string(final(self).source) == Some(source@),
            final(self).pending() == old(self).pending(),
    {
        self.source = Some(source.to_owned());
    }
}

proof fn lemma_shared_from(
    c: Conditional,
    k: int,
    from_end: bool,
    source: Seq<char>,
)
    requires
        0 <= k <= arm_body(c, 0).len(),
    ensures
        forall|j: int|
            k <= j < k + shared_from(c, k, from_end, source) ==> shared_at(
                c,
                j,
                from_end,
                source,
            ),
        ({
            let end = k + shared_from(c, k, from_end, source);
            end >= arm_body(c, 0).len() || !shared_at(c, end, from_end, source)
        }),
    decreases arm_body(c, 0).len() - k,
{
    if k < arm_body(c, 0).len() && shared_at(c, k, from_end, source) {
        lemma_shared_from(c, k + 1, from_end, source);
    }
}

/// The items that are reported stand in every arm, and no more of them could
/// be moved out.
pub proof fn hoistable_items_are_the_longest_shared_run(
    c: Conditional,
    from_end: bool,
    source: Seq<char>,
)
    requires
        hoistable(c, from_end, source) is Some,
    ensures
        ({
            let n = hoistable(c, from_end, source).unwrap();
            &&& n > 0
            &&& forall|k: int| 0 <= k < n ==> shared_at(c, k, from_end, source)
            &&& !shared_at(c, n as int, from_end, source)
        }),
{
    lemma_shared_from(c, 0, from_end, source);
    let n = hoistable(c, from_end, source).unwrap();
    assert(arm_body(c, 0).len() > n);
}

/// Nothing is reported exactly where there is one arm only, where the arms
/// share nothing, where one holds no more than what they share, or where an
/// item that follows what they share cannot be compared.
pub proof fn nothing_is_hoistable_iff(c: Conditional, from_end: bool, source: Seq<char>)
    ensures
        ({
            let n = shared_from(c, 0, from_end, source);
            hoistable(c, from_end, source) is None <==> {
                ||| arm_count(c) < 2
                ||| !shared_at(c, 0, from_end, source)
                ||| !reaches(c, n as int)
                ||| incomparable_at(c, n as int, from_end, source)
            }
        }),
{
    if arm_count(c) >= 2 && shared_at(c, 0, from_end, source) {
        assert(0 < arm_body(c, 0).len());
    }
}

/// The text of item `k` of a body, from its start or its end, without the
/// whitespace at the end of its lines.
pub open spec fn text_at(body: Seq<Item>, k: int, from_end: bool, source: Seq<char>) -> Option<Seq<char>> {
    let item = body[if from_end {
        body.len() - 1 - k
    } else {
        k
    }];
    match item_span(item, false) {
        Some(sp) => match byte_slice(source, sp.start_byte as int, sp.end_byte as int) {
            Some(s) => Some(trimmed_lines(s)),
            None => None,
        },
        None => None,
    }
}

/// Whether items `k` of any two arms are there and have the same text.
pub open spec fn all_have(c: Conditional, k: int, from_end: bool, source: Seq<char>) -> bool {
    forall|a: Seq<Item>, b: Seq<Item>|
        #![trigger is_arm(c, a), is_arm(c, b)]
        is_arm(c, a) && is_arm(c, b) ==> k < a.len() && k < b.len() && text_at(
            a,
            k,
            from_end,
            source,
        ) is Some && text_at(a, k, from_end, source) == text_at(b, k, from_end, source)
}

proof fn lemma_arms(c: Conditional, body: Seq<Item>)
    ensures
        is_arm(c, body) <==> exists|i: int| 0 <= i < arm_count(c) && #[trigger] arm_body(c, i) == body,
{
    if is_arm(c, body) {
        if exists|i: int| 0 <= i < c.branches@.len() && (#[trigger] c.branches@[i]).body@ == body {
            let i = choose|i: int|
                0 <= i < c.branches@.len() && (#[trigger] c.branches@[i]).body@ == body;
            assert(arm_body(c, i) == body);
        } else {
            assert(arm_body(c, c.branches@.len() as int) == body);
        }
    }
    if exists|i: int| 0 <= i < arm_count(c) && #[trigger] arm_body(c, i) == body {
        let i = choose|i: int| 0 <= i < arm_count(c) && #[trigger] arm_body(c, i) == body;
        if i < c.branches@.len() {
            assert(c.branches@[i].body@ == body);
        }
    }
}

proof fn lemma_shared_by_arms(c: Conditional, k: int, from_end: bool, source: Seq<char>)
    requires
        0 <= k,
        arm_count(c) >= 1,
    ensures
        shared_at(c, k, from_end, source) <==> all_have(c, k, from_end, source),
{
    let first = arm_body(c, 0);
    lemma_arms(c, first);
    assert(is_arm(c, first));
    if shared_at(c, k, from_end, source) {
        assert forall|a: Seq<Item>| #[trigger] is_arm(c, a) implies k < a.len() && text_at(
            a,
            k,
            from_end,
            source,
        ) is Some && text_at(a, k, from_end, source) == text_at(first, k, from_end, source) by {
            lemma_arms(c, a);
            let i = choose|i: int| 0 <= i < arm_count(c) && #[trigger] arm_body(c, i) == a;
            assert(same_item(
                item_at(first, k, from_end),
                item_at(arm_body(c, i), k, from_end),
                source,
            ));
        }
    }
    if all_have(c, k, from_end, source) {
        assert forall|i: int| 0 <= i < arm_count(c) implies k < (#[trigger] arm_body(c, i)).len()
            && same_item(
            item_at(first, k, from_end),
            item_at(arm_body(c, i), k, from_end),
            source,
        ) by {
            lemma_arms(c, arm_body(c, i));
            assert(is_arm(c, arm_body(c, i)));
        }
    }
}

/// What is reported stands in every arm, as its first or last items, and
/// every arm holds more than that.
pub proof fn hoistable_items_stand_in_every_arm(
    c: Conditional,
    from_end: bool,
    source: Seq<char>,
    n: nat,
)
    requires
        hoistable(c, from_end, source) == Some(n),
    ensures
        n > 0,
        c.branches@.len() + (if c.otherwise is Some {
            1int
        } else {
            0
        }) >= 2,
        forall|k: int| 0 <= k < n ==> #[trigger] all_have(c, k, from_end, source),
        !all_have(c, n as int, from_end, source),
        forall|a: Seq<Item>| #[trigger]
            is_arm(c, a) ==> n < a.len() && text_at(a, n as int, from_end, source) is Some,
{
    hoistable_items_are_the_longest_shared_run(c, from_end, source);
    assert forall|k: int| 0 <= k < n implies #[trigger] all_have(c, k, from_end, source) by {
        assert(shared_at(c, k, from_end, source));
        lemma_shared_by_arms(c, k, from_end, source);
    }
    lemma_shared_by_arms(c, n as int, from_end, source);
    assert forall|a: Seq<Item>| #[trigger] is_arm(c, a) implies n < a.len() && text_at(
        a,
        n as int,
        from_end,
        source,
    ) is Some by {
        lemma_arms(c, a);
        let i = choose|i: int| 0 <= i < arm_count(c) && #[trigger] arm_body(c, i) == a;
        assert(n < arm_body(c, i).len());
        assert(!incomparable_at(c, n as int, from_end, source));
    }
}

/// What stands in every arm, as its first or last items, is reported, where
/// every arm holds one item more that has a text.
pub proof fn items_of_every_arm_are_hoistable(
    c: Conditional,
    from_end: bool,
    source: Seq<char>,
    n: nat,
)
    requires
        n > 0,
        c.branches@.len() + (if c.otherwise is Some {
            1int
        } else {
            0
        }) >= 2,
        forall|k: int| 0 <= k < n ==> #[trigger] all_have(c, k, from_end, source),
        !all_have(c, n as int, from_end, source),
        forall|a: Seq<Item>| #[trigger]
            is_arm(c, a) ==> n < a.len() && text_at(a, n as int, from_end, source) is Some,
    ensures
        hoistable(c, from_end, source) == Some(n),
{
    assert forall|i: int| 0 <= i < arm_count(c) implies is_arm(c, #[trigger] arm_body(c, i)) by {
        lemma_arms(c, arm_body(c, i));
    }
    assert(is_arm(c, arm_body(c, 0)));
    lemma_run_length(c, 0, from_end, source, n);
    assert(reaches(c, n as int));
    assert(!incomparable_at(c, n as int, from_end, source));
}

proof fn lemma_run_length(c: Conditional, k: int, from_end: bool, source: Seq<char>, n: nat)
    requires
        0 <= k <= n,
        arm_count(c) >= 2,
        n < arm_body(c, 0).len(),
        forall|j: int| 0 <= j < n ==> #[trigger] all_have(c, j, from_end, source),
        !all_have(c, n as int, from_end, source),
    ensures
        shared_from(c, k, from_end, source) == n - k,
    decreases n - k,
{
    lemma_shared_by_arms(c, k, from_end, source);
    if k < n {
        assert(all_have(c, k, from_end, source));
        lemma_run_length(c, k + 1, from_end, source, n);
    }
}

} // verus!
