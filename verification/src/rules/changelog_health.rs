//! Changelogs: entries without text, dates that cannot be meant, and entries
//! out of order, on the wrong weekday or for another version.
use vstd::prelude::*;

use crate::ast::{
    ChangelogEntry, Item, Section, Span, SpecFile, Tag, TagValue, Text, TextSegment, Weekday,
};
use crate::calendar::{
    after_day, date_of, day_number, day_number_is_lexicographic, exists_on_calendar,
    is_later, later, later_than, text_of_date, today_utc, true_weekday, Today,
    weekday_of,
};
use crate::diagnostic::{Diagnostic, DiagnosticView, LintCategory, Severity, plain, reports};
use crate::lint::{Identity, Lint, LintMetadata, drain};
use crate::packages::{plain_str, plain_text};
use crate::rules::{given, say};
use crate::text::{
    before, decimal, number, opt_string, signed_decimal, signed_number, strip_prefix, trim,
    trimmed, without_prefix, is_space,
};
use crate::text_laws::{trimming_is_idempotent, is_core_at, trimming_takes_off_whitespace};
use crate::walk::{flat, item_views, leaf_items, leaves, lemma_flat_contains, lemma_flat_step};
use crate::report_laws::{lemma_says_given, lemma_says_one, says_at};

verus! {

/// The changelog entries in an item.
pub open spec fn entries_in(item: Item) -> Seq<ChangelogEntry> {
    match item {
        Item::Section(s) => match *s {
            Section::Changelog { entries, .. } => entries@,
            _ => Seq::empty(),
        },
        _ => Seq::empty(),
    }
}

/// All changelog entries, as they come.
pub open spec fn spec_entries(spec: SpecFile) -> Seq<ChangelogEntry> {
    flat(leaves(spec.items@), |i: Item| entries_in(i))
}

/// The entries that a list of references points at.
pub open spec fn entry_views(v: Seq<&ChangelogEntry>) -> Seq<ChangelogEntry> {
    v.map_values(|e: &ChangelogEntry| *e)
}

fn collect_entries<'a>(spec: &'a SpecFile) -> (r: Vec<&'a ChangelogEntry>)
    ensures
        entry_views(r@) == spec_entries(*spec),
{
    let all = leaf_items(&spec.items);
    let ghost ls = leaves(spec.items@);
    let ghost f = |i: Item| entries_in(i);
    let mut out: Vec<&'a ChangelogEntry> = Vec::new();
    let mut i: usize = 0;
    assert(entry_views(out@) =~= flat(ls.take(0), f));
    while i < all.len()
        invariant
            i <= all.len(),
            item_views(all@) == ls,
            f == (|i: Item| entries_in(i)),
            entry_views(out@) == flat(ls.take(i as int), f),
        decreases all.len() - i,
    {
        let ghost before = entry_views(out@);
        assert(ls[i as int] == *all@[i as int]);
        let ghost here = f(ls[i as int]);
        let mut found = false;
        match all[i] {
            Item::Section(s) => match &**s {
                Section::Changelog { entries, .. } => {
                    found = true;
                    let mut k: usize = 0;
                    assert(before + entries@.take(0) =~= before);
                    while k < entries.len()
                        invariant
                            k <= entries.len(),
                            entry_views(out@) == before + entries@.take(k as int),
                        decreases entries.len() - k,
                    {
                        let ghost so_far = entry_views(out@);
                        out.push(&entries[k]);
                        assert(entry_views(out@) =~= so_far.push(entries@[k as int]));
                        assert(before + entries@.take(k + 1) =~= (before + entries@.take(k as int)).push(entries@[k as int]));
                        k = k + 1;
                    }
                    assert(entries@.take(k as int) == entries@);
                    assert(entry_views(out@) == before + here);
                },
                _ => {},
            },
            _ => {},
        }
        proof {
            if !found {
                assert(before + here =~= before);
            }
            lemma_flat_step(ls, f, i as int);
        }
        i = i + 1;
    }
    assert(ls.take(i as int) == ls);
    out
}

/// Whether nothing but whitespace stands in a line.
pub open spec fn is_blank(t: Text) -> bool {
    forall|i: int|
        0 <= i < t.segments@.len() ==> (#[trigger] t.segments@[i] matches TextSegment::Literal(s)
            && trim(s@).len() == 0)
}

/// Whether nothing but whitespace stands in the body of an entry.
pub open spec fn body_is_empty(e: ChangelogEntry) -> bool {
    forall|i: int| 0 <= i < e.body@.len() ==> is_blank(#[trigger] e.body@[i])
}

pub open spec fn empty_findings(e: ChangelogEntry) -> Seq<DiagnosticView> {
    given(body_is_empty(e), plain("RPM037"@, Severity::Warn, "changelog entry body is empty"@, e.data))
}

pub open spec fn empty_findings_all(spec: SpecFile) -> Seq<DiagnosticView> {
    flat(spec_entries(spec), |e: ChangelogEntry| empty_findings(e))
}

fn blank(t: &Text) -> (r: bool)
    ensures
        r == is_blank(*t),
{
    let mut i: usize = 0;
    while i < t.segments.len()
        invariant
            i <= t.segments.len(),
            forall|j: int|
                0 <= j < i ==> (#[trigger] t.segments@[j] matches TextSegment::Literal(s) && trim(s@).len()
                    == 0),
        decreases t.segments.len() - i,
    {
        let empty = match &t.segments[i] {
            TextSegment::Literal(s) => trimmed(s.as_str()).is_empty(),
            TextSegment::Macro(_) => false,
        };
        if !empty {
            assert(!(t.segments@[i as int] matches TextSegment::Literal(s) && trim(s@).len() == 0));
            return false;
        }
        i = i + 1;
    }
    true
}

fn entry_body_is_empty(e: &ChangelogEntry) -> (r: bool)
    ensures
        r == body_is_empty(*e),
{
    let mut i: usize = 0;
    while i < e.body.len()
        invariant
            i <= e.body.len(),
            forall|j: int| 0 <= j < i ==> is_blank(#[trigger] e.body@[j]),
        decreases e.body.len() - i,
    {
        if !blank(&e.body[i]) {
            assert(!is_blank(e.body@[i as int]));
            return false;
        }
        i = i + 1;
    }
    true
}

fn check_empty(e: &ChangelogEntry, out: &mut Vec<Diagnostic>)
    ensures
        reports(final(out)@) == reports(old(out)@) + empty_findings(*e),
{
    if entry_body_is_empty(e) {
        say(out, Diagnostic::new("RPM037", Severity::Warn, "changelog entry body is empty", e.data));
    } else {
        assert(reports(out@) + Seq::<DiagnosticView>::empty() == reports(out@));
    }
}

/// RPM037 `empty-changelog-entry`: Changelog entry has no body text — likely a leftover
/// header.
#[derive(Debug)]
pub struct EmptyChangelogEntry {
    pub diagnostics: Vec<Diagnostic>,
}

impl EmptyChangelogEntry {
    pub fn new() -> (r: EmptyChangelogEntry)
        ensures
            r.pending() == Seq::<DiagnosticView>::empty(),
    {
        let r = EmptyChangelogEntry { diagnostics: Vec::new() };
        assert(r.pending() =~= Seq::<DiagnosticView>::empty());
        r
    }
}

impl Default for EmptyChangelogEntry {
    fn default() -> (r: EmptyChangelogEntry)
        ensures
            r.pending() == Seq::<DiagnosticView>::empty(),
    {
        EmptyChangelogEntry::new()
    }
}

impl Lint for EmptyChangelogEntry {
    open spec fn identity() -> Identity {
        Identity {
            id: "RPM037"@,
            name: "empty-changelog-entry"@,
            description: "Changelog entry has no body text — likely a leftover header."@,
            default_severity: Severity::Warn,
            category: LintCategory::Correctness,
        }
    }

    open spec fn pending(&self) -> Seq<DiagnosticView> {
        reports(self.diagnostics@)
    }

    open spec fn after(&self, spec: SpecFile) -> Seq<DiagnosticView> {
        self.pending() + empty_findings_all(spec)
    }

    open spec fn same_settings(&self, other: &Self) -> bool {
        true
    }

    fn metadata(&self) -> (r: LintMetadata) {
        LintMetadata {
            id: "RPM037",
            name: "empty-changelog-entry",
            description: "Changelog entry has no body text — likely a leftover header.",
            default_severity: Severity::Warn,
            category: LintCategory::Correctness,
        }
    }

    fn visit_spec(&mut self, spec: &SpecFile) {
        let all = collect_entries(spec);
        let ghost es = spec_entries(*spec);
        let ghost f = |e: ChangelogEntry| empty_findings(e);
        let ghost start = self.pending();
        let mut i: usize = 0;
        assert(start + flat(es.take(0), f) == start);
        while i < all.len()
            invariant
                i <= all.len(),
                entry_views(all@) == es,
                f == (|e: ChangelogEntry| empty_findings(e)),
                self.pending() == start + flat(es.take(i as int), f),
            decreases all.len() - i,
        {
            let ghost so_far = flat(es.take(i as int), f);
            assert(es[i as int] == *all@[i as int]);
            check_empty(all[i], &mut self.diagnostics);
            proof {
                lemma_flat_step(es, f, i as int);
                assert(start + so_far + f(es[i as int]) == start + (so_far + f(es[i as int])));
            }
            i = i + 1;
        }
        assert(es.take(i as int) == es);
    }

    fn take_diagnostics(&mut self) -> (r: Vec<Diagnostic>) {
        drain(&mut self.diagnostics)
    }
}

/// Whether an entry is dated after today. Of a day that the calendar does not
/// have, the year decides.
pub open spec fn is_future(today: Today, e: ChangelogEntry) -> bool {
    exists_on_calendar(e.date) && later_than(e.date, today) || e.date.year > today.year
}

pub open spec fn future_findings(today: Today, e: ChangelogEntry) -> Seq<DiagnosticView> {
    given(
        is_future(today, e),
        plain("RPM038"@, Severity::Warn, "changelog entry dated "@ + decimal(e.date.year as nat) + " — future entries are usually typos"@, e.data),
    )
}

pub open spec fn future_findings_all(today: Today, spec: SpecFile) -> Seq<DiagnosticView> {
    flat(spec_entries(spec), |e: ChangelogEntry| future_findings(today, e))
}

fn check_future(today: Today, e: &ChangelogEntry, out: &mut Vec<Diagnostic>)
    ensures
        reports(final(out)@) == reports(old(out)@) + future_findings(today, *e),
{
    let year: i32 = e.date.year as i32;
    if year > today.year || (weekday_of(&e.date).is_some() && after_day(&e.date, today)) {
        let mut message = String::from_str("changelog entry dated ");
        message.append(number(e.date.year as u128).as_str());
        message.append(" — future entries are usually typos");
        say(out, Diagnostic::new("RPM038", Severity::Warn, message.as_str(), e.data));
    } else {
        assert(reports(out@) + Seq::<DiagnosticView>::empty() == reports(out@));
    }
}

/// RPM038 `changelog-future-date`: Changelog entry is dated in the future.
#[derive(Debug)]
pub struct ChangelogFutureDate {
    pub diagnostics: Vec<Diagnostic>,
    pub today: Today,
}

impl Lint for ChangelogFutureDate {
    open spec fn identity() -> Identity {
        Identity {
            id: "RPM038"@,
            name: "changelog-future-date"@,
            description: "Changelog entry is dated in the future."@,
            default_severity: Severity::Warn,
            category: LintCategory::Correctness,
        }
    }

    open spec fn pending(&self) -> Seq<DiagnosticView> {
        reports(self.diagnostics@)
    }

    open spec fn after(&self, spec: SpecFile) -> Seq<DiagnosticView> {
        self.pending() + future_findings_all(self.today, spec)
    }

    open spec fn same_settings(&self, other: &Self) -> bool {
        self.today == other.today
    }

    fn metadata(&self) -> (r: LintMetadata) {
        LintMetadata {
            id: "RPM038",
            name: "changelog-future-date",
            description: "Changelog entry is dated in the future.",
            default_severity: Severity::Warn,
            category: LintCategory::Correctness,
        }
    }

    fn visit_spec(&mut self, spec: &SpecFile) {
        let today: Today = self.today;
        let all = collect_entries(spec);
        let ghost es = spec_entries(*spec);
        let ghost f = |e: ChangelogEntry| future_findings(today, e);
        let ghost start = self.pending();
        let mut i: usize = 0;
        assert(start + flat(es.take(0), f) == start);
        while i < all.len()
            invariant
                i <= all.len(),
                today == self.today,
                self.today == old(self).today,
                entry_views(all@) == es,
                f == (|e: ChangelogEntry| future_findings(today, e)),
                self.pending() == start + flat(es.take(i as int), f),
            decreases all.len() - i,
        {
            let ghost so_far = flat(es.take(i as int), f);
            assert(es[i as int] == *all@[i as int]);
            check_future(today, all[i], &mut self.diagnostics);
            proof {
                lemma_flat_step(es, f, i as int);
                assert(start + so_far + f(es[i as int]) == start + (so_far + f(es[i as int])));
            }
            i = i + 1;
        }
        assert(es.take(i as int) == es);
    }

    fn take_diagnostics(&mut self) -> (r: Vec<Diagnostic>) {
        drain(&mut self.diagnostics)
    }
}

impl ChangelogFutureDate {
    /// A rule that goes by the clock.
    pub fn new() -> (r: ChangelogFutureDate)
        ensures
            r.pending() == Seq::<DiagnosticView>::empty(),
            r.today.wf(),
    {
        ChangelogFutureDate::with_today(today_utc())
    }

    /// A rule that takes the given day for the current one.
    pub fn with_today(today: Today) -> (r: ChangelogFutureDate)
        ensures
            r.pending() == Seq::<DiagnosticView>::empty(),
            r.today == today,
    {
        let r = ChangelogFutureDate { diagnostics: Vec::new(), today };
        assert(r.pending() =~= Seq::<DiagnosticView>::empty());
        r
    }
}

impl Default for ChangelogFutureDate {
    fn default() -> (r: ChangelogFutureDate)
        ensures
            r.pending() == Seq::<DiagnosticView>::empty(),
            r.today.wf(),
    {
        ChangelogFutureDate::new()
    }
}

/// The first year that is taken to be meant.
pub const MIN_PLAUSIBLE_YEAR: u16 = 1990;

/// So many years ahead are not yet taken for corrupt data.
pub const FUTURE_GRACE_YEARS: i32 = 5;

/// The last year that is taken to be meant. A clock that is off the scale
/// sets no limit.
pub open spec fn last_plausible_year(current_year: i32) -> int {
    let last = current_year + FUTURE_GRACE_YEARS;
    if 0 <= last <= u16::MAX {
        last
    } else {
        u16::MAX as int
    }
}

/// What is wrong with the date of an entry.
pub open spec fn implausible(current_year: i32, e: ChangelogEntry) -> Option<Seq<char>> {
    if !(1 <= e.date.day <= 31) {
        Some("day-of-month `"@ + decimal(e.date.day as nat) + "` is outside 1..=31"@)
    } else if e.date.year < MIN_PLAUSIBLE_YEAR {
        Some("year `"@ + decimal(e.date.year as nat) + "` is before "@ + decimal(MIN_PLAUSIBLE_YEAR as nat) + " — likely a two-digit typo"@)
    } else if e.date.year > last_plausible_year(current_year) {
        Some("year `"@ + decimal(e.date.year as nat) + "` is too far in the future (current is "@ + signed_decimal(current_year as int) + ")"@)
    } else {
        None
    }
}

pub open spec fn implausible_findings(current_year: i32, e: ChangelogEntry) -> Seq<DiagnosticView> {
    match implausible(current_year, e) {
        Some(reason) => seq![
            plain("RPM039"@, Severity::Warn, "implausible changelog date: "@ + reason, e.data),
        ],
        None => Seq::empty(),
    }
}

pub open spec fn implausible_findings_all(current_year: i32, spec: SpecFile) -> Seq<DiagnosticView> {
    flat(spec_entries(spec), |e: ChangelogEntry| implausible_findings(current_year, e))
}

fn implausible_reason(current_year: i32, e: &ChangelogEntry) -> (r: Option<String>)
    ensures
        opt_string(r) == implausible(current_year, *e),
{
    let day: u8 = e.date.day;
    let year: u16 = e.date.year;
    let last: i64 = current_year as i64 + FUTURE_GRACE_YEARS as i64;
    let upper_year: u16 = if 0 <= last && last <= 65535 {
        last as u16
    } else {
        65535
    };
    if day < 1 || day > 31 {
        let mut s = String::from_str("day-of-month `");
        s.append(number(day as u128).as_str());
        s.append("` is outside 1..=31");
        Some(s)
    } else if year < MIN_PLAUSIBLE_YEAR {
        let mut s = String::from_str("year `");
        s.append(number(year as u128).as_str());
        s.append("` is before ");
        s.append(number(MIN_PLAUSIBLE_YEAR as u128).as_str());
        s.append(" — likely a two-digit typo");
        Some(s)
    } else if year > upper_year {
        let mut s = String::from_str("year `");
        s.append(number(year as u128).as_str());
        s.append("` is too far in the future (current is ");
        s.append(signed_number(current_year as i64).as_str());
        s.append(")");
        Some(s)
    } else {
        None
    }
}

fn check_implausible(current_year: i32, e: &ChangelogEntry, out: &mut Vec<Diagnostic>)
    ensures
        reports(final(out)@) == reports(old(out)@) + implausible_findings(current_year, *e),
{
    match implausible_reason(current_year, e) {
        Some(reason) => {
            let mut message = String::from_str("implausible changelog date: ");
            message.append(reason.as_str());
            say(out, Diagnostic::new("RPM039", Severity::Warn, message.as_str(), e.data));
        },
        None => {
            assert(reports(out@) + Seq::<DiagnosticView>::empty() == reports(out@));
        },
    }
}

/// RPM039 `changelog-implausible-date`: Changelog entry date has an impossible day or year.
#[derive(Debug)]
pub struct ChangelogImplausibleDate {
    pub diagnostics: Vec<Diagnostic>,
    pub current_year: i32,
}

impl Lint for ChangelogImplausibleDate {
    open spec fn identity() -> Identity {
        Identity {
            id: "RPM039"@,
            name: "changelog-implausible-date"@,
            description: "Changelog entry date has an impossible day or year."@,
            default_severity: Severity::Warn,
            category: LintCategory::Correctness,
        }
    }

    open spec fn pending(&self) -> Seq<DiagnosticView> {
        reports(self.diagnostics@)
    }

    open spec fn after(&self, spec: SpecFile) -> Seq<DiagnosticView> {
        self.pending() + implausible_findings_all(self.current_year, spec)
    }

    open spec fn same_settings(&self, other: &Self) -> bool {
        self.current_year == other.current_year
    }

    fn metadata(&self) -> (r: LintMetadata) {
        LintMetadata {
            id: "RPM039",
            name: "changelog-implausible-date",
            description: "Changelog entry date has an impossible day or year.",
            default_severity: Severity::Warn,
            category: LintCategory::Correctness,
        }
    }

    fn visit_spec(&mut self, spec: &SpecFile) {
        let year: i32 = self.current_year;
        let all = collect_entries(spec);
        let ghost es = spec_entries(*spec);
        let ghost f = |e: ChangelogEntry| implausible_findings(year, e);
        let ghost start = self.pending();
        let mut i: usize = 0;
        assert(start + flat(es.take(0), f) == start);
        while i < all.len()
            invariant
                i <= all.len(),
                year == self.current_year,
                self.current_year == old(self).current_year,
                entry_views(all@) == es,
                f == (|e: ChangelogEntry| implausible_findings(year, e)),
                self.pending() == start + flat(es.take(i as int), f),
            decreases all.len() - i,
        {
            let ghost so_far = flat(es.take(i as int), f);
            assert(es[i as int] == *all@[i as int]);
            check_implausible(year, all[i], &mut self.diagnostics);
            proof {
                lemma_flat_step(es, f, i as int);
                assert(start + so_far + f(es[i as int]) == start + (so_far + f(es[i as int])));
            }
            i = i + 1;
        }
        assert(es.take(i as int) == es);
    }

    fn take_diagnostics(&mut self) -> (r: Vec<Diagnostic>) {
        drain(&mut self.diagnostics)
    }
}

impl ChangelogImplausibleDate {
    /// A rule that goes by the year of the clock.
    pub fn new() -> (r: ChangelogImplausibleDate)
        ensures
            r.pending() == Seq::<DiagnosticView>::empty(),
            -9999 <= r.current_year <= 9999,
    {
        ChangelogImplausibleDate::with_current_year(today_utc().year)
    }

    /// A rule that takes the given year for the current one.
    pub fn with_current_year(current_year: i32) -> (r: ChangelogImplausibleDate)
        ensures
            r.pending() == Seq::<DiagnosticView>::empty(),
            r.current_year == current_year,
    {
        let r = ChangelogImplausibleDate { diagnostics: Vec::new(), current_year };
        assert(r.pending() =~= Seq::<DiagnosticView>::empty());
        r
    }
}

impl Default for ChangelogImplausibleDate {
    fn default() -> (r: ChangelogImplausibleDate)
        ensures
            r.pending() == Seq::<DiagnosticView>::empty(),
            -9999 <= r.current_year <= 9999,
    {
        ChangelogImplausibleDate::new()
    }
}

/// The entries of the first changelog at the top level.
pub open spec fn first_changelog(items: Seq<Item>) -> Option<Seq<ChangelogEntry>>
    decreases items.len(),
{
    if items.len() == 0 {
        None
    } else {
        match items[0] {
            Item::Section(s) => match *s {
                Section::Changelog { entries, .. } => Some(entries@),
                _ => first_changelog(items.skip(1)),
            },
            _ => first_changelog(items.skip(1)),
        }
    }
}

/// Whether entry `n` is later than the one before it, where both days exist.
pub open spec fn is_out_of_order(entries: Seq<ChangelogEntry>, n: int) -> bool {
    n > 0 && exists_on_calendar(entries[n].date) && exists_on_calendar(entries[n - 1].date) && is_later(
        entries[n].date,
        entries[n - 1].date,
    )
}

pub open spec fn order_report(e: ChangelogEntry, prev: ChangelogEntry) -> DiagnosticView {
    plain("RPM311"@, Severity::Warn, "changelog entry dated "@ + date_of(e.date) + " is newer than the preceding entry ("@ + date_of(prev.date) + "); changelogs should be ordered newest-first"@, e.data).label(
        prev.data,
        "previous entry here"@,
    )
}

pub open spec fn order_findings(entries: Seq<ChangelogEntry>, n: nat) -> Seq<DiagnosticView>
    decreases n,
{
    if n == 0 {
        Seq::empty()
    } else {
        order_findings(entries, (n - 1) as nat) + given(
            is_out_of_order(entries, n - 1),
            order_report(entries[n - 1], entries[n - 2]),
        )
    }
}

pub open spec fn weekday_report(e: ChangelogEntry) -> DiagnosticView {
    plain("RPM311"@, Severity::Warn, "changelog entry weekday `"@ + e.date.weekday.label() + "` does not match the date "@ + date_of(e.date) + " (actual weekday is `"@ + true_weekday(e.date).label() + "`)"@, e.data)
}

/// The report on an entry whose day exists and has another weekday.
pub open spec fn weekday_findings(e: ChangelogEntry) -> Seq<DiagnosticView> {
    given(
        exists_on_calendar(e.date) && e.date.weekday != true_weekday(e.date),
        weekday_report(e),
    )
}

/// The version that an entry names, without a hyphen before it.
pub open spec fn entry_evr(e: ChangelogEntry) -> Option<Seq<char>> {
    match e.version {
        None => None,
        Some(t) => match plain_text(t) {
            None => None,
            Some(raw) => {
                let s = match strip_prefix(raw, "-"@) {
                    Some(rest) => trim(rest),
                    None => trim(raw),
                };
                if s.len() == 0 {
                    None
                } else {
                    Some(s)
                }
            },
        },
    }
}

/// What stands before the first macro.
pub open spec fn leading_literals(s: Seq<TextSegment>) -> Seq<char>
    decreases s.len(),
{
    if s.len() == 0 {
        Seq::empty()
    } else {
        match s[0] {
            TextSegment::Literal(t) => t@ + leading_literals(s.skip(1)),
            TextSegment::Macro(_) => Seq::empty(),
        }
    }
}

/// What stands before the first macro, trimmed, if anything does.
pub open spec fn literal_prefix(t: Text) -> Option<Seq<char>> {
    let s = trim(leading_literals(t.segments@));
    if s.len() == 0 {
        None
    } else {
        Some(s)
    }
}

/// The version, release and epoch that the last lines of each kind among
/// `items` give. An epoch of 0 does not show.
pub struct Evr3 {
    pub version: Option<Seq<char>>,
    pub release: Option<Seq<char>>,
    pub epoch: Option<Seq<char>>,
}

pub open spec fn stated_evr(items: Seq<Item>) -> Evr3
    decreases items.len(),
{
    if items.len() == 0 {
        Evr3 { version: None, release: None, epoch: None }
    } else {
        let rest = stated_evr(items.drop_last());
        match items.last() {
            Item::Preamble(p) => match (p.tag, p.value) {
                (Tag::Version, TagValue::Text(t)) => Evr3 { version: plain_text(t), ..rest },
                (Tag::Release, TagValue::Text(t)) => Evr3 { release: literal_prefix(t), ..rest },
                (Tag::Epoch, TagValue::Number(n)) => if n > 0 {
                    Evr3 { epoch: Some(decimal(n as nat)), ..rest }
                } else {
                    rest
                },
                _ => rest,
            },
            _ => rest,
        }
    }
}

/// `epoch:version-release` as the tags give it.
pub open spec fn spec_evr(items: Seq<Item>) -> Option<Seq<char>> {
    let s = stated_evr(items);
    match (s.version, s.release) {
        (Some(v), Some(r)) => if v.len() == 0 || r.len() == 0 {
            None
        } else {
            match s.epoch {
                Some(e) => Some(e + ":"@ + v + "-"@ + r),
                None => Some(v + "-"@ + r),
            }
        },
        _ => None,
    }
}

pub open spec fn evr_report(latest: Seq<char>, current: Seq<char>, span: Span) -> DiagnosticView {
    plain("RPM311"@, Severity::Warn, "latest changelog entry shows `"@ + latest + "` but spec is `"@ + current + "` — bump the changelog after editing Version/Release"@, span)
}

/// The report on a first entry that names another version than the tags.
pub open spec fn evr_findings(items: Seq<Item>, entries: Seq<ChangelogEntry>) -> Seq<DiagnosticView> {
    if entries.len() == 0 {
        Seq::empty()
    } else {
        match (entry_evr(entries[0]), spec_evr(items)) {
            (Some(latest), Some(current)) => given(
                latest != current,
                evr_report(latest, current, entries[0].data),
            ),
            _ => Seq::empty(),
        }
    }
}

/// The order of the entries, then their weekdays, then the version.
pub open spec fn changelog_findings(spec: SpecFile) -> Seq<DiagnosticView> {
    match first_changelog(spec.items@) {
        None => Seq::empty(),
        Some(entries) => order_findings(entries, entries.len()) + flat(
            entries,
            |e: ChangelogEntry| weekday_findings(e),
        ) + evr_findings(spec.items@, entries),
    }
}

fn find_changelog_entries<'a>(spec: &'a SpecFile) -> (r: Option<&'a Vec<ChangelogEntry>>)
    ensures
        r is Some <==> first_changelog(spec.items@) is Some,
        r matches Some(v) ==> first_changelog(spec.items@) == Some(v@),
{
    let mut i: usize = 0;
    assert(spec.items@.skip(0) =~= spec.items@);
    while i < spec.items.len()
        invariant
            i <= spec.items.len(),
            first_changelog(spec.items@) == first_changelog(spec.items@.skip(i as int)),
        decreases spec.items.len() - i,
    {
        assert(spec.items@.skip(i as int).skip(1) =~= spec.items@.skip(i + 1));
        match &spec.items[i] {
            Item::Section(s) => match &**s {
                Section::Changelog { entries, .. } => {
                    return Some(entries);
                },
                _ => {},
            },
            _ => {},
        }
        i = i + 1;
    }
    None
}

fn check_order(entries: &Vec<ChangelogEntry>, out: &mut Vec<Diagnostic>)
    ensures
        reports(final(out)@) == reports(old(out)@) + order_findings(entries@, entries@.len()),
{
    let ghost start = reports(out@);
    let mut i: usize = 0;
    assert(start + order_findings(entries@, 0) == start);
    while i < entries.len()
        invariant
            i <= entries.len(),
            reports(out@) == start + order_findings(entries@, i as nat),
        decreases entries.len() - i,
    {
        let ghost so_far = order_findings(entries@, i as nat);
        let mut newer = false;
        if i > 0 && weekday_of(&entries[i].date).is_some() && weekday_of(&entries[i - 1].date).is_some() {
            newer = later(&entries[i].date, &entries[i - 1].date);
        }
        if newer {
            let e = &entries[i];
            let prev = &entries[i - 1];
            let mut message = String::from_str("changelog entry dated ");
            message.append(text_of_date(&e.date).as_str());
            message.append(" is newer than the preceding entry (");
            message.append(text_of_date(&prev.date).as_str());
            message.append("); changelogs should be ordered newest-first");
            say(
                out,
                Diagnostic::new("RPM311", Severity::Warn, message.as_str(), e.data).with_label(
                    prev.data,
                    "previous entry here",
                ),
            );
            proof {
                let d = order_report(entries@[i as int], entries@[i - 1]);
                assert(start + so_far + seq![d] == start + (so_far + seq![d]));
            }
        } else {
            assert(so_far + Seq::<DiagnosticView>::empty() == so_far);
        }
        i = i + 1;
    }
}

fn same_weekday(a: Weekday, b: Weekday) -> (r: bool)
    ensures
        r == (a == b),
{
    a == b
}

fn check_weekdays(entries: &Vec<ChangelogEntry>, out: &mut Vec<Diagnostic>)
    ensures
        reports(final(out)@) == reports(old(out)@) + flat(entries@, |e: ChangelogEntry| weekday_findings(e)),
{
    let ghost f = |e: ChangelogEntry| weekday_findings(e);
    let ghost start = reports(out@);
    let mut i: usize = 0;
    assert(start + flat(entries@.take(0), f) == start);
    while i < entries.len()
        invariant
            i <= entries.len(),
            f == (|e: ChangelogEntry| weekday_findings(e)),
            reports(out@) == start + flat(entries@.take(i as int), f),
        decreases entries.len() - i,
    {
        let ghost so_far = flat(entries@.take(i as int), f);
        let ghost here = f(entries@[i as int]);
        let e = &entries[i];
        let mut said = false;
        match weekday_of(&e.date) {
            Some(actual) => {
                if !same_weekday(e.date.weekday, actual) {
                    said = true;
                    let mut message = String::from_str("changelog entry weekday `");
                    message.append(e.date.weekday.name());
                    message.append("` does not match the date ");
                    message.append(text_of_date(&e.date).as_str());
                    message.append(" (actual weekday is `");
                    message.append(actual.name());
                    message.append("`)");
                    say(out, Diagnostic::new("RPM311", Severity::Warn, message.as_str(), e.data));
                }
            },
            None => {},
        }
        proof {
            if !said {
                assert(so_far + here == so_far);
            }
            lemma_flat_step(entries@, f, i as int);
            assert(start + so_far + here == start + (so_far + here));
        }
        i = i + 1;
    }
    assert(entries@.take(i as int) == entries@);
}

fn changelog_evr(e: &ChangelogEntry) -> (r: Option<String>)
    ensures
        opt_string(r) == entry_evr(*e),
{
    let raw = match &e.version {
        Some(t) => match plain_str(t) {
            Some(s) => s,
            None => {
                return None;
            },
        },
        None => {
            return None;
        },
    };
    let s = match without_prefix(raw, "-") {
        Some(rest) => trimmed(rest),
        None => trimmed(raw),
    };
    if s.is_empty() {
        None
    } else {
        Some(s.to_owned())
    }
}

fn literal_prefix_of(t: &Text) -> (r: Option<String>)
    ensures
        opt_string(r) == literal_prefix(*t),
{
    let ghost segs = t.segments@;
    let mut out = String::new();
    let mut i: usize = 0;
    let mut literal = true;
    assert(segs.skip(0) =~= segs);
    assert(out@ + leading_literals(segs) =~= leading_literals(segs));
    while i < t.segments.len() && literal
        invariant
            i <= t.segments.len(),
            segs == t.segments@,
            literal ==> leading_literals(segs) == out@ + leading_literals(segs.skip(i as int)),
            !literal ==> leading_literals(segs) == out@,
        decreases t.segments.len() - i,
    {
        let ghost before = out@;
        assert(segs.skip(i as int).skip(1) =~= segs.skip(i + 1));
        assert(segs.skip(i as int)[0] == segs[i as int]);
        match &t.segments[i] {
            TextSegment::Literal(s) => {
                out.append(s.as_str());
                assert(before + (s@ + leading_literals(segs.skip(i + 1))) =~= before + s@ + leading_literals(segs.skip(i + 1)));
            },
            TextSegment::Macro(_) => {
                literal = false;
                assert(before + Seq::<char>::empty() =~= before);
            },
        }
        i = i + 1;
    }
    assert(literal ==> out@ + leading_literals(segs.skip(i as int)) =~= out@);
    let s = trimmed(out.as_str());
    if s.is_empty() {
        None
    } else {
        Some(s.to_owned())
    }
}

fn spec_version_release(items: &Vec<Item>) -> (r: Option<String>)
    ensures
        opt_string(r) == spec_evr(items@),
{
    let mut version: Option<String> = None;
    let mut release: Option<String> = None;
    let mut epoch: Option<String> = None;
    let mut i: usize = 0;
    while i < items.len()
        invariant
            i <= items.len(),
            opt_string(version) == stated_evr(items@.take(i as int)).version,
            opt_string(release) == stated_evr(items@.take(i as int)).release,
            opt_string(epoch) == stated_evr(items@.take(i as int)).epoch,
        decreases items.len() - i,
    {
        assert(items@.take(i + 1).drop_last() == items@.take(i as int));
        match &items[i] {
            Item::Preamble(p) => match (&p.tag, &p.value) {
                (Tag::Version, TagValue::Text(t)) => {
                    version = match plain_str(t) {
                        Some(s) => Some(s.to_owned()),
                        None => None,
                    };
                },
                (Tag::Release, TagValue::Text(t)) => {
                    release = literal_prefix_of(t);
                },
                (Tag::Epoch, TagValue::Number(n)) => {
                    if *n > 0 {
                        epoch = Some(number(*n as u128));
                    }
                },
                _ => {},
            },
            _ => {},
        }
        i = i + 1;
    }
    assert(items@.take(i as int) == items@);
    match (version, release) {
        (Some(v), Some(r)) => {
            if v.as_str().is_empty() || r.as_str().is_empty() {
                return None;
            }
            let mut s = match epoch {
                Some(e) => {
                    let mut s = e;
                    s.append(":");
                    s.append(v.as_str());
                    s
                },
                None => v,
            };
            s.append("-");
            s.append(r.as_str());
            Some(s)
        },
        _ => None,
    }
}

fn check_evr(items: &Vec<Item>, entries: &Vec<ChangelogEntry>, out: &mut Vec<Diagnostic>)
    ensures
        reports(final(out)@) == reports(old(out)@) + evr_findings(items@, entries@),
{
    assert(reports(out@) + Seq::<DiagnosticView>::empty() == reports(out@));
    if entries.len() == 0 {
        return ;
    }
    match (changelog_evr(&entries[0]), spec_version_release(items)) {
        (Some(latest), Some(current)) => {
            if !(latest == current) {
                let mut message = String::from_str("latest changelog entry shows `");
                message.append(latest.as_str());
                message.append("` but spec is `");
                message.append(current.as_str());
                message.append("` — bump the changelog after editing Version/Release");
                say(out, Diagnostic::new("RPM311", Severity::Warn, message.as_str(), entries[0].data));
            }
        },
        _ => {},
    }
}

/// RPM311 `changelog-order-weekday-evr`: The `%changelog` is not ordered newest-first,
/// contains a weekday that does not match the date, or its latest entry's EVR does not
/// match the spec's `Version-Release`.
#[derive(Debug)]
pub struct ChangelogOrderWeekdayEvr {
    pub diagnostics: Vec<Diagnostic>,
}

impl ChangelogOrderWeekdayEvr {
    pub fn new() -> (r: ChangelogOrderWeekdayEvr)
        ensures
            r.pending() == Seq::<DiagnosticView>::empty(),
    {
        let r = ChangelogOrderWeekdayEvr { diagnostics: Vec::new() };
        assert(r.pending() =~= Seq::<DiagnosticView>::empty());
        r
    }
}

impl Default for ChangelogOrderWeekdayEvr {
    fn default() -> (r: ChangelogOrderWeekdayEvr)
        ensures
            r.pending() == Seq::<DiagnosticView>::empty(),
    {
        ChangelogOrderWeekdayEvr::new()
    }
}

impl Lint for ChangelogOrderWeekdayEvr {
    open spec fn identity() -> Identity {
        Identity {
            id: "RPM311"@,
            name: "changelog-order-weekday-evr"@,
            description: "The `%changelog` is not ordered newest-first, contains a weekday that does not match the date, or its latest entry's EVR does not match the spec's `Version-Release`."@,
            default_severity: Severity::Warn,
            category: LintCategory::Correctness,
        }
    }

    open spec fn pending(&self) -> Seq<DiagnosticView> {
        reports(self.diagnostics@)
    }

    open spec fn after(&self, spec: SpecFile) -> Seq<DiagnosticView> {
        self.pending() + changelog_findings(spec)
    }

    open spec fn same_settings(&self, other: &Self) -> bool {
        true
    }

    fn metadata(&self) -> (r: LintMetadata) {
        LintMetadata {
            id: "RPM311",
            name: "changelog-order-weekday-evr",
            description: "The `%changelog` is not ordered newest-first, contains a weekday that does not match the date, or its latest entry's EVR does not match the spec's `Version-Release`.",
            default_severity: Severity::Warn,
            category: LintCategory::Correctness,
        }
    }

    fn visit_spec(&mut self, spec: &SpecFile) {
        let ghost start = self.pending();
        match find_changelog_entries(spec) {
            Some(entries) => {
                check_order(entries, &mut self.diagnostics);
                check_weekdays(entries, &mut self.diagnostics);
                check_evr(&spec.items, entries, &mut self.diagnostics);
                proof {
                    let a = order_findings(entries@, entries@.len());
                    let b = flat(entries@, |e: ChangelogEntry| weekday_findings(e));
                    let c = evr_findings(spec.items@, entries@);
                    assert(start + a + b + c == start + (a + b + c));
                }
            },
            None => {
                assert(start + Seq::<DiagnosticView>::empty() == start);
            },
        }
    }

    fn take_diagnostics(&mut self) -> (r: Vec<Diagnostic>) {
        drain(&mut self.diagnostics)
    }
}

/// An entry whose year is too far in the future is reported as future as
/// well: the margin for implausible years lies beyond the current one.
pub proof fn implausibly_far_is_future(today: Today, e: ChangelogEntry)
    requires
        0 <= today.year <= u16::MAX - FUTURE_GRACE_YEARS,
        e.date.year > last_plausible_year(today.year),
    ensures
        future_findings(today, e).len() > 0,
{
}

/// Of the days that the calendar has, exactly those that come after today are
/// reported as future.
pub proof fn future_is_after_today(today: Today, e: ChangelogEntry)
    requires
        today.wf(),
        exists_on_calendar(e.date),
    ensures
        future_findings(today, e).len() > 0 <==> day_number(
            e.date.year as int,
            e.date.month.ordinal(),
            e.date.day as int,
        ) > day_number(today.year as int, today.month as int, today.day as int),
{
    day_number_is_lexicographic(
        e.date.year as int,
        e.date.month.ordinal(),
        e.date.day as int,
        today.year as int,
        today.month as int,
        today.day as int,
    );
}

/// An entry names a version: its text is `version` or `- version`, up to
/// whitespace.
pub open spec fn names_version(e: ChangelogEntry, version: Seq<char>) -> bool {
    &&& version.len() > 0
    &&& e.version matches Some(t) && (t.literal() matches Some(x) && (if trim(x).len() > 0 && trim(
        x,
    )[0] == '-' {
        version == trim(trim(x).skip(1))
    } else {
        version == trim(x)
    }))
}

/// The version that is read from an entry is the one that it names.
pub proof fn entry_version_is_the_named_one(e: ChangelogEntry, version: Seq<char>)
    ensures
        names_version(e, version) <==> entry_evr(e) == Some(version),
{
    reveal_strlit("-");
    match e.version {
        Some(t) => match t.literal() {
            Some(x) => {
                let raw = trim(x);
                if raw.len() > 0 {
                    assert(raw.subrange(0, 1)[0] == raw[0]);
                    if raw[0] == '-' {
                        assert("-"@ =~= raw.subrange(0, 1));
                        assert("-"@.is_prefix_of(raw));
                    } else {
                        assert("-"@ != raw.subrange(0, 1)) by {
                            assert("-"@[0] == '-');
                        }
                    }
                }
                trimming_is_idempotent(x);
            },
            None => {},
        },
        None => {},
    }
}

/// `t` is the text of the last `tag:` line with a text among `items`.
pub open spec fn is_last_text(items: Seq<Item>, i: int, tag: Tag, t: Text) -> bool {
    &&& 0 <= i < items.len()
    &&& items[i] matches Item::Preamble(p) && p.tag == tag && p.value == TagValue::Text(t)
    &&& forall|j: int|
        i < j < items.len() ==> !(#[trigger] items[j] matches Item::Preamble(p) && p.tag == tag
            && p.value is Text)
}

/// `n` is the last epoch among `items` that is not 0; where it is 0, there is
/// none.
pub open spec fn is_last_epoch(items: Seq<Item>, i: int, n: u32) -> bool {
    &&& n > 0 ==> 0 <= i < items.len() && (items[i] matches Item::Preamble(p) && p.tag is Epoch
        && p.value == TagValue::Number(n))
    &&& forall|j: int|
        (if n > 0 {
            i
        } else {
            -1
        }) < j < items.len() ==> !(#[trigger] items[j] matches Item::Preamble(p) && p.tag is Epoch
            && (p.value matches TagValue::Number(m) && m > 0))
}

/// A text begins with the literal `s`, which a macro follows if anything does.
pub open spec fn begins_with(t: Text, s: Seq<char>) -> bool {
    &&& t.segments@.len() > 0
    &&& t.segments@[0] matches TextSegment::Literal(x) && x@ == s
    &&& t.segments@.len() > 1 ==> t.segments@[1] is Macro
}

proof fn lemma_leading(t: Text, s: Seq<char>)
    requires
        begins_with(t, s),
    ensures
        leading_literals(t.segments@) == s,
{
    reveal_with_fuel(leading_literals, 3);
    let rest = t.segments@.skip(1);
    if rest.len() > 0 {
        assert(rest[0] == t.segments@[1]);
    }
    assert(leading_literals(rest) =~= Seq::<char>::empty());
    assert(s + Seq::<char>::empty() =~= s);
}

proof fn lemma_stated_text(items: Seq<Item>, i: int, tag: Tag, t: Text)
    requires
        is_last_text(items, i, tag, t),
        tag is Version || tag is Release,
    ensures
        tag is Version ==> stated_evr(items).version == plain_text(t),
        tag is Release ==> stated_evr(items).release == literal_prefix(t),
    decreases items.len(),
{
    if i < items.len() - 1 {
        let front = items.drop_last();
        assert(items.last() == items[items.len() - 1]);
        assert(front[i] == items[i]);
        assert forall|j: int| i < j < front.len() implies !(#[trigger] front[j] matches Item::Preamble(p)
            && p.tag == tag && p.value is Text) by {
            assert(front[j] == items[j]);
        }
        lemma_stated_text(front, i, tag, t);
    }
}

proof fn lemma_stated_epoch(items: Seq<Item>, i: int, n: u32)
    requires
        is_last_epoch(items, i, n),
    ensures
        stated_evr(items).epoch == if n > 0 {
            Some(decimal(n as nat))
        } else {
            None::<Seq<char>>
        },
    decreases items.len(),
{
    if items.len() > 0 && (n == 0 || i < items.len() - 1) {
        let front = items.drop_last();
        assert(items.last() == items[items.len() - 1]);
        if n > 0 {
            assert(front[i] == items[i]);
        }
        assert forall|j: int|
            (if n > 0 {
                i
            } else {
                -1
            }) < j < front.len() implies !(#[trigger] front[j] matches Item::Preamble(p)
            && p.tag is Epoch && (p.value matches TagValue::Number(m) && m > 0)) by {
            assert(front[j] == items[j]);
        }
        lemma_stated_epoch(front, i, n);
    }
}

/// The version of a spec file is what its last `Version:` and `Release:` lines
/// say, the latter up to its first macro, with the epoch before it where there
/// is one.
pub proof fn spec_version_is_read_from_the_tags(
    items: Seq<Item>,
    v: int,
    version: Text,
    r: int,
    release: Text,
    e: int,
    epoch: u32,
    written: Seq<char>,
)
    requires
        is_last_text(items, v, Tag::Version, version),
        is_last_text(items, r, Tag::Release, release),
        is_last_epoch(items, e, epoch),
        begins_with(release, written),
        trim(written).len() > 0,
        version.segments@.len() == 1,
        begins_with(version, version.segments@[0]->Literal_0@),
        trim(version.segments@[0]->Literal_0@).len() > 0,
    ensures
        spec_evr(items) == Some(
            (if epoch > 0 {
                decimal(epoch as nat) + ":"@
            } else {
                Seq::empty()
            }) + trim(version.segments@[0]->Literal_0@) + "-"@ + trim(written),
        ),
{
    lemma_stated_text(items, v, Tag::Version, version);
    lemma_stated_text(items, r, Tag::Release, release);
    lemma_stated_epoch(items, e, epoch);
    lemma_leading(release, written);
    let x = trim(version.segments@[0]->Literal_0@);
    assert(Seq::<char>::empty() + x =~= x);
}

/// `entries` are those of the first changelog among `items`.
pub open spec fn is_first_changelog(items: Seq<Item>, c: int, entries: Seq<ChangelogEntry>) -> bool {
    &&& 0 <= c < items.len()
    &&& items[c] matches Item::Section(s) && (*s matches Section::Changelog { entries: es, .. } && es@
        == entries)
    &&& forall|j: int|
        0 <= j < c ==> !(#[trigger] items[j] matches Item::Section(s) && *s is Changelog)
}

proof fn lemma_first_changelog(items: Seq<Item>, c: int, entries: Seq<ChangelogEntry>)
    requires
        is_first_changelog(items, c, entries),
    ensures
        first_changelog(items) == Some(entries),
    decreases items.len(),
{
    if c > 0 {
        let rest = items.skip(1);
        assert(!(items[0] matches Item::Section(s) && *s is Changelog));
        assert(rest[c - 1] == items[c]);
        assert forall|j: int| 0 <= j < c - 1 implies !(#[trigger] rest[j] matches Item::Section(s)
            && *s is Changelog) by {
            assert(rest[j] == items[j + 1]);
        }
        lemma_first_changelog(rest, c - 1, entries);
    }
}

/// Every entry stands on a day of the calendar, and none is later than one
/// before it.
pub open spec fn is_newest_first(entries: Seq<ChangelogEntry>) -> bool {
    &&& forall|i: int| 0 <= i < entries.len() ==> exists_on_calendar((#[trigger] entries[i]).date)
    &&& forall|i: int, j: int|
        0 <= i < j < entries.len() ==> !is_later(
            (#[trigger] entries[j]).date,
            (#[trigger] entries[i]).date,
        )
}

/// No other entry is as late as entry `n`.
pub open spec fn is_newest(entries: Seq<ChangelogEntry>, n: int) -> bool {
    &&& 0 <= n < entries.len()
    &&& forall|j: int|
        0 <= j < entries.len() && j != n ==> is_later(entries[n].date, (#[trigger] entries[j]).date)
}

proof fn lemma_in_order(entries: Seq<ChangelogEntry>, n: nat)
    requires
        is_newest_first(entries),
        n <= entries.len(),
    ensures
        order_findings(entries, n) == Seq::<DiagnosticView>::empty(),
    decreases n,
{
    if n > 0 {
        lemma_in_order(entries, (n - 1) as nat);
        if n > 1 {
            assert(!is_later(entries[n - 1].date, entries[n - 2].date));
        }
        assert(order_findings(entries, n) =~= Seq::<DiagnosticView>::empty());
    }
}

proof fn lemma_no_weekdays(entries: Seq<ChangelogEntry>)
    requires
        forall|i: int|
            0 <= i < entries.len() ==> (#[trigger] entries[i]).date.weekday == true_weekday(
                entries[i].date,
            ),
    ensures
        flat(entries, |e: ChangelogEntry| weekday_findings(e)) == Seq::<DiagnosticView>::empty(),
    decreases entries.len(),
{
    let f = |e: ChangelogEntry| weekday_findings(e);
    if entries.len() > 0 {
        let front = entries.drop_last();
        assert forall|i: int| 0 <= i < front.len() implies (#[trigger] front[i]).date.weekday
            == true_weekday(front[i].date) by {
            assert(front[i] == entries[i]);
        }
        lemma_no_weekdays(front);
        assert(entries.last() == entries[entries.len() - 1]);
        assert(flat(entries, f) =~= Seq::<DiagnosticView>::empty());
    }
}

/// Nothing is said of a changelog in order whose weekdays are right and whose
/// newest entry names the version of the spec file, whatever older entries
/// name.
pub proof fn right_changelog_is_silent(
    rule: ChangelogOrderWeekdayEvr,
    spec: SpecFile,
    c: int,
    entries: Seq<ChangelogEntry>,
    newest: int,
    version: Seq<char>,
)
    requires
        is_first_changelog(spec.items@, c, entries),
        is_newest_first(entries),
        is_newest(entries, newest),
        forall|i: int|
            0 <= i < entries.len() ==> (#[trigger] entries[i]).date.weekday == true_weekday(
                entries[i].date,
            ),
        names_version(entries[newest], version),
        spec_evr(spec.items@) == Some(version),
    ensures
        rule.after(spec) == rule.pending(),
{
    lemma_first_changelog(spec.items@, c, entries);
    lemma_in_order(entries, entries.len());
    lemma_no_weekdays(entries);
    lemma_newest_is_first(entries, newest);
    entry_version_is_the_named_one(entries[newest], version);
    assert(rule.after(spec) =~= rule.pending());
}

proof fn lemma_newest_is_first(entries: Seq<ChangelogEntry>, newest: int)
    requires
        is_newest_first(entries),
        is_newest(entries, newest),
    ensures
        newest == 0,
{
    if newest > 0 {
        assert(is_later(entries[newest].date, entries[0].date));
        assert(!is_later(entries[newest].date, entries[0].date));
    }
}

/// Where the newest entry of a changelog in order names another version than
/// that of the spec file, that is said at the entry.
pub proof fn outdated_changelog_is_reported(
    rule: ChangelogOrderWeekdayEvr,
    spec: SpecFile,
    c: int,
    entries: Seq<ChangelogEntry>,
    newest: int,
    version: Seq<char>,
    named: Seq<char>,
)
    requires
        is_first_changelog(spec.items@, c, entries),
        is_newest_first(entries),
        is_newest(entries, newest),
        names_version(entries[newest], named),
        spec_evr(spec.items@) == Some(version),
        named != version,
    ensures
        rule.after(spec).len() > rule.pending().len(),
        rule.after(spec).last().primary_span == entries[newest].data,
{
    lemma_first_changelog(spec.items@, c, entries);
    lemma_newest_is_first(entries, newest);
    entry_version_is_the_named_one(entries[newest], named);
}

/// Entries that follow one on an earlier day are reported, and so are those
/// on the wrong weekday.
pub proof fn disorder_is_reported(
    rule: ChangelogOrderWeekdayEvr,
    spec: SpecFile,
    c: int,
    entries: Seq<ChangelogEntry>,
    n: int,
)
    requires
        is_first_changelog(spec.items@, c, entries),
        0 <= n < entries.len(),
        exists_on_calendar(entries[n].date),
        entries[n].date.weekday != true_weekday(entries[n].date) || n > 0 && exists_on_calendar(
            entries[n - 1].date,
        ) && is_later(entries[n].date, entries[n - 1].date),
    ensures
        exists|i: int|
            rule.pending().len() <= i < rule.after(spec).len() && (#[trigger] rule.after(
                spec,
            )[i]).primary_span == entries[n].data,
{
    lemma_first_changelog(spec.items@, c, entries);
    let f = |e: ChangelogEntry| weekday_findings(e);
    let a = order_findings(entries, entries.len());
    let b = flat(entries, f);
    let e = evr_findings(spec.items@, entries);
    let start = rule.pending().len();
    if entries[n].date.weekday != true_weekday(entries[n].date) {
        let d = weekday_report(entries[n]);
        lemma_flat_contains(entries, f, d);
        assert(f(entries[n])[0] == d);
        let k = choose|k: int| 0 <= k < b.len() && b[k] == d;
        assert((a + b + e)[a.len() + k] == d);
        assert(rule.after(spec)[start + a.len() + k] == d);
    } else {
        let d = order_report(entries[n], entries[n - 1]);
        lemma_order_said(entries, entries.len(), n);
        let k = choose|k: int| 0 <= k < a.len() && a[k] == d;
        assert((a + b + e)[k] == d);
        assert(rule.after(spec)[start + k] == d);
    }
}

proof fn lemma_order_said(entries: Seq<ChangelogEntry>, n: nat, i: int)
    requires
        0 <= i < n <= entries.len(),
        is_out_of_order(entries, i),
    ensures
        order_findings(entries, n).contains(order_report(entries[i], entries[i - 1])),
    decreases n,
{
    let d = order_report(entries[i], entries[i - 1]);
    let a = order_findings(entries, (n - 1) as nat);
    if i == n - 1 {
        assert((a + seq![d])[a.len() as int] == d);
    } else {
        lemma_order_said(entries, (n - 1) as nat, i);
        let k = choose|k: int| 0 <= k < a.len() && a[k] == d;
        assert(order_findings(entries, n)[k] == d);
    }
}

/// Every entry of every changelog is looked at, wherever it stands, and
/// nothing else is.
pub proof fn every_entry_is_looked_at(spec: SpecFile, e: ChangelogEntry)
    ensures
        spec_entries(spec).contains(e) <==> exists|i: int|
            0 <= i < leaves(spec.items@).len() && (#[trigger] leaves(spec.items@)[i] matches
                Item::Section(s) && (*s matches Section::Changelog { entries, .. }
                && entries@.contains(e))),
{
    let all = leaves(spec.items@);
    let f = |i: Item| entries_in(i);
    lemma_flat_contains(all, f, e);
    if spec_entries(spec).contains(e) {
        let i = choose|i: int| 0 <= i < all.len() && f(#[trigger] all[i]).contains(e);
        assert(all[i] is Section);
    }
    if exists|i: int|
        0 <= i < all.len() && (#[trigger] all[i] matches Item::Section(s) && (
        *s matches Section::Changelog { entries, .. } && entries@.contains(e))) {
        let i = choose|i: int|
            0 <= i < all.len() && (#[trigger] all[i] matches Item::Section(s) && (
            *s matches Section::Changelog { entries, .. } && entries@.contains(e)));
        assert(f(all[i]).contains(e));
    }
}

/// Whether something other than whitespace stands in the body of an entry.
pub open spec fn says_something(e: ChangelogEntry) -> bool {
    exists|i: int, k: int|
        0 <= i < e.body@.len() && 0 <= k < e.body@[i].segments@.len() && (
        #[trigger] e.body@[i].segments@[k] matches TextSegment::Literal(s) ==> exists|n: int|
            0 <= n < s@.len() && !is_space(#[trigger] s@[n]))
}

/// Exactly those entries are reported that say nothing.
pub proof fn empty_entries_are_reported(e: ChangelogEntry, span: Span)
    ensures
        says_at(empty_findings(e), span) <==> e.data == span && !says_something(e),
{
    lemma_says_given(
        body_is_empty(e),
        plain("RPM037"@, Severity::Warn, "changelog entry body is empty"@, e.data),
        span,
    );
    assert forall|s: Seq<char>| #[trigger] trim(s).len() > 0 <==> exists|n: int|
        0 <= n < s.len() && !is_space(#[trigger] s[n]) by {
        lemma_trims_to_nothing(s);
    }
    if !body_is_empty(e) {
        let i = choose|i: int| 0 <= i < e.body@.len() && !is_blank(#[trigger] e.body@[i]);
        let t = e.body@[i];
        let k = choose|k: int|
            0 <= k < t.segments@.len() && !(#[trigger] t.segments@[k] matches TextSegment::Literal(
                s,
            ) && trim(s@).len() == 0);
        match e.body@[i].segments@[k] {
            TextSegment::Literal(s) => {
                assert(trim(s@).len() > 0);
            },
            _ => {},
        }
        assert(says_something(e));
    }
    if says_something(e) {
        let (i, k) = choose|i: int, k: int|
            0 <= i < e.body@.len() && 0 <= k < e.body@[i].segments@.len() && (
            #[trigger] e.body@[i].segments@[k] matches TextSegment::Literal(s) ==> exists|n: int|
                0 <= n < s@.len() && !is_space(#[trigger] s@[n]));
        match e.body@[i].segments@[k] {
            TextSegment::Literal(s) => {
                assert(trim(s@).len() > 0);
            },
            _ => {},
        }
        assert(!is_blank(e.body@[i]));
    }
}

proof fn lemma_trims_to_nothing(s: Seq<char>)
    ensures
        trim(s).len() > 0 <==> exists|n: int| 0 <= n < s.len() && !is_space(#[trigger] s[n]),
{
    trimming_takes_off_whitespace(s);
    let (a, b) = choose|a: int, b: int| #[trigger] is_core_at(s, trim(s), a, b);
    if trim(s).len() > 0 {
        assert(!is_space(s[a]));
    }
}

/// Exactly those entries are reported that stand on a day after today, or in
/// a year after this one.
pub proof fn future_entries_are_reported(today: Today, e: ChangelogEntry, span: Span)
    ensures
        says_at(future_findings(today, e), span) <==> e.data == span && (e.date.year > today.year || (
        exists_on_calendar(e.date) && e.date.year == today.year && (e.date.month.ordinal()
            > today.month || (e.date.month.ordinal() == today.month && e.date.day > today.day)))),
{
    let on = future_findings(today, e);
    if is_future(today, e) {
        lemma_says_one(on[0], span);
        assert(on =~= seq![on[0]]);
    }
}

/// Exactly those entries are reported whose day no month has, or whose year
/// is before 1990 or more than five years from now.
pub proof fn implausible_entries_are_reported(current_year: i32, e: ChangelogEntry, span: Span)
    requires
        0 <= current_year <= 9999,
    ensures
        says_at(implausible_findings(current_year, e), span) <==> e.data == span && (e.date.day == 0
            || e.date.day > 31 || e.date.year < 1990 || e.date.year > current_year + 5),
{
    let on = implausible_findings(current_year, e);
    if implausible(current_year, e) is Some {
        lemma_says_one(on[0], span);
        assert(on =~= seq![on[0]]);
    }
}

/// Exactly those entries are reported whose day exists and has another
/// weekday.
pub proof fn wrong_weekdays_are_reported(e: ChangelogEntry, span: Span)
    ensures
        says_at(weekday_findings(e), span) <==> e.data == span && exists_on_calendar(e.date)
            && e.date.weekday != true_weekday(e.date),
{
    lemma_says_given(
        exists_on_calendar(e.date) && e.date.weekday != true_weekday(e.date),
        weekday_report(e),
        span,
    );
}

} // verus!
