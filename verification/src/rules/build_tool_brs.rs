//! Tools that build scripts call and no package is required for.
use vstd::prelude::*;

use crate::ast::{Span, SpecFile, Tag};
use crate::condition::string_texts;
use crate::diagnostic::{Diagnostic, DiagnosticView, LintCategory, Severity, plain, reports};
use crate::lint::{Identity, Lint, LintMetadata, drain};
use crate::packages::{
    Stated, StatedView, Tags, collect_atoms, collect_top_level_preamble, plain_str, plain_text,
    stated, stated_views, top_level_preamble,
};
use crate::profile::{Family, Profile};
use crate::rules::{given, say};
use crate::shell::{Call, CallView, build_calls, call_views, command_name, literal_word, spec_calls};
use crate::text::same;
use crate::report_laws::{lemma_news, lemma_says_either, lemma_says_given, news, says_at};

verus! {

/// A tool and the package that brings it.
#[derive(Clone, Copy, Debug)]
pub struct ToolPackage {
    pub tool: &'static str,
    pub package: &'static str,
}

pub open spec fn tool_views(v: Seq<ToolPackage>) -> Seq<(Seq<char>, Seq<char>)> {
    v.map_values(|t: ToolPackage| (t.tool@, t.package@))
}

/// The tools that build scripts call, where the packages that bring them are
/// known from the family alone.
pub open spec fn known_tools(profile: Profile) -> Seq<(Seq<char>, Seq<char>)> {
    if profile.family == Some(Family::Fedora) {
        seq![
            ("cmake"@, "cmake"@),
            ("meson"@, "meson"@),
            ("ninja"@, "ninja-build"@),
            ("pkg-config"@, "pkgconfig"@),
        ]
    } else {
        Seq::empty()
    }
}

fn brought_by(tool: &'static str, package: &'static str) -> (r: ToolPackage)
    ensures
        (r.tool@, r.package@) == (tool@, package@),
{
    ToolPackage { tool, package }
}

/// The tools of a profile.
pub fn tools_for_profile(profile: &Profile) -> (r: Vec<ToolPackage>)
    ensures
        tool_views(r@) == known_tools(*profile),
{
    let known = match profile.family {
        Some(Family::Fedora) => true,
        _ => false,
    };
    let mut v: Vec<ToolPackage> = Vec::new();
    if known {
        v.push(brought_by("cmake", "cmake"));
        v.push(brought_by("meson", "meson"));
        v.push(brought_by("ninja", "ninja-build"));
        v.push(brought_by("pkg-config", "pkgconfig"));
    }
    assert(tool_views(v@) =~= known_tools(*profile));
    v
}

/// The package that brings `name`, by the first entry of the table.
pub open spec fn package_of(tools: Seq<(Seq<char>, Seq<char>)>, name: Seq<char>) -> Option<Seq<char>>
    decreases tools.len(),
{
    if tools.len() == 0 {
        None
    } else if tools[0].0 == name {
        Some(tools[0].1)
    } else {
        package_of(tools.skip(1), name)
    }
}

/// The tool that a call is to, and the package that brings it.
pub open spec fn called_tool(tools: Seq<(Seq<char>, Seq<char>)>, c: CallView) -> Option<(Seq<char>, Seq<char>)> {
    match command_name(c.words) {
        None => None,
        Some(name) => match package_of(tools, name) {
            Some(package) => Some((name, package)),
            None => None,
        },
    }
}

/// The names that `BuildRequires:` lines state.
pub open spec fn required(spec: SpecFile) -> Seq<StatedView> {
    stated(top_level_preamble(spec), Tags::One(Tag::BuildRequires))
}

pub open spec fn is_required(atoms: Seq<StatedView>, package: Seq<char>) -> bool {
    exists|i: int| 0 <= i < atoms.len() && plain_text((#[trigger] atoms[i]).atom.name) == Some(package)
}

/// Whether call `n` needs a package that is not required and that no call
/// before it needs.
pub open spec fn is_missing(tools: Seq<(Seq<char>, Seq<char>)>, calls: Seq<CallView>, atoms: Seq<StatedView>, n: int) -> bool {
    match called_tool(tools, calls[n]) {
        None => false,
        Some((_, package)) => !is_required(atoms, package) && !needed_before(tools, calls, n, package),
    }
}

pub open spec fn needed_before(tools: Seq<(Seq<char>, Seq<char>)>, calls: Seq<CallView>, n: int, package: Seq<char>) -> bool {
    exists|j: int|
        0 <= j < n && (called_tool(tools, #[trigger] calls[j]) matches Some(t) && t.1 == package)
}

pub open spec fn missing_report(name: Seq<char>, package: Seq<char>, span: Span) -> DiagnosticView {
    plain("RPM324"@, Severity::Warn, "build script calls `"@ + name + "` but the spec does not declare `BuildRequires: "@ + package + "`; clean-chroot builds will fail with command-not-found"@, span)
}

pub open spec fn missing_at(tools: Seq<(Seq<char>, Seq<char>)>, calls: Seq<CallView>, atoms: Seq<StatedView>, n: int) -> Seq<DiagnosticView> {
    match called_tool(tools, calls[n]) {
        Some((name, package)) => given(
            is_missing(tools, calls, atoms, n),
            missing_report(name, package, calls[n].span),
        ),
        None => Seq::empty(),
    }
}

pub open spec fn first_missing(tools: Seq<(Seq<char>, Seq<char>)>, calls: Seq<CallView>, atoms: Seq<StatedView>, n: nat) -> Seq<DiagnosticView>
    decreases n,
{
    if n == 0 {
        Seq::empty()
    } else {
        first_missing(tools, calls, atoms, (n - 1) as nat) + missing_at(tools, calls, atoms, n - 1)
    }
}

/// One report for each package that build scripts need and that is not
/// required.
pub open spec fn missing_findings(tools: Seq<(Seq<char>, Seq<char>)>, spec: SpecFile) -> Seq<DiagnosticView> {
    first_missing(tools, spec_calls(spec), required(spec), spec_calls(spec).len())
}

fn find_tool(tools: &Vec<ToolPackage>, c: &Call) -> (r: Option<ToolPackage>)
    ensures
        r is Some <==> called_tool(tool_views(tools@), c@) is Some,
        r matches Some(t) ==> called_tool(tool_views(tools@), c@) == Some((t.tool@, t.package@)),
{
    let ghost tv = tool_views(tools@);
    let ghost wv = string_texts(c.words@);
    if c.words.len() == 0 {
        return None;
    }
    assert(wv[0] == c.words@[0]@);
    let name = c.words[0].as_str();
    if !literal_word(name) {
        return None;
    }
    let mut i: usize = 0;
    assert(tv.skip(0) =~= tv);
    while i < tools.len()
        invariant
            i <= tools.len(),
            tv == tool_views(tools@),
            command_name(c@.words) == Some(name@),
            package_of(tv, name@) == package_of(tv.skip(i as int), name@),
        decreases tools.len() - i,
    {
        assert(tv.skip(i as int)[0] == (tools@[i as int].tool@, tools@[i as int].package@));
        assert(tv.skip(i as int).skip(1) =~= tv.skip(i + 1));
        if same(tools[i].tool, name) {
            return Some(tools[i]);
        }
        i = i + 1;
    }
    None
}

fn requires_package(atoms: &Vec<Stated>, package: &str) -> (r: bool)
    ensures
        r == is_required(stated_views(atoms@), package@),
{
    let ghost v = stated_views(atoms@);
    let mut i: usize = 0;
    while i < atoms.len()
        invariant
            i <= atoms.len(),
            v == stated_views(atoms@),
            forall|j: int| 0 <= j < i ==> plain_text((#[trigger] v[j]).atom.name) != Some(package@),
        decreases atoms.len() - i,
    {
        assert(v[i as int] == atoms@[i as int]@);
        match plain_str(&atoms[i].atom.name) {
            Some(n) => {
                if same(n, package) {
                    return true;
                }
            },
            None => {},
        }
        i = i + 1;
    }
    false
}

fn was_needed(tools: &Vec<ToolPackage>, calls: &Vec<Call>, n: usize, package: &str) -> (r: bool)
    requires
        n <= calls.len(),
    ensures
        r == needed_before(tool_views(tools@), call_views(calls@), n as int, package@),
{
    let ghost tv = tool_views(tools@);
    let ghost cv = call_views(calls@);
    let mut j: usize = 0;
    while j < n
        invariant
            j <= n <= calls.len(),
            tv == tool_views(tools@),
            cv == call_views(calls@),
            forall|k: int|
                0 <= k < j ==> !(called_tool(tv, #[trigger] cv[k]) matches Some(t) && t.1 == package@),
        decreases n - j,
    {
        assert(cv[j as int] == calls@[j as int]@);
        match find_tool(tools, &calls[j]) {
            Some(t) => {
                if same(t.package, package) {
                    assert(called_tool(tv, cv[j as int]) matches Some(t) && t.1 == package@);
                    return true;
                }
            },
            None => {},
        }
        j = j + 1;
    }
    false
}

fn report_missing(tools: &Vec<ToolPackage>, calls: &Vec<Call>, atoms: &Vec<Stated>, out: &mut Vec<Diagnostic>)
    ensures
        reports(final(out)@) == reports(old(out)@) + first_missing(
            tool_views(tools@),
            call_views(calls@),
            stated_views(atoms@),
            calls@.len(),
        ),
{
    let ghost tv = tool_views(tools@);
    let ghost cv = call_views(calls@);
    let ghost av = stated_views(atoms@);
    let ghost start = reports(out@);
    let mut i: usize = 0;
    assert(start + first_missing(tv, cv, av, 0) == start);
    while i < calls.len()
        invariant
            i <= calls.len(),
            tv == tool_views(tools@),
            cv == call_views(calls@),
            av == stated_views(atoms@),
            reports(out@) == start + first_missing(tv, cv, av, i as nat),
        decreases calls.len() - i,
    {
        let ghost so_far = first_missing(tv, cv, av, i as nat);
        let ghost here = missing_at(tv, cv, av, i as int);
        assert(cv[i as int] == calls@[i as int]@);
        let mut said = false;
        match find_tool(tools, &calls[i]) {
            Some(t) => {
                if !requires_package(atoms, t.package) && !was_needed(tools, calls, i, t.package) {
                    said = true;
                    let mut message = String::from_str("build script calls `");
                    message.append(t.tool);
                    message.append("` but the spec does not declare `BuildRequires: ");
                    message.append(t.package);
                    message.append("`; clean-chroot builds will fail with command-not-found");
                    say(out, Diagnostic::new("RPM324", Severity::Warn, message.as_str(), calls[i].span));
                }
            },
            None => {},
        }
        proof {
            if !said {
                assert(so_far + here == so_far);
            }
            assert(start + so_far + here == start + (so_far + here));
        }
        i = i + 1;
    }
}

/// RPM324 `build-tool-used-without-buildrequires`: A build script invokes a tool (`cmake`,
/// `meson`, `pkg-config`, ...) without a matching `BuildRequires:`. Clean-chroot builds
/// will fail with command-not-found.
#[derive(Debug)]
pub struct BuildToolUsedWithoutBuildRequires {
    pub diagnostics: Vec<Diagnostic>,
    pub tools: Vec<ToolPackage>,
}

impl BuildToolUsedWithoutBuildRequires {
    pub fn new() -> (r: BuildToolUsedWithoutBuildRequires)
        ensures
            r.pending() == Seq::<DiagnosticView>::empty(),
            r.tools@.len() == 0,
    {
        let r = BuildToolUsedWithoutBuildRequires { diagnostics: Vec::new(), tools: Vec::new() };
        assert(r.pending() =~= Seq::<DiagnosticView>::empty());
        r
    }
}

impl Default for BuildToolUsedWithoutBuildRequires {
    fn default() -> (r: BuildToolUsedWithoutBuildRequires)
        ensures
            r.pending() == Seq::<DiagnosticView>::empty(),
            r.tools@.len() == 0,
    {
        BuildToolUsedWithoutBuildRequires::new()
    }
}

impl Lint for BuildToolUsedWithoutBuildRequires {
    open spec fn identity() -> Identity {
        Identity {
            id: "RPM324"@,
            name: "build-tool-used-without-buildrequires"@,
            description: "A build script invokes a tool (`cmake`, `meson`, `pkg-config`, ...) without a matching `BuildRequires:`. Clean-chroot builds will fail with command-not-found."@,
            default_severity: Severity::Warn,
            category: LintCategory::Correctness,
        }
    }

    open spec fn pending(&self) -> Seq<DiagnosticView> {
        reports(self.diagnostics@)
    }

    open spec fn after(&self, spec: SpecFile) -> Seq<DiagnosticView> {
        self.pending() + missing_findings(tool_views(self.tools@), spec)
    }

    open spec fn same_settings(&self, other: &Self) -> bool {
        self.tools == other.tools
    }

    fn metadata(&self) -> (r: LintMetadata) {
        LintMetadata {
            id: "RPM324",
            name: "build-tool-used-without-buildrequires",
            description: "A build script invokes a tool (`cmake`, `meson`, `pkg-config`, ...) without a matching `BuildRequires:`. Clean-chroot builds will fail with command-not-found.",
            default_severity: Severity::Warn,
            category: LintCategory::Correctness,
        }
    }

    fn visit_spec(&mut self, spec: &SpecFile) {
        let items = collect_top_level_preamble(spec);
        let atoms = collect_atoms(&items, Tags::One(Tag::BuildRequires));
        let calls = build_calls(spec);
        report_missing(&self.tools, &calls, &atoms, &mut self.diagnostics);
    }

    fn take_diagnostics(&mut self) -> (r: Vec<Diagnostic>) {
        drain(&mut self.diagnostics)
    }
}

impl BuildToolUsedWithoutBuildRequires {
    pub fn applies_to_profile(&self, profile: &Profile) -> (r: bool)
        ensures
            r == (known_tools(*profile).len() > 0),
    {
        let tools = tools_for_profile(profile);
        assert(tool_views(tools@).len() == tools@.len());
        tools.len() > 0
    }

    /// Takes the tools from the profile.
    pub fn set_profile(&mut self, profile: &Profile)
        ensures
            tool_views(final(self).tools@) == known_tools(*profile),
            final(self).pending() == old(self).pending(),
    {
        self.tools = tools_for_profile(profile);
    }

    /// Gives the rule another table of tools.
    pub fn set_tools(&mut self, tools: Vec<ToolPackage>)
        ensures
            final(self).tools == tools,
            final(self).pending() == old(self).pending(),
    {
        self.tools = tools;
    }
}

/// Whether the table says that `package` brings `name`: by the first entry
/// that has the name.
pub open spec fn brings(tools: Seq<(Seq<char>, Seq<char>)>, name: Seq<char>, package: Seq<char>) -> bool {
    exists|i: int|
        0 <= i < tools.len() && (#[trigger] tools[i]).0 == name && tools[i].1 == package && forall|
            k: int,
        |
            0 <= k < i ==> (#[trigger] tools[k]).0 != name
}

/// Whether a call is to a tool that `package` brings. A command with a macro
/// or a variable in its name is no tool.
pub open spec fn calls_for(
    tools: Seq<(Seq<char>, Seq<char>)>,
    c: CallView,
    package: Seq<char>,
) -> bool {
    c.words.len() > 0 && !c.words[0].contains('%') && !c.words[0].contains('$') && brings(
        tools,
        c.words[0],
        package,
    )
}

proof fn lemma_brings(tools: Seq<(Seq<char>, Seq<char>)>, name: Seq<char>, package: Seq<char>)
    ensures
        package_of(tools, name) == Some(package) <==> brings(tools, name, package),
    decreases tools.len(),
{
    if tools.len() > 0 {
        let rest = tools.skip(1);
        lemma_brings(rest, name, package);
        if tools[0].0 == name {
            if brings(tools, name, package) {
                let i = choose|i: int|
                    0 <= i < tools.len() && (#[trigger] tools[i]).0 == name && tools[i].1 == package
                        && forall|k: int| 0 <= k < i ==> (#[trigger] tools[k]).0 != name;
                assert(i == 0);
            }
            if tools[0].1 == package {
                assert(brings(tools, name, package));
            }
        } else {
            if brings(tools, name, package) {
                let i = choose|i: int|
                    0 <= i < tools.len() && (#[trigger] tools[i]).0 == name && tools[i].1 == package
                        && forall|k: int| 0 <= k < i ==> (#[trigger] tools[k]).0 != name;
                assert(rest[i - 1] == tools[i]);
                assert forall|k: int| 0 <= k < i - 1 implies (#[trigger] rest[k]).0 != name by {
                    assert(rest[k] == tools[k + 1]);
                }
                assert(brings(rest, name, package));
            }
            if brings(rest, name, package) {
                let i = choose|i: int|
                    0 <= i < rest.len() && (#[trigger] rest[i]).0 == name && rest[i].1 == package
                        && forall|k: int| 0 <= k < i ==> (#[trigger] rest[k]).0 != name;
                assert(tools[i + 1] == rest[i]);
                assert forall|k: int| 0 <= k < i + 1 implies (#[trigger] tools[k]).0 != name by {
                    if k > 0 {
                        assert(rest[k - 1] == tools[k]);
                    }
                }
                assert(brings(tools, name, package));
            }
        }
    }
}

proof fn lemma_calls_for(tools: Seq<(Seq<char>, Seq<char>)>, c: CallView, package: Seq<char>)
    ensures
        calls_for(tools, c, package) <==> (called_tool(tools, c) matches Some(t) && t.1 == package),
{
    if c.words.len() > 0 {
        lemma_brings(tools, c.words[0], package);
    }
}

proof fn lemma_first_needs(
    tools: Seq<(Seq<char>, Seq<char>)>,
    calls: Seq<CallView>,
    atoms: Seq<StatedView>,
    n: nat,
    span: Span,
)
    requires
        n <= calls.len(),
    ensures
        says_at(first_missing(tools, calls, atoms, n), span) <==> exists|i: int, package: Seq<char>|
            0 <= i < n && #[trigger] is_first_need(tools, calls, atoms, i, package)
                && calls[i].span == span,
    decreases n,
{
    if n > 0 {
        let k = n - 1;
        lemma_first_needs(tools, calls, atoms, k as nat, span);
        let here = missing_at(tools, calls, atoms, k);
        lemma_says_either(first_missing(tools, calls, atoms, k as nat), here, span);
        assert forall|package: Seq<char>| #[trigger]
            is_first_need(tools, calls, atoms, k, package) <==> (called_tool(tools, calls[k]) matches
            Some(t) && t.1 == package && is_missing(tools, calls, atoms, k)) by {
            lemma_calls_for(tools, calls[k], package);
            assert forall|j: int| 0 <= j < k implies (#[trigger] calls_for(tools, calls[j], package)
                <==> (called_tool(tools, calls[j]) matches Some(t) && t.1 == package)) by {
                lemma_calls_for(tools, calls[j], package);
            }
            if needed_before(tools, calls, k, package) {
                let j = choose|j: int|
                    0 <= j < k && (called_tool(tools, #[trigger] calls[j]) matches Some(t) && t.1
                        == package);
                assert(calls_for(tools, calls[j], package));
            }
            if exists|j: int| 0 <= j < k && #[trigger] calls_for(tools, calls[j], package) {
                let j = choose|j: int| 0 <= j < k && #[trigger] calls_for(tools, calls[j], package);
                assert(needed_before(tools, calls, k, package));
            }
            assert(is_required(atoms, package) <==> exists|j: int|
                0 <= j < atoms.len() && plain_text((#[trigger] atoms[j]).atom.name) == Some(package));
        }
        match called_tool(tools, calls[k]) {
            Some((name, package)) => {
                lemma_says_given(
                    is_missing(tools, calls, atoms, k),
                    missing_report(name, package, calls[k].span),
                    span,
                );
                if is_missing(tools, calls, atoms, k) {
                    assert(is_first_need(tools, calls, atoms, k, package));
                }
            },
            None => {},
        }
        if says_at(first_missing(tools, calls, atoms, k as nat), span) {
            let (i, package) = choose|i: int, package: Seq<char>|
                0 <= i < k && #[trigger] is_first_need(tools, calls, atoms, i, package)
                    && calls[i].span == span;
            assert(is_first_need(tools, calls, atoms, i, package));
        }
    }
}

/// Whether call `i` is the first that needs `package`, and no dependency is
/// on it.
pub open spec fn is_first_need(
    tools: Seq<(Seq<char>, Seq<char>)>,
    calls: Seq<CallView>,
    atoms: Seq<StatedView>,
    i: int,
    package: Seq<char>,
) -> bool {
    &&& calls_for(tools, calls[i], package)
    &&& forall|j: int| 0 <= j < i ==> !(#[trigger] calls_for(tools, calls[j], package))
    &&& forall|j: int|
        0 <= j < atoms.len() ==> plain_text((#[trigger] atoms[j]).atom.name) != Some(package)
}

/// Exactly those calls are reported that are the first to need a package on
/// which no dependency for building is stated.
pub proof fn missing_dependencies_are_reported(
    rule: BuildToolUsedWithoutBuildRequires,
    spec: SpecFile,
    span: Span,
)
    ensures
        says_at(news(rule, spec), span) <==> exists|i: int, package: Seq<char>|
            0 <= i < spec_calls(spec).len() && #[trigger] is_first_need(
                tool_views(rule.tools@),
                spec_calls(spec),
                stated(top_level_preamble(spec), Tags::One(Tag::BuildRequires)),
                i,
                package,
            ) && spec_calls(spec)[i].span == span,
{
    let tools = tool_views(rule.tools@);
    lemma_news(rule, spec, missing_findings(tools, spec));
    lemma_first_needs(tools, spec_calls(spec), required(spec), spec_calls(spec).len(), span);
}

} // verus!
