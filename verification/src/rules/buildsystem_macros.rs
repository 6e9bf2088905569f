//! Build systems that are called where a macro stands for them.
use vstd::prelude::*;

use crate::ast::{BuildScriptKind, Span, SpecFile};
use crate::condition::string_texts;
use crate::diagnostic::{Diagnostic, DiagnosticView, LintCategory, Severity, plain, reports};
use crate::lint::{Identity, Lint, LintMetadata, drain};
use crate::profile::Profile;
use crate::rules::{given, say};
use crate::shell::{
    Call, CallView, build_calls, call_views, command_name, is_literal, literal_word, spec_calls,
};
use crate::text::{before, has_prefix, opt_view, same, texts};
use crate::report_laws::{lemma_news, lemma_says_either, lemma_says_given, news, says_at};

verus! {

/// The macros that stand for a build system.
pub open spec fn known_macros() -> Seq<Seq<char>> {
    seq![
        "cmake"@,
        "cmake_build"@,
        "cmake_install"@,
        "meson"@,
        "meson_build"@,
        "meson_install"@,
        "cargo_build"@,
        "cargo_install"@,
        "py3_build"@,
        "py3_install"@,
        "pyproject_wheel"@,
        "pyproject_install"@,
        "gobuild"@,
        "goinstall"@,
    ]
}

fn all_known_macros() -> (r: Vec<&'static str>)
    ensures
        texts(r@) == known_macros(),
{
    let mut v: Vec<&'static str> = Vec::new();
    v.push("cmake");
    v.push("cmake_build");
    v.push("cmake_install");
    v.push("meson");
    v.push("meson_build");
    v.push("meson_install");
    v.push("cargo_build");
    v.push("cargo_install");
    v.push("py3_build");
    v.push("py3_install");
    v.push("pyproject_wheel");
    v.push("pyproject_install");
    v.push("gobuild");
    v.push("goinstall");
    assert(texts(v@) =~= known_macros());
    v
}

/// The names of `known` that are among `defined`, in order.
pub open spec fn defined_among(known: Seq<Seq<char>>, defined: Seq<Seq<char>>) -> Seq<Seq<char>>
    decreases known.len(),
{
    if known.len() == 0 {
        Seq::empty()
    } else if defined.contains(known.last()) {
        defined_among(known.drop_last(), defined).push(known.last())
    } else {
        defined_among(known.drop_last(), defined)
    }
}

/// The macros for build systems that a profile defines.
pub open spec fn profile_macros(profile: Profile) -> Seq<Seq<char>> {
    defined_among(known_macros(), string_texts(profile.macros@))
}

/// Whether a word of a command is `w`.
pub open spec fn has_token(ws: Seq<Seq<char>>, w: Seq<char>) -> bool {
    exists|i: int| 0 <= i < ws.len() && #[trigger] ws[i] == w && is_literal(w)
}

/// Whether two words of a command, one after the other, are `v` and `w`.
pub open spec fn has_pair(ws: Seq<Seq<char>>, v: Seq<char>, w: Seq<char>) -> bool {
    exists|i: int|
        0 <= i && i + 1 < ws.len() && #[trigger] ws[i] == v && ws[i + 1] == w && is_literal(v)
            && is_literal(w)
}

/// The first word from `i` on that is literal and not a flag.
pub open spec fn argument_from(ws: Seq<Seq<char>>, i: int) -> Option<Seq<char>>
    decreases ws.len() - i,
{
    if i < 0 || i >= ws.len() {
        None
    } else if is_literal(ws[i]) && !"-"@.is_prefix_of(ws[i]) {
        Some(ws[i])
    } else {
        argument_from(ws, i + 1)
    }
}

/// The macro that stands for a command, whether it is defined or not.
pub open spec fn replacement(ws: Seq<Seq<char>>) -> Option<Seq<char>> {
    let sub = argument_from(ws, 1);
    match command_name(ws) {
        None => None,
        Some(cmd) => if cmd == "cmake"@ {
            if has_token(ws, "--build"@) {
                Some("cmake_build"@)
            } else if has_token(ws, "--install"@) {
                Some("cmake_install"@)
            } else {
                Some("cmake"@)
            }
        } else if cmd == "meson"@ {
            if sub is None || sub == Some("setup"@) {
                Some("meson"@)
            } else if sub == Some("compile"@) {
                Some("meson_build"@)
            } else if sub == Some("install"@) {
                Some("meson_install"@)
            } else {
                None
            }
        } else if cmd == "cargo"@ {
            if sub == Some("build"@) {
                Some("cargo_build"@)
            } else if sub == Some("install"@) {
                Some("cargo_install"@)
            } else {
                None
            }
        } else if cmd == "python"@ || cmd == "python3"@ {
            if has_token(ws, "setup.py"@) {
                if has_token(ws, "build"@) {
                    Some("py3_build"@)
                } else if has_token(ws, "install"@) {
                    Some("py3_install"@)
                } else {
                    None
                }
            } else if has_pair(ws, "-m"@, "build"@) {
                Some("pyproject_wheel"@)
            } else {
                None
            }
        } else if cmd == "go"@ {
            if sub == Some("build"@) {
                Some("gobuild"@)
            } else if sub == Some("install"@) {
                Some("goinstall"@)
            } else {
                None
            }
        } else {
            None
        },
    }
}

/// The defined macro that stands for a call in `%build` or `%install`.
pub open spec fn suggestion(available: Seq<Seq<char>>, c: CallView) -> Option<Seq<char>> {
    if c.kind is Build || c.kind is Install {
        match replacement(c.words) {
            Some(name) => if available.contains(name) {
                Some(name)
            } else {
                None
            },
            None => None,
        }
    } else {
        None
    }
}

/// Whether the same was suggested before in the same section.
pub open spec fn suggested_before(available: Seq<Seq<char>>, calls: Seq<CallView>, n: int, name: Seq<char>) -> bool {
    exists|j: int|
        0 <= j < n && suggestion(available, #[trigger] calls[j]) == Some(name) && calls[j].span.start_byte
            == calls[n].span.start_byte
}

pub open spec fn macro_report(cmd: Seq<char>, name: Seq<char>, span: Span) -> DiagnosticView {
    plain("RPM390"@, Severity::Warn, "build script invokes `"@ + cmd + "` directly; the active profile defines `%"@ + name + "` — prefer the macro so distro hardening flags and per-arch defaults are applied (replace with `%"@ + name + "`)"@, span)
}

pub open spec fn macro_at(available: Seq<Seq<char>>, calls: Seq<CallView>, n: int) -> Seq<DiagnosticView> {
    match suggestion(available, calls[n]) {
        Some(name) => given(
            !suggested_before(available, calls, n, name),
            macro_report(calls[n].words[0], name, calls[n].span),
        ),
        None => Seq::empty(),
    }
}

pub open spec fn first_macros(available: Seq<Seq<char>>, calls: Seq<CallView>, n: nat) -> Seq<DiagnosticView>
    decreases n,
{
    if n == 0 {
        Seq::empty()
    } else {
        first_macros(available, calls, (n - 1) as nat) + macro_at(available, calls, n - 1)
    }
}

/// One report for each macro and section.
pub open spec fn macro_findings(available: Seq<Seq<char>>, spec: SpecFile) -> Seq<DiagnosticView> {
    first_macros(available, spec_calls(spec), spec_calls(spec).len())
}

fn contains_token(ws: &Vec<String>, w: &str) -> (r: bool)
    ensures
        r == has_token(string_texts(ws@), w@),
{
    let ghost t = string_texts(ws@);
    if !literal_word(w) {
        return false;
    }
    let mut i: usize = 0;
    while i < ws.len()
        invariant
            i <= ws.len(),
            t == string_texts(ws@),
            is_literal(w@),
            forall|j: int| 0 <= j < i ==> #[trigger] t[j] != w@,
        decreases ws.len() - i,
    {
        assert(t[i as int] == ws@[i as int]@);
        if same(ws[i].as_str(), w) {
            return true;
        }
        i = i + 1;
    }
    false
}

fn contains_pair(ws: &Vec<String>, v: &str, w: &str) -> (r: bool)
    ensures
        r == has_pair(string_texts(ws@), v@, w@),
{
    let ghost t = string_texts(ws@);
    if !literal_word(v) || !literal_word(w) || ws.len() < 2 {
        return false;
    }
    let mut i: usize = 0;
    while i < ws.len() - 1
        invariant
            2 <= ws.len(),
            i <= ws.len() - 1,
            t == string_texts(ws@),
            is_literal(v@),
            is_literal(w@),
            forall|j: int| 0 <= j < i ==> !(#[trigger] t[j] == v@ && t[j + 1] == w@),
        decreases ws.len() - i,
    {
        assert(t[i as int] == ws@[i as int]@ && t[i + 1] == ws@[i + 1]@);
        if same(ws[i].as_str(), v) && same(ws[i + 1].as_str(), w) {
            return true;
        }
        i = i + 1;
    }
    false
}

fn first_non_flag_arg<'a>(ws: &'a Vec<String>) -> (r: Option<&'a str>)
    ensures
        opt_view(r) == argument_from(string_texts(ws@), 1),
{
    let ghost t = string_texts(ws@);
    if ws.len() == 0 {
        return None;
    }
    let mut i: usize = 1;
    while i < ws.len()
        invariant
            1 <= i <= ws.len(),
            t == string_texts(ws@),
            argument_from(t, 1) == argument_from(t, i as int),
        decreases ws.len() - i,
    {
        assert(t[i as int] == ws@[i as int]@);
        let w = ws[i].as_str();
        if literal_word(w) && !has_prefix(w, "-") {
            return Some(w);
        }
        i = i + 1;
    }
    None
}

fn is_word(w: Option<&str>, expected: &str) -> (r: bool)
    ensures
        r == (opt_view(w) == Some(expected@)),
{
    match w {
        Some(s) => same(s, expected),
        None => false,
    }
}

/// The macro that stands for a command, whether it is defined or not.
pub fn suggest_macro(ws: &Vec<String>) -> (r: Option<&'static str>)
    ensures
        opt_view(r) == replacement(string_texts(ws@)),
{
    let ghost t = string_texts(ws@);
    if ws.len() == 0 {
        return None;
    }
    assert(t[0] == ws@[0]@);
    let cmd = ws[0].as_str();
    if !literal_word(cmd) {
        return None;
    }
    let sub = first_non_flag_arg(ws);
    if same(cmd, "cmake") {
        if contains_token(ws, "--build") {
            Some("cmake_build")
        } else if contains_token(ws, "--install") {
            Some("cmake_install")
        } else {
            Some("cmake")
        }
    } else if same(cmd, "meson") {
        if sub.is_none() || is_word(sub, "setup") {
            Some("meson")
        } else if is_word(sub, "compile") {
            Some("meson_build")
        } else if is_word(sub, "install") {
            Some("meson_install")
        } else {
            None
        }
    } else if same(cmd, "cargo") {
        if is_word(sub, "build") {
            Some("cargo_build")
        } else if is_word(sub, "install") {
            Some("cargo_install")
        } else {
            None
        }
    } else if same(cmd, "python") || same(cmd, "python3") {
        if contains_token(ws, "setup.py") {
            if contains_token(ws, "build") {
                Some("py3_build")
            } else if contains_token(ws, "install") {
                Some("py3_install")
            } else {
                None
            }
        } else if contains_pair(ws, "-m", "build") {
            Some("pyproject_wheel")
        } else {
            None
        }
    } else if same(cmd, "go") {
        if is_word(sub, "build") {
            Some("gobuild")
        } else if is_word(sub, "install") {
            Some("goinstall")
        } else {
            None
        }
    } else {
        None
    }
}

fn lists_name(names: &Vec<String>, name: &str) -> (r: bool)
    ensures
        r == string_texts(names@).contains(name@),
{
    let ghost t = string_texts(names@);
    let mut i: usize = 0;
    while i < names.len()
        invariant
            i <= names.len(),
            t == string_texts(names@),
            forall|j: int| 0 <= j < i ==> #[trigger] t[j] != name@,
        decreases names.len() - i,
    {
        assert(t[i as int] == names@[i as int]@);
        if same(names[i].as_str(), name) {
            return true;
        }
        i = i + 1;
    }
    false
}

fn suggest(available: &Vec<String>, c: &Call) -> (r: Option<&'static str>)
    ensures
        opt_view(r) == suggestion(string_texts(available@), c@),
{
    match c.kind {
        BuildScriptKind::Build | BuildScriptKind::Install => match suggest_macro(&c.words) {
            Some(name) => {
                if lists_name(available, name) {
                    Some(name)
                } else {
                    None
                }
            },
            None => None,
        },
        _ => None,
    }
}

fn was_suggested(available: &Vec<String>, calls: &Vec<Call>, n: usize, name: &str) -> (r: bool)
    requires
        n < calls.len(),
    ensures
        r == suggested_before(string_texts(available@), call_views(calls@), n as int, name@),
{
    let ghost av = string_texts(available@);
    let ghost cv = call_views(calls@);
    assert(cv[n as int] == calls@[n as int]@);
    let mut j: usize = 0;
    while j < n
        invariant
            j <= n < calls.len(),
            av == string_texts(available@),
            cv == call_views(calls@),
            cv[n as int] == calls@[n as int]@,
            forall|k: int|
                0 <= k < j ==> !(suggestion(av, #[trigger] cv[k]) == Some(name@) && cv[k].span.start_byte
                    == cv[n as int].span.start_byte),
        decreases n - j,
    {
        assert(cv[j as int] == calls@[j as int]@);
        if is_word(suggest(available, &calls[j]), name) && calls[j].span.start_byte == calls[n].span.start_byte {
            return true;
        }
        j = j + 1;
    }
    false
}

fn report_macros(available: &Vec<String>, calls: &Vec<Call>, out: &mut Vec<Diagnostic>)
    ensures
        reports(final(out)@) == reports(old(out)@) + first_macros(
            string_texts(available@),
            call_views(calls@),
            calls@.len(),
        ),
{
    let ghost av = string_texts(available@);
    let ghost cv = call_views(calls@);
    let ghost start = reports(out@);
    let mut i: usize = 0;
    assert(start + first_macros(av, cv, 0) == start);
    while i < calls.len()
        invariant
            i <= calls.len(),
            av == string_texts(available@),
            cv == call_views(calls@),
            reports(out@) == start + first_macros(av, cv, i as nat),
        decreases calls.len() - i,
    {
        let ghost so_far = first_macros(av, cv, i as nat);
        let ghost here = macro_at(av, cv, i as int);
        assert(cv[i as int] == calls@[i as int]@);
        let mut said = false;
        match suggest(available, &calls[i]) {
            Some(name) => {
                if !was_suggested(available, calls, i, name) {
                    said = true;
                    assert(cv[i as int].words[0] == calls@[i as int].words@[0]@);
                    let mut message = String::from_str("build script invokes `");
                    message.append(calls[i].words[0].as_str());
                    message.append("` directly; the active profile defines `%");
                    message.append(name);
                    message.append("` — prefer the macro so distro hardening flags and per-arch defaults are applied (replace with `%");
                    message.append(name);
                    message.append("`)");
                    say(out, Diagnostic::new("RPM390", Severity::Warn, message.as_str(), calls[i].span));
                }
            },
            None => {},
        }
        proof {
            if !said {
                assert(so_far + here == so_far);
            }
            assert(start + so_far + here == start + (so_far + here));
        }
        i = i + 1;
    }
}

fn macros_of(profile: &Profile) -> (r: Vec<String>)
    ensures
        string_texts(r@) == profile_macros(*profile),
{
    let known = all_known_macros();
    let ghost kv = known_macros();
    let mut out: Vec<String> = Vec::new();
    let mut i: usize = 0;
    assert(string_texts(out@) =~= defined_among(kv.take(0), string_texts(profile.macros@)));
    while i < known.len()
        invariant
            i <= known.len(),
            texts(known@) == kv,
            string_texts(out@) == defined_among(kv.take(i as int), string_texts(profile.macros@)),
        decreases known.len() - i,
    {
        let ghost before = string_texts(out@);
        assert(kv.take(i + 1).drop_last() == kv.take(i as int));
        assert(kv.take(i + 1).last() == known@[i as int]@) by {
            assert(texts(known@)[i as int] == known@[i as int]@);
        }
        if lists_name(&profile.macros, known[i]) {
            out.push(known[i].to_owned());
            assert(string_texts(out@) =~= before.push(known@[i as int]@));
        }
        i = i + 1;
    }
    assert(kv.take(i as int) == kv);
    out
}

/// RPM390 `buildsystem-macro-modernization`: Build script invokes a build system directly
/// (`cmake`, `meson`, `cargo`, …) instead of the distro's wrapper macro (`%cmake`,
/// `%meson`, `%cargo_build`, …). The wrappers plumb `%{optflags}` and per-arch defaults;
/// bare calls drop them.
#[derive(Debug)]
pub struct BuildsystemMacroModernization {
    pub diagnostics: Vec<Diagnostic>,
    pub available: Vec<String>,
}

impl BuildsystemMacroModernization {
    pub fn new() -> (r: BuildsystemMacroModernization)
        ensures
            r.pending() == Seq::<DiagnosticView>::empty(),
            r.available@.len() == 0,
    {
        let r = BuildsystemMacroModernization { diagnostics: Vec::new(), available: Vec::new() };
        assert(r.pending() =~= Seq::<DiagnosticView>::empty());
        r
    }
}

impl Default for BuildsystemMacroModernization {
    fn default() -> (r: BuildsystemMacroModernization)
        ensures
            r.pending() == Seq::<DiagnosticView>::empty(),
            r.available@.len() == 0,
    {
        BuildsystemMacroModernization::new()
    }
}

impl Lint for BuildsystemMacroModernization {
    open spec fn identity() -> Identity {
        Identity {
            id: "RPM390"@,
            name: "buildsystem-macro-modernization"@,
            description: "Build script invokes a build system directly (`cmake`, `meson`, `cargo`, …) instead of the distro's wrapper macro (`%cmake`, `%meson`, `%cargo_build`, …). The wrappers plumb `%{optflags}` and per-arch defaults; bare calls drop them."@,
            default_severity: Severity::Warn,
            category: LintCategory::Style,
        }
    }

    open spec fn pending(&self) -> Seq<DiagnosticView> {
        reports(self.diagnostics@)
    }

    open spec fn after(&self, spec: SpecFile) -> Seq<DiagnosticView> {
        self.pending() + macro_findings(string_texts(self.available@), spec)
    }

    open spec fn same_settings(&self, other: &Self) -> bool {
        self.available == other.available
    }

    fn metadata(&self) -> (r: LintMetadata) {
        LintMetadata {
            id: "RPM390",
            name: "buildsystem-macro-modernization",
            description: "Build script invokes a build system directly (`cmake`, `meson`, `cargo`, …) instead of the distro's wrapper macro (`%cmake`, `%meson`, `%cargo_build`, …). The wrappers plumb `%{optflags}` and per-arch defaults; bare calls drop them.",
            default_severity: Severity::Warn,
            category: LintCategory::Style,
        }
    }

    fn visit_spec(&mut self, spec: &SpecFile) {
        let calls = build_calls(spec);
        report_macros(&self.available, &calls, &mut self.diagnostics);
    }

    fn take_diagnostics(&mut self) -> (r: Vec<Diagnostic>) {
        drain(&mut self.diagnostics)
    }
}

impl BuildsystemMacroModernization {
    pub fn applies_to_profile(&self, profile: &Profile) -> (r: bool)
        ensures
            r == (profile_macros(*profile).len() > 0),
    {
        let names = macros_of(profile);
        assert(string_texts(names@).len() == names@.len());
        names.len() > 0
    }

    /// Takes the macros from the profile.
    pub fn set_profile(&mut self, profile: &Profile)
        ensures
            string_texts(final(self).available@) == profile_macros(*profile),
            final(self).pending() == old(self).pending(),
    {
        self.available = macros_of(profile);
    }
}

/// Whether a word stands for itself.
pub open spec fn is_plain(w: Seq<char>) -> bool {
    !w.contains('%') && !w.contains('$')
}

/// Whether a command is called by `name` and `arg` is its first argument that
/// is no flag.
pub open spec fn runs(ws: Seq<Seq<char>>, name: Seq<char>, arg: Seq<char>) -> bool {
    &&& ws.len() > 0 && ws[0] == name
    &&& exists|i: int|
        1 <= i < ws.len() && #[trigger] ws[i] == arg && is_plain(arg) && !"-"@.is_prefix_of(arg)
            && forall|k: int|
            1 <= k < i ==> !(is_plain(#[trigger] ws[k]) && !"-"@.is_prefix_of(ws[k]))
}

/// Whether a command is called by `name` with no argument but flags.
pub open spec fn runs_bare(ws: Seq<Seq<char>>, name: Seq<char>) -> bool {
    &&& ws.len() > 0 && ws[0] == name
    &&& forall|k: int|
        1 <= k < ws.len() ==> !(is_plain(#[trigger] ws[k]) && !"-"@.is_prefix_of(ws[k]))
}

proof fn lemma_argument(ws: Seq<Seq<char>>, i: int)
    requires
        1 <= i,
    ensures
        match argument_from(ws, i) {
            Some(arg) => exists|j: int|
                i <= j < ws.len() && #[trigger] ws[j] == arg && is_plain(arg)
                    && !"-"@.is_prefix_of(arg) && forall|k: int|
                    i <= k < j ==> !(is_plain(#[trigger] ws[k]) && !"-"@.is_prefix_of(ws[k])),
            None => forall|k: int|
                i <= k < ws.len() ==> !(is_plain(#[trigger] ws[k]) && !"-"@.is_prefix_of(ws[k])),
        },
    decreases ws.len() - i,
{
    if i < ws.len() && !(is_literal(ws[i]) && !"-"@.is_prefix_of(ws[i])) {
        lemma_argument(ws, i + 1);
    }
}

proof fn lemma_runs(ws: Seq<Seq<char>>, name: Seq<char>, arg: Seq<char>)
    requires
        ws.len() > 0,
        ws[0] == name,
    ensures
        runs(ws, name, arg) <==> argument_from(ws, 1) == Some(arg),
        runs_bare(ws, name) <==> argument_from(ws, 1) is None,
{
    lemma_argument(ws, 1);
    match argument_from(ws, 1) {
        Some(x) => {
            let j = choose|j: int|
                1 <= j < ws.len() && #[trigger] ws[j] == x && is_plain(x) && !"-"@.is_prefix_of(x)
                    && forall|k: int|
                    1 <= k < j ==> !(is_plain(#[trigger] ws[k]) && !"-"@.is_prefix_of(ws[k]));
            if runs(ws, name, arg) {
                let i = choose|i: int|
                    1 <= i < ws.len() && #[trigger] ws[i] == arg && is_plain(arg)
                        && !"-"@.is_prefix_of(arg) && forall|k: int|
                        1 <= k < i ==> !(is_plain(#[trigger] ws[k]) && !"-"@.is_prefix_of(ws[k]));
                assert(i == j) by {
                    if i < j {
                        assert(is_plain(ws[i]));
                    }
                    if j < i {
                        assert(is_plain(ws[j]));
                    }
                }
            }
            assert(is_plain(ws[j]));
        },
        None => {
            if runs(ws, name, arg) {
                let i = choose|i: int|
                    1 <= i < ws.len() && #[trigger] ws[i] == arg && is_plain(arg)
                        && !"-"@.is_prefix_of(arg) && forall|k: int|
                        1 <= k < i ==> !(is_plain(#[trigger] ws[k]) && !"-"@.is_prefix_of(ws[k]));
                assert(is_plain(ws[i]));
            }
        },
    }
}

/// Tools with subcommands are told apart by the first argument that is no
/// flag.
pub proof fn subcommands_have_their_macros(ws: Seq<Seq<char>>)
    ensures
        runs(ws, "cargo"@, "build"@) ==> replacement(ws) == Some("cargo_build"@),
        runs(ws, "cargo"@, "install"@) ==> replacement(ws) == Some("cargo_install"@),
        runs(ws, "go"@, "build"@) ==> replacement(ws) == Some("gobuild"@),
        runs(ws, "go"@, "install"@) ==> replacement(ws) == Some("goinstall"@),
        runs(ws, "meson"@, "compile"@) ==> replacement(ws) == Some("meson_build"@),
        runs(ws, "meson"@, "install"@) ==> replacement(ws) == Some("meson_install"@),
        runs(ws, "meson"@, "setup"@) || runs_bare(ws, "meson"@) ==> replacement(ws) == Some(
            "meson"@,
        ),
        runs_bare(ws, "cargo"@) || runs_bare(ws, "go"@) ==> replacement(ws) is None,
        forall|arg: Seq<char>|
            #![trigger runs(ws, "cargo"@, arg)]
            runs(ws, "cargo"@, arg) && arg != "build"@ && arg != "install"@ ==> replacement(ws) is None,
        forall|arg: Seq<char>|
            #![trigger runs(ws, "go"@, arg)]
            runs(ws, "go"@, arg) && arg != "build"@ && arg != "install"@ ==> replacement(ws) is None,
        forall|arg: Seq<char>|
            #![trigger runs(ws, "meson"@, arg)]
            runs(ws, "meson"@, arg) && arg != "setup"@ && arg != "compile"@ && arg != "install"@
                ==> replacement(ws) is None,
{
    lemma_tool_names();
    if ws.len() > 0 {
        assert forall|arg: Seq<char>|
            #![trigger runs(ws, "cargo"@, arg)]
            #![trigger runs(ws, "go"@, arg)]
            #![trigger runs(ws, "meson"@, arg)]
            runs(ws, ws[0], arg) <==> argument_from(ws, 1) == Some(arg) by {
            lemma_runs(ws, ws[0], arg);
        }
        lemma_runs(ws, ws[0], "build"@);
        lemma_runs(ws, ws[0], "install"@);
        lemma_runs(ws, ws[0], "setup"@);
        lemma_runs(ws, ws[0], "compile"@);
    }
}

proof fn lemma_tool_names()
    ensures
        is_literal("cargo"@) && is_literal("go"@) && is_literal("meson"@) && is_literal("cmake"@),
        is_literal("python"@) && is_literal("python3"@),
        "cargo"@ != "go"@ && "cargo"@ != "meson"@ && "cargo"@ != "cmake"@ && "cargo"@ != "python"@
            && "cargo"@ != "python3"@,
        "go"@ != "meson"@ && "go"@ != "cmake"@ && "go"@ != "python"@ && "go"@ != "python3"@,
        "meson"@ != "cmake"@ && "meson"@ != "python"@ && "meson"@ != "python3"@,
        "cmake"@ != "python"@ && "cmake"@ != "python3"@ && "python"@ != "python3"@,
        "build"@ != "install"@ && "build"@ != "setup"@ && "build"@ != "compile"@,
        "install"@ != "setup"@ && "install"@ != "compile"@ && "setup"@ != "compile"@,
{
    reveal_strlit("cargo");
    reveal_strlit("go");
    reveal_strlit("meson");
    reveal_strlit("cmake");
    reveal_strlit("python");
    reveal_strlit("python3");
    reveal_strlit("build");
    reveal_strlit("install");
    reveal_strlit("setup");
    reveal_strlit("compile");
    assert("cargo"@.len() == 5 && "cargo"@[0] == 'c' && "cargo"@[1] == 'a');
    assert("go"@.len() == 2);
    assert("meson"@.len() == 5 && "meson"@[0] == 'm');
    assert("cmake"@.len() == 5 && "cmake"@[0] == 'c' && "cmake"@[1] == 'm');
    assert("python"@.len() == 6);
    assert("python3"@.len() == 7);
    assert("build"@.len() == 5 && "build"@[0] == 'b');
    assert("setup"@.len() == 5 && "setup"@[0] == 's');
    assert("install"@.len() == 7 && "install"@[0] == 'i');
    assert("compile"@.len() == 7 && "compile"@[0] == 'c');
}

/// Whether one of the words is `w`.
pub open spec fn mentions(ws: Seq<Seq<char>>, w: Seq<char>) -> bool {
    exists|i: int| 0 <= i < ws.len() && #[trigger] ws[i] == w
}

/// `cmake` is told apart by its flags, `python` by what it runs.
pub proof fn flags_have_their_macros(ws: Seq<Seq<char>>)
    requires
        ws.len() > 0,
    ensures
        ws[0] == "cmake"@ && mentions(ws, "--build"@) ==> replacement(ws) == Some("cmake_build"@),
        ws[0] == "cmake"@ && mentions(ws, "--install"@) && !mentions(ws, "--build"@) ==> replacement(
            ws,
        ) == Some("cmake_install"@),
        ws[0] == "cmake"@ && !mentions(ws, "--install"@) && !mentions(ws, "--build"@)
            ==> replacement(ws) == Some("cmake"@),
        (ws[0] == "python"@ || ws[0] == "python3"@) && mentions(ws, "setup.py"@) && mentions(
            ws,
            "build"@,
        ) ==> replacement(ws) == Some("py3_build"@),
        (ws[0] == "python"@ || ws[0] == "python3"@) && mentions(ws, "setup.py"@) && mentions(
            ws,
            "install"@,
        ) && !mentions(ws, "build"@) ==> replacement(ws) == Some("py3_install"@),
        (ws[0] == "python"@ || ws[0] == "python3"@) && !mentions(ws, "setup.py"@) ==> replacement(ws)
            == if exists|i: int|
            0 <= i && i + 1 < ws.len() && #[trigger] ws[i] == "-m"@ && ws[i + 1] == "build"@ {
            Some("pyproject_wheel"@)
        } else {
            None
        },
        ws[0] != "cmake"@ && ws[0] != "meson"@ && ws[0] != "cargo"@ && ws[0] != "go"@ && ws[0]
            != "python"@ && ws[0] != "python3"@ ==> replacement(ws) is None,
{
    lemma_tool_names();
    reveal_strlit("--build");
    reveal_strlit("--install");
    reveal_strlit("setup.py");
    reveal_strlit("build");
    reveal_strlit("install");
    reveal_strlit("-m");
    assert(is_literal("--build"@) && is_literal("--install"@) && is_literal("setup.py"@));
    assert(is_literal("build"@) && is_literal("install"@) && is_literal("-m"@));
    assert(mentions(ws, "--build"@) <==> has_token(ws, "--build"@));
    assert(mentions(ws, "--install"@) <==> has_token(ws, "--install"@));
    assert(mentions(ws, "setup.py"@) <==> has_token(ws, "setup.py"@));
    assert(mentions(ws, "build"@) <==> has_token(ws, "build"@));
    assert(mentions(ws, "install"@) <==> has_token(ws, "install"@));
}

/// Whether a macro that the profile defines stands for a call, which stands
/// in `%build` or `%install`.
pub open spec fn has_macro(available: Seq<Seq<char>>, c: CallView, name: Seq<char>) -> bool {
    &&& c.kind == BuildScriptKind::Build || c.kind == BuildScriptKind::Install
    &&& replacement(c.words) == Some(name)
    &&& available.contains(name)
}

/// Whether call `i` is the first of its section for which the macro stands.
pub open spec fn is_first_use(available: Seq<Seq<char>>, calls: Seq<CallView>, i: int, name: Seq<char>) -> bool {
    &&& has_macro(available, calls[i], name)
    &&& forall|j: int|
        0 <= j < i && #[trigger] has_macro(available, calls[j], name) ==> calls[j].span.start_byte
            != calls[i].span.start_byte
}

proof fn lemma_first_uses(available: Seq<Seq<char>>, calls: Seq<CallView>, n: nat, span: Span)
    requires
        n <= calls.len(),
    ensures
        says_at(first_macros(available, calls, n), span) <==> exists|i: int, name: Seq<char>|
            0 <= i < n && #[trigger] is_first_use(available, calls, i, name) && calls[i].span == span,
    decreases n,
{
    if n > 0 {
        let k = n - 1;
        lemma_first_uses(available, calls, k as nat, span);
        let here = macro_at(available, calls, k);
        lemma_says_either(first_macros(available, calls, k as nat), here, span);
        assert forall|name: Seq<char>| #[trigger]
            is_first_use(available, calls, k, name) <==> (suggestion(available, calls[k]) == Some(
            name,
        ) && !suggested_before(available, calls, k, name)) by {
            assert forall|j: int| 0 <= j < calls.len() implies (#[trigger] has_macro(
                available,
                calls[j],
                name,
            ) <==> suggestion(available, calls[j]) == Some(name)) by {}
            assert(has_macro(available, calls[k], name) <==> suggestion(available, calls[k])
                == Some(name));
            if suggested_before(available, calls, k, name) {
                let j = choose|j: int|
                    0 <= j < k && suggestion(available, #[trigger] calls[j]) == Some(name)
                        && calls[j].span.start_byte == calls[k].span.start_byte;
                assert(has_macro(available, calls[j], name));
            }
        }
        match suggestion(available, calls[k]) {
            Some(name) => {
                lemma_says_given(
                    !suggested_before(available, calls, k, name),
                    macro_report(calls[k].words[0], name, calls[k].span),
                    span,
                );
                if !suggested_before(available, calls, k, name) {
                    assert(is_first_use(available, calls, k, name));
                }
            },
            None => {},
        }
        if says_at(first_macros(available, calls, k as nat), span) {
            let (i, name) = choose|i: int, name: Seq<char>|
                0 <= i < k && #[trigger] is_first_use(available, calls, i, name) && calls[i].span
                    == span;
            assert(is_first_use(available, calls, i, name));
        }
    }
}

/// Exactly those calls are reported that are the first of their section for
/// which a macro stands that the profile defines.
pub proof fn calls_with_macros_are_reported(
    rule: BuildsystemMacroModernization,
    spec: SpecFile,
    span: Span,
)
    ensures
        says_at(news(rule, spec), span) <==> exists|i: int, name: Seq<char>|
            0 <= i < spec_calls(spec).len() && #[trigger] is_first_use(
                string_texts(rule.available@),
                spec_calls(spec),
                i,
                name,
            ) && spec_calls(spec)[i].span == span,
{
    let available = string_texts(rule.available@);
    lemma_news(rule, spec, macro_findings(available, spec));
    lemma_first_uses(available, spec_calls(spec), spec_calls(spec).len(), span);
}

/// The macros that count are those that stand for a build system and that
/// the profile defines.
pub proof fn known_macros_are_kept(known: Seq<Seq<char>>, defined: Seq<Seq<char>>, name: Seq<char>)
    ensures
        defined_among(known, defined).contains(name) <==> known.contains(name) && defined.contains(
            name,
        ),
    decreases known.len(),
{
    if known.len() > 0 {
        let front = known.drop_last();
        let x = known.last();
        known_macros_are_kept(front, defined, name);
        assert(known.contains(name) <==> front.contains(name) || name == x) by {
            assert(known =~= front.push(x));
            if front.contains(name) {
                let i = choose|i: int| 0 <= i < front.len() && front[i] == name;
                assert(known[i] == name);
            }
            assert(known[known.len() - 1] == x);
            if known.contains(name) {
                let i = choose|i: int| 0 <= i < known.len() && known[i] == name;
                if i < front.len() {
                    assert(front[i] == name);
                }
            }
        }
        let rest = defined_among(front, defined);
        let more = rest.push(x);
        assert(more.contains(name) <==> rest.contains(name) || name == x) by {
            assert(more[rest.len() as int] == x);
            if rest.contains(name) {
                let i = choose|i: int| 0 <= i < rest.len() && rest[i] == name;
                assert(more[i] == name);
            }
            if more.contains(name) {
                let i = choose|i: int| 0 <= i < more.len() && more[i] == name;
                if i < rest.len() {
                    assert(rest[i] == name);
                }
            }
        }
    }
}

} // verus!
