//! Constant operands and double negations in `%if` expressions.
use vstd::prelude::*;

use crate::ast::{BinOp, CondBranch, CondExpr, ExprAst, SpecFile, Span};
use crate::diagnostic::{Diagnostic, DiagnosticView, LintCategory, Severity, plain, reports};
use crate::expr::{
    Shape, const_false, const_true, exprs, flatten, is_const_false, is_const_true, operands,
};
use crate::expr_laws::{
    and_chain_means_all, constants_have_their_values, or_chain_means_any, respects_constants, sense,
};
use crate::lint::{Identity, Lint, LintMetadata, drain};
use crate::rules::{BranchRule, branch_findings, given, run_branches, say};
use crate::text::{
    chars, contains, has, has_char, is_space, occurs, occurs_at, opt_view, space, trim, trimmed,
};
use crate::report_laws::{lemma_says_one, says_at};

verus! {

/// `s` with `from`, where it stands, replaced by `to`, from left to right.
pub open spec fn replaced(s: Seq<char>, from: Seq<char>, to: Seq<char>, at: int) -> Seq<char>
    decreases s.len() + 1 - at,
{
    if at < 0 || at >= s.len() {
        Seq::empty()
    } else if from.len() > 0 && occurs_at(s, from, at) {
        to + replaced(s, from, to, at + from.len())
    } else {
        seq![s[at]] + replaced(s, from, to, at + 1)
    }
}

/// `s` without its whitespace.
pub open spec fn unspaced(s: Seq<char>) -> Seq<char>
    decreases s.len(),
{
    if s.len() == 0 {
        Seq::empty()
    } else if is_space(s.last()) {
        unspaced(s.drop_last())
    } else {
        unspaced(s.drop_last()).push(s.last())
    }
}

/// The text that is searched for constant operands: `true` and `false` as
/// digits, and no whitespace.
pub open spec fn normalised(s: Seq<char>) -> Seq<char> {
    unspaced(replaced(replaced(trim(s), "true"@, "1"@, 0), "false"@, "0"@, 0))
}

/// Whether an odd number of quotes stands before `at`.
pub open spec fn quoted(t: Seq<char>, at: int) -> bool
    decreases at,
{
    if at <= 0 {
        false
    } else {
        quoted(t, at - 1) != (t[at - 1] == '"')
    }
}

/// How many round brackets are open before `at`.
pub open spec fn depth(t: Seq<char>, at: int) -> int
    decreases at,
{
    if at <= 0 {
        0
    } else if quoted(t, at - 1) {
        depth(t, at - 1)
    } else if t[at - 1] == '(' {
        depth(t, at - 1) + 1
    } else if t[at - 1] == ')' {
        depth(t, at - 1) - 1
    } else {
        depth(t, at - 1)
    }
}

/// Whether the operator of two `c` stands at `at`, outside brackets and
/// strings.
pub open spec fn operator_at(t: Seq<char>, c: char, at: int) -> bool {
    &&& 0 <= at
    &&& at + 1 < t.len()
    &&& t[at] == c
    &&& t[at + 1] == c
    &&& depth(t, at) == 0
    &&& !quoted(t, at)
}

/// What stands between the operators of two `c`, from `from` on, where none
/// stands before `at`.
pub open spec fn operand_texts(t: Seq<char>, c: char, from: int, at: int) -> Seq<Seq<char>>
    decreases t.len() - at,
{
    if at >= t.len() {
        seq![t.subrange(from, t.len() as int)]
    } else if operator_at(t, c, at) {
        seq![t.subrange(from, at)] + operand_texts(t, c, at + 2, at + 2)
    } else {
        operand_texts(t, c, from, at + 1)
    }
}

/// What a constant operand of an expression text makes of it. Only the
/// operands of the whole text count: those of its `||` outside brackets, or
/// those of its `&&` where there is no such `||`. Texts with macros are left
/// alone.
pub open spec fn text_tautology(s: Seq<char>) -> Option<Seq<char>> {
    let t = normalised(s);
    let either = operand_texts(t, '|', 0, 0);
    let each = operand_texts(t, '&', 0, 0);
    if trim(s).contains('%') {
        None
    } else if either.len() > 1 {
        if either.skip(1).contains(seq!['1']) {
            Some("always-true (`|| 1`)"@)
        } else if either[0] == seq!['1'] {
            Some("always-true (`1 ||`)"@)
        } else {
            None
        }
    } else if each.len() > 1 {
        if each.skip(1).contains(seq!['0']) {
            Some("always-false (`&& 0`)"@)
        } else if each[0] == seq!['0'] {
            Some("always-false (`0 &&`)"@)
        } else {
            None
        }
    } else {
        None
    }
}

/// Whether a macro stands anywhere in `e`.
pub open spec fn mentions_macro(e: ExprAst) -> bool
    decreases e,
{
    match e {
        ExprAst::Integer { .. } => false,
        ExprAst::Identifier { .. } => false,
        ExprAst::String { value, .. } => value@.contains('%'),
        ExprAst::Macro { .. } => true,
        ExprAst::NumericConcat { .. } => true,
        ExprAst::Paren { inner, .. } => mentions_macro(*inner),
        ExprAst::Not { inner, .. } => mentions_macro(*inner),
        ExprAst::Binary { lhs, rhs, .. } => mentions_macro(*lhs) || mentions_macro(*rhs),
    }
}

/// Whether one of `ops` is a constant that counts as true.
pub open spec fn some_true(ops: Seq<ExprAst>) -> bool {
    exists|k: int| 0 <= k < ops.len() && const_true(#[trigger] ops[k])
}

/// Whether one of `ops` is a constant that counts as false.
pub open spec fn some_false(ops: Seq<ExprAst>) -> bool {
    exists|k: int| 0 <= k < ops.len() && const_false(#[trigger] ops[k])
}

/// What a constant operand of a parsed expression makes of all of it.
pub open spec fn whole_tautology(e: ExprAst) -> Option<Seq<char>> {
    let either = operands(e, BinOp::LogOr);
    let each = operands(e, BinOp::LogAnd);
    if either.len() > 1 && some_true(either) {
        Some("always-true (`|| 1`)"@)
    } else if each.len() > 1 && some_false(each) {
        Some("always-false (`&& 0`)"@)
    } else {
        None
    }
}

/// What a constant operand makes of the first part of a parsed expression
/// that has one.
pub open spec fn expr_tautology(e: ExprAst) -> Option<Seq<char>>
    decreases e,
{
    match e {
        ExprAst::Paren { inner, .. } => expr_tautology(*inner),
        ExprAst::Not { inner, .. } => expr_tautology(*inner),
        ExprAst::Binary { kind, lhs, rhs, .. } if kind is LogOr => if const_true(*lhs) || const_true(
            *rhs,
        ) {
            Some("always-true (`|| 1`)"@)
        } else if expr_tautology(*lhs) is Some {
            expr_tautology(*lhs)
        } else {
            expr_tautology(*rhs)
        },
        ExprAst::Binary { kind, lhs, rhs, .. } if kind is LogAnd => if const_false(*lhs) || const_false(
            *rhs,
        ) {
            Some("always-false (`&& 0`)"@)
        } else if expr_tautology(*lhs) is Some {
            expr_tautology(*lhs)
        } else {
            expr_tautology(*rhs)
        },
        _ => None,
    }
}

/// What a constant operand of a condition makes of all of it. Conditions with
/// macros are left alone.
pub open spec fn tautology(c: CondExpr) -> Option<Seq<char>> {
    match c {
        CondExpr::Raw(t) => match t.literal() {
            Some(s) => text_tautology(s),
            None => None,
        },
        CondExpr::Parsed(e) => if mentions_macro(*e) {
            None
        } else {
            whole_tautology(*e)
        },
        CondExpr::ArchList(_) => None,
    }
}

/// What a constant operand makes of a part of a condition, where none makes
/// anything of all of it.
pub open spec fn inner_tautology(c: CondExpr) -> Option<Seq<char>> {
    match c {
        CondExpr::Parsed(e) => if mentions_macro(*e) || whole_tautology(*e) is Some {
            None
        } else {
            expr_tautology(*e)
        },
        _ => None,
    }
}

fn append_chars(out: &mut Vec<char>, v: &Vec<char>)
    ensures
        final(out)@ == old(out)@ + v@,
{
    let mut i: usize = 0;
    assert(out@ + v@.take(0) =~= out@);
    while i < v.len()
        invariant
            i <= v.len(),
            out@ == old(out)@ + v@.take(i as int),
        decreases v.len() - i,
    {
        out.push(v[i]);
        assert(old(out)@ + v@.take(i + 1) =~= (old(out)@ + v@.take(i as int)).push(v@[i as int]));
        i = i + 1;
    }
    assert(v@.take(i as int) == v@);
}

fn replace_chars(s: &Vec<char>, from: &str, to: &str) -> (r: Vec<char>)
    requires
        from@.len() > 0,
    ensures
        r@ == replaced(s@, from@, to@, 0),
{
    let f = chars(from);
    let t = chars(to);
    let mut out: Vec<char> = Vec::new();
    let mut i: usize = 0;
    assert(out@ + replaced(s@, from@, to@, 0) =~= replaced(s@, from@, to@, 0));
    while i < s.len()
        invariant
            i <= s.len(),
            f@ == from@,
            t@ == to@,
            from@.len() > 0,
            out@ + replaced(s@, from@, to@, i as int) == replaced(s@, from@, to@, 0),
        decreases s.len() - i,
    {
        let ghost done = out@;
        if occurs(s, &f, i) {
            append_chars(&mut out, &t);
            assert(done + (to@ + replaced(s@, from@, to@, i + from@.len())) =~= done + to@ + replaced(
                s@,
                from@,
                to@,
                i + from@.len(),
            ));
            i = i + f.len();
        } else {
            out.push(s[i]);
            assert(done + (seq![s@[i as int]] + replaced(s@, from@, to@, i + 1)) =~= done.push(
                s@[i as int],
            ) + replaced(s@, from@, to@, i + 1));
            i = i + 1;
        }
    }
    assert(out@ + replaced(s@, from@, to@, i as int) =~= out@);
    out
}

fn drop_spaces(s: &Vec<char>) -> (r: Vec<char>)
    ensures
        r@ == unspaced(s@),
{
    let mut out: Vec<char> = Vec::new();
    let mut i: usize = 0;
    while i < s.len()
        invariant
            i <= s.len(),
            out@ == unspaced(s@.take(i as int)),
        decreases s.len() - i,
    {
        assert(s@.take(i + 1).drop_last() == s@.take(i as int));
        if !space(s[i]) {
            out.push(s[i]);
        }
        i = i + 1;
    }
    assert(s@.take(i as int) == s@);
    out
}

fn slice_chars(t: &Vec<char>, from: usize, to: usize) -> (r: Vec<char>)
    requires
        from <= to <= t.len(),
    ensures
        r@ == t@.subrange(from as int, to as int),
{
    let mut out: Vec<char> = Vec::new();
    let mut i: usize = from;
    while i < to
        invariant
            from <= i <= to <= t.len(),
            out@ == t@.subrange(from as int, i as int),
        decreases to - i,
    {
        out.push(t[i]);
        assert(out@ =~= t@.subrange(from as int, i + 1));
        i = i + 1;
    }
    out
}

/// The contents of lists of characters.
spec fn rows(v: Seq<Vec<char>>) -> Seq<Seq<char>> {
    v.map_values(|r: Vec<char>| r@)
}

fn split_operands(t: &Vec<char>, c: char) -> (r: Vec<Vec<char>>)
    requires
        c == '|' || c == '&',
    ensures
        rows(r@) == operand_texts(t@, c, 0, 0),
        r.len() >= 1,
{
    let mut out: Vec<Vec<char>> = Vec::new();
    let mut open: i128 = 0;
    let mut inside: bool = false;
    let mut from: usize = 0;
    let mut i: usize = 0;
    assert(rows(out@) + operand_texts(t@, c, 0, 0) =~= operand_texts(t@, c, 0, 0));
    while i < t.len()
        invariant
            c == '|' || c == '&',
            from <= i <= t.len(),
            open == depth(t@, i as int),
            -i <= open <= i,
            inside == quoted(t@, i as int),
            rows(out@) + operand_texts(t@, c, from as int, i as int) == operand_texts(t@, c, 0, 0),
        decreases t.len() - i,
    {
        let ghost done = rows(out@);
        if i + 1 < t.len() && t[i] == c && t[i + 1] == c && open == 0 && !inside {
            let piece = slice_chars(t, from, i);
            let ghost rest = operand_texts(t@, c, i + 2, i + 2);
            assert(operator_at(t@, c, i as int));
            out.push(piece);
            assert(rows(out@) + rest =~= done + (seq![t@.subrange(from as int, i as int)] + rest));
            assert(depth(t@, i + 1) == 0 && !quoted(t@, i + 1));
            i = i + 2;
            from = i;
        } else {
            assert(!operator_at(t@, c, i as int));
            if t[i] == '"' {
                inside = !inside;
            } else if !inside && t[i] == '(' {
                open = open + 1;
            } else if !inside && t[i] == ')' {
                open = open - 1;
            }
            i = i + 1;
        }
    }
    let last = slice_chars(t, from, i);
    let ghost done = rows(out@);
    out.push(last);
    assert(rows(out@) =~= done + seq![t@.subrange(from as int, t@.len() as int)]);
    out
}

fn only_char(v: &Vec<char>, c: char) -> (r: bool)
    ensures
        r == (v@ == seq![c]),
{
    let r = v.len() == 1 && v[0] == c;
    assert(r ==> v@ =~= seq![c]);
    r
}

fn later_is(v: &Vec<Vec<char>>, c: char) -> (r: bool)
    requires
        v.len() >= 1,
    ensures
        r == rows(v@).skip(1).contains(seq![c]),
{
    let mut i: usize = 1;
    while i < v.len()
        invariant
            1 <= i <= v.len(),
            forall|k: int| 1 <= k < i ==> rows(v@)[k] != seq![c],
        decreases v.len() - i,
    {
        assert(rows(v@)[i as int] == v@[i as int]@);
        if only_char(&v[i], c) {
            assert(rows(v@).skip(1)[i - 1] == seq![c]);
            return true;
        }
        i = i + 1;
    }
    assert forall|k: int| 0 <= k < rows(v@).skip(1).len() implies rows(v@).skip(1)[k] != seq![c] by {
        assert(rows(v@).skip(1)[k] == rows(v@)[k + 1]);
    }
    false
}

fn detect_tautology(s: &str) -> (r: Option<&'static str>)
    ensures
        opt_view(r) == text_tautology(s@),
{
    let t = trimmed(s);
    if has_char(t, '%') {
        return None;
    }
    proof {
        reveal_strlit("true");
        reveal_strlit("false");
    }
    let ones = replace_chars(&chars(t), "true", "1");
    let norm = drop_spaces(&replace_chars(&ones, "false", "0"));
    let either = split_operands(&norm, '|');
    if either.len() > 1 {
        assert(rows(either@)[0] == either@[0]@);
        if later_is(&either, '1') {
            return Some("always-true (`|| 1`)");
        }
        if only_char(&either[0], '1') {
            return Some("always-true (`1 ||`)");
        }
        return None;
    }
    let each = split_operands(&norm, '&');
    if each.len() > 1 {
        assert(rows(each@)[0] == each@[0]@);
        if later_is(&each, '0') {
            return Some("always-false (`&& 0`)");
        }
        if only_char(&each[0], '0') {
            return Some("always-false (`0 &&`)");
        }
    }
    None
}

fn any_const(ops: &Vec<&ExprAst>, value: bool) -> (r: bool)
    ensures
        r == (if value {
            some_true(exprs(ops@))
        } else {
            some_false(exprs(ops@))
        }),
{
    let mut i: usize = 0;
    while i < ops.len()
        invariant
            i <= ops.len(),
            forall|k: int|
                0 <= k < i ==> !(if value {
                    const_true(#[trigger] exprs(ops@)[k])
                } else {
                    const_false(exprs(ops@)[k])
                }),
        decreases ops.len() - i,
    {
        assert(exprs(ops@)[i as int] == *ops@[i as int]);
        if value && is_const_true(ops[i]) {
            return true;
        }
        if !value && is_const_false(ops[i]) {
            return true;
        }
        i = i + 1;
    }
    false
}

fn detect_whole(e: &ExprAst) -> (r: Option<&'static str>)
    ensures
        opt_view(r) == whole_tautology(*e),
{
    let either = flatten(e, BinOp::LogOr);
    if either.len() > 1 && any_const(&either, true) {
        return Some("always-true (`|| 1`)");
    }
    let each = flatten(e, BinOp::LogAnd);
    if each.len() > 1 && any_const(&each, false) {
        return Some("always-false (`&& 0`)");
    }
    None
}

fn find_macro(e: &ExprAst) -> (r: bool)
    ensures
        r == mentions_macro(*e),
    decreases e,
{
    match e {
        ExprAst::Integer { .. } => false,
        ExprAst::Identifier { .. } => false,
        ExprAst::String { value, .. } => has_char(value.as_str(), '%'),
        ExprAst::Macro { .. } => true,
        ExprAst::NumericConcat { .. } => true,
        ExprAst::Paren { inner, .. } => find_macro(inner),
        ExprAst::Not { inner, .. } => find_macro(inner),
        ExprAst::Binary { lhs, rhs, .. } => find_macro(lhs) || find_macro(rhs),
    }
}

fn detect_tautology_ast(e: &ExprAst) -> (r: Option<&'static str>)
    ensures
        opt_view(r) == expr_tautology(*e),
    decreases e,
{
    match e {
        ExprAst::Paren { inner, .. } => detect_tautology_ast(inner),
        ExprAst::Not { inner, .. } => detect_tautology_ast(inner),
        ExprAst::Binary { kind, lhs, rhs, .. } => {
            match kind {
                BinOp::LogOr => {
                    if is_const_true(lhs) || is_const_true(rhs) {
                        return Some("always-true (`|| 1`)");
                    }
                },
                BinOp::LogAnd => {
                    if is_const_false(lhs) || is_const_false(rhs) {
                        return Some("always-false (`&& 0`)");
                    }
                },
                _ => {
                    return None;
                },
            }
            match detect_tautology_ast(lhs) {
                Some(t) => Some(t),
                None => detect_tautology_ast(rhs),
            }
        },
        _ => None,
    }
}

fn tautology_label(c: &CondExpr) -> (r: Option<&'static str>)
    ensures
        opt_view(r) == tautology(*c),
{
    match c {
        CondExpr::Raw(t) => match t.literal_str() {
            Some(s) => detect_tautology(s),
            None => None,
        },
        CondExpr::Parsed(e) => if find_macro(e) {
            None
        } else {
            detect_whole(e)
        },
        CondExpr::ArchList(_) => None,
    }
}

fn inner_label(c: &CondExpr) -> (r: Option<&'static str>)
    ensures
        opt_view(r) == inner_tautology(*c),
{
    match c {
        CondExpr::Parsed(e) => if find_macro(e) || detect_whole(e).is_some() {
            None
        } else {
            detect_tautology_ast(e)
        },
        _ => None,
    }
}

/// RPM085 `constant-tautology-in-expr`: Expression contains a constant operand (`|| 1`, `&&
/// 0`, …) that fixes the result.
#[derive(Debug)]
pub struct ConstantTautologyInExpr {
    pub diagnostics: Vec<Diagnostic>,
}

impl ConstantTautologyInExpr {
    pub fn new() -> (r: ConstantTautologyInExpr)
        ensures
            r.pending() == Seq::<DiagnosticView>::empty(),
    {
        let r = ConstantTautologyInExpr { diagnostics: Vec::new() };
        assert(r.pending() =~= Seq::<DiagnosticView>::empty());
        r
    }
}

impl Default for ConstantTautologyInExpr {
    fn default() -> (r: ConstantTautologyInExpr)
        ensures
            r.pending() == Seq::<DiagnosticView>::empty(),
    {
        ConstantTautologyInExpr::new()
    }
}

impl Lint for ConstantTautologyInExpr {
    open spec fn identity() -> Identity {
        Identity {
            id: "RPM085"@,
            name: "constant-tautology-in-expr"@,
            description: "Expression contains a constant operand (`|| 1`, `&& 0`, …) that fixes the result."@,
            default_severity: Severity::Warn,
            category: LintCategory::Style,
        }
    }

    open spec fn pending(&self) -> Seq<DiagnosticView> {
        reports(self.diagnostics@)
    }

    open spec fn after(&self, spec: SpecFile) -> Seq<DiagnosticView> {
        self.pending() + branch_findings::<ConstantTautologyInExpr>(&(), spec)
    }

    open spec fn same_settings(&self, other: &Self) -> bool {
        true
    }

    fn metadata(&self) -> (r: LintMetadata) {
        LintMetadata {
            id: "RPM085",
            name: "constant-tautology-in-expr",
            description: "Expression contains a constant operand (`|| 1`, `&& 0`, …) that fixes the result.",
            default_severity: Severity::Warn,
            category: LintCategory::Style,
        }
    }

    fn visit_spec(&mut self, spec: &SpecFile) {
        run_branches::<ConstantTautologyInExpr>(&(), spec, &mut self.diagnostics);
    }

    fn take_diagnostics(&mut self) -> (r: Vec<Diagnostic>) {
        drain(&mut self.diagnostics)
    }
}

impl BranchRule for ConstantTautologyInExpr {
    type Settings = ();

    open spec fn on_branch(_settings: &(), branch: CondBranch) -> Seq<DiagnosticView> {
        match tautology(branch.expr) {
            Some(label) => seq![tautology_report("condition is "@ + label, branch)],
            None => match inner_tautology(branch.expr) {
                Some(label) => seq![tautology_report("part of the condition is "@ + label, branch)],
                None => Seq::empty(),
            },
        }
    }

    fn check_branch(_settings: &(), branch: &CondBranch, out: &mut Vec<Diagnostic>) {
        match tautology_label(&branch.expr) {
            Some(label) => {
                report_tautology("condition is ", label, branch, out);
            },
            None => match inner_label(&branch.expr) {
                Some(label) => {
                    report_tautology("part of the condition is ", label, branch, out);
                },
                None => {
                    assert(reports(out@) + Seq::<DiagnosticView>::empty() == reports(out@));
                },
            },
        }
    }
}

pub open spec fn tautology_report(claim: Seq<char>, branch: CondBranch) -> DiagnosticView {
    plain("RPM085"@, Severity::Warn, claim + "; simplify or drop the guard"@, branch.data).advise(
        "drop the constant operand and re-check the rest of the expression"@,
    )
}

fn report_tautology(subject: &str, label: &str, branch: &CondBranch, out: &mut Vec<Diagnostic>)
    ensures
        reports(final(out)@) == reports(old(out)@) + seq![tautology_report(subject@ + label@, *branch)],
{
    let mut message = String::from_str(subject);
    message.append(label);
    message.append("; simplify or drop the guard");
    say(
        out,
        Diagnostic::new("RPM085", Severity::Warn, message.as_str(), branch.data).with_advice(
            "drop the constant operand and re-check the rest of the expression",
        ),
    );
}

/// A condition that is reported as always true or always false has that value
/// whatever its other operands are.
pub proof fn reported_condition_is_fixed(e: ExprAst, val: spec_fn(Shape) -> bool)
    requires
        respects_constants(val),
        whole_tautology(e) is Some,
    ensures
        whole_tautology(e) == Some(
            if sense(e, val) {
                "always-true (`|| 1`)"@
            } else {
                "always-false (`&& 0`)"@
            },
        ),
{
    let either = operands(e, BinOp::LogOr);
    let each = operands(e, BinOp::LogAnd);
    if either.len() > 1 && some_true(either) {
        let k = choose|k: int| 0 <= k < either.len() && const_true(#[trigger] either[k]);
        constants_have_their_values(either[k], val);
        or_chain_means_any(e, val);
    } else {
        let k = choose|k: int| 0 <= k < each.len() && const_false(#[trigger] each[k]);
        constants_have_their_values(each[k], val);
        and_chain_means_all(e, val);
    }
}

/// Whether `sub` is `e` or stands somewhere in it.
pub open spec fn part_of(sub: ExprAst, e: ExprAst) -> bool
    decreases e,
{
    sub == e || match e {
        ExprAst::Paren { inner, .. } => part_of(sub, *inner),
        ExprAst::Not { inner, .. } => part_of(sub, *inner),
        ExprAst::Binary { lhs, rhs, .. } => part_of(sub, *lhs) || part_of(sub, *rhs),
        _ => false,
    }
}

proof fn lemma_constant_operand(e: ExprAst, op: BinOp)
    ensures
        operands(e, op).len() >= 1,
        const_true(e) || const_false(e) ==> operands(e, op) == seq![e.bare()],
        const_true(e) ==> const_true(e.bare()),
        const_false(e) ==> const_false(e.bare()),
    decreases e,
{
    match e {
        ExprAst::Paren { inner, .. } => lemma_constant_operand(*inner, op),
        ExprAst::Binary { kind, lhs, rhs, .. } => {
            lemma_constant_operand(*lhs, op);
            lemma_constant_operand(*rhs, op);
        },
        _ => {},
    }
}

/// What is reported of a part of a condition holds of that part: one of its
/// expressions has a constant operand, which makes of it what is said.
pub proof fn inner_report_is_about_a_part(e: ExprAst)
    requires
        expr_tautology(e) is Some,
    ensures
        exists|sub: ExprAst|
            #[trigger] part_of(sub, e) && whole_tautology(sub) == expr_tautology(e),
    decreases e,
{
    match e {
        ExprAst::Paren { inner, .. } => {
            inner_report_is_about_a_part(*inner);
            lemma_inside(e, *inner);
        },
        ExprAst::Not { inner, .. } => {
            inner_report_is_about_a_part(*inner);
            lemma_inside(e, *inner);
        },
        ExprAst::Binary { kind, lhs, rhs, .. } => {
            lemma_constant_operand(*lhs, kind);
            lemma_constant_operand(*rhs, kind);
            let ops = operands(e, kind);
            let l = operands(*lhs, kind);
            let r = operands(*rhs, kind);
            assert(ops == l + r);
            assert(ops[0] == l[0] && ops[l.len() as int] == r[0]);
            if kind is LogOr && (const_true(*lhs) || const_true(*rhs)) {
                assert(const_true(ops[0]) || const_true(ops[l.len() as int]));
                assert(part_of(e, e));
            } else if kind is LogAnd && (const_false(*lhs) || const_false(*rhs)) {
                assert(const_false(ops[0]) || const_false(ops[l.len() as int]));
                assert(operands(e, BinOp::LogOr).len() == 1);
                assert(part_of(e, e));
            } else if expr_tautology(*lhs) is Some {
                inner_report_is_about_a_part(*lhs);
                lemma_inside(e, *lhs);
            } else {
                inner_report_is_about_a_part(*rhs);
                lemma_inside(e, *rhs);
            }
        },
        _ => {},
    }
}

proof fn lemma_inside(e: ExprAst, child: ExprAst)
    requires
        match e {
            ExprAst::Paren { inner, .. } => child == *inner,
            ExprAst::Not { inner, .. } => child == *inner,
            ExprAst::Binary { lhs, rhs, .. } => child == *lhs || child == *rhs,
            _ => false,
        },
        exists|sub: ExprAst|
            #[trigger] part_of(sub, child) && whole_tautology(sub) == expr_tautology(child),
    ensures
        expr_tautology(e) == expr_tautology(child) ==> exists|sub: ExprAst|
            #[trigger] part_of(sub, e) && whole_tautology(sub) == expr_tautology(e),
{
    let sub = choose|sub: ExprAst|
        #[trigger] part_of(sub, child) && whole_tautology(sub) == expr_tautology(child);
    assert(part_of(sub, e));
}

/// A condition that is fixed as a whole has a part that is: no report on a
/// whole is lost by looking at parts.
pub proof fn fixed_whole_has_a_fixed_part(e: ExprAst)
    requires
        whole_tautology(e) is Some,
    ensures
        expr_tautology(e) is Some,
{
    let either = operands(e, BinOp::LogOr);
    if either.len() > 1 && some_true(either) {
        lemma_fixed_chain(e, BinOp::LogOr);
    } else {
        lemma_fixed_chain(e, BinOp::LogAnd);
    }
}

proof fn lemma_fixed_chain(e: ExprAst, op: BinOp)
    requires
        operands(e, op).len() > 1,
        op is LogOr && some_true(operands(e, op)) || op is LogAnd && some_false(operands(e, op)),
    ensures
        expr_tautology(e) is Some,
    decreases e,
{
    match e {
        ExprAst::Paren { inner, .. } => lemma_fixed_chain(*inner, op),
        ExprAst::Binary { kind, lhs, rhs, .. } if kind == op => {
            let l = operands(*lhs, op);
            let r = operands(*rhs, op);
            let ops = l + r;
            let k = choose|k: int|
                0 <= k < ops.len() && (if op is LogOr {
                    const_true(#[trigger] ops[k])
                } else {
                    const_false(ops[k])
                });
            if k < l.len() {
                assert(ops[k] == l[k]);
                if l.len() > 1 {
                    lemma_fixed_chain(*lhs, op);
                } else {
                    lemma_single_operand(*lhs, op);
                }
            } else {
                assert(ops[k] == r[k - l.len()]);
                if r.len() > 1 {
                    lemma_fixed_chain(*rhs, op);
                } else {
                    lemma_single_operand(*rhs, op);
                }
            }
        },
        _ => {},
    }
}

proof fn lemma_single_operand(e: ExprAst, op: BinOp)
    requires
        operands(e, op).len() == 1,
    ensures
        const_true(operands(e, op)[0]) == const_true(e),
        const_false(operands(e, op)[0]) == const_false(e),
    decreases e,
{
    match e {
        ExprAst::Paren { inner, .. } => lemma_single_operand(*inner, op),
        ExprAst::Binary { kind, lhs, rhs, .. } if kind == op => {
            lemma_constant_operand(*lhs, op);
            lemma_constant_operand(*rhs, op);
        },
        _ => {},
    }
}

/// Whether `!!X` stands anywhere in `e`.
pub open spec fn has_double_negation(e: ExprAst) -> bool
    decreases e,
{
    match e {
        ExprAst::Not { inner, .. } => inner.bare() is Not || has_double_negation(*inner),
        ExprAst::Paren { inner, .. } => has_double_negation(*inner),
        ExprAst::Binary { lhs, rhs, .. } => has_double_negation(*lhs) || has_double_negation(*rhs),
        _ => false,
    }
}

pub open spec fn doubly_negated(c: CondExpr) -> bool {
    match c {
        CondExpr::Raw(t) => match t.literal() {
            Some(s) => contains(s, "!!"@),
            None => false,
        },
        CondExpr::Parsed(e) => has_double_negation(*e),
        CondExpr::ArchList(_) => false,
    }
}

fn find_double_negation(e: &ExprAst) -> (r: bool)
    ensures
        r == has_double_negation(*e),
    decreases e,
{
    match e {
        ExprAst::Not { inner, .. } => matches!(inner.peel_parens(), ExprAst::Not { .. })
            || find_double_negation(inner),
        ExprAst::Paren { inner, .. } => find_double_negation(inner),
        ExprAst::Binary { lhs, rhs, .. } => find_double_negation(lhs) || find_double_negation(rhs),
        _ => false,
    }
}

fn negates_twice(c: &CondExpr) -> (r: bool)
    ensures
        r == doubly_negated(*c),
{
    match c {
        CondExpr::Raw(t) => match t.literal_str() {
            Some(s) => has(s, "!!"),
            None => false,
        },
        CondExpr::Parsed(e) => find_double_negation(e),
        CondExpr::ArchList(_) => false,
    }
}

/// RPM087 `double-negation-in-expr`: Double negation (`!!`) in `%if` expression — drop it.
#[derive(Debug)]
pub struct DoubleNegationInExpr {
    pub diagnostics: Vec<Diagnostic>,
}

impl DoubleNegationInExpr {
    pub fn new() -> (r: DoubleNegationInExpr)
        ensures
            r.pending() == Seq::<DiagnosticView>::empty(),
    {
        let r = DoubleNegationInExpr { diagnostics: Vec::new() };
        assert(r.pending() =~= Seq::<DiagnosticView>::empty());
        r
    }
}

impl Default for DoubleNegationInExpr {
    fn default() -> (r: DoubleNegationInExpr)
        ensures
            r.pending() == Seq::<DiagnosticView>::empty(),
    {
        DoubleNegationInExpr::new()
    }
}

impl Lint for DoubleNegationInExpr {
    open spec fn identity() -> Identity {
        Identity {
            id: "RPM087"@,
            name: "double-negation-in-expr"@,
            description: "Double negation (`!!`) in `%if` expression — drop it."@,
            default_severity: Severity::Warn,
            category: LintCategory::Style,
        }
    }

    open spec fn pending(&self) -> Seq<DiagnosticView> {
        reports(self.diagnostics@)
    }

    open spec fn after(&self, spec: SpecFile) -> Seq<DiagnosticView> {
        self.pending() + branch_findings::<DoubleNegationInExpr>(&(), spec)
    }

    open spec fn same_settings(&self, other: &Self) -> bool {
        true
    }

    fn metadata(&self) -> (r: LintMetadata) {
        LintMetadata {
            id: "RPM087",
            name: "double-negation-in-expr",
            description: "Double negation (`!!`) in `%if` expression — drop it.",
            default_severity: Severity::Warn,
            category: LintCategory::Style,
        }
    }

    fn visit_spec(&mut self, spec: &SpecFile) {
        run_branches::<DoubleNegationInExpr>(&(), spec, &mut self.diagnostics);
    }

    fn take_diagnostics(&mut self) -> (r: Vec<Diagnostic>) {
        drain(&mut self.diagnostics)
    }
}

impl BranchRule for DoubleNegationInExpr {
    type Settings = ();

    open spec fn on_branch(_settings: &(), branch: CondBranch) -> Seq<DiagnosticView> {
        given(
            doubly_negated(branch.expr),
            plain("RPM087"@, Severity::Warn, "double negation `!!` is redundant — drop it"@, branch.data).advise("remove the two `!` characters"@),
        )
    }

    fn check_branch(_settings: &(), branch: &CondBranch, out: &mut Vec<Diagnostic>) {
        if negates_twice(&branch.expr) {
            say(out, Diagnostic::new("RPM087", Severity::Warn, "double negation `!!` is redundant — drop it", branch.data).with_advice("remove the two `!` characters"));
        } else {
            assert(reports(out@) + Seq::<DiagnosticView>::empty() == reports(out@));
        }
    }
}

/// Whether a part of `e` is as asked.
pub open spec fn has_part(e: ExprAst, asked: spec_fn(ExprAst) -> bool) -> bool {
    exists|p: ExprAst| #[trigger] part_of(p, e) && asked(p)
}

/// The parts of an expression are itself and the parts of its operands.
pub proof fn parts_are_found_in_operands(e: ExprAst, asked: spec_fn(ExprAst) -> bool)
    ensures
        has_part(e, asked) <==> asked(e) || match e {
            ExprAst::Paren { inner, .. } => has_part(*inner, asked),
            ExprAst::Not { inner, .. } => has_part(*inner, asked),
            ExprAst::Binary { lhs, rhs, .. } => has_part(*lhs, asked) || has_part(*rhs, asked),
            _ => false,
        },
{
    assert(part_of(e, e));
    if has_part(e, asked) {
        let p = choose|p: ExprAst| #[trigger] part_of(p, e) && asked(p);
        match e {
            ExprAst::Paren { inner, .. } => {
                assert(p == e || part_of(p, *inner));
            },
            ExprAst::Not { inner, .. } => {
                assert(p == e || part_of(p, *inner));
            },
            ExprAst::Binary { lhs, rhs, .. } => {
                assert(p == e || part_of(p, *lhs) || part_of(p, *rhs));
            },
            _ => {},
        }
    }
    match e {
        ExprAst::Paren { inner, .. } => {
            if has_part(*inner, asked) {
                let p = choose|p: ExprAst| #[trigger] part_of(p, *inner) && asked(p);
                assert(part_of(p, e));
            }
        },
        ExprAst::Not { inner, .. } => {
            if has_part(*inner, asked) {
                let p = choose|p: ExprAst| #[trigger] part_of(p, *inner) && asked(p);
                assert(part_of(p, e));
            }
        },
        ExprAst::Binary { lhs, rhs, .. } => {
            if has_part(*lhs, asked) {
                let p = choose|p: ExprAst| #[trigger] part_of(p, *lhs) && asked(p);
                assert(part_of(p, e));
            }
            if has_part(*rhs, asked) {
                let p = choose|p: ExprAst| #[trigger] part_of(p, *rhs) && asked(p);
                assert(part_of(p, e));
            }
        },
        _ => {},
    }
}

/// A double negation is found wherever it stands, parentheses between the two
/// or not.
pub proof fn double_negation_is_found(e: ExprAst)
    ensures
        has_double_negation(e) <==> has_part(
            e,
            |p: ExprAst| p matches ExprAst::Not { inner, .. } && inner.bare() is Not,
        ),
    decreases e,
{
    let asked = |p: ExprAst| p matches ExprAst::Not { inner, .. } && inner.bare() is Not;
    parts_are_found_in_operands(e, asked);
    match e {
        ExprAst::Paren { inner, .. } => double_negation_is_found(*inner),
        ExprAst::Not { inner, .. } => double_negation_is_found(*inner),
        ExprAst::Binary { lhs, rhs, .. } => {
            double_negation_is_found(*lhs);
            double_negation_is_found(*rhs);
        },
        _ => {},
    }
}

/// A macro is found wherever it stands, in a string too.
pub proof fn macros_are_found(e: ExprAst)
    ensures
        mentions_macro(e) <==> has_part(
            e,
            |p: ExprAst|
                p is Macro || p is NumericConcat || (p matches ExprAst::String { value, .. }
                    && value@.contains('%')),
        ),
    decreases e,
{
    let asked = |p: ExprAst|
        p is Macro || p is NumericConcat || (p matches ExprAst::String { value, .. }
            && value@.contains('%'));
    parts_are_found_in_operands(e, asked);
    match e {
        ExprAst::Paren { inner, .. } => macros_are_found(*inner),
        ExprAst::Not { inner, .. } => macros_are_found(*inner),
        ExprAst::Binary { lhs, rhs, .. } => {
            macros_are_found(*lhs);
            macros_are_found(*rhs);
        },
        _ => {},
    }
}

/// Exactly those conditions are reported that negate twice: `!!` in a text,
/// or a negation of a negation in an expression.
pub proof fn double_negations_are_reported(branch: CondBranch, span: Span)
    ensures
        says_at(DoubleNegationInExpr::on_branch(&(), branch), span) <==> branch.data == span
            && match branch.expr {
            CondExpr::Raw(t) => t.literal() matches Some(s) && exists|i: int|
                0 <= i && i + 1 < s.len() && #[trigger] s[i] == '!' && s[i + 1] == '!',
            CondExpr::Parsed(e) => has_part(
                *e,
                |p: ExprAst| p matches ExprAst::Not { inner, .. } && inner.bare() is Not,
            ),
            CondExpr::ArchList(_) => false,
        },
{
    let on = DoubleNegationInExpr::on_branch(&(), branch);
    if doubly_negated(branch.expr) {
        lemma_says_one(on[0], span);
        assert(on =~= seq![on[0]]);
    }
    match branch.expr {
        CondExpr::Raw(t) => match t.literal() {
            Some(s) => {
                reveal_strlit("!!");
                let p = "!!"@;
                assert(p.len() == 2 && p[0] == '!' && p[1] == '!');
                if contains(s, p) {
                    let i = choose|i: int| occurs_at(s, p, i);
                    assert(s.subrange(i, i + 2)[0] == s[i] && s.subrange(i, i + 2)[1] == s[i + 1]);
                    assert(s[i] == '!');
                }
                if exists|i: int|
                    0 <= i && i + 1 < s.len() && #[trigger] s[i] == '!' && s[i + 1] == '!' {
                    let i = choose|i: int|
                        0 <= i && i + 1 < s.len() && #[trigger] s[i] == '!' && s[i + 1] == '!';
                    assert(s.subrange(i, i + 2) =~= p);
                    assert(occurs_at(s, p, i));
                }
            },
            None => {},
        },
        CondExpr::Parsed(e) => double_negation_is_found(*e),
        CondExpr::ArchList(_) => {},
    }
}

/// The texts joined by two `c` each.
pub open spec fn rejoined(parts: Seq<Seq<char>>, c: char) -> Seq<char>
    decreases parts.len(),
{
    if parts.len() == 0 {
        Seq::empty()
    } else if parts.len() == 1 {
        parts[0]
    } else {
        parts[0] + seq![c, c] + rejoined(parts.skip(1), c)
    }
}

proof fn lemma_rejoined(t: Seq<char>, c: char, from: int, at: int)
    requires
        0 <= from <= at <= t.len(),
    ensures
        operand_texts(t, c, from, at).len() > 0,
        rejoined(operand_texts(t, c, from, at), c) == t.skip(from),
    decreases t.len() - at,
{
    let parts = operand_texts(t, c, from, at);
    if at >= t.len() {
        assert(parts =~= seq![t.subrange(from, t.len() as int)]);
        assert(t.subrange(from, t.len() as int) =~= t.skip(from));
    } else if operator_at(t, c, at) {
        lemma_rejoined(t, c, at + 2, at + 2);
        let rest = operand_texts(t, c, at + 2, at + 2);
        assert(parts =~= seq![t.subrange(from, at)] + rest);
        assert(parts.skip(1) =~= rest);
        assert(parts[0] == t.subrange(from, at));
        assert(t.skip(from) =~= t.subrange(from, at) + seq![c, c] + t.skip(at + 2));
    } else {
        lemma_rejoined(t, c, from, at + 1);
    }
}

/// Nothing of a text is lost when it is taken apart at an operator: joined
/// again, the operands are the text.
pub proof fn operands_make_up_the_text(t: Seq<char>, c: char)
    ensures
        rejoined(operand_texts(t, c, 0, 0), c) == t,
{
    lemma_rejoined(t, c, 0, 0);
    assert(t.skip(0) =~= t);
}

/// Where two `c` stand outside brackets and strings, a text is taken apart,
/// and nowhere else.
pub proof fn text_is_taken_apart_at_operators(t: Seq<char>, c: char)
    ensures
        operand_texts(t, c, 0, 0).len() > 1 <==> exists|at: int| #[trigger] operator_at(t, c, at),
{
    lemma_taken_apart(t, c, 0, 0);
}

proof fn lemma_taken_apart(t: Seq<char>, c: char, from: int, at: int)
    requires
        0 <= from <= at <= t.len(),
    ensures
        operand_texts(t, c, from, at).len() > 0,
        operand_texts(t, c, from, at).len() > 1 <==> exists|k: int|
            at <= k && #[trigger] operator_at(t, c, k),
    decreases t.len() - at,
{
    if at >= t.len() {
        assert forall|k: int| at <= k implies !(#[trigger] operator_at(t, c, k)) by {}
    } else if operator_at(t, c, at) {
        lemma_taken_apart(t, c, at + 2, at + 2);
    } else {
        lemma_taken_apart(t, c, from, at + 1);
        if exists|k: int| at <= k && #[trigger] operator_at(t, c, k) {
            let k = choose|k: int| at <= k && #[trigger] operator_at(t, c, k);
            assert(at + 1 <= k);
        }
    }
}

/// Taking whitespace out of a text takes it out of its parts, and out of
/// nothing else.
pub proof fn whitespace_is_taken_out(a: Seq<char>, b: Seq<char>, c: char)
    ensures
        unspaced(a + b) == unspaced(a) + unspaced(b),
        unspaced(seq![c]) == if is_space(c) {
            Seq::<char>::empty()
        } else {
            seq![c]
        },
    decreases b.len(),
{
    let one = seq![c];
    assert(one.drop_last() =~= Seq::<char>::empty());
    assert(unspaced(one.drop_last()) =~= Seq::<char>::empty());
    assert(one.last() == c);
    assert(Seq::<char>::empty().push(c) =~= one);
    assert(unspaced(one) =~= if is_space(c) {
        Seq::<char>::empty()
    } else {
        one
    });
    if b.len() == 0 {
        assert(a + b =~= a);
        assert(unspaced(a) + unspaced(b) =~= unspaced(a));
    } else {
        whitespace_is_taken_out(a, b.drop_last(), c);
        assert((a + b).drop_last() =~= a + b.drop_last());
        assert((a + b).last() == b.last());
        assert(unspaced(a + b) =~= unspaced(a) + unspaced(b));
    }
}

proof fn lemma_replaced_after(p: Seq<char>, q: Seq<char>, from: Seq<char>, to: Seq<char>, i: int)
    requires
        0 <= i,
    ensures
        replaced(p + q, from, to, p.len() + i) == replaced(q, from, to, i),
    decreases q.len() - i,
{
    let s = p + q;
    if i < q.len() {
        assert(s[p.len() + i] == q[i]);
        if i + from.len() <= q.len() {
            assert(s.subrange(p.len() + i, p.len() + i + from.len()) =~= q.subrange(
                i,
                i + from.len(),
            ));
        }
        assert(occurs_at(s, from, p.len() + i) == occurs_at(q, from, i));
        if from.len() > 0 && occurs_at(q, from, i) {
            lemma_replaced_after(p, q, from, to, i + from.len() as int);
        } else {
            lemma_replaced_after(p, q, from, to, i + 1);
        }
    }
}

proof fn lemma_replaced_before(
    p: Seq<char>,
    q: Seq<char>,
    from: Seq<char>,
    to: Seq<char>,
    i: int,
)
    requires
        0 <= i <= p.len(),
        forall|k: int| 0 <= k < p.len() ==> !(#[trigger] occurs_at(p + q, from, k)),
    ensures
        replaced(p + q, from, to, i) == p.skip(i) + replaced(q, from, to, 0),
    decreases p.len() - i,
{
    let s = p + q;
    if i == p.len() {
        lemma_replaced_after(p, q, from, to, 0);
        assert(p.skip(i) + replaced(q, from, to, 0) =~= replaced(q, from, to, 0));
    } else {
        assert(s[i] == p[i]);
        lemma_replaced_before(p, q, from, to, i + 1);
        assert(!occurs_at(s, from, i));
        assert(replaced(s, from, to, i) =~= seq![p[i]] + (p.skip(i + 1) + replaced(q, from, to, 0)));
        assert(p.skip(i) =~= seq![p[i]] + p.skip(i + 1));
        assert(replaced(s, from, to, i) =~= p.skip(i) + replaced(q, from, to, 0));
    }
}

/// Replacing goes from one occurrence to the next: what stands before the
/// first is kept, the first is exchanged, and the rest is treated alike.
pub proof fn first_occurrence_is_replaced(
    p: Seq<char>,
    q: Seq<char>,
    from: Seq<char>,
    to: Seq<char>,
)
    requires
        from.len() > 0,
        forall|k: int| 0 <= k < p.len() ==> !(#[trigger] occurs_at(p + (from + q), from, k)),
    ensures
        replaced(p + (from + q), from, to, 0) == p + (to + replaced(q, from, to, 0)),
{
    let s = from + q;
    lemma_replaced_before(p, s, from, to, 0);
    assert(p.skip(0) =~= p);
    assert(s.subrange(0, 0 + from.len() as int) =~= from);
    assert(occurs_at(s, from, 0));
    lemma_replaced_after(from, q, from, to, 0);
}

/// Whether `sub` is `e` or stands in it with nothing but parentheses,
/// negations, `&&` and `||` around it.
pub open spec fn boolean_part(sub: ExprAst, e: ExprAst) -> bool
    decreases e,
{
    sub == e || match e {
        ExprAst::Paren { inner, .. } => boolean_part(sub, *inner),
        ExprAst::Not { inner, .. } => boolean_part(sub, *inner),
        ExprAst::Binary { kind, lhs, rhs, .. } => !kind.compares() && (boolean_part(sub, *lhs)
            || boolean_part(sub, *rhs)),
        _ => false,
    }
}

/// Whether one of the two operands settles what comes of both.
pub open spec fn is_settled(p: ExprAst) -> bool {
    p matches ExprAst::Binary { kind, lhs, rhs, .. } && ((kind == BinOp::LogOr && (const_true(*lhs)
        || const_true(*rhs))) || (kind == BinOp::LogAnd && (const_false(*lhs) || const_false(
        *rhs,
    ))))
}

/// An operand that settles a part of an expression is found wherever it
/// stands.
pub proof fn settled_parts_are_found(e: ExprAst)
    ensures
        expr_tautology(e) is Some <==> exists|p: ExprAst| #[trigger] boolean_part(p, e)
            && is_settled(p),
    decreases e,
{
    assert(boolean_part(e, e));
    match e {
        ExprAst::Paren { inner, .. } => {
            settled_parts_are_found(*inner);
            if expr_tautology(e) is Some {
                let p = choose|p: ExprAst| #[trigger] boolean_part(p, *inner) && is_settled(p);
                assert(boolean_part(p, e));
            }
            if exists|p: ExprAst| #[trigger] boolean_part(p, e) && is_settled(p) {
                let p = choose|p: ExprAst| #[trigger] boolean_part(p, e) && is_settled(p);
                assert(p == e || boolean_part(p, *inner));
            }
        },
        ExprAst::Not { inner, .. } => {
            settled_parts_are_found(*inner);
            if expr_tautology(e) is Some {
                let p = choose|p: ExprAst| #[trigger] boolean_part(p, *inner) && is_settled(p);
                assert(boolean_part(p, e));
            }
            if exists|p: ExprAst| #[trigger] boolean_part(p, e) && is_settled(p) {
                let p = choose|p: ExprAst| #[trigger] boolean_part(p, e) && is_settled(p);
                assert(p == e || boolean_part(p, *inner));
            }
        },
        ExprAst::Binary { kind, lhs, rhs, .. } => {
            settled_parts_are_found(*lhs);
            settled_parts_are_found(*rhs);
            if expr_tautology(e) is Some && !is_settled(e) {
                if expr_tautology(*lhs) is Some {
                    let p = choose|p: ExprAst| #[trigger] boolean_part(p, *lhs) && is_settled(p);
                    assert(boolean_part(p, e));
                } else {
                    let p = choose|p: ExprAst| #[trigger] boolean_part(p, *rhs) && is_settled(p);
                    assert(boolean_part(p, e));
                }
            }
            if exists|p: ExprAst| #[trigger] boolean_part(p, e) && is_settled(p) {
                let p = choose|p: ExprAst| #[trigger] boolean_part(p, e) && is_settled(p);
                assert(p == e || boolean_part(p, *lhs) || boolean_part(p, *rhs));
            }
        },
        _ => {},
    }
}

} // verus!
