//! What comparing and splitting expressions promises: expressions of the same
//! shape are true together, and a chain is true as its operands are.
use vstd::prelude::*;

use crate::ast::{BinOp, CondExpr, ExprAst, Text};
use crate::condition::{canonical, arch_names};
use crate::expr::{
    const_false, const_true, operands, resolvably_eq, shape, Shape, cond_const_false,
    cond_const_true, macro_free,
};
use crate::laws::{asked_truth, truth};
use crate::text_laws::{core_is_unique, is_core, trimming_takes_off_whitespace};
use crate::rules::conditional_optimize::expr_constants::{has_part, parts_are_found_in_operands};
use crate::text::trim;

verus! {

/// Whether a condition is true, where `val` says which atoms are, by their
/// shapes.
pub open spec fn sense(e: ExprAst, val: spec_fn(Shape) -> bool) -> bool
    decreases e,
{
    match e {
        ExprAst::Paren { inner, .. } => sense(*inner, val),
        ExprAst::Not { inner, .. } => !sense(*inner, val),
        ExprAst::Binary { kind, lhs, rhs, .. } if !kind.compares() => if kind is LogOr {
            sense(*lhs, val) || sense(*rhs, val)
        } else {
            sense(*lhs, val) && sense(*rhs, val)
        },
        _ => val(shape(e)),
    }
}

/// Parentheses do not matter.
pub proof fn parentheses_do_not_matter(e: ExprAst, val: spec_fn(Shape) -> bool)
    ensures
        sense(e.bare(), val) == sense(e, val),
        shape(e.bare()) == shape(e),
    decreases e,
{
    match e {
        ExprAst::Paren { inner, .. } => parentheses_do_not_matter(*inner, val),
        _ => {},
    }
}

/// Expressions of the same shape are true together.
pub proof fn equal_shapes_mean_the_same(a: ExprAst, b: ExprAst, val: spec_fn(Shape) -> bool)
    requires
        shape(a) == shape(b),
    ensures
        sense(a, val) == sense(b, val),
    decreases a, b,
{
    match a {
        ExprAst::Paren { inner, .. } => equal_shapes_mean_the_same(*inner, b, val),
        _ => match b {
            ExprAst::Paren { inner, .. } => equal_shapes_mean_the_same(a, *inner, val),
            _ => match (a, b) {
                (ExprAst::Not { inner: x, .. }, ExprAst::Not { inner: y, .. }) => {
                    equal_shapes_mean_the_same(*x, *y, val);
                },
                (
                    ExprAst::Binary { kind: k, lhs: l, rhs: r, .. },
                    ExprAst::Binary { kind: m, lhs: s, rhs: t, .. },
                ) => {
                    equal_shapes_mean_the_same(*l, *s, val);
                    equal_shapes_mean_the_same(*r, *t, val);
                },
                _ => {},
            },
        },
    }
}

/// One of `ops` is true.
pub open spec fn any_true(ops: Seq<ExprAst>, val: spec_fn(Shape) -> bool) -> bool {
    exists|k: int| 0 <= k < ops.len() && sense(#[trigger] ops[k], val)
}

/// All of `ops` are true.
pub open spec fn all_true(ops: Seq<ExprAst>, val: spec_fn(Shape) -> bool) -> bool {
    forall|k: int| 0 <= k < ops.len() ==> sense(#[trigger] ops[k], val)
}

/// A chain of `||` is true exactly where one of its operands is.
pub proof fn or_chain_means_any(e: ExprAst, val: spec_fn(Shape) -> bool)
    ensures
        sense(e, val) == any_true(operands(e, BinOp::LogOr), val),
    decreases e,
{
    let ops = operands(e, BinOp::LogOr);
    match e {
        ExprAst::Paren { inner, .. } => or_chain_means_any(*inner, val),
        ExprAst::Binary { kind, lhs, rhs, .. } if kind == BinOp::LogOr => {
            let l = operands(*lhs, BinOp::LogOr);
            let r = operands(*rhs, BinOp::LogOr);
            or_chain_means_any(*lhs, val);
            or_chain_means_any(*rhs, val);
            if sense(*lhs, val) {
                let k = choose|k: int| 0 <= k < l.len() && sense(#[trigger] l[k], val);
                assert(ops[k] == l[k]);
            }
            if sense(*rhs, val) {
                let k = choose|k: int| 0 <= k < r.len() && sense(#[trigger] r[k], val);
                assert(ops[l.len() + k] == r[k]);
            }
            if any_true(ops, val) {
                let k = choose|k: int| 0 <= k < ops.len() && sense(#[trigger] ops[k], val);
                if k < l.len() {
                    assert(ops[k] == l[k]);
                } else {
                    assert(ops[k] == r[k - l.len()]);
                }
            }
        },
        _ => {
            assert(ops == seq![e]);
            assert(ops[0] == e);
        },
    }
}

/// A chain of `&&` is true exactly where all of its operands are.
pub proof fn and_chain_means_all(e: ExprAst, val: spec_fn(Shape) -> bool)
    ensures
        sense(e, val) == all_true(operands(e, BinOp::LogAnd), val),
    decreases e,
{
    let ops = operands(e, BinOp::LogAnd);
    match e {
        ExprAst::Paren { inner, .. } => and_chain_means_all(*inner, val),
        ExprAst::Binary { kind, lhs, rhs, .. } if kind == BinOp::LogAnd => {
            let l = operands(*lhs, BinOp::LogAnd);
            let r = operands(*rhs, BinOp::LogAnd);
            and_chain_means_all(*lhs, val);
            and_chain_means_all(*rhs, val);
            if sense(e, val) {
                assert forall|k: int| 0 <= k < ops.len() implies sense(#[trigger] ops[k], val) by {
                    if k < l.len() {
                        assert(ops[k] == l[k]);
                    } else {
                        assert(ops[k] == r[k - l.len()]);
                    }
                }
            }
            if all_true(ops, val) {
                assert forall|k: int| 0 <= k < l.len() implies sense(#[trigger] l[k], val) by {
                    assert(ops[k] == l[k]);
                }
                assert forall|k: int| 0 <= k < r.len() implies sense(#[trigger] r[k], val) by {
                    assert(ops[l.len() + k] == r[k]);
                }
            }
        },
        _ => {
            assert(ops == seq![e]);
            assert(ops[0] == e);
        },
    }
}

/// The values give constants what they count as.
pub open spec fn respects_constants(val: spec_fn(Shape) -> bool) -> bool {
    &&& forall|n: int| #[trigger] val(Shape::Integer(n)) == (n != 0)
    &&& forall|s: Seq<char>| #[trigger] val(Shape::Text(s)) == (s.len() > 0)
    &&& val(Shape::Identifier("true"@))
    &&& !val(Shape::Identifier("false"@))
}

/// A constant condition has the value that is reported.
pub proof fn constants_have_their_values(e: ExprAst, val: spec_fn(Shape) -> bool)
    requires
        respects_constants(val),
    ensures
        const_true(e) ==> sense(e, val),
        const_false(e) ==> !sense(e, val),
{
    parentheses_do_not_matter(e, val);
    match e.bare() {
        ExprAst::Integer { value, .. } => {
            assert(shape(e.bare()) == Shape::Integer(value as int));
        },
        ExprAst::String { value, .. } => {
            assert(shape(e.bare()) == Shape::Text(value@));
        },
        _ => {},
    }
}

/// Expressions of the same shape are known by the same text.
pub proof fn lemma_same_text(a: ExprAst, b: ExprAst)
    requires
        shape(a) == shape(b),
    ensures
        canonical(a) == canonical(b),
    decreases a, b,
{
    match a {
        ExprAst::Paren { inner, .. } => lemma_same_text(*inner, b),
        _ => match b {
            ExprAst::Paren { inner, .. } => lemma_same_text(a, *inner),
            _ => match (a, b) {
                (ExprAst::Not { inner: x, .. }, ExprAst::Not { inner: y, .. }) => {
                    lemma_same_text(*x, *y);
                },
                (
                    ExprAst::Binary { lhs: l, rhs: r, .. },
                    ExprAst::Binary { lhs: s, rhs: t, .. },
                ) => {
                    lemma_same_text(*l, *s);
                    lemma_same_text(*r, *t);
                },
                _ => {},
            },
        },
    }
}

proof fn lemma_same_truth(a: ExprAst, b: ExprAst, val: spec_fn(Seq<char>) -> bool)
    requires
        shape(a) == shape(b),
    ensures
        truth(a, val) == truth(b, val),
    decreases a, b,
{
    match a {
        ExprAst::Paren { inner, .. } => lemma_same_truth(*inner, b, val),
        _ => match b {
            ExprAst::Paren { inner, .. } => lemma_same_truth(a, *inner, val),
            _ => match (a, b) {
                (ExprAst::Not { inner: x, .. }, ExprAst::Not { inner: y, .. }) => {
                    lemma_same_truth(*x, *y, val);
                },
                (
                    ExprAst::Binary { lhs: l, rhs: r, .. },
                    ExprAst::Binary { lhs: s, rhs: t, .. },
                ) => {
                    lemma_same_truth(*l, *s, val);
                    lemma_same_truth(*r, *t, val);
                    lemma_same_text(a, b);
                },
                _ => {
                    lemma_same_text(a, b);
                },
            },
        },
    }
}

/// Conditions that count as written alike are true together.
pub proof fn alike_conditions_are_true_together(
    a: CondExpr,
    b: CondExpr,
    val: spec_fn(Seq<char>) -> bool,
)
    requires
        resolvably_eq(a, b),
    ensures
        asked_truth(a, false, val) == asked_truth(b, false, val),
        asked_truth(a, true, val) == asked_truth(b, true, val),
{
    match (a, b) {
        (CondExpr::Parsed(x), CondExpr::Parsed(y)) => lemma_same_truth(*x, *y, val),
        _ => {},
    }
}

/// Constants are known for what they are: a number by being 0 or not, a
/// string by being empty or not, a name by being `true` or `false`; no other
/// expression is constant, and parentheses do not matter.
pub proof fn constants_are_recognised(e: ExprAst)
    ensures
        match e {
            ExprAst::Paren { inner, .. } => const_true(e) == const_true(*inner) && const_false(e)
                == const_false(*inner),
            ExprAst::Integer { value, .. } => const_true(e) != const_false(e) && (const_false(e)
                <==> value == 0),
            ExprAst::String { value, .. } => const_true(e) != const_false(e) && (const_false(e)
                <==> value@ == Seq::<char>::empty()),
            ExprAst::Identifier { name, .. } => (const_true(e) <==> name@ == seq![
                't',
                'r',
                'u',
                'e',
            ]) && (const_false(e) <==> name@ == seq!['f', 'a', 'l', 's', 'e']),
            _ => !const_true(e) && !const_false(e),
        },
{
    reveal_strlit("true");
    reveal_strlit("false");
    assert("true"@ =~= seq!['t', 'r', 'u', 'e']);
    assert("false"@ =~= seq!['f', 'a', 'l', 's', 'e']);
    match e {
        ExprAst::String { value, .. } => {
            if value@.len() == 0 {
                assert(value@ =~= Seq::<char>::empty());
            }
        },
        _ => {},
    }
}

/// A condition that is kept as text is constant exactly if the text is `1`,
/// `true`, `0` or `false`, but for the whitespace around it. A list is not.
pub proof fn constant_texts_are_recognised(c: CondExpr)
    ensures
        match c {
            CondExpr::Raw(t) => {
                &&& cond_const_true(c) <==> (t.literal() matches Some(s) && (is_core(s, seq!['1'])
                    || is_core(s, seq!['t', 'r', 'u', 'e'])))
                &&& cond_const_false(c) <==> (t.literal() matches Some(s) && (is_core(s, seq!['0'])
                    || is_core(s, seq!['f', 'a', 'l', 's', 'e'])))
            },
            CondExpr::Parsed(e) => cond_const_true(c) == const_true(*e) && cond_const_false(c)
                == const_false(*e),
            CondExpr::ArchList(_) => !cond_const_true(c) && !cond_const_false(c),
        },
{
    reveal_strlit("1");
    reveal_strlit("0");
    reveal_strlit("true");
    reveal_strlit("false");
    assert("1"@ =~= seq!['1']);
    assert("0"@ =~= seq!['0']);
    assert("true"@ =~= seq!['t', 'r', 'u', 'e']);
    assert("false"@ =~= seq!['f', 'a', 'l', 's', 'e']);
    match c {
        CondExpr::Raw(t) => match t.literal() {
            Some(s) => {
                trimming_takes_off_whitespace(s);
                lemma_core_is_trim(s, seq!['1']);
                lemma_core_is_trim(s, seq!['0']);
                lemma_core_is_trim(s, seq!['t', 'r', 'u', 'e']);
                lemma_core_is_trim(s, seq!['f', 'a', 'l', 's', 'e']);
            },
            None => {},
        },
        _ => {},
    }
}

proof fn lemma_core_is_trim(s: Seq<char>, t: Seq<char>)
    ensures
        is_core(s, t) <==> trim(s) == t,
{
    trimming_takes_off_whitespace(s);
    if is_core(s, t) {
        core_is_unique(s, t);
    }
}

/// An expression is free of macros exactly if no part of it is one, is joined
/// with one, or is a string that holds one.
pub proof fn macro_free_has_no_macro(e: ExprAst)
    ensures
        macro_free(e) <==> !has_part(
            e,
            |p: ExprAst|
                p is Macro || p is NumericConcat || (p matches ExprAst::String { value, .. }
                    && value@.contains('%')),
        ),
    decreases e,
{
    let asked = |p: ExprAst|
        p is Macro || p is NumericConcat || (p matches ExprAst::String { value, .. }
            && value@.contains('%'));
    parts_are_found_in_operands(e, asked);
    match e {
        ExprAst::Paren { inner, .. } => macro_free_has_no_macro(*inner),
        ExprAst::Not { inner, .. } => macro_free_has_no_macro(*inner),
        ExprAst::Binary { lhs, rhs, .. } => {
            macro_free_has_no_macro(*lhs);
            macro_free_has_no_macro(*rhs);
        },
        _ => {},
    }
}

/// Conditions count as written alike exactly if they are of one kind, no
/// macro stands in the first, and they differ in nothing but whitespace
/// around texts and names, and parentheses in expressions.
pub proof fn alike_conditions_are_written_alike(a: CondExpr, b: CondExpr)
    ensures
        resolvably_eq(a, b) <==> match (a, b) {
            (CondExpr::Raw(x), CondExpr::Raw(y)) => match (x.literal(), y.literal()) {
                (Some(s), Some(t)) => !s.contains('%') && exists|u: Seq<char>| #[trigger]
                    is_core(s, u) && is_core(t, u),
                _ => false,
            },
            (CondExpr::Parsed(x), CondExpr::Parsed(y)) => macro_free(*x) && shape(*x) == shape(*y),
            (CondExpr::ArchList(x), CondExpr::ArchList(y)) => x@.len() == y@.len() && forall|i: int|
                #![trigger x@[i]]
                0 <= i < x@.len() ==> same_name(x@[i], y@[i]),
            _ => false,
        },
{
    match (a, b) {
        (CondExpr::Raw(x), CondExpr::Raw(y)) => match (x.literal(), y.literal()) {
            (Some(s), Some(t)) => {
                trimming_takes_off_whitespace(s);
                trimming_takes_off_whitespace(t);
                if exists|u: Seq<char>| #[trigger] is_core(s, u) && is_core(t, u) {
                    let u = choose|u: Seq<char>| #[trigger] is_core(s, u) && is_core(t, u);
                    lemma_core_is_trim(s, u);
                    lemma_core_is_trim(t, u);
                }
            },
            _ => {},
        },
        (CondExpr::ArchList(x), CondExpr::ArchList(y)) => {
            if resolvably_eq(a, b) {
                let s = arch_names(x@).unwrap();
                let t = arch_names(y@).unwrap();
                assert(s.len() == x@.len() && t.len() == y@.len());
                assert forall|i: int| #![trigger x@[i]] 0 <= i < x@.len() implies same_name(
                    x@[i],
                    y@[i],
                ) by {
                    assert(s[i] == t[i]);
                    assert(x@[i].literal() is Some && y@[i].literal() is Some);
                    assert(!s[i].contains('%'));
                }
            }
            if x@.len() == y@.len() && forall|i: int|
                #![trigger x@[i]]
                0 <= i < x@.len() ==> same_name(x@[i], y@[i]) {
                assert forall|i: int| 0 <= i < x@.len() implies (#[trigger] x@[i]).literal() is Some by {
                    assert(same_name(x@[i], y@[i]));
                }
                assert forall|i: int| 0 <= i < y@.len() implies (#[trigger] y@[i]).literal() is Some by {
                    assert(same_name(x@[i], y@[i]));
                }
                let s = arch_names(x@).unwrap();
                let t = arch_names(y@).unwrap();
                assert forall|i: int| 0 <= i < s.len() implies s[i] == t[i] && !(
                #[trigger] s[i]).contains('%') by {
                    assert(same_name(x@[i], y@[i]));
                }
                assert(s =~= t);
            }
        },
        _ => {},
    }
}

/// Whether two names are literal, without a macro and the same but for the
/// whitespace around them.
pub open spec fn same_name(x: Text, y: Text) -> bool {
    match (x.literal(), y.literal()) {
        (Some(s), Some(t)) => trim(s) == trim(t) && !trim(s).contains('%'),
        _ => false,
    }
}

} // verus!
