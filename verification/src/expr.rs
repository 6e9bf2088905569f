//! Expressions up to layout: equality, chains of operators, constants.
use vstd::prelude::*;

use crate::ast::{BinOp, CondExpr, ConcatPart, ExprAst};
use crate::condition::{arch_names, literal_names, string_texts};
use crate::text::{has_char, same, trim, trimmed};

verus! {

/// The text of a part of a number joined with macros.
pub open spec fn part_text(p: ConcatPart) -> Seq<char> {
    match p {
        ConcatPart::Literal(s) => s@,
        ConcatPart::Macro(s) => s@,
    }
}

/// The texts of `parts`, joined.
pub open spec fn parts_text(parts: Seq<ConcatPart>) -> Seq<char>
    decreases parts.len(),
{
    if parts.len() == 0 {
        Seq::empty()
    } else {
        parts_text(parts.drop_last()) + part_text(parts.last())
    }
}

/// The texts of `parts`, joined.
pub fn concat_text(parts: &Vec<ConcatPart>) -> (r: String)
    ensures
        r@ == parts_text(parts@),
{
    let mut out = String::new();
    let mut i: usize = 0;
    while i < parts.len()
        invariant
            i <= parts.len(),
            out@ == parts_text(parts@.take(i as int)),
        decreases parts.len() - i,
    {
        assert(parts@.take(i + 1).drop_last() == parts@.take(i as int));
        match &parts[i] {
            ConcatPart::Literal(s) => {
                out.append(s.as_str());
            },
            ConcatPart::Macro(s) => {
                out.append(s.as_str());
            },
        }
        i = i + 1;
    }
    assert(parts@.take(i as int) == parts@);
    out
}

/// A part of a number joined with macros.
pub enum PartShape {
    Literal(Seq<char>),
    Macro(Seq<char>),
}

/// An expression without positions and parentheses.
pub enum Shape {
    Integer(int),
    Text(Seq<char>),
    Macro(Seq<char>),
    Identifier(Seq<char>),
    Not(Box<Shape>),
    Binary(BinOp, Box<Shape>, Box<Shape>),
    Concat(Seq<PartShape>),
}

pub open spec fn part_shape(p: ConcatPart) -> PartShape {
    match p {
        ConcatPart::Literal(s) => PartShape::Literal(s@),
        ConcatPart::Macro(s) => PartShape::Macro(s@),
    }
}

pub open spec fn shape(e: ExprAst) -> Shape
    decreases e,
{
    match e {
        ExprAst::Integer { value, .. } => Shape::Integer(value as int),
        ExprAst::String { value, .. } => Shape::Text(value@),
        ExprAst::Macro { text, .. } => Shape::Macro(text@),
        ExprAst::Identifier { name, .. } => Shape::Identifier(name@),
        ExprAst::Paren { inner, .. } => shape(*inner),
        ExprAst::Not { inner, .. } => Shape::Not(Box::new(shape(*inner))),
        ExprAst::Binary { kind, lhs, rhs, .. } => Shape::Binary(
            kind,
            Box::new(shape(*lhs)),
            Box::new(shape(*rhs)),
        ),
        ExprAst::NumericConcat { parts, .. } => Shape::Concat(
            parts@.map_values(|p: ConcatPart| part_shape(p)),
        ),
    }
}

proof fn lemma_bare_shape(e: ExprAst)
    ensures
        shape(e.bare()) == shape(e),
    decreases e,
{
    match e {
        ExprAst::Paren { inner, .. } => lemma_bare_shape(*inner),
        _ => {},
    }
}

fn same_part(a: &ConcatPart, b: &ConcatPart) -> (r: bool)
    ensures
        r == (part_shape(*a) == part_shape(*b)),
{
    match (a, b) {
        (ConcatPart::Literal(x), ConcatPart::Literal(y)) => *x == *y,
        (ConcatPart::Macro(x), ConcatPart::Macro(y)) => *x == *y,
        _ => false,
    }
}

fn same_parts(a: &Vec<ConcatPart>, b: &Vec<ConcatPart>) -> (r: bool)
    ensures
        r == (a@.map_values(|p: ConcatPart| part_shape(p)) == b@.map_values(
            |p: ConcatPart| part_shape(p),
        )),
{
    let ghost x = a@.map_values(|p: ConcatPart| part_shape(p));
    let ghost y = b@.map_values(|p: ConcatPart| part_shape(p));
    if a.len() != b.len() {
        assert(x.len() != y.len());
        return false;
    }
    let mut i: usize = 0;
    while i < a.len()
        invariant
            i <= a.len(),
            a.len() == b.len(),
            x == a@.map_values(|p: ConcatPart| part_shape(p)),
            y == b@.map_values(|p: ConcatPart| part_shape(p)),
            forall|j: int| 0 <= j < i ==> x[j] == y[j],
        decreases a.len() - i,
    {
        if !same_part(&a[i], &b[i]) {
            assert(x[i as int] != y[i as int]);
            return false;
        }
        i = i + 1;
    }
    assert(x =~= y);
    true
}

/// Whether two expressions are the same but for positions and parentheses.
pub fn exprs_equiv(a: &ExprAst, b: &ExprAst) -> (r: bool)
    ensures
        r == (shape(*a) == shape(*b)),
    decreases a,
{
    match a {
        ExprAst::Paren { inner, .. } => {
            return exprs_equiv(inner, b);
        },
        _ => {},
    }
    proof {
        lemma_bare_shape(*b);
    }
    let c = b.peel_parens();
    match (a, c) {
        (ExprAst::Integer { value: x, .. }, ExprAst::Integer { value: y, .. }) => *x == *y,
        (ExprAst::String { value: x, .. }, ExprAst::String { value: y, .. }) => *x == *y,
        (ExprAst::Macro { text: x, .. }, ExprAst::Macro { text: y, .. }) => *x == *y,
        (ExprAst::Identifier { name: x, .. }, ExprAst::Identifier { name: y, .. }) => *x == *y,
        (ExprAst::Not { inner: x, .. }, ExprAst::Not { inner: y, .. }) => exprs_equiv(x, y),
        (
            ExprAst::Binary { kind: k, lhs: l, rhs: r, .. },
            ExprAst::Binary { kind: m, lhs: s, rhs: t, .. },
        ) => *k == *m && exprs_equiv(l, s) && exprs_equiv(r, t),
        (ExprAst::NumericConcat { parts: x, .. }, ExprAst::NumericConcat { parts: y, .. }) => same_parts(
            x,
            y,
        ),
        _ => false,
    }
}

// ---------------------------------------------------------------------
// Chains
// ---------------------------------------------------------------------

/// The operands of the chain of `op` that `e` is, without parentheses.
pub open spec fn operands(e: ExprAst, op: BinOp) -> Seq<ExprAst>
    decreases e,
{
    match e {
        ExprAst::Paren { inner, .. } => operands(*inner, op),
        ExprAst::Binary { kind, lhs, rhs, .. } if kind == op => operands(*lhs, op) + operands(
            *rhs,
            op,
        ),
        _ => seq![e],
    }
}

/// The expressions that a list of references points at.
pub open spec fn exprs(v: Seq<&ExprAst>) -> Seq<ExprAst> {
    v.map_values(|e: &ExprAst| *e)
}

fn push_operands<'a>(e: &'a ExprAst, op: BinOp, out: &mut Vec<&'a ExprAst>)
    ensures
        exprs(final(out)@) == exprs(old(out)@) + operands(*e, op),
    decreases e,
{
    match e {
        ExprAst::Paren { inner, .. } => push_operands(inner, op, out),
        ExprAst::Binary { kind, lhs, rhs, .. } if *kind == op => {
            push_operands(lhs, op, out);
            push_operands(rhs, op, out);
            assert(exprs(out@) =~= exprs(old(out)@) + operands(*e, op));
        },
        _ => {
            out.push(e);
            assert(exprs(out@) =~= exprs(old(out)@) + seq![*e]);
        },
    }
}

/// The operands of a chain of `op`.
pub fn flatten<'a>(e: &'a ExprAst, op: BinOp) -> (r: Vec<&'a ExprAst>)
    ensures
        exprs(r@) == operands(*e, op),
{
    let mut out: Vec<&'a ExprAst> = Vec::new();
    push_operands(e, op, &mut out);
    assert(exprs(out@) =~= operands(*e, op));
    out
}

// ---------------------------------------------------------------------
// Constants
// ---------------------------------------------------------------------

/// Whether `e` is a constant that counts as true.
pub open spec fn const_true(e: ExprAst) -> bool {
    match e.bare() {
        ExprAst::Integer { value, .. } => value != 0,
        ExprAst::String { value, .. } => value@.len() > 0,
        ExprAst::Identifier { name, .. } => name@ == "true"@,
        _ => false,
    }
}

/// Whether `e` is a constant that counts as false.
pub open spec fn const_false(e: ExprAst) -> bool {
    match e.bare() {
        ExprAst::Integer { value, .. } => value == 0,
        ExprAst::String { value, .. } => value@.len() == 0,
        ExprAst::Identifier { name, .. } => name@ == "false"@,
        _ => false,
    }
}

pub fn is_const_true(e: &ExprAst) -> (r: bool)
    ensures
        r == const_true(*e),
{
    match e.peel_parens() {
        ExprAst::Integer { value, .. } => *value != 0,
        ExprAst::String { value, .. } => !value.as_str().is_empty(),
        ExprAst::Identifier { name, .. } => same(name.as_str(), "true"),
        _ => false,
    }
}

pub fn is_const_false(e: &ExprAst) -> (r: bool)
    ensures
        r == const_false(*e),
{
    match e.peel_parens() {
        ExprAst::Integer { value, .. } => *value == 0,
        ExprAst::String { value, .. } => value.as_str().is_empty(),
        ExprAst::Identifier { name, .. } => same(name.as_str(), "false"),
        _ => false,
    }
}

/// Whether a condition has the value true before any macro is expanded.
pub open spec fn cond_const_true(c: CondExpr) -> bool {
    match c {
        CondExpr::Raw(t) => match t.literal() {
            Some(s) => trim(s) == "1"@ || trim(s) == "true"@,
            None => false,
        },
        CondExpr::Parsed(e) => const_true(*e),
        CondExpr::ArchList(_) => false,
    }
}

/// Whether a condition has the value false before any macro is expanded.
pub open spec fn cond_const_false(c: CondExpr) -> bool {
    match c {
        CondExpr::Raw(t) => match t.literal() {
            Some(s) => trim(s) == "0"@ || trim(s) == "false"@,
            None => false,
        },
        CondExpr::Parsed(e) => const_false(*e),
        CondExpr::ArchList(_) => false,
    }
}

pub fn is_constant_true_condition(c: &CondExpr) -> (r: bool)
    ensures
        r == cond_const_true(*c),
{
    match c {
        CondExpr::Raw(t) => match t.literal_str() {
            Some(s) => same(trimmed(s), "1") || same(trimmed(s), "true"),
            None => false,
        },
        CondExpr::Parsed(e) => is_const_true(e),
        CondExpr::ArchList(_) => false,
    }
}

pub fn is_constant_false_condition(c: &CondExpr) -> (r: bool)
    ensures
        r == cond_const_false(*c),
{
    match c {
        CondExpr::Raw(t) => match t.literal_str() {
            Some(s) => same(trimmed(s), "0") || same(trimmed(s), "false"),
            None => false,
        },
        CondExpr::Parsed(e) => is_const_false(e),
        CondExpr::ArchList(_) => false,
    }
}

// ---------------------------------------------------------------------
// Conditions that are the same whatever macros are defined
// ---------------------------------------------------------------------

/// Whether no macro stands in `e`.
pub open spec fn macro_free(e: ExprAst) -> bool
    decreases e,
{
    match e {
        ExprAst::Integer { .. } => true,
        ExprAst::Identifier { .. } => true,
        ExprAst::String { value, .. } => !value@.contains('%'),
        ExprAst::Macro { .. } => false,
        ExprAst::NumericConcat { .. } => false,
        ExprAst::Paren { inner, .. } => macro_free(*inner),
        ExprAst::Not { inner, .. } => macro_free(*inner),
        ExprAst::Binary { lhs, rhs, .. } => macro_free(*lhs) && macro_free(*rhs),
    }
}

fn is_macro_free(e: &ExprAst) -> (r: bool)
    ensures
        r == macro_free(*e),
    decreases e,
{
    match e {
        ExprAst::Integer { .. } => true,
        ExprAst::Identifier { .. } => true,
        ExprAst::String { value, .. } => !has_char(value.as_str(), '%'),
        ExprAst::Macro { .. } => false,
        ExprAst::NumericConcat { .. } => false,
        ExprAst::Paren { inner, .. } => is_macro_free(inner),
        ExprAst::Not { inner, .. } => is_macro_free(inner),
        ExprAst::Binary { lhs, rhs, .. } => is_macro_free(lhs) && is_macro_free(rhs),
    }
}

/// Whether two conditions are written alike and free of macros.
pub open spec fn resolvably_eq(a: CondExpr, b: CondExpr) -> bool {
    match (a, b) {
        (CondExpr::Raw(x), CondExpr::Raw(y)) => match (x.literal(), y.literal()) {
            (Some(s), Some(t)) => trim(s) == trim(t) && !s.contains('%'),
            _ => false,
        },
        (CondExpr::Parsed(x), CondExpr::Parsed(y)) => macro_free(*x) && shape(*x) == shape(*y),
        (CondExpr::ArchList(x), CondExpr::ArchList(y)) => match (
            arch_names(x@),
            arch_names(y@),
        ) {
            (Some(s), Some(t)) => s == t && forall|i: int|
                0 <= i < s.len() ==> !(#[trigger] s[i]).contains('%'),
            _ => false,
        },
        _ => false,
    }
}

fn same_names(a: &Vec<String>, b: &Vec<String>) -> (r: bool)
    ensures
        r == (string_texts(a@) == string_texts(b@) && forall|i: int|
            0 <= i < a@.len() ==> !(#[trigger] string_texts(a@)[i]).contains('%')),
{
    let ghost x = string_texts(a@);
    let ghost y = string_texts(b@);
    if a.len() != b.len() {
        assert(x.len() != y.len());
        return false;
    }
    let mut i: usize = 0;
    while i < a.len()
        invariant
            i <= a.len(),
            a.len() == b.len(),
            x == string_texts(a@),
            y == string_texts(b@),
            forall|j: int| 0 <= j < i ==> (#[trigger] x[j]) == y[j] && !x[j].contains('%'),
        decreases a.len() - i,
    {
        assert(x[i as int] == a@[i as int]@ && y[i as int] == b@[i as int]@);
        if !(a[i] == b[i]) || has_char(a[i].as_str(), '%') {
            return false;
        }
        i = i + 1;
    }
    assert(x =~= y);
    true
}

pub fn cond_expr_resolvably_eq(a: &CondExpr, b: &CondExpr) -> (r: bool)
    ensures
        r == resolvably_eq(*a, *b),
{
    match (a, b) {
        (CondExpr::Raw(x), CondExpr::Raw(y)) => match (x.literal_str(), y.literal_str()) {
            (Some(s), Some(t)) => same(trimmed(s), trimmed(t)) && !has_char(s, '%'),
            _ => false,
        },
        (CondExpr::Parsed(x), CondExpr::Parsed(y)) => is_macro_free(x) && exprs_equiv(x, y),
        (CondExpr::ArchList(x), CondExpr::ArchList(y)) => match (literal_names(x), literal_names(y)) {
            (Some(s), Some(t)) => same_names(&s, &t),
            _ => false,
        },
        _ => false,
    }
}

} // verus!
