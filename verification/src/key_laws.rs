//! What the keys of atoms promise: different atoms have different ones, so
//! that what is concluded from keys holds of the expressions themselves.
use vstd::prelude::*;

use crate::ast::{BinOp, ExprAst};
use crate::condition::{arch_key, canonical};
use crate::expr::{part_shape, shape};
use crate::text::{is_digit, is_ident, signed_decimal};
use crate::text_laws::{decimal_stands_for_the_number, signed_decimal_tells_numbers_apart};
use crate::rules::conditional_optimize::expr_constants::{has_part, parts_are_found_in_operands};

verus! {

// ---------------------------------------------------------------------
// Expressions as they are read
// ---------------------------------------------------------------------

/// Brackets, quotes and the characters of operators.
pub open spec fn is_special(c: char) -> bool {
    ||| c == '(' || c == ')' || c == '{' || c == '}'
    ||| c == '"'
    ||| c == '|' || c == '&' || c == '=' || c == '!' || c == '<' || c == '>'
}

pub open spec fn is_plain(s: Seq<char>) -> bool {
    forall|i: int| 0 <= i < s.len() ==> !is_special(#[trigger] s[i])
}

/// How many braces are open before `k`.
pub open spec fn braces(s: Seq<char>, k: int) -> int
    decreases k,
{
    if k <= 0 {
        0
    } else {
        braces(s, k - 1) + if s[k - 1] == '{' {
            1int
        } else if s[k - 1] == '}' {
            -1
        } else {
            0
        }
    }
}

/// `%{...}`, whose last brace is the one that closes the first.
pub open spec fn is_braced(s: Seq<char>) -> bool {
    &&& s.len() >= 3
    &&& s[0] == '%'
    &&& s[1] == '{'
    &&& braces(s, s.len() as int) == 0
    &&& forall|k: int| 2 <= k < s.len() ==> #[trigger] braces(s, k) > 0
}

/// Whether an expression is made of words that can be read back: names are
/// names, macros are `%name` or `%{...}`, and strings hold no quote. No number
/// is joined with a macro.
pub open spec fn readable(e: ExprAst) -> bool
    decreases e,
{
    match e {
        ExprAst::Integer { .. } => true,
        ExprAst::String { value, .. } => !value@.contains('"'),
        ExprAst::Macro { text, .. } => text@.len() > 0 && text@[0] == '%' && (is_plain(text@)
            || is_braced(text@)),
        ExprAst::Identifier { name, .. } => name@.len() > 0 && is_ident(name@[0]) && !is_digit(
            name@[0],
        ) && is_plain(name@),
        ExprAst::Paren { inner, .. } => readable(*inner),
        ExprAst::Not { inner, .. } => readable(*inner),
        ExprAst::Binary { lhs, rhs, .. } => readable(*lhs) && readable(*rhs),
        ExprAst::NumericConcat { .. } => false,
    }
}

/// What can follow an operand: nothing, a closing bracket or an operator.
pub open spec fn stops(x: Seq<char>) -> bool {
    x.len() > 0 ==> x[0] == ')' || x[0] == '|' || x[0] == '&' || x[0] == '=' || x[0] == '!' || x[0]
        == '<' || x[0] == '>'
}

proof fn lemma_integer_text(n: int)
    ensures
        signed_decimal(n).len() > 0,
        is_plain(signed_decimal(n)),
        is_digit(signed_decimal(n)[0]) || signed_decimal(n)[0] == '-',
{
    let s = signed_decimal(n);
    if n < 0 {
        let t = crate::text::decimal((-n) as nat);
        decimal_stands_for_the_number((-n) as nat);
        assert forall|i: int| 0 <= i < s.len() implies !is_special(#[trigger] s[i]) by {
            if i > 0 {
                assert(s[i] == t[i - 1]);
                assert(is_digit(t[i - 1]));
            }
        }
    } else {
        decimal_stands_for_the_number(n as nat);
        assert forall|i: int| 0 <= i < s.len() implies !is_special(#[trigger] s[i]) by {
            assert(is_digit(s[i]));
        }
    }
}

/// An expression that is readable has a key, which begins as its kind does.
proof fn lemma_key_begins(e: ExprAst)
    requires
        readable(e),
    ensures
        canonical(e) is Some,
        canonical(e).unwrap().len() > 0,
        ({
            let c = canonical(e).unwrap()[0];
            match e.bare() {
                ExprAst::Integer { .. } => is_digit(c) || c == '-',
                ExprAst::String { .. } => c == '"',
                ExprAst::Macro { .. } => c == '%',
                ExprAst::Identifier { .. } => is_ident(c) && !is_digit(c),
                ExprAst::Not { .. } => c == '!',
                ExprAst::Binary { .. } => c == '(',
                _ => false,
            }
        }),
    decreases e,
{
    reveal_strlit("(");
    reveal_strlit("!");
    reveal_strlit("\"");
    match e {
        ExprAst::Paren { inner, .. } => lemma_key_begins(*inner),
        ExprAst::Not { inner, .. } => lemma_key_begins(*inner),
        ExprAst::Binary { lhs, rhs, .. } => {
            lemma_key_begins(*lhs);
            lemma_key_begins(*rhs);
        },
        ExprAst::Integer { value, .. } => lemma_integer_text(value as int),
        _ => {},
    }
}

proof fn lemma_plain_ends(s: Seq<char>, t: Seq<char>, x: Seq<char>, y: Seq<char>)
    requires
        is_plain(s),
        is_plain(t),
        stops(x),
        stops(y),
        s + x == t + y,
    ensures
        s == t,
        x == y,
{
    let all = s + x;
    if s.len() < t.len() {
        assert(all[s.len() as int] == x[0]);
        assert((t + y)[s.len() as int] == t[s.len() as int]);
    } else if t.len() < s.len() {
        assert((t + y)[t.len() as int] == y[0]);
        assert(all[t.len() as int] == s[t.len() as int]);
    }
    assert(s =~= all.take(s.len() as int));
    assert(t =~= (t + y).take(t.len() as int));
    assert(x =~= all.skip(s.len() as int));
    assert(y =~= (t + y).skip(t.len() as int));
}

proof fn lemma_braces_prefix(s: Seq<char>, t: Seq<char>, k: int)
    requires
        0 <= k <= s.len(),
        k <= t.len(),
        forall|i: int| 0 <= i < k ==> s[i] == t[i],
    ensures
        braces(s, k) == braces(t, k),
    decreases k,
{
    if k > 0 {
        lemma_braces_prefix(s, t, k - 1);
    }
}

proof fn lemma_braced_ends(s: Seq<char>, t: Seq<char>, x: Seq<char>, y: Seq<char>)
    requires
        is_braced(s),
        is_braced(t),
        s + x == t + y,
        s.len() <= t.len(),
    ensures
        s == t,
        x == y,
{
    let n = s.len() as int;
    assert forall|i: int| 0 <= i < n implies s[i] == t[i] by {
        assert((s + x)[i] == s[i]);
        assert((t + y)[i] == t[i]);
    }
    lemma_braces_prefix(s, t, n);
    assert(n == t.len());
    assert(s =~= t);
    assert(x =~= (s + x).skip(n));
    assert(y =~= (t + y).skip(n));
}

proof fn lemma_macro_ends(s: Seq<char>, t: Seq<char>, x: Seq<char>, y: Seq<char>)
    requires
        s.len() > 0 && s[0] == '%' && (is_plain(s) || is_braced(s)),
        t.len() > 0 && t[0] == '%' && (is_plain(t) || is_braced(t)),
        stops(x),
        stops(y),
        s + x == t + y,
    ensures
        s == t,
        x == y,
{
    if is_braced(s) && is_braced(t) {
        if s.len() <= t.len() {
            lemma_braced_ends(s, t, x, y);
        } else {
            lemma_braced_ends(t, s, y, x);
        }
    } else if is_plain(s) && is_plain(t) {
        lemma_plain_ends(s, t, x, y);
    } else {
        assert((s + x).len() == (t + y).len());
        assert((s + x)[1] == (t + y)[1]);
        if is_braced(s) {
            assert((s + x)[1] == '{');
            if t.len() > 1 {
                assert((t + y)[1] == t[1]);
            } else {
                assert((t + y)[1] == y[0]);
            }
        } else {
            assert((t + y)[1] == '{');
            if s.len() > 1 {
                assert((s + x)[1] == s[1]);
            } else {
                assert((s + x)[1] == x[0]);
            }
        }
    }
}

proof fn lemma_string_ends(s: Seq<char>, t: Seq<char>, x: Seq<char>, y: Seq<char>)
    requires
        !s.contains('"'),
        !t.contains('"'),
        s + seq!['"'] + x == t + seq!['"'] + y,
    ensures
        s == t,
        x == y,
{
    let a = s + seq!['"'] + x;
    let b = t + seq!['"'] + y;
    if s.len() < t.len() {
        assert(a[s.len() as int] == '"');
        assert(b[s.len() as int] == t[s.len() as int]);
    } else if t.len() < s.len() {
        assert(b[t.len() as int] == '"');
        assert(a[t.len() as int] == s[t.len() as int]);
    }
    assert(s =~= a.take(s.len() as int));
    assert(t =~= b.take(t.len() as int));
    assert(x =~= a.skip(s.len() as int + 1));
    assert(y =~= b.skip(t.len() as int + 1));
}

proof fn lemma_operator_ends(a: BinOp, b: BinOp, x: Seq<char>, y: Seq<char>)
    requires
        x.len() > 0 && x[0] != '=',
        y.len() > 0 && y[0] != '=',
        a.symbol() + x == b.symbol() + y,
    ensures
        a == b,
        x == y,
{
    reveal_strlit("||");
    reveal_strlit("&&");
    reveal_strlit("==");
    reveal_strlit("!=");
    reveal_strlit("<");
    reveal_strlit(">");
    reveal_strlit("<=");
    reveal_strlit(">=");
    let s = a.symbol() + x;
    let t = b.symbol() + y;
    assert(s[0] == a.symbol()[0] && t[0] == b.symbol()[0]);
    assert(s[1] == t[1]);
    if a.symbol().len() == 1 {
        assert(s[1] == x[0]);
    } else {
        assert(s[1] == a.symbol()[1]);
    }
    if b.symbol().len() == 1 {
        assert(t[1] == y[0]);
    } else {
        assert(t[1] == b.symbol()[1]);
    }
    assert(a == b);
    assert(x =~= s.skip(a.symbol().len() as int));
    assert(y =~= t.skip(b.symbol().len() as int));
}

proof fn lemma_parted(l: Seq<char>, o: Seq<char>, r: Seq<char>, x: Seq<char>)
    ensures
        ("("@ + l + o + r + ")"@ + x).skip(1) == l + (o + (r + (")"@ + x))),
{
    reveal_strlit("(");
    assert(("("@ + l + o + r + ")"@ + x).skip(1) =~= l + (o + (r + (")"@ + x))));
}

proof fn lemma_closed(x: Seq<char>)
    ensures
        stops(")"@ + x),
        (")"@ + x).skip(1) == x,
{
    reveal_strlit(")");
    assert((")"@ + x)[0] == ')');
    assert((")"@ + x).skip(1) =~= x);
}

proof fn lemma_operator_stops(k: BinOp, x: Seq<char>)
    ensures
        stops(k.symbol() + x),
{
    reveal_strlit("||");
    reveal_strlit("&&");
    reveal_strlit("==");
    reveal_strlit("!=");
    reveal_strlit("<");
    reveal_strlit(">");
    reveal_strlit("<=");
    reveal_strlit(">=");
    assert((k.symbol() + x)[0] == k.symbol()[0]);
}

/// A key can be read back, whatever follows it.
proof fn lemma_read_back(a: ExprAst, b: ExprAst, x: Seq<char>, y: Seq<char>)
    requires
        readable(a),
        readable(b),
        stops(x),
        stops(y),
        canonical(a).unwrap() + x == canonical(b).unwrap() + y,
    ensures
        shape(a) == shape(b),
        x == y,
    decreases a, b,
{
    lemma_key_begins(a);
    lemma_key_begins(b);
    let s = canonical(a).unwrap();
    let t = canonical(b).unwrap();
    assert((s + x)[0] == s[0] && (t + y)[0] == t[0]);
    match (a, b) {
        (ExprAst::Paren { inner, .. }, _) => lemma_read_back(*inner, b, x, y),
        (_, ExprAst::Paren { inner, .. }) => lemma_read_back(a, *inner, x, y),
        (ExprAst::Integer { value: m, .. }, ExprAst::Integer { value: n, .. }) => {
            lemma_integer_text(m as int);
            lemma_integer_text(n as int);
            lemma_plain_ends(s, t, x, y);
            signed_decimal_tells_numbers_apart(m as int, n as int);
        },
        (ExprAst::String { value: m, .. }, ExprAst::String { value: n, .. }) => {
            reveal_strlit("\"");
            assert("\""@ =~= seq!['"']);
            assert((s + x).skip(1) =~= m@ + seq!['"'] + x);
            assert((t + y).skip(1) =~= n@ + seq!['"'] + y);
            lemma_string_ends(m@, n@, x, y);
        },
        (ExprAst::Macro { text: m, .. }, ExprAst::Macro { text: n, .. }) => {
            lemma_macro_ends(m@, n@, x, y);
        },
        (ExprAst::Identifier { name: m, .. }, ExprAst::Identifier { name: n, .. }) => {
            lemma_plain_ends(m@, n@, x, y);
        },
        (ExprAst::Not { inner: m, .. }, ExprAst::Not { inner: n, .. }) => {
            reveal_strlit("!");
            lemma_key_begins(*m);
            lemma_key_begins(*n);
            assert((s + x).skip(1) =~= canonical(*m).unwrap() + x);
            assert((t + y).skip(1) =~= canonical(*n).unwrap() + y);
            lemma_read_back(*m, *n, x, y);
        },
        (
            ExprAst::Binary { kind: k, lhs: l, rhs: r, .. },
            ExprAst::Binary { kind: j, lhs: m, rhs: n, .. },
        ) => {
            lemma_key_begins(*l);
            lemma_key_begins(*r);
            lemma_key_begins(*m);
            lemma_key_begins(*n);
            let x1 = canonical(*r).unwrap() + (")"@ + x);
            let y1 = canonical(*n).unwrap() + (")"@ + y);
            lemma_parted(canonical(*l).unwrap(), k.symbol(), canonical(*r).unwrap(), x);
            lemma_parted(canonical(*m).unwrap(), j.symbol(), canonical(*n).unwrap(), y);
            lemma_operator_stops(k, x1);
            lemma_operator_stops(j, y1);
            lemma_read_back(*l, *m, k.symbol() + x1, j.symbol() + y1);
            assert(x1[0] == canonical(*r).unwrap()[0] && y1[0] == canonical(*n).unwrap()[0]);
            lemma_operator_ends(k, j, x1, y1);
            lemma_closed(x);
            lemma_closed(y);
            lemma_read_back(*r, *n, ")"@ + x, ")"@ + y);
        },
        _ => {},
    }
}

/// Two expressions have the same key only if they are equal up to
/// parentheses.
pub proof fn keys_tell_expressions_apart(a: ExprAst, b: ExprAst)
    requires
        readable(a),
        readable(b),
    ensures
        canonical(a) is Some,
        canonical(a) == canonical(b) ==> shape(a) == shape(b),
{
    lemma_key_begins(a);
    lemma_key_begins(b);
    let none = Seq::<char>::empty();
    if canonical(a) == canonical(b) {
        lemma_read_back(a, b, none, none);
    }
}

/// Comparisons of the same operands by different operators have different
/// keys, whatever the operands are.
pub proof fn keys_tell_operators_apart(a: ExprAst, b: ExprAst)
    requires
        a matches ExprAst::Binary { kind: k, lhs: l, rhs: r, .. } && (b matches ExprAst::Binary {
            kind: j,
            lhs: m,
            rhs: n,
            ..
        } && k != j && canonical(*l) is Some && canonical(*r) is Some && canonical(*l) == canonical(
            *m,
        ) && canonical(*r) == canonical(*n)),
    ensures
        canonical(a) is Some,
        canonical(b) is Some,
        canonical(a) != canonical(b),
{
    reveal_strlit("||");
    reveal_strlit("&&");
    reveal_strlit("==");
    reveal_strlit("!=");
    reveal_strlit("<");
    reveal_strlit(">");
    reveal_strlit("<=");
    reveal_strlit(">=");
    reveal_strlit("(");
    match (a, b) {
        (
            ExprAst::Binary { kind: k, lhs: l, rhs: r, .. },
            ExprAst::Binary { kind: j, .. },
        ) => {
            let s = canonical(a).unwrap();
            let t = canonical(b).unwrap();
            let i = canonical(*l).unwrap().len() as int + 1;
            if s == t {
                assert(s.len() == t.len());
                assert(k.symbol().len() == j.symbol().len());
                assert(s[i] == k.symbol()[0] && t[i] == j.symbol()[0]);
                if k.symbol().len() == 2 {
                    assert(s[i + 1] == k.symbol()[1] && t[i + 1] == j.symbol()[1]);
                }
            }
        },
        _ => {},
    }
}

/// Shapes are those of expressions without their parentheses: two of them are
/// the same only if the expressions are of one kind, with the same operator
/// and the same parts.
pub proof fn shapes_tell_expressions_apart(a: ExprAst, b: ExprAst)
    requires
        shape(a) == shape(b),
    ensures
        match (a.bare(), b.bare()) {
            (ExprAst::Integer { value: m, .. }, ExprAst::Integer { value: n, .. }) => m == n,
            (ExprAst::String { value: m, .. }, ExprAst::String { value: n, .. }) => m@ == n@,
            (ExprAst::Macro { text: m, .. }, ExprAst::Macro { text: n, .. }) => m@ == n@,
            (ExprAst::Identifier { name: m, .. }, ExprAst::Identifier { name: n, .. }) => m@ == n@,
            (ExprAst::Not { inner: m, .. }, ExprAst::Not { inner: n, .. }) => shape(*m) == shape(*n),
            (
                ExprAst::Binary { kind: k, lhs: l, rhs: r, .. },
                ExprAst::Binary { kind: j, lhs: m, rhs: n, .. },
            ) => k == j && shape(*l) == shape(*m) && shape(*r) == shape(*n),
            (ExprAst::NumericConcat { parts: m, .. }, ExprAst::NumericConcat { parts: n, .. }) => {
                &&& m@.len() == n@.len()
                &&& forall|i: int|
                    0 <= i < m@.len() ==> match (#[trigger] m@[i], n@[i]) {
                        (
                            crate::ast::ConcatPart::Literal(x),
                            crate::ast::ConcatPart::Literal(y),
                        ) => x@ == y@,
                        (crate::ast::ConcatPart::Macro(x), crate::ast::ConcatPart::Macro(y)) => x@
                            == y@,
                        _ => false,
                    }
            },
            _ => false,
        },
    decreases a, b,
{
    match (a, b) {
        (ExprAst::Paren { inner, .. }, _) => shapes_tell_expressions_apart(*inner, b),
        (_, ExprAst::Paren { inner, .. }) => shapes_tell_expressions_apart(a, *inner),
        (ExprAst::NumericConcat { parts: m, .. }, ExprAst::NumericConcat { parts: n, .. }) => {
            let f = |p: crate::ast::ConcatPart| part_shape(p);
            let x = m@.map_values(f);
            let y = n@.map_values(f);
            assert(x == y);
            assert forall|i: int| 0 <= i < m@.len() implies match (#[trigger] m@[i], n@[i]) {
                (crate::ast::ConcatPart::Literal(x), crate::ast::ConcatPart::Literal(y)) => x@ == y@,
                (crate::ast::ConcatPart::Macro(x), crate::ast::ConcatPart::Macro(y)) => x@ == y@,
                _ => false,
            } by {
                assert(x[i] == part_shape(m@[i]) && y[i] == part_shape(n@[i]));
            }
        },
        _ => {},
    }
}

/// Parentheses do not show in a shape, and expressions of one kind, with the
/// same operator and the same parts have the same.
pub proof fn equal_parts_make_equal_shapes(a: ExprAst, b: ExprAst)
    requires
        match (a, b) {
            (ExprAst::Paren { inner, .. }, _) => *inner == b,
            (ExprAst::Integer { value: m, .. }, ExprAst::Integer { value: n, .. }) => m == n,
            (ExprAst::String { value: m, .. }, ExprAst::String { value: n, .. }) => m@ == n@,
            (ExprAst::Macro { text: m, .. }, ExprAst::Macro { text: n, .. }) => m@ == n@,
            (ExprAst::Identifier { name: m, .. }, ExprAst::Identifier { name: n, .. }) => m@ == n@,
            (ExprAst::Not { inner: m, .. }, ExprAst::Not { inner: n, .. }) => shape(*m) == shape(*n),
            (
                ExprAst::Binary { kind: k, lhs: l, rhs: r, .. },
                ExprAst::Binary { kind: j, lhs: m, rhs: n, .. },
            ) => k == j && shape(*l) == shape(*m) && shape(*r) == shape(*n),
            _ => false,
        },
    ensures
        shape(a) == shape(b),
{
}

/// The keys of lists are told apart by what they are about and by the name,
/// and none is that of an expression.
pub proof fn list_keys_are_their_own(system: bool, name: Seq<char>, other: bool, n: Seq<char>)
    ensures
        arch_key(system, name) == arch_key(other, n) ==> system == other && name == n,
        forall|e: ExprAst| readable(e) ==> #[trigger] canonical(e) != Some(arch_key(system, name)),
{
    reveal_strlit("OS=");
    reveal_strlit("ARCH=");
    let s = arch_key(system, name);
    let t = arch_key(other, n);
    if s == t {
        assert(s[0] == t[0]);
        let k: int = if system {
            3
        } else {
            5
        };
        assert(name =~= s.skip(k));
        assert(n =~= t.skip(k));
    }
    assert forall|e: ExprAst| readable(e) implies #[trigger] canonical(e) != Some(s) by {
        lemma_key_begins(e);
        lemma_bare_key(e);
        if canonical(e) == Some(s) {
            assert(s[0] == 'O' || s[0] == 'A');
            let i: int = if system {
                2
            } else {
                4
            };
            assert(s[i] == '=');
            assert(e.bare() is Identifier);
        }
    }
}

proof fn lemma_bare_key(e: ExprAst)
    ensures
        canonical(e.bare()) == canonical(e),
        readable(e.bare()) == readable(e),
    decreases e,
{
    match e {
        ExprAst::Paren { inner, .. } => lemma_bare_key(*inner),
        _ => {},
    }
}

/// An expression has a key exactly if no number that is joined with a macro
/// is part of it.
pub proof fn keys_exist_without_joined_numbers(e: ExprAst)
    ensures
        canonical(e) is None <==> has_part(e, |p: ExprAst| p is NumericConcat),
    decreases e,
{
    parts_are_found_in_operands(e, |p: ExprAst| p is NumericConcat);
    match e {
        ExprAst::Paren { inner, .. } => keys_exist_without_joined_numbers(*inner),
        ExprAst::Not { inner, .. } => keys_exist_without_joined_numbers(*inner),
        ExprAst::Binary { lhs, rhs, .. } => {
            keys_exist_without_joined_numbers(*lhs);
            keys_exist_without_joined_numbers(*rhs);
        },
        _ => {},
    }
}

} // verus!
