//! What the boolean machinery promises: normal forms mean what the
//! conditions they were made from mean.
use vstd::prelude::*;
use vstd::set_lib::*;

use crate::ast::{CondExpr, ExprAst};
use crate::condition::{
    arch_dnf, arch_key, arch_keys, arch_literal, arch_names, asked_dnf, atom_dnf, canonical, cond_dnf, dnf_of,
    interned, lemma_arch_keys, lemma_interned, lemma_slot_bound, slot,
};
use crate::dnf::{
    bits, contradictory, covers, cube_holds, dnf_holds, entails, joins, literal_holds, minimal,
    pow2_u32, product, subsumed, AtomId, Literal,
};
use crate::text::trim;

verus! {

/// Whether a condition over text is true, where `val` says which atoms are.
pub open spec fn truth(e: ExprAst, val: spec_fn(Seq<char>) -> bool) -> bool
    decreases e,
{
    match e {
        ExprAst::Paren { inner, .. } => truth(*inner, val),
        ExprAst::Not { inner, .. } => !truth(*inner, val),
        ExprAst::Binary { kind, lhs, rhs, .. } if !kind.compares() => if kind is LogOr {
            truth(*lhs, val) || truth(*rhs, val)
        } else {
            truth(*lhs, val) && truth(*rhs, val)
        },
        _ => match canonical(e) {
            Some(key) => val(key),
            None => false,
        },
    }
}

/// Whether a condition is true: a text by itself, an expression by its atoms,
/// a list of architectures if one of them is the architecture.
pub open spec fn cond_truth(c: CondExpr, val: spec_fn(Seq<char>) -> bool) -> bool {
    asked_truth(c, false, val)
}

/// Whether a condition is true, where `system` tells a list of systems from
/// one of architectures.
pub open spec fn asked_truth(c: CondExpr, system: bool, val: spec_fn(Seq<char>) -> bool) -> bool {
    match c {
        CondExpr::Raw(t) => match t.literal() {
            Some(s) => val(trim(s)),
            None => false,
        },
        CondExpr::Parsed(e) => truth(*e, val),
        CondExpr::ArchList(list) => match arch_names(list@) {
            Some(names) => exists|i: int|
                0 <= i < names.len() && val(arch_key(system, #[trigger] names[i])),
            None => false,
        },
    }
}

/// The values of numbered atoms, from the values of their keys.
pub open spec fn valuation(
    keys: Seq<Seq<char>>,
    val: spec_fn(Seq<char>) -> bool,
) -> spec_fn(AtomId) -> bool {
    |a: AtomId| val(keys[a as int])
}

/// A normal form whose cubes are finite, free of contradictions and made of
/// the first `n` atoms.
pub open spec fn sound(d: Set<Set<Literal>>, n: nat) -> bool {
    &&& d.finite()
    &&& forall|c: Set<Literal>| #[trigger]
        d.contains(c) ==> c.finite() && !contradictory(c) && within(c, n)
}

/// Every literal of `c` is about one of the first `n` atoms.
pub open spec fn within(c: Set<Literal>, n: nat) -> bool {
    forall|l: Literal| #[trigger] c.contains(l) ==> l.atom < n
}

/// A conjunction is true where both sides are.
pub proof fn product_means_and(
    a: Set<Set<Literal>>,
    b: Set<Set<Literal>>,
    env: spec_fn(AtomId) -> bool,
)
    ensures
        dnf_holds(product(a, b), env) == (dnf_holds(a, env) && dnf_holds(b, env)),
{
    if dnf_holds(product(a, b), env) {
        let m = choose|m: Set<Literal>| product(a, b).contains(m) && #[trigger] cube_holds(m, env);
        assert(joins(a, b, m));
        let (x, y) = choose|x: Set<Literal>, y: Set<Literal>|
            #[trigger] a.contains(x) && #[trigger] b.contains(y) && m == x.union(y);
        assert forall|l: Literal| x.contains(l) implies #[trigger] literal_holds(l, env) by {
            assert(m.contains(l));
        }
        assert forall|l: Literal| y.contains(l) implies #[trigger] literal_holds(l, env) by {
            assert(m.contains(l));
        }
        assert(cube_holds(x, env));
        assert(cube_holds(y, env));
    }
    if dnf_holds(a, env) && dnf_holds(b, env) {
        let x = choose|x: Set<Literal>| a.contains(x) && #[trigger] cube_holds(x, env);
        let y = choose|y: Set<Literal>| b.contains(y) && #[trigger] cube_holds(y, env);
        let m = x.union(y);
        assert(cube_holds(m, env)) by {
            assert forall|l: Literal| m.contains(l) implies #[trigger] literal_holds(l, env) by {}
        }
        lemma_true_cube(m, env);
        assert(joins(a, b, m));
        assert(product(a, b).contains(m));
    }
}

/// A cube that is true somewhere holds no contradiction.
pub proof fn lemma_true_cube(c: Set<Literal>, env: spec_fn(AtomId) -> bool)
    requires
        cube_holds(c, env),
    ensures
        !contradictory(c),
{
    if contradictory(c) {
        let l = choose|l: Literal| #[trigger] c.contains(l) && c.contains(l.opposite());
        assert(literal_holds(l, env));
        assert(literal_holds(l.opposite(), env));
    }
}

/// A disjunction is true where one side is.
pub proof fn union_means_or(
    a: Set<Set<Literal>>,
    b: Set<Set<Literal>>,
    env: spec_fn(AtomId) -> bool,
)
    ensures
        dnf_holds(a.union(b), env) == (dnf_holds(a, env) || dnf_holds(b, env)),
{
    if dnf_holds(a.union(b), env) {
        let c = choose|c: Set<Literal>| a.union(b).contains(c) && #[trigger] cube_holds(c, env);
        assert(a.contains(c) || b.contains(c));
    }
    if dnf_holds(a, env) {
        let c = choose|c: Set<Literal>| a.contains(c) && #[trigger] cube_holds(c, env);
        assert(a.union(b).contains(c));
    }
    if dnf_holds(b, env) {
        let c = choose|c: Set<Literal>| b.contains(c) && #[trigger] cube_holds(c, env);
        assert(a.union(b).contains(c));
    }
}

/// Below every cube of `d` there is one that no other makes redundant.
proof fn lemma_minimal_below(d: Set<Set<Literal>>, c: Set<Literal>) -> (m: Set<Literal>)
    requires
        d.contains(c),
        forall|x: Set<Literal>| #[trigger] d.contains(x) ==> x.finite(),
    ensures
        minimal(d).contains(m),
        m.subset_of(c),
    decreases c.len(),
{
    if subsumed(d, c) {
        let o = choose|o: Set<Literal>| #[trigger] d.contains(o) && o.subset_of(c) && o != c;
        lemma_len_subset(o, c);
        if o.len() == c.len() {
            lemma_subset_equality(o, c);
        }
        lemma_minimal_below(d, o)
    } else {
        c
    }
}

/// Dropping redundant cubes keeps the meaning.
pub proof fn minimal_keeps_meaning(d: Set<Set<Literal>>, env: spec_fn(AtomId) -> bool)
    requires
        forall|x: Set<Literal>| #[trigger] d.contains(x) ==> x.finite(),
    ensures
        dnf_holds(minimal(d), env) == dnf_holds(d, env),
{
    if dnf_holds(d, env) {
        let c = choose|c: Set<Literal>| d.contains(c) && #[trigger] cube_holds(c, env);
        let m = lemma_minimal_below(d, c);
        assert(cube_holds(m, env)) by {
            assert forall|l: Literal| m.contains(l) implies #[trigger] literal_holds(l, env) by {
                assert(c.contains(l));
            }
        }
    }
    if dnf_holds(minimal(d), env) {
        let c = choose|c: Set<Literal>| minimal(d).contains(c) && #[trigger] cube_holds(c, env);
        assert(d.contains(c));
    }
}

/// Dropping redundant cubes twice drops no more than dropping them once.
pub proof fn minimal_is_idempotent(d: Set<Set<Literal>>)
    ensures
        minimal(minimal(d)) == minimal(d),
{
    assert forall|c: Set<Literal>| minimal(d).contains(c) implies minimal(minimal(d)).contains(
        c,
    ) by {
        if subsumed(minimal(d), c) {
            let o = choose|o: Set<Literal>|
                #[trigger] minimal(d).contains(o) && o.subset_of(c) && o != c;
            assert(d.contains(o));
            assert(subsumed(d, c));
        }
    }
    assert(minimal(minimal(d)) =~= minimal(d));
}

/// A normal form without contradictory cubes can never be true exactly if it
/// has no cube.
pub proof fn unsatisfiable_iff_empty(d: Set<Set<Literal>>)
    requires
        forall|c: Set<Literal>| #[trigger] d.contains(c) ==> !contradictory(c),
    ensures
        (forall|env: spec_fn(AtomId) -> bool| !#[trigger] dnf_holds(d, env)) <==> d == Set::<
            Set<Literal>,
        >::empty(),
{
    if d != Set::<Set<Literal>>::empty() {
        if forall|c: Set<Literal>| !d.contains(c) {
            assert(d =~= Set::<Set<Literal>>::empty());
        }
        let c = choose|c: Set<Literal>| d.contains(c);
        let env = |a: AtomId| c.contains(Literal { atom: a, negated: false });
        assert(cube_holds(c, env)) by {
            assert forall|l: Literal| c.contains(l) implies #[trigger] literal_holds(l, env) by {
                if l.negated {
                    assert(l.opposite() == Literal { atom: l.atom, negated: false });
                } else {
                    assert(l == Literal { atom: l.atom, negated: false });
                }
            }
        }
        assert(dnf_holds(d, env));
    }
}

/// The assignment whose first `n` bits are the values of `env`.
spec fn encode(env: spec_fn(AtomId) -> bool, n: nat) -> u32
    decreases n,
{
    if n == 0 {
        0u32
    } else {
        let low = encode(env, (n - 1) as nat);
        if env((n - 1) as AtomId) {
            low | (1u32 << ((n - 1) as u32))
        } else {
            low
        }
    }
}

proof fn lemma_encode(env: spec_fn(AtomId) -> bool, n: nat)
    requires
        n <= 8,
    ensures
        encode(env, n) < pow2_u32(n),
        forall|a: AtomId| a < n ==> #[trigger] bits(encode(env, n))(a) == env(a),
        pow2_u32(n) == 1u32 << (n as u32),
        pow2_u32(n) <= 256,
    decreases n,
{
    if n == 0 {
        assert(1u32 << 0u32 == 1u32) by (bit_vector);
    } else {
        lemma_encode(env, (n - 1) as nat);
        let low = encode(env, (n - 1) as nat);
        let k = (n - 1) as u32;
        let high = low | (1u32 << k);
        assert(high < 2 * (1u32 << k) && (high >> k) & 1 == 1 && (low >> k) & 1 == 0 && (1u32 << (k + 1) as u32)
            == 2 * (1u32 << k)) by (bit_vector)
            requires
                k < 8,
                high == low | (1u32 << k),
                low < (1u32 << k),
        ;
        let w = n as u32;
        assert((1u32 << w) <= 256) by (bit_vector)
            requires
                w <= 8,
        ;
        assert forall|a: AtomId| a < n implies #[trigger] bits(encode(env, n))(a) == env(a) by {
            let b = a as u32;
            if a < n - 1 {
                assert(bits(low)(a) == env(a));
                assert((high >> b) & 1 == (low >> b) & 1) by (bit_vector)
                    requires
                        k < 8,
                        b < k,
                        high == low | (1u32 << k),
                ;
            }
        }
    }
}

/// Two valuations that agree on the first `n` atoms agree on what is made of
/// them.
proof fn lemma_agree(
    d: Set<Set<Literal>>,
    n: nat,
    e1: spec_fn(AtomId) -> bool,
    e2: spec_fn(AtomId) -> bool,
)
    requires
        forall|c: Set<Literal>| #[trigger] d.contains(c) ==> within(c, n),
        forall|a: AtomId| a < n ==> #[trigger] e1(a) == e2(a),
    ensures
        dnf_holds(d, e1) ==> dnf_holds(d, e2),
{
    if dnf_holds(d, e1) {
        let c = choose|c: Set<Literal>| d.contains(c) && #[trigger] cube_holds(c, e1);
        assert(cube_holds(c, e2)) by {
            assert forall|l: Literal| c.contains(l) implies #[trigger] literal_holds(l, e2) by {
                assert(literal_holds(l, e1));
                assert(e1(l.atom) == e2(l.atom));
            }
        }
    }
}

/// The truth table decides: a normal form of the first `n` atoms is true for
/// every assignment to them exactly if it is true whatever the atoms are.
pub proof fn truth_table_decides(d: Set<Set<Literal>>, n: nat)
    requires
        n <= crate::dnf::MAX_ATOMS_FOR_TAUTOLOGY,
        forall|c: Set<Literal>| #[trigger] d.contains(c) ==> within(c, n),
    ensures
        covers(d, n) <==> forall|env: spec_fn(AtomId) -> bool| #[trigger] dnf_holds(d, env),
{
    if covers(d, n) {
        assert forall|env: spec_fn(AtomId) -> bool| #[trigger] dnf_holds(d, env) by {
            lemma_encode(env, n);
            let m = encode(env, n);
            assert(dnf_holds(d, bits(m)));
            lemma_agree(d, n, bits(m), env);
        }
    }
}

/// The truth table decides implication in the same way.
pub proof fn truth_table_decides_implication(p: Set<Set<Literal>>, q: Set<Set<Literal>>, n: nat)
    requires
        n <= crate::dnf::MAX_ATOMS_FOR_TAUTOLOGY,
        forall|c: Set<Literal>| #[trigger] p.contains(c) ==> within(c, n),
        forall|c: Set<Literal>| #[trigger] q.contains(c) ==> within(c, n),
    ensures
        entails(p, q, n) <==> forall|env: spec_fn(AtomId) -> bool|
            #[trigger] dnf_holds(p, env) ==> dnf_holds(q, env),
{
    if entails(p, q, n) {
        assert forall|env: spec_fn(AtomId) -> bool| #[trigger] dnf_holds(p, env) implies dnf_holds(
            q,
            env,
        ) by {
            lemma_encode(env, n);
            let m = encode(env, n);
            lemma_agree(p, n, env, bits(m));
            assert(dnf_holds(p, bits(m)));
            lemma_agree(q, n, bits(m), env);
        }
    }
    if forall|env: spec_fn(AtomId) -> bool| #[trigger] dnf_holds(p, env) ==> dnf_holds(q, env) {
        assert forall|m: u32|
            m < pow2_u32(n) && dnf_holds(p, #[trigger] bits(m)) implies dnf_holds(q, bits(m)) by {}
    }
}

/// More atoms leave a sound normal form sound.
proof fn lemma_sound_more(d: Set<Set<Literal>>, n: nat, m: nat)
    requires
        sound(d, n),
        n <= m,
    ensures
        sound(d, m),
{
    assert forall|c: Set<Literal>| #[trigger] d.contains(c) implies c.finite() && !contradictory(c)
        && within(c, m) by {
        assert(within(c, n));
        assert forall|l: Literal| #[trigger] c.contains(l) implies l.atom < m by {}
    }
}

pub proof fn lemma_sound_product(a: Set<Set<Literal>>, b: Set<Set<Literal>>, n: nat)
    requires
        sound(a, n),
        sound(b, n),
    ensures
        sound(product(a, b), n),
{
    crate::dnf::lemma_product_finite(a, b);
    assert forall|m: Set<Literal>| #[trigger] product(a, b).contains(m) implies m.finite()
        && !contradictory(m) && within(m, n) by {
        assert(joins(a, b, m));
        let (x, y) = choose|x: Set<Literal>, y: Set<Literal>|
            #[trigger] a.contains(x) && #[trigger] b.contains(y) && m == x.union(y);
        assert(within(x, n) && within(y, n));
        assert forall|l: Literal| #[trigger] m.contains(l) implies l.atom < n by {
            assert(x.contains(l) || y.contains(l));
        }
    }
}

proof fn lemma_sound_single(l: Literal, n: nat)
    requires
        l.atom < n,
    ensures
        sound(set![set![l]], n),
{
    assert forall|c: Set<Literal>| #[trigger] set![set![l]].contains(c) implies c.finite()
        && !contradictory(c) && within(c, n) by {
        assert(c == set![l]);
    }
}

/// The normal form of an expression is true exactly where the expression is,
/// or, where it was negated, exactly where the expression is not.
pub proof fn normal_form_means_expression(
    e: ExprAst,
    keys: Seq<Seq<char>>,
    negate: bool,
    val: spec_fn(Seq<char>) -> bool,
)
    requires
        dnf_of(e, keys, negate).keys.len() <= usize::MAX,
    ensures
        keys.is_prefix_of(dnf_of(e, keys, negate).keys),
        dnf_of(e, keys, negate).dnf matches Some(d) ==> {
            &&& sound(d, dnf_of(e, keys, negate).keys.len())
            &&& dnf_holds(d, valuation(dnf_of(e, keys, negate).keys, val)) == (truth(e, val)
                != negate)
        },
    decreases e,
{
    match e {
        ExprAst::Paren { inner, .. } => {
            normal_form_means_expression(*inner, keys, negate, val);
        },
        ExprAst::Not { inner, .. } => {
            normal_form_means_expression(*inner, keys, !negate, val);
        },
        ExprAst::Binary { kind, lhs, rhs, .. } if !kind.compares() => {
            let l = dnf_of(*lhs, keys, negate);
            if l.dnf is Some {
                let r = dnf_of(*rhs, l.keys, negate);
                lemma_keys_grow(*rhs, l.keys, negate);
                normal_form_means_expression(*lhs, keys, negate, val);
                normal_form_means_expression(*rhs, l.keys, negate, val);
                if r.dnf is Some {
                    let a = l.dnf.unwrap();
                    let b = r.dnf.unwrap();
                    let n = r.keys.len();
                    let env = valuation(r.keys, val);
                    lemma_more_atoms(a, l.keys, r.keys, val);
                    product_means_and(a, b, env);
                    union_means_or(a, b, env);
                    lemma_sound_product(a, b, n);
                    assert(sound(a.union(b), n)) by {
                        assert forall|c: Set<Literal>| #[trigger] a.union(b).contains(c) implies c.finite()
                            && !contradictory(c) && within(c, n) by {
                            assert(a.contains(c) || b.contains(c));
                        }
                    }
                }
            } else {
                lemma_keys_grow(*lhs, keys, negate);
            }
        },
        _ => {
            lemma_atom(e, keys, negate, val);
        },
    }
}

/// More atoms leave the meaning of a normal form as it is.
pub proof fn lemma_more_atoms(
    d: Set<Set<Literal>>,
    keys: Seq<Seq<char>>,
    more: Seq<Seq<char>>,
    val: spec_fn(Seq<char>) -> bool,
)
    requires
        sound(d, keys.len()),
        keys.is_prefix_of(more),
    ensures
        sound(d, more.len()),
        dnf_holds(d, valuation(more, val)) == dnf_holds(d, valuation(keys, val)),
{
    let n = keys.len();
    lemma_sound_more(d, n, more.len());
    assert forall|x: AtomId| x < n implies #[trigger] valuation(keys, val)(x) == valuation(more, val)(
        x,
    ) by {
        assert(keys[x as int] == more[x as int]);
    }
    lemma_agree(d, n, valuation(keys, val), valuation(more, val));
    lemma_agree_back(d, n, valuation(keys, val), valuation(more, val));
}

proof fn lemma_agree_back(
    d: Set<Set<Literal>>,
    n: nat,
    e1: spec_fn(AtomId) -> bool,
    e2: spec_fn(AtomId) -> bool,
)
    requires
        forall|c: Set<Literal>| #[trigger] d.contains(c) ==> within(c, n),
        forall|a: AtomId| a < n ==> #[trigger] e1(a) == e2(a),
    ensures
        dnf_holds(d, e2) ==> dnf_holds(d, e1),
{
    assert forall|a: AtomId| a < n implies #[trigger] e2(a) == e1(a) by {
        assert(e1(a) == e2(a));
    }
    lemma_agree(d, n, e2, e1);
}

proof fn lemma_atom(
    e: ExprAst,
    keys: Seq<Seq<char>>,
    negate: bool,
    val: spec_fn(Seq<char>) -> bool,
)
    requires
        atom_dnf(e, keys, negate).keys.len() <= usize::MAX,
    ensures
        keys.is_prefix_of(atom_dnf(e, keys, negate).keys),
        atom_dnf(e, keys, negate).dnf matches Some(d) ==> {
            &&& sound(d, atom_dnf(e, keys, negate).keys.len())
            &&& dnf_holds(d, valuation(atom_dnf(e, keys, negate).keys, val)) == (val(
                canonical(e).unwrap(),
            ) != negate)
        },
{
    match canonical(e) {
        None => {},
        Some(key) => {
            lemma_interned(keys, key);
            let more = interned(keys, key);
            let l = Literal { atom: slot(keys, key) as usize, negated: negate };
            let env = valuation(more, val);
            let d = set![set![l]];
            lemma_sound_single(l, more.len());
            assert(d.contains(set![l]));
            assert(set![l].contains(l));
            if literal_holds(l, env) {
                assert(cube_holds(set![l], env));
            }
            if dnf_holds(d, env) {
                let c = choose|c: Set<Literal>| d.contains(c) && #[trigger] cube_holds(c, env);
                assert(c == set![l]);
                assert(literal_holds(l, env));
            }
        },
    }
}

/// A conversion only adds atoms.
pub proof fn lemma_keys_grow(e: ExprAst, keys: Seq<Seq<char>>, negate: bool)
    ensures
        keys.is_prefix_of(dnf_of(e, keys, negate).keys),
    decreases e,
{
    match e {
        ExprAst::Paren { inner, .. } => lemma_keys_grow(*inner, keys, negate),
        ExprAst::Not { inner, .. } => lemma_keys_grow(*inner, keys, !negate),
        ExprAst::Binary { kind, lhs, rhs, .. } if !kind.compares() => {
            let l = dnf_of(*lhs, keys, negate);
            lemma_keys_grow(*lhs, keys, negate);
            if l.dnf is Some {
                lemma_keys_grow(*rhs, l.keys, negate);
                let r = dnf_of(*rhs, l.keys, negate);
                assert(keys =~= r.keys.subrange(0, keys.len() as int)) by {
                    assert(forall|i: int| 0 <= i < keys.len() ==> keys[i] == l.keys[i]);
                    assert(forall|i: int| 0 <= i < l.keys.len() ==> l.keys[i] == r.keys[i]);
                }
            }
        },
        _ => {
            match canonical(e) {
                Some(key) => lemma_interned(keys, key),
                None => {},
            }
        },
    }
}

/// The normal form of a condition is true exactly where the condition
/// is, or, where it was negated, exactly where the condition is not.
pub proof fn normal_form_means_condition(
    c: CondExpr,
    keys: Seq<Seq<char>>,
    negate: bool,
    val: spec_fn(Seq<char>) -> bool,
)
    requires
        cond_dnf(c, keys, negate).keys.len() <= usize::MAX,
    ensures
        keys.is_prefix_of(cond_dnf(c, keys, negate).keys),
        cond_dnf(c, keys, negate).dnf matches Some(d) ==> {
            &&& sound(d, cond_dnf(c, keys, negate).keys.len())
            &&& dnf_holds(d, valuation(cond_dnf(c, keys, negate).keys, val)) == (cond_truth(c, val)
                != negate)
        },
{
    normal_form_means_question(c, false, keys, negate, val);
}

/// The normal form of a condition is true exactly where the condition is, or,
/// where it was negated, exactly where the condition is not, whether its list
/// is one of systems or of architectures.
pub proof fn normal_form_means_question(
    c: CondExpr,
    system: bool,
    keys: Seq<Seq<char>>,
    negate: bool,
    val: spec_fn(Seq<char>) -> bool,
)
    requires
        asked_dnf(c, system, keys, negate).keys.len() <= usize::MAX,
    ensures
        keys.is_prefix_of(asked_dnf(c, system, keys, negate).keys),
        asked_dnf(c, system, keys, negate).dnf matches Some(d) ==> {
            &&& sound(d, asked_dnf(c, system, keys, negate).keys.len())
            &&& dnf_holds(d, valuation(asked_dnf(c, system, keys, negate).keys, val)) == (asked_truth(
                c,
                system,
                val,
            ) != negate)
        },
{
    match c {
        CondExpr::Raw(_) => {},
        CondExpr::Parsed(e) => normal_form_means_expression(*e, keys, negate, val),
        CondExpr::ArchList(list) => {
            if arch_names(list@) is Some {
                let names = arch_names(list@).unwrap();
                let ks = arch_keys(system, names, keys);
                lemma_arch_keys(system, names, keys);
                if arch_dnf(system, names, ks, negate) is Some {
                    lemma_arch_means(system, names, ks, negate, val);
                }
            }
        },
    }
}

proof fn lemma_arch_means(
    system: bool,
    names: Seq<Seq<char>>,
    ks: Seq<Seq<char>>,
    negate: bool,
    val: spec_fn(Seq<char>) -> bool,
)
    requires
        ks.len() <= usize::MAX,
        forall|i: int| 0 <= i < names.len() ==> slot(ks, arch_key(system, #[trigger] names[i])) < ks.len(),
        arch_dnf(system, names, ks, negate) is Some,
    ensures
        sound(arch_dnf(system, names, ks, negate).unwrap(), ks.len()),
        dnf_holds(arch_dnf(system, names, ks, negate).unwrap(), valuation(ks, val)) == ((exists|i: int|
            0 <= i < names.len() && val(arch_key(system, #[trigger] names[i]))) != negate),
{
    let env = valuation(ks, val);
    let d = arch_dnf(system, names, ks, negate).unwrap();
    assert forall|i: int| 0 <= i < names.len() implies ks[slot(ks, arch_key(system, #[trigger] names[i])) as int]
        == arch_key(system, names[i]) by {
        lemma_slot_key(ks, arch_key(system, names[i]));
    }
    if negate {
        let f = |n: Seq<char>| arch_literal(system, ks, n, true);
        let lits = names.map_values(f);
        let cube = lits.to_set();
        vstd::seq_lib::seq_to_set_is_finite(lits);
        assert(d.contains(cube));
        assert forall|l: Literal| #[trigger] cube.contains(l) implies l.atom < ks.len() && l.negated by {
            let i = choose|i: int| 0 <= i < lits.len() && lits[i] == l;
            assert(lits[i] == arch_literal(system, ks, names[i], true));
            assert(slot(ks, arch_key(system, names[i])) < ks.len());
        }
        assert(!contradictory(cube)) by {
            if contradictory(cube) {
                let l = choose|l: Literal| #[trigger] cube.contains(l) && cube.contains(l.opposite());
                assert(l.negated && l.opposite().negated);
            }
        }
        assert(within(cube, ks.len()));
        assert forall|c: Set<Literal>| #[trigger] d.contains(c) implies c == cube by {}
        assert(sound(d, ks.len()));
        if exists|i: int| 0 <= i < names.len() && val(arch_key(system, #[trigger] names[i])) {
            let i = choose|i: int| 0 <= i < names.len() && val(arch_key(system, #[trigger] names[i]));
            let l = arch_literal(system, ks, names[i], true);
            assert(lits[i] == l);
            assert(cube.contains(l));
            assert(!literal_holds(l, env)) by {
                assert(slot(ks, arch_key(system, names[i])) < ks.len());
            }
        } else {
            assert(cube_holds(cube, env)) by {
                assert forall|l: Literal| cube.contains(l) implies #[trigger] literal_holds(l, env) by {
                    let i = choose|i: int| 0 <= i < lits.len() && lits[i] == l;
                    assert(lits[i] == arch_literal(system, ks, names[i], true));
                    assert(!val(arch_key(system, names[i])));
                    assert(slot(ks, arch_key(system, names[i])) < ks.len());
                }
            }
        }
    } else {
        let f = |n: Seq<char>| set![arch_literal(system, ks, n, false)];
        let cubes = names.map_values(f);
        vstd::seq_lib::seq_to_set_is_finite(cubes);
        assert(d == cubes.to_set());
        assert forall|c: Set<Literal>| #[trigger] d.contains(c) implies c.finite()
            && !contradictory(c) && within(c, ks.len()) by {
            let i = choose|i: int| 0 <= i < cubes.len() && cubes[i] == c;
            assert(c == set![arch_literal(system, ks, names[i], false)]);
            assert(slot(ks, arch_key(system, names[i])) < ks.len());
        }
        if exists|i: int| 0 <= i < names.len() && val(arch_key(system, #[trigger] names[i])) {
            let i = choose|i: int| 0 <= i < names.len() && val(arch_key(system, #[trigger] names[i]));
            let l = arch_literal(system, ks, names[i], false);
            let c = set![l];
            assert(cubes[i] == c);
            assert(d.contains(c));
            assert(slot(ks, arch_key(system, names[i])) < ks.len());
            assert(literal_holds(l, env));
            assert(cube_holds(c, env));
        }
        if dnf_holds(d, env) {
            let c = choose|c: Set<Literal>| d.contains(c) && #[trigger] cube_holds(c, env);
            let i = choose|i: int| 0 <= i < cubes.len() && cubes[i] == c;
            let l = arch_literal(system, ks, names[i], false);
            assert(c == set![l]);
            assert(c.contains(l));
            assert(literal_holds(l, env));
            assert(slot(ks, arch_key(system, names[i])) < ks.len());
            assert(val(arch_key(system, names[i])));
        }
    }
}

proof fn lemma_slot_key(keys: Seq<Seq<char>>, key: Seq<char>)
    requires
        slot(keys, key) < keys.len(),
    ensures
        keys[slot(keys, key) as int] == key,
    decreases keys.len(),
{
    if keys[0] != key {
        lemma_slot_key(keys.skip(1), key);
    }
}

/// Interning keeps the keys different.
proof fn lemma_interned_unique(keys: Seq<Seq<char>>, key: Seq<char>)
    requires
        keys.no_duplicates(),
    ensures
        interned(keys, key).no_duplicates(),
{
    lemma_slot_bound(keys, key);
    if slot(keys, key) >= keys.len() {
        assert(!keys.contains(key));
        assert forall|i: int| 0 <= i < keys.len() implies keys[i] != key by {
            assert(keys.contains(keys[i]));
        }
    }
}

/// A conversion keeps the keys of the atoms different.
proof fn lemma_keys_unique(e: ExprAst, keys: Seq<Seq<char>>, negate: bool)
    requires
        keys.no_duplicates(),
    ensures
        dnf_of(e, keys, negate).keys.no_duplicates(),
    decreases e,
{
    match e {
        ExprAst::Paren { inner, .. } => lemma_keys_unique(*inner, keys, negate),
        ExprAst::Not { inner, .. } => lemma_keys_unique(*inner, keys, !negate),
        ExprAst::Binary { kind, lhs, rhs, .. } if !kind.compares() => {
            let l = dnf_of(*lhs, keys, negate);
            lemma_keys_unique(*lhs, keys, negate);
            if l.dnf is Some {
                lemma_keys_unique(*rhs, l.keys, negate);
            }
        },
        _ => {
            match canonical(e) {
                Some(key) => lemma_interned_unique(keys, key),
                None => {},
            }
        },
    }
}

proof fn lemma_arch_keys_unique(system: bool, names: Seq<Seq<char>>, keys: Seq<Seq<char>>)
    requires
        keys.no_duplicates(),
    ensures
        arch_keys(system, names, keys).no_duplicates(),
    decreases names.len(),
{
    if names.len() > 0 {
        lemma_arch_keys_unique(system, names.drop_last(), keys);
        lemma_interned_unique(arch_keys(system, names.drop_last(), keys), arch_key(system, names.last()));
    }
}

/// A conversion keeps the keys of the atoms different.
pub proof fn lemma_cond_keys_unique(c: CondExpr, keys: Seq<Seq<char>>, negate: bool)
    requires
        keys.no_duplicates(),
    ensures
        cond_dnf(c, keys, negate).keys.no_duplicates(),
{
    match c {
        CondExpr::Raw(_) => {},
        CondExpr::Parsed(e) => lemma_keys_unique(*e, keys, negate),
        CondExpr::ArchList(list) => match arch_names(list@) {
            Some(names) => lemma_arch_keys_unique(false, names, keys),
            None => {},
        },
    }
}

/// The values of the atoms that an assignment to their numbers gives.
pub open spec fn assigned(
    keys: Seq<Seq<char>>,
    env: spec_fn(AtomId) -> bool,
) -> spec_fn(Seq<char>) -> bool {
    |k: Seq<char>| exists|a: AtomId| a < keys.len() && #[trigger] keys[a as int] == k && env(a)
}

/// Where the keys are different, every assignment comes from some values.
proof fn lemma_assigned(
    d: Set<Set<Literal>>,
    keys: Seq<Seq<char>>,
    env: spec_fn(AtomId) -> bool,
)
    requires
        keys.no_duplicates(),
        sound(d, keys.len()),
    ensures
        dnf_holds(d, valuation(keys, assigned(keys, env))) == dnf_holds(d, env),
{
    let v = valuation(keys, assigned(keys, env));
    assert forall|a: AtomId| a < keys.len() implies #[trigger] v(a) == env(a) by {
        if v(a) {
            let b = choose|b: AtomId|
                b < keys.len() && #[trigger] keys[b as int] == keys[a as int] && env(b);
            assert(b as int == a as int);
        }
        if env(a) {
            assert(keys[a as int] == keys[a as int]);
        }
    }
    lemma_agree(d, keys.len(), v, env);
    lemma_agree_back(d, keys.len(), v, env);
}

/// Without its redundant cubes, the normal form of a condition is true exactly
/// where the condition is. It is empty exactly if the condition is never
/// true, and the truth table says that it is always true exactly if the
/// condition is.
pub proof fn reduced_form_decides(c: CondExpr)
    requires
        cond_dnf(c, Seq::empty(), false).dnf is Some,
        cond_dnf(c, Seq::empty(), false).keys.len() <= usize::MAX,
    ensures
        ({
            let keys = cond_dnf(c, Seq::empty(), false).keys;
            let d = minimal(cond_dnf(c, Seq::empty(), false).dnf.unwrap());
            &&& sound(d, keys.len())
            &&& forall|val: spec_fn(Seq<char>) -> bool|
                dnf_holds(d, #[trigger] valuation(keys, val)) == cond_truth(c, val)
            &&& d == Set::<Set<Literal>>::empty() <==> forall|val: spec_fn(Seq<char>) -> bool|
                !#[trigger] cond_truth(c, val)
            &&& keys.len() <= crate::dnf::MAX_ATOMS_FOR_TAUTOLOGY ==> (covers(d, keys.len())
                <==> forall|val: spec_fn(Seq<char>) -> bool| #[trigger] cond_truth(c, val))
        }),
{
    let none = Seq::<Seq<char>>::empty();
    let keys = cond_dnf(c, none, false).keys;
    let full = cond_dnf(c, none, false).dnf.unwrap();
    let d = minimal(full);
    normal_form_means_condition(c, none, false, |k: Seq<char>| true);
    lemma_cond_keys_unique(c, none, false);
    assert(d.subset_of(full));
    vstd::set_lib::lemma_set_subset_finite(full, d);
    assert(sound(d, keys.len())) by {
        assert forall|x: Set<Literal>| #[trigger] d.contains(x) implies x.finite()
            && !contradictory(x) && within(x, keys.len()) by {
            assert(full.contains(x));
        }
    }
    assert forall|val: spec_fn(Seq<char>) -> bool|
        dnf_holds(d, #[trigger] valuation(keys, val)) == cond_truth(c, val) by {
        normal_form_means_condition(c, none, false, val);
        minimal_keeps_meaning(full, valuation(keys, val));
    }
    unsatisfiable_iff_empty(d);
    if d == Set::<Set<Literal>>::empty() {
        assert forall|val: spec_fn(Seq<char>) -> bool| !#[trigger] cond_truth(c, val) by {
            assert(!dnf_holds(d, valuation(keys, val)));
        }
    } else {
        let env = choose|env: spec_fn(AtomId) -> bool| #[trigger] dnf_holds(d, env);
        lemma_assigned(d, keys, env);
        assert(dnf_holds(d, valuation(keys, assigned(keys, env))));
        assert(cond_truth(c, assigned(keys, env)));
    }
    if keys.len() <= crate::dnf::MAX_ATOMS_FOR_TAUTOLOGY {
        truth_table_decides(d, keys.len());
        if covers(d, keys.len()) {
            assert forall|val: spec_fn(Seq<char>) -> bool| #[trigger] cond_truth(c, val) by {
                assert(dnf_holds(d, valuation(keys, val)));
            }
        }
        if forall|val: spec_fn(Seq<char>) -> bool| #[trigger] cond_truth(c, val) {
            assert forall|env: spec_fn(AtomId) -> bool| #[trigger] dnf_holds(d, env) by {
                lemma_assigned(d, keys, env);
                assert(cond_truth(c, assigned(keys, env)));
                assert(dnf_holds(d, valuation(keys, assigned(keys, env))));
            }
        }
    }
}

} // verus!
