//! Conditions of `%if` blocks as boolean functions.
use vstd::prelude::*;

use crate::ast::{BinOp, CondExpr, ExprAst, Text};
use crate::dnf::{
    bounded, distribute_and, product, AtomId, Cube, Dnf, Literal, MAX_CUBES,
};
use crate::text::{signed_decimal, signed_number, trim, trimmed};

verus! {

// ---------------------------------------------------------------------
// Atoms
// ---------------------------------------------------------------------

/// The text by which an atom is known: two expressions are the same atom when
/// it is the same for both. Parentheses do not show in it, and an expression
/// that holds a number joined with a macro has none.
pub open spec fn canonical(e: ExprAst) -> Option<Seq<char>>
    decreases e,
{
    match e {
        ExprAst::Paren { inner, .. } => canonical(*inner),
        ExprAst::Integer { value, .. } => Some(signed_decimal(value as int)),
        ExprAst::String { value, .. } => Some("\""@ + value@ + "\""@),
        ExprAst::Macro { text, .. } => Some(text@),
        ExprAst::Identifier { name, .. } => Some(name@),
        ExprAst::Not { inner, .. } => match canonical(*inner) {
            Some(s) => Some("!"@ + s),
            None => None,
        },
        ExprAst::Binary { kind, lhs, rhs, .. } => match (canonical(*lhs), canonical(*rhs)) {
            (Some(l), Some(r)) => Some("("@ + l + kind.symbol() + r + ")"@),
            _ => None,
        },
        ExprAst::NumericConcat { .. } => None,
    }
}

pub fn canonicalise(e: &ExprAst) -> (r: Option<String>)
    ensures
        crate::text::opt_string(r) == canonical(*e),
    decreases e,
{
    match e {
        ExprAst::Paren { inner, .. } => canonicalise(inner),
        ExprAst::Integer { value, .. } => Some(signed_number(*value)),
        ExprAst::String { value, .. } => {
            let mut s = String::from_str("\"");
            s.append(value.as_str());
            s.append("\"");
            Some(s)
        },
        ExprAst::Macro { text, .. } => Some(text.as_str().to_owned()),
        ExprAst::Identifier { name, .. } => Some(name.as_str().to_owned()),
        ExprAst::Not { inner, .. } => match canonicalise(inner) {
            Some(t) => {
                let mut s = String::from_str("!");
                s.append(t.as_str());
                Some(s)
            },
            None => None,
        },
        ExprAst::Binary { kind, lhs, rhs, .. } => {
            let l = match canonicalise(lhs) {
                Some(l) => l,
                None => {
                    return None;
                },
            };
            let r = match canonicalise(rhs) {
                Some(r) => r,
                None => {
                    return None;
                },
            };
            let mut s = String::from_str("(");
            s.append(l.as_str());
            s.append(kind.as_str());
            s.append(r.as_str());
            s.append(")");
            Some(s)
        },
        ExprAst::NumericConcat { .. } => None,
    }
}

/// The first position of `key` among `keys`, or their number.
pub open spec fn slot(keys: Seq<Seq<char>>, key: Seq<char>) -> nat
    decreases keys.len(),
{
    if keys.len() == 0 {
        0
    } else if keys[0] == key {
        0
    } else {
        1 + slot(keys.skip(1), key)
    }
}

/// `keys` with `key` among them.
pub open spec fn interned(keys: Seq<Seq<char>>, key: Seq<char>) -> Seq<Seq<char>> {
    if slot(keys, key) < keys.len() {
        keys
    } else {
        keys.push(key)
    }
}

/// The atoms met so far, each with its number.
#[derive(Debug)]
pub struct AtomTable {
    pub keys: Vec<String>,
}

impl View for AtomTable {
    type V = Seq<Seq<char>>;

    open spec fn view(&self) -> Seq<Seq<char>> {
        self.keys@.map_values(|k: String| k@)
    }
}

impl AtomTable {
    pub fn new() -> (r: AtomTable)
        ensures
            r@ == Seq::<Seq<char>>::empty(),
    {
        let r = AtomTable { keys: Vec::new() };
        assert(r@ =~= Seq::<Seq<char>>::empty());
        r
    }

    pub fn len(&self) -> (r: usize)
        ensures
            r == self@.len(),
    {
        self.keys.len()
    }

    /// The number of the atom known by `key`, which is added where it is new.
    pub fn intern_key(&mut self, key: String) -> (r: AtomId)
        ensures
            r == slot(old(self)@, key@),
            final(self)@ == interned(old(self)@, key@),
            r < final(self)@.len(),
    {
        let ghost ks = self@;
        let mut i: usize = 0;
        assert(ks.skip(0) == ks);
        while i < self.keys.len()
            invariant
                i <= self.keys.len(),
                ks == self@,
                self@ == old(self)@,
                slot(ks, key@) == i + slot(ks.skip(i as int), key@),
            decreases self.keys.len() - i,
        {
            assert(ks.skip(i as int)[0] == self.keys@[i as int]@);
            if self.keys[i] == key {
                return i;
            }
            assert(ks.skip(i as int).skip(1) == ks.skip(i + 1));
            i = i + 1;
        }
        self.keys.push(key);
        assert(self@ =~= ks.push(key@));
        i
    }

    pub fn copy(&self) -> (r: AtomTable)
        ensures
            r@ == self@,
    {
        let mut out: Vec<String> = Vec::new();
        let mut i: usize = 0;
        while i < self.keys.len()
            invariant
                i <= self.keys.len(),
                out@.len() == i,
                forall|j: int| 0 <= j < i ==> (#[trigger] out@[j])@ == self.keys@[j]@,
            decreases self.keys.len() - i,
        {
            out.push(self.keys[i].clone());
            i = i + 1;
        }
        let r = AtomTable { keys: out };
        assert(r@ =~= self@);
        r
    }
}

// ---------------------------------------------------------------------
// Normal forms of expressions
// ---------------------------------------------------------------------

/// What a conversion gives: the normal form, unless it was given up, and the
/// atoms met by then.
pub struct Converted {
    pub dnf: Option<Set<Set<Literal>>>,
    pub keys: Seq<Seq<char>>,
}

/// The normal form of `e`, or of its negation, over the atoms of `keys` and
/// those that `e` adds.
pub open spec fn dnf_of(e: ExprAst, keys: Seq<Seq<char>>, negate: bool) -> Converted
    decreases e,
{
    match e {
        ExprAst::Paren { inner, .. } => dnf_of(*inner, keys, negate),
        ExprAst::Not { inner, .. } => dnf_of(*inner, keys, !negate),
        ExprAst::Binary { kind, lhs, rhs, .. } if !kind.compares() => {
            let l = dnf_of(*lhs, keys, negate);
            match l.dnf {
                None => l,
                Some(a) => {
                    let r = dnf_of(*rhs, l.keys, negate);
                    match r.dnf {
                        None => r,
                        Some(b) => Converted {
                            dnf: if (kind is LogOr) != negate {
                                bounded(a.union(b))
                            } else {
                                bounded(product(a, b))
                            },
                            keys: r.keys,
                        },
                    }
                },
            }
        },
        _ => atom_dnf(e, keys, negate),
    }
}

/// The normal form of an atom.
pub open spec fn atom_dnf(e: ExprAst, keys: Seq<Seq<char>>, negate: bool) -> Converted {
    match canonical(e) {
        None => Converted { dnf: None, keys },
        Some(key) => Converted {
            dnf: Some(set![set![Literal { atom: slot(keys, key) as usize, negated: negate }]]),
            keys: interned(keys, key),
        },
    }
}

/// What an optional normal form says.
pub open spec fn opt_dnf(d: Option<Dnf>) -> Option<Set<Set<Literal>>> {
    match d {
        Some(d) => Some(d@),
        None => None,
    }
}

pub open spec fn opt_dnf_wf(d: Option<Dnf>) -> bool {
    match d {
        Some(d) => d.wf(),
        None => true,
    }
}

/// The union of two normal forms, unless it has too many cubes.
fn join_or(a: Dnf, b: &Dnf) -> (r: Option<Dnf>)
    requires
        a.wf(),
        b.wf(),
    ensures
        opt_dnf(r) == bounded(a@.union(b@)),
        opt_dnf_wf(r),
{
    let mut u = a;
    u.extend(b);
    if u.len() > MAX_CUBES {
        None
    } else {
        Some(u)
    }
}

/// The normal form of `e`, negated where `negate` is set. Nothing where it
/// has too many cubes or `e` holds an expression without a canonical text.
pub fn to_dnf(e: &ExprAst, atoms: &mut AtomTable, negate: bool) -> (r: Option<Dnf>)
    ensures
        opt_dnf(r) == dnf_of(*e, old(atoms)@, negate).dnf,
        final(atoms)@ == dnf_of(*e, old(atoms)@, negate).keys,
        opt_dnf_wf(r),
    decreases e,
{
    match e {
        ExprAst::Paren { inner, .. } => to_dnf(inner, atoms, negate),
        ExprAst::Not { inner, .. } => to_dnf(inner, atoms, !negate),
        ExprAst::Binary { kind, lhs, rhs, .. } if *kind == BinOp::LogOr || *kind
            == BinOp::LogAnd => {
            let left = match to_dnf(lhs, atoms, negate) {
                Some(d) => d,
                None => {
                    return None;
                },
            };
            let right = match to_dnf(rhs, atoms, negate) {
                Some(d) => d,
                None => {
                    return None;
                },
            };
            if (*kind == BinOp::LogOr) != negate {
                join_or(left, &right)
            } else {
                distribute_and(&left, &right)
            }
        },
        _ => {
            let key = match canonicalise(e) {
                Some(k) => k,
                None => {
                    return None;
                },
            };
            let atom = atoms.intern_key(key);
            Some(Dnf::of(Literal { atom, negated: negate }))
        },
    }
}

// ---------------------------------------------------------------------
// Normal forms of conditions
// ---------------------------------------------------------------------

/// The names of a list of architectures or systems, trimmed, if none of them
/// holds a macro.
pub open spec fn arch_names(list: Seq<Text>) -> Option<Seq<Seq<char>>> {
    if forall|i: int| 0 <= i < list.len() ==> (#[trigger] list[i]).literal() is Some {
        Some(Seq::new(list.len(), |i: int| trim(list[i].literal().unwrap())))
    } else {
        None
    }
}

/// The key of the atom "the architecture is `name`", or of the one that says
/// so of the operating system.
pub open spec fn arch_key(system: bool, name: Seq<char>) -> Seq<char> {
    if system {
        "OS="@ + name
    } else {
        "ARCH="@ + name
    }
}

/// `keys` with the keys of all `names` among them.
pub open spec fn arch_keys(system: bool, names: Seq<Seq<char>>, keys: Seq<Seq<char>>) -> Seq<Seq<char>>
    decreases names.len(),
{
    if names.len() == 0 {
        keys
    } else {
        interned(arch_keys(system, names.drop_last(), keys), arch_key(system, names.last()))
    }
}

/// The literal that says that the architecture or system is, or is not,
/// `name`.
pub open spec fn arch_literal(system: bool, keys: Seq<Seq<char>>, name: Seq<char>, negated: bool) -> Literal {
    Literal { atom: slot(keys, arch_key(system, name)) as usize, negated }
}

/// The normal form of "the architecture, or the system, is one of `names`", or
/// of its negation, over `keys`.
pub open spec fn arch_dnf(system: bool, names: Seq<Seq<char>>, keys: Seq<Seq<char>>, negate: bool) -> Option<
    Set<Set<Literal>>,
> {
    if negate {
        Some(set![names.map_values(|n: Seq<char>| arch_literal(system, keys, n, true)).to_set()])
    } else {
        bounded(names.map_values(|n: Seq<char>| set![arch_literal(system, keys, n, false)]).to_set())
    }
}

/// The normal form of a condition, or of its negation. Raw text has none. A
/// list is one of architectures.
pub open spec fn cond_dnf(c: CondExpr, keys: Seq<Seq<char>>, negate: bool) -> Converted {
    asked_dnf(c, false, keys, negate)
}

/// The normal form of a condition, or of its negation, where `system` tells a
/// list of systems from one of architectures.
pub open spec fn asked_dnf(c: CondExpr, system: bool, keys: Seq<Seq<char>>, negate: bool) -> Converted {
    match c {
        CondExpr::Raw(_) => Converted { dnf: None, keys },
        CondExpr::Parsed(e) => dnf_of(*e, keys, negate),
        CondExpr::ArchList(list) => match arch_names(list@) {
            None => Converted { dnf: None, keys },
            Some(names) => {
                let ks = arch_keys(system, names, keys);
                Converted { dnf: arch_dnf(system, names, ks, negate), keys: ks }
            },
        },
    }
}

/// The texts of a list of owned strings.
pub open spec fn string_texts(v: Seq<String>) -> Seq<Seq<char>> {
    v.map_values(|s: String| s@)
}

pub fn literal_names(list: &Vec<Text>) -> (r: Option<Vec<String>>)
    ensures
        r is Some <==> arch_names(list@) is Some,
        r matches Some(v) ==> string_texts(v@) == arch_names(list@).unwrap(),
{
    let mut out: Vec<String> = Vec::new();
    let mut i: usize = 0;
    while i < list.len()
        invariant
            i <= list.len(),
            out@.len() == i,
            forall|j: int| 0 <= j < i ==> (#[trigger] list@[j]).literal() is Some,
            forall|j: int|
                0 <= j < i ==> (#[trigger] out@[j])@ == trim(list@[j].literal().unwrap()),
        decreases list.len() - i,
    {
        match list[i].literal_str() {
            Some(s) => {
                out.push(trimmed(s).to_owned());
            },
            None => {
                assert(list@[i as int].literal() is None);
                return None;
            },
        }
        i = i + 1;
    }
    assert(string_texts(out@) =~= arch_names(list@).unwrap());
    Some(out)
}

pub proof fn lemma_slot_bound(keys: Seq<Seq<char>>, key: Seq<char>)
    ensures
        slot(keys, key) <= keys.len(),
        slot(keys, key) < keys.len() <==> keys.contains(key),
        slot(keys, key) < keys.len() ==> keys[slot(keys, key) as int] == key,
        forall|j: int| 0 <= j < slot(keys, key) ==> keys[j] != key,
    decreases keys.len(),
{
    if keys.len() > 0 && keys[0] != key {
        let rest = keys.skip(1);
        lemma_slot_bound(rest, key);
        if rest.contains(key) {
            let k = choose|k: int| 0 <= k < rest.len() && rest[k] == key;
            assert(keys[k + 1] == key);
        }
        if keys.contains(key) {
            let k = choose|k: int| 0 <= k < keys.len() && keys[k] == key;
            assert(rest[k - 1] == key);
        }
        assert forall|j: int| 0 <= j < slot(keys, key) implies keys[j] != key by {
            if j > 0 {
                assert(rest[j - 1] == keys[j]);
            }
        }
    }
}

/// Adding atoms does not renumber those that are there.
pub proof fn lemma_slot_kept(keys: Seq<Seq<char>>, more: Seq<Seq<char>>, key: Seq<char>)
    requires
        keys.is_prefix_of(more),
        slot(keys, key) < keys.len(),
    ensures
        slot(more, key) == slot(keys, key),
{
    lemma_slot_bound(keys, key);
    lemma_slot_bound(more, key);
    let i = slot(keys, key) as int;
    assert(more[i] == keys[i]);
    let j = slot(more, key) as int;
    assert(more.contains(key));
    if j < i {
        assert(more[j] == keys[j]);
    }
}

pub proof fn lemma_interned(keys: Seq<Seq<char>>, key: Seq<char>)
    ensures
        keys.is_prefix_of(interned(keys, key)),
        slot(interned(keys, key), key) == slot(keys, key),
        slot(keys, key) < interned(keys, key).len(),
        interned(keys, key)[slot(keys, key) as int] == key,
{
    lemma_slot_bound(keys, key);
    if slot(keys, key) >= keys.len() {
        let more = keys.push(key);
        lemma_slot_bound(more, key);
        assert(more[keys.len() as int] == key);
        assert(more.contains(key));
        let j = slot(more, key) as int;
        if j < keys.len() {
            assert(keys[j] == key);
        }
    }
}

/// The keys of all `names` have been met.
pub proof fn lemma_arch_keys(system: bool, names: Seq<Seq<char>>, keys: Seq<Seq<char>>)
    ensures
        keys.is_prefix_of(arch_keys(system, names, keys)),
        forall|i: int|
            0 <= i < names.len() ==> slot(arch_keys(system, names, keys), arch_key(system, #[trigger] names[i]))
                < arch_keys(system, names, keys).len(),
    decreases names.len(),
{
    if names.len() > 0 {
        let rest = names.drop_last();
        lemma_arch_keys(system, rest, keys);
        let ks = arch_keys(system, rest, keys);
        lemma_interned(ks, arch_key(system, names.last()));
        let all = arch_keys(system, names, keys);
        assert forall|i: int| 0 <= i < names.len() implies slot(all, arch_key(system, #[trigger] names[i])) < all.len() by {
            if i < rest.len() {
                assert(rest[i] == names[i]);
                lemma_slot_kept(ks, all, arch_key(system, names[i]));
            }
        }
    }
}

fn arch_to_dnf(system: bool, names: &Vec<String>, atoms: &mut AtomTable, negate: bool) -> (r: Option<Dnf>)
    ensures
        final(atoms)@ == arch_keys(system, string_texts(names@), old(atoms)@),
        opt_dnf(r) == arch_dnf(system, string_texts(names@), final(atoms)@, negate),
        opt_dnf_wf(r),
{
    let ghost t = string_texts(names@);
    let ghost all = arch_keys(system, t, atoms@);
    let ghost start = atoms@;
    let mut cube = Cube::new();
    let mut dnf = Dnf::new();
    let ghost lits = t.map_values(|n: Seq<char>| arch_literal(system, all, n, true));
    let ghost cubes = t.map_values(|n: Seq<char>| set![arch_literal(system, all, n, false)]);
    let mut i: usize = 0;
    proof {
        assert(lits.take(0).to_set() =~= Set::empty());
        assert(cubes.take(0).to_set() =~= Set::empty());
    }
    while i < names.len()
        invariant
            i <= names.len(),
            t == string_texts(names@),
            all == arch_keys(system, t, start),
            atoms@ == arch_keys(system, t.take(i as int), start),
            lits == t.map_values(|n: Seq<char>| arch_literal(system, all, n, true)),
            cubes == t.map_values(|n: Seq<char>| set![arch_literal(system, all, n, false)]),
            cube.wf(),
            dnf.wf(),
            cube@ == lits.take(i as int).to_set(),
            dnf@ == cubes.take(i as int).to_set(),
        decreases names.len() - i,
    {
        let mut key = String::from_str(
            if system {
                "OS="
            } else {
                "ARCH="
            },
        );
        key.append(names[i].as_str());
        let ghost before = atoms@;
        let atom = atoms.intern_key(key);
        proof {
            let n = t[i as int];
            assert(t.take(i + 1).drop_last() == t.take(i as int));
            assert(t.take(i + 1).last() == n);
            assert(atoms@ == arch_keys(system, t.take(i + 1), start));
            lemma_interned(before, arch_key(system, n));
            lemma_arch_keys_prefix(system, t, start, i + 1);
            lemma_slot_kept(atoms@, all, arch_key(system, n));
            assert(atom == slot(all, arch_key(system, n)));
            crate::dnf::lemma_take_to_set(lits, i as int);
            crate::dnf::lemma_take_to_set(cubes, i as int);
        }
        cube.insert(Literal { atom, negated: true });
        dnf.insert(Cube::of(Literal { atom, negated: false }));
        i = i + 1;
    }
    proof {
        assert(t.take(i as int) == t);
        assert(lits.take(i as int) == lits);
        assert(cubes.take(i as int) == cubes);
    }
    if negate {
        let mut d = Dnf::new();
        d.insert(cube);
        assert(d@ =~= set![lits.to_set()]);
        Some(d)
    } else if dnf.len() > MAX_CUBES {
        None
    } else {
        Some(dnf)
    }
}

proof fn lemma_arch_keys_prefix(system: bool, names: Seq<Seq<char>>, keys: Seq<Seq<char>>, i: int)
    requires
        0 <= i <= names.len(),
    ensures
        arch_keys(system, names.take(i), keys).is_prefix_of(arch_keys(system, names, keys)),
    decreases names.len(),
{
    if i == names.len() {
        assert(names.take(i) == names);
    } else {
        lemma_arch_keys_prefix(system, names.drop_last(), keys, i);
        assert(names.drop_last().take(i) == names.take(i));
        lemma_interned(arch_keys(system, names.drop_last(), keys), arch_key(system, names.last()));
    }
}

/// The normal form of a condition, negated where `negate` is set.
pub fn cond_to_dnf(c: &CondExpr, atoms: &mut AtomTable, negate: bool) -> (r: Option<Dnf>)
    ensures
        opt_dnf(r) == cond_dnf(*c, old(atoms)@, negate).dnf,
        final(atoms)@ == cond_dnf(*c, old(atoms)@, negate).keys,
        opt_dnf_wf(r),
{
    asked_to_dnf(c, false, atoms, negate)
}

/// The normal form of a condition, negated where `negate` is set, where
/// `system` tells a list of systems from one of architectures.
pub fn asked_to_dnf(c: &CondExpr, system: bool, atoms: &mut AtomTable, negate: bool) -> (r: Option<
    Dnf,
>)
    ensures
        opt_dnf(r) == asked_dnf(*c, system, old(atoms)@, negate).dnf,
        final(atoms)@ == asked_dnf(*c, system, old(atoms)@, negate).keys,
        opt_dnf_wf(r),
{
    match c {
        CondExpr::Raw(_) => None,
        CondExpr::Parsed(e) => to_dnf(e, atoms, negate),
        CondExpr::ArchList(list) => match literal_names(list) {
            Some(names) => arch_to_dnf(system, &names, atoms, negate),
            None => None,
        },
    }
}

} // verus!
