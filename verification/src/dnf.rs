//! Boolean conditions in disjunctive normal form.
//!
//! A condition is a boolean function over atoms. Its normal form is a set of
//! cubes, a cube is a set of literals, and a literal is an atom or its
//! negation.
use vstd::prelude::*;
use vstd::set_lib::*;

verus! {

/// More cubes than this are not computed with.
pub const MAX_CUBES: usize = 64;

/// The truth table of more atoms than this is not enumerated.
pub const MAX_ATOMS_FOR_TAUTOLOGY: usize = 8;

/// The position of an atom in its table.
pub type AtomId = usize;

/// An atom or its negation.
#[derive(Clone, Copy, Debug, PartialEq, Eq, Structural)]
pub struct Literal {
    pub atom: AtomId,
    pub negated: bool,
}

impl Literal {
    pub open spec fn opposite(self) -> Literal {
        Literal { atom: self.atom, negated: !self.negated }
    }

    pub fn flip(self) -> (r: Literal)
        ensures
            r == self.opposite(),
    {
        Literal { atom: self.atom, negated: !self.negated }
    }
}

// ---------------------------------------------------------------------
// Meaning
// ---------------------------------------------------------------------

/// Whether `l` is true where the atoms have the values that `env` gives them.
pub open spec fn literal_holds(l: Literal, env: spec_fn(AtomId) -> bool) -> bool {
    env(l.atom) != l.negated
}

/// Whether every literal of `c` is true.
pub open spec fn cube_holds(c: Set<Literal>, env: spec_fn(AtomId) -> bool) -> bool {
    forall|l: Literal| c.contains(l) ==> #[trigger] literal_holds(l, env)
}

/// Whether some cube of `d` is true.
pub open spec fn dnf_holds(d: Set<Set<Literal>>, env: spec_fn(AtomId) -> bool) -> bool {
    exists|c: Set<Literal>| d.contains(c) && #[trigger] cube_holds(c, env)
}

/// Whether `c` holds an atom and its negation.
pub open spec fn contradictory(c: Set<Literal>) -> bool {
    exists|l: Literal| #[trigger] c.contains(l) && c.contains(l.opposite())
}

/// Whether `m` joins a cube of `a` and a cube of `b` without contradiction.
pub open spec fn joins(a: Set<Set<Literal>>, b: Set<Set<Literal>>, m: Set<Literal>) -> bool {
    !contradictory(m) && exists|x: Set<Literal>, y: Set<Literal>|
        #[trigger] a.contains(x) && #[trigger] b.contains(y) && m == x.union(y)
}

/// The normal form of the conjunction of `a` and `b`.
pub open spec fn product(a: Set<Set<Literal>>, b: Set<Set<Literal>>) -> Set<Set<Literal>> {
    Set::new(|m: Set<Literal>| joins(a, b, m))
}

/// `d`, if it has no more than [`MAX_CUBES`] cubes.
pub open spec fn bounded(d: Set<Set<Literal>>) -> Option<Set<Set<Literal>>> {
    if d.len() <= MAX_CUBES {
        Some(d)
    } else {
        None
    }
}

/// Whether another cube of `d` is part of `c`.
pub open spec fn subsumed(d: Set<Set<Literal>>, c: Set<Literal>) -> bool {
    exists|o: Set<Literal>| #[trigger] d.contains(o) && o.subset_of(c) && o != c
}

/// The cubes of `d` that no other cube of `d` makes redundant.
pub open spec fn minimal(d: Set<Set<Literal>>) -> Set<Set<Literal>> {
    Set::new(|c: Set<Literal>| d.contains(c) && !subsumed(d, c))
}

/// The values that the bits of `assignment` give to the atoms.
pub open spec fn bits(assignment: u32) -> spec_fn(AtomId) -> bool {
    |a: AtomId| a < 32 && (assignment >> (a as u32)) & 1 == 1
}

/// Whether every assignment to the first `n` atoms makes `d` true.
pub open spec fn covers(d: Set<Set<Literal>>, n: nat) -> bool {
    forall|m: u32| m < pow2_u32(n) ==> dnf_holds(d, #[trigger] bits(m))
}

/// Whether every assignment to the first `n` atoms that makes `p` true makes
/// `q` true.
pub open spec fn entails(p: Set<Set<Literal>>, q: Set<Set<Literal>>, n: nat) -> bool {
    forall|m: u32|
        m < pow2_u32(n) && dnf_holds(p, #[trigger] bits(m)) ==> dnf_holds(q, bits(m))
}

/// Two to the power of `n`, for the table sizes that are enumerated.
pub open spec fn pow2_u32(n: nat) -> int
    decreases n,
{
    if n == 0 {
        1
    } else {
        2 * pow2_u32((n - 1) as nat)
    }
}

// ---------------------------------------------------------------------
// Cubes
// ---------------------------------------------------------------------

/// A conjunction of literals.
#[derive(Debug)]
pub struct Cube {
    pub lits: Vec<Literal>,
}

impl View for Cube {
    type V = Set<Literal>;

    open spec fn view(&self) -> Set<Literal> {
        self.lits@.to_set()
    }
}

impl Cube {
    /// No literal is listed twice.
    pub open spec fn wf(&self) -> bool {
        self.lits@.no_duplicates()
    }

    pub fn new() -> (r: Cube)
        ensures
            r.wf(),
            r@ == Set::<Literal>::empty(),
    {
        let r = Cube { lits: Vec::new() };
        assert(r@ =~= Set::<Literal>::empty());
        r
    }

    pub fn of(lit: Literal) -> (r: Cube)
        ensures
            r.wf(),
            r@ == set![lit],
    {
        let mut r = Cube::new();
        r.insert(lit);
        assert(r@ =~= set![lit]);
        r
    }

    pub fn contains(&self, lit: Literal) -> (r: bool)
        ensures
            r == self@.contains(lit),
    {
        let mut i: usize = 0;
        while i < self.lits.len()
            invariant
                i <= self.lits.len(),
                forall|j: int| 0 <= j < i ==> self.lits@[j] != lit,
            decreases self.lits.len() - i,
        {
            if self.lits[i] == lit {
                assert(self.lits@[i as int] == lit);
                return true;
            }
            i = i + 1;
        }
        false
    }

    pub fn insert(&mut self, lit: Literal)
        requires
            old(self).wf(),
        ensures
            final(self).wf(),
            final(self)@ == old(self)@.insert(lit),
    {
        if !self.contains(lit) {
            self.lits.push(lit);
            proof {
                let before = old(self).lits@;
                assert forall|x: Literal| self@.contains(x) == old(self)@.insert(lit).contains(x) by {
                    if before.contains(x) {
                        let k = choose|k: int| 0 <= k < before.len() && before[k] == x;
                        assert(self.lits@[k] == x);
                    }
                    if x == lit {
                        assert(self.lits@[before.len() as int] == x);
                    }
                }
                assert(self@ =~= old(self)@.insert(lit));
            }
        } else {
            assert(self@ =~= old(self)@.insert(lit));
        }
    }

    pub fn len(&self) -> (r: usize)
        requires
            self.wf(),
        ensures
            r == self@.len(),
            self@.finite(),
    {
        proof {
            self.lits@.unique_seq_to_set();
            vstd::seq_lib::seq_to_set_is_finite(self.lits@);
        }
        self.lits.len()
    }

    pub fn is_empty(&self) -> (r: bool)
        ensures
            r == (self@ == Set::<Literal>::empty()),
    {
        if self.lits.len() == 0 {
            assert(self@ =~= Set::<Literal>::empty());
            true
        } else {
            assert(self@.contains(self.lits@[0]));
            false
        }
    }

    pub fn is_subset(&self, other: &Cube) -> (r: bool)
        ensures
            r == self@.subset_of(other@),
    {
        let mut i: usize = 0;
        while i < self.lits.len()
            invariant
                i <= self.lits.len(),
                forall|j: int| 0 <= j < i ==> other@.contains(#[trigger] self.lits@[j]),
            decreases self.lits.len() - i,
        {
            if !other.contains(self.lits[i]) {
                assert(self@.contains(self.lits@[i as int]));
                return false;
            }
            i = i + 1;
        }
        true
    }

    pub fn same(&self, other: &Cube) -> (r: bool)
        ensures
            r == (self@ == other@),
    {
        let r = self.is_subset(other) && other.is_subset(self);
        assert(r ==> self@ =~= other@);
        r
    }

    /// The literals of both cubes.
    pub fn merged(&self, other: &Cube) -> (r: Cube)
        requires
            self.wf(),
        ensures
            r.wf(),
            r@ == self@.union(other@),
    {
        let mut out = self.copy();
        let mut i: usize = 0;
        assert(other.lits@.take(0).to_set() =~= Set::empty());
        assert(self@.union(Set::empty()) =~= self@);
        while i < other.lits.len()
            invariant
                i <= other.lits.len(),
                out.wf(),
                out@ == self@.union(other.lits@.take(i as int).to_set()),
            decreases other.lits.len() - i,
        {
            out.insert(other.lits[i]);
            proof {
                lemma_take_to_set(other.lits@, i as int);
                assert(out@ =~= self@.union(other.lits@.take(i + 1).to_set()));
            }
            i = i + 1;
        }
        assert(other.lits@.take(i as int) == other.lits@);
        out
    }

    pub fn copy(&self) -> (r: Cube)
        requires
            self.wf(),
        ensures
            r.wf(),
            r@ == self@,
    {
        let mut out: Vec<Literal> = Vec::new();
        let mut i: usize = 0;
        while i < self.lits.len()
            invariant
                i <= self.lits.len(),
                out@ == self.lits@.take(i as int),
            decreases self.lits.len() - i,
        {
            out.push(self.lits[i]);
            assert(self.lits@.take(i + 1) == self.lits@.take(i as int).push(self.lits@[i as int]));
            i = i + 1;
        }
        assert(self.lits@.take(i as int) == self.lits@);
        Cube { lits: out }
    }

    /// Whether the cube holds an atom and its negation.
    pub fn has_internal_contradiction(&self) -> (r: bool)
        ensures
            r == contradictory(self@),
    {
        let mut i: usize = 0;
        while i < self.lits.len()
            invariant
                i <= self.lits.len(),
                forall|j: int|
                    0 <= j < i ==> !self@.contains((#[trigger] self.lits@[j]).opposite()),
            decreases self.lits.len() - i,
        {
            if self.contains(self.lits[i].flip()) {
                assert(self@.contains(self.lits@[i as int]));
                return true;
            }
            i = i + 1;
        }
        false
    }

    /// Whether every literal is true where the atoms have the values of the
    /// bits of `assignment`.
    pub fn eval(&self, assignment: u32) -> (r: bool)
        ensures
            r == cube_holds(self@, bits(assignment)),
    {
        let mut i: usize = 0;
        while i < self.lits.len()
            invariant
                i <= self.lits.len(),
                forall|j: int|
                    0 <= j < i ==> literal_holds(#[trigger] self.lits@[j], bits(assignment)),
            decreases self.lits.len() - i,
        {
            let lit = self.lits[i];
            let bit = lit.atom < 32 && (assignment >> (lit.atom as u32)) & 1 == 1;
            if bit == lit.negated {
                assert(self@.contains(self.lits@[i as int]));
                assert(!literal_holds(lit, bits(assignment)));
                return false;
            }
            i = i + 1;
        }
        true
    }
}

pub proof fn lemma_take_to_set<A>(s: Seq<A>, i: int)
    requires
        0 <= i < s.len(),
    ensures
        s.take(i + 1).to_set() == s.take(i).to_set().insert(s[i]),
{
    let t = s.take(i);
    let u = s.take(i + 1);
    assert(u == t.push(s[i]));
    assert forall|x: A| u.contains(x) <==> (t.contains(x) || x == s[i]) by {
        if u.contains(x) {
            let k = choose|k: int| 0 <= k < u.len() && u[k] == x;
            assert(k < t.len() ==> t[k] == x);
        }
        if t.contains(x) {
            let k = choose|k: int| 0 <= k < t.len() && t[k] == x;
            assert(u[k] == x);
        }
        assert(u[i] == s[i]);
    }
    assert(s.take(i + 1).to_set() =~= s.take(i).to_set().insert(s[i]));
}

// ---------------------------------------------------------------------
// Normal forms
// ---------------------------------------------------------------------

/// A disjunction of cubes.
#[derive(Debug)]
pub struct Dnf {
    pub cubes: Vec<Cube>,
}

pub open spec fn cube_views(cs: Seq<Cube>) -> Seq<Set<Literal>> {
    cs.map_values(|c: Cube| c@)
}

impl View for Dnf {
    type V = Set<Set<Literal>>;

    open spec fn view(&self) -> Set<Set<Literal>> {
        cube_views(self.cubes@).to_set()
    }
}

impl Dnf {
    /// No cube is listed twice.
    pub open spec fn wf(&self) -> bool {
        &&& cube_views(self.cubes@).no_duplicates()
        &&& forall|i: int| 0 <= i < self.cubes@.len() ==> (#[trigger] self.cubes@[i]).wf()
    }

    pub fn new() -> (r: Dnf)
        ensures
            r.wf(),
            r@ == Set::<Set<Literal>>::empty(),
    {
        let r = Dnf { cubes: Vec::new() };
        assert(r@ =~= Set::<Set<Literal>>::empty());
        r
    }

    pub fn of(lit: Literal) -> (r: Dnf)
        ensures
            r.wf(),
            r@ == set![set![lit]],
    {
        let mut r = Dnf::new();
        r.insert(Cube::of(lit));
        assert(r@ =~= set![set![lit]]);
        r
    }

    pub fn contains(&self, cube: &Cube) -> (r: bool)
        ensures
            r == self@.contains(cube@),
    {
        let mut i: usize = 0;
        while i < self.cubes.len()
            invariant
                i <= self.cubes.len(),
                forall|j: int| 0 <= j < i ==> cube_views(self.cubes@)[j] != cube@,
            decreases self.cubes.len() - i,
        {
            if self.cubes[i].same(cube) {
                assert(cube_views(self.cubes@)[i as int] == cube@);
                return true;
            }
            i = i + 1;
        }
        false
    }

    pub fn insert(&mut self, cube: Cube)
        requires
            old(self).wf(),
            cube.wf(),
        ensures
            final(self).wf(),
            final(self)@ == old(self)@.insert(cube@),
    {
        if !self.contains(&cube) {
            let ghost before = cube_views(self.cubes@);
            let ghost c = cube@;
            self.cubes.push(cube);
            proof {
                let after = cube_views(self.cubes@);
                assert(after =~= before.push(c));
                lemma_take_to_set(after, before.len() as int);
                assert(after.take(before.len() as int) =~= before);
                assert(after.take(before.len() as int + 1) =~= after);
                assert(!before.contains(c));
            }
        } else {
            assert(self@ =~= old(self)@.insert(cube@));
        }
    }

    pub fn len(&self) -> (r: usize)
        requires
            self.wf(),
        ensures
            r == self@.len(),
            self@.finite(),
    {
        proof {
            cube_views(self.cubes@).unique_seq_to_set();
            vstd::seq_lib::seq_to_set_is_finite(cube_views(self.cubes@));
        }
        self.cubes.len()
    }

    pub fn is_empty(&self) -> (r: bool)
        ensures
            r == (self@ == Set::<Set<Literal>>::empty()),
    {
        if self.cubes.len() == 0 {
            assert(self@ =~= Set::<Set<Literal>>::empty());
            true
        } else {
            assert(cube_views(self.cubes@)[0] == self.cubes@[0]@);
            assert(self@.contains(self.cubes@[0]@));
            false
        }
    }

    /// Whether the empty cube, which is always true, is among the cubes.
    pub fn has_empty_cube(&self) -> (r: bool)
        ensures
            r == self@.contains(Set::empty()),
    {
        let e = Cube::new();
        self.contains(&e)
    }

    pub fn copy(&self) -> (r: Dnf)
        requires
            self.wf(),
        ensures
            r.wf(),
            r@ == self@,
    {
        let mut out = Dnf::new();
        out.extend(self);
        assert(out@ =~= self@);
        out
    }

    /// Adds the cubes of `other`.
    pub fn extend(&mut self, other: &Dnf)
        requires
            old(self).wf(),
            other.wf(),
        ensures
            final(self).wf(),
            final(self)@ == old(self)@.union(other@),
    {
        let ghost v = cube_views(other.cubes@);
        let mut i: usize = 0;
        assert(v.take(0).to_set() =~= Set::empty());
        assert(self@ =~= old(self)@.union(v.take(0).to_set()));
        while i < other.cubes.len()
            invariant
                i <= other.cubes.len(),
                self.wf(),
                other.wf(),
                v == cube_views(other.cubes@),
                self@ == old(self)@.union(v.take(i as int).to_set()),
            decreases other.cubes.len() - i,
        {
            self.insert(other.cubes[i].copy());
            proof {
                lemma_take_to_set(v, i as int);
                assert(self@ =~= old(self)@.union(v.take(i + 1).to_set()));
            }
            i = i + 1;
        }
        assert(v.take(i as int) == v);
    }

    /// Whether some cube is true where the atoms have the values of the bits
    /// of `assignment`.
    pub fn eval(&self, assignment: u32) -> (r: bool)
        ensures
            r == dnf_holds(self@, bits(assignment)),
    {
        let ghost v = cube_views(self.cubes@);
        let mut i: usize = 0;
        while i < self.cubes.len()
            invariant
                i <= self.cubes.len(),
                v == cube_views(self.cubes@),
                forall|j: int| 0 <= j < i ==> !cube_holds(#[trigger] v[j], bits(assignment)),
            decreases self.cubes.len() - i,
        {
            if self.cubes[i].eval(assignment) {
                assert(v[i as int] == self.cubes@[i as int]@);
                assert(self@.contains(v[i as int]));
                return true;
            }
            i = i + 1;
        }
        false
    }
}

/// Whether `m` joins one of the first `i` elements of `a`, or the element
/// after them, with an element of `b`; in the latter case, with one of the
/// first `j`.
spec fn joined_so_far(
    a: Seq<Set<Literal>>,
    b: Seq<Set<Literal>>,
    i: int,
    j: int,
    m: Set<Literal>,
) -> bool {
    !contradictory(m) && exists|p: int, q: int|
        #![trigger a[p], b[q]]
        0 <= p < a.len() && 0 <= q < b.len() && (p < i || (p == i && q < j)) && m == a[p].union(
            b[q],
        )
}

/// The normal form of the conjunction of two normal forms, unless it has too
/// many cubes.
pub fn distribute_and(a: &Dnf, b: &Dnf) -> (r: Option<Dnf>)
    requires
        a.wf(),
        b.wf(),
    ensures
        r is Some <==> product(a@, b@).len() <= MAX_CUBES,
        r matches Some(d) ==> d.wf() && d@ == product(a@, b@),
        product(a@, b@).finite(),
{
    let ghost av = cube_views(a.cubes@);
    let ghost bv = cube_views(b.cubes@);
    proof {
        vstd::seq_lib::seq_to_set_is_finite(av);
        vstd::seq_lib::seq_to_set_is_finite(bv);
        lemma_product_finite(a@, b@);
    }
    let mut out = Dnf::new();
    let mut i: usize = 0;
    while i < a.cubes.len()
        invariant
            i <= a.cubes.len(),
            a.wf(),
            b.wf(),
            av == cube_views(a.cubes@),
            bv == cube_views(b.cubes@),
            product(a@, b@).finite(),
            out.wf(),
            out@.len() <= MAX_CUBES,
            forall|m: Set<Literal>| out@.contains(m) <==> joined_so_far(av, bv, i as int, 0, m),
        decreases a.cubes.len() - i,
    {
        let mut j: usize = 0;
        while j < b.cubes.len()
            invariant
                i < a.cubes.len(),
                j <= b.cubes.len(),
                a.wf(),
                b.wf(),
                av == cube_views(a.cubes@),
                bv == cube_views(b.cubes@),
                product(a@, b@).finite(),
                out.wf(),
                out@.len() <= MAX_CUBES,
                forall|m: Set<Literal>|
                    out@.contains(m) <==> joined_so_far(av, bv, i as int, j as int, m),
            decreases b.cubes.len() - j,
        {
            let merged = a.cubes[i].merged(&b.cubes[j]);
            let ghost m0 = merged@;
            assert(m0 == av[i as int].union(bv[j as int]));
            let ghost before = out@;
            if !merged.has_internal_contradiction() {
                out.insert(merged);
            }
            proof {
                assert forall|m: Set<Literal>| out@.contains(m) <==> joined_so_far(av, bv, i as int, j + 1, m) by {
                    if out@.contains(m) && m == m0 {
                        assert(av[i as int].union(bv[j as int]) == m);
                    }
                    if joined_so_far(av, bv, i as int, j + 1, m) {
                        let (p, q) = choose|p: int, q: int|
                            #![trigger av[p], bv[q]]
                            0 <= p < av.len() && 0 <= q < bv.len() && (p < i || (p == i && q < j + 1)) && m
                                == av[p].union(bv[q]);
                        if p == i && q == j {
                            assert(m == m0);
                        } else {
                            assert(joined_so_far(av, bv, i as int, j as int, m));
                        }
                    }
                }
            }
            if out.len() > MAX_CUBES {
                proof {
                    assert forall|m: Set<Literal>| out@.contains(m) implies product(a@, b@).contains(m) by {
                        let (p, q) = choose|p: int, q: int|
                            #![trigger av[p], bv[q]]
                            0 <= p < av.len() && 0 <= q < bv.len() && (p < i || (p == i && q < j + 1)) && m
                                == av[p].union(bv[q]);
                        assert(a@.contains(av[p]));
                        assert(b@.contains(bv[q]));
                    }
                    lemma_len_subset(out@, product(a@, b@));
                }
                return None;
            }
            j = j + 1;
        }
        proof {
            assert forall|m: Set<Literal>| out@.contains(m) <==> joined_so_far(av, bv, i + 1, 0, m) by {
                if joined_so_far(av, bv, i + 1, 0, m) {
                    assert(joined_so_far(av, bv, i as int, j as int, m));
                }
                if joined_so_far(av, bv, i as int, j as int, m) {
                    assert(joined_so_far(av, bv, i + 1, 0, m));
                }
            }
        }
        i = i + 1;
    }
    proof {
        assert forall|m: Set<Literal>| out@.contains(m) <==> product(a@, b@).contains(m) by {
            if joined_so_far(av, bv, i as int, 0, m) {
                let (p, q) = choose|p: int, q: int|
                    #![trigger av[p], bv[q]]
                    0 <= p < av.len() && 0 <= q < bv.len() && (p < i || (p == i && q < 0)) && m
                        == av[p].union(bv[q]);
                assert(a@.contains(av[p]));
                assert(b@.contains(bv[q]));
            }
            if joins(a@, b@, m) {
                let (x, y) = choose|x: Set<Literal>, y: Set<Literal>|
                    #[trigger] a@.contains(x) && #[trigger] b@.contains(y) && m == x.union(y);
                let p = choose|p: int| 0 <= p < av.len() && av[p] == x;
                let q = choose|q: int| 0 <= q < bv.len() && bv[q] == y;
                assert(m == av[p].union(bv[q]));
            }
        }
        assert(out@ =~= product(a@, b@));
    }
    Some(out)
}

pub proof fn lemma_product_finite(a: Set<Set<Literal>>, b: Set<Set<Literal>>)
    requires
        a.finite(),
        b.finite(),
    ensures
        product(a, b).finite(),
    decreases a.len(),
{
    if a.len() == 0 {
        assert(product(a, b) =~= Set::empty());
    } else {
        let x = a.choose();
        let rest = a.remove(x);
        lemma_product_finite(rest, b);
        let f = |y: Set<Literal>| x.union(y);
        b.lemma_map_finite(f);
        let whole = product(rest, b).union(b.map(f));
        assert forall|m: Set<Literal>| product(a, b).contains(m) implies whole.contains(m) by {
            let (u, v) = choose|u: Set<Literal>, v: Set<Literal>|
                #[trigger] a.contains(u) && #[trigger] b.contains(v) && m == u.union(v);
            if u == x {
                assert(f(v) == m);
                assert(b.map(f).contains(m));
            } else {
                assert(rest.contains(u));
                assert(joins(rest, b, m));
            }
        }
        lemma_set_subset_finite(whole, product(a, b));
    }
}

/// The cubes that no other cube makes redundant, and whether any was dropped.
pub fn simplify_subsumption(dnf: &Dnf) -> (r: (Dnf, bool))
    requires
        dnf.wf(),
    ensures
        r.0.wf(),
        r.0@ == minimal(dnf@),
        r.1 == (minimal(dnf@) != dnf@),
{
    let ghost v = cube_views(dnf.cubes@);
    let mut out = Dnf::new();
    let mut simplified = false;
    let mut i: usize = 0;
    while i < dnf.cubes.len()
        invariant
            i <= dnf.cubes.len(),
            dnf.wf(),
            v == cube_views(dnf.cubes@),
            out.wf(),
            forall|c: Set<Literal>|
                out@.contains(c) <==> (v.take(i as int).contains(c) && !subsumed(dnf@, c)),
            simplified == exists|k: int| 0 <= k < i && subsumed(dnf@, #[trigger] v[k]),
        decreases dnf.cubes.len() - i,
    {
        let ghost c = v[i as int];
        let mut redundant = false;
        let mut j: usize = 0;
        while j < dnf.cubes.len() && !redundant
            invariant
                i < dnf.cubes.len(),
                j <= dnf.cubes.len(),
                v == cube_views(dnf.cubes@),
                c == v[i as int],
                redundant ==> subsumed(dnf@, c),
                !redundant ==> forall|k: int|
                    0 <= k < j ==> !((#[trigger] v[k]).subset_of(c) && v[k] != c),
            decreases dnf.cubes.len() - j,
        {
            if dnf.cubes[j].is_subset(&dnf.cubes[i]) && !dnf.cubes[j].same(&dnf.cubes[i]) {
                redundant = true;
                proof {
                    assert(v[j as int] == dnf.cubes@[j as int]@);
                    assert(dnf@.contains(v[j as int]));
                }
            }
            j = j + 1;
        }
        proof {
            if !redundant && subsumed(dnf@, c) {
                let o = choose|o: Set<Literal>| #[trigger] dnf@.contains(o) && o.subset_of(c) && o != c;
                let k = choose|k: int| 0 <= k < v.len() && v[k] == o;
                assert(v[k].subset_of(c) && v[k] != c);
            }
        }
        if redundant {
            simplified = true;
            assert(subsumed(dnf@, v[i as int]));
        } else {
            out.insert(dnf.cubes[i].copy());
        }
        proof {
            lemma_take_to_set(v, i as int);
            assert forall|x: Set<Literal>|
                v.take(i + 1).contains(x) <==> (v.take(i as int).contains(x) || x == c) by {
                assert(v.take(i + 1).to_set().contains(x) == v.take(i as int).to_set().insert(c).contains(x));
            }
        }
        i = i + 1;
    }
    proof {
        assert(v.take(i as int) == v);
        assert(out@ =~= minimal(dnf@));
        if simplified {
            let k = choose|k: int| 0 <= k < i && subsumed(dnf@, #[trigger] v[k]);
            assert(dnf@.contains(v[k]));
            assert(!minimal(dnf@).contains(v[k]));
        } else {
            assert forall|c: Set<Literal>| dnf@.contains(c) implies minimal(dnf@).contains(c) by {
                let k = choose|k: int| 0 <= k < v.len() && v[k] == c;
                assert(!subsumed(dnf@, v[k]));
            }
            assert(minimal(dnf@) =~= dnf@);
        }
    }
    (out, simplified)
}

/// One more than the last assignment to `n` atoms.
fn table_size(n: usize) -> (r: u32)
    requires
        n <= MAX_ATOMS_FOR_TAUTOLOGY,
    ensures
        r == pow2_u32(n as nat),
        r <= 256,
{
    let mut r: u32 = 1;
    let mut i: usize = 0;
    proof {
        reveal_with_fuel(pow2_u32, 10);
    }
    while i < n
        invariant
            i <= n <= 8,
            r == pow2_u32(i as nat),
            i == 0 ==> r == 1,
            i == 1 ==> r == 2,
            i == 2 ==> r == 4,
            i == 3 ==> r == 8,
            i == 4 ==> r == 16,
            i == 5 ==> r == 32,
            i == 6 ==> r == 64,
            i == 7 ==> r == 128,
            i == 8 ==> r == 256,
        decreases n - i,
    {
        r = r * 2;
        i = i + 1;
    }
    r
}

/// Whether every assignment to the first `atom_count` atoms makes `dnf` true;
/// nothing where there are too many atoms to enumerate.
pub fn is_tautology(dnf: &Dnf, atom_count: usize) -> (r: Option<bool>)
    ensures
        r is Some <==> atom_count <= MAX_ATOMS_FOR_TAUTOLOGY,
        r matches Some(b) ==> b == covers(dnf@, atom_count as nat),
{
    if atom_count > MAX_ATOMS_FOR_TAUTOLOGY {
        return None;
    }
    let total: u32 = table_size(atom_count);
    let mut m: u32 = 0;
    while m < total
        invariant
            m <= total,
            atom_count <= MAX_ATOMS_FOR_TAUTOLOGY,
            total == pow2_u32(atom_count as nat),
            forall|k: u32| k < m ==> dnf_holds(dnf@, #[trigger] bits(k)),
        decreases total - m,
    {
        if !dnf.eval(m) {
            return Some(false);
        }
        m = m + 1;
    }
    Some(true)
}

/// Whether `path` implies `cond`, by truth table over the first `atom_count`
/// atoms; nothing where there are too many atoms to enumerate.
pub fn path_implies(path: &Dnf, cond: &Dnf, atom_count: usize) -> (r: Option<bool>)
    ensures
        r is Some <==> atom_count <= MAX_ATOMS_FOR_TAUTOLOGY,
        r matches Some(b) ==> b == entails(path@, cond@, atom_count as nat),
{
    if atom_count > MAX_ATOMS_FOR_TAUTOLOGY {
        return None;
    }
    let total: u32 = table_size(atom_count);
    let mut m: u32 = 0;
    while m < total
        invariant
            m <= total,
            atom_count <= MAX_ATOMS_FOR_TAUTOLOGY,
            total == pow2_u32(atom_count as nat),
            forall|k: u32|
                k < m && dnf_holds(path@, #[trigger] bits(k)) ==> dnf_holds(cond@, bits(k)),
        decreases total - m,
    {
        if path.eval(m) && !cond.eval(m) {
            return Some(false);
        }
        m = m + 1;
    }
    Some(true)
}

/// Whether no assignment makes `dnf` true: it has no cube.
pub fn is_contradiction(dnf: &Dnf) -> (r: bool)
    ensures
        r == (dnf@ == Set::<Set<Literal>>::empty()),
{
    dnf.is_empty()
}

} // verus!
