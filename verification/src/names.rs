//! Sets and ordered lists of names.
use vstd::prelude::*;

use crate::condition::string_texts;
use crate::text::{before, comes_before};

verus! {

/// A set of names.
#[derive(Debug)]
pub struct NameSet {
    pub names: Vec<String>,
}

impl View for NameSet {
    type V = Set<Seq<char>>;

    open spec fn view(&self) -> Set<Seq<char>> {
        string_texts(self.names@).to_set()
    }
}

impl NameSet {
    /// No name is listed twice.
    pub open spec fn wf(&self) -> bool {
        string_texts(self.names@).no_duplicates()
    }

    pub fn new() -> (r: NameSet)
        ensures
            r.wf(),
            r@ == Set::<Seq<char>>::empty(),
    {
        let r = NameSet { names: Vec::new() };
        assert(r@ =~= Set::<Seq<char>>::empty());
        r
    }

    pub fn contains(&self, name: &String) -> (r: bool)
        ensures
            r == self@.contains(name@),
    {
        let ghost t = string_texts(self.names@);
        let mut i: usize = 0;
        while i < self.names.len()
            invariant
                i <= self.names.len(),
                t == string_texts(self.names@),
                forall|j: int| 0 <= j < i ==> #[trigger] t[j] != name@,
            decreases self.names.len() - i,
        {
            assert(t[i as int] == self.names@[i as int]@);
            if self.names[i] == *name {
                assert(t.contains(name@));
                return true;
            }
            i = i + 1;
        }
        false
    }

    pub fn insert(&mut self, name: String)
        requires
            old(self).wf(),
        ensures
            final(self).wf(),
            final(self)@ == old(self)@.insert(name@),
    {
        if !self.contains(&name) {
            let ghost t = string_texts(self.names@);
            let ghost n = name@;
            self.names.push(name);
            proof {
                let u = string_texts(self.names@);
                assert(u =~= t.push(n));
                crate::dnf::lemma_take_to_set(u, t.len() as int);
                assert(u.take(t.len() as int) =~= t);
                assert(u.take(t.len() as int + 1) =~= u);
                assert(!t.contains(n));
            }
        } else {
            assert(self@ =~= old(self)@.insert(name@));
        }
    }

    /// The names of a list.
    pub fn of(list: &Vec<String>) -> (r: NameSet)
        ensures
            r.wf(),
            r@ == string_texts(list@).to_set(),
    {
        let ghost t = string_texts(list@);
        let mut out = NameSet::new();
        let mut i: usize = 0;
        assert(t.take(0).to_set() =~= Set::empty());
        while i < list.len()
            invariant
                i <= list.len(),
                t == string_texts(list@),
                out.wf(),
                out@ == t.take(i as int).to_set(),
            decreases list.len() - i,
        {
            out.insert(list[i].clone());
            proof {
                crate::dnf::lemma_take_to_set(t, i as int);
            }
            i = i + 1;
        }
        assert(t.take(i as int) == t);
        out
    }

    pub fn len(&self) -> (r: usize)
        requires
            self.wf(),
        ensures
            r == self@.len(),
            self@.finite(),
    {
        proof {
            string_texts(self.names@).unique_seq_to_set();
            vstd::seq_lib::seq_to_set_is_finite(string_texts(self.names@));
        }
        self.names.len()
    }

    pub fn is_empty(&self) -> (r: bool)
        ensures
            r == (self@ == Set::<Seq<char>>::empty()),
    {
        if self.names.len() == 0 {
            assert(self@ =~= Set::<Seq<char>>::empty());
            true
        } else {
            assert(string_texts(self.names@)[0] == self.names@[0]@);
            assert(self@.contains(self.names@[0]@));
            false
        }
    }

    pub fn is_subset(&self, other: &NameSet) -> (r: bool)
        ensures
            r == self@.subset_of(other@),
    {
        let ghost t = string_texts(self.names@);
        let mut i: usize = 0;
        while i < self.names.len()
            invariant
                i <= self.names.len(),
                t == string_texts(self.names@),
                forall|j: int| 0 <= j < i ==> other@.contains(#[trigger] t[j]),
            decreases self.names.len() - i,
        {
            assert(t[i as int] == self.names@[i as int]@);
            if !other.contains(&self.names[i]) {
                assert(self@.contains(t[i as int]));
                return false;
            }
            i = i + 1;
        }
        true
    }

    /// The names that are not in `other`.
    pub fn difference(&self, other: &NameSet) -> (r: NameSet)
        ensures
            r.wf(),
            r@ == self@.difference(other@),
    {
        let ghost t = string_texts(self.names@);
        let mut out = NameSet::new();
        let mut i: usize = 0;
        assert(t.take(0).to_set() =~= Set::empty());
        assert(out@ =~= t.take(0).to_set().difference(other@));
        while i < self.names.len()
            invariant
                i <= self.names.len(),
                t == string_texts(self.names@),
                out.wf(),
                out@ == t.take(i as int).to_set().difference(other@),
            decreases self.names.len() - i,
        {
            if !other.contains(&self.names[i]) {
                out.insert(self.names[i].clone());
            }
            proof {
                crate::dnf::lemma_take_to_set(t, i as int);
                assert(out@ =~= t.take(i + 1).to_set().difference(other@));
            }
            i = i + 1;
        }
        assert(t.take(i as int) == t);
        out
    }
}

// ---------------------------------------------------------------------
// Ordered lists
// ---------------------------------------------------------------------

/// `names`, which are in order, with `name` among them.
pub open spec fn with_name(names: Seq<Seq<char>>, name: Seq<char>) -> Seq<Seq<char>>
    decreases names.len(),
{
    if names.len() == 0 {
        seq![name]
    } else if names.last() == name {
        names
    } else if before(names.last(), name) {
        names.push(name)
    } else {
        with_name(names.drop_last(), name).push(names.last())
    }
}

/// The names of `list` in order, each once.
pub open spec fn in_order(list: Seq<Seq<char>>) -> Seq<Seq<char>>
    decreases list.len(),
{
    if list.len() == 0 {
        Seq::empty()
    } else {
        with_name(in_order(list.drop_last()), list.last())
    }
}

/// Whether `names` are in order and none occurs twice.
pub open spec fn ascending(names: Seq<Seq<char>>) -> bool {
    forall|i: int, j: int|
        #![trigger names[i], names[j]]
        0 <= i < j < names.len() ==> before(names[i], names[j])
}

pub proof fn lemma_before_irreflexive(a: Seq<char>)
    ensures
        !before(a, a),
    decreases a.len(),
{
    if a.len() > 0 {
        lemma_before_irreflexive(a.skip(1));
    }
}

pub proof fn lemma_before_transitive(a: Seq<char>, b: Seq<char>, c: Seq<char>)
    requires
        before(a, b),
        before(b, c),
    ensures
        before(a, c),
    decreases a.len(),
{
    if a.len() > 0 && b.len() > 0 && c.len() > 0 && a[0] == b[0] && b[0] == c[0] {
        lemma_before_transitive(a.skip(1), b.skip(1), c.skip(1));
    }
}

pub proof fn lemma_before_total(a: Seq<char>, b: Seq<char>)
    requires
        a != b,
    ensures
        before(a, b) || before(b, a),
    decreases a.len(),
{
    if a.len() > 0 && b.len() > 0 && a[0] == b[0] {
        if a.skip(1) == b.skip(1) {
            assert(a =~= seq![a[0]] + a.skip(1));
            assert(b =~= seq![b[0]] + b.skip(1));
        }
        lemma_before_total(a.skip(1), b.skip(1));
    } else if a.len() == 0 && b.len() == 0 {
        assert(a =~= b);
    } else if a.len() > 0 && b.len() > 0 {
        if a[0] as u32 == b[0] as u32 {
            vstd::utf8::char_u32_cast(a[0], a[0] as u32);
            vstd::utf8::char_u32_cast(b[0], a[0] as u32);
        }
    }
}

proof fn lemma_with_name(names: Seq<Seq<char>>, name: Seq<char>)
    requires
        ascending(names),
    ensures
        ascending(with_name(names, name)),
        forall|x: Seq<char>|
            #[trigger] with_name(names, name).contains(x) <==> names.contains(x) || x == name,
    decreases names.len(),
{
    let r = with_name(names, name);
    if names.len() == 0 {
        assert(r[0] == name);
    } else {
        let last = names.last();
        let rest = names.drop_last();
        assert(names =~= rest.push(last));
        if last == name {
            assert(names[names.len() - 1] == name);
        } else if before(last, name) {
            assert forall|i: int, j: int|
                #![trigger r[i], r[j]]
                0 <= i < j < r.len() implies before(r[i], r[j]) by {
                if j == names.len() && i < names.len() - 1 {
                    assert(before(names[i], names[names.len() - 1]));
                    lemma_before_transitive(names[i], last, name);
                }
            }
            lemma_push_contains(names, name);
        } else {
            lemma_before_total(last, name);
            assert forall|i: int, j: int|
                #![trigger rest[i], rest[j]]
                0 <= i < j < rest.len() implies before(rest[i], rest[j]) by {
                assert(before(names[i], names[j]));
            }
            lemma_with_name(rest, name);
            let head = with_name(rest, name);
            assert forall|i: int| 0 <= i < head.len() implies before(#[trigger] head[i], last) by {
                assert(head.contains(head[i]));
                if rest.contains(head[i]) {
                    let k = choose|k: int| 0 <= k < rest.len() && rest[k] == head[i];
                    assert(before(names[k], names[names.len() - 1]));
                }
            }
            lemma_push_contains(head, last);
            lemma_push_contains(rest, last);
        }
    }
}

proof fn lemma_push_contains(s: Seq<Seq<char>>, a: Seq<char>)
    ensures
        forall|x: Seq<char>| #[trigger] s.push(a).contains(x) <==> s.contains(x) || x == a,
{
    assert forall|x: Seq<char>| #[trigger] s.push(a).contains(x) <==> s.contains(x) || x == a by {
        if s.push(a).contains(x) {
            let k = choose|k: int| 0 <= k < s.push(a).len() && s.push(a)[k] == x;
            if k < s.len() {
                assert(s[k] == x);
            }
        }
        if s.contains(x) {
            let k = choose|k: int| 0 <= k < s.len() && s[k] == x;
            assert(s.push(a)[k] == x);
        }
        assert(s.push(a)[s.len() as int] == a);
    }
}

/// Putting names in order keeps them, drops repetitions and sorts the rest.
pub proof fn ordering_keeps_the_names(list: Seq<Seq<char>>)
    ensures
        ascending(in_order(list)),
        forall|x: Seq<char>| #[trigger] in_order(list).contains(x) <==> list.contains(x),
    decreases list.len(),
{
    if list.len() > 0 {
        let rest = list.drop_last();
        ordering_keeps_the_names(rest);
        lemma_with_name(in_order(rest), list.last());
        assert(list =~= rest.push(list.last()));
        lemma_push_contains(rest, list.last());
    }
}

/// Adds a name to names in order.
pub fn insert_name(names: &mut Vec<String>, name: String)
    ensures
        string_texts(final(names)@) == with_name(string_texts(old(names)@), name@),
{
    let ghost all = string_texts(names@);
    let mut i: usize = names.len();
    assert(all.take(i as int) == all);
    assert(all.skip(i as int) =~= Seq::empty());
    assert(with_name(all, name@) =~= with_name(all.take(i as int), name@) + all.skip(i as int));
    while i > 0
        invariant
            i <= names.len(),
            all == string_texts(names@),
            names@ == old(names)@,
            with_name(all, name@) == with_name(all.take(i as int), name@) + all.skip(i as int),
        decreases i,
    {
        let ghost head = all.take(i as int);
        assert(head.last() == names@[i - 1]@);
        if names[i - 1] == name {
            assert(head + all.skip(i as int) =~= all);
            return ;
        }
        if comes_before(names[i - 1].as_str(), name.as_str()) {
            names.insert(i, name);
            proof {
                assert(string_texts(names@) =~= head.push(name@) + all.skip(i as int));
            }
            return ;
        }
        proof {
            assert(head.drop_last() == all.take(i - 1));
            assert(with_name(head, name@) == with_name(all.take(i - 1), name@).push(head.last()));
            assert(with_name(all.take(i - 1), name@).push(head.last()) + all.skip(i as int)
                =~= with_name(all.take(i - 1), name@) + all.skip(i - 1));
        }
        i = i - 1;
    }
    names.insert(0, name);
    proof {
        assert(all.skip(0) == all);
        assert(string_texts(names@) =~= seq![name@] + all);
    }
}

/// The names of `list` in order, each once.
pub fn put_in_order(list: &Vec<String>) -> (r: Vec<String>)
    ensures
        string_texts(r@) == in_order(string_texts(list@)),
{
    let ghost t = string_texts(list@);
    let mut out: Vec<String> = Vec::new();
    let mut i: usize = 0;
    assert(string_texts(out@) =~= in_order(t.take(0)));
    while i < list.len()
        invariant
            i <= list.len(),
            t == string_texts(list@),
            string_texts(out@) == in_order(t.take(i as int)),
        decreases list.len() - i,
    {
        assert(t.take(i + 1).drop_last() == t.take(i as int));
        assert(t.take(i + 1).last() == list@[i as int]@);
        insert_name(&mut out, list[i].clone());
        i = i + 1;
    }
    assert(t.take(i as int) == t);
    out
}

/// The names, joined by a separator.
pub open spec fn joined(names: Seq<Seq<char>>, separator: Seq<char>) -> Seq<char>
    decreases names.len(),
{
    if names.len() == 0 {
        Seq::empty()
    } else if names.len() == 1 {
        names[0]
    } else {
        joined(names.drop_last(), separator) + separator + names.last()
    }
}

pub fn join(names: &Vec<String>, separator: &str) -> (r: String)
    ensures
        r@ == joined(string_texts(names@), separator@),
{
    let ghost t = string_texts(names@);
    let mut out = String::new();
    let mut i: usize = 0;
    while i < names.len()
        invariant
            i <= names.len(),
            t == string_texts(names@),
            out@ == joined(t.take(i as int), separator@),
        decreases names.len() - i,
    {
        assert(t.take(i + 1).drop_last() == t.take(i as int));
        assert(t.take(i + 1).last() == names@[i as int]@);
        if i > 0 {
            out.append(separator);
        }
        let ghost head = out@;
        out.append(names[i].as_str());
        assert(i == 0 ==> out@ =~= t.take(i + 1)[0]);
        i = i + 1;
    }
    assert(t.take(i as int) == t);
    out
}

} // verus!
