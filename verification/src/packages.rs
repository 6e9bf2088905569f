//! The packages of a spec file and the dependencies they state.
use vstd::prelude::*;

use crate::ast::{
    BoolDep, DepAtom, DepExpr, Evr, Item, PackageName, PreambleItem, Section, Span, SpecFile, Tag,
    TagValue, Text, VerOp,
};
use crate::text::{decimal, is_digit, number, opt_string, opt_view, trim, trimmed};
use crate::text_laws::{decimal_stands_for_the_number, decimal_tells_numbers_apart};
use crate::walk::{flat, item_views, leaf_items, leaves, lemma_flat_step, lemma_flat_contains};

verus! {

/// The tag line that an item is, if it is one.
pub open spec fn preamble_of(item: Item) -> Seq<PreambleItem> {
    match item {
        Item::Preamble(p) => seq![p],
        _ => Seq::empty(),
    }
}

/// The tag lines of a list, whatever conditionals they stand in.
pub open spec fn preamble(items: Seq<Item>) -> Seq<PreambleItem> {
    flat(leaves(items), |i: Item| preamble_of(i))
}

/// The tag lines that a list of references points at.
pub open spec fn preamble_views(v: Seq<&PreambleItem>) -> Seq<PreambleItem> {
    v.map_values(|p: &PreambleItem| *p)
}

/// The tag lines of a list, whatever conditionals they stand in.
pub fn collect_preamble<'a>(items: &'a Vec<Item>) -> (r: Vec<&'a PreambleItem>)
    ensures
        preamble_views(r@) == preamble(items@),
{
    let all = leaf_items(items);
    let ghost ls = leaves(items@);
    let ghost f = |i: Item| preamble_of(i);
    let mut out: Vec<&'a PreambleItem> = Vec::new();
    let mut i: usize = 0;
    assert(preamble_views(out@) == flat(ls.take(0), f));
    while i < all.len()
        invariant
            i <= all.len(),
            item_views(all@) == ls,
            f == (|i: Item| preamble_of(i)),
            preamble_views(out@) == flat(ls.take(i as int), f),
        decreases all.len() - i,
    {
        let ghost before = preamble_views(out@);
        assert(ls[i as int] == *all@[i as int]);
        match all[i] {
            Item::Preamble(p) => {
                out.push(p);
                assert(preamble_views(out@) == before + seq![*p]);
            },
            _ => {
                assert(before + Seq::<PreambleItem>::empty() == before);
            },
        }
        proof {
            lemma_flat_step(ls, f, i as int);
        }
        i = i + 1;
    }
    assert(ls.take(i as int) == ls);
    out
}

/// The tag lines of the main package.
pub open spec fn top_level_preamble(spec: SpecFile) -> Seq<PreambleItem> {
    preamble(spec.items@)
}

pub fn collect_top_level_preamble<'a>(spec: &'a SpecFile) -> (r: Vec<&'a PreambleItem>)
    ensures
        preamble_views(r@) == top_level_preamble(*spec),
{
    collect_preamble(&spec.items)
}

// ---------------------------------------------------------------------
// Packages
// ---------------------------------------------------------------------

/// A package: its name, where it is known, and its tag lines.
pub struct Package<'a> {
    pub name: Option<String>,
    pub items: Vec<&'a PreambleItem>,
}

pub struct PackageView {
    pub name: Option<Seq<char>>,
    pub items: Seq<PreambleItem>,
}

impl<'a> View for Package<'a> {
    type V = PackageView;

    open spec fn view(&self) -> PackageView {
        PackageView { name: opt_string(self.name), items: preamble_views(self.items@) }
    }
}

pub open spec fn package_views(v: Seq<Package>) -> Seq<PackageView> {
    v.map_values(|p: Package| p@)
}

/// The literal value of the first `Name:` line with one.
pub open spec fn literal_name(items: Seq<PreambleItem>) -> Option<Seq<char>>
    decreases items.len(),
{
    if items.len() == 0 {
        None
    } else {
        match literal_name(items.drop_last()) {
            Some(n) => Some(n),
            None => own_name(items.last()),
        }
    }
}

pub open spec fn own_name(p: PreambleItem) -> Option<Seq<char>> {
    match p.value {
        TagValue::Text(t) => if p.tag is Name && t.literal() is Some {
            Some(trim(t.literal().unwrap()))
        } else {
            None
        },
        _ => None,
    }
}

/// The name of a subpackage of `main`.
pub open spec fn package_name(main: Option<Seq<char>>, arg: Option<PackageName>) -> Option<Seq<char>> {
    match arg {
        None => None,
        Some(PackageName::Absolute(t)) => match t.literal() {
            Some(s) => Some(trim(s)),
            None => None,
        },
        Some(PackageName::Relative(t)) => match (main, t.literal()) {
            (Some(m), Some(s)) => Some(m + "-"@ + trim(s)),
            _ => None,
        },
    }
}

/// The package that an item declares.
pub open spec fn declared(main: Option<Seq<char>>, item: Item) -> Seq<PackageView> {
    match item {
        Item::Section(s) => match *s {
            Section::Package { name_arg, content, .. } => seq![
                PackageView { name: package_name(main, name_arg), items: preamble(content@) },
            ],
            _ => Seq::empty(),
        },
        _ => Seq::empty(),
    }
}

/// The main package and the subpackages, as they come.
pub open spec fn packages(spec: SpecFile) -> Seq<PackageView> {
    let top = top_level_preamble(spec);
    let main = literal_name(top);
    seq![PackageView { name: main, items: top }] + flat(
        leaves(spec.items@),
        |i: Item| declared(main, i),
    )
}

fn find_name(items: &Vec<&PreambleItem>) -> (r: Option<String>)
    ensures
        opt_string(r) == literal_name(preamble_views(items@)),
{
    let ghost v = preamble_views(items@);
    let mut found: Option<String> = None;
    let mut i: usize = 0;
    while i < items.len()
        invariant
            i <= items.len(),
            v == preamble_views(items@),
            opt_string(found) == literal_name(v.take(i as int)),
        decreases items.len() - i,
    {
        assert(v.take(i + 1).drop_last() == v.take(i as int));
        assert(v.take(i + 1).last() == *items@[i as int]);
        if found.is_none() {
            match (&items[i].tag, &items[i].value) {
                (Tag::Name, TagValue::Text(t)) => match t.literal_str() {
                    Some(s) => {
                        found = Some(trimmed(s).to_owned());
                    },
                    None => {},
                },
                _ => {},
            }
        }
        i = i + 1;
    }
    assert(v.take(i as int) == v);
    found
}

fn name_of_package(main: &Option<String>, arg: &Option<PackageName>) -> (r: Option<String>)
    ensures
        opt_string(r) == package_name(opt_string(*main), *arg),
{
    match arg {
        None => None,
        Some(PackageName::Absolute(t)) => match t.literal_str() {
            Some(s) => Some(trimmed(s).to_owned()),
            None => None,
        },
        Some(PackageName::Relative(t)) => match (main, t.literal_str()) {
            (Some(m), Some(s)) => {
                let mut name = String::from_str(m.as_str());
                name.append("-");
                name.append(trimmed(s));
                Some(name)
            },
            _ => None,
        },
    }
}

fn copy_name(name: &Option<String>) -> (r: Option<String>)
    ensures
        opt_string(r) == opt_string(*name),
{
    match name {
        Some(s) => Some(s.as_str().to_owned()),
        None => None,
    }
}

/// The main package and the subpackages.
pub fn iter_packages<'a>(spec: &'a SpecFile) -> (r: Vec<Package<'a>>)
    ensures
        package_views(r@) == packages(*spec),
{
    let top = collect_top_level_preamble(spec);
    let main = find_name(&top);
    let ghost main_name = opt_string(main);
    let ghost f = |i: Item| declared(main_name, i);
    let mut out: Vec<Package<'a>> = Vec::new();
    let first = Package { name: copy_name(&main), items: top };
    let ghost first_view = first@;
    out.push(first);
    let all = leaf_items(&spec.items);
    let ghost ls = leaves(spec.items@);
    let mut i: usize = 0;
    assert(package_views(out@) == seq![first_view] + flat(ls.take(0), f));
    while i < all.len()
        invariant
            i <= all.len(),
            item_views(all@) == ls,
            main_name == opt_string(main),
            f == (|i: Item| declared(main_name, i)),
            package_views(out@) == seq![first_view] + flat(ls.take(i as int), f),
        decreases all.len() - i,
    {
        let ghost before = package_views(out@);
        let ghost so_far = flat(ls.take(i as int), f);
        assert(ls[i as int] == *all@[i as int]);
        let ghost mut more: Seq<PackageView> = Seq::empty();
        match all[i] {
            Item::Section(s) => match &**s {
                Section::Package { name_arg, content, .. } => {
                    let p = Package {
                        name: name_of_package(&main, name_arg),
                        items: collect_preamble(content),
                    };
                    proof {
                        more = seq![p@];
                    }
                    out.push(p);
                    assert(package_views(out@) == before + more);
                },
                _ => {
                    assert(before + more == before);
                },
            },
            _ => {
                assert(before + more == before);
            },
        }
        proof {
            lemma_flat_step(ls, f, i as int);
            assert(more == f(ls[i as int]));
            assert(seq![first_view] + so_far + more == seq![first_view] + (so_far + more));
        }
        i = i + 1;
    }
    assert(ls.take(i as int) == ls);
    out
}

// ---------------------------------------------------------------------
// Dependencies
// ---------------------------------------------------------------------

/// The dependencies that an expression names, from left to right.
pub open spec fn dep_atoms(e: DepExpr) -> Seq<DepAtom>
    decreases e, 0int,
{
    match e {
        DepExpr::Atom(a) => seq![a],
        DepExpr::Rich(b) => bool_atoms(*b),
    }
}

pub open spec fn bool_atoms(b: BoolDep) -> Seq<DepAtom>
    decreases b, 0int,
{
    match b {
        BoolDep::And(xs) => list_atoms(xs@),
        BoolDep::Or(xs) => list_atoms(xs@),
        BoolDep::With(xs) => list_atoms(xs@),
        BoolDep::If { cond, consequent, otherwise } => dep_atoms(*cond) + dep_atoms(*consequent)
            + match otherwise {
            Some(o) => dep_atoms(*o),
            None => Seq::empty(),
        },
        BoolDep::Unless { cond, consequent, otherwise } => dep_atoms(*cond) + dep_atoms(*consequent)
            + match otherwise {
            Some(o) => dep_atoms(*o),
            None => Seq::empty(),
        },
        BoolDep::Without { left, right } => dep_atoms(*left) + dep_atoms(*right),
    }
}

pub open spec fn list_atoms(xs: Seq<DepExpr>) -> Seq<DepAtom>
    decreases xs, 0int,
{
    if xs.len() == 0 {
        Seq::empty()
    } else {
        list_atoms(xs.drop_last()) + dep_atoms(xs.last())
    }
}

/// The dependencies that a list of references points at.
pub open spec fn atom_views(v: Seq<&DepAtom>) -> Seq<DepAtom> {
    v.map_values(|a: &DepAtom| *a)
}

fn push_atoms<'a>(e: &'a DepExpr, out: &mut Vec<&'a DepAtom>)
    ensures
        atom_views(final(out)@) == atom_views(old(out)@) + dep_atoms(*e),
    decreases e, 0int,
{
    match e {
        DepExpr::Atom(a) => {
            out.push(a);
            assert(atom_views(out@) =~= atom_views(old(out)@) + seq![*a]);
        },
        DepExpr::Rich(b) => push_bool_atoms(b, out),
    }
}

fn push_bool_atoms<'a>(b: &'a BoolDep, out: &mut Vec<&'a DepAtom>)
    ensures
        atom_views(final(out)@) == atom_views(old(out)@) + bool_atoms(*b),
    decreases b, 0int,
{
    let ghost start = atom_views(out@);
    match b {
        BoolDep::And(xs) => push_list_atoms(xs, out),
        BoolDep::Or(xs) => push_list_atoms(xs, out),
        BoolDep::With(xs) => push_list_atoms(xs, out),
        BoolDep::If { cond, consequent, otherwise } => {
            push_atoms(cond, out);
            push_atoms(consequent, out);
            let ghost x = dep_atoms(**cond);
            let ghost y = dep_atoms(**consequent);
            match otherwise {
                Some(o) => {
                    push_atoms(o, out);
                    assert(start + x + y + dep_atoms(**o) =~= start + (x + y + dep_atoms(**o)));
                },
                None => {
                    assert(start + x + y =~= start + (x + y + Seq::<DepAtom>::empty()));
                },
            }
        },
        BoolDep::Unless { cond, consequent, otherwise } => {
            push_atoms(cond, out);
            push_atoms(consequent, out);
            let ghost x = dep_atoms(**cond);
            let ghost y = dep_atoms(**consequent);
            match otherwise {
                Some(o) => {
                    push_atoms(o, out);
                    assert(start + x + y + dep_atoms(**o) =~= start + (x + y + dep_atoms(**o)));
                },
                None => {
                    assert(start + x + y =~= start + (x + y + Seq::<DepAtom>::empty()));
                },
            }
        },
        BoolDep::Without { left, right } => {
            push_atoms(left, out);
            push_atoms(right, out);
            assert(start + dep_atoms(**left) + dep_atoms(**right) =~= start + (dep_atoms(**left)
                + dep_atoms(**right)));
        },
    }
}

fn push_list_atoms<'a>(xs: &'a Vec<DepExpr>, out: &mut Vec<&'a DepAtom>)
    ensures
        atom_views(final(out)@) == atom_views(old(out)@) + list_atoms(xs@),
    decreases xs, 0int,
{
    let ghost start = atom_views(out@);
    let mut i: usize = 0;
    assert(start + list_atoms(xs@.take(0)) =~= start);
    while i < xs.len()
        invariant
            i <= xs.len(),
            atom_views(out@) == start + list_atoms(xs@.take(i as int)),
        decreases xs.len() - i,
    {
        push_atoms(&xs[i], out);
        proof {
            assert(xs@.take(i + 1).drop_last() == xs@.take(i as int));
            let a = list_atoms(xs@.take(i as int));
            let b = dep_atoms(xs@[i as int]);
            assert(list_atoms(xs@.take(i + 1)) == a + b);
            assert(start + a + b =~= start + (a + b));
        }
        i = i + 1;
    }
    assert(xs@.take(i as int) == xs@);
}

/// The dependencies that an expression names, from left to right.
pub fn atoms_of<'a>(e: &'a DepExpr) -> (r: Vec<&'a DepAtom>)
    ensures
        atom_views(r@) == dep_atoms(*e),
{
    let mut out: Vec<&'a DepAtom> = Vec::new();
    push_atoms(e, &mut out);
    assert(atom_views(out@) =~= dep_atoms(*e));
    out
}

/// A dependency and where it is stated.
pub struct Stated<'a> {
    pub atom: &'a DepAtom,
    pub span: Span,
}

pub struct StatedView {
    pub atom: DepAtom,
    pub span: Span,
}

impl<'a> View for Stated<'a> {
    type V = StatedView;

    open spec fn view(&self) -> StatedView {
        StatedView { atom: *self.atom, span: self.span }
    }
}

pub open spec fn stated_views(v: Seq<Stated>) -> Seq<StatedView> {
    v.map_values(|s: Stated| s@)
}

/// A set of tags.
#[derive(Clone, Copy, Debug, PartialEq, Eq, Structural)]
pub enum Tags {
    One(Tag),
    /// `Recommends`, `Suggests`, `Supplements` and `Enhances`.
    Weak,
}

impl Tags {
    pub open spec fn has(self, tag: Tag) -> bool {
        match self {
            Tags::One(t) => t == tag,
            Tags::Weak => tag is Recommends || tag is Suggests || tag is Supplements
                || tag is Enhances,
        }
    }

    pub fn holds(self, tag: Tag) -> (r: bool)
        ensures
            r == self.has(tag),
    {
        match self {
            Tags::One(t) => t == tag,
            Tags::Weak => matches!(tag, Tag::Recommends) || matches!(tag, Tag::Suggests)
                || matches!(tag, Tag::Supplements) || matches!(tag, Tag::Enhances),
        }
    }
}

/// The dependencies that a line states under one of `tags`.
pub open spec fn line_atoms(p: PreambleItem, tags: Tags) -> Seq<StatedView> {
    match p.value {
        TagValue::Dep(e) => if tags.has(p.tag) {
            dep_atoms(e).map_values(|a: DepAtom| StatedView { atom: a, span: p.data })
        } else {
            Seq::empty()
        },
        _ => Seq::empty(),
    }
}

/// The dependencies that `items` state under one of `tags`.
pub open spec fn stated(items: Seq<PreambleItem>, tags: Tags) -> Seq<StatedView> {
    flat(items, |p: PreambleItem| line_atoms(p, tags))
}

/// The dependencies that `items` state under one of `tags`.
pub fn collect_atoms<'a>(items: &Vec<&'a PreambleItem>, tags: Tags) -> (r: Vec<Stated<'a>>)
    ensures
        stated_views(r@) == stated(preamble_views(items@), tags),
{
    let ghost v = preamble_views(items@);
    let ghost f = |p: PreambleItem| line_atoms(p, tags);
    let mut out: Vec<Stated<'a>> = Vec::new();
    let mut i: usize = 0;
    assert(stated_views(out@) == flat(v.take(0), f));
    while i < items.len()
        invariant
            i <= items.len(),
            v == preamble_views(items@),
            f == (|p: PreambleItem| line_atoms(p, tags)),
            stated_views(out@) == flat(v.take(i as int), f),
        decreases items.len() - i,
    {
        let p = items[i];
        let ghost before = stated_views(out@);
        assert(v[i as int] == *p);
        let mut found: Vec<&'a DepAtom> = Vec::new();
        match &p.value {
            TagValue::Dep(e) => {
                if tags.holds(p.tag) {
                    push_atoms(e, &mut found);
                    assert(atom_views(found@) =~= dep_atoms(*e));
                }
            },
            _ => {},
        }
        let ghost here = atom_views(found@).map_values(
            |a: DepAtom| StatedView { atom: a, span: p.data },
        );
        assert(here =~= line_atoms(*p, tags));
        let mut k: usize = 0;
        assert(before + here.take(0) =~= before);
        while k < found.len()
            invariant
                k <= found.len(),
                here == atom_views(found@).map_values(
                    |a: DepAtom| StatedView { atom: a, span: p.data },
                ),
                stated_views(out@) == before + here.take(k as int),
            decreases found.len() - k,
        {
            let s = Stated { atom: found[k], span: p.data };
            let ghost sv = s@;
            out.push(s);
            proof {
                assert(here[k as int] == sv);
                assert(stated_views(out@) =~= (before + here.take(k as int)).push(sv));
                assert(before + here.take(k + 1) =~= (before + here.take(k as int)).push(sv));
            }
            k = k + 1;
        }
        proof {
            assert(here.take(k as int) == here);
            lemma_flat_step(v, f, i as int);
        }
        i = i + 1;
    }
    assert(v.take(i as int) == v);
    out
}

// ---------------------------------------------------------------------
// The text of a dependency
// ---------------------------------------------------------------------

impl VerOp {
    pub open spec fn symbol(self) -> Seq<char> {
        match self {
            VerOp::Lt => "<"@,
            VerOp::Le => "<="@,
            VerOp::Eq => "="@,
            VerOp::Ge => ">="@,
            VerOp::Gt => ">"@,
            VerOp::Ne => "!="@,
        }
    }

    pub fn as_str(self) -> (r: &'static str)
        ensures
            r@ == self.symbol(),
    {
        match self {
            VerOp::Lt => "<",
            VerOp::Le => "<=",
            VerOp::Eq => "=",
            VerOp::Ge => ">=",
            VerOp::Gt => ">",
            VerOp::Ne => "!=",
        }
    }
}

/// A text without macros, trimmed.
pub open spec fn plain_text(t: Text) -> Option<Seq<char>> {
    match t.literal() {
        Some(s) => Some(trim(s)),
        None => None,
    }
}

pub fn plain_str(t: &Text) -> (r: Option<&str>)
    ensures
        opt_view(r) == plain_text(*t),
{
    match t.literal_str() {
        Some(s) => Some(trimmed(s)),
        None => None,
    }
}

/// `epoch:version-release`, as far as given.
pub open spec fn evr_text(e: Evr) -> Option<Seq<char>> {
    let epoch = match e.epoch {
        Some(n) => decimal(n as nat) + ":"@,
        None => Seq::empty(),
    };
    match (plain_text(e.version), e.release) {
        (Some(v), None) => Some(epoch + v),
        (Some(v), Some(r)) => match plain_text(r) {
            Some(r) => Some(epoch + v + "-"@ + r),
            None => None,
        },
        _ => None,
    }
}

/// The text of a dependency without macros: `name(arch) op evr`.
pub open spec fn atom_text(a: DepAtom) -> Option<Seq<char>> {
    match head_text(a) {
        None => None,
        Some(head) => match a.constraint {
            None => Some(head),
            Some(c) => match evr_text(c.evr) {
                Some(evr) => Some(head + " "@ + c.op.symbol() + " "@ + evr),
                None => None,
            },
        },
    }
}

/// The part of a dependency before its version.
pub open spec fn head_text(a: DepAtom) -> Option<Seq<char>> {
    match (plain_text(a.name), a.arch) {
        (Some(n), None) => if n.len() > 0 {
            Some(n)
        } else {
            None
        },
        (Some(n), Some(t)) => match plain_text(t) {
            Some(q) => if n.len() > 0 {
                Some(n + "("@ + q + ")"@)
            } else {
                None
            },
            None => None,
        },
        _ => None,
    }
}

fn evr_string(e: &Evr) -> (r: Option<String>)
    ensures
        opt_string(r) == evr_text(*e),
{
    let mut s = match e.epoch {
        Some(n) => {
            let mut s = number(n as u128);
            s.append(":");
            s
        },
        None => String::new(),
    };
    match plain_str(&e.version) {
        Some(v) => {
            s.append(v);
        },
        None => {
            return None;
        },
    }
    match &e.release {
        Some(r) => match plain_str(r) {
            Some(r) => {
                s.append("-");
                s.append(r);
            },
            None => {
                return None;
            },
        },
        None => {},
    }
    Some(s)
}

fn head_string(a: &DepAtom) -> (r: Option<String>)
    ensures
        opt_string(r) == head_text(*a),
{
    let name = match plain_str(&a.name) {
        Some(n) => n,
        None => {
            return None;
        },
    };
    let mut s = String::from_str(name);
    match &a.arch {
        Some(t) => match plain_str(t) {
            Some(q) => {
                s.append("(");
                s.append(q);
                s.append(")");
            },
            None => {
                return None;
            },
        },
        None => {},
    }
    if name.is_empty() {
        return None;
    }
    Some(s)
}

/// The text of a dependency, if no macro stands in it.
pub fn dep_atom_text(a: &DepAtom) -> (r: Option<String>)
    ensures
        opt_string(r) == atom_text(*a),
{
    let mut s = match head_string(a) {
        Some(s) => s,
        None => {
            return None;
        },
    };
    match &a.constraint {
        Some(c) => match evr_string(&c.evr) {
            Some(evr) => {
                s.append(" ");
                s.append(c.op.as_str());
                s.append(" ");
                s.append(evr.as_str());
            },
            None => {
                return None;
            },
        },
        None => {},
    }
    Some(s)
}

/// The label of a tag that states dependencies.
pub open spec fn dep_label(tag: Tag) -> Option<Seq<char>> {
    match tag {
        Tag::Requires => Some("Requires"@),
        Tag::BuildRequires => Some("BuildRequires"@),
        Tag::Provides => Some("Provides"@),
        Tag::Conflicts => Some("Conflicts"@),
        Tag::Obsoletes => Some("Obsoletes"@),
        Tag::Recommends => Some("Recommends"@),
        Tag::Suggests => Some("Suggests"@),
        Tag::Supplements => Some("Supplements"@),
        Tag::Enhances => Some("Enhances"@),
        Tag::BuildConflicts => Some("BuildConflicts"@),
        Tag::OrderWithRequires => Some("OrderWithRequires"@),
        _ => None,
    }
}

pub fn label_of_dep(tag: Tag) -> (r: Option<&'static str>)
    ensures
        opt_view(r) == dep_label(tag),
{
    match tag {
        Tag::Requires => Some("Requires"),
        Tag::BuildRequires => Some("BuildRequires"),
        Tag::Provides => Some("Provides"),
        Tag::Conflicts => Some("Conflicts"),
        Tag::Obsoletes => Some("Obsoletes"),
        Tag::Recommends => Some("Recommends"),
        Tag::Suggests => Some("Suggests"),
        Tag::Supplements => Some("Supplements"),
        Tag::Enhances => Some("Enhances"),
        Tag::BuildConflicts => Some("BuildConflicts"),
        Tag::OrderWithRequires => Some("OrderWithRequires"),
        _ => None,
    }
}

/// Tags are told apart by their labels.
pub proof fn labels_tell_tags_apart(a: Tag, b: Tag)
    requires
        dep_label(a) is Some,
        dep_label(a) == dep_label(b),
    ensures
        a == b,
{
    reveal_strlit("Requires");
    reveal_strlit("BuildRequires");
    reveal_strlit("Provides");
    reveal_strlit("Conflicts");
    reveal_strlit("Obsoletes");
    reveal_strlit("Recommends");
    reveal_strlit("Suggests");
    reveal_strlit("Supplements");
    reveal_strlit("Enhances");
    reveal_strlit("BuildConflicts");
    reveal_strlit("OrderWithRequires");
    let x = dep_label(a).unwrap();
    let y = dep_label(b).unwrap();
    assert("Requires"@.len() == 8 && "Requires"@[0] == 'R');
    assert("BuildRequires"@.len() == 13 && "BuildRequires"@[0] == 'B');
    assert("Provides"@.len() == 8 && "Provides"@[0] == 'P');
    assert("Conflicts"@.len() == 9 && "Conflicts"@[0] == 'C');
    assert("Obsoletes"@.len() == 9 && "Obsoletes"@[0] == 'O');
    assert("Recommends"@.len() == 10 && "Recommends"@[0] == 'R');
    assert("Suggests"@.len() == 8 && "Suggests"@[0] == 'S');
    assert("Supplements"@.len() == 11 && "Supplements"@[0] == 'S');
    assert("Enhances"@.len() == 8 && "Enhances"@[0] == 'E');
    assert("BuildConflicts"@.len() == 14 && "BuildConflicts"@[0] == 'B');
    assert("OrderWithRequires"@.len() == 17 && "OrderWithRequires"@[0] == 'O');
    assert(x[0] == y[0] && x.len() == y.len());
}

proof fn lemma_list_atoms(xs: Seq<DepExpr>, a: DepAtom)
    ensures
        list_atoms(xs).contains(a) <==> exists|i: int|
            0 <= i < xs.len() && dep_atoms(#[trigger] xs[i]).contains(a),
    decreases xs.len(),
{
    if xs.len() > 0 {
        let front = xs.drop_last();
        let x = list_atoms(front);
        let y = dep_atoms(xs.last());
        lemma_list_atoms(front, a);
        lemma_either(x, y, a);
        if list_atoms(xs).contains(a) {
            if x.contains(a) {
                let i = choose|i: int| 0 <= i < front.len() && dep_atoms(#[trigger] front[i]).contains(a);
                assert(xs[i] == front[i]);
            } else {
                assert(xs[xs.len() - 1] == xs.last());
            }
        }
        if exists|i: int| 0 <= i < xs.len() && dep_atoms(#[trigger] xs[i]).contains(a) {
            let i = choose|i: int| 0 <= i < xs.len() && dep_atoms(#[trigger] xs[i]).contains(a);
            if i < front.len() {
                assert(front[i] == xs[i]);
            }
        }
    }
}

/// What stands in two lists joined stands in one of them.
pub proof fn lemma_either<A>(x: Seq<A>, y: Seq<A>, a: A)
    ensures
        (x + y).contains(a) <==> x.contains(a) || y.contains(a),
{
    if x.contains(a) {
        let i = choose|i: int| 0 <= i < x.len() && x[i] == a;
        assert((x + y)[i] == a);
    }
    if y.contains(a) {
        let i = choose|i: int| 0 <= i < y.len() && y[i] == a;
        assert((x + y)[x.len() + i] == a);
    }
    if (x + y).contains(a) {
        let i = choose|i: int| 0 <= i < (x + y).len() && (x + y)[i] == a;
        if i < x.len() {
            assert(x[i] == a);
        } else {
            assert(y[i - x.len()] == a);
        }
    }
}

/// One of the dependencies names `a`.
pub open spec fn one_names(xs: Seq<DepExpr>, a: DepAtom) -> bool {
    exists|i: int| 0 <= i < xs.len() && dep_atoms(#[trigger] xs[i]).contains(a)
}

/// A boolean dependency names what its parts name, all of them and nothing
/// else.
pub proof fn rich_dependency_names_what_its_parts_name(b: BoolDep, a: DepAtom)
    ensures
        bool_atoms(b).contains(a) <==> match b {
            BoolDep::And(xs) => one_names(xs@, a),
            BoolDep::Or(xs) => one_names(xs@, a),
            BoolDep::With(xs) => one_names(xs@, a),
            BoolDep::If { cond, consequent, otherwise } => dep_atoms(*cond).contains(a)
                || dep_atoms(*consequent).contains(a) || (otherwise matches Some(o) && dep_atoms(
                *o,
            ).contains(a)),
            BoolDep::Unless { cond, consequent, otherwise } => dep_atoms(*cond).contains(a)
                || dep_atoms(*consequent).contains(a) || (otherwise matches Some(o) && dep_atoms(
                *o,
            ).contains(a)),
            BoolDep::Without { left, right } => dep_atoms(*left).contains(a) || dep_atoms(
                *right,
            ).contains(a),
        },
        dep_atoms(DepExpr::Rich(Box::new(b))).contains(a) <==> bool_atoms(b).contains(a),
        dep_atoms(DepExpr::Atom(a)) == seq![a],
{
    match b {
        BoolDep::And(xs) => lemma_list_atoms(xs@, a),
        BoolDep::Or(xs) => lemma_list_atoms(xs@, a),
        BoolDep::With(xs) => lemma_list_atoms(xs@, a),
        BoolDep::If { cond, consequent, otherwise } => lemma_three(*cond, *consequent, otherwise, a),
        BoolDep::Unless { cond, consequent, otherwise } => lemma_three(
            *cond,
            *consequent,
            otherwise,
            a,
        ),
        BoolDep::Without { left, right } => lemma_either(dep_atoms(*left), dep_atoms(*right), a),
    }
}

proof fn lemma_three(c: DepExpr, d: DepExpr, o: Option<Box<DepExpr>>, a: DepAtom)
    ensures
        (dep_atoms(c) + dep_atoms(d) + match o {
            Some(o) => dep_atoms(*o),
            None => Seq::empty(),
        }).contains(a) <==> dep_atoms(c).contains(a) || dep_atoms(d).contains(a) || (o matches Some(
            x,
        ) && dep_atoms(*x).contains(a)),
{
    let z = match o {
        Some(o) => dep_atoms(*o),
        None => Seq::empty(),
    };
    lemma_either(dep_atoms(c), dep_atoms(d), a);
    lemma_either(dep_atoms(c) + dep_atoms(d), z, a);
}

// ---------------------------------------------------------------------
// What the text of a dependency promises
// ---------------------------------------------------------------------

/// Whether a dependency is written without macros and its parts can be told
/// apart: no space stands in its name and its qualifier, no bracket in its
/// name, and no colon or hyphen in its version.
pub open spec fn is_tidy(a: DepAtom) -> bool {
    &&& a.name.literal() matches Some(n) && trim(n).len() > 0 && !trim(n).contains(' ') && !trim(
        n,
    ).contains('(')
    &&& a.arch matches Some(t) ==> (t.literal() matches Some(q) && !trim(q).contains(' '))
    &&& a.constraint matches Some(c) ==> {
        &&& c.evr.version.literal() matches Some(v) && !trim(v).contains(':') && !trim(v).contains(
            '-',
        )
        &&& c.evr.release matches Some(t) ==> t.literal() is Some
    }
}

/// Whether two texts are the same literal, up to whitespace around it.
pub open spec fn same_literal(a: Text, b: Text) -> bool {
    a.literal() matches Some(x) && (b.literal() matches Some(y) && trim(x) == trim(y))
}

pub open spec fn same_optional(a: Option<Text>, b: Option<Text>) -> bool {
    match (a, b) {
        (None, None) => true,
        (Some(x), Some(y)) => same_literal(x, y),
        _ => false,
    }
}

/// Whether two dependencies are on the same: name, qualifier, comparison,
/// epoch, version and release agree.
pub open spec fn same_dependency(a: DepAtom, b: DepAtom) -> bool {
    &&& same_literal(a.name, b.name)
    &&& same_optional(a.arch, b.arch)
    &&& match (a.constraint, b.constraint) {
        (None, None) => true,
        (Some(x), Some(y)) => {
            &&& x.op == y.op
            &&& x.evr.epoch == y.evr.epoch
            &&& same_literal(x.evr.version, y.evr.version)
            &&& same_optional(x.evr.release, y.evr.release)
        },
        _ => false,
    }
}

/// What stands before the first `c` and what stands after it.
pub proof fn lemma_parted_by(a: Seq<char>, b: Seq<char>, c: char, x: Seq<char>, y: Seq<char>)
    requires
        !a.contains(c),
        !b.contains(c),
        a + seq![c] + x == b + seq![c] + y,
    ensures
        a == b,
        x == y,
{
    let s = a + seq![c] + x;
    let t = b + seq![c] + y;
    if a.len() < b.len() {
        assert(s[a.len() as int] == c);
        assert(t[a.len() as int] == b[a.len() as int]);
    } else if b.len() < a.len() {
        assert(t[b.len() as int] == c);
        assert(s[b.len() as int] == a[b.len() as int]);
    }
    assert(a =~= s.take(a.len() as int));
    assert(b =~= t.take(b.len() as int));
    assert(x =~= s.skip(a.len() as int + 1));
    assert(y =~= t.skip(b.len() as int + 1));
}

proof fn lemma_holds(a: Seq<char>, c: char, x: Seq<char>)
    ensures
        (a + seq![c] + x).contains(c),
{
    assert((a + seq![c] + x)[a.len() as int] == c);
}

proof fn lemma_lacks(a: Seq<char>, b: Seq<char>, c: char)
    requires
        !a.contains(c),
        !b.contains(c),
    ensures
        !(a + b).contains(c),
{
    lemma_either(a, b, c);
}

proof fn lemma_symbols(a: VerOp, b: VerOp)
    ensures
        !a.symbol().contains(' '),
        a.symbol() == b.symbol() ==> a == b,
{
    reveal_strlit("<");
    reveal_strlit("<=");
    reveal_strlit("=");
    reveal_strlit(">=");
    reveal_strlit(">");
    reveal_strlit("!=");
    let x = a.symbol();
    let y = b.symbol();
    if x == y {
        assert(x[0] == y[0] && x.len() == y.len());
    }
}

proof fn lemma_head(a: DepAtom, b: DepAtom)
    requires
        is_tidy(a),
        is_tidy(b),
        head_text(a) == head_text(b),
    ensures
        same_literal(a.name, b.name),
        same_optional(a.arch, b.arch),
{
    reveal_strlit("(");
    reveal_strlit(")");
    assert("("@ =~= seq!['(']);
    let m = trim(a.name.literal().unwrap());
    let n = trim(b.name.literal().unwrap());
    match (a.arch, b.arch) {
        (Some(x), Some(y)) => {
            let p = trim(x.literal().unwrap());
            let q = trim(y.literal().unwrap());
            assert(m + "("@ + p + ")"@ =~= m + seq!['('] + (p + ")"@));
            assert(n + "("@ + q + ")"@ =~= n + seq!['('] + (q + ")"@));
            lemma_parted_by(m, n, '(', p + ")"@, q + ")"@);
            assert(p =~= (p + ")"@).drop_last());
            assert(q =~= (q + ")"@).drop_last());
        },
        (Some(x), None) => {
            let p = trim(x.literal().unwrap());
            assert(m + "("@ + p + ")"@ =~= m + seq!['('] + (p + ")"@));
            lemma_holds(m, '(', p + ")"@);
        },
        (None, Some(y)) => {
            let q = trim(y.literal().unwrap());
            assert(n + "("@ + q + ")"@ =~= n + seq!['('] + (q + ")"@));
            lemma_holds(n, '(', q + ")"@);
        },
        (None, None) => {},
    }
}

proof fn lemma_head_is_one_word(a: DepAtom)
    requires
        is_tidy(a),
    ensures
        head_text(a) is Some,
        !head_text(a).unwrap().contains(' '),
{
    reveal_strlit("(");
    reveal_strlit(")");
    let n = trim(a.name.literal().unwrap());
    match a.arch {
        Some(t) => {
            let q = trim(t.literal().unwrap());
            lemma_lacks(n, "("@, ' ');
            lemma_lacks(n + "("@, q, ' ');
            lemma_lacks(n + "("@ + q, ")"@, ' ');
        },
        None => {},
    }
}

/// The number before the colon, if there is one.
spec fn epoch_text(e: Evr) -> Seq<char> {
    match e.epoch {
        Some(n) => decimal(n as nat) + ":"@,
        None => Seq::empty(),
    }
}

proof fn lemma_epoch(e: Evr, f: Evr, v: Seq<char>, w: Seq<char>)
    requires
        !v.contains(':'),
        !w.contains(':'),
        epoch_text(e) + v == epoch_text(f) + w,
    ensures
        e.epoch == f.epoch,
        v == w,
{
    reveal_strlit(":");
    assert(":"@ =~= seq![':']);
    let none = Seq::<char>::empty();
    assert(none + v =~= v);
    assert(none + w =~= w);
    match (e.epoch, f.epoch) {
        (Some(m), Some(n)) => {
            lemma_digits(m as nat, ':');
            lemma_digits(n as nat, ':');
            lemma_parted_by(decimal(m as nat), decimal(n as nat), ':', v, w);
            decimal_tells_numbers_apart(m as nat, n as nat);
        },
        (Some(m), None) => {
            lemma_holds(decimal(m as nat), ':', v);
        },
        (None, Some(n)) => {
            lemma_holds(decimal(n as nat), ':', w);
        },
        (None, None) => {},
    }
}

proof fn lemma_digits(n: nat, c: char)
    requires
        c == ':' || c == '-',
    ensures
        !decimal(n).contains(c),
{
    decimal_stands_for_the_number(n);
    if decimal(n).contains(c) {
        let i = choose|i: int| 0 <= i < decimal(n).len() && decimal(n)[i] == c;
        assert(is_digit(decimal(n)[i]));
    }
}

proof fn lemma_evr(e: Evr, f: Evr)
    requires
        e.version.literal() matches Some(v) && !trim(v).contains(':') && !trim(v).contains('-'),
        f.version.literal() matches Some(v) && !trim(v).contains(':') && !trim(v).contains('-'),
        e.release matches Some(t) ==> t.literal() is Some,
        f.release matches Some(t) ==> t.literal() is Some,
        evr_text(e) == evr_text(f),
    ensures
        e.epoch == f.epoch,
        same_literal(e.version, f.version),
        same_optional(e.release, f.release),
{
    reveal_strlit("-");
    reveal_strlit(":");
    assert("-"@ =~= seq!['-']);
    let v = trim(e.version.literal().unwrap());
    let w = trim(f.version.literal().unwrap());
    let x = epoch_text(e) + v;
    let y = epoch_text(f) + w;
    lemma_no_hyphen(e, v);
    lemma_no_hyphen(f, w);
    match (e.release, f.release) {
        (Some(r), Some(s)) => {
            lemma_parted_by(x, y, '-', trim(r.literal().unwrap()), trim(s.literal().unwrap()));
        },
        (Some(r), None) => {
            lemma_holds(x, '-', trim(r.literal().unwrap()));
        },
        (None, Some(s)) => {
            lemma_holds(y, '-', trim(s.literal().unwrap()));
        },
        (None, None) => {},
    }
    lemma_epoch(e, f, v, w);
}

proof fn lemma_no_hyphen(e: Evr, v: Seq<char>)
    requires
        !v.contains('-'),
    ensures
        !(epoch_text(e) + v).contains('-'),
{
    reveal_strlit(":");
    match e.epoch {
        Some(n) => {
            lemma_digits(n as nat, '-');
            lemma_lacks(decimal(n as nat), ":"@, '-');
        },
        None => {},
    }
    lemma_lacks(epoch_text(e), v, '-');
}

/// Two dependencies have the same text only if they are the same: name,
/// qualifier, comparison and version agree.
pub proof fn texts_tell_dependencies_apart(a: DepAtom, b: DepAtom)
    requires
        is_tidy(a),
        is_tidy(b),
    ensures
        atom_text(a) is Some,
        atom_text(a) == atom_text(b) ==> same_dependency(a, b),
{
    reveal_strlit(" ");
    assert(" "@ =~= seq![' ']);
    lemma_head_is_one_word(a);
    lemma_head_is_one_word(b);
    let g = head_text(a).unwrap();
    let h = head_text(b).unwrap();
    if atom_text(a) == atom_text(b) {
        match (a.constraint, b.constraint) {
            (Some(c), Some(d)) => {
                let x = evr_text(c.evr).unwrap();
                let y = evr_text(d.evr).unwrap();
                let o = c.op.symbol();
                let p = d.op.symbol();
                assert(g + " "@ + o + " "@ + x =~= g + seq![' '] + (o + seq![' '] + x));
                assert(h + " "@ + p + " "@ + y =~= h + seq![' '] + (p + seq![' '] + y));
                lemma_parted_by(g, h, ' ', o + seq![' '] + x, p + seq![' '] + y);
                lemma_symbols(c.op, d.op);
                lemma_symbols(d.op, c.op);
                lemma_parted_by(o, p, ' ', x, y);
                lemma_evr(c.evr, d.evr);
            },
            (Some(c), None) => {
                let x = evr_text(c.evr).unwrap();
                let o = c.op.symbol();
                assert(g + " "@ + o + " "@ + x =~= g + seq![' '] + (o + seq![' '] + x));
                lemma_holds(g, ' ', o + seq![' '] + x);
            },
            (None, Some(d)) => {
                let y = evr_text(d.evr).unwrap();
                let p = d.op.symbol();
                assert(h + " "@ + p + " "@ + y =~= h + seq![' '] + (p + seq![' '] + y));
                lemma_holds(h, ' ', p + seq![' '] + y);
            },
            (None, None) => {},
        }
        lemma_head(a, b);
    }
}

/// The same dependency has the same text, however it is spaced.
pub proof fn same_dependencies_have_one_text(a: DepAtom, b: DepAtom)
    requires
        same_dependency(a, b),
    ensures
        atom_text(a) == atom_text(b),
{
}

/// The tag lines of a list are those that stand in it, whatever conditionals
/// they stand in.
pub proof fn every_tag_line_is_collected(items: Seq<Item>, p: PreambleItem)
    ensures
        preamble(items).contains(p) <==> leaves(items).contains(Item::Preamble(p)),
{
    let all = leaves(items);
    let f = |i: Item| preamble_of(i);
    lemma_flat_contains(all, f, p);
    if preamble(items).contains(p) {
        let i = choose|i: int| 0 <= i < all.len() && f(#[trigger] all[i]).contains(p);
        assert(all.contains(all[i]));
    }
    if all.contains(Item::Preamble(p)) {
        let i = choose|i: int| 0 <= i < all.len() && all[i] == Item::Preamble(p);
        assert(f(all[i])[0] == p);
    }
}

/// A dependency is stated exactly if a line with one of the tags names it.
pub proof fn every_dependency_is_collected(items: Seq<PreambleItem>, tags: Tags, s: StatedView)
    ensures
        stated(items, tags).contains(s) <==> exists|i: int|
            0 <= i < items.len() && (match tags {
                Tags::One(t) => (#[trigger] items[i]).tag == t,
                Tags::Weak => items[i].tag is Recommends || items[i].tag is Suggests
                    || items[i].tag is Supplements || items[i].tag is Enhances,
            }) && (items[i].value matches TagValue::Dep(e) && dep_atoms(e).contains(s.atom))
                && items[i].data == s.span,
{
    let f = |p: PreambleItem| line_atoms(p, tags);
    lemma_flat_contains(items, f, s);
    assert forall|i: int| 0 <= i < items.len() implies (f(#[trigger] items[i]).contains(s) <==> (
    tags.has(items[i].tag) && (items[i].value matches TagValue::Dep(e) && dep_atoms(e).contains(
        s.atom,
    )) && items[i].data == s.span)) by {
        let p = items[i];
        match p.value {
            TagValue::Dep(e) => {
                let m = dep_atoms(e).map_values(
                    |a: DepAtom| StatedView { atom: a, span: p.data },
                );
                if m.contains(s) {
                    let k = choose|k: int| 0 <= k < m.len() && m[k] == s;
                    assert(dep_atoms(e)[k] == s.atom);
                }
                if dep_atoms(e).contains(s.atom) && p.data == s.span {
                    let k = choose|k: int| 0 <= k < dep_atoms(e).len() && dep_atoms(e)[k] == s.atom;
                    assert(m[k] == s);
                }
            },
            _ => {},
        }
    }
    if stated(items, tags).contains(s) {
        let i = choose|i: int| 0 <= i < items.len() && f(#[trigger] items[i]).contains(s);
        assert(tags.has(items[i].tag));
    }
}

/// The packages of a spec file are the main one, with the lines outside other
/// packages, and one for each `%package` section, wherever it stands.
pub proof fn every_package_is_collected(spec: SpecFile, p: PackageView)
    ensures
        packages(spec)[0].items == preamble(spec.items@),
        packages(spec)[0].name == literal_name(preamble(spec.items@)),
        packages(spec).contains(p) <==> p == packages(spec)[0] || exists|i: int|
            0 <= i < leaves(spec.items@).len() && (#[trigger] leaves(spec.items@)[i] matches
                Item::Section(s) && (*s matches Section::Package { name_arg, content, .. } && p.items
                == preamble(content@) && p.name == package_name(
                literal_name(preamble(spec.items@)),
                name_arg,
            ))),
{
    let top = top_level_preamble(spec);
    let main = literal_name(top);
    let all = leaves(spec.items@);
    let f = |i: Item| declared(main, i);
    let first = seq![PackageView { name: main, items: top }];
    lemma_either(first, flat(all, f), p);
    lemma_flat_contains(all, f, p);
    assert(first[0] == packages(spec)[0]);
    assert forall|i: int| 0 <= i < all.len() implies (f(#[trigger] all[i]).contains(p) <==> (all[i]
        matches Item::Section(s) && (*s matches Section::Package { name_arg, content, .. } && p.items
        == preamble(content@) && p.name == package_name(main, name_arg)))) by {
        match all[i] {
            Item::Section(s) => match *s {
                Section::Package { name_arg, content, .. } => {
                    let own = PackageView {
                        name: package_name(main, name_arg),
                        items: preamble(content@),
                    };
                    assert(seq![own][0] == own);
                },
                _ => {},
            },
            _ => {},
        }
    }
    if flat(all, f).contains(p) {
        let i = choose|i: int| 0 <= i < all.len() && f(#[trigger] all[i]).contains(p);
        assert(all[i] is Section);
    }
}

/// A relative name is joined to that of the main package by a hyphen, an
/// absolute one stands for itself, and the main package has the name of the
/// first `Name:` line that is a literal.
pub proof fn packages_have_their_names(
    items: Seq<PreambleItem>,
    i: int,
    t: Text,
    sub: Text,
    main: Seq<char>,
    name: Seq<char>,
)
    requires
        t.literal() == Some(main),
        sub.literal() == Some(name),
        0 <= i < items.len(),
        items[i].tag is Name && items[i].value == TagValue::Text(t),
        forall|j: int|
            0 <= j < i ==> !((#[trigger] items[j]).tag is Name && (items[j].value matches
                TagValue::Text(x) && x.literal() is Some)),
    ensures
        literal_name(items) == Some(trim(main)),
        package_name(literal_name(items), Some(PackageName::Relative(sub))) == Some(
            trim(main) + "-"@ + trim(name),
        ),
        package_name(literal_name(items), Some(PackageName::Absolute(sub))) == Some(trim(name)),
    decreases items.len(),
{
    if i < items.len() - 1 {
        let front = items.drop_last();
        assert(front[i] == items[i]);
        assert forall|j: int| 0 <= j < i implies !((#[trigger] front[j]).tag is Name && (
        front[j].value matches TagValue::Text(x) && x.literal() is Some)) by {
            assert(front[j] == items[j]);
        }
        packages_have_their_names(front, i, t, sub, main, name);
    } else {
        lemma_no_name(items.drop_last());
    }
}

proof fn lemma_no_name(items: Seq<PreambleItem>)
    requires
        forall|j: int|
            0 <= j < items.len() ==> !((#[trigger] items[j]).tag is Name && (items[j].value matches
                TagValue::Text(x) && x.literal() is Some)),
    ensures
        literal_name(items) is None,
    decreases items.len(),
{
    if items.len() > 0 {
        let front = items.drop_last();
        assert forall|j: int| 0 <= j < front.len() implies !((#[trigger] front[j]).tag is Name && (
        front[j].value matches TagValue::Text(x) && x.literal() is Some)) by {
            assert(front[j] == items[j]);
        }
        lemma_no_name(front);
        assert(items[items.len() - 1] == items.last());
    }
}

} // verus!
