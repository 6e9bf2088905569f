//! Build options that are declared and not asked for, and the other way round.
use vstd::prelude::*;

use crate::ast::{
    BuiltinMacro, ConcatPart, CondExpr, Conditional, DepAtom, DepExpr, ExprAst, Item, MacroKind, MacroRef,
    PreambleItem, Section, Span, SpecFile, TagValue, Text, TextSegment,
};
use crate::bcond::{bcond_query, parse_query};
use crate::condition::string_texts;
use crate::diagnostic::{Diagnostic, DiagnosticView, LintCategory, Severity, plain, reports};
use crate::lint::{Identity, Lint, LintMetadata, drain};
use crate::names::{in_order, insert_name, ordering_keeps_the_names};
use crate::packages::{atom_views, atoms_of, dep_atoms, plain_str, plain_text};
use crate::rules::conditional_optimize::expr_constants::part_of;
use crate::rules::{given, say};
use crate::text::{lines, opt_string, same, trim};
use crate::walk::{
    arms, flat, item_views, leaf_items, leaves, lemma_flat_contains, lemma_flat_step,
};

verus! {

/// A name and where it stands.
#[derive(Debug)]
pub struct Named {
    pub name: String,
    pub span: Span,
}

pub struct NamedView {
    pub name: Seq<char>,
    pub span: Span,
}

impl View for Named {
    type V = NamedView;

    open spec fn view(&self) -> NamedView {
        NamedView { name: self.name@, span: self.span }
    }
}

pub open spec fn named_views(v: Seq<Named>) -> Seq<NamedView> {
    v.map_values(|n: Named| n@)
}

/// The option that a macro asks for: `%{with name}` or `%{without name}`.
pub open spec fn macro_target(m: MacroRef) -> Option<Seq<char>> {
    let asks = match m.kind {
        MacroKind::Builtin(BuiltinMacro::With) => true,
        MacroKind::Builtin(BuiltinMacro::Without) => true,
        MacroKind::Parametric => m.name@ == "with"@ || m.name@ == "without"@,
        _ => false,
    };
    if asks && m.args@.len() > 0 {
        match plain_text(m.args@[0]) {
            Some(name) => if name.len() > 0 {
                Some(name)
            } else {
                None
            },
            None => None,
        }
    } else {
        None
    }
}

/// The options that a macro and its arguments ask for.
pub open spec fn macro_refs(m: MacroRef, anchor: Span) -> Seq<NamedView>
    decreases m, 0int,
{
    (match macro_target(m) {
        Some(name) => seq![NamedView { name, span: anchor }],
        None => Seq::empty(),
    }) + texts_refs(m.args@, anchor) + match m.with_value {
        Some(t) => text_refs(t, anchor),
        None => Seq::empty(),
    }
}

/// The options that the macros in a text ask for.
pub open spec fn text_refs(t: Text, anchor: Span) -> Seq<NamedView>
    decreases t, 0int,
{
    segments_refs(t.segments@, anchor)
}

pub open spec fn segments_refs(s: Seq<TextSegment>, anchor: Span) -> Seq<NamedView>
    decreases s, 0int,
{
    if s.len() == 0 {
        Seq::empty()
    } else {
        segments_refs(s.drop_last(), anchor) + segment_refs(s.last(), anchor)
    }
}

pub open spec fn segment_refs(s: TextSegment, anchor: Span) -> Seq<NamedView>
    decreases s, 0int,
{
    match s {
        TextSegment::Macro(m) => macro_refs(*m, anchor),
        TextSegment::Literal(_) => Seq::empty(),
    }
}

pub open spec fn texts_refs(ts: Seq<Text>, anchor: Span) -> Seq<NamedView>
    decreases ts, 0int,
{
    if ts.len() == 0 {
        Seq::empty()
    } else {
        texts_refs(ts.drop_last(), anchor) + text_refs(ts.last(), anchor)
    }
}

/// The options that an expression asks for.
pub open spec fn expr_refs(e: ExprAst) -> Seq<NamedView>
    decreases e,
{
    match e {
        ExprAst::Macro { text, data } => match bcond_query(text@) {
            Some((_, name)) => seq![NamedView { name, span: data }],
            None => Seq::empty(),
        },
        ExprAst::Paren { inner, .. } => expr_refs(*inner),
        ExprAst::Not { inner, .. } => expr_refs(*inner),
        ExprAst::Binary { lhs, rhs, .. } => expr_refs(*lhs) + expr_refs(*rhs),
        ExprAst::NumericConcat { parts, data } => flat(
            parts@,
            |p: ConcatPart| concat_part_refs(p, data),
        ),
        _ => Seq::empty(),
    }
}

/// The option that a part of a joined number asks for.
pub open spec fn concat_part_refs(p: ConcatPart, anchor: Span) -> Seq<NamedView> {
    match p {
        ConcatPart::Macro(text) => match bcond_query(text@) {
            Some((_, name)) => seq![NamedView { name, span: anchor }],
            None => Seq::empty(),
        },
        ConcatPart::Literal(_) => Seq::empty(),
    }
}

pub open spec fn cond_refs(c: CondExpr, anchor: Span) -> Seq<NamedView> {
    match c {
        CondExpr::Raw(t) => text_refs(t, anchor),
        CondExpr::Parsed(e) => expr_refs(*e),
        CondExpr::ArchList(ts) => texts_refs(ts@, anchor),
    }
}

pub open spec fn optional_refs(t: Option<Text>, anchor: Span) -> Seq<NamedView> {
    match t {
        Some(t) => text_refs(t, anchor),
        None => Seq::empty(),
    }
}

/// The options that the name, the qualifier and the version of a dependency
/// ask for.
pub open spec fn atom_refs(a: DepAtom, anchor: Span) -> Seq<NamedView> {
    text_refs(a.name, anchor) + optional_refs(a.arch, anchor) + match a.constraint {
        Some(c) => text_refs(c.evr.version, anchor) + optional_refs(c.evr.release, anchor),
        None => Seq::empty(),
    }
}

pub open spec fn atoms_refs(atoms: Seq<DepAtom>, anchor: Span) -> Seq<NamedView> {
    flat(atoms, |a: DepAtom| atom_refs(a, anchor))
}

pub open spec fn preamble_refs(p: PreambleItem) -> Seq<NamedView> {
    match p.value {
        TagValue::Text(t) => text_refs(t, p.data),
        TagValue::ArchList(ts) => texts_refs(ts@, p.data),
        TagValue::Dep(e) => atoms_refs(dep_atoms(e), p.data),
        _ => Seq::empty(),
    }
}

/// The span that a statement is reported at: that of the first tag line
/// beside it.
pub open spec fn items_anchor(items: Seq<Item>) -> Span
    decreases items.len(),
{
    if items.len() == 0 {
        Span::bytes(0, 0)
    } else {
        match items[0] {
            Item::Preamble(p) => p.data,
            _ => items_anchor(items.skip(1)),
        }
    }
}

/// The options that the first `n` of `items` ask for.
pub open spec fn first_refs(items: Seq<Item>, n: nat) -> Seq<NamedView>
    decreases items, n,
{
    if n == 0 || n > items.len() {
        Seq::empty()
    } else {
        first_refs(items, (n - 1) as nat) + item_refs(items[n - 1], items_anchor(items))
    }
}

pub open spec fn items_refs(items: Seq<Item>) -> Seq<NamedView>
    decreases items, items.len() + 1,
{
    first_refs(items, items.len())
}

pub open spec fn item_refs(item: Item, anchor: Span) -> Seq<NamedView>
    decreases item, 0int,
{
    match item {
        Item::BuildCondition(b) => optional_refs(b.default, b.data),
        Item::Preamble(p) => preamble_refs(p),
        Item::Conditional(c) => conditional_refs(c),
        Item::Section(s) => section_refs(*s),
        Item::MacroDef(m) => text_refs(m.body, m.data),
        Item::Statement(m) => macro_refs(*m, anchor),
        _ => Seq::empty(),
    }
}

pub open spec fn conditional_refs(c: Conditional) -> Seq<NamedView>
    decreases c, c.branches@.len() + 1,
{
    let arms = arm_refs(c, c.branches@.len());
    match c.otherwise {
        Some(body) => arms + items_refs(body@),
        None => arms,
    }
}

pub open spec fn arm_refs(c: Conditional, n: nat) -> Seq<NamedView>
    decreases c, n,
{
    if n == 0 || n > c.branches@.len() {
        Seq::empty()
    } else {
        arm_refs(c, (n - 1) as nat) + cond_refs(c.branches@[n - 1].expr, c.data) + items_refs(
            c.branches@[n - 1].body@,
        )
    }
}

/// The options that a section asks for. `%files`, changelogs and lists of
/// sources and patches are not looked into.
pub open spec fn section_refs(s: Section) -> Seq<NamedView>
    decreases s, 0int,
{
    match s {
        Section::Package { content, .. } => items_refs(content@),
        Section::BuildScript { lines, data, .. } => texts_refs(lines@, data),
        Section::Verify { lines, data } => texts_refs(lines@, data),
        Section::Sepolicy { lines, data } => texts_refs(lines@, data),
        Section::Scriptlet { lines, data } => texts_refs(lines@, data),
        Section::Trigger { lines, data } => texts_refs(lines@, data),
        Section::FileTrigger { lines, data } => texts_refs(lines@, data),
        Section::Description { lines, data } => texts_refs(lines@, data),
        _ => Seq::empty(),
    }
}

/// The option that an item declares.
pub open spec fn declared_by(item: Item) -> Seq<NamedView> {
    match item {
        Item::BuildCondition(b) => seq![NamedView { name: b.name@, span: b.data }],
        _ => Seq::empty(),
    }
}

/// The options that are declared.
pub open spec fn declarations(spec: SpecFile) -> Seq<NamedView> {
    flat(leaves(spec.items@), |i: Item| declared_by(i))
}

/// The options that are asked for.
pub open spec fn references(spec: SpecFile) -> Seq<NamedView> {
    items_refs(spec.items@)
}

pub open spec fn names_of(v: Seq<NamedView>) -> Seq<Seq<char>> {
    v.map_values(|n: NamedView| n.name)
}

/// Where `name` is declared last.
pub open spec fn last_span(v: Seq<NamedView>, name: Seq<char>) -> Span
    decreases v.len(),
{
    if v.len() == 0 {
        Span::bytes(0, 0)
    } else if v.last().name == name {
        v.last().span
    } else {
        last_span(v.drop_last(), name)
    }
}

/// Where `name` is asked for first.
pub open spec fn first_span(v: Seq<NamedView>, name: Seq<char>) -> Span
    decreases v.len(),
{
    if v.len() == 0 {
        Span::bytes(0, 0)
    } else if v[0].name == name {
        v[0].span
    } else {
        first_span(v.skip(1), name)
    }
}

pub open spec fn unused_report(name: Seq<char>, span: Span) -> DiagnosticView {
    plain("RPM401"@, Severity::Warn, "bcond `"@ + name + "` is declared but never referenced via `%{with "@ + name + "}` or `%{without "@ + name + "}`; the toggle has no effect"@, span)
}

pub open spec fn undeclared_report(name: Seq<char>, span: Span) -> DiagnosticView {
    plain("RPM402"@, Severity::Warn, "reference to `%{with "@ + name + "}` / `%{without "@ + name + "}` without a matching `%bcond_with "@ + name + "` / `%bcond_without "@ + name + "` declaration; RPM expands it to nothing — the branch silently never fires"@, span)
}

/// One report for each option that is declared and not asked for, by name.
pub open spec fn unused_findings(spec: SpecFile) -> Seq<DiagnosticView> {
    let d = declarations(spec);
    let r = references(spec);
    flat(
        in_order(names_of(d)),
        |name: Seq<char>|
            given(!names_of(r).contains(name), unused_report(name, last_span(d, name))),
    )
}

/// One report for each option that is asked for and not declared, by name.
pub open spec fn undeclared_findings(spec: SpecFile) -> Seq<DiagnosticView> {
    let d = declarations(spec);
    let r = references(spec);
    flat(
        in_order(names_of(r)),
        |name: Seq<char>|
            given(!names_of(d).contains(name), undeclared_report(name, first_span(r, name))),
    )
}

// ---------------------------------------------------------------------
// Collecting
// ---------------------------------------------------------------------

fn push_named(out: &mut Vec<Named>, name: String, span: Span)
    ensures
        named_views(final(out)@) == named_views(old(out)@) + seq![NamedView { name: name@, span }],
{
    let ghost n = NamedView { name: name@, span };
    out.push(Named { name, span });
    assert(named_views(out@) =~= named_views(old(out)@) + seq![n]);
}

fn with_or_without_target(m: &MacroRef) -> (r: Option<String>)
    ensures
        opt_string(r) == macro_target(*m),
{
    let asks = match m.kind {
        MacroKind::Builtin(BuiltinMacro::With) => true,
        MacroKind::Builtin(BuiltinMacro::Without) => true,
        MacroKind::Parametric => same(m.name.as_str(), "with") || same(m.name.as_str(), "without"),
        _ => false,
    };
    if !asks || m.args.len() == 0 {
        return None;
    }
    match plain_str(&m.args[0]) {
        Some(name) => {
            if name.is_empty() {
                None
            } else {
                Some(name.to_owned())
            }
        },
        None => None,
    }
}

fn walk_macro_ref(m: &MacroRef, anchor: Span, out: &mut Vec<Named>)
    ensures
        named_views(final(out)@) == named_views(old(out)@) + macro_refs(*m, anchor),
    decreases m, 0int,
{
    let ghost start = named_views(out@);
    let ghost a: Seq<NamedView> = match macro_target(*m) {
        Some(name) => seq![NamedView { name, span: anchor }],
        None => Seq::empty(),
    };
    let ghost b = texts_refs(m.args@, anchor);
    match with_or_without_target(m) {
        Some(name) => {
            push_named(out, name, anchor);
        },
        None => {
            assert(start + a =~= start);
        },
    }
    walk_texts(&m.args, anchor, out);
    match &m.with_value {
        Some(t) => {
            walk_text_for_refs(t, anchor, out);
            assert(start + a + b + text_refs(*t, anchor) =~= start + (a + b + text_refs(*t, anchor)));
        },
        None => {
            assert(start + a + b =~= start + (a + b + Seq::<NamedView>::empty()));
        },
    }
}

fn walk_texts(ts: &Vec<Text>, anchor: Span, out: &mut Vec<Named>)
    ensures
        named_views(final(out)@) == named_views(old(out)@) + texts_refs(ts@, anchor),
    decreases ts, 0int,
{
    let ghost start = named_views(out@);
    let mut i: usize = 0;
    assert(start + texts_refs(ts@.take(0), anchor) =~= start);
    while i < ts.len()
        invariant
            i <= ts.len(),
            named_views(out@) == start + texts_refs(ts@.take(i as int), anchor),
        decreases ts.len() - i,
    {
        walk_text_for_refs(&ts[i], anchor, out);
        proof {
            assert(ts@.take(i + 1).drop_last() == ts@.take(i as int));
            let a = texts_refs(ts@.take(i as int), anchor);
            let b = text_refs(ts@[i as int], anchor);
            assert(texts_refs(ts@.take(i + 1), anchor) == a + b);
            assert(start + a + b =~= start + (a + b));
        }
        i = i + 1;
    }
    assert(ts@.take(i as int) == ts@);
}

fn walk_text_for_refs(t: &Text, anchor: Span, out: &mut Vec<Named>)
    ensures
        named_views(final(out)@) == named_views(old(out)@) + text_refs(*t, anchor),
    decreases t, 0int,
{
    let ghost start = named_views(out@);
    let ghost segs = t.segments@;
    let mut i: usize = 0;
    assert(start + segments_refs(segs.take(0), anchor) =~= start);
    while i < t.segments.len()
        invariant
            i <= t.segments.len(),
            segs == t.segments@,
            named_views(out@) == start + segments_refs(segs.take(i as int), anchor),
        decreases t.segments.len() - i,
    {
        let ghost a = segments_refs(segs.take(i as int), anchor);
        let ghost b = segment_refs(segs[i as int], anchor);
        proof {
            assert(segs.take(i + 1).drop_last() == segs.take(i as int));
            assert(segments_refs(segs.take(i + 1), anchor) == a + b);
            assert(start + a + b =~= start + (a + b));
        }
        match &t.segments[i] {
            TextSegment::Macro(m) => {
                walk_macro_ref(m, anchor, out);
            },
            TextSegment::Literal(_) => {
                assert(a + b =~= a);
            },
        }
        i = i + 1;
    }
    assert(segs.take(i as int) == segs);
}

fn walk_expr_ast(e: &ExprAst, out: &mut Vec<Named>)
    ensures
        named_views(final(out)@) == named_views(old(out)@) + expr_refs(*e),
    decreases e,
{
    let ghost start = named_views(out@);
    assert(start + Seq::<NamedView>::empty() =~= start);
    match e {
        ExprAst::Macro { text, data } => match parse_query(text.as_str()) {
            Some((_, name)) => {
                push_named(out, name, *data);
            },
            None => {},
        },
        ExprAst::Paren { inner, .. } => walk_expr_ast(inner, out),
        ExprAst::Not { inner, .. } => walk_expr_ast(inner, out),
        ExprAst::Binary { lhs, rhs, .. } => {
            walk_expr_ast(lhs, out);
            walk_expr_ast(rhs, out);
            assert(start + expr_refs(**lhs) + expr_refs(**rhs) =~= start + (expr_refs(**lhs) + expr_refs(**rhs)));
        },
        ExprAst::NumericConcat { parts, data } => walk_concat(parts, *data, out),
        _ => {},
    }
}

fn walk_concat(parts: &Vec<ConcatPart>, anchor: Span, out: &mut Vec<Named>)
    ensures
        named_views(final(out)@) == named_views(old(out)@) + flat(
            parts@,
            |p: ConcatPart| concat_part_refs(p, anchor),
        ),
{
    let ghost f = |p: ConcatPart| concat_part_refs(p, anchor);
    let ghost start = named_views(out@);
    let mut i: usize = 0;
    assert(start + flat(parts@.take(0), f) =~= start);
    while i < parts.len()
        invariant
            i <= parts.len(),
            f == (|p: ConcatPart| concat_part_refs(p, anchor)),
            named_views(out@) == start + flat(parts@.take(i as int), f),
        decreases parts.len() - i,
    {
        let ghost so_far = flat(parts@.take(i as int), f);
        match &parts[i] {
            ConcatPart::Macro(text) => match parse_query(text.as_str()) {
                Some((_, name)) => {
                    push_named(out, name, anchor);
                },
                None => {},
            },
            ConcatPart::Literal(_) => {},
        }
        proof {
            lemma_flat_step(parts@, f, i as int);
            assert(named_views(out@) =~= start + so_far + f(parts@[i as int]));
            assert(start + so_far + f(parts@[i as int]) =~= start + (so_far + f(parts@[i as int])));
        }
        i = i + 1;
    }
    assert(parts@.take(i as int) == parts@);
}

fn walk_cond_expr(c: &CondExpr, anchor: Span, out: &mut Vec<Named>)
    ensures
        named_views(final(out)@) == named_views(old(out)@) + cond_refs(*c, anchor),
{
    match c {
        CondExpr::Raw(t) => walk_text_for_refs(t, anchor, out),
        CondExpr::Parsed(e) => walk_expr_ast(e, out),
        CondExpr::ArchList(ts) => walk_texts(ts, anchor, out),
    }
}

fn walk_optional(t: &Option<Text>, anchor: Span, out: &mut Vec<Named>)
    ensures
        named_views(final(out)@) == named_views(old(out)@) + optional_refs(*t, anchor),
{
    match t {
        Some(t) => walk_text_for_refs(t, anchor, out),
        None => {
            assert(named_views(out@) + Seq::<NamedView>::empty() =~= named_views(out@));
        },
    }
}

fn walk_atom(a: &DepAtom, anchor: Span, out: &mut Vec<Named>)
    ensures
        named_views(final(out)@) == named_views(old(out)@) + atom_refs(*a, anchor),
{
    let ghost start = named_views(out@);
    walk_text_for_refs(&a.name, anchor, out);
    walk_optional(&a.arch, anchor, out);
    let ghost x = text_refs(a.name, anchor);
    let ghost y = optional_refs(a.arch, anchor);
    match &a.constraint {
        Some(c) => {
            walk_text_for_refs(&c.evr.version, anchor, out);
            walk_optional(&c.evr.release, anchor, out);
            proof {
                let v = text_refs(c.evr.version, anchor);
                let w = optional_refs(c.evr.release, anchor);
                assert(start + x + y + v + w =~= start + (x + y + (v + w)));
            }
        },
        None => {
            assert(start + x + y =~= start + (x + y + Seq::<NamedView>::empty()));
        },
    }
}

fn walk_dep_expr(e: &DepExpr, anchor: Span, out: &mut Vec<Named>)
    ensures
        named_views(final(out)@) == named_views(old(out)@) + atoms_refs(dep_atoms(*e), anchor),
{
    let atoms = atoms_of(e);
    let ghost v = dep_atoms(*e);
    let ghost f = |a: DepAtom| atom_refs(a, anchor);
    let ghost start = named_views(out@);
    let mut i: usize = 0;
    assert(start + flat(v.take(0), f) =~= start);
    while i < atoms.len()
        invariant
            i <= atoms.len(),
            atom_views(atoms@) == v,
            f == (|a: DepAtom| atom_refs(a, anchor)),
            named_views(out@) == start + flat(v.take(i as int), f),
        decreases atoms.len() - i,
    {
        assert(v[i as int] == *atoms@[i as int]);
        walk_atom(atoms[i], anchor, out);
        proof {
            lemma_flat_step(v, f, i as int);
            let a = flat(v.take(i as int), f);
            assert(start + a + f(v[i as int]) =~= start + (a + f(v[i as int])));
        }
        i = i + 1;
    }
    assert(v.take(i as int) == v);
}

fn walk_preamble_item(p: &PreambleItem, out: &mut Vec<Named>)
    ensures
        named_views(final(out)@) == named_views(old(out)@) + preamble_refs(*p),
{
    match &p.value {
        TagValue::Text(t) => walk_text_for_refs(t, p.data, out),
        TagValue::ArchList(ts) => walk_texts(ts, p.data, out),
        TagValue::Dep(e) => walk_dep_expr(e, p.data, out),
        _ => {
            assert(named_views(out@) + Seq::<NamedView>::empty() =~= named_views(out@));
        },
    }
}

fn anchor_of(items: &Vec<Item>) -> (r: Span)
    ensures
        r == items_anchor(items@),
{
    let mut i: usize = 0;
    assert(items@.skip(0) =~= items@);
    while i < items.len()
        invariant
            i <= items.len(),
            items_anchor(items@) == items_anchor(items@.skip(i as int)),
        decreases items.len() - i,
    {
        assert(items@.skip(i as int).skip(1) =~= items@.skip(i + 1));
        match &items[i] {
            Item::Preamble(p) => {
                return p.data;
            },
            _ => {},
        }
        i = i + 1;
    }
    Span::from_bytes(0, 0)
}

fn walk_items(items: &Vec<Item>, out: &mut Vec<Named>)
    ensures
        named_views(final(out)@) == named_views(old(out)@) + items_refs(items@),
    decreases items, 1int,
{
    let ghost start = named_views(out@);
    let anchor = anchor_of(items);
    let mut i: usize = 0;
    assert(start + first_refs(items@, 0) =~= start);
    while i < items.len()
        invariant
            i <= items.len(),
            anchor == items_anchor(items@),
            named_views(out@) == start + first_refs(items@, i as nat),
        decreases items.len() - i,
    {
        walk_item(&items[i], anchor, out);
        proof {
            let a = first_refs(items@, i as nat);
            let b = item_refs(items@[i as int], anchor);
            assert(first_refs(items@, (i + 1) as nat) == a + b);
            assert(start + a + b =~= start + (a + b));
        }
        i = i + 1;
    }
}

fn walk_item(item: &Item, anchor: Span, out: &mut Vec<Named>)
    ensures
        named_views(final(out)@) == named_views(old(out)@) + item_refs(*item, anchor),
    decreases item, 0int,
{
    assert(named_views(out@) + Seq::<NamedView>::empty() =~= named_views(out@));
    match item {
        Item::BuildCondition(b) => walk_optional(&b.default, b.data, out),
        Item::Preamble(p) => walk_preamble_item(p, out),
        Item::Conditional(c) => walk_conditional(c, out),
        Item::Section(s) => walk_section(s, out),
        Item::MacroDef(m) => walk_text_for_refs(&m.body, m.data, out),
        Item::Statement(m) => walk_macro_ref(m, anchor, out),
        _ => {},
    }
}

fn walk_conditional(c: &Conditional, out: &mut Vec<Named>)
    ensures
        named_views(final(out)@) == named_views(old(out)@) + conditional_refs(*c),
    decreases c, 0int,
{
    let ghost start = named_views(out@);
    let mut i: usize = 0;
    assert(start + arm_refs(*c, 0) =~= start);
    while i < c.branches.len()
        invariant
            i <= c.branches.len(),
            named_views(out@) == start + arm_refs(*c, i as nat),
        decreases c.branches.len() - i,
    {
        walk_cond_expr(&c.branches[i].expr, c.data, out);
        walk_items(&c.branches[i].body, out);
        proof {
            let a = arm_refs(*c, i as nat);
            let x = cond_refs(c.branches@[i as int].expr, c.data);
            let y = items_refs(c.branches@[i as int].body@);
            assert(arm_refs(*c, (i + 1) as nat) == a + x + y);
            assert(start + a + x + y =~= start + (a + x + y));
        }
        i = i + 1;
    }
    match &c.otherwise {
        Some(body) => {
            walk_items(body, out);
            proof {
                let a = arm_refs(*c, i as nat);
                assert(start + a + items_refs(body@) =~= start + (a + items_refs(body@)));
            }
        },
        None => {},
    }
}

fn walk_section(s: &Section, out: &mut Vec<Named>)
    ensures
        named_views(final(out)@) == named_views(old(out)@) + section_refs(*s),
    decreases s, 0int,
{
    match s {
        Section::Package { content, .. } => walk_items(content, out),
        Section::BuildScript { lines, data, .. } => walk_texts(lines, *data, out),
        Section::Verify { lines, data } => walk_texts(lines, *data, out),
        Section::Sepolicy { lines, data } => walk_texts(lines, *data, out),
        Section::Scriptlet { lines, data } => walk_texts(lines, *data, out),
        Section::Trigger { lines, data } => walk_texts(lines, *data, out),
        Section::FileTrigger { lines, data } => walk_texts(lines, *data, out),
        Section::Description { lines, data } => walk_texts(lines, *data, out),
        _ => {
            assert(named_views(out@) + Seq::<NamedView>::empty() =~= named_views(out@));
        },
    }
}

fn collect_references(spec: &SpecFile) -> (r: Vec<Named>)
    ensures
        named_views(r@) == references(*spec),
{
    let mut out: Vec<Named> = Vec::new();
    walk_items(&spec.items, &mut out);
    assert(named_views(out@) =~= references(*spec));
    out
}

fn collect_declarations(spec: &SpecFile) -> (r: Vec<Named>)
    ensures
        named_views(r@) == declarations(*spec),
{
    let all = leaf_items(&spec.items);
    let ghost ls = leaves(spec.items@);
    let ghost f = |i: Item| declared_by(i);
    let mut out: Vec<Named> = Vec::new();
    let mut i: usize = 0;
    assert(named_views(out@) =~= flat(ls.take(0), f));
    while i < all.len()
        invariant
            i <= all.len(),
            item_views(all@) == ls,
            f == (|i: Item| declared_by(i)),
            named_views(out@) == flat(ls.take(i as int), f),
        decreases all.len() - i,
    {
        assert(ls[i as int] == *all@[i as int]);
        match all[i] {
            Item::BuildCondition(b) => {
                push_named(&mut out, b.name.as_str().to_owned(), b.data);
            },
            _ => {
                assert(named_views(out@) + Seq::<NamedView>::empty() =~= named_views(out@));
            },
        }
        proof {
            lemma_flat_step(ls, f, i as int);
        }
        i = i + 1;
    }
    assert(ls.take(i as int) == ls);
    out
}

fn ordered_names(v: &Vec<Named>) -> (r: Vec<String>)
    ensures
        string_texts(r@) == in_order(names_of(named_views(v@))),
{
    let ghost names = names_of(named_views(v@));
    let mut out: Vec<String> = Vec::new();
    let mut i: usize = 0;
    assert(string_texts(out@) =~= in_order(names.take(0)));
    while i < v.len()
        invariant
            i <= v.len(),
            names == names_of(named_views(v@)),
            string_texts(out@) == in_order(names.take(i as int)),
        decreases v.len() - i,
    {
        assert(names.take(i + 1).drop_last() == names.take(i as int));
        assert(names.take(i + 1).last() == v@[i as int].name@);
        insert_name(&mut out, v[i].name.clone());
        i = i + 1;
    }
    assert(names.take(i as int) == names);
    out
}

fn mentions(v: &Vec<Named>, name: &String) -> (r: bool)
    ensures
        r == names_of(named_views(v@)).contains(name@),
{
    let ghost names = names_of(named_views(v@));
    let mut i: usize = 0;
    while i < v.len()
        invariant
            i <= v.len(),
            names == names_of(named_views(v@)),
            forall|j: int| 0 <= j < i ==> #[trigger] names[j] != name@,
        decreases v.len() - i,
    {
        assert(names[i as int] == v@[i as int].name@);
        if v[i].name == *name {
            return true;
        }
        i = i + 1;
    }
    false
}

fn find_last(v: &Vec<Named>, name: &String) -> (r: Span)
    ensures
        r == last_span(named_views(v@), name@),
{
    let ghost nv = named_views(v@);
    let mut i: usize = v.len();
    assert(nv.take(i as int) == nv);
    while i > 0
        invariant
            i <= v.len(),
            nv == named_views(v@),
            last_span(nv, name@) == last_span(nv.take(i as int), name@),
        decreases i,
    {
        assert(nv.take(i as int).last() == v@[i - 1]@);
        assert(nv.take(i as int).drop_last() == nv.take(i - 1));
        if v[i - 1].name == *name {
            return v[i - 1].span;
        }
        i = i - 1;
    }
    Span::from_bytes(0, 0)
}

fn find_first(v: &Vec<Named>, name: &String) -> (r: Span)
    ensures
        r == first_span(named_views(v@), name@),
{
    let ghost nv = named_views(v@);
    let mut i: usize = 0;
    assert(nv.skip(0) =~= nv);
    while i < v.len()
        invariant
            i <= v.len(),
            nv == named_views(v@),
            first_span(nv, name@) == first_span(nv.skip(i as int), name@),
        decreases v.len() - i,
    {
        assert(nv.skip(i as int)[0] == v@[i as int]@);
        assert(nv.skip(i as int).skip(1) =~= nv.skip(i + 1));
        if v[i].name == *name {
            return v[i].span;
        }
        i = i + 1;
    }
    Span::from_bytes(0, 0)
}

fn report_unused(name: &str, span: Span, out: &mut Vec<Diagnostic>)
    ensures
        reports(final(out)@) == reports(old(out)@) + seq![unused_report(name@, span)],
{
    let mut message = String::from_str("bcond `");
    message.append(name);
    message.append("` is declared but never referenced via `%{with ");
    message.append(name);
    message.append("}` or `%{without ");
    message.append(name);
    message.append("}`; the toggle has no effect");
    say(out, Diagnostic::new("RPM401", Severity::Warn, message.as_str(), span));
}

fn report_undeclared(name: &str, span: Span, out: &mut Vec<Diagnostic>)
    ensures
        reports(final(out)@) == reports(old(out)@) + seq![undeclared_report(name@, span)],
{
    let mut message = String::from_str("reference to `%{with ");
    message.append(name);
    message.append("}` / `%{without ");
    message.append(name);
    message.append("}` without a matching `%bcond_with ");
    message.append(name);
    message.append("` / `%bcond_without ");
    message.append(name);
    message.append("` declaration; RPM expands it to nothing — the branch silently never fires");
    say(out, Diagnostic::new("RPM402", Severity::Warn, message.as_str(), span));
}

/// RPM401 `bcond-defined-but-unused`: A `%bcond` / `%bcond_with` / `%bcond_without`
/// declaration has no matching `%{with name}` / `%{without name}` reference anywhere in the
/// spec. The toggle has no effect; remove it or wire it up.
#[derive(Debug)]
pub struct BcondDefinedButUnused {
    pub diagnostics: Vec<Diagnostic>,
}

impl BcondDefinedButUnused {
    pub fn new() -> (r: BcondDefinedButUnused)
        ensures
            r.pending() == Seq::<DiagnosticView>::empty(),
    {
        let r = BcondDefinedButUnused { diagnostics: Vec::new() };
        assert(r.pending() =~= Seq::<DiagnosticView>::empty());
        r
    }
}

impl Default for BcondDefinedButUnused {
    fn default() -> (r: BcondDefinedButUnused)
        ensures
            r.pending() == Seq::<DiagnosticView>::empty(),
    {
        BcondDefinedButUnused::new()
    }
}

impl Lint for BcondDefinedButUnused {
    open spec fn identity() -> Identity {
        Identity {
            id: "RPM401"@,
            name: "bcond-defined-but-unused"@,
            description: "A `%bcond` / `%bcond_with` / `%bcond_without` declaration has no matching `%{with name}` / `%{without name}` reference anywhere in the spec. The toggle has no effect; remove it or wire it up."@,
            default_severity: Severity::Warn,
            category: LintCategory::Style,
        }
    }

    open spec fn pending(&self) -> Seq<DiagnosticView> {
        reports(self.diagnostics@)
    }

    open spec fn after(&self, spec: SpecFile) -> Seq<DiagnosticView> {
        self.pending() + unused_findings(spec)
    }

    open spec fn same_settings(&self, other: &Self) -> bool {
        true
    }

    fn metadata(&self) -> (r: LintMetadata) {
        LintMetadata {
            id: "RPM401",
            name: "bcond-defined-but-unused",
            description: "A `%bcond` / `%bcond_with` / `%bcond_without` declaration has no matching `%{with name}` / `%{without name}` reference anywhere in the spec. The toggle has no effect; remove it or wire it up.",
            default_severity: Severity::Warn,
            category: LintCategory::Style,
        }
    }

    fn visit_spec(&mut self, spec: &SpecFile) {
        let declared = collect_declarations(spec);
        let referenced = collect_references(spec);
        let ghost d = declarations(*spec);
        let ghost r = references(*spec);
        let names = ordered_names(&declared);
        let ghost ns = string_texts(names@);
        let ghost f = |name: Seq<char>|
            given(!names_of(r).contains(name), unused_report(name, last_span(d, name)));
        let ghost start = self.pending();
        let mut i: usize = 0;
        assert(start + flat(ns.take(0), f) == start);
        while i < names.len()
            invariant
                i <= names.len(),
                named_views(declared@) == d,
                named_views(referenced@) == r,
                ns == string_texts(names@),
                f == (|name: Seq<char>|
                    given(!names_of(r).contains(name), unused_report(name, last_span(d, name)))),
                self.pending() == start + flat(ns.take(i as int), f),
            decreases names.len() - i,
        {
            let ghost so_far = flat(ns.take(i as int), f);
            assert(ns[i as int] == names@[i as int]@);
            if !mentions(&referenced, &names[i]) {
                let span = find_last(&declared, &names[i]);
                report_unused(names[i].as_str(), span, &mut self.diagnostics);
            } else {
                assert(so_far + Seq::<DiagnosticView>::empty() == so_far);
            }
            proof {
                lemma_flat_step(ns, f, i as int);
                assert(start + so_far + f(ns[i as int]) == start + (so_far + f(ns[i as int])));
            }
            i = i + 1;
        }
        assert(ns.take(i as int) == ns);
    }

    fn take_diagnostics(&mut self) -> (r: Vec<Diagnostic>) {
        drain(&mut self.diagnostics)
    }
}

/// RPM402 `with-condition-without-bcond`: A `%{with name}` or `%{without name}` reference
/// has no matching `%bcond` declaration. RPM expands the reference to nothing, so the
/// conditional silently never fires — declare the bcond or fix the typo.
#[derive(Debug)]
pub struct WithConditionWithoutBcond {
    pub diagnostics: Vec<Diagnostic>,
}

impl WithConditionWithoutBcond {
    pub fn new() -> (r: WithConditionWithoutBcond)
        ensures
            r.pending() == Seq::<DiagnosticView>::empty(),
    {
        let r = WithConditionWithoutBcond { diagnostics: Vec::new() };
        assert(r.pending() =~= Seq::<DiagnosticView>::empty());
        r
    }
}

impl Default for WithConditionWithoutBcond {
    fn default() -> (r: WithConditionWithoutBcond)
        ensures
            r.pending() == Seq::<DiagnosticView>::empty(),
    {
        WithConditionWithoutBcond::new()
    }
}

impl Lint for WithConditionWithoutBcond {
    open spec fn identity() -> Identity {
        Identity {
            id: "RPM402"@,
            name: "with-condition-without-bcond"@,
            description: "A `%{with name}` or `%{without name}` reference has no matching `%bcond` declaration. RPM expands the reference to nothing, so the conditional silently never fires — declare the bcond or fix the typo."@,
            default_severity: Severity::Warn,
            category: LintCategory::Correctness,
        }
    }

    open spec fn pending(&self) -> Seq<DiagnosticView> {
        reports(self.diagnostics@)
    }

    open spec fn after(&self, spec: SpecFile) -> Seq<DiagnosticView> {
        self.pending() + undeclared_findings(spec)
    }

    open spec fn same_settings(&self, other: &Self) -> bool {
        true
    }

    fn metadata(&self) -> (r: LintMetadata) {
        LintMetadata {
            id: "RPM402",
            name: "with-condition-without-bcond",
            description: "A `%{with name}` or `%{without name}` reference has no matching `%bcond` declaration. RPM expands the reference to nothing, so the conditional silently never fires — declare the bcond or fix the typo.",
            default_severity: Severity::Warn,
            category: LintCategory::Correctness,
        }
    }

    fn visit_spec(&mut self, spec: &SpecFile) {
        let declared = collect_declarations(spec);
        let referenced = collect_references(spec);
        let ghost d = declarations(*spec);
        let ghost r = references(*spec);
        let names = ordered_names(&referenced);
        let ghost ns = string_texts(names@);
        let ghost f = |name: Seq<char>|
            given(!names_of(d).contains(name), undeclared_report(name, first_span(r, name)));
        let ghost start = self.pending();
        let mut i: usize = 0;
        assert(start + flat(ns.take(0), f) == start);
        while i < names.len()
            invariant
                i <= names.len(),
                named_views(declared@) == d,
                named_views(referenced@) == r,
                ns == string_texts(names@),
                f == (|name: Seq<char>|
                    given(!names_of(d).contains(name), undeclared_report(name, first_span(r, name)))),
                self.pending() == start + flat(ns.take(i as int), f),
            decreases names.len() - i,
        {
            let ghost so_far = flat(ns.take(i as int), f);
            assert(ns[i as int] == names@[i as int]@);
            if !mentions(&declared, &names[i]) {
                let span = find_first(&referenced, &names[i]);
                report_undeclared(names[i].as_str(), span, &mut self.diagnostics);
            } else {
                assert(so_far + Seq::<DiagnosticView>::empty() == so_far);
            }
            proof {
                lemma_flat_step(ns, f, i as int);
                assert(start + so_far + f(ns[i as int]) == start + (so_far + f(ns[i as int])));
            }
            i = i + 1;
        }
        assert(ns.take(i as int) == ns);
    }

    fn take_diagnostics(&mut self) -> (r: Vec<Diagnostic>) {
        drain(&mut self.diagnostics)
    }
}

/// The option is declared and never asked for.
pub open spec fn is_unused(spec: SpecFile, name: Seq<char>) -> bool {
    names_of(declarations(spec)).contains(name) && !names_of(references(spec)).contains(name)
}

/// The option is asked for and never declared.
pub open spec fn is_undeclared(spec: SpecFile, name: Seq<char>) -> bool {
    names_of(references(spec)).contains(name) && !names_of(declarations(spec)).contains(name)
}

/// The unused options are those that are declared and not asked for: each of
/// them is reported, and nothing else is.
pub proof fn unused_reports_are_a_difference(spec: SpecFile, d: DiagnosticView)
    ensures
        unused_findings(spec).contains(d) <==> exists|name: Seq<char>| #[trigger]
            is_unused(spec, name) && d == unused_report(
                name,
                last_span(declarations(spec), name),
            ),
{
    let ds = declarations(spec);
    let rs = references(spec);
    let names = in_order(names_of(ds));
    let f = |name: Seq<char>|
        given(!names_of(rs).contains(name), unused_report(name, last_span(ds, name)));
    lemma_flat_contains(names, f, d);
    ordering_keeps_the_names(names_of(ds));
    if unused_findings(spec).contains(d) {
        let i = choose|i: int| 0 <= i < names.len() && f(#[trigger] names[i]).contains(d);
        assert(names.contains(names[i]));
        assert(is_unused(spec, names[i]));
    }
    if exists|name: Seq<char>| #[trigger]
        is_unused(spec, name) && d == unused_report(name, last_span(ds, name)) {
        let name = choose|name: Seq<char>| #[trigger]
            is_unused(spec, name) && d == unused_report(name, last_span(ds, name));
        assert(names.contains(name));
        let i = choose|i: int| 0 <= i < names.len() && names[i] == name;
        assert(f(names[i])[0] == d);
        assert(f(names[i]).contains(d));
    }
}

/// The undeclared options are those that are asked for and not declared: each
/// of them is reported, and nothing else is.
pub proof fn undeclared_reports_are_a_difference(spec: SpecFile, d: DiagnosticView)
    ensures
        undeclared_findings(spec).contains(d) <==> exists|name: Seq<char>| #[trigger]
            is_undeclared(spec, name) && d == undeclared_report(
                name,
                first_span(references(spec), name),
            ),
{
    let ds = declarations(spec);
    let rs = references(spec);
    let names = in_order(names_of(rs));
    let f = |name: Seq<char>|
        given(!names_of(ds).contains(name), undeclared_report(name, first_span(rs, name)));
    lemma_flat_contains(names, f, d);
    ordering_keeps_the_names(names_of(rs));
    if undeclared_findings(spec).contains(d) {
        let i = choose|i: int| 0 <= i < names.len() && f(#[trigger] names[i]).contains(d);
        assert(names.contains(names[i]));
        assert(is_undeclared(spec, names[i]));
    }
    if exists|name: Seq<char>| #[trigger]
        is_undeclared(spec, name) && d == undeclared_report(name, first_span(rs, name)) {
        let name = choose|name: Seq<char>| #[trigger]
            is_undeclared(spec, name) && d == undeclared_report(name, first_span(rs, name));
        assert(names.contains(name));
        let i = choose|i: int| 0 <= i < names.len() && names[i] == name;
        assert(f(names[i])[0] == d);
        assert(f(names[i]).contains(d));
    }
}

/// Whether an option is among those that are asked for.
pub open spec fn asked(v: Seq<NamedView>, name: Seq<char>) -> bool {
    exists|k: int| 0 <= k < v.len() && (#[trigger] v[k]).name == name
}

proof fn lemma_asked(a: Seq<NamedView>, b: Seq<NamedView>, name: Seq<char>)
    ensures
        asked(a + b, name) <==> asked(a, name) || asked(b, name),
{
    let c = a + b;
    if asked(a, name) {
        let k = choose|k: int| 0 <= k < a.len() && (#[trigger] a[k]).name == name;
        assert(c[k].name == name);
    }
    if asked(b, name) {
        let k = choose|k: int| 0 <= k < b.len() && (#[trigger] b[k]).name == name;
        assert(c[a.len() + k].name == name);
    }
    if asked(c, name) {
        let k = choose|k: int| 0 <= k < c.len() && (#[trigger] c[k]).name == name;
        if k < a.len() {
            assert(a[k].name == name);
        } else {
            assert(b[k - a.len()].name == name);
        }
    }
}

proof fn lemma_asked_one(v: NamedView, name: Seq<char>)
    ensures
        asked(seq![v], name) <==> v.name == name,
{
    if v.name == name {
        assert(seq![v][0].name == name);
    }
}

proof fn lemma_asked_flat<A>(s: Seq<A>, f: spec_fn(A) -> Seq<NamedView>, name: Seq<char>)
    ensures
        asked(flat(s, f), name) <==> exists|i: int|
            0 <= i < s.len() && asked(f(#[trigger] s[i]), name),
    decreases s.len(),
{
    if s.len() > 0 {
        let front = s.drop_last();
        lemma_asked_flat(front, f, name);
        lemma_asked(flat(front, f), f(s.last()), name);
        if asked(flat(s, f), name) {
            if asked(flat(front, f), name) {
                let i = choose|i: int| 0 <= i < front.len() && asked(f(#[trigger] front[i]), name);
                assert(s[i] == front[i]);
            } else {
                assert(s[s.len() - 1] == s.last());
            }
        }
        if exists|i: int| 0 <= i < s.len() && asked(f(#[trigger] s[i]), name) {
            let i = choose|i: int| 0 <= i < s.len() && asked(f(#[trigger] s[i]), name);
            if i < front.len() {
                assert(front[i] == s[i]);
            }
        }
    }
}

/// A part of an expression is a macro that asks for the option.
pub open spec fn queries(part: ExprAst, name: Seq<char>) -> bool {
    match part {
        ExprAst::Macro { text, .. } => bcond_query(text@) matches Some(q) && q.1 == name,
        ExprAst::NumericConcat { parts, .. } => exists|i: int|
            0 <= i < parts@.len() && (#[trigger] parts@[i] matches ConcatPart::Macro(text)
                && (bcond_query(text@) matches Some(q) && q.1 == name)),
        _ => false,
    }
}

/// The options that an expression asks for are those that a macro anywhere in
/// it asks for.
pub proof fn every_query_in_an_expression_counts(e: ExprAst, name: Seq<char>)
    ensures
        asked(expr_refs(e), name) <==> exists|part: ExprAst|
            #[trigger] part_of(part, e) && queries(part, name),
    decreases e,
{
    match e {
        ExprAst::Macro { text, data } => {
            if bcond_query(text@) is Some {
                lemma_asked_one(NamedView { name: bcond_query(text@).unwrap().1, span: data }, name);
            }
            assert(part_of(e, e));
        },
        ExprAst::Paren { inner, .. } => {
            every_query_in_an_expression_counts(*inner, name);
            lemma_query_inside(e, *inner, *inner, name);
        },
        ExprAst::Not { inner, .. } => {
            every_query_in_an_expression_counts(*inner, name);
            lemma_query_inside(e, *inner, *inner, name);
        },
        ExprAst::Binary { lhs, rhs, .. } => {
            every_query_in_an_expression_counts(*lhs, name);
            every_query_in_an_expression_counts(*rhs, name);
            lemma_query_inside(e, *lhs, *rhs, name);
            lemma_asked(expr_refs(*lhs), expr_refs(*rhs), name);
        },
        ExprAst::NumericConcat { parts, data } => {
            let f = |p: ConcatPart| concat_part_refs(p, data);
            lemma_asked_flat(parts@, f, name);
            assert forall|i: int| 0 <= i < parts@.len() implies (asked(f(#[trigger] parts@[i]), name)
                <==> (parts@[i] matches ConcatPart::Macro(text) && (bcond_query(text@) matches Some(q)
                && q.1 == name))) by {
                match parts@[i] {
                    ConcatPart::Macro(text) => {
                        if bcond_query(text@) is Some {
                            lemma_asked_one(
                                NamedView { name: bcond_query(text@).unwrap().1, span: data },
                                name,
                            );
                        }
                    },
                    _ => {},
                }
            }
            assert(part_of(e, e));
            if asked(expr_refs(e), name) {
                let i = choose|i: int| 0 <= i < parts@.len() && asked(f(#[trigger] parts@[i]), name);
                assert(queries(e, name));
            }
            if exists|part: ExprAst| #[trigger] part_of(part, e) && queries(part, name) {
                assert(queries(e, name));
                let i = choose|i: int|
                    0 <= i < parts@.len() && (#[trigger] parts@[i] matches ConcatPart::Macro(text)
                        && (bcond_query(text@) matches Some(q) && q.1 == name));
                assert(asked(f(parts@[i]), name));
            }
        },
        _ => {},
    }
}

proof fn lemma_query_inside(e: ExprAst, l: ExprAst, r: ExprAst, name: Seq<char>)
    requires
        match e {
            ExprAst::Paren { inner, .. } => l == *inner && r == *inner,
            ExprAst::Not { inner, .. } => l == *inner && r == *inner,
            ExprAst::Binary { lhs, rhs, .. } => l == *lhs && r == *rhs,
            _ => false,
        },
    ensures
        (exists|part: ExprAst| #[trigger] part_of(part, e) && queries(part, name)) <==> {
            ||| exists|part: ExprAst| #[trigger] part_of(part, l) && queries(part, name)
            ||| exists|part: ExprAst| #[trigger] part_of(part, r) && queries(part, name)
        },
{
    if exists|part: ExprAst| #[trigger] part_of(part, l) && queries(part, name) {
        let p = choose|part: ExprAst| #[trigger] part_of(part, l) && queries(part, name);
        assert(part_of(p, e));
    }
    if exists|part: ExprAst| #[trigger] part_of(part, r) && queries(part, name) {
        let p = choose|part: ExprAst| #[trigger] part_of(part, r) && queries(part, name);
        assert(part_of(p, e));
    }
    if exists|part: ExprAst| #[trigger] part_of(part, e) && queries(part, name) {
        let p = choose|part: ExprAst| #[trigger] part_of(part, e) && queries(part, name);
        assert(p != e);
        assert(part_of(p, l) || part_of(p, r));
    }
}

/// `%{with name}` or `%{without name}`, in the form that the parser knows or
/// as a macro of that name with arguments.
pub open spec fn is_query(m: MacroRef, name: Seq<char>) -> bool {
    &&& m.kind == MacroKind::Builtin(BuiltinMacro::With) || m.kind == MacroKind::Builtin(
        BuiltinMacro::Without,
    ) || (m.kind == MacroKind::Parametric && (m.name@ == "with"@ || m.name@ == "without"@))
    &&& m.args@.len() > 0
    &&& m.args@[0].literal() matches Some(s) && trim(s) == name
    &&& name.len() > 0
}

/// A macro asks for the option that it queries, and for those that its
/// arguments and its value ask for.
pub proof fn every_query_in_a_macro_counts(m: MacroRef, anchor: Span, name: Seq<char>)
    ensures
        asked(macro_refs(m, anchor), name) <==> {
            ||| is_query(m, name)
            ||| exists|i: int|
                0 <= i < m.args@.len() && asked(text_refs(#[trigger] m.args@[i], anchor), name)
            ||| m.with_value matches Some(t) && asked(text_refs(t, anchor), name)
        },
{
    let own = match macro_target(m) {
        Some(name) => seq![NamedView { name, span: anchor }],
        None => Seq::empty(),
    };
    let value = match m.with_value {
        Some(t) => text_refs(t, anchor),
        None => Seq::empty(),
    };
    if macro_target(m) is Some {
        lemma_asked_one(NamedView { name: macro_target(m).unwrap(), span: anchor }, name);
    }
    assert(asked(own, name) <==> is_query(m, name));
    lemma_asked(own, texts_refs(m.args@, anchor), name);
    lemma_asked(own + texts_refs(m.args@, anchor), value, name);
    every_query_in_texts_counts(m.args@, anchor, name);
}

/// Texts ask for what one of them asks for.
pub proof fn every_query_in_texts_counts(ts: Seq<Text>, anchor: Span, name: Seq<char>)
    ensures
        asked(texts_refs(ts, anchor), name) <==> exists|i: int|
            0 <= i < ts.len() && asked(text_refs(#[trigger] ts[i], anchor), name),
    decreases ts.len(),
{
    if ts.len() > 0 {
        let front = ts.drop_last();
        every_query_in_texts_counts(front, anchor, name);
        lemma_asked(texts_refs(front, anchor), text_refs(ts.last(), anchor), name);
        assert(texts_refs(ts, anchor) == texts_refs(front, anchor) + text_refs(ts.last(), anchor));
        assert(ts[ts.len() - 1] == ts.last());
        if asked(texts_refs(front, anchor), name) {
            let i = choose|i: int|
                0 <= i < front.len() && asked(text_refs(#[trigger] front[i], anchor), name);
            assert(ts[i] == front[i]);
        }
        if exists|i: int| 0 <= i < ts.len() && asked(text_refs(#[trigger] ts[i], anchor), name) {
            let i = choose|i: int|
                0 <= i < ts.len() && asked(text_refs(#[trigger] ts[i], anchor), name);
            if i < front.len() {
                assert(front[i] == ts[i]);
            }
        }
    }
}

proof fn lemma_segments(s: Seq<TextSegment>, anchor: Span, name: Seq<char>)
    ensures
        asked(segments_refs(s, anchor), name) <==> exists|i: int|
            0 <= i < s.len() && (#[trigger] s[i] matches TextSegment::Macro(m) && asked(
                macro_refs(*m, anchor),
                name,
            )),
    decreases s.len(),
{
    if s.len() > 0 {
        let front = s.drop_last();
        lemma_segments(front, anchor, name);
        lemma_asked(segments_refs(front, anchor), segment_refs(s.last(), anchor), name);
        assert(segments_refs(s, anchor) == segments_refs(front, anchor) + segment_refs(
            s.last(),
            anchor,
        ));
        assert(s[s.len() - 1] == s.last());
        if asked(segments_refs(front, anchor), name) {
            let i = choose|i: int|
                0 <= i < front.len() && (#[trigger] front[i] matches TextSegment::Macro(m) && asked(
                    macro_refs(*m, anchor),
                    name,
                ));
            assert(s[i] == front[i]);
        }
        if exists|i: int|
            0 <= i < s.len() && (#[trigger] s[i] matches TextSegment::Macro(m) && asked(
                macro_refs(*m, anchor),
                name,
            )) {
            let i = choose|i: int|
                0 <= i < s.len() && (#[trigger] s[i] matches TextSegment::Macro(m) && asked(
                    macro_refs(*m, anchor),
                    name,
                ));
            if i < front.len() {
                assert(front[i] == s[i]);
            }
        }
    }
}

/// A text asks for what a macro in it asks for.
pub proof fn every_query_in_a_text_counts(t: Text, anchor: Span, name: Seq<char>)
    ensures
        asked(text_refs(t, anchor), name) <==> exists|i: int|
            0 <= i < t.segments@.len() && (#[trigger] t.segments@[i] matches TextSegment::Macro(m)
                && asked(macro_refs(*m, anchor), name)),
{
    lemma_segments(t.segments@, anchor, name);
}

/// A dependency asks for what its name, its qualifier and its version ask for.
pub proof fn every_query_in_a_dependency_counts(a: DepAtom, anchor: Span, name: Seq<char>)
    ensures
        asked(atom_refs(a, anchor), name) <==> {
            ||| asked(text_refs(a.name, anchor), name)
            ||| a.arch matches Some(t) && asked(text_refs(t, anchor), name)
            ||| a.constraint matches Some(c) && (asked(text_refs(c.evr.version, anchor), name) || (
            c.evr.release matches Some(t) && asked(text_refs(t, anchor), name)))
        },
{
    let x = text_refs(a.name, anchor);
    let y = optional_refs(a.arch, anchor);
    let z = match a.constraint {
        Some(c) => text_refs(c.evr.version, anchor) + optional_refs(c.evr.release, anchor),
        None => Seq::empty(),
    };
    lemma_asked(x, y, name);
    lemma_asked(x + y, z, name);
    match a.constraint {
        Some(c) => lemma_asked(
            text_refs(c.evr.version, anchor),
            optional_refs(c.evr.release, anchor),
            name,
        ),
        None => {},
    }
}

/// A tag line asks for what its text, its list or one of its dependencies asks
/// for.
pub proof fn every_query_in_a_line_counts(p: PreambleItem, name: Seq<char>)
    ensures
        asked(preamble_refs(p), name) <==> match p.value {
            TagValue::Text(t) => asked(text_refs(t, p.data), name),
            TagValue::ArchList(ts) => exists|i: int|
                0 <= i < ts@.len() && asked(text_refs(#[trigger] ts@[i], p.data), name),
            TagValue::Dep(e) => exists|i: int|
                0 <= i < dep_atoms(e).len() && asked(
                    atom_refs(#[trigger] dep_atoms(e)[i], p.data),
                    name,
                ),
            _ => false,
        },
{
    match p.value {
        TagValue::ArchList(ts) => every_query_in_texts_counts(ts@, p.data, name),
        TagValue::Dep(e) => lemma_asked_flat(
            dep_atoms(e),
            |a: DepAtom| atom_refs(a, p.data),
            name,
        ),
        _ => {},
    }
}

proof fn lemma_first_refs(items: Seq<Item>, n: nat, name: Seq<char>)
    requires
        n <= items.len(),
    ensures
        asked(first_refs(items, n), name) <==> exists|i: int|
            0 <= i < n && asked(item_refs(#[trigger] items[i], items_anchor(items)), name),
    decreases n,
{
    if n > 0 {
        let m = (n - 1) as nat;
        lemma_first_refs(items, m, name);
        assert(first_refs(items, n) == first_refs(items, m) + item_refs(
            items[n - 1],
            items_anchor(items),
        ));
        lemma_asked(first_refs(items, m), item_refs(items[n - 1], items_anchor(items)), name);
        if asked(first_refs(items, m), name) {
            let i = choose|i: int|
                0 <= i < m && asked(item_refs(#[trigger] items[i], items_anchor(items)), name);
            assert(0 <= i < n);
        }
        if exists|i: int| 0 <= i < n && asked(item_refs(#[trigger] items[i], items_anchor(items)), name) {
            let i = choose|i: int|
                0 <= i < n && asked(item_refs(#[trigger] items[i], items_anchor(items)), name);
            if i < m {
                assert(0 <= i < m);
            }
        }
    }
}

/// Items ask for what one of them asks for.
pub proof fn every_query_in_items_counts(items: Seq<Item>, name: Seq<char>)
    ensures
        asked(items_refs(items), name) <==> exists|i: int|
            0 <= i < items.len() && asked(item_refs(#[trigger] items[i], items_anchor(items)), name),
{
    lemma_first_refs(items, items.len(), name);
}

proof fn lemma_arm_refs(c: Conditional, n: nat, name: Seq<char>)
    requires
        n <= c.branches@.len(),
    ensures
        asked(arm_refs(c, n), name) <==> exists|i: int|
            0 <= i < n && (asked(cond_refs((#[trigger] c.branches@[i]).expr, c.data), name) || asked(
                items_refs(c.branches@[i].body@),
                name,
            )),
    decreases n,
{
    if n > 0 {
        let m = (n - 1) as nat;
        let b = c.branches@[n - 1];
        lemma_arm_refs(c, m, name);
        let x = arm_refs(c, m);
        let y = cond_refs(b.expr, c.data);
        let z = items_refs(b.body@);
        assert(arm_refs(c, n) == x + y + z);
        lemma_asked(x, y, name);
        lemma_asked(x + y, z, name);
        if asked(x, name) {
            let i = choose|i: int|
                0 <= i < m && (asked(cond_refs((#[trigger] c.branches@[i]).expr, c.data), name)
                    || asked(items_refs(c.branches@[i].body@), name));
            assert(0 <= i < n);
        }
        if exists|i: int|
            0 <= i < n && (asked(cond_refs((#[trigger] c.branches@[i]).expr, c.data), name) || asked(
                items_refs(c.branches@[i].body@),
                name,
            )) {
            let i = choose|i: int|
                0 <= i < n && (asked(cond_refs((#[trigger] c.branches@[i]).expr, c.data), name)
                    || asked(items_refs(c.branches@[i].body@), name));
            if i < m {
                assert(0 <= i < m);
            }
        }
    }
}

/// A conditional asks for what the conditions and the bodies of its branches
/// ask for, and its `%else`.
pub proof fn every_query_in_a_conditional_counts(c: Conditional, name: Seq<char>)
    ensures
        asked(conditional_refs(c), name) <==> {
            ||| exists|i: int|
                0 <= i < c.branches@.len() && (asked(
                    cond_refs((#[trigger] c.branches@[i]).expr, c.data),
                    name,
                ) || asked(items_refs(c.branches@[i].body@), name))
            ||| c.otherwise matches Some(body) && asked(items_refs(body@), name)
        },
{
    lemma_arm_refs(c, c.branches@.len(), name);
    match c.otherwise {
        Some(body) => lemma_asked(arm_refs(c, c.branches@.len()), items_refs(body@), name),
        None => {},
    }
}

/// Conditions of every form are looked into.
pub proof fn every_query_in_a_condition_counts(c: CondExpr, anchor: Span, name: Seq<char>)
    ensures
        asked(cond_refs(c, anchor), name) <==> match c {
            CondExpr::Raw(t) => asked(text_refs(t, anchor), name),
            CondExpr::Parsed(e) => exists|part: ExprAst|
                #[trigger] part_of(part, *e) && queries(part, name),
            CondExpr::ArchList(ts) => exists|i: int|
                0 <= i < ts@.len() && asked(text_refs(#[trigger] ts@[i], anchor), name),
        },
{
    match c {
        CondExpr::Parsed(e) => every_query_in_an_expression_counts(*e, name),
        CondExpr::ArchList(ts) => every_query_in_texts_counts(ts@, anchor, name),
        _ => {},
    }
}

/// One of the lines asks for the option.
pub open spec fn asked_in_lines(lines: Seq<Text>, anchor: Span, name: Seq<char>) -> bool {
    exists|i: int| 0 <= i < lines.len() && asked(text_refs(#[trigger] lines[i], anchor), name)
}

/// Sections with scripts, descriptions and packages are looked into.
pub proof fn every_query_in_a_section_counts(s: Section, name: Seq<char>)
    ensures
        asked(section_refs(s), name) <==> match s {
            Section::Package { content, .. } => asked(items_refs(content@), name),
            Section::BuildScript { lines, data, .. } => asked_in_lines(lines@, data, name),
            Section::Verify { lines, data } => asked_in_lines(lines@, data, name),
            Section::Sepolicy { lines, data } => asked_in_lines(lines@, data, name),
            Section::Scriptlet { lines, data } => asked_in_lines(lines@, data, name),
            Section::Trigger { lines, data } => asked_in_lines(lines@, data, name),
            Section::FileTrigger { lines, data } => asked_in_lines(lines@, data, name),
            Section::Description { lines, data } => asked_in_lines(lines@, data, name),
            _ => false,
        },
{
    match s {
        Section::BuildScript { lines, data, .. } => every_query_in_texts_counts(lines@, data, name),
        Section::Verify { lines, data } => every_query_in_texts_counts(lines@, data, name),
        Section::Sepolicy { lines, data } => every_query_in_texts_counts(lines@, data, name),
        Section::Scriptlet { lines, data } => every_query_in_texts_counts(lines@, data, name),
        Section::Trigger { lines, data } => every_query_in_texts_counts(lines@, data, name),
        Section::FileTrigger { lines, data } => every_query_in_texts_counts(lines@, data, name),
        Section::Description { lines, data } => every_query_in_texts_counts(lines@, data, name),
        _ => {},
    }
}

/// Items of every kind that can hold macros are looked into.
pub proof fn every_query_in_an_item_counts(item: Item, anchor: Span, name: Seq<char>)
    ensures
        asked(item_refs(item, anchor), name) <==> match item {
            Item::BuildCondition(b) => b.default matches Some(t) && asked(
                text_refs(t, b.data),
                name,
            ),
            Item::Preamble(p) => asked(preamble_refs(p), name),
            Item::Conditional(c) => asked(conditional_refs(c), name),
            Item::Section(s) => asked(section_refs(*s), name),
            Item::MacroDef(m) => asked(text_refs(m.body, m.data), name),
            Item::Statement(m) => asked(macro_refs(*m, anchor), name),
            _ => false,
        },
{
}

/// An option that is declared is reported as unused exactly if nothing in the
/// spec file asks for it; one that is asked for is reported as undeclared
/// exactly if no item declares it.
pub proof fn options_are_reported_by_their_use(spec: SpecFile, name: Seq<char>)
    ensures
        is_unused(spec, name) <==> {
            &&& exists|i: int|
                0 <= i < leaves(spec.items@).len() && (#[trigger] leaves(spec.items@)[i] matches
                    Item::BuildCondition(b) && b.name@ == name)
            &&& forall|i: int|
                0 <= i < spec.items@.len() ==> !asked(
                    item_refs(#[trigger] spec.items@[i], items_anchor(spec.items@)),
                    name,
                )
        },
        is_undeclared(spec, name) <==> {
            &&& forall|i: int|
                0 <= i < leaves(spec.items@).len() ==> !(#[trigger] leaves(spec.items@)[i] matches
                    Item::BuildCondition(b) && b.name@ == name)
            &&& exists|i: int|
                0 <= i < spec.items@.len() && asked(
                    item_refs(#[trigger] spec.items@[i], items_anchor(spec.items@)),
                    name,
                )
        },
{
    let ds = declarations(spec);
    let rs = references(spec);
    let all = leaves(spec.items@);
    let f = |i: Item| declared_by(i);
    lemma_names(ds, name);
    lemma_names(rs, name);
    every_query_in_items_counts(spec.items@, name);
    lemma_asked_flat(all, f, name);
    assert forall|i: int| 0 <= i < all.len() implies (asked(f(#[trigger] all[i]), name) <==> (all[i]
        matches Item::BuildCondition(b) && b.name@ == name)) by {
        match all[i] {
            Item::BuildCondition(b) => lemma_asked_one(
                NamedView { name: b.name@, span: b.data },
                name,
            ),
            _ => {},
        }
    }
}

proof fn lemma_names(v: Seq<NamedView>, name: Seq<char>)
    ensures
        names_of(v).contains(name) <==> asked(v, name),
{
    let ns = names_of(v);
    if ns.contains(name) {
        let k = choose|k: int| 0 <= k < ns.len() && ns[k] == name;
        assert(v[k].name == name);
    }
    if asked(v, name) {
        let k = choose|k: int| 0 <= k < v.len() && (#[trigger] v[k]).name == name;
        assert(ns[k] == name);
    }
}

} // verus!
