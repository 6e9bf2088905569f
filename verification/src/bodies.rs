//! The bodies of branches: what stands in them and where.
use vstd::prelude::*;

use crate::ast::{Item, Section, Span};
use crate::text::{byte_slice, opt_view, same_chars, slice_bytes, trim_lines, trimmed_lines};

verus! {

/// Whether an item says nothing: a blank line or a comment.
pub open spec fn is_filler(item: Item) -> bool {
    item is Blank || item is Comment
}

pub fn filler(item: &Item) -> (r: bool)
    ensures
        r == is_filler(*item),
{
    matches!(item, Item::Blank) || matches!(item, Item::Comment(_))
}

/// Whether only blank lines and comments stand in a body.
pub open spec fn all_filler(body: Seq<Item>) -> bool {
    forall|i: int| 0 <= i < body.len() ==> is_filler(#[trigger] body[i])
}

pub fn only_filler(body: &Vec<Item>) -> (r: bool)
    ensures
        r == all_filler(body@),
{
    let mut i: usize = 0;
    while i < body.len()
        invariant
            i <= body.len(),
            forall|j: int| 0 <= j < i ==> is_filler(#[trigger] body@[j]),
        decreases body.len() - i,
    {
        if !filler(&body[i]) {
            assert(!is_filler(body@[i as int]));
            return false;
        }
        i = i + 1;
    }
    true
}

/// Whether item `k` is the only one in a body besides blank lines and
/// comments.
pub open spec fn is_sole(body: Seq<Item>, k: int) -> bool {
    &&& 0 <= k < body.len()
    &&& !is_filler(body[k])
    &&& forall|j: int| 0 <= j < body.len() && j != k ==> is_filler(#[trigger] body[j])
}

/// The position of the only item that is not a blank line or a comment.
pub fn sole(body: &Vec<Item>) -> (r: Option<usize>)
    ensures
        r matches Some(k) ==> is_sole(body@, k as int),
        r is None ==> forall|k: int| !is_sole(body@, k),
{
    let mut found: Option<usize> = None;
    let mut i: usize = 0;
    while i < body.len()
        invariant
            i <= body.len(),
            found matches Some(k) ==> k < i && !is_filler(body@[k as int]),
            forall|j: int| 0 <= j < i && found != Some(j as usize) ==> is_filler(#[trigger] body@[j]),
        decreases body.len() - i,
    {
        if !filler(&body[i]) {
            match found {
                Some(f) => {
                    assert forall|k: int| !is_sole(body@, k) by {
                        assert(!is_filler(body@[f as int]) && !is_filler(body@[i as int]));
                    }
                    return None;
                },
                None => {
                    found = Some(i);
                },
            }
        }
        i = i + 1;
    }
    found
}

/// The span of a section, where it is kept. That of a description is not.
pub open spec fn section_span(s: Section) -> Option<Span> {
    match s {
        Section::Description { .. } => None,
        Section::Package { data, .. } => Some(data),
        Section::BuildScript { data, .. } => Some(data),
        Section::Files { data, .. } => Some(data),
        Section::Scriptlet { data, .. } => Some(data),
        Section::Trigger { data, .. } => Some(data),
        Section::FileTrigger { data, .. } => Some(data),
        Section::Verify { data, .. } => Some(data),
        Section::Sepolicy { data, .. } => Some(data),
        Section::Changelog { data, .. } => Some(data),
        Section::SourceList { data } => Some(data),
        Section::PatchList { data } => Some(data),
    }
}

fn span_of_section(s: &Section) -> (r: Option<Span>)
    ensures
        r == section_span(*s),
{
    match s {
        Section::Description { .. } => None,
        Section::Package { data, .. } => Some(*data),
        Section::BuildScript { data, .. } => Some(*data),
        Section::Files { data, .. } => Some(*data),
        Section::Scriptlet { data, .. } => Some(*data),
        Section::Trigger { data, .. } => Some(*data),
        Section::FileTrigger { data, .. } => Some(*data),
        Section::Verify { data, .. } => Some(*data),
        Section::Sepolicy { data, .. } => Some(*data),
        Section::Changelog { data, .. } => Some(*data),
        Section::SourceList { data } => Some(*data),
        Section::PatchList { data } => Some(*data),
    }
}

/// Where an item stands. Blank lines and statements have no span; a section
/// has one where sections are asked for.
pub open spec fn item_span(item: Item, sections: bool) -> Option<Span> {
    match item {
        Item::Preamble(p) => Some(p.data),
        Item::Entry(e) => Some(e.data),
        Item::Section(s) => if sections {
            section_span(*s)
        } else {
            None
        },
        Item::Conditional(c) => Some(c.data),
        Item::MacroDef(m) => Some(m.data),
        Item::BuildCondition(b) => Some(b.data),
        Item::Include(s) => Some(s),
        Item::Comment(s) => Some(s),
        Item::Statement(_) => None,
        Item::Blank | Item::Other => None,
    }
}

pub fn body_span(item: &Item, sections: bool) -> (r: Option<Span>)
    ensures
        r == item_span(*item, sections),
{
    match item {
        Item::Preamble(p) => Some(p.data),
        Item::Entry(e) => Some(e.data),
        Item::Section(s) => {
            if sections {
                span_of_section(s)
            } else {
                None
            }
        },
        Item::Conditional(c) => Some(c.data),
        Item::MacroDef(m) => Some(m.data),
        Item::BuildCondition(b) => Some(b.data),
        Item::Include(s) => Some(*s),
        Item::Comment(s) => Some(*s),
        Item::Statement(_) => None,
        Item::Blank | Item::Other => None,
    }
}

/// The bytes from the first item with a span to the last.
pub open spec fn body_range(body: Seq<Item>, sections: bool) -> Option<(usize, usize)>
    decreases body.len(),
{
    if body.len() == 0 {
        None
    } else {
        let rest = body_range(body.drop_last(), sections);
        match item_span(body.last(), sections) {
            None => rest,
            Some(sp) => Some(
                (
                    match rest {
                        Some(r) => r.0,
                        None => sp.start_byte,
                    },
                    sp.end_byte,
                ),
            ),
        }
    }
}

pub fn range_of_body(body: &Vec<Item>, sections: bool) -> (r: Option<(usize, usize)>)
    ensures
        r == body_range(body@, sections),
{
    let mut range: Option<(usize, usize)> = None;
    let mut i: usize = 0;
    while i < body.len()
        invariant
            i <= body.len(),
            range == body_range(body@.take(i as int), sections),
        decreases body.len() - i,
    {
        assert(body@.take(i + 1).drop_last() == body@.take(i as int));
        match body_span(&body[i], sections) {
            None => {},
            Some(sp) => {
                let start: usize = match range {
                    Some((s, _)) => s,
                    None => sp.start_byte,
                };
                range = Some((start, sp.end_byte));
            },
        }
        i = i + 1;
    }
    assert(body@.take(i as int) == body@);
    range
}

/// The source text of a body.
pub open spec fn body_text(body: Seq<Item>, source: Seq<char>, sections: bool) -> Option<Seq<char>> {
    match body_range(body, sections) {
        Some((s, e)) => byte_slice(source, s as int, e as int),
        None => None,
    }
}

pub fn text_of_body<'a>(body: &Vec<Item>, source: &'a str, sections: bool) -> (r: Option<&'a str>)
    ensures
        opt_view(r) == body_text(body@, source@, sections),
{
    match range_of_body(body, sections) {
        Some((s, e)) => slice_bytes(source, s, e),
        None => None,
    }
}

/// Whether two bodies have the same source text but for whitespace at the end
/// of lines.
pub open spec fn bodies_alike(a: Seq<Item>, b: Seq<Item>, source: Seq<char>, sections: bool) -> bool {
    match (body_text(a, source, sections), body_text(b, source, sections)) {
        (Some(s), Some(t)) => trimmed_lines(s) == trimmed_lines(t),
        _ => false,
    }
}

pub fn bodies_source_eq(a: &Vec<Item>, b: &Vec<Item>, source: &str, sections: bool) -> (r: bool)
    ensures
        r == bodies_alike(a@, b@, source@, sections),
{
    match (text_of_body(a, source, sections), text_of_body(b, source, sections)) {
        (Some(s), Some(t)) => same_chars(&trim_lines(s), &trim_lines(t)),
        _ => false,
    }
}

/// Whether items `i` and `j` are the first and the last of a body that have a
/// span.
pub open spec fn are_ends(body: Seq<Item>, sections: bool, i: int, j: int) -> bool {
    &&& 0 <= i <= j < body.len()
    &&& item_span(body[i], sections) is Some
    &&& item_span(body[j], sections) is Some
    &&& forall|k: int|
        0 <= k < i || j < k < body.len() ==> item_span(#[trigger] body[k], sections) is None
}

/// A body reaches from the start of the first item that has a span to the end
/// of the last, and has a text exactly if there is such an item.
pub proof fn body_reaches_from_first_to_last(body: Seq<Item>, sections: bool)
    ensures
        match body_range(body, sections) {
            Some((s, e)) => exists|i: int, j: int|
                #[trigger] are_ends(body, sections, i, j) && item_span(
                    body[i],
                    sections,
                ).unwrap().start_byte == s && item_span(body[j], sections).unwrap().end_byte == e,
            None => forall|k: int|
                0 <= k < body.len() ==> item_span(#[trigger] body[k], sections) is None,
        },
    decreases body.len(),
{
    if body.len() > 0 {
        let front = body.drop_last();
        let n = body.len() - 1;
        body_reaches_from_first_to_last(front, sections);
        assert forall|k: int| 0 <= k < n implies front[k] == #[trigger] body[k] by {}
        match (body_range(front, sections), item_span(body.last(), sections)) {
            (Some((s, e)), rest) => {
                let (i, j) = choose|i: int, j: int|
                    #[trigger] are_ends(front, sections, i, j) && item_span(
                        front[i],
                        sections,
                    ).unwrap().start_byte == s && item_span(front[j], sections).unwrap().end_byte
                        == e;
                if rest is Some {
                    assert(are_ends(body, sections, i, n));
                } else {
                    assert(are_ends(body, sections, i, j));
                }
            },
            (None, Some(_)) => {
                assert(are_ends(body, sections, n, n));
            },
            (None, None) => {},
        }
    }
}

} // verus!
