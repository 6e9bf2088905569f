//! What the reading of shell lines keeps.
use vstd::prelude::*;

use crate::ast::{BuildScriptKind, Item, Section, Span, SpecFile, Text, TextSegment};
use crate::shell::{
    body_calls, commands, ended, item_body, line_calls, line_text, lines_calls,
    reading, section_body, segments_text, spec_bodies, spec_calls, with_word, BodyView, CallView,
    Reading,
};
use crate::text::{is_ident, strip_suffix, words};
use crate::walk::{leaves, lemma_flat_contains};

verus! {

/// The commands that a list of words makes up.
pub open spec fn commands_of(ws: Seq<Seq<char>>) -> Seq<Seq<Seq<char>>> {
    ended(reading(ws)).done
}

/// Whether a word stands between two commands.
pub open spec fn parts_commands(w: Seq<char>) -> bool {
    w == seq![';'] || w == seq!['&', '&'] || w == seq!['|', '|'] || w == seq!['|'] || w == seq!['&']
}

/// Whether a comment begins with a word.
pub open spec fn begins_comment(w: Seq<char>) -> bool {
    w.len() > 0 && w[0] == '#'
}

/// Whether a word sets a variable: it starts like a name and holds a `=`.
pub open spec fn sets_variable(w: Seq<char>) -> bool {
    w.len() > 0 && is_ident(w[0]) && w.contains('=')
}

/// Whether a word is part of a command and does not end it.
pub open spec fn is_ordinary(w: Seq<char>) -> bool {
    !parts_commands(w) && !begins_comment(w) && (w.len() == 0 || w.last() != ';')
}

/// Whether no comment begins in a list of words.
pub open spec fn without_comment(ws: Seq<Seq<char>>) -> bool {
    forall|i: int| 0 <= i < ws.len() ==> !begins_comment(#[trigger] ws[i])
}

proof fn lemma_word(r: Reading, w: Seq<char>)
    ensures
        r.comment || begins_comment(w) ==> with_word(r, w) == (Reading { comment: true, ..r }),
        !r.comment && parts_commands(w) ==> with_word(r, w) == ended(r),
        !r.comment && is_ordinary(w) && (r.current.len() > 0 || !sets_variable(w)) ==> with_word(r, w)
            == (Reading { current: r.current.push(w), ..r }),
        !r.comment && is_ordinary(w) && r.current.len() == 0 && sets_variable(w) ==> with_word(r, w)
            == r,
        !r.comment && !begins_comment(w) ==> !with_word(r, w).comment,
{
    reveal_strlit("#");
    reveal_strlit(";");
    reveal_strlit("&&");
    reveal_strlit("||");
    reveal_strlit("|");
    reveal_strlit("&");
    assert("#"@ =~= seq!['#']);
    assert(";"@ =~= seq![';']);
    assert("&&"@ =~= seq!['&', '&']);
    assert("||"@ =~= seq!['|', '|']);
    assert("|"@ =~= seq!['|']);
    assert("&"@ =~= seq!['&']);
    assert("#"@.is_prefix_of(w) <==> begins_comment(w)) by {
        assert("#"@.len() == 1 && "#"@[0] == '#');
        if w.len() > 0 {
            assert(w.subrange(0, 1)[0] == w[0]);
        }
        if begins_comment(w) {
            assert(w.subrange(0, 1) =~= "#"@);
        }
    }
    if is_ordinary(w) {
        assert(strip_suffix(w, ";"@) is None) by {
            if w.len() > 0 && w.skip(w.len() - 1) == ";"@ {
                assert(w.skip(w.len() - 1)[0] == ';');
            }
        }
    }
}

proof fn lemma_no_comment(ws: Seq<Seq<char>>)
    requires
        without_comment(ws),
    ensures
        !reading(ws).comment,
    decreases ws.len(),
{
    if ws.len() > 0 {
        let front = ws.drop_last();
        assert forall|i: int| 0 <= i < front.len() implies !begins_comment(#[trigger] front[i]) by {
            assert(ws[i] == front[i]);
        }
        lemma_no_comment(front);
        assert(ws[ws.len() - 1] == ws.last());
        lemma_word(reading(front), ws.last());
    }
}

proof fn lemma_step(a: Seq<Seq<char>>, b: Seq<Seq<char>>)
    requires
        b.len() > 0,
    ensures
        reading(a + b) == with_word(reading(a + b.drop_last()), b.last()),
{
    assert((a + b).drop_last() =~= a + b.drop_last());
    assert((a + b).last() == b.last());
}

proof fn lemma_after(a: Seq<Seq<char>>, w: Seq<char>, b: Seq<Seq<char>>)
    requires
        without_comment(a),
        parts_commands(w),
    ensures
        reading(a.push(w) + b) == (Reading {
            done: commands_of(a) + reading(b).done,
            current: reading(b).current,
            comment: reading(b).comment,
        }),
    decreases b.len(),
{
    let head = a.push(w);
    if b.len() == 0 {
        assert(head + b =~= head);
        assert(head.drop_last() =~= a);
        lemma_no_comment(a);
        lemma_word(reading(a), w);
        assert(ended(reading(a)).done + reading(b).done =~= ended(reading(a)).done);
        assert(ended(reading(a)).current =~= Seq::empty());
    } else {
        lemma_step(head, b);
        let front = b.drop_last();
        lemma_after(a, w, front);
        let r = reading(front);
        let s = reading(head + front);
        let x = b.last();
        let d = commands_of(a);
        assert(d + r.done.push(r.current) =~= (d + r.done).push(r.current));
        match strip_suffix(x, ";"@) {
            Some(h) => {
                assert(d + r.done.push(r.current.push(h)) =~= (d + r.done).push(r.current.push(h)));
            },
            None => {},
        }
    }
}

/// The commands on both sides of a separator are read each on its own.
pub proof fn separators_part_commands(a: Seq<Seq<char>>, w: Seq<char>, b: Seq<Seq<char>>)
    requires
        without_comment(a),
        parts_commands(w),
    ensures
        commands_of(a.push(w) + b) == commands_of(a) + commands_of(b),
{
    lemma_after(a, w, b);
    let r = reading(b);
    let d = commands_of(a);
    assert(d + r.done.push(r.current) =~= (d + r.done).push(r.current));
}

/// Nothing that stands in a comment is a command.
pub proof fn comments_hold_no_commands(a: Seq<Seq<char>>, w: Seq<char>, b: Seq<Seq<char>>)
    requires
        begins_comment(w),
    ensures
        commands_of(a.push(w) + b) == commands_of(a),
{
    lemma_in_comment(a, w, b);
}

proof fn lemma_in_comment(a: Seq<Seq<char>>, w: Seq<char>, b: Seq<Seq<char>>)
    requires
        begins_comment(w),
    ensures
        reading(a.push(w) + b) == (Reading { comment: true, ..reading(a) }),
    decreases b.len(),
{
    let head = a.push(w);
    if b.len() == 0 {
        assert(head + b =~= head);
        assert(head.drop_last() =~= a);
        lemma_word(reading(a), w);
    } else {
        lemma_step(head, b);
        lemma_in_comment(a, w, b.drop_last());
        lemma_word(reading(head + b.drop_last()), b.last());
    }
}

/// Words with nothing between them that ends a command are one command.
pub proof fn ordinary_words_are_one_command(ws: Seq<Seq<char>>)
    requires
        ws.len() > 0,
        forall|i: int| 0 <= i < ws.len() ==> is_ordinary(#[trigger] ws[i]),
        !sets_variable(ws[0]),
    ensures
        commands_of(ws) == seq![ws],
{
    lemma_ordinary(ws);
    assert(Seq::<Seq<Seq<char>>>::empty().push(ws) =~= seq![ws]);
}

proof fn lemma_ordinary(ws: Seq<Seq<char>>)
    requires
        forall|i: int| 0 <= i < ws.len() ==> is_ordinary(#[trigger] ws[i]),
        ws.len() > 0 ==> !sets_variable(ws[0]),
    ensures
        reading(ws) == (Reading { done: Seq::empty(), current: ws, comment: false }),
    decreases ws.len(),
{
    if ws.len() == 0 {
        assert(ws =~= Seq::empty());
    } else {
        let front = ws.drop_last();
        assert forall|i: int| 0 <= i < front.len() implies is_ordinary(#[trigger] front[i]) by {
            assert(ws[i] == front[i]);
        }
        if front.len() > 0 {
            assert(front[0] == ws[0]);
        }
        lemma_ordinary(front);
        assert(ws[ws.len() - 1] == ws.last());
        lemma_word(reading(front), ws.last());
        assert(front.push(ws.last()) =~= ws);
    }
}

/// A variable that is set before a command is no part of it.
pub proof fn variables_are_passed_over(w: Seq<char>, ws: Seq<Seq<char>>)
    requires
        is_ordinary(w),
        sets_variable(w),
    ensures
        commands_of(seq![w] + ws) == commands_of(ws),
{
    lemma_passed(w, ws);
}

proof fn lemma_passed(w: Seq<char>, ws: Seq<Seq<char>>)
    requires
        is_ordinary(w),
        sets_variable(w),
    ensures
        reading(seq![w] + ws) == reading(ws),
    decreases ws.len(),
{
    let head = seq![w];
    if ws.len() == 0 {
        assert(head + ws =~= head);
        assert(head.drop_last() =~= Seq::<Seq<char>>::empty());
        lemma_word(reading(head.drop_last()), w);
    } else {
        lemma_step(head, ws);
        lemma_passed(w, ws.drop_last());
    }
}

/// A semicolon may stand at the end of the last word of a command: it is read
/// as if it stood on its own.
pub proof fn semicolons_may_touch(a: Seq<Seq<char>>, w: Seq<char>, b: Seq<Seq<char>>)
    requires
        is_ordinary(w),
        !sets_variable(w.push(';')),
        w.len() > 0,
    ensures
        commands_of(a.push(w.push(';')) + b) == commands_of(a.push(w).push(seq![';']) + b),
{
    lemma_touching(a, w, b);
}

proof fn lemma_touching(a: Seq<Seq<char>>, w: Seq<char>, b: Seq<Seq<char>>)
    requires
        is_ordinary(w),
        !sets_variable(w.push(';')),
        w.len() > 0,
    ensures
        reading(a.push(w.push(';')) + b).done == reading(a.push(w).push(seq![';']) + b).done,
        reading(a.push(w.push(';')) + b).current == reading(a.push(w).push(seq![';']) + b).current,
        reading(a.push(w.push(';')) + b).comment == reading(a.push(w).push(seq![';']) + b).comment,
    decreases b.len(),
{
    let one = a.push(w.push(';'));
    let two = a.push(w).push(seq![';']);
    if b.len() == 0 {
        assert(one + b =~= one);
        assert(two + b =~= two);
        assert(one.drop_last() =~= a);
        assert(two.drop_last() =~= a.push(w));
        assert(a.push(w).drop_last() =~= a);
        assert(reading(a.push(w)) == with_word(reading(a), w));
        assert(reading(two) == with_word(reading(a.push(w)), seq![';']));
        assert(reading(one) == with_word(reading(a), w.push(';')));
        let r = reading(a);
        let t = w.push(';');
        lemma_word(r, w);
        lemma_word(r, t);
        lemma_word(with_word(r, w), seq![';']);
        reveal_strlit(";");
        reveal_strlit("#");
        reveal_strlit("&&");
        reveal_strlit("||");
        reveal_strlit("|");
        reveal_strlit("&");
        assert(t.len() >= 2 && t.last() == ';');
        assert(t[0] == w[0]);
        assert("&&"@[1] == '&' && "||"@[1] == '|');
        assert(t[1] == ';' || t.len() > 2);
        assert(t.skip(t.len() - 1) =~= ";"@);
        assert(t.take(t.len() - 1) =~= w);
        if !r.comment {
            assert(";"@.len() == 1);
            assert(t.subrange(0, t.len() - 1) =~= w);
            assert(strip_suffix(t, ";"@) == Some(w));
            assert(!parts_commands(t));
            assert(!sets_variable(w)) by {
                if sets_variable(w) {
                    let i = choose|i: int| 0 <= i < w.len() && w[i] == '=';
                    assert(t[i] == '=');
                    assert(t.contains('='));
                }
            }
        }
    } else {
        lemma_step(one, b);
        lemma_step(two, b);
        lemma_touching(a, w, b.drop_last());
    }
}

/// A line runs the commands that its words make up.
pub proof fn line_runs_its_words(line: Seq<char>)
    ensures
        commands(line) == commands_of(words(line)),
{
}

/// Lines are read piece by piece: literal text as it stands, a macro by its
/// name.
pub proof fn line_is_read_piece_by_piece(a: Seq<TextSegment>, b: Seq<TextSegment>)
    ensures
        segments_text(a + b) == segments_text(a) + segments_text(b),
        a.len() == 1 ==> (a[0] matches TextSegment::Literal(t) ==> segments_text(a) == t@),
        a.len() == 1 ==> (a[0] matches TextSegment::Macro(m) ==> segments_text(a) == "%{"@ + m.name@
            + "}"@),
    decreases b.len(),
{
    if b.len() == 0 {
        assert(a + b =~= a);
        assert(segments_text(a) + segments_text(b) =~= segments_text(a));
    } else {
        line_is_read_piece_by_piece(a, b.drop_last());
        assert((a + b).drop_last() =~= a + b.drop_last());
        assert(segments_text(a + b) =~= segments_text(a) + segments_text(b));
    }
    if a.len() == 1 {
        assert(a.drop_last() =~= Seq::<TextSegment>::empty());
        assert(segments_text(a.drop_last()) =~= Seq::<char>::empty());
        match a[0] {
            TextSegment::Literal(t) => {
                assert(segments_text(a) =~= t@);
            },
            TextSegment::Macro(m) => {
                assert(segments_text(a) =~= "%{"@ + m.name@ + "}"@);
            },
        }
    }
}

/// Whether an item is a section with a script of the given lines at `span`.
pub open spec fn is_script(item: Item, lines: Seq<Text>, span: Span) -> bool {
    item matches Item::Section(s) && match *s {
        Section::BuildScript { lines: l, data, .. } => l@ == lines && data == span,
        Section::Scriptlet { lines: l, data } => l@ == lines && data == span,
        Section::Trigger { lines: l, data } => l@ == lines && data == span,
        Section::FileTrigger { lines: l, data } => l@ == lines && data == span,
        Section::Verify { lines: l, data } => l@ == lines && data == span,
        Section::Sepolicy { lines: l, data } => l@ == lines && data == span,
        _ => false,
    }
}

/// The kind of the build script that an item is, if it is one.
pub open spec fn script_kind(item: Item) -> Option<BuildScriptKind> {
    match item {
        Item::Section(s) => match *s {
            Section::BuildScript { kind, .. } => Some(kind),
            _ => None,
        },
        _ => None,
    }
}

/// Every section that holds a script counts, wherever it stands, and no other
/// does; only build scripts have a kind.
pub proof fn every_script_is_read(spec: SpecFile, b: BodyView)
    ensures
        spec_bodies(spec).contains(b) <==> exists|i: int|
            0 <= i < leaves(spec.items@).len() && is_script(
                #[trigger] leaves(spec.items@)[i],
                b.lines,
                b.span,
            ) && script_kind(leaves(spec.items@)[i]) == b.kind,
{
    let all = leaves(spec.items@);
    let f = |i: Item| item_body(i);
    lemma_flat_contains(all, f, b);
    assert forall|i: int| 0 <= i < all.len() implies (f(#[trigger] all[i]).contains(b) <==> (
    is_script(all[i], b.lines, b.span) && script_kind(all[i]) == b.kind)) by {
        match all[i] {
            Item::Section(s) => match section_body(*s) {
                Some(x) => {
                    assert(seq![x][0] == x);
                    assert(f(all[i]).contains(b) <==> b == x);
                },
                None => {},
            },
            _ => {},
        }
    }
    if spec_bodies(spec).contains(b) {
        let i = choose|i: int| 0 <= i < all.len() && f(#[trigger] all[i]).contains(b);
        assert(is_script(all[i], b.lines, b.span));
    }
    if exists|i: int|
        0 <= i < all.len() && is_script(#[trigger] all[i], b.lines, b.span) && script_kind(all[i])
            == b.kind {
        let i = choose|i: int|
            0 <= i < all.len() && is_script(#[trigger] all[i], b.lines, b.span) && script_kind(
                all[i],
            ) == b.kind;
        assert(f(all[i]).contains(b));
    }
}

/// Exactly the commands of the lines of build scripts are calls.
pub proof fn every_command_is_a_call(spec: SpecFile, c: CallView)
    ensures
        spec_calls(spec).contains(c) <==> exists|i: int, j: int, k: int|
            is_call(spec_bodies(spec), i, j, k, c),
{
    let all = spec_bodies(spec);
    let f = |b: BodyView| body_calls(b);
    lemma_flat_contains(all, f, c);
    if spec_calls(spec).contains(c) {
        let i = choose|i: int| 0 <= i < all.len() && f(#[trigger] all[i]).contains(c);
        let kind = all[i].kind.unwrap();
        let span = all[i].span;
        let ls = all[i].lines;
        let g = |t: Text| line_calls(kind, span, t);
        lemma_flat_contains(ls, g, c);
        let j = choose|j: int| 0 <= j < ls.len() && g(#[trigger] ls[j]).contains(c);
        let cs = commands(line_text(ls[j]));
        let here = line_calls(kind, span, ls[j]);
        let k = choose|k: int| 0 <= k < here.len() && here[k] == c;
        assert(c.words == cs[k]);
        assert(is_call(all, i, j, k, c));
    }
    if exists|i: int, j: int, k: int| is_call(all, i, j, k, c) {
        let (i, j, k) = choose|i: int, j: int, k: int| is_call(all, i, j, k, c);
        let kind = all[i].kind.unwrap();
        let span = all[i].span;
        let ls = all[i].lines;
        let g = |t: Text| line_calls(kind, span, t);
        lemma_flat_contains(ls, g, c);
        assert(g(ls[j])[k] == c);
        assert(g(ls[j]).contains(c));
        assert(f(all[i]) == lines_calls(kind, span, ls));
        assert(f(all[i]).contains(c));
    }
}

/// Whether `c` is command `k` of line `j` of script `i`, which is a build
/// script.
pub open spec fn is_call(bodies: Seq<BodyView>, i: int, j: int, k: int, c: CallView) -> bool {
    &&& 0 <= i < bodies.len()
    &&& 0 <= j < bodies[i].lines.len()
    &&& 0 <= k < commands(line_text(bodies[i].lines[j])).len()
    &&& bodies[i].kind == Some(c.kind)
    &&& bodies[i].span == c.span
    &&& commands(line_text(bodies[i].lines[j]))[k] == c.words
}

} // verus!
