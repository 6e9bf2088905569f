//! The shell scripts of a spec file.
use vstd::prelude::*;

use crate::ast::{BuildScriptKind, Item, Section, Span, SpecFile, Text, TextSegment};
use crate::condition::string_texts;
use crate::text::{
    has_char, has_prefix, is_ident, ident, same, split_words, strip_suffix, texts,
    without_suffix, words,
};
use crate::walk::{flat, item_views, leaf_items, leaves, lemma_flat_step};

verus! {

// ---------------------------------------------------------------------
// Bodies
// ---------------------------------------------------------------------

/// A script: the kind of its section, where it is one that builds, and its
/// lines.
pub struct Body<'a> {
    pub kind: Option<BuildScriptKind>,
    pub lines: &'a Vec<Text>,
    pub span: Span,
}

pub struct BodyView {
    pub kind: Option<BuildScriptKind>,
    pub lines: Seq<Text>,
    pub span: Span,
}

impl<'a> View for Body<'a> {
    type V = BodyView;

    open spec fn view(&self) -> BodyView {
        BodyView { kind: self.kind, lines: self.lines@, span: self.span }
    }
}

pub open spec fn body_views(v: Seq<Body>) -> Seq<BodyView> {
    v.map_values(|b: Body| b@)
}

/// The script that a section holds.
pub open spec fn section_body(s: Section) -> Option<BodyView> {
    match s {
        Section::BuildScript { kind, lines, data } => Some(
            BodyView { kind: Some(kind), lines: lines@, span: data },
        ),
        Section::Scriptlet { lines, data } => Some(
            BodyView { kind: None, lines: lines@, span: data },
        ),
        Section::Trigger { lines, data } => Some(
            BodyView { kind: None, lines: lines@, span: data },
        ),
        Section::FileTrigger { lines, data } => Some(
            BodyView { kind: None, lines: lines@, span: data },
        ),
        Section::Verify { lines, data } => Some(BodyView { kind: None, lines: lines@, span: data }),
        Section::Sepolicy { lines, data } => Some(
            BodyView { kind: None, lines: lines@, span: data },
        ),
        _ => None,
    }
}

pub open spec fn item_body(item: Item) -> Seq<BodyView> {
    match item {
        Item::Section(s) => match section_body(*s) {
            Some(b) => seq![b],
            None => Seq::empty(),
        },
        _ => Seq::empty(),
    }
}

/// The scripts of a spec file, as they come.
pub open spec fn spec_bodies(spec: SpecFile) -> Seq<BodyView> {
    flat(leaves(spec.items@), |i: Item| item_body(i))
}

fn body_of<'a>(s: &'a Section) -> (r: Option<Body<'a>>)
    ensures
        r is Some <==> section_body(*s) is Some,
        r matches Some(b) ==> section_body(*s) == Some(b@),
{
    match s {
        Section::BuildScript { kind, lines, data } => Some(
            Body { kind: Some(*kind), lines, span: *data },
        ),
        Section::Scriptlet { lines, data } => Some(Body { kind: None, lines, span: *data }),
        Section::Trigger { lines, data } => Some(Body { kind: None, lines, span: *data }),
        Section::FileTrigger { lines, data } => Some(Body { kind: None, lines, span: *data }),
        Section::Verify { lines, data } => Some(Body { kind: None, lines, span: *data }),
        Section::Sepolicy { lines, data } => Some(Body { kind: None, lines, span: *data }),
        _ => None,
    }
}

/// The scripts of a spec file, as they come.
pub fn shell_bodies<'a>(spec: &'a SpecFile) -> (r: Vec<Body<'a>>)
    ensures
        body_views(r@) == spec_bodies(*spec),
{
    let all = leaf_items(&spec.items);
    let ghost ls = leaves(spec.items@);
    let ghost f = |i: Item| item_body(i);
    let mut out: Vec<Body<'a>> = Vec::new();
    let mut i: usize = 0;
    assert(body_views(out@) =~= flat(ls.take(0), f));
    while i < all.len()
        invariant
            i <= all.len(),
            item_views(all@) == ls,
            f == (|i: Item| item_body(i)),
            body_views(out@) == flat(ls.take(i as int), f),
        decreases all.len() - i,
    {
        let ghost before = body_views(out@);
        assert(ls[i as int] == *all@[i as int]);
        assert(before + Seq::<BodyView>::empty() =~= before);
        match all[i] {
            Item::Section(s) => match body_of(s) {
                Some(b) => {
                    let ghost bv = b@;
                    out.push(b);
                    assert(body_views(out@) =~= before + seq![bv]);
                },
                None => {},
            },
            _ => {},
        }
        proof {
            lemma_flat_step(ls, f, i as int);
        }
        i = i + 1;
    }
    assert(ls.take(i as int) == ls);
    out
}

// ---------------------------------------------------------------------
// Lines
// ---------------------------------------------------------------------

pub open spec fn segment_text(s: TextSegment) -> Seq<char> {
    match s {
        TextSegment::Literal(t) => t@,
        TextSegment::Macro(m) => "%{"@ + m.name@ + "}"@,
    }
}

pub open spec fn segments_text(s: Seq<TextSegment>) -> Seq<char>
    decreases s.len(),
{
    if s.len() == 0 {
        Seq::empty()
    } else {
        segments_text(s.drop_last()) + segment_text(s.last())
    }
}

/// A line as text, its macros by name.
pub open spec fn line_text(t: Text) -> Seq<char> {
    segments_text(t.segments@)
}

pub fn render_shell_line(t: &Text) -> (r: String)
    ensures
        r@ == line_text(*t),
{
    let mut out = String::new();
    let mut i: usize = 0;
    while i < t.segments.len()
        invariant
            i <= t.segments.len(),
            out@ == segments_text(t.segments@.take(i as int)),
        decreases t.segments.len() - i,
    {
        assert(t.segments@.take(i + 1).drop_last() == t.segments@.take(i as int));
        let ghost before = out@;
        match &t.segments[i] {
            TextSegment::Literal(s) => {
                out.append(s.as_str());
            },
            TextSegment::Macro(m) => {
                out.append("%{");
                out.append(m.name.as_str());
                out.append("}");
                assert(out@ =~= before + ("%{"@ + m.name@ + "}"@));
            },
        }
        i = i + 1;
    }
    assert(t.segments@.take(i as int) == t.segments@);
    out
}

// ---------------------------------------------------------------------
// Commands
// ---------------------------------------------------------------------

/// Whether a word stands between two commands.
pub open spec fn is_separator(w: Seq<char>) -> bool {
    w == ";"@ || w == "&&"@ || w == "||"@ || w == "|"@ || w == "&"@
}

/// Whether a word is an assignment before a command, as `CC=gcc`.
pub open spec fn is_assignment(w: Seq<char>) -> bool {
    w.len() > 0 && is_ident(w[0]) && w.contains('=')
}

/// Whether a word is what it looks like: no macro or variable stands in it.
pub open spec fn is_literal(w: Seq<char>) -> bool {
    !w.contains('%') && !w.contains('$')
}

/// What has been read of a line: the commands before, the words of the one
/// that is being read, and whether a comment has begun.
pub struct Reading {
    pub done: Seq<Seq<Seq<char>>>,
    pub current: Seq<Seq<char>>,
    pub comment: bool,
}

/// The command that is being read, ended.
pub open spec fn ended(r: Reading) -> Reading {
    if r.current.len() == 0 {
        r
    } else {
        Reading { done: r.done.push(r.current), current: Seq::empty(), comment: r.comment }
    }
}

/// One more word. Assignments before a command are passed over; a semicolon
/// at the end of a word ends the command.
pub open spec fn with_word(r: Reading, w: Seq<char>) -> Reading {
    if r.comment || "#"@.is_prefix_of(w) {
        Reading { comment: true, ..r }
    } else if is_separator(w) {
        ended(r)
    } else if r.current.len() == 0 && is_assignment(w) {
        r
    } else {
        match strip_suffix(w, ";"@) {
            Some(head) => ended(Reading { current: r.current.push(head), ..r }),
            None => Reading { current: r.current.push(w), ..r },
        }
    }
}

pub open spec fn reading(ws: Seq<Seq<char>>) -> Reading
    decreases ws.len(),
{
    if ws.len() == 0 {
        Reading { done: Seq::empty(), current: Seq::empty(), comment: false }
    } else {
        with_word(reading(ws.drop_last()), ws.last())
    }
}

/// The commands of a line, each as a list of words.
pub open spec fn commands(line: Seq<char>) -> Seq<Seq<Seq<char>>> {
    ended(reading(words(line))).done
}

/// A command, the kind of section it stands in, and where.
pub struct Call {
    pub kind: BuildScriptKind,
    pub words: Vec<String>,
    pub span: Span,
}

pub struct CallView {
    pub kind: BuildScriptKind,
    pub words: Seq<Seq<char>>,
    pub span: Span,
}

impl View for Call {
    type V = CallView;

    open spec fn view(&self) -> CallView {
        CallView { kind: self.kind, words: string_texts(self.words@), span: self.span }
    }
}

pub open spec fn call_views(v: Seq<Call>) -> Seq<CallView> {
    v.map_values(|c: Call| c@)
}

/// The calls of a line of a build script.
pub open spec fn line_calls(kind: BuildScriptKind, span: Span, t: Text) -> Seq<CallView> {
    commands(line_text(t)).map_values(|ws: Seq<Seq<char>>| CallView { kind, words: ws, span })
}

pub open spec fn lines_calls(kind: BuildScriptKind, span: Span, lines: Seq<Text>) -> Seq<CallView> {
    flat(lines, |t: Text| line_calls(kind, span, t))
}

pub open spec fn body_calls(b: BodyView) -> Seq<CallView> {
    match b.kind {
        Some(kind) => lines_calls(kind, b.span, b.lines),
        None => Seq::empty(),
    }
}

/// The calls of all build scripts.
pub open spec fn spec_calls(spec: SpecFile) -> Seq<CallView> {
    flat(spec_bodies(spec), |b: BodyView| body_calls(b))
}

/// The name of a command, if no macro or variable stands in it.
pub open spec fn command_name(ws: Seq<Seq<char>>) -> Option<Seq<char>> {
    if ws.len() > 0 && is_literal(ws[0]) {
        Some(ws[0])
    } else {
        None
    }
}

pub fn literal_word(w: &str) -> (r: bool)
    ensures
        r == is_literal(w@),
{
    !has_char(w, '%') && !has_char(w, '$')
}

fn separator(w: &str) -> (r: bool)
    ensures
        r == is_separator(w@),
{
    same(w, ";") || same(w, "&&") || same(w, "||") || same(w, "|") || same(w, "&")
}

fn assignment(w: &str) -> (r: bool)
    ensures
        r == is_assignment(w@),
{
    w.unicode_len() > 0 && ident(w.get_char(0)) && has_char(w, '=')
}

/// The texts of lists of words.
pub open spec fn command_views(v: Seq<Vec<String>>) -> Seq<Seq<Seq<char>>> {
    v.map_values(|ws: Vec<String>| string_texts(ws@))
}

fn finish(done: &mut Vec<Vec<String>>, current: Vec<String>)
    ensures
        forall|comment: bool|
            command_views(final(done)@) == (#[trigger] ended(
                Reading {
                    done: command_views(old(done)@),
                    current: string_texts(current@),
                    comment,
                },
            )).done,
{
    let ghost before = command_views(done@);
    let ghost c = string_texts(current@);
    if current.len() > 0 {
        done.push(current);
        assert(command_views(done@) =~= before.push(c));
    }
}

fn push_word(current: &mut Vec<String>, w: &str)
    ensures
        string_texts(final(current)@) == string_texts(old(current)@).push(w@),
{
    current.push(w.to_owned());
    assert(string_texts(current@) =~= string_texts(old(current)@).push(w@));
}

/// The commands of a line, each as a list of words.
pub fn split_commands(line: &str) -> (r: Vec<Vec<String>>)
    ensures
        command_views(r@) == commands(line@),
{
    let ws = split_words(line);
    let ghost t = words(line@);
    let mut done: Vec<Vec<String>> = Vec::new();
    let mut current: Vec<String> = Vec::new();
    let mut comment = false;
    let mut i: usize = 0;
    assert(command_views(done@) =~= Seq::empty());
    assert(string_texts(current@) =~= Seq::empty());
    while i < ws.len()
        invariant
            i <= ws.len(),
            texts(ws@) == t,
            reading(t.take(i as int)) == (Reading {
                done: command_views(done@),
                current: string_texts(current@),
                comment,
            }),
        decreases ws.len() - i,
    {
        let ghost r = reading(t.take(i as int));
        assert(t.take(i + 1).drop_last() == t.take(i as int));
        assert(t.take(i + 1).last() == ws@[i as int]@) by {
            assert(texts(ws@)[i as int] == ws@[i as int]@);
        }
        let w = ws[i];
        if comment || has_prefix(w, "#") {
            comment = true;
        } else if separator(w) {
            assert(ended(r).done == ended(
                Reading { done: r.done, current: r.current, comment: r.comment },
            ).done);
            finish(&mut done, current);
            current = Vec::new();
            assert(string_texts(current@) =~= Seq::empty());
            assert(r.current.len() == 0 ==> r.current =~= Seq::empty());
        } else if current.len() == 0 && assignment(w) {
        } else {
            match without_suffix(w, ";") {
                Some(head) => {
                    push_word(&mut current, head);
                    let ghost longer = Reading { current: r.current.push(head@), ..r };
                    assert(ended(longer).done == ended(
                        Reading {
                            done: r.done,
                            current: string_texts(current@),
                            comment: r.comment,
                        },
                    ).done);
                    finish(&mut done, current);
                    current = Vec::new();
                    assert(string_texts(current@) =~= Seq::empty());
                },
                None => {
                    push_word(&mut current, w);
                },
            }
        }
        i = i + 1;
    }
    assert(t.take(i as int) == t);
    let ghost r = reading(t);
    assert(ended(r).done == ended(
        Reading { done: r.done, current: r.current, comment: r.comment },
    ).done);
    finish(&mut done, current);
    done
}

fn push_line_calls(kind: BuildScriptKind, span: Span, t: &Text, out: &mut Vec<Call>)
    ensures
        call_views(final(out)@) == call_views(old(out)@) + line_calls(kind, span, *t),
{
    let line = render_shell_line(t);
    let mut rest = split_commands(line.as_str());
    let ghost cs = commands(line@);
    let ghost all = line_calls(kind, span, *t);
    let ghost start = call_views(out@);
    let mut reversed: Vec<Vec<String>> = Vec::new();
    assert(command_views(reversed@) =~= Seq::empty());
    assert(cs.skip(cs.len() as int) =~= Seq::empty());
    assert(command_views(reversed@).reverse() =~= cs.skip(cs.len() as int));
    while rest.len() > 0
        invariant
            rest.len() <= cs.len(),
            command_views(rest@) == cs.take(rest.len() as int),
            command_views(reversed@).reverse() == cs.skip(rest.len() as int),
        decreases rest.len(),
    {
        let ghost n = rest@.len() as int;
        let ghost tail = command_views(reversed@);
        let last = rest.pop();
        match last {
            Some(ws) => {
                let ghost wv = string_texts(ws@);
                proof {
                    assert(cs.take(n)[n - 1] == wv);
                    assert(command_views(rest@) =~= cs.take(n - 1));
                }
                reversed.push(ws);
                proof {
                    assert(command_views(reversed@) =~= tail.push(wv));
                    assert(tail.push(wv).reverse() =~= seq![wv] + tail.reverse());
                    assert(seq![wv] + cs.skip(n) =~= cs.skip(n - 1));
                }
            },
            None => {},
        }
    }
    assert(cs.skip(0) =~= cs);
    assert(start + all.take(0) =~= start);
    let ghost total = cs.len() as int;
    while reversed.len() > 0
        invariant
            total == cs.len(),
            reversed.len() <= total,
            all == cs.map_values(|ws: Seq<Seq<char>>| CallView { kind, words: ws, span }),
            command_views(reversed@).reverse() == cs.skip(total - reversed.len()),
            call_views(out@) == start + all.take(total - reversed.len()),
        decreases reversed.len(),
    {
        let ghost n = reversed@.len() as int;
        let ghost at = total - n;
        let ghost tail = command_views(reversed@);
        let next = reversed.pop();
        match next {
            Some(ws) => {
                let ghost wv = string_texts(ws@);
                proof {
                    assert(tail.reverse()[0] == wv);
                    assert(cs.skip(at)[0] == cs[at]);
                    assert(wv == cs[at]);
                    assert(command_views(reversed@) =~= tail.drop_last());
                    assert(tail.drop_last().reverse() =~= cs.skip(at).skip(1));
                    assert(cs.skip(at).skip(1) =~= cs.skip(at + 1));
                }
                let call = Call { kind, words: ws, span };
                let ghost cv = call@;
                let ghost before = call_views(out@);
                out.push(call);
                proof {
                    assert(call_views(out@) =~= before.push(cv));
                    assert(all[at] == cv);
                    assert(start + all.take(at + 1) =~= (start + all.take(at)).push(cv));
                }
            },
            None => {},
        }
    }
    assert(all.take(total) =~= all);
}

/// The calls of all build scripts.
pub fn build_calls(spec: &SpecFile) -> (r: Vec<Call>)
    ensures
        call_views(r@) == spec_calls(*spec),
{
    let bodies = shell_bodies(spec);
    let ghost bs = spec_bodies(*spec);
    let ghost f = |b: BodyView| body_calls(b);
    let mut out: Vec<Call> = Vec::new();
    let mut i: usize = 0;
    assert(call_views(out@) =~= flat(bs.take(0), f));
    while i < bodies.len()
        invariant
            i <= bodies.len(),
            body_views(bodies@) == bs,
            f == (|b: BodyView| body_calls(b)),
            call_views(out@) == flat(bs.take(i as int), f),
        decreases bodies.len() - i,
    {
        assert(bs[i as int] == bodies@[i as int]@);
        push_body_calls(&bodies[i], &mut out);
        proof {
            lemma_flat_step(bs, f, i as int);
        }
        i = i + 1;
    }
    assert(bs.take(i as int) == bs);
    out
}

fn push_body_calls(b: &Body, out: &mut Vec<Call>)
    ensures
        call_views(final(out)@) == call_views(old(out)@) + body_calls(b@),
{
    let ghost start = call_views(out@);
    let kind = match b.kind {
        Some(k) => k,
        None => {
            assert(start + Seq::<CallView>::empty() =~= start);
            return ;
        },
    };
    let span = b.span;
    let ghost g = |t: Text| line_calls(kind, span, t);
    let mut i: usize = 0;
    assert(start + flat(b.lines@.take(0), g) =~= start);
    while i < b.lines.len()
        invariant
            i <= b.lines.len(),
            g == (|t: Text| line_calls(kind, span, t)),
            call_views(out@) == start + flat(b.lines@.take(i as int), g),
        decreases b.lines.len() - i,
    {
        push_line_calls(kind, span, &b.lines[i], out);
        proof {
            lemma_flat_step(b.lines@, g, i as int);
            let a = flat(b.lines@.take(i as int), g);
            assert(start + a + g(b.lines@[i as int]) =~= start + (a + g(b.lines@[i as int])));
        }
        i = i + 1;
    }
    assert(b.lines@.take(i as int) == b.lines@);
}

} // verus!
