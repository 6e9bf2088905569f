//! Build options as `rpm-spec` reads them out of a macro.
use vstd::prelude::*;

use crate::text::{is_space, strip_prefix, strip_suffix, trim, trim_start};
use crate::text_laws::{ascii_whitespace, core_is_unique, is_core_at};

verus! {

/// The number of characters of `s` before its first whitespace, or all.
pub open spec fn before_space(s: Seq<char>) -> int
    decreases s.len(),
{
    if s.len() == 0 || is_space(s[0]) {
        0
    } else {
        1 + before_space(s.skip(1))
    }
}

/// `s` without `!?` or else `?` at its start.
pub open spec fn past_sigil(s: Seq<char>) -> Seq<char> {
    match strip_prefix(s, "!?"@) {
        Some(rest) => rest,
        None => match strip_prefix(s, "?"@) {
            Some(rest) => rest,
            None => s,
        },
    }
}

/// The keyword and the argument between the braces of a macro: what stands
/// before the first whitespace and, trimmed, what stands after it.
pub open spec fn keyword_and_argument(body: Seq<char>) -> Option<(Seq<char>, Seq<char>)> {
    let s = trim_start(past_sigil(trim(body)));
    let n = before_space(s);
    if n < s.len() {
        Some((s.take(n), trim(s.skip(n + 1))))
    } else {
        None
    }
}

/// What `%{with name}` and `%{without name}` ask for: whether the option is
/// on, and its name, which is a single word. A `?` or `!?` before the keyword
/// is passed over.
pub open spec fn bcond_query(text: Seq<char>) -> Option<(bool, Seq<char>)> {
    match strip_prefix(text, "%{"@) {
        None => None,
        Some(rest) => match strip_suffix(rest, "}"@) {
            None => None,
            Some(body) => match keyword_and_argument(body) {
                None => None,
                Some((keyword, name)) => if name.len() == 0 || exists|i: int|
                    0 <= i < name.len() && is_space(#[trigger] name[i]) {
                    None
                } else if keyword == "with"@ {
                    Some((true, name))
                } else if keyword == "without"@ {
                    Some((false, name))
                } else {
                    None
                },
            },
        },
    }
}

/// `rpm_spec::ast::parse_bcond_verbatim`: the form and the name of a build
/// option query, for the texts that are one.
#[verifier::external_body]
pub(crate) fn parse_query(text: &str) -> (r: Option<(bool, String)>)
    ensures
        r is Some <==> bcond_query(text@) is Some,
        r matches Some(q) ==> bcond_query(text@) == Some((q.0, q.1@)),
{
    let (form, name) = rpm_spec::ast::parse_bcond_verbatim(text)?;
    match form {
        rpm_spec::ast::BcondForm::With => Some((true, name.to_owned())),
        rpm_spec::ast::BcondForm::Without => Some((false, name.to_owned())),
        _ => None,
    }
}

/// Whether nothing but whitespace stands in `s`.
pub open spec fn is_spacing(s: Seq<char>) -> bool {
    forall|i: int| 0 <= i < s.len() ==> is_space(#[trigger] s[i])
}

/// Whether `s` is a word: something, and no whitespace in it.
pub open spec fn is_word(s: Seq<char>) -> bool {
    s.len() > 0 && forall|i: int| 0 <= i < s.len() ==> !is_space(#[trigger] s[i])
}

proof fn lemma_after_spacing(spacing: Seq<char>, s: Seq<char>)
    requires
        is_spacing(spacing),
        s.len() > 0 ==> !is_space(s[0]),
    ensures
        trim_start(spacing + s) == s,
    decreases spacing.len(),
{
    if spacing.len() == 0 {
        assert(spacing + s =~= s);
    } else {
        assert((spacing + s)[0] == spacing[0]);
        assert((spacing + s).skip(1) =~= spacing.skip(1) + s);
        lemma_after_spacing(spacing.skip(1), s);
    }
}

proof fn lemma_between_spacing(a: Seq<char>, s: Seq<char>, b: Seq<char>)
    requires
        is_spacing(a),
        is_spacing(b),
        s.len() > 0,
        !is_space(s[0]),
        !is_space(s.last()),
    ensures
        trim(a + s + b) == s,
{
    let t = a + s + b;
    assert(is_core_at(t, s, a.len() as int, a.len() + s.len() as int)) by {
        assert(t.subrange(a.len() as int, a.len() + s.len() as int) =~= s);
        assert forall|i: int| 0 <= i < a.len() || a.len() + s.len() <= i < t.len() implies is_space(
            #[trigger] t[i],
        ) by {
            if i < a.len() {
                assert(t[i] == a[i]);
            } else {
                assert(t[i] == b[i - a.len() - s.len()]);
            }
        }
        assert(t[a.len() as int] == s[0]);
        assert(t[a.len() + s.len() - 1] == s.last());
    }
    core_is_unique(t, s);
}

proof fn lemma_first_word(word: Seq<char>, c: char, rest: Seq<char>)
    requires
        forall|i: int| 0 <= i < word.len() ==> !is_space(#[trigger] word[i]),
        is_space(c),
    ensures
        before_space(word + (seq![c] + rest)) == word.len(),
    decreases word.len(),
{
    let s = word + (seq![c] + rest);
    if word.len() == 0 {
        assert(s[0] == c);
    } else {
        assert(s[0] == word[0]);
        assert(s.skip(1) =~= word.skip(1) + (seq![c] + rest));
        lemma_first_word(word.skip(1), c, rest);
    }
}

/// Between braces, what stands before the first whitespace is the keyword and
/// the word after it is the argument, whatever whitespace stands around them
/// and whether a `?` or `!?` comes first.
pub proof fn keyword_comes_before_the_argument(
    a: Seq<char>,
    sigil: Seq<char>,
    b: Seq<char>,
    keyword: Seq<char>,
    c: char,
    d: Seq<char>,
    name: Seq<char>,
    e: Seq<char>,
)
    requires
        is_spacing(a) && is_spacing(b) && is_space(c) && is_spacing(d) && is_spacing(e),
        is_word(keyword) && keyword[0] != '!' && keyword[0] != '?',
        is_word(name),
        sigil == seq!['?'] || sigil == seq!['!', '?'] || (sigil.len() == 0 && b.len() == 0),
    ensures
        keyword_and_argument(
            a + (sigil + (b + (keyword + (seq![c] + (d + name))))) + e,
        ) == Some((keyword, name)),
{
    let rest = d + name;
    let said = keyword + (seq![c] + rest);
    let open = b + said;
    let s = sigil + open;
    reveal_strlit("!?");
    reveal_strlit("?");
    assert("!?"@ =~= seq!['!', '?']);
    assert("?"@ =~= seq!['?']);
    ascii_whitespace('?');
    ascii_whitespace('!');
    assert(said[0] == keyword[0]);
    assert(said.last() == name.last());
    assert(open.last() == name.last());
    assert(s.last() == name.last());
    assert(!is_space(name[name.len() - 1]));
    if sigil.len() == 0 {
        assert(open =~= said);
        assert(s =~= said);
    } else {
        assert(s[0] == sigil[0]);
    }
    lemma_between_spacing(a, s, e);
    assert(past_sigil(s) == open) by {
        if sigil == seq!['!', '?'] {
            assert(s.subrange(0, 2) =~= "!?"@);
            assert(s.skip(2) =~= open);
        } else if sigil == seq!['?'] {
            if "!?"@.is_prefix_of(s) {
                assert(s.subrange(0, 2)[0] == s[0]);
            }
            assert(s.subrange(0, 1) =~= "?"@);
            assert(s.skip(1) =~= open);
        } else {
            if "!?"@.is_prefix_of(s) {
                assert(s.subrange(0, 2)[0] == s[0]);
            }
            if "?"@.is_prefix_of(s) {
                assert(s.subrange(0, 1)[0] == s[0]);
            }
        }
    }
    lemma_after_spacing(b, said);
    lemma_first_word(keyword, c, rest);
    assert(said.take(keyword.len() as int) =~= keyword);
    assert(said.skip(keyword.len() as int + 1) =~= rest);
    assert(d + name + Seq::<char>::empty() =~= rest);
    lemma_between_spacing(d, name, Seq::empty());
}

/// A macro asks for an option exactly by the keywords `with` and `without`,
/// which are told apart.
pub proof fn queries_are_told_apart(body: Seq<char>, keyword: Seq<char>, name: Seq<char>)
    requires
        keyword_and_argument(body) == Some((keyword, name)),
        is_word(name),
    ensures
        keyword == seq!['w', 'i', 't', 'h'] ==> bcond_query(seq!['%', '{'] + body + seq!['}'])
            == Some((true, name)),
        keyword == seq!['w', 'i', 't', 'h', 'o', 'u', 't'] ==> bcond_query(
            seq!['%', '{'] + body + seq!['}'],
        ) == Some((false, name)),
        keyword != seq!['w', 'i', 't', 'h'] && keyword != seq!['w', 'i', 't', 'h', 'o', 'u', 't']
            ==> bcond_query(seq!['%', '{'] + body + seq!['}']) is None,
{
    reveal_strlit("%{");
    reveal_strlit("}");
    reveal_strlit("with");
    reveal_strlit("without");
    let p = "%{"@;
    let q = "}"@;
    assert(p =~= seq!['%', '{']);
    assert(q =~= seq!['}']);
    assert("with"@ =~= seq!['w', 'i', 't', 'h']);
    assert("without"@ =~= seq!['w', 'i', 't', 'h', 'o', 'u', 't']);
    assert("with"@.len() == 4 && "without"@.len() == 7);
    let text = p + body + q;
    let rest = body + q;
    assert(text =~= p + rest);
    assert(text.subrange(0, 2) =~= p);
    assert(p.is_prefix_of(text));
    assert(text.skip(2) =~= rest);
    assert(strip_prefix(text, p) == Some(rest));
    assert(rest.subrange(rest.len() - 1, rest.len() as int) =~= q);
    assert(q.is_suffix_of(rest));
    assert(rest.take(rest.len() - 1) =~= body);
    assert(strip_suffix(rest, q) == Some(body));
}

} // verus!
