//! What the operations on texts promise.
use vstd::prelude::*;

use crate::text::{
    decimal, digit_char, is_ascii_space, is_digit, is_space, pieces, signed_decimal, trim, trim_end,
    trim_start, word_len, words,
};

verus! {

// ---------------------------------------------------------------------
// Whitespace
// ---------------------------------------------------------------------

/// Of the ASCII characters, the space and those from tab to carriage return
/// are whitespace, and no others.
pub proof fn ascii_whitespace(c: char)
    requires
        (c as u32) < 128,
    ensures
        is_space(c) <==> c == ' ' || 9 <= c as u32 <= 13,
        is_ascii_space(c) ==> is_space(c),
        is_ascii_space(c) <==> is_space(c) && c as u32 != 11,
{
}

/// `t` is `s` without whitespace around it.
pub open spec fn is_core(s: Seq<char>, t: Seq<char>) -> bool {
    exists|a: int, b: int| #[trigger] is_core_at(s, t, a, b)
}

/// `t` stands in `s` at `a..b`, with nothing but whitespace around it and none
/// at its ends.
pub open spec fn is_core_at(s: Seq<char>, t: Seq<char>, a: int, b: int) -> bool {
    &&& 0 <= a <= b <= s.len()
    &&& t == s.subrange(a, b)
    &&& forall|i: int| 0 <= i < a || b <= i < s.len() ==> is_space(#[trigger] s[i])
    &&& a < b ==> !is_space(s[a]) && !is_space(s[b - 1])
}

proof fn lemma_trim_start(s: Seq<char>) -> (a: int)
    ensures
        0 <= a <= s.len(),
        trim_start(s) == s.skip(a),
        forall|i: int| 0 <= i < a ==> is_space(#[trigger] s[i]),
        a < s.len() ==> !is_space(s[a]),
    decreases s.len(),
{
    if s.len() > 0 && is_space(s[0]) {
        let r = lemma_trim_start(s.skip(1));
        assert(s.skip(1).skip(r) =~= s.skip(r + 1));
        assert forall|i: int| 0 <= i < r + 1 implies is_space(#[trigger] s[i]) by {
            if i > 0 {
                assert(s.skip(1)[i - 1] == s[i]);
            }
        }
        if r + 1 < s.len() {
            assert(s.skip(1)[r] == s[r + 1]);
        }
        r + 1
    } else {
        assert(s.skip(0) =~= s);
        0
    }
}

proof fn lemma_trim_end(s: Seq<char>) -> (b: int)
    ensures
        0 <= b <= s.len(),
        trim_end(s) == s.take(b),
        forall|i: int| b <= i < s.len() ==> is_space(#[trigger] s[i]),
        b > 0 ==> !is_space(s[b - 1]),
    decreases s.len(),
{
    if s.len() > 0 && is_space(s.last()) {
        let front = s.drop_last();
        let r = lemma_trim_end(front);
        assert(front.take(r) =~= s.take(r));
        assert forall|i: int| r <= i < s.len() implies is_space(#[trigger] s[i]) by {
            if i < front.len() {
                assert(front[i] == s[i]);
            }
        }
        if r > 0 {
            assert(front[r - 1] == s[r - 1]);
        }
        r
    } else {
        assert(s.take(s.len() as int) =~= s);
        s.len() as int
    }
}

/// Trimming takes off whitespace at both ends, all of it and nothing else.
pub proof fn trimming_takes_off_whitespace(s: Seq<char>)
    ensures
        is_core(s, trim(s)),
{
    let a = lemma_trim_start(s);
    let t = s.skip(a);
    let b = lemma_trim_end(t);
    assert(trim(s) =~= s.subrange(a, a + b));
    assert forall|i: int| 0 <= i < a || a + b <= i < s.len() implies is_space(#[trigger] s[i]) by {
        if i >= a + b {
            assert(t[i - a] == s[i]);
        }
    }
    if b > 0 {
        assert(t[0] == s[a]);
        assert(t[b - 1] == s[a + b - 1]);
    }
    assert(is_core_at(s, trim(s), a, a + b));
}

/// There is one such text only.
pub proof fn core_is_unique(s: Seq<char>, t: Seq<char>)
    requires
        is_core(s, t),
    ensures
        trim(s) == t,
{
    trimming_takes_off_whitespace(s);
    let (a, b) = choose|a: int, b: int| #[trigger] is_core_at(s, t, a, b);
    let (c, d) = choose|a: int, b: int| #[trigger] is_core_at(s, trim(s), a, b);
    if a < b {
        assert(!is_space(s[a]) && !is_space(s[b - 1]));
        assert(c <= a && b <= d);
        assert(!is_space(s[c]) && !is_space(s[d - 1]));
    } else {
        if c < d {
            assert(!is_space(s[c]));
        }
        assert(t =~= trim(s));
    }
}

/// Trimming what has been trimmed changes nothing.
pub proof fn trimming_is_idempotent(s: Seq<char>)
    ensures
        trim(trim(s)) == trim(s),
{
    trimming_takes_off_whitespace(s);
    let t = trim(s);
    let (a, b) = choose|a: int, b: int| #[trigger] is_core_at(s, t, a, b);
    assert(t.subrange(0, t.len() as int) =~= t);
    if t.len() > 0 {
        assert(t[0] == s[a] && t[t.len() - 1] == s[b - 1]);
    }
    assert(is_core_at(t, t, 0, t.len() as int));
    core_is_unique(t, t);
}

/// A text without whitespace at its ends is left as it is.
pub proof fn trimmed_text_is_kept(s: Seq<char>)
    requires
        s.len() > 0 ==> !is_space(s[0]) && !is_space(s.last()),
    ensures
        trim(s) == s,
{
    assert(s.subrange(0, s.len() as int) =~= s);
    assert(is_core_at(s, s, 0, s.len() as int));
    core_is_unique(s, s);
}

// ---------------------------------------------------------------------
// Words and lines
// ---------------------------------------------------------------------

/// A text without ASCII whitespace is one word, unless it is empty.
pub proof fn text_without_spaces_is_a_word(s: Seq<char>)
    requires
        forall|i: int| 0 <= i < s.len() ==> !is_ascii_space(#[trigger] s[i]),
    ensures
        words(s) == if s.len() == 0 {
            Seq::<Seq<char>>::empty()
        } else {
            seq![s]
        },
{
    if s.len() > 0 {
        lemma_whole_word(s);
        assert(s.take(s.len() as int) =~= s);
        assert(s.skip(s.len() as int) =~= Seq::<char>::empty());
        assert(words(s.skip(s.len() as int)) =~= Seq::<Seq<char>>::empty());
        assert(words(s) =~= seq![s]);
    }
}

proof fn lemma_whole_word(s: Seq<char>)
    requires
        forall|i: int| 0 <= i < s.len() ==> !is_ascii_space(#[trigger] s[i]),
    ensures
        word_len(s) == s.len(),
    decreases s.len(),
{
    if s.len() > 0 {
        let rest = s.skip(1);
        assert forall|i: int| 0 <= i < rest.len() implies !is_ascii_space(#[trigger] rest[i]) by {
            assert(rest[i] == s[i + 1]);
        }
        lemma_whole_word(rest);
    }
}

proof fn lemma_word_before(a: Seq<char>, c: char, b: Seq<char>)
    requires
        is_ascii_space(c),
    ensures
        word_len(a + seq![c] + b) == word_len(a),
        word_len(a) <= a.len(),
    decreases a.len(),
{
    let s = a + seq![c] + b;
    if a.len() == 0 {
        assert(s[0] == c);
    } else {
        assert(s[0] == a[0]);
        assert(s.skip(1) =~= a.skip(1) + seq![c] + b);
        lemma_word_before(a.skip(1), c, b);
    }
}

/// ASCII whitespace parts words: the words of two texts with such a character
/// between them are those of the first, then those of the second.
pub proof fn whitespace_parts_words(a: Seq<char>, c: char, b: Seq<char>)
    requires
        is_ascii_space(c),
    ensures
        words(a + seq![c] + b) == words(a) + words(b),
    decreases a.len(),
{
    let s = a + seq![c] + b;
    if a.len() == 0 {
        assert(s[0] == c);
        assert(s.skip(1) =~= b);
        assert(words(a) + words(b) =~= words(b));
    } else if is_ascii_space(a[0]) {
        assert(s[0] == a[0]);
        assert(s.skip(1) =~= a.skip(1) + seq![c] + b);
        whitespace_parts_words(a.skip(1), c, b);
    } else {
        assert(s[0] == a[0]);
        lemma_word_before(a, c, b);
        let n = word_len(a) as int;
        assert(n > 0);
        assert(s.take(n) =~= a.take(n));
        assert(s.skip(n) =~= a.skip(n) + seq![c] + b);
        whitespace_parts_words(a.skip(n), c, b);
        assert(words(s) =~= seq![a.take(n)] + (words(a.skip(n)) + words(b)));
        assert(words(a) + words(b) =~= words(s));
    }
}

/// A line feed parts lines: the pieces of two texts with one between them are
/// those of the first, then those of the second.
pub proof fn line_feed_parts_pieces(a: Seq<char>, b: Seq<char>)
    ensures
        pieces(a + seq!['\n'] + b) == pieces(a) + pieces(b),
        pieces(b).len() >= 1,
    decreases b.len(),
{
    let s = a + seq!['\n'] + b;
    if b.len() == 0 {
        assert(s.drop_last() =~= a);
        assert(pieces(s) =~= pieces(a) + pieces(b));
    } else {
        let front = b.drop_last();
        line_feed_parts_pieces(a, front);
        assert(s.drop_last() =~= a + seq!['\n'] + front);
        assert(s.last() == b.last());
        let p = pieces(a) + pieces(front);
        assert(p.last() == pieces(front).last());
        assert(p.drop_last() =~= pieces(a) + pieces(front).drop_last());
        assert(pieces(s) =~= pieces(a) + pieces(b));
    }
}

/// A text without a line feed is one piece.
pub proof fn text_without_line_feed_is_a_piece(s: Seq<char>)
    requires
        !s.contains('\n'),
    ensures
        pieces(s) == seq![s],
    decreases s.len(),
{
    if s.len() == 0 {
        assert(s =~= Seq::<char>::empty());
        assert(pieces(s) =~= seq![s]);
    } else {
        let front = s.drop_last();
        assert(s.contains(s.last())) by {
            assert(s[s.len() - 1] == s.last());
        }
        assert(!front.contains('\n')) by {
            if front.contains('\n') {
                let i = choose|i: int| 0 <= i < front.len() && front[i] == '\n';
                assert(s[i] == '\n');
            }
        }
        text_without_line_feed_is_a_piece(front);
        assert(front.push(s.last()) =~= s);
        assert(pieces(s) =~= seq![s]);
    }
}

// ---------------------------------------------------------------------
// Numbers
// ---------------------------------------------------------------------

/// The number that a digit stands for.
pub open spec fn digit_value(c: char) -> int {
    c as u32 - '0' as u32
}

/// The number that a row of digits stands for.
pub open spec fn digits_value(s: Seq<char>) -> int
    decreases s.len(),
{
    if s.len() == 0 {
        0
    } else {
        10 * digits_value(s.drop_last()) + digit_value(s.last())
    }
}

/// A number in decimal is a row of digits that stands for it, without a zero
/// in front unless it is 0.
pub proof fn decimal_stands_for_the_number(n: nat)
    ensures
        digits_value(decimal(n)) == n,
        forall|i: int| 0 <= i < decimal(n).len() ==> is_digit(#[trigger] decimal(n)[i]),
        decimal(n).len() >= 1,
        n > 0 ==> decimal(n)[0] != '0',
        n == 0 ==> decimal(n) == seq!['0'],
    decreases n,
{
    let s = decimal(n);
    if n < 10 {
        assert(s.drop_last() =~= Seq::<char>::empty());
        assert(digits_value(s.drop_last()) == 0);
        assert(digit_value(digit_char(n as int)) == n);
    } else {
        decimal_stands_for_the_number(n / 10);
        let t = decimal(n / 10);
        assert(s.drop_last() =~= t);
        assert(digit_value(digit_char((n % 10) as int)) == n % 10);
        assert(s[0] == t[0]);
        assert forall|i: int| 0 <= i < s.len() implies is_digit(#[trigger] s[i]) by {
            if i < t.len() {
                assert(s[i] == t[i]);
            }
        }
    }
}

/// Different numbers are written differently.
pub proof fn decimal_tells_numbers_apart(a: nat, b: nat)
    requires
        decimal(a) == decimal(b),
    ensures
        a == b,
{
    decimal_stands_for_the_number(a);
    decimal_stands_for_the_number(b);
}

/// Different numbers are written differently, whatever their signs are.
pub proof fn signed_decimal_tells_numbers_apart(a: int, b: int)
    requires
        signed_decimal(a) == signed_decimal(b),
    ensures
        a == b,
{
    let x = signed_decimal(a);
    let y = signed_decimal(b);
    if a < 0 {
        assert(x[0] == '-');
        assert(x.skip(1) =~= decimal((-a) as nat));
        decimal_stands_for_the_number((-a) as nat);
    } else {
        decimal_stands_for_the_number(a as nat);
        assert(is_digit(x[0]));
    }
    if b < 0 {
        assert(y[0] == '-');
        assert(y.skip(1) =~= decimal((-b) as nat));
        decimal_stands_for_the_number((-b) as nat);
    } else {
        decimal_stands_for_the_number(b as nat);
        assert(is_digit(y[0]));
    }
}

} // verus!
