//! Text primitives: what the rules ask of a string, stated over `Seq<char>`.
use vstd::prelude::*;
use vstd::utf8::*;

verus! {

/// The Unicode `White_Space` characters.
pub open spec fn is_space(c: char) -> bool {
    let u = c as u32;
    ||| 0x09 <= u <= 0x0d
    ||| u == 0x20
    ||| u == 0x85
    ||| u == 0xa0
    ||| u == 0x1680
    ||| 0x2000 <= u <= 0x200a
    ||| u == 0x2028
    ||| u == 0x2029
    ||| u == 0x202f
    ||| u == 0x205f
    ||| u == 0x3000
}

/// ASCII whitespace: space, tab, line feed, form feed, carriage return.
pub open spec fn is_ascii_space(c: char) -> bool {
    c == ' ' || c == '\t' || c == '\n' || c == '\r' || c as u32 == 0x0c
}

pub open spec fn is_digit(c: char) -> bool {
    '0' <= c <= '9'
}

pub open spec fn is_upper(c: char) -> bool {
    'A' <= c <= 'Z'
}

/// ASCII letters and digits.
pub open spec fn is_alnum(c: char) -> bool {
    is_digit(c) || is_upper(c) || 'a' <= c <= 'z'
}

/// ASCII letters, digits and the underscore.
pub open spec fn is_ident(c: char) -> bool {
    is_alnum(c) || c == '_'
}

pub fn space(c: char) -> (r: bool)
    ensures
        r == is_space(c),
{
    let u: u32 = c as u32;
    (0x09 <= u && u <= 0x0d) || u == 0x20 || u == 0x85 || u == 0xa0 || u == 0x1680 || (0x2000 <= u
        && u <= 0x200a) || u == 0x2028 || u == 0x2029 || u == 0x202f || u == 0x205f || u == 0x3000
}

pub fn ascii_space(c: char) -> (r: bool)
    ensures
        r == is_ascii_space(c),
{
    c == ' ' || c == '\t' || c == '\n' || c == '\r' || c as u32 == 0x0c
}

pub fn digit(c: char) -> (r: bool)
    ensures
        r == is_digit(c),
{
    '0' <= c && c <= '9'
}

pub fn upper(c: char) -> (r: bool)
    ensures
        r == is_upper(c),
{
    'A' <= c && c <= 'Z'
}

pub fn alnum(c: char) -> (r: bool)
    ensures
        r == is_alnum(c),
{
    digit(c) || upper(c) || ('a' <= c && c <= 'z')
}

pub fn ident(c: char) -> (r: bool)
    ensures
        r == is_ident(c),
{
    alnum(c) || c == '_'
}

/// The characters of `s`.
pub fn chars(s: &str) -> (r: Vec<char>)
    ensures
        r@ == s@,
{
    let mut out: Vec<char> = Vec::new();
    for c in it: s.chars()
        invariant
            it.seq() == s@,
            out@ == s@.take(it.index() as int),
    {
        out.push(c);
        assert(s@.take(it.index() + 1) == s@.take(it.index() as int).push(c));
    }
    assert(s@.take(s@.len() as int) == s@);
    out
}

/// Whether two strings hold the same text.
pub fn same(a: &str, b: &str) -> (r: bool)
    ensures
        r == (a@ == b@),
{
    a.to_owned() == b.to_owned()
}

/// Whether two character vectors hold the same text.
pub fn same_chars(a: &Vec<char>, b: &Vec<char>) -> (r: bool)
    ensures
        r == (a@ == b@),
{
    if a.len() != b.len() {
        return false;
    }
    let mut i: usize = 0;
    while i < a.len()
        invariant
            i <= a.len(),
            a.len() == b.len(),
            a@.take(i as int) == b@.take(i as int),
        decreases a.len() - i,
    {
        if a[i] != b[i] {
            assert(a@[i as int] != b@[i as int]);
            return false;
        }
        assert(a@.take(i + 1) == a@.take(i as int).push(a@[i as int]));
        assert(b@.take(i + 1) == b@.take(i as int).push(b@[i as int]));
        i = i + 1;
    }
    assert(a@.take(i as int) == a@);
    assert(b@.take(i as int) == b@);
    true
}

// ---------------------------------------------------------------------
// Trimming
// ---------------------------------------------------------------------

/// `s` without its leading whitespace.
pub open spec fn trim_start(s: Seq<char>) -> Seq<char>
    decreases s.len(),
{
    if s.len() > 0 && is_space(s[0]) {
        trim_start(s.skip(1))
    } else {
        s
    }
}

/// `s` without its trailing whitespace.
pub open spec fn trim_end(s: Seq<char>) -> Seq<char>
    decreases s.len(),
{
    if s.len() > 0 && is_space(s.last()) {
        trim_end(s.drop_last())
    } else {
        s
    }
}

/// `s` without the whitespace around it.
pub open spec fn trim(s: Seq<char>) -> Seq<char> {
    trim_end(trim_start(s))
}

pub fn trimmed_start(s: &str) -> (r: &str)
    ensures
        r@ == trim_start(s@),
{
    let v = chars(s);
    let mut i: usize = 0;
    assert(v@.skip(0) == v@);
    while i < v.len() && space(v[i])
        invariant
            i <= v.len(),
            v@ == s@,
            trim_start(v@) == trim_start(v@.skip(i as int)),
        decreases v.len() - i,
    {
        assert(v@.skip(i as int).skip(1) == v@.skip(i + 1));
        i = i + 1;
    }
    assert(v@.skip(i as int) == v@.subrange(i as int, v@.len() as int));
    s.substring_char(i, v.len())
}

pub fn trimmed_end_chars(v: &Vec<char>) -> (n: usize)
    ensures
        n <= v.len(),
        v@.take(n as int) == trim_end(v@),
{
    let mut n: usize = v.len();
    assert(v@.take(n as int) == v@);
    while n > 0 && space(v[n - 1])
        invariant
            n <= v.len(),
            trim_end(v@) == trim_end(v@.take(n as int)),
        decreases n,
    {
        assert(v@.take(n as int).drop_last() == v@.take(n - 1));
        n = n - 1;
    }
    n
}

pub fn trimmed_end(s: &str) -> (r: &str)
    ensures
        r@ == trim_end(s@),
{
    let v = chars(s);
    let n: usize = trimmed_end_chars(&v);
    assert(v@.take(n as int) == v@.subrange(0, n as int));
    s.substring_char(0, n)
}

pub fn trimmed(s: &str) -> (r: &str)
    ensures
        r@ == trim(s@),
{
    trimmed_end(trimmed_start(s))
}

// ---------------------------------------------------------------------
// Prefixes, suffixes, searching
// ---------------------------------------------------------------------

/// Whether `p` stands in `s` at position `i`.
pub open spec fn occurs_at(s: Seq<char>, p: Seq<char>, i: int) -> bool {
    0 <= i && i + p.len() <= s.len() && s.subrange(i, i + p.len()) == p
}

/// The first position at or after `from` where `p` stands in `s`.
pub open spec fn find_from(s: Seq<char>, p: Seq<char>, from: int) -> Option<int>
    decreases s.len() + 1 - from,
{
    if from < 0 || from + p.len() > s.len() {
        None
    } else if occurs_at(s, p, from) {
        Some(from)
    } else {
        find_from(s, p, from + 1)
    }
}

/// Whether `p` stands anywhere in `s`.
pub open spec fn contains(s: Seq<char>, p: Seq<char>) -> bool {
    exists|i: int| occurs_at(s, p, i)
}

pub fn occurs(s: &Vec<char>, p: &Vec<char>, i: usize) -> (r: bool)
    ensures
        r == occurs_at(s@, p@, i as int),
{
    if p.len() > s.len() || i > s.len() - p.len() {
        return false;
    }
    let mut k: usize = 0;
    while k < p.len()
        invariant
            k <= p.len(),
            i + p.len() <= s.len(),
            forall|j: int| 0 <= j < k ==> s@[i + j] == p@[j],
        decreases p.len() - k,
    {
        if s[i + k] != p[k] {
            assert(s@.subrange(i as int, i + p@.len())[k as int] != p@[k as int]);
            return false;
        }
        k = k + 1;
    }
    assert(s@.subrange(i as int, i + p@.len()) == p@);
    true
}

pub fn find_chars(s: &Vec<char>, p: &Vec<char>, from: usize) -> (r: Option<usize>)
    ensures
        r is Some <==> find_from(s@, p@, from as int) is Some,
        r matches Some(i) ==> find_from(s@, p@, from as int) == Some(i as int) && occurs_at(s@, p@, i as int) && i >= from,
{
    let mut i: usize = from;
    while p.len() <= s.len() && i <= s.len() - p.len()
        invariant
            from <= i,
            find_from(s@, p@, from as int) == find_from(s@, p@, i as int),
        decreases s.len() + 1 - i,
    {
        if occurs(s, p, i) {
            return Some(i);
        }
        assert(p@.len() == 0 ==> s@.subrange(i as int, i as int) =~= p@);
        i = i + 1;
    }
    None
}

pub proof fn lemma_find_from(s: Seq<char>, p: Seq<char>, from: int)
    requires
        0 <= from,
    ensures
        find_from(s, p, from) matches Some(i) ==> from <= i && occurs_at(s, p, i),
        find_from(s, p, from) is None ==> forall|i: int| from <= i ==> !occurs_at(s, p, i),
    decreases s.len() + 1 - from,
{
    if from + p.len() <= s.len() && !occurs_at(s, p, from) {
        lemma_find_from(s, p, from + 1);
    }
}

pub fn has(s: &str, p: &str) -> (r: bool)
    ensures
        r == contains(s@, p@),
{
    let v = chars(s);
    let q = chars(p);
    proof {
        lemma_find_from(s@, p@, 0);
    }
    find_chars(&v, &q, 0).is_some()
}

pub fn has_char(s: &str, c: char) -> (r: bool)
    ensures
        r == s@.contains(c),
{
    let v = chars(s);
    let mut i: usize = 0;
    while i < v.len()
        invariant
            i <= v.len(),
            v@ == s@,
            forall|j: int| 0 <= j < i ==> v@[j] != c,
        decreases v.len() - i,
    {
        if v[i] == c {
            assert(s@[i as int] == c);
            return true;
        }
        i = i + 1;
    }
    false
}

pub fn has_prefix(s: &str, p: &str) -> (r: bool)
    ensures
        r == p@.is_prefix_of(s@),
{
    let v = chars(s);
    let q = chars(p);
    let r = occurs(&v, &q, 0);
    assert(r == p@.is_prefix_of(s@));
    r
}

pub fn has_suffix(s: &str, p: &str) -> (r: bool)
    ensures
        r == p@.is_suffix_of(s@),
{
    let v = chars(s);
    let q = chars(p);
    if q.len() > v.len() {
        return false;
    }
    let r = occurs(&v, &q, v.len() - q.len());
    assert(r == p@.is_suffix_of(s@));
    r
}

/// What follows the prefix `p`, if `s` starts with it.
pub open spec fn strip_prefix(s: Seq<char>, p: Seq<char>) -> Option<Seq<char>> {
    if p.is_prefix_of(s) {
        Some(s.skip(p.len() as int))
    } else {
        None
    }
}

/// What precedes the suffix `p`, if `s` ends with it.
pub open spec fn strip_suffix(s: Seq<char>, p: Seq<char>) -> Option<Seq<char>> {
    if p.is_suffix_of(s) {
        Some(s.take(s.len() - p.len()))
    } else {
        None
    }
}

/// The text of an optional string.
pub open spec fn opt_view(o: Option<&str>) -> Option<Seq<char>> {
    match o {
        Some(s) => Some(s@),
        None => None,
    }
}

/// The text of an optional owned string.
pub open spec fn opt_string(o: Option<String>) -> Option<Seq<char>> {
    match o {
        Some(s) => Some(s@),
        None => None,
    }
}

pub fn without_prefix<'a>(s: &'a str, p: &str) -> (r: Option<&'a str>)
    ensures
        opt_view(r) == strip_prefix(s@, p@),
{
    if !has_prefix(s, p) {
        return None;
    }
    let n: usize = p.unicode_len();
    let m: usize = s.unicode_len();
    assert(s@.skip(n as int) == s@.subrange(n as int, m as int));
    Some(s.substring_char(n, m))
}

pub fn without_suffix<'a>(s: &'a str, p: &str) -> (r: Option<&'a str>)
    ensures
        opt_view(r) == strip_suffix(s@, p@),
{
    if !has_suffix(s, p) {
        return None;
    }
    let n: usize = p.unicode_len();
    let m: usize = s.unicode_len();
    assert(s@.take(m - n) == s@.subrange(0, m - n));
    Some(s.substring_char(0, m - n))
}

// ---------------------------------------------------------------------
// Words
// ---------------------------------------------------------------------

/// The number of leading characters of `s` that are not ASCII whitespace.
pub open spec fn word_len(s: Seq<char>) -> nat
    decreases s.len(),
{
    if s.len() > 0 && !is_ascii_space(s[0]) {
        1 + word_len(s.skip(1))
    } else {
        0
    }
}

/// The maximal runs of `s` free of ASCII whitespace, in order.
pub open spec fn words(s: Seq<char>) -> Seq<Seq<char>>
    decreases s.len(),
{
    if s.len() == 0 {
        Seq::empty()
    } else if is_ascii_space(s[0]) {
        words(s.skip(1))
    } else {
        let n = word_len(s);
        if 0 < n <= s.len() {
            seq![s.take(n as int)] + words(s.skip(n as int))
        } else {
            Seq::empty()
        }
    }
}

/// The texts of a list of string slices.
pub open spec fn texts(v: Seq<&str>) -> Seq<Seq<char>> {
    v.map_values(|s: &str| s@)
}

pub proof fn lemma_word_len(s: Seq<char>, n: int)
    requires
        0 <= n <= s.len(),
        forall|j: int| 0 <= j < n ==> !is_ascii_space(s[j]),
        n == s.len() || is_ascii_space(s[n]),
    ensures
        word_len(s) == n,
    decreases n,
{
    if n > 0 {
        assert(forall|j: int| 0 <= j < n - 1 ==> s.skip(1)[j] == s[j + 1]);
        lemma_word_len(s.skip(1), n - 1);
    }
}

pub fn split_words<'a>(s: &'a str) -> (r: Vec<&'a str>)
    ensures
        texts(r@) == words(s@),
{
    let v = chars(s);
    let n: usize = v.len();
    let mut out: Vec<&'a str> = Vec::new();
    let mut i: usize = 0;
    assert(v@.skip(0) == v@);
    assert(texts(out@) + words(v@.skip(0)) == words(s@));
    while i < n
        invariant
            n == v.len(),
            i <= n,
            v@ == s@,
            texts(out@) + words(v@.skip(i as int)) == words(s@),
        decreases n - i,
    {
        if ascii_space(v[i]) {
            assert(v@.skip(i as int).skip(1) == v@.skip(i + 1));
            i = i + 1;
        } else {
            let mut j: usize = i;
            while j < n && !ascii_space(v[j])
                invariant
                    n == v.len(),
                    i <= j <= n,
                    forall|k: int| i <= k < j ==> !is_ascii_space(v@[k]),
                decreases n - j,
            {
                j = j + 1;
            }
            let w = s.substring_char(i, j);
            let ghost rest = v@.skip(i as int);
            proof {
                lemma_word_len(rest, j - i);
                assert(rest.take(j - i) == w@);
                assert(rest.skip(j - i) == v@.skip(j as int));
            }
            let ghost before = out@;
            out.push(w);
            proof {
                assert(texts(out@) == texts(before).push(w@));
                assert(texts(before).push(w@) + words(v@.skip(j as int)) == texts(before) + (seq![w@] + words(
                    v@.skip(j as int),
                )));
            }
            i = j;
        }
    }
    assert(v@.skip(n as int).len() == 0);
    assert(texts(out@) + words(v@.skip(n as int)) == texts(out@));
    out
}

// ---------------------------------------------------------------------
// Lines
// ---------------------------------------------------------------------

/// The pieces of `s` between line feeds.
pub open spec fn pieces(s: Seq<char>) -> Seq<Seq<char>>
    decreases s.len(),
{
    if s.len() == 0 {
        seq![Seq::empty()]
    } else {
        let p = pieces(s.drop_last());
        if s.last() == '\n' {
            p.push(Seq::empty())
        } else {
            p.drop_last().push(p.last().push(s.last()))
        }
    }
}

/// The lines of `s`: its pieces, without an empty last one.
pub open spec fn lines(s: Seq<char>) -> Seq<Seq<char>> {
    let p = pieces(s);
    if p.last().len() == 0 {
        p.drop_last()
    } else {
        p
    }
}

/// `ls` without trailing whitespace, joined by line feeds.
pub open spec fn join_trimmed(ls: Seq<Seq<char>>) -> Seq<char>
    decreases ls.len(),
{
    if ls.len() == 0 {
        Seq::empty()
    } else if ls.len() == 1 {
        trim_end(ls[0])
    } else {
        join_trimmed(ls.drop_last()) + seq!['\n'] + trim_end(ls.last())
    }
}

/// `s` with the whitespace at the end of each of its lines dropped.
pub open spec fn trimmed_lines(s: Seq<char>) -> Seq<char> {
    join_trimmed(lines(s))
}

/// The texts of a list of character vectors.
pub open spec fn char_texts(v: Seq<Vec<char>>) -> Seq<Seq<char>> {
    v.map_values(|s: Vec<char>| s@)
}

pub fn split_lines(s: &str) -> (r: Vec<Vec<char>>)
    ensures
        char_texts(r@) == lines(s@),
{
    let v = chars(s);
    let mut out: Vec<Vec<char>> = Vec::new();
    let mut cur: Vec<char> = Vec::new();
    let mut i: usize = 0;
    assert(char_texts(out@).push(cur@) == pieces(v@.take(0)));
    while i < v.len()
        invariant
            i <= v.len(),
            v@ == s@,
            char_texts(out@).push(cur@) == pieces(v@.take(i as int)),
        decreases v.len() - i,
    {
        let ghost p = pieces(v@.take(i as int));
        assert(v@.take(i + 1).drop_last() == v@.take(i as int));
        assert(p.last() == cur@);
        assert(p.drop_last() == char_texts(out@));
        if v[i] == '\n' {
            let ghost before = out@;
            let ghost c = cur@;
            out.push(cur);
            cur = Vec::new();
            assert(char_texts(out@) == char_texts(before).push(c));
        } else {
            cur.push(v[i]);
        }
        assert(char_texts(out@).push(cur@) == pieces(v@.take(i + 1)));
        i = i + 1;
    }
    assert(v@.take(i as int) == s@);
    let ghost p = pieces(s@);
    assert(p.last() == cur@);
    assert(p.drop_last() == char_texts(out@));
    if cur.len() > 0 {
        let ghost before = out@;
        let ghost c = cur@;
        out.push(cur);
        assert(char_texts(out@) == char_texts(before).push(c));
    }
    out
}

pub fn trim_lines(s: &str) -> (r: Vec<char>)
    ensures
        r@ == trimmed_lines(s@),
{
    let ls = split_lines(s);
    let ghost t = char_texts(ls@);
    let mut out: Vec<char> = Vec::new();
    let mut i: usize = 0;
    while i < ls.len()
        invariant
            i <= ls.len(),
            t == char_texts(ls@),
            out@ == join_trimmed(t.take(i as int)),
        decreases ls.len() - i,
    {
        let ghost before = out@;
        if i > 0 {
            out.push('\n');
        }
        let ghost start = out@;
        let n: usize = trimmed_end_chars(&ls[i]);
        let mut k: usize = 0;
        while k < n
            invariant
                i < ls.len(),
                k <= n <= ls@[i as int].len(),
                out@ == start + ls@[i as int]@.take(k as int),
            decreases n - k,
        {
            out.push(ls[i][k]);
            assert(ls@[i as int]@.take(k + 1) == ls@[i as int]@.take(k as int).push(ls@[i as int]@[k as int]));
            k = k + 1;
        }
        proof {
            let cut = t.take(i + 1);
            assert(cut.drop_last() == t.take(i as int));
            assert(cut.last() == ls@[i as int]@);
            if i == 0 {
                assert(out@ == trim_end(cut[0]));
            } else {
                assert(start == before + seq!['\n']);
            }
        }
        i = i + 1;
    }
    assert(t.take(i as int) == t);
    out
}

// ---------------------------------------------------------------------
// Byte ranges of a source text
// ---------------------------------------------------------------------

/// The length of `s` in bytes of UTF-8.
pub open spec fn byte_len(s: Seq<char>) -> nat {
    encode_utf8(s).len()
}

/// Whether `start..end` is a range of bytes of `s` that cuts no character.
pub open spec fn is_byte_range(s: Seq<char>, start: int, end: int) -> bool {
    let b = encode_utf8(s);
    0 <= start <= end <= b.len() && is_char_boundary(b, start) && is_char_boundary(b, end)
}

/// The text at the bytes `start..end` of `s`.
pub open spec fn byte_slice(s: Seq<char>, start: int, end: int) -> Option<Seq<char>> {
    if is_byte_range(s, start, end) {
        Some(decode_utf8(encode_utf8(s).subrange(start, end)))
    } else {
        None
    }
}

pub fn slice_bytes<'a>(s: &'a str, start: usize, end: usize) -> (r: Option<&'a str>)
    ensures
        opt_view(r) == byte_slice(s@, start as int, end as int),
        r matches Some(t) ==> encode_utf8(t@) == encode_utf8(s@).subrange(start as int, end as int),
{
    broadcast use {encode_utf8_valid_utf8, encode_utf8_decode_utf8};
    if start > end || end > s.as_bytes().len() {
        return None;
    }
    if !s.is_char_boundary(start) || !s.is_char_boundary(end) {
        return None;
    }
    let (head, _tail) = s.split_at(end);
    proof {
        lemma_boundary_in_prefix(encode_utf8(s@), start as int, end as int);
    }
    let (_skip, mid) = head.split_at(start);
    assert(encode_utf8(mid@) == encode_utf8(s@).subrange(start as int, end as int));
    Some(mid)
}

/// A character boundary of `b` stays one in a prefix of `b` that ends on one.
pub proof fn lemma_boundary_in_prefix(b: Seq<u8>, i: int, end: int)
    requires
        valid_utf8(b),
        0 <= i <= end <= b.len(),
        is_char_boundary(b, i),
        is_char_boundary(b, end),
    ensures
        valid_utf8(b.subrange(0, end)),
        is_char_boundary(b.subrange(0, end), i),
{
    broadcast use {valid_utf8_split, is_char_boundary_start_end_of_seq, is_char_boundary_iff_is_leading_byte};
    let p = b.subrange(0, end);
    assert(valid_utf8(p));
    if i < end {
        assert(p[i] == b[i]);
        is_char_boundary_iff_is_leading_byte(b, i);
        is_char_boundary_iff_is_leading_byte(p, i);
    } else {
        is_char_boundary_start_end_of_seq(p);
    }
}

// ---------------------------------------------------------------------
// Order
// ---------------------------------------------------------------------

/// Whether `a` comes before `b` in the order of their code points.
pub open spec fn before(a: Seq<char>, b: Seq<char>) -> bool
    decreases a.len(),
{
    if b.len() == 0 {
        false
    } else if a.len() == 0 {
        true
    } else if a[0] != b[0] {
        (a[0] as u32) < (b[0] as u32)
    } else {
        before(a.skip(1), b.skip(1))
    }
}

pub fn comes_before(a: &str, b: &str) -> (r: bool)
    ensures
        r == before(a@, b@),
{
    let v = chars(a);
    let w = chars(b);
    let mut i: usize = 0;
    assert(v@.skip(0) == a@);
    assert(w@.skip(0) == b@);
    while i < v.len() && i < w.len() && v[i] == w[i]
        invariant
            i <= v.len(),
            i <= w.len(),
            before(a@, b@) == before(v@.skip(i as int), w@.skip(i as int)),
        decreases v.len() - i,
    {
        assert(v@.skip(i as int).skip(1) == v@.skip(i + 1));
        assert(w@.skip(i as int).skip(1) == w@.skip(i + 1));
        i = i + 1;
    }
    if i >= w.len() {
        return false;
    }
    if i >= v.len() {
        return true;
    }
    (v[i] as u32) < (w[i] as u32)
}

// ---------------------------------------------------------------------
// Numbers
// ---------------------------------------------------------------------

pub open spec fn digit_char(d: int) -> char {
    if d == 0 {
        '0'
    } else if d == 1 {
        '1'
    } else if d == 2 {
        '2'
    } else if d == 3 {
        '3'
    } else if d == 4 {
        '4'
    } else if d == 5 {
        '5'
    } else if d == 6 {
        '6'
    } else if d == 7 {
        '7'
    } else if d == 8 {
        '8'
    } else {
        '9'
    }
}

/// `n` in decimal.
pub open spec fn decimal(n: nat) -> Seq<char>
    decreases n,
{
    if n < 10 {
        seq![digit_char(n as int)]
    } else {
        decimal(n / 10).push(digit_char((n % 10) as int))
    }
}

/// `n` in decimal, with a sign where it is negative.
pub open spec fn signed_decimal(n: int) -> Seq<char> {
    if n < 0 {
        seq!['-'] + decimal((-n) as nat)
    } else {
        decimal(n as nat)
    }
}

fn digit_str(d: u128) -> (r: &'static str)
    requires
        d < 10,
    ensures
        r@ == seq![digit_char(d as int)],
{
    proof {
        reveal_strlit("0");
        reveal_strlit("1");
        reveal_strlit("2");
        reveal_strlit("3");
        reveal_strlit("4");
        reveal_strlit("5");
        reveal_strlit("6");
        reveal_strlit("7");
        reveal_strlit("8");
        reveal_strlit("9");
    }
    let r = match d {
        0 => "0",
        1 => "1",
        2 => "2",
        3 => "3",
        4 => "4",
        5 => "5",
        6 => "6",
        7 => "7",
        8 => "8",
        _ => "9",
    };
    assert(r@ =~= seq![digit_char(d as int)]);
    r
}

pub fn number(n: u128) -> (r: String)
    ensures
        r@ == decimal(n as nat),
    decreases n,
{
    if n < 10 {
        String::from_str(digit_str(n))
    } else {
        let mut s = number(n / 10);
        let d = digit_str(n % 10);
        let ghost head = s@;
        s.append(d);
        assert(s@ =~= head.push(digit_char((n % 10) as int)));
        s
    }
}

pub fn count(n: usize) -> (r: String)
    ensures
        r@ == decimal(n as nat),
{
    number(n as u128)
}

pub fn signed_number(n: i64) -> (r: String)
    ensures
        r@ == signed_decimal(n as int),
{
    if n >= 0 {
        number(n as u128)
    } else {
        let m: u128 = (-(n as i128)) as u128;
        proof {
            reveal_strlit("-");
            assert("-"@ =~= seq!['-']);
        }
        let mut s = String::from_str("-");
        s.append(number(m).as_str());
        s
    }
}

} // verus!
