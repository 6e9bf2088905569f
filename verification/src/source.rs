//! The lines of a source text by their byte offsets.
use vstd::prelude::*;
use vstd::utf8::*;

use crate::text::{byte_len, trim_start};

verus! {

/// The byte ranges between the line feeds of `b`.
pub open spec fn line_ranges(b: Seq<u8>) -> Seq<(int, int)>
    decreases b.len(),
{
    if b.len() == 0 {
        seq![(0int, 0int)]
    } else {
        let p = line_ranges(b.drop_last());
        let n = b.len() as int;
        if b.last() == 0x0a {
            p.push((n, n))
        } else {
            p.drop_last().push((p.last().0, n))
        }
    }
}

/// The byte ranges of the lines of a text.
pub open spec fn source_lines(source: Seq<char>) -> Seq<(int, int)> {
    line_ranges(encode_utf8(source))
}

pub open spec fn range_views(v: Seq<(usize, usize)>) -> Seq<(int, int)> {
    v.map_values(|p: (usize, usize)| (p.0 as int, p.1 as int))
}

/// Lines lie inside the text, one after another.
pub proof fn lemma_line_ranges(b: Seq<u8>)
    ensures
        line_ranges(b).len() >= 1,
        line_ranges(b).last().1 == b.len(),
        forall|i: int|
            0 <= i < line_ranges(b).len() ==> 0 <= (#[trigger] line_ranges(b)[i]).0 <= line_ranges(
                b,
            )[i].1 <= b.len(),
    decreases b.len(),
{
    if b.len() > 0 {
        lemma_line_ranges(b.drop_last());
    }
}

/// The byte ranges of the lines of a text.
pub fn lines_of(source: &str) -> (r: Vec<(usize, usize)>)
    ensures
        range_views(r@) == source_lines(source@),
{
    let b = source.as_bytes();
    let mut out: Vec<(usize, usize)> = Vec::new();
    let mut start: usize = 0;
    let mut i: usize = 0;
    assert(range_views(out@).push((0int, 0int)) =~= line_ranges(b@.take(0)));
    while i < b.len()
        invariant
            i <= b@.len(),
            b@.len() == b.len(),
            range_views(out@).push((start as int, i as int)) == line_ranges(b@.take(i as int)),
        decreases b@.len() - i,
    {
        let ghost p = line_ranges(b@.take(i as int));
        proof {
            assert(b@.take(i + 1).drop_last() =~= b@.take(i as int));
            assert(p.last() == (start as int, i as int));
            assert(p.drop_last() =~= range_views(out@));
        }
        if b[i] == 0x0a {
            let ghost before = range_views(out@);
            out.push((start, i));
            assert(range_views(out@) =~= before.push((start as int, i as int)));
            start = i + 1;
        }
        i = i + 1;
        assert(range_views(out@).push((start as int, i as int)) =~= line_ranges(b@.take(i as int)));
    }
    assert(b@.take(i as int) =~= b@);
    let ghost before = range_views(out@);
    out.push((start, i));
    assert(range_views(out@) =~= before.push((start as int, i as int)));
    out
}

/// Trimming does not make a text longer.
pub proof fn lemma_trim_start_bytes(s: Seq<char>)
    ensures
        byte_len(trim_start(s)) <= byte_len(s),
    decreases s.len(),
{
    if s.len() > 0 && crate::text::is_space(s[0]) {
        assert(s.skip(1) =~= s.drop_first());
        lemma_trim_start_bytes(s.skip(1));
    }
}

/// A text has at least as many bytes as characters.
pub proof fn lemma_bytes_at_least(s: Seq<char>)
    ensures
        byte_len(s) >= s.len(),
    decreases s.len(),
{
    if s.len() > 0 {
        lemma_bytes_at_least(s.drop_first());
    }
}

/// Lines are what stands between line feeds: the first starts at the start,
/// each ends where a line feed stands and the next starts after it, the last
/// ends at the end, and no line feed stands in one.
pub proof fn lines_stand_between_line_feeds(b: Seq<u8>)
    ensures
        line_ranges(b).len() >= 1,
        line_ranges(b)[0].0 == 0,
        line_ranges(b)[line_ranges(b).len() - 1].1 == b.len(),
        forall|i: int|
            0 <= i < line_ranges(b).len() - 1 ==> ({
                let r = #[trigger] line_ranges(b)[i];
                0 <= r.0 <= r.1 < b.len() && b[r.1] == 0x0a && line_ranges(b)[i + 1].0 == r.1 + 1
            }),
        forall|i: int, k: int|
            #![trigger line_ranges(b)[i], b[k]]
            0 <= i < line_ranges(b).len() && line_ranges(b)[i].0 <= k < line_ranges(b)[i].1 ==> b[k]
                != 0x0a,
    decreases b.len(),
{
    if b.len() > 0 {
        let a = b.drop_last();
        let n = b.len() as int;
        let p = line_ranges(a);
        let q = line_ranges(b);
        lines_stand_between_line_feeds(a);
        lemma_line_ranges(a);
        lemma_line_ranges(b);
        assert forall|i: int| 0 <= i < p.len() - 1 implies q[i] == #[trigger] p[i] by {}
        assert(p[p.len() - 1].1 == n - 1);
        assert forall|i: int| 0 <= i < q.len() - 1 implies ({
            let r = #[trigger] q[i];
            0 <= r.0 <= r.1 < b.len() && b[r.1] == 0x0a && q[i + 1].0 == r.1 + 1
        }) by {
            if i < p.len() - 1 {
                let r = p[i];
                assert(q[i] == r);
                assert(0 <= r.0 <= r.1 < a.len() && a[r.1] == 0x0a && p[i + 1].0 == r.1 + 1);
                assert(b[r.1] == a[r.1]);
                assert(q[i + 1].0 == p[i + 1].0);
            } else {
                assert(b.last() == 0x0a);
                assert(q[i] == p[i]);
                assert(q[i + 1] == (n, n));
            }
        }
        assert forall|i: int, k: int|
            #![trigger q[i], b[k]]
            0 <= i < q.len() && q[i].0 <= k < q[i].1 implies b[k] != 0x0a by {
            assert(0 <= q[i].0 <= q[i].1 <= n);
            if k < n - 1 {
                assert(b[k] == a[k]);
                if i < p.len() {
                    assert(p[i].0 == q[i].0);
                    assert(p[i].0 <= k < p[i].1);
                }
            } else if b.last() == 0x0a {
                if i < p.len() {
                    assert(q[i] == p[i]);
                    assert(p[i].1 <= a.len());
                }
            }
        }
    }
}

} // verus!
