//! Containment of one canonical path in another, segment by segment.

use crate::text::{chars_of, lemma_span, same_chars, slice, span, views};
use vstd::prelude::*;

verus! {

/// The non-empty pieces of `p` between slashes, in order.
pub open spec fn segments(p: Seq<char>) -> Seq<Seq<char>>
    decreases p.len(),
{
    if p.len() == 0 {
        Seq::empty()
    } else {
        let n = span(p, '/');
        let rest = if 0 <= n < p.len() {
            segments(p.skip(n + 1))
        } else {
            Seq::empty()
        };
        if n > 0 {
            seq![p.take(n)] + rest
        } else {
            rest
        }
    }
}

/// Whether `p` starts at the file system's root.
pub open spec fn is_absolute(p: Seq<char>) -> bool {
    p.len() > 0 && p[0] == '/'
}

/// Whether `path` is `root` or lies below it: both start at the file
/// system's root or neither does, and the segments of `root` are the first
/// segments of `path`.
pub open spec fn within(path: Seq<char>, root: Seq<char>) -> bool {
    &&& is_absolute(path) == is_absolute(root)
    &&& segments(root).len() <= segments(path).len()
    &&& segments(path).take(segments(root).len() as int) == segments(root)
}

/// Splits a path into its segments.
pub fn split_segments(p: &Vec<char>) -> (out: Vec<Vec<char>>)
    ensures
        views(out@) == segments(p@),
{
    let mut out: Vec<Vec<char>> = Vec::new();
    let mut start: usize = 0;
    assert(p@.skip(0) == p@);
    assert(views(out@) + segments(p@) == segments(p@));
    while start < p.len()
        invariant
            start <= p.len(),
            segments(p@) == views(out@) + segments(p@.skip(start as int)),
        decreases p.len() - start,
    {
        let mut end: usize = start;
        while end < p.len() && p[end] != '/'
            invariant
                start <= end <= p.len(),
                forall|k: int| start <= k < end ==> p@[k] != '/',
            decreases p.len() - end,
        {
            end = end + 1;
        }
        let ghost rest = p@.skip(start as int);
        let ghost before = views(out@);
        proof {
            assert forall|k: int| 0 <= k < end - start implies rest[k] != '/' by {
                assert(rest[k] == p@[k + start]);
            }
            lemma_span(rest, '/', end - start);
            if end < p.len() {
                assert(rest.skip(end - start + 1) == p@.skip(end + 1));
            }
            assert(rest.take(end - start) == p@.subrange(start as int, end as int));
        }
        let next: usize = if end < p.len() {
            end + 1
        } else {
            end
        };
        proof {
            if end >= p.len() {
                assert(p@.skip(next as int).len() == 0);
                assert(segments(p@.skip(next as int)) == Seq::<Seq<char>>::empty());
            }
        }
        if end > start {
            let piece = slice(p, start, end);
            assert(segments(rest) == seq![piece@] + segments(p@.skip(next as int)));
            out.push(piece);
            assert(views(out@) == before + seq![piece@]);
        } else {
            assert(segments(rest) == segments(p@.skip(next as int)));
        }
        start = next;
    }
    assert(segments(p@.skip(start as int)) == Seq::<Seq<char>>::empty());
    assert(views(out@) + Seq::<Seq<char>>::empty() == views(out@));
    out
}

/// Whether `path` is `root` or lies below it.
pub fn lies_within(path: &str, root: &str) -> (r: bool)
    ensures
        r == within(path@, root@),
{
    let p = chars_of(path);
    let q = chars_of(root);
    let p_abs = p.len() > 0 && p[0] == '/';
    let q_abs = q.len() > 0 && q[0] == '/';
    if p_abs != q_abs {
        return false;
    }
    let ps = split_segments(&p);
    let qs = split_segments(&q);
    if qs.len() > ps.len() {
        return false;
    }
    let mut i: usize = 0;
    while i < qs.len()
        invariant
            i <= qs.len() <= ps.len(),
            views(ps@) == segments(path@),
            views(qs@) == segments(root@),
            forall|k: int| 0 <= k < i ==> ps@[k]@ == qs@[k]@,
        decreases qs.len() - i,
    {
        if !same_chars(&ps[i], &qs[i]) {
            proof {
                let a = segments(path@);
                let b = segments(root@);
                assert(a == views(ps@));
                assert(b == views(qs@));
                assert(a.take(b.len() as int)[i as int] == ps@[i as int]@);
                assert(b[i as int] == qs@[i as int]@);
            }
            return false;
        }
        i = i + 1;
    }
    assert(views(ps@).take(qs.len() as int) =~= views(qs@));
    true
}

} // verus!
