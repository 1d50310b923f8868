//! Splitting paths into segments and joining segments back together.
//!
//! A path or a pattern is read as its sequence of nonempty `'/'`-separated
//! segments: leading, trailing and repeated delimiters contribute nothing.

use vstd::prelude::*;

verus! {

/// Splits `s` on `'/'`, dropping empty pieces; `cur` holds the characters of
/// the piece read so far.
pub open spec fn split_rec(s: Seq<char>, cur: Seq<char>) -> Seq<Seq<char>>
    decreases s.len(),
{
    if s.len() == 0 {
        if cur.len() > 0 {
            seq![cur]
        } else {
            Seq::empty()
        }
    } else if s[0] == '/' {
        (if cur.len() > 0 {
            seq![cur]
        } else {
            Seq::empty()
        }) + split_rec(s.skip(1), Seq::empty())
    } else {
        split_rec(s.skip(1), cur.push(s[0]))
    }
}

/// The segments of a path: its nonempty `'/'`-separated pieces, in order.
pub open spec fn path_segments(s: Seq<char>) -> Seq<Seq<char>> {
    split_rec(s, Seq::empty())
}

/// The views of a vector of segment strings.
pub open spec fn seg_views(v: Seq<String>) -> Seq<Seq<char>> {
    v.map_values(|t: String| t@)
}

/// Segments joined back into one path, with `'/'` between them.
pub open spec fn join_segments(segs: Seq<Seq<char>>) -> Seq<char>
    decreases segs.len(),
{
    if segs.len() == 0 {
        Seq::empty()
    } else if segs.len() == 1 {
        segs[0]
    } else {
        segs[0] + seq!['/'] + join_segments(segs.skip(1))
    }
}

/// Every segment a split produces is nonempty.
pub proof fn lemma_split_rec_nonempty(s: Seq<char>, cur: Seq<char>)
    ensures
        forall|i: int| 0 <= i < split_rec(s, cur).len() ==> split_rec(s, cur)[i].len() > 0,
    decreases s.len(),
{
    if s.len() == 0 {
    } else if s[0] == '/' {
        lemma_split_rec_nonempty(s.skip(1), Seq::empty());
        let pre = if cur.len() > 0 {
            seq![cur]
        } else {
            Seq::<Seq<char>>::empty()
        };
        assert forall|i: int| 0 <= i < split_rec(s, cur).len() implies split_rec(s, cur)[i].len()
            > 0 by {
            assert(split_rec(s, cur) == pre + split_rec(s.skip(1), Seq::empty()));
            if i < pre.len() {
                assert(split_rec(s, cur)[i] == cur);
            } else {
                assert(split_rec(s, cur)[i] == split_rec(s.skip(1), Seq::empty())[i - pre.len()]);
            }
        };
    } else {
        lemma_split_rec_nonempty(s.skip(1), cur.push(s[0]));
        assert forall|i: int| 0 <= i < split_rec(s, cur).len() implies split_rec(s, cur)[i].len()
            > 0 by {
            assert(split_rec(s, cur)[i] == split_rec(s.skip(1), cur.push(s[0]))[i]);
        };
    }
}

/// Appending a segment extends the join by a delimiter and that segment.
pub proof fn lemma_join_push(segs: Seq<Seq<char>>, last: Seq<char>)
    ensures
        join_segments(segs.push(last)) == if segs.len() == 0 {
            last
        } else {
            join_segments(segs) + seq!['/'] + last
        },
    decreases segs.len(),
{
    if segs.len() == 0 {
        assert(segs.push(last)[0] == last);
    } else {
        assert(segs.push(last).skip(1) =~= segs.skip(1).push(last));
        lemma_join_push(segs.skip(1), last);
        if segs.len() == 1 {
            assert(join_segments(segs.push(last)) =~= segs[0] + seq!['/'] + last);
            assert(join_segments(segs) + seq!['/'] + last =~= segs[0] + seq!['/'] + last);
        } else {
            assert(join_segments(segs.push(last)) =~= segs[0] + seq!['/'] + join_segments(
                segs.skip(1),
            ) + seq!['/'] + last);
            assert(join_segments(segs) + seq!['/'] + last =~= segs[0] + seq!['/'] + join_segments(
                segs.skip(1),
            ) + seq!['/'] + last);
        }
    }
}

/// Character-for-character equality of two string slices.
pub fn str_eq(a: &str, b: &str) -> (r: bool)
    ensures
        r == (a@ == b@),
{
    let n: usize = a.unicode_len();
    if n != b.unicode_len() {
        return false;
    }
    let mut i: usize = 0;
    while i < n
        invariant
            n == a@.len(),
            n == b@.len(),
            0 <= i <= n,
            forall|k: int| 0 <= k < i ==> a@[k] == b@[k],
        decreases n - i,
    {
        if a.get_char(i) != b.get_char(i) {
            return false;
        }
        i += 1;
    }
    proof {
        assert(a@ =~= b@);
    }
    true
}

/// Splits a path or pattern string into its nonempty segments.
pub fn split_path(s: &str) -> (segs: Vec<String>)
    ensures
        seg_views(segs@) == path_segments(s@),
{
    let n: usize = s.unicode_len();
    let mut segs: Vec<String> = Vec::new();
    let mut start: usize = 0;
    let mut i: usize = 0;
    proof {
        assert(s@.skip(0) =~= s@);
        assert(s@.subrange(0, 0) =~= Seq::<char>::empty());
        assert(seg_views(segs@) =~= Seq::<Seq<char>>::empty());
        assert(seg_views(segs@) + path_segments(s@) =~= path_segments(s@));
    }
    while i < n
        invariant
            n == s@.len(),
            0 <= start <= i <= n,
            path_segments(s@) == seg_views(segs@) + split_rec(
                s@.skip(i as int),
                s@.subrange(start as int, i as int),
            ),
        decreases n - i,
    {
        let ghost cur = s@.subrange(start as int, i as int);
        proof {
            assert(s@.skip(i as int)[0] == s@[i as int]);
            assert(s@.skip(i as int).skip(1) =~= s@.skip(i as int + 1));
        }
        if s.get_char(i) == '/' {
            if i > start {
                let piece = s.substring_char(start, i).to_owned();
                proof {
                    assert(seg_views(segs@.push(piece)) =~= seg_views(segs@) + seq![piece@]);
                }
                segs.push(piece);
            }
            start = i + 1;
            proof {
                assert(s@.subrange(start as int, start as int) =~= Seq::<char>::empty());
            }
        } else {
            proof {
                assert(cur.push(s@[i as int]) =~= s@.subrange(start as int, i as int + 1));
            }
        }
        i += 1;
    }
    proof {
        assert(s@.skip(n as int) =~= Seq::<char>::empty());
    }
    if n > start {
        let piece = s.substring_char(start, n).to_owned();
        proof {
            assert(seg_views(segs@.push(piece)) =~= seg_views(segs@) + seq![piece@]);
        }
        segs.push(piece);
    }
    proof {
        assert(seg_views(segs@) =~= seg_views(segs@) + Seq::<Seq<char>>::empty());
    }
    segs
}

/// Joins `segs[start..]` back into one path string, `'/'` between segments.
pub fn join_tail(segs: &Vec<String>, start: usize) -> (r: String)
    requires
        start <= segs.len(),
    ensures
        r@ == join_segments(seg_views(segs@).skip(start as int)),
{
    let mut r = String::new();
    let mut k: usize = start;
    while k < segs.len()
        invariant
            start <= k <= segs.len(),
            r@ == join_segments(seg_views(segs@).subrange(start as int, k as int)),
        decreases segs.len() - k,
    {
        proof {
            lemma_join_push(seg_views(segs@).subrange(start as int, k as int), segs@[k as int]@);
            assert(seg_views(segs@).subrange(start as int, k as int + 1) =~= seg_views(
                segs@,
            ).subrange(start as int, k as int).push(segs@[k as int]@));
            reveal_strlit("/");
            assert("/"@ =~= seq!['/']);
        }
        if k > start {
            r.append("/");
        }
        r.append(segs[k].as_str());
        k += 1;
    }
    proof {
        assert(seg_views(segs@).skip(start as int) =~= seg_views(segs@).subrange(
            start as int,
            segs.len() as int,
        ));
    }
    r
}

} // verus!
