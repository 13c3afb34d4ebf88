//! Sink-path handling: splitting a sink name on `"::"` into segments,
//! rejoining segments, and plain string comparison.
//!
//! A sink name such as `"web::checks::check::status"` is read as a sequence
//! of segments separated by `"::"`. Splitting scans left to right and
//! consumes the leftmost separator first, exactly as `str::split` does, so
//! every name splits into at least one segment and the segments joined back
//! with the separator give the original name.

use vstd::prelude::*;
use vstd::string::StrSliceExecFns;
use vstd::string::StringExecFns;

verus! {

/// The two-character segment separator.
pub open spec fn path_sep() -> Seq<char> {
    seq![':', ':']
}

/// Splitting continued from a partially read segment `cur`: the leftmost
/// separator of `s` closes the current segment, and the scan goes on after
/// it with an empty one.
pub open spec fn split_rec(s: Seq<char>, cur: Seq<char>) -> Seq<Seq<char>>
    decreases s.len(),
{
    if s.len() >= 2 && s[0] == ':' && s[1] == ':' {
        seq![cur] + split_rec(s.skip(2), Seq::empty())
    } else if s.len() == 0 {
        seq![cur]
    } else {
        split_rec(s.skip(1), cur.push(s[0]))
    }
}

/// The segments of a sink name, in order.
pub open spec fn split_path(s: Seq<char>) -> Seq<Seq<char>> {
    split_rec(s, Seq::empty())
}

/// The views of a vector of owned segments.
pub open spec fn seg_views(parts: Seq<String>) -> Seq<Seq<char>> {
    parts.map_values(|p: String| p@)
}

/// Segments rejoined with the separator.
pub open spec fn join_segs(parts: Seq<Seq<char>>) -> Seq<char>
    recommends
        parts.len() >= 1,
    decreases parts.len(),
{
    if parts.len() <= 1 {
        parts[0]
    } else {
        parts[0] + path_sep() + join_segs(parts.skip(1))
    }
}

/// A split always yields at least one segment.
pub proof fn lemma_split_rec_len(s: Seq<char>, cur: Seq<char>)
    ensures
        split_rec(s, cur).len() >= 1,
    decreases s.len(),
{
    if s.len() >= 2 && s[0] == ':' && s[1] == ':' {
        lemma_split_rec_len(s.skip(2), Seq::empty());
    } else if s.len() == 0 {
    } else {
        lemma_split_rec_len(s.skip(1), cur.push(s[0]));
    }
}

/// Joining what a split produced restores the scanned text.
pub proof fn lemma_split_join(s: Seq<char>, cur: Seq<char>)
    ensures
        join_segs(split_rec(s, cur)) == cur + s,
    decreases s.len(),
{
    if s.len() >= 2 && s[0] == ':' && s[1] == ':' {
        lemma_split_rec_len(s.skip(2), Seq::empty());
        lemma_split_join(s.skip(2), Seq::empty());
        let rest = split_rec(s.skip(2), Seq::empty());
        let whole = seq![cur] + rest;
        assert(whole.len() >= 2);
        assert(whole[0] == cur);
        assert(whole.skip(1) =~= rest);
        assert(Seq::empty() + s.skip(2) =~= s.skip(2));
        assert(cur + path_sep() + s.skip(2) =~= cur + s);
    } else if s.len() == 0 {
        assert(join_segs(seq![cur]) == cur);
        assert(cur + s =~= cur);
    } else {
        lemma_split_join(s.skip(1), cur.push(s[0]));
        assert(cur.push(s[0]) + s.skip(1) =~= cur + s);
    }
}

/// Joining after one more segment appends a separator and that segment.
pub proof fn lemma_join_push(parts: Seq<Seq<char>>, seg: Seq<char>)
    requires
        parts.len() >= 1,
    ensures
        join_segs(parts.push(seg)) == join_segs(parts) + path_sep() + seg,
    decreases parts.len(),
{
    if parts.len() == 1 {
        let whole = parts.push(seg);
        assert(whole[0] == parts[0]);
        assert(whole.skip(1) =~= seq![seg]);
        assert(join_segs(seq![seg]) == seg);
    } else {
        lemma_join_push(parts.skip(1), seg);
        let whole = parts.push(seg);
        assert(whole[0] == parts[0]);
        assert(whole.skip(1) =~= parts.skip(1).push(seg));
    }
}

/// True exactly when the two strings hold the same characters.
pub fn str_eq(a: &str, b: &str) -> (r: bool)
    ensures
        r == (a@ == b@),
{
    let a_len = a.unicode_len();
    let b_len = b.unicode_len();
    if a_len != b_len {
        return false;
    }
    let mut i: usize = 0;
    while i < a_len
        invariant
            a_len == a@.len(),
            a_len == b@.len(),
            i <= a_len,
            forall|j: int| 0 <= j < i ==> a@[j] == b@[j],
        decreases a_len - i,
    {
        if a.get_char(i) != b.get_char(i) {
            return false;
        }
        i = i + 1;
    }
    proof {
        assert(a@ =~= b@);
    }
    true
}

/// The segments of a sink name, as owned strings.
pub fn split_path_exec(s: &str) -> (parts: Vec<String>)
    ensures
        seg_views(parts@) == split_path(s@),
        parts@.len() >= 1,
{
    let n = s.unicode_len();
    let mut parts: Vec<String> = Vec::new();
    let mut seg_start: usize = 0;
    let mut i: usize = 0;
    proof {
        assert(s@.skip(0) =~= s@);
        assert(s@.subrange(0, 0) =~= Seq::<char>::empty());
        assert(seg_views(parts@) + split_rec(s@, Seq::empty()) =~= split_rec(s@, Seq::empty()));
    }
    while i < n
        invariant
            n == s@.len(),
            seg_start <= i <= n,
            split_path(s@) == seg_views(parts@) + split_rec(
                s@.skip(i as int),
                s@.subrange(seg_start as int, i as int),
            ),
        decreases n - i,
    {
        if i + 1 < n && s.get_char(i) == ':' && s.get_char(i + 1) == ':' {
            let ghost old_parts = parts@;
            let seg = s.substring_char(seg_start, i).to_owned();
            parts.push(seg);
            proof {
                let rem = s@.skip(i as int);
                let cur = s@.subrange(seg_start as int, i as int);
                assert(rem.len() >= 2);
                assert(rem[0] == s@[i as int]);
                assert(rem[1] == s@[i as int + 1]);
                assert(rem.skip(2) =~= s@.skip(i as int + 2));
                assert(seg_views(parts@) =~= seg_views(old_parts).push(cur));
                assert(seg_views(old_parts) + (seq![cur] + split_rec(
                    s@.skip(i as int + 2),
                    Seq::empty(),
                )) =~= seg_views(parts@) + split_rec(s@.skip(i as int + 2), Seq::empty()));
                assert(s@.subrange(i as int + 2, i as int + 2) =~= Seq::<char>::empty());
            }
            seg_start = i + 2;
            i = i + 2;
        } else {
            proof {
                let rem = s@.skip(i as int);
                let cur = s@.subrange(seg_start as int, i as int);
                assert(rem.len() == n - i >= 1);
                assert(rem[0] == s@[i as int]);
                if rem.len() >= 2 {
                    assert(rem[1] == s@[i as int + 1]);
                }
                assert(rem.skip(1) =~= s@.skip(i as int + 1));
                assert(cur.push(s@[i as int]) =~= s@.subrange(seg_start as int, i as int + 1));
            }
            i = i + 1;
        }
    }
    let ghost old_parts = parts@;
    let seg = s.substring_char(seg_start, n).to_owned();
    parts.push(seg);
    proof {
        let cur = s@.subrange(seg_start as int, n as int);
        assert(s@.skip(n as int).len() == 0);
        assert(seg_views(parts@) =~= seg_views(old_parts).push(cur));
        assert(seg_views(old_parts) + seq![cur] =~= seg_views(parts@));
    }
    parts
}

/// Segments rejoined with the separator, as an owned string.
pub fn join_segs_exec(parts: &Vec<String>, up_to: usize) -> (r: String)
    requires
        1 <= up_to <= parts@.len(),
    ensures
        r@ == join_segs(seg_views(parts@).take(up_to as int)),
{
    let mut r: String = parts[0].clone();
    let mut k: usize = 1;
    proof {
        assert(seg_views(parts@).take(1)[0] == parts@[0]@);
    }
    while k < up_to
        invariant
            1 <= k <= up_to <= parts@.len(),
            r@ == join_segs(seg_views(parts@).take(k as int)),
        decreases up_to - k,
    {
        let ghost before = r@;
        r.append("::");
        r.append(parts[k].as_str());
        proof {
            lemma_join_push(seg_views(parts@).take(k as int), parts@[k as int]@);
            assert(seg_views(parts@).take(k as int).push(parts@[k as int]@) =~= seg_views(
                parts@,
            ).take(k as int + 1));
            reveal_strlit("::");
            assert("::"@ =~= path_sep());
            assert(before + "::"@ + parts@[k as int]@ =~= join_segs(
                seg_views(parts@).take(k as int + 1),
            ));
        }
        k = k + 1;
    }
    r
}

/// The first `"::"`-delimited segment of a sink name.
pub fn first_segment(s: &str) -> (r: String)
    ensures
        r@ == split_path(s@)[0],
{
    let parts = split_path_exec(s);
    let r = parts[0].clone();
    proof {
        assert(seg_views(parts@)[0] == parts@[0]@);
    }
    r
}

} // verus!
