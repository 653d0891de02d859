//! Byte scans that locate the final component and its extension.
use vstd::prelude::*;

use crate::model::{last_index_of, name_start, split_extension, trimmed_len, DOT, SEP};

verus! {

/// Index of the last `b` in `p[lo..hi]`.
pub fn rfind(p: &Vec<u8>, lo: usize, hi: usize, b: u8) -> (r: Option<usize>)
    requires
        lo <= hi <= p@.len(),
    ensures
        match r {
            None => last_index_of(p@.subrange(lo as int, hi as int), b) == -1,
            Some(i) => lo <= i < hi && last_index_of(p@.subrange(lo as int, hi as int), b) == i - lo,
        },
{
    let mut i: usize = hi;
    while i > lo
        invariant
            lo <= i <= hi <= p@.len(),
            last_index_of(p@.subrange(lo as int, hi as int), b) == last_index_of(
                p@.subrange(lo as int, i as int),
                b,
            ),
        decreases i,
    {
        if p[i - 1] == b {
            return Some(i - 1);
        }
        assert(p@.subrange(lo as int, i as int).drop_last() =~= p@.subrange(lo as int, i - 1));
        i = i - 1;
    }
    None
}

/// Length of `p` without its trailing separators and `.` components.
pub fn trim(p: &Vec<u8>) -> (n: usize)
    ensures
        n == trimmed_len(p@),
{
    let mut n: usize = p.len();
    assert(p@.subrange(0, n as int) =~= p@);
    loop
        invariant
            n <= p@.len(),
            trimmed_len(p@.subrange(0, n as int)) == trimmed_len(p@),
        decreases n,
    {
        let ghost q = p@.subrange(0, n as int);
        if n > 0 && (p[n - 1] == SEP || (p[n - 1] == DOT && (n == 1 || p[n - 2] == SEP))) {
            assert(q.drop_last() =~= p@.subrange(0, n - 1));
            n = n - 1;
        } else {
            return n;
        }
    }
}

/// Where the extension of `p` lies, and where the path is cut to remove it:
/// `(cut, start, end)` with the extension `p[start..end]` and the rest
/// `p[..cut]`.
pub fn find_extension(p: &Vec<u8>) -> (r: Option<(usize, usize, usize)>)
    ensures
        match split_extension(p@) {
            None => r is None,
            Some((rest, e)) => r matches Some((cut, start, end)) && cut <= start <= end
                <= p@.len() && rest == p@.subrange(0, cut as int) && e == p@.subrange(
                start as int,
                end as int,
            ),
        },
{
    let t = trim(p);
    proof {
        crate::model::lemma_trimmed_len_bounds(p@);
    }
    let k: usize = match rfind(p, 0, t, SEP) {
        None => 0,
        Some(i) => i + 1,
    };
    assert(k == name_start(p@));
    let ghost n = p@.subrange(k as int, t as int);
    if t == 0 {
        return None;
    }
    if t - k == 2 && p[k] == DOT && p[k + 1] == DOT {
        assert(n =~= seq![DOT, DOT]);
        return None;
    }
    match rfind(p, k, t, DOT) {
        None => None,
        Some(d) => {
            if d == k {
                None
            } else {
                assert(n.subrange(d - k + 1, n.len() as int) =~= p@.subrange(d + 1, t as int));
                Some((d, d + 1, t))
            }
        },
    }
}

} // verus!
