//! The mathematical model of paths, file names and extensions.
use vstd::prelude::*;

verus! {

/// The path separator `/`.
pub const SEP: u8 = 0x2f;

/// The extension separator `.`.
pub const DOT: u8 = 0x2e;

/// Index of the last occurrence of `b` in `s`, or -1 when there is none.
pub open spec fn last_index_of(s: Seq<u8>, b: u8) -> int
    decreases s.len(),
{
    if s.len() == 0 {
        -1
    } else if s.last() == b {
        s.len() - 1
    } else {
        last_index_of(s.drop_last(), b)
    }
}

/// Length of the prefix of `p` that is left once trailing separators and
/// trailing `.` components are dropped; the final component ends there.
pub open spec fn trimmed_len(p: Seq<u8>) -> nat
    decreases p.len(),
{
    if p.len() == 0 {
        0
    } else if p.last() == SEP {
        trimmed_len(p.drop_last())
    } else if p.last() == DOT && (p.len() == 1 || p[p.len() - 2] == SEP) {
        trimmed_len(p.drop_last())
    } else {
        p.len()
    }
}

/// Index at which the final component of `p` starts.
pub open spec fn name_start(p: Seq<u8>) -> int {
    last_index_of(p.subrange(0, trimmed_len(p) as int), SEP) + 1
}

/// The file name of `p`: its final component, unless the path has none or
/// it is the parent directory `..`.
pub open spec fn file_name(p: Seq<u8>) -> Option<Seq<u8>> {
    let n = p.subrange(name_start(p), trimmed_len(p) as int);
    if trimmed_len(p) == 0 || n == seq![DOT, DOT] {
        None
    } else {
        Some(n)
    }
}

/// The extension of `p` and the path that is left once it is removed.
///
/// The extension is what follows the last `.` of the file name, where that
/// `.` is not the name's first byte. Removing it cuts the path right before
/// that `.`.
pub open spec fn split_extension(p: Seq<u8>) -> Option<(Seq<u8>, Seq<u8>)> {
    match file_name(p) {
        None => None,
        Some(n) => {
            let j = last_index_of(n, DOT);
            if j <= 0 {
                None
            } else {
                Some((p.subrange(0, name_start(p) + j), n.subrange(j + 1, n.len() as int)))
            }
        },
    }
}

/// `last_index_of` is an index of `b`, with no `b` after it, or -1.
pub proof fn lemma_last_index_of_bounds(s: Seq<u8>, b: u8)
    ensures
        -1 <= last_index_of(s, b) < s.len(),
        last_index_of(s, b) >= 0 ==> s[last_index_of(s, b)] == b,
        forall|i: int| last_index_of(s, b) < i < s.len() ==> s[i] != b,
    decreases s.len(),
{
    if s.len() > 0 && s.last() != b {
        lemma_last_index_of_bounds(s.drop_last(), b);
        assert(forall|i: int| 0 <= i < s.len() - 1 ==> s.drop_last()[i] == s[i]);
    }
}

/// Trimming never lengthens a path.
pub proof fn lemma_trimmed_len_bounds(p: Seq<u8>)
    ensures
        trimmed_len(p) <= p.len(),
    decreases p.len(),
{
    if p.len() > 0 {
        lemma_trimmed_len_bounds(p.drop_last());
    }
}

/// The byte right after the trimmed prefix, if any, is a separator or a `.`.
pub proof fn lemma_trimmed_len_stops_at_ascii(p: Seq<u8>)
    ensures
        trimmed_len(p) <= p.len(),
        trimmed_len(p) < p.len() ==> p[trimmed_len(p) as int] == SEP || p[trimmed_len(
            p,
        ) as int] == DOT,
    decreases p.len(),
{
    if p.len() > 0 && trimmed_len(p) < p.len() {
        lemma_trimmed_len_stops_at_ascii(p.drop_last());
    }
    lemma_trimmed_len_bounds(p);
}

/// Removing an extension leaves a strictly shorter path.
pub proof fn lemma_split_extension_shrinks(p: Seq<u8>)
    ensures
        split_extension(p) matches Some((rest, e)) ==> rest.len() + e.len() < p.len(),
{
    lemma_trimmed_len_bounds(p);
    let t = trimmed_len(p) as int;
    lemma_last_index_of_bounds(p.subrange(0, t), SEP);
    if let Some(n) = file_name(p) {
        lemma_last_index_of_bounds(n, DOT);
    }
}

/// Every extension of `p`, outermost first.
pub open spec fn extensions(p: Seq<u8>) -> Seq<Seq<u8>>
    decreases p.len(),
    via extensions_decreases
{
    match split_extension(p) {
        None => seq![],
        Some((rest, e)) => seq![e] + extensions(rest),
    }
}

/// The path that is left after one advance of the iterator: the extension
/// removed, or the path unchanged once there is none.
pub open spec fn advance(p: Seq<u8>) -> Seq<u8> {
    match split_extension(p) {
        None => p,
        Some((rest, _)) => rest,
    }
}

/// The path that is left after `k` advances.
pub open spec fn advance_n(p: Seq<u8>, k: nat) -> Seq<u8>
    decreases k,
{
    if k == 0 {
        p
    } else {
        advance_n(advance(p), (k - 1) as nat)
    }
}

/// A path made of a stem followed by `.e` for each `e` of `exts`, in order.
pub open spec fn dotted(exts: Seq<Seq<u8>>) -> Seq<u8>
    decreases exts.len(),
{
    if exts.len() == 0 {
        seq![]
    } else {
        dotted(exts.drop_last()) + seq![DOT] + exts.last()
    }
}

#[via_fn]
proof fn extensions_decreases(p: Seq<u8>) {
    lemma_split_extension_shrinks(p);
}

} // verus!
