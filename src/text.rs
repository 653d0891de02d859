//! Lossy conversion of extension bytes to text.
use vstd::prelude::*;
use vstd::utf8::{
    decode_utf8, is_char_boundary_iff_not_is_continuation_byte, is_char_boundary_start_end_of_seq,
    valid_utf8, valid_utf8_split,
};

use crate::model::{
    file_name, last_index_of, lemma_last_index_of_bounds, lemma_trimmed_len_stops_at_ascii,
    name_start, split_extension, trimmed_len, DOT,
};

verus! {

/// The text that `String::from_utf8_lossy` makes of `b`: each ill-formed
/// run of bytes becomes U+FFFD, the rest is decoded.
pub uninterp spec fn utf8_lossy(b: Seq<u8>) -> Seq<char>;

/// Relies on `String::from_utf8_lossy`: it never fails, its result depends
/// on the bytes alone, and on valid UTF-8 it is exactly the decoded text.
#[verifier::external_body]
pub(crate) fn decode_lossy(b: &[u8]) -> (r: String)
    ensures
        r@ == utf8_lossy(b@),
        valid_utf8(b@) ==> r@ == decode_utf8(b@),
{
    String::from_utf8_lossy(b).into_owned()
}

/// Cutting valid UTF-8 right before an ASCII byte, or at its end, leaves
/// valid UTF-8 on both sides.
proof fn lemma_split_before_ascii(p: Seq<u8>, i: int)
    requires
        valid_utf8(p),
        0 <= i <= p.len(),
        i < p.len() ==> p[i] < 0x80,
    ensures
        valid_utf8(p.subrange(0, i)),
        valid_utf8(p.subrange(i, p.len() as int)),
{
    is_char_boundary_start_end_of_seq(p);
    if i < p.len() {
        is_char_boundary_iff_not_is_continuation_byte(p, i);
    }
    valid_utf8_split(p, i);
}

/// Valid UTF-8 that starts with an ASCII byte stays valid without it.
proof fn lemma_drop_ascii_first(q: Seq<u8>)
    requires
        valid_utf8(q),
        q.len() > 0,
        q[0] < 0x80,
    ensures
        valid_utf8(q.subrange(1, q.len() as int)),
{
}

/// A path that is text yields extensions that are text, and leaves a path
/// that is text: on such a path every extension comes out exactly, with
/// nothing replaced.
pub proof fn lemma_text_path_gives_text(p: Seq<u8>)
    requires
        valid_utf8(p),
    ensures
        split_extension(p) matches Some((rest, e)) ==> valid_utf8(rest) && valid_utf8(e),
{
    if let Some((rest, e)) = split_extension(p) {
        let t = trimmed_len(p) as int;
        let k = name_start(p);
        let n = file_name(p)->0;
        let j = last_index_of(n, DOT);
        lemma_trimmed_len_stops_at_ascii(p);
        lemma_last_index_of_bounds(p.subrange(0, t), crate::model::SEP);
        lemma_last_index_of_bounds(n, DOT);
        lemma_split_before_ascii(p, t);
        let pt = p.subrange(0, t);
        assert(pt[k + j] == DOT);
        lemma_split_before_ascii(pt, k + j);
        assert(rest =~= pt.subrange(0, k + j));
        let q = pt.subrange(k + j, t);
        lemma_drop_ascii_first(q);
        assert(e =~= q.subrange(1, q.len() as int));
    }
}

} // verus!
