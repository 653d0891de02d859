//! The extension iterator.
use vstd::prelude::*;
use vstd::slice::slice_subrange;
use vstd::slice::slice_to_vec;
use vstd::utf8::{decode_utf8, encode_utf8, valid_utf8};

use crate::model::{advance, extensions, lemma_split_extension_shrinks, split_extension};
use crate::scan::find_extension;
use crate::text::{decode_lossy, lemma_text_path_gives_text, utf8_lossy};

verus! {

/// The extensions of a path, outermost first, each converted lossily to
/// text. Each call of [`Extensions::next`] removes one from the path that is
/// left.
#[derive(Clone, Debug, PartialEq, Eq, PartialOrd, Ord, Hash)]
pub struct Extensions {
    path: Vec<u8>,
}

impl View for Extensions {
    type V = Seq<u8>;

    /// The bytes of the path that is left.
    closed spec fn view(&self) -> Seq<u8> {
        self.path@
    }
}

impl Extensions {
    /// The extensions of `path`, taken as its UTF-8 bytes.
    pub fn new(path: &str) -> (r: Self)
        ensures
            r@ == encode_utf8(path@),
    {
        Extensions { path: slice_to_vec(path.as_bytes()) }
    }

    /// The extensions of a path given as raw bytes, which need not be UTF-8.
    pub fn from_bytes(path: &[u8]) -> (r: Self)
        ensures
            r@ == path@,
    {
        Extensions { path: slice_to_vec(path) }
    }

    /// The outermost extension that is left, which is then removed; `None`
    /// once no extension is left, and the path is then kept as it is.
    pub fn next(&mut self) -> (r: Option<String>)
        ensures
            final(self)@ == advance(old(self)@),
            match split_extension(old(self)@) {
                None => r is None,
                Some((_, e)) => r matches Some(s) && s@ == utf8_lossy(e) && (valid_utf8(e)
                    ==> s@ == decode_utf8(e)),
            },
    {
        match find_extension(&self.path) {
            None => None,
            Some((cut, start, end)) => {
                let s = decode_lossy(slice_subrange(self.path.as_slice(), start, end));
                self.path.truncate(cut);
                Some(s)
            },
        }
    }

    /// Every extension that is left, outermost first.
    pub fn collect_vec(self) -> (r: Vec<String>)
        ensures
            r@.len() == extensions(self@).len(),
            forall|i: int| 0 <= i < r@.len() ==> r@[i]@ == utf8_lossy(extensions(self@)[i]),
            valid_utf8(self@) ==> forall|i: int|
                0 <= i < r@.len() ==> r@[i]@ == decode_utf8(extensions(self@)[i]),
    {
        let mut it = self;
        let mut out: Vec<String> = Vec::new();
        let ghost mut done: Seq<Seq<u8>> = seq![];
        loop
            invariant
                done + extensions(it@) == extensions(self@),
                out@.len() == done.len(),
                forall|i: int| 0 <= i < out@.len() ==> out@[i]@ == utf8_lossy(done[i]),
                valid_utf8(self@) ==> valid_utf8(it@),
                valid_utf8(self@) ==> forall|i: int|
                    0 <= i < out@.len() ==> out@[i]@ == decode_utf8(done[i]),
            decreases it@.len(),
        {
            let ghost before = it@;
            proof {
                lemma_split_extension_shrinks(before);
                if valid_utf8(self@) {
                    lemma_text_path_gives_text(before);
                }
            }
            match it.next() {
                None => {
                    assert(done =~= extensions(self@));
                    return out;
                },
                Some(s) => {
                    let ghost (_, e) = split_extension(before)->0;
                    proof {
                        assert(done.push(e) + extensions(it@) =~= done + extensions(before));
                        done = done.push(e);
                    }
                    out.push(s);
                },
            }
        }
    }
}

/// Every extension of `path`, outermost first, as text.
pub fn extensions_lossy(path: &str) -> (r: Vec<String>)
    ensures
        r@.len() == extensions(encode_utf8(path@)).len(),
        forall|i: int|
            0 <= i < r@.len() ==> r@[i]@ == decode_utf8(extensions(encode_utf8(path@))[i]),
{
    proof {
        vstd::utf8::encode_utf8_valid_utf8(path@);
    }
    Extensions::new(path).collect_vec()
}

} // verus!
