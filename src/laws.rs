//! Laws of the extension sequence.
use vstd::prelude::*;

use crate::model::{
    advance, advance_n, dotted, extensions, file_name, last_index_of, lemma_last_index_of_bounds,
    name_start, split_extension, trimmed_len, DOT, SEP,
};

verus! {

/// Appending bytes other than `x` does not move the last `x`.
proof fn lemma_last_index_of_append(a: Seq<u8>, b: Seq<u8>, x: u8)
    requires
        !b.contains(x),
    ensures
        last_index_of(a + b, x) == last_index_of(a, x),
    decreases b.len(),
{
    if b.len() > 0 {
        assert((a + b).drop_last() =~= a + b.drop_last());
        assert(b.drop_last().contains(x) ==> b.contains(x));
        assert((a + b).last() == b[b.len() - 1]);
        lemma_last_index_of_append(a, b.drop_last(), x);
    } else {
        assert(a + b =~= a);
    }
}

/// `dotted(exts)` holds no separator when no extension does, and it is
/// empty or ends in a `.` or in a byte of its last extension.
proof fn lemma_dotted_no_sep(exts: Seq<Seq<u8>>)
    requires
        forall|i: int| 0 <= i < exts.len() ==> !(#[trigger] exts[i]).contains(SEP),
    ensures
        !dotted(exts).contains(SEP),
    decreases exts.len(),
{
    if exts.len() > 0 {
        let d = dotted(exts.drop_last());
        lemma_dotted_no_sep(exts.drop_last());
        let l = exts.last();
        assert(!l.contains(SEP));
        let full = d + seq![DOT] + l;
        assert forall|i: int| 0 <= i < full.len() implies full[i] != SEP by {
            if i < d.len() {
                assert(full[i] == d[i]);
            } else if i > d.len() {
                assert(full[i] == l[i - d.len() - 1]);
            }
        }
    }
}

/// A path whose file name holds no `.` has no extension.
pub proof fn lemma_no_dot_no_extension(p: Seq<u8>)
    requires
        file_name(p) matches Some(n) ==> !n.contains(DOT),
    ensures
        extensions(p) == Seq::<Seq<u8>>::empty(),
{
    if let Some(n) = file_name(p) {
        lemma_last_index_of_bounds(n, DOT);
    }
}

/// A path whose file name is a `.` followed by bytes that hold no `.` (a
/// hidden name) has no extension: the leading `.` is no separator.
pub proof fn lemma_hidden_name_no_extension(p: Seq<u8>, name: Seq<u8>)
    requires
        file_name(p) == Some(seq![DOT] + name),
        !name.contains(DOT),
    ensures
        extensions(p) == Seq::<Seq<u8>>::empty(),
{
    let n = seq![DOT] + name;
    lemma_last_index_of_bounds(n, DOT);
    let j = last_index_of(n, DOT);
    if j > 0 {
        assert(name[j - 1] == n[j]);
    }
}

/// A path `dir + stem + ".e1" + ... + ".eN"`, with `dir` empty or ending in
/// a separator and a non-empty stem, yields `eN, ..., e1`: the last
/// extension first, `N` of them in all.
pub proof fn lemma_dotted_path_extensions(dir: Seq<u8>, stem: Seq<u8>, exts: Seq<Seq<u8>>)
    requires
        dir.len() == 0 || dir.last() == SEP,
        stem.len() > 0,
        !stem.contains(SEP),
        !stem.contains(DOT),
        forall|i: int|
            0 <= i < exts.len() ==> !(#[trigger] exts[i]).contains(SEP) && !exts[i].contains(DOT),
    ensures
        extensions(dir + stem + dotted(exts)) == exts.reverse(),
    decreases exts.len(),
{
    let name = stem + dotted(exts);
    let p = dir + name;
    assert(p =~= dir + stem + dotted(exts));
    lemma_dotted_no_sep(exts);
    assert(!name.contains(SEP)) by {
        assert forall|i: int| 0 <= i < name.len() implies name[i] != SEP by {
            if i < stem.len() {
                assert(name[i] == stem[i]);
            } else {
                assert(name[i] == dotted(exts)[i - stem.len()]);
            }
        }
    }
    // the path ends in its file name, with nothing to trim
    assert(trimmed_len(p) == p.len()) by {
        assert(p.last() == name.last());
        if exts.len() > 0 {
            let d = dotted(exts.drop_last());
            let l = exts.last();
            if l.len() == 0 {
                assert(dotted(exts) =~= d + seq![DOT]);
                assert(p[p.len() - 2] == name[name.len() - 2]);
            } else {
                assert(name.last() == l.last());
                assert(l.contains(l.last()));
            }
        } else {
            assert(stem.contains(stem.last()));
        }
        assert(name.contains(p.last()));
        if p.len() >= 2 {
            assert(name.len() >= 2 ==> name.contains(p[p.len() - 2]));
        }
    }
    assert(p.subrange(0, p.len() as int) =~= p);
    lemma_last_index_of_append(dir, name, SEP);
    if dir.len() > 0 {
        assert(dir =~= dir.drop_last().push(SEP));
    }
    assert(name_start(p) == dir.len());
    assert(p.subrange(dir.len() as int, p.len() as int) =~= name);
    assert(name[0] == stem[0]);
    assert(stem.contains(stem[0]));
    assert(name != seq![DOT, DOT]);
    assert(file_name(p) == Some(name));
    if exts.len() == 0 {
        assert(name =~= stem);
        lemma_last_index_of_bounds(name, DOT);
        assert(exts.reverse() =~= Seq::<Seq<u8>>::empty());
    } else {
        let rest_exts = exts.drop_last();
        let l = exts.last();
        let head = stem + dotted(rest_exts);
        assert(name =~= head.push(DOT) + l);
        assert(!l.contains(DOT));
        lemma_last_index_of_append(head.push(DOT), l, DOT);
        let j = head.len() as int;
        assert(last_index_of(name, DOT) == j);
        assert(p.subrange(0, dir.len() + j) =~= dir + stem + dotted(rest_exts));
        assert(name.subrange(j + 1, name.len() as int) =~= l);
        assert(forall|i: int|
            0 <= i < rest_exts.len() ==> #[trigger] rest_exts[i] == exts[i]);
        lemma_dotted_path_extensions(dir, stem, rest_exts);
        assert(extensions(p) == seq![l] + rest_exts.reverse());
        assert(seq![l] + rest_exts.reverse() =~= exts.reverse());
    }
}

/// The `k`-th advance of the iterator yields the `k`-th extension.
pub proof fn lemma_advance_yields_in_order(p: Seq<u8>, k: nat)
    requires
        k < extensions(p).len(),
    ensures
        split_extension(advance_n(p, k)) matches Some((_, e)) && e == extensions(p)[k as int],
    decreases k,
{
    if k > 0 {
        lemma_advance_yields_in_order(advance(p), (k - 1) as nat);
    }
}

/// Once the iterator has no extension left it never yields one again.
pub proof fn lemma_exhaustion_is_final(p: Seq<u8>, k: nat)
    requires
        k >= extensions(p).len(),
    ensures
        split_extension(advance_n(p, k)) is None,
        advance_n(p, k) == advance_n(p, extensions(p).len()),
    decreases k,
{
    if k > 0 {
        if split_extension(p) is None {
            lemma_stays_put(p, k);
        } else {
            lemma_exhaustion_is_final(advance(p), (k - 1) as nat);
        }
    }
}

/// Without an extension, advancing leaves the path as it is.
proof fn lemma_stays_put(p: Seq<u8>, k: nat)
    requires
        split_extension(p) is None,
    ensures
        advance_n(p, k) == p,
    decreases k,
{
    if k > 0 {
        lemma_stays_put(p, (k - 1) as nat);
    }
}

} // verus!
