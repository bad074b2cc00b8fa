//! Byte-string helpers: searching for a separator, splitting on it, joining
//! with it, prefix/suffix tests, and character replacement. Specifications
//! are given over `Seq<u8>`; the executable functions are proved against them.

use vstd::prelude::*;
use vstd::slice::slice_subrange;

verus! {

/// The byte `'/'`.
pub const SLASH: u8 = 47;

/// The byte `'|'`.
pub const PIPE: u8 = 124;

/// The byte `':'`.
pub const COLON: u8 = 58;

/// The byte `'\n'`.
pub const NEWLINE: u8 = 10;

/// The byte `'.'`.
pub const DOT: u8 = 46;

/// The byte `'_'`.
pub const UNDERSCORE: u8 = 95;

/// Index of the first occurrence of `sep` in `s`, or -1 when absent.
pub open spec fn first_index_of(s: Seq<u8>, sep: u8) -> int
    decreases s.len(),
{
    if s.len() == 0 {
        -1
    } else if s[0] == sep {
        0
    } else {
        let rest = first_index_of(s.drop_first(), sep);
        if rest < 0 {
            -1
        } else {
            rest + 1
        }
    }
}

/// The split of `s` on `sep`: as many parts as separators plus one, none of
/// them containing `sep`.
pub open spec fn split_on(s: Seq<u8>, sep: u8) -> Seq<Seq<u8>>
    decreases s.len(),
{
    let i = first_index_of(s, sep);
    if i < 0 || i >= s.len() {
        seq![s]
    } else {
        seq![s.subrange(0, i)] + split_on(s.subrange(i + 1, s.len() as int), sep)
    }
}

/// The parts joined back together with `sep` between consecutive parts.
pub open spec fn join_with(parts: Seq<Seq<u8>>, sep: u8) -> Seq<u8>
    decreases parts.len(),
{
    if parts.len() == 0 {
        Seq::empty()
    } else if parts.len() == 1 {
        parts[0]
    } else {
        parts[0] + seq![sep] + join_with(parts.drop_first(), sep)
    }
}

pub open spec fn is_prefix_of(p: Seq<u8>, s: Seq<u8>) -> bool {
    p.len() <= s.len() && s.subrange(0, p.len() as int) == p
}

pub open spec fn is_suffix_of(p: Seq<u8>, s: Seq<u8>) -> bool {
    p.len() <= s.len() && s.subrange(s.len() - p.len(), s.len() as int) == p
}

/// `first_index_of` returns either -1 when `sep` is absent, or the position
/// of the first occurrence.
pub proof fn lemma_first_index_of(s: Seq<u8>, sep: u8)
    ensures
        first_index_of(s, sep) < 0 ==> forall|k: int| 0 <= k < s.len() ==> s[k] != sep,
        first_index_of(s, sep) >= 0 ==> {
            let i = first_index_of(s, sep);
            &&& i < s.len()
            &&& s[i] == sep
            &&& forall|k: int| 0 <= k < i ==> s[k] != sep
        },
    decreases s.len(),
{
    if s.len() > 0 && s[0] != sep {
        let t = s.drop_first();
        lemma_first_index_of(t, sep);
        let r = first_index_of(t, sep);
        if r < 0 {
            assert forall|k: int| 0 <= k < s.len() implies s[k] != sep by {
                if k > 0 {
                    assert(s[k] == t[k - 1]);
                }
            }
        } else {
            let i = first_index_of(s, sep);
            assert(s[i] == t[r]);
            assert forall|k: int| 0 <= k < i implies s[k] != sep by {
                if k > 0 {
                    assert(s[k] == t[k - 1]);
                }
            }
        }
    }
}

/// Characterization: a position that holds `sep`, with none before it, is
/// exactly what `first_index_of` returns.
pub proof fn lemma_first_index_of_is(s: Seq<u8>, sep: u8, i: int)
    requires
        0 <= i < s.len(),
        s[i] == sep,
        forall|k: int| 0 <= k < i ==> s[k] != sep,
    ensures
        first_index_of(s, sep) == i,
    decreases s.len(),
{
    if i > 0 {
        let t = s.drop_first();
        assert forall|k: int| 0 <= k < i - 1 implies t[k] != sep by {
            assert(t[k] == s[k + 1]);
        }
        assert(t[i - 1] == s[i]);
        lemma_first_index_of_is(t, sep, i - 1);
    }
}

pub proof fn lemma_first_index_of_none(s: Seq<u8>, sep: u8)
    requires
        forall|k: int| 0 <= k < s.len() ==> s[k] != sep,
    ensures
        first_index_of(s, sep) == -1,
    decreases s.len(),
{
    if s.len() > 0 {
        let t = s.drop_first();
        assert forall|k: int| 0 <= k < t.len() implies t[k] != sep by {
            assert(t[k] == s[k + 1]);
        }
        lemma_first_index_of_none(t, sep);
    }
}

/// Find the first occurrence of `sep` in `s` at or after `from`.
pub fn find_from(s: &[u8], from: usize, sep: u8) -> (r: Option<usize>)
    requires
        from <= s@.len(),
    ensures
        match r {
            Some(i) => {
                &&& from <= i < s@.len()
                &&& s@[i as int] == sep
                &&& forall|k: int| from <= k < i ==> s@[k] != sep
            },
            None => forall|k: int| from <= k < s@.len() ==> s@[k] != sep,
        },
{
    let mut i: usize = from;
    while i < s.len()
        invariant
            from <= i <= s@.len(),
            forall|k: int| from <= k < i ==> s@[k] != sep,
        decreases s@.len() - i,
    {
        if s[i] == sep {
            return Some(i);
        }
        i = i + 1;
    }
    None
}

/// Compare two byte strings for equality.
pub fn bytes_eq(a: &[u8], b: &[u8]) -> (r: bool)
    ensures
        r == (a@ == b@),
{
    if a.len() != b.len() {
        return false;
    }
    let mut i: usize = 0;
    while i < a.len()
        invariant
            a@.len() == b@.len(),
            i <= a@.len(),
            forall|k: int| 0 <= k < i ==> a@[k] == b@[k],
        decreases a@.len() - i,
    {
        if a[i] != b[i] {
            return false;
        }
        i = i + 1;
    }
    proof {
        assert(a@ =~= b@);
    }
    true
}

/// Does `s` start with `prefix`?
pub fn starts_with(s: &[u8], prefix: &[u8]) -> (r: bool)
    ensures
        r == is_prefix_of(prefix@, s@),
{
    if prefix.len() > s.len() {
        return false;
    }
    let head = slice_subrange(s, 0, prefix.len());
    bytes_eq(head, prefix)
}

/// Does `s` end with `suffix`?
pub fn ends_with(s: &[u8], suffix: &[u8]) -> (r: bool)
    ensures
        r == is_suffix_of(suffix@, s@),
{
    if suffix.len() > s.len() {
        return false;
    }
    let tail = slice_subrange(s, s.len() - suffix.len(), s.len());
    bytes_eq(tail, suffix)
}

/// Find the last occurrence of `sep` in `s`.
pub fn find_last(s: &[u8], sep: u8) -> (r: Option<usize>)
    ensures
        match r {
            Some(i) => {
                &&& i < s@.len()
                &&& s@[i as int] == sep
                &&& forall|k: int| i < k < s@.len() ==> s@[k] != sep
            },
            None => forall|k: int| 0 <= k < s@.len() ==> s@[k] != sep,
        },
{
    let mut i: usize = s.len();
    while i > 0
        invariant
            i <= s@.len(),
            forall|k: int| i <= k < s@.len() ==> s@[k] != sep,
        decreases i,
    {
        i = i - 1;
        if s[i] == sep {
            return Some(i);
        }
    }
    None
}

/// Copy `s[lo..hi]` into a fresh vector.
pub fn subrange_to_vec(s: &[u8], lo: usize, hi: usize) -> (r: Vec<u8>)
    requires
        lo <= hi <= s@.len(),
    ensures
        r@ == s@.subrange(lo as int, hi as int),
{
    let mut out: Vec<u8> = Vec::new();
    let mut i: usize = lo;
    while i < hi
        invariant
            lo <= i <= hi <= s@.len(),
            out@ == s@.subrange(lo as int, i as int),
        decreases hi - i,
    {
        out.push(s[i]);
        proof {
            assert(out@ =~= s@.subrange(lo as int, i + 1));
        }
        i = i + 1;
    }
    out
}

/// Append `s[lo..hi]` to `out`.
pub fn push_subrange(out: &mut Vec<u8>, s: &[u8], lo: usize, hi: usize)
    requires
        lo <= hi <= s@.len(),
    ensures
        final(out)@ == old(out)@ + s@.subrange(lo as int, hi as int),
{
    let mut i: usize = lo;
    while i < hi
        invariant
            lo <= i <= hi <= s@.len(),
            out@ == old(out)@ + s@.subrange(lo as int, i as int),
        decreases hi - i,
    {
        out.push(s[i]);
        proof {
            assert(out@ =~= old(out)@ + s@.subrange(lo as int, i + 1));
        }
        i = i + 1;
    }
}

/// A split always has at least one part.
pub proof fn lemma_split_on_nonempty(s: Seq<u8>, sep: u8)
    ensures
        split_on(s, sep).len() >= 1,
{
}

/// Without any separator, the split is the whole string as its single part.
pub proof fn lemma_split_on_whole(s: Seq<u8>, sep: u8)
    requires
        forall|k: int| 0 <= k < s.len() ==> s[k] != sep,
    ensures
        split_on(s, sep) == seq![s],
{
    lemma_first_index_of_none(s, sep);
}

/// The last part of a split is the suffix after the last separator.
pub proof fn lemma_split_on_last(s: Seq<u8>, sep: u8, j: int)
    requires
        0 <= j < s.len(),
        s[j] == sep,
        forall|k: int| j < k < s.len() ==> s[k] != sep,
    ensures
        split_on(s, sep).last() == s.subrange(j + 1, s.len() as int),
    decreases s.len(),
{
    lemma_first_index_of(s, sep);
    let i = first_index_of(s, sep);
    assert(0 <= i <= j);
    let t = s.subrange(i + 1, s.len() as int);
    if i == j {
        assert forall|k: int| 0 <= k < t.len() implies t[k] != sep by {
            assert(t[k] == s[i + 1 + k]);
        }
        lemma_split_on_whole(t, sep);
        lemma_split_on_nonempty(t, sep);
        assert(split_on(s, sep).last() == split_on(t, sep).last());
        assert(t =~= s.subrange(j + 1, s.len() as int));
    } else {
        assert(t[j - i - 1] == s[j]);
        assert forall|k: int| j - i - 1 < k < t.len() implies t[k] != sep by {
            assert(t[k] == s[i + 1 + k]);
        }
        lemma_split_on_last(t, sep, j - i - 1);
        lemma_split_on_nonempty(t, sep);
        assert(split_on(s, sep).last() == split_on(t, sep).last());
        assert(t.subrange(j - i, t.len() as int) =~= s.subrange(j + 1, s.len() as int));
    }
}

/// Split `s` on `sep`, returning the parts in order.
pub fn split_bytes(s: &[u8], sep: u8) -> (parts: Vec<Vec<u8>>)
    ensures
        parts@.map_values(|p: Vec<u8>| p@) == split_on(s@, sep),
{
    let mut parts: Vec<Vec<u8>> = Vec::new();
    let mut start: usize = 0;
    let _n: usize = s.len();
    proof {
        assert(s@.subrange(0, s@.len() as int) =~= s@);
        assert(parts@.map_values(|p: Vec<u8>| p@) =~= Seq::<Seq<u8>>::empty());
    }
    loop
        invariant
            start <= s@.len() <= usize::MAX,
            split_on(s@, sep) == parts@.map_values(|p: Vec<u8>| p@) + split_on(
                s@.subrange(start as int, s@.len() as int),
                sep,
            ),
        decreases s@.len() - start,
    {
        let ghost tail = s@.subrange(start as int, s@.len() as int);
        proof {
            assert(start <= s@.len());
        }
        match find_from(s, start, sep) {
            Some(i) => {
                proof {
                    assert(tail[i - start] == sep);
                    assert forall|k: int| 0 <= k < i - start implies tail[k] != sep by {
                        assert(tail[k] == s@[start + k]);
                    }
                    lemma_first_index_of_is(tail, sep, i - start);
                    assert(tail.subrange(0, i - start) =~= s@.subrange(start as int, i as int));
                    assert(tail.subrange(i - start + 1, tail.len() as int) =~= s@.subrange(
                        i + 1,
                        s@.len() as int,
                    ));
                }
                let part = subrange_to_vec(s, start, i);
                parts.push(part);
                proof {
                    assert(parts@.map_values(|p: Vec<u8>| p@) =~= old_parts_plus(
                        parts@,
                    ));
                }
                start = i + 1;
            },
            None => {
                proof {
                    assert forall|k: int| 0 <= k < tail.len() implies tail[k] != sep by {
                        assert(tail[k] == s@[start + k]);
                    }
                    lemma_first_index_of_none(tail, sep);
                }
                let part = subrange_to_vec(s, start, s.len());
                parts.push(part);
                proof {
                    assert(parts@.map_values(|p: Vec<u8>| p@) =~= old_parts_plus(parts@));
                    assert(split_on(s@, sep) =~= parts@.map_values(|p: Vec<u8>| p@));
                }
                return parts;
            },
        }
    }
}

/// The mapped views of a part list whose last element was just pushed.
spec fn old_parts_plus(parts: Seq<Vec<u8>>) -> Seq<Seq<u8>> {
    parts.drop_last().map_values(|p: Vec<u8>| p@).push(parts.last()@)
}

/// Joining one more part appends a separator and that part.
pub proof fn lemma_join_with_push(q: Seq<Seq<u8>>, x: Seq<u8>, sep: u8)
    requires
        q.len() >= 1,
    ensures
        join_with(q.push(x), sep) == join_with(q, sep) + seq![sep] + x,
    decreases q.len(),
{
    if q.len() == 1 {
        assert(q.push(x).drop_first() =~= seq![x]);
        assert(join_with(seq![x], sep) == x);
        assert(q.push(x)[0] == q[0]);
    } else {
        lemma_join_with_push(q.drop_first(), x, sep);
        assert(q.push(x).drop_first() =~= q.drop_first().push(x));
        assert(q.push(x)[0] == q[0]);
    }
}

/// Join `parts[lo..hi]` with `sep` between consecutive parts.
pub fn join_range(parts: &Vec<Vec<u8>>, lo: usize, hi: usize, sep: u8) -> (r: Vec<u8>)
    requires
        lo <= hi <= parts@.len(),
    ensures
        r@ == join_with(parts@.subrange(lo as int, hi as int).map_values(|p: Vec<u8>| p@), sep),
{
    let mut out: Vec<u8> = Vec::new();
    if lo == hi {
        proof {
            assert(parts@.subrange(lo as int, hi as int).map_values(|p: Vec<u8>| p@) =~= Seq::<
                Seq<u8>,
            >::empty());
        }
        return out;
    }
    let first = &parts[lo];
    push_subrange(&mut out, first.as_slice(), 0, first.len());
    let mut i: usize = lo + 1;
    while i < hi
        invariant
            lo < i <= hi <= parts@.len(),
            out@ == join_with(
                parts@.subrange(lo as int, i as int).map_values(|p: Vec<u8>| p@),
                sep,
            ),
        decreases hi - i,
    {
        let ghost q = parts@.subrange(lo as int, i as int).map_values(|p: Vec<u8>| p@);
        out.push(sep);
        let part = &parts[i];
        push_subrange(&mut out, part.as_slice(), 0, part.len());
        proof {
            lemma_join_with_push(q, parts@[i as int]@, sep);
            assert(parts@.subrange(lo as int, i + 1).map_values(|p: Vec<u8>| p@) =~= q.push(
                parts@[i as int]@,
            ));
            assert(part@.subrange(0, part@.len() as int) =~= part@);
        }
        i = i + 1;
    }
    out
}

} // verus!
