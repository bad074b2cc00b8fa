//! Session-label compression: fit a `type|name` label into a fixed display
//! budget, preferring to keep the name (and its trailing path segments)
//! intact, abbreviating or dropping the type first.

use vstd::prelude::*;
use crate::bytes::{PIPE, SLASH, find_last, lemma_split_on_whole, push_subrange, split_on,
    subrange_to_vec};

verus! {

/// What `tico::tico` returns for a path: every slash-separated segment but
/// the last shortened to a leading character. The result depends on the
/// input bytes alone.
pub uninterp spec fn abbrev_of(s: Seq<u8>) -> Seq<u8>;

/// Relies on `tico::tico` with no home-directory substitution, to abbreviate
/// the intermediate segments of a slash-separated path.
#[verifier::external_body]
fn abbrev_path(name: &[u8]) -> (r: Vec<u8>)
    ensures
        r@ == abbrev_of(name@),
{
    let text = String::from_utf8_lossy(name);
    tico::tico(&text, None).into_bytes()
}

/// The last slash-separated segment of `s`; the whole of `s` when it holds
/// no slash.
pub open spec fn last_segment(s: Seq<u8>) -> Seq<u8> {
    split_on(s, SLASH).last()
}

/// `type|name`, at full fidelity.
pub open spec fn piped(t: Seq<u8>, n: Seq<u8>) -> Seq<u8> {
    t + seq![PIPE] + n
}

/// `ty|name`, the type reduced to its first two bytes.
pub open spec fn short_piped(t: Seq<u8>, n: Seq<u8>) -> Seq<u8> {
    t.subrange(0, 2) + seq![PIPE] + n
}

/// The last `w - 4` bytes of `s`.
pub open spec fn tail_of(s: Seq<u8>, w: int) -> Seq<u8> {
    s.subrange(s.len() - w + 4, s.len() as int)
}

/// The label policy, first satisfied rule winning: a name as long as the
/// budget drops the type (abbreviated name, else its last segment, else that
/// segment's tail); otherwise `type|name`, then `ty|name`, then the same two
/// with the abbreviated name, and as a last resort the name's tail.
pub open spec fn spec_label(t: Seq<u8>, n: Seq<u8>, w: int) -> Seq<u8> {
    if n.len() >= w {
        if abbrev_of(n).len() <= w {
            abbrev_of(n)
        } else if last_segment(n).len() <= w {
            last_segment(n)
        } else {
            tail_of(last_segment(n), w)
        }
    } else if t.len() + n.len() + 1 <= w {
        piped(t, n)
    } else if n.len() + 3 <= w {
        short_piped(t, n)
    } else if t.len() + abbrev_of(n).len() + 1 <= w {
        piped(t, abbrev_of(n))
    } else if abbrev_of(n).len() + 3 <= w {
        short_piped(t, abbrev_of(n))
    } else {
        tail_of(n, w)
    }
}

/// Build `left|right` as bytes, `left` cut to its first `cut` bytes.
fn build_piped(left: &[u8], cut: usize, right: &[u8]) -> (r: Vec<u8>)
    requires
        cut <= left@.len(),
    ensures
        r@ == left@.subrange(0, cut as int) + seq![PIPE] + right@,
{
    let mut out: Vec<u8> = Vec::new();
    push_subrange(&mut out, left, 0, cut);
    out.push(PIPE);
    push_subrange(&mut out, right, 0, right.len());
    proof {
        assert(out@ =~= left@.subrange(0, cut as int) + seq![PIPE] + right@.subrange(
            0,
            right@.len() as int,
        ));
        assert(right@.subrange(0, right@.len() as int) =~= right@);
    }
    out
}

/// Compress `session_type` and `session_name` into a label of at most
/// `width` bytes, following the ordered policy of `spec_label`.
pub fn compress_label(session_type: &[u8], session_name: &[u8], width: usize) -> (r: Vec<u8>)
    requires
        width >= 5,
    ensures
        r@ == spec_label(session_type@, session_name@, width as int),
        r@.len() <= width,
{
    if session_name.len() >= width {
        let short = abbrev_path(session_name);
        if short.len() <= width {
            return short;
        }
        let last = match find_last(session_name, SLASH) {
            Some(j) => {
                proof {
                    crate::bytes::lemma_split_on_last(session_name@, SLASH, j as int);
                }
                subrange_to_vec(session_name, j + 1, session_name.len())
            },
            None => {
                proof {
                    lemma_split_on_whole(session_name@, SLASH);
                }
                subrange_to_vec(session_name, 0, session_name.len())
            },
        };
        proof {
            assert(last@ == last_segment(session_name@));
        }
        if last.len() <= width {
            return last;
        }
        return subrange_to_vec(last.as_slice(), last.len() - (width - 4), last.len());
    }
    if session_name.len() <= width - 1 && session_type.len() <= width - session_name.len() - 1 {
        return build_piped(session_type, session_type.len(), session_name);
    }
    if session_name.len() <= width - 3 {
        return build_piped(session_type, 2, session_name);
    }
    let short = abbrev_path(session_name);
    if short.len() <= width - 1 && session_type.len() <= width - short.len() - 1 {
        return build_piped(session_type, session_type.len(), short.as_slice());
    }
    if short.len() <= width - 3 {
        return build_piped(session_type, 2, short.as_slice());
    }
    subrange_to_vec(session_name, session_name.len() - (width - 4), session_name.len())
}

/// The policy is total and bounded: for every type and name, and every
/// budget of at least 5, the label fits the budget.
pub proof fn lemma_label_fits(t: Seq<u8>, n: Seq<u8>, w: int)
    requires
        w >= 5,
    ensures
        spec_label(t, n, w).len() <= w,
{
}

/// A name at least as long as the budget drops the type entirely: the label
/// does not depend on the type at all.
pub proof fn lemma_long_name_drops_type(t1: Seq<u8>, t2: Seq<u8>, n: Seq<u8>, w: int)
    requires
        n.len() >= w,
    ensures
        spec_label(t1, n, w) == spec_label(t2, n, w),
{
}

} // verus!
