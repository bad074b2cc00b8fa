//! The session merger: turn the multiplexer's newline-delimited session
//! listing into "session:<name>" selectable lines and append them to the
//! base list. Listing lines without a colon are noise and are skipped.

use vstd::prelude::*;
use crate::bytes::{COLON, NEWLINE, find_from, first_index_of, is_prefix_of,
    lemma_first_index_of, lemma_first_index_of_is, lemma_first_index_of_none, push_subrange,
    split_bytes, split_on};

verus! {

/// The bytes of "session", the reserved category of live sessions.
pub open spec fn session_word() -> Seq<u8> {
    seq![115u8, 101u8, 115u8, 115u8, 105u8, 111u8, 110u8]
}

/// The bytes of "session:", the prefix of every merged session line.
pub open spec fn session_prefix() -> Seq<u8> {
    session_word() + seq![COLON]
}

/// Build the bytes of "session".
pub fn session_word_bytes() -> (r: Vec<u8>)
    ensures
        r@ == session_word(),
{
    let mut v: Vec<u8> = Vec::new();
    v.push(115);
    v.push(101);
    v.push(115);
    v.push(115);
    v.push(105);
    v.push(111);
    v.push(110);
    proof {
        assert(v@ =~= session_word());
    }
    v
}

/// The session lines contributed by the listing's lines, in order: one
/// "session:<name>" per line that holds a colon, `name` being the text
/// before the first colon; lines without a colon contribute nothing.
pub open spec fn session_lines_from(lines: Seq<Seq<u8>>) -> Seq<Seq<u8>>
    decreases lines.len(),
{
    if lines.len() == 0 {
        Seq::empty()
    } else {
        let rest = session_lines_from(lines.drop_first());
        let i = first_index_of(lines[0], COLON);
        if i < 0 {
            rest
        } else {
            seq![session_prefix() + lines[0].subrange(0, i)] + rest
        }
    }
}

/// The session lines of a whole newline-delimited listing.
pub open spec fn session_lines_of(listing: Seq<u8>) -> Seq<Seq<u8>> {
    session_lines_from(split_on(listing, NEWLINE))
}

/// Every merged session line starts with "session:".
pub proof fn lemma_session_lines_prefixed(lines: Seq<Seq<u8>>)
    ensures
        forall|j: int|
            0 <= j < session_lines_from(lines).len() ==> is_prefix_of(
                session_prefix(),
                #[trigger] session_lines_from(lines)[j],
            ),
    decreases lines.len(),
{
    if lines.len() > 0 {
        lemma_session_lines_prefixed(lines.drop_first());
        let rest = session_lines_from(lines.drop_first());
        lemma_first_index_of(lines[0], COLON);
        let i = first_index_of(lines[0], COLON);
        if i >= 0 {
            let head = session_prefix() + lines[0].subrange(0, i);
            assert(head.subrange(0, session_prefix().len() as int) =~= session_prefix());
            assert(is_prefix_of(session_prefix(), head));
            assert forall|j: int|
                0 <= j < session_lines_from(lines).len() implies is_prefix_of(
                session_prefix(),
                #[trigger] session_lines_from(lines)[j],
            ) by {
                if j > 0 {
                    assert(session_lines_from(lines)[j] == rest[j - 1]);
                }
            }
        }
    }
}

/// Parse the multiplexer's session listing into "session:<name>" lines.
pub fn session_lines(listing: &[u8]) -> (r: Vec<Vec<u8>>)
    ensures
        r@.map_values(|p: Vec<u8>| p@) == session_lines_of(listing@),
{
    let lines = split_bytes(listing, NEWLINE);
    let ghost ls = lines@.map_values(|p: Vec<u8>| p@);
    let mut out: Vec<Vec<u8>> = Vec::new();
    let mut i: usize = 0;
    proof {
        assert(ls.skip(0) =~= ls);
        assert(out@.map_values(|p: Vec<u8>| p@) =~= Seq::<Seq<u8>>::empty());
    }
    while i < lines.len()
        invariant
            i <= lines@.len(),
            ls == lines@.map_values(|p: Vec<u8>| p@),
            session_lines_from(ls) == out@.map_values(|p: Vec<u8>| p@) + session_lines_from(
                ls.skip(i as int),
            ),
        decreases lines@.len() - i,
    {
        let ghost before = out@;
        proof {
            assert(ls.skip(i as int).drop_first() =~= ls.skip(i + 1));
            assert(ls.skip(i as int)[0] == lines@[i as int]@);
        }
        let line = &lines[i];
        match find_from(line.as_slice(), 0, COLON) {
            Some(c) => {
                proof {
                    lemma_first_index_of_is(line@, COLON, c as int);
                }
                let mut entry = session_word_bytes();
                entry.push(COLON);
                push_subrange(&mut entry, line.as_slice(), 0, c);
                proof {
                    assert(entry@ =~= session_prefix() + line@.subrange(0, c as int));
                }
                out.push(entry);
                proof {
                    assert(out@.map_values(|p: Vec<u8>| p@) =~= before.map_values(|p: Vec<u8>| p@)
                        + seq![out@.last()@]);
                }
            },
            None => {
                proof {
                    lemma_first_index_of_none(line@, COLON);
                }
            },
        }
        i = i + 1;
    }
    proof {
        assert(ls.skip(ls.len() as int) =~= Seq::<Seq<u8>>::empty());
    }
    out
}

/// Append one "session:<name>" line per live session to the selectable
/// list: with N lines before and M sessions in the listing, the list ends
/// with exactly N + M lines, every appended one prefixed "session:".
pub fn merge_sessions(lines: &mut Vec<Vec<u8>>, listing: &[u8])
    ensures
        final(lines)@.map_values(|p: Vec<u8>| p@) == old(lines)@.map_values(|p: Vec<u8>| p@)
            + session_lines_of(listing@),
        final(lines)@.len() == old(lines)@.len() + session_lines_of(listing@).len(),
        forall|j: int|
            old(lines)@.len() <= j < final(lines)@.len() ==> is_prefix_of(
                session_prefix(),
                #[trigger] final(lines)@[j]@,
            ),
{
    let mut extra = session_lines(listing);
    let ghost extras = extra@;
    lines.append(&mut extra);
    proof {
        assert(lines@.map_values(|p: Vec<u8>| p@) =~= old(lines)@.map_values(|p: Vec<u8>| p@)
            + extras.map_values(|p: Vec<u8>| p@));
        lemma_session_lines_prefixed(split_on(listing@, NEWLINE));
        assert forall|j: int|
            old(lines)@.len() <= j < lines@.len() implies is_prefix_of(
            session_prefix(),
            #[trigger] lines@[j]@,
        ) by {
            assert(lines@[j]@ == session_lines_of(listing@)[j - old(lines)@.len()]);
        }
    }
}

} // verus!
