//! Selection handling: parse the single line the picker returns, split on
//! the first colon into category and key, and resolve it against the
//! catalog into the action the launcher should take.

use vstd::prelude::*;
use crate::bytes::{COLON, bytes_eq, find_from, lemma_first_index_of_is, lemma_first_index_of_none,
    lemma_split_on_nonempty, lemma_split_on_whole, split_on, subrange_to_vec};
use crate::catalog::Catalog;
use crate::label::{compress_label, spec_label};
use crate::sessions::{session_word, session_word_bytes};

verus! {

/// What the picker's returned line means.
pub enum Selection {
    /// No colon in the line: the raw query text, for a session to create.
    CreateNew { kind: Vec<u8> },
    /// The line's category is "session": a live session to attach to.
    AttachSession { name: Vec<u8> },
    /// Any other category: a catalog key to resolve.
    Project { category: Vec<u8>, key: Vec<u8> },
}

/// Parse the picker's returned line. A line with no colon is a raw query;
/// otherwise the first colon-delimited part is the category and the second
/// is the key.
pub fn parse_selection(line: &[u8]) -> (r: Selection)
    ensures
        ({
            let parts = split_on(line@, COLON);
            match r {
                Selection::CreateNew { kind } => parts.len() == 1 && kind@ == line@,
                Selection::AttachSession { name } => parts.len() >= 2 && parts[0] == session_word()
                    && name@ == parts[1],
                Selection::Project { category, key } => parts.len() >= 2 && parts[0]
                    != session_word() && category@ == parts[0] && key@ == parts[1],
            }
        }),
{
    let ghost parts = split_on(line@, COLON);
    let _n: usize = line.len();
    match find_from(line, 0, COLON) {
        None => {
            proof {
                lemma_split_on_whole(line@, COLON);
            }
            let kind = subrange_to_vec(line, 0, line.len());
            proof {
                assert(kind@ =~= line@);
            }
            Selection::CreateNew { kind }
        },
        Some(c) => {
            let ghost tail = line@.subrange(c + 1, line@.len() as int);
            proof {
                lemma_first_index_of_is(line@, COLON, c as int);
                lemma_split_on_nonempty(tail, COLON);
                assert(parts[0] == line@.subrange(0, c as int));
                assert(parts[1] == split_on(tail, COLON)[0]);
            }
            let first = subrange_to_vec(line, 0, c);
            let second = match find_from(line, c + 1, COLON) {
                Some(d) => {
                    proof {
                        assert(tail[d - c - 1] == COLON);
                        assert forall|k: int| 0 <= k < d - c - 1 implies tail[k] != COLON by {
                            assert(tail[k] == line@[c + 1 + k]);
                        }
                        lemma_first_index_of_is(tail, COLON, d - c - 1);
                        assert(tail.subrange(0, d - c - 1) =~= line@.subrange(c + 1, d as int));
                    }
                    subrange_to_vec(line, c + 1, d)
                },
                None => {
                    proof {
                        assert forall|k: int| 0 <= k < tail.len() implies tail[k] != COLON by {
                            assert(tail[k] == line@[c + 1 + k]);
                        }
                        lemma_first_index_of_none(tail, COLON);
                    }
                    subrange_to_vec(line, c + 1, line.len())
                },
            };
            let word = session_word_bytes();
            if bytes_eq(first.as_slice(), word.as_slice()) {
                Selection::AttachSession { name: second }
            } else {
                Selection::Project { category: first, key: second }
            }
        },
    }
}

/// The action the launcher should take for a selection.
pub enum PlannedAction {
    /// Create (or attach to) a session of this name, started at the home
    /// directory: the picker returned a raw query.
    CreateAtHome { name: Vec<u8> },
    /// Switch the client to this live session.
    SwitchTo { name: Vec<u8> },
    /// Create (or attach to) a session under this compressed label, started
    /// at this project path.
    CreateAt { name: Vec<u8>, path: Vec<u8> },
}

/// A selection that resolves to no catalog entry: the filesystem changed
/// between scan and selection.
pub struct LookupMiss {
    pub category: Vec<u8>,
    pub key: Vec<u8>,
}

/// Resolve the picker's returned line against the catalog: a raw query
/// becomes a new home session of that name; a "session" category becomes a
/// switch to that live session; any other category is looked up, yielding a
/// create-or-attach at the recorded path under the compressed label, or a
/// lookup miss naming the offending key.
pub fn resolve_selection(catalog: &Catalog, line: &[u8], width: usize) -> (r: Result<
    PlannedAction,
    LookupMiss,
>)
    requires
        width >= 5,
    ensures
        ({
            let parts = split_on(line@, COLON);
            if parts.len() == 1 {
                r matches Ok(PlannedAction::CreateAtHome { name }) && name@ == line@
            } else if parts[0] == session_word() {
                r matches Ok(PlannedAction::SwitchTo { name }) && name@ == parts[1]
            } else if catalog@.contains_key((parts[0], parts[1])) {
                r matches Ok(PlannedAction::CreateAt { name, path }) && name@ == spec_label(
                    parts[0],
                    parts[1],
                    width as int,
                ) && path@ == catalog@[(parts[0], parts[1])]
            } else {
                r matches Err(miss) && miss.category@ == parts[0] && miss.key@ == parts[1]
            }
        }),
{
    match parse_selection(line) {
        Selection::CreateNew { kind } => Ok(PlannedAction::CreateAtHome { name: kind }),
        Selection::AttachSession { name } => Ok(PlannedAction::SwitchTo { name }),
        Selection::Project { category, key } => {
            let label = compress_label(category.as_slice(), key.as_slice(), width);
            match catalog.lookup(category.as_slice(), key.as_slice()) {
                Some(path) => Ok(PlannedAction::CreateAt { name: label, path }),
                None => Err(LookupMiss { category, key }),
            }
        },
    }
}

} // verus!
