//! The catalog: discovered project directories keyed by (category,
//! sub-path), with last-write-wins insertion, and the indexer that derives
//! catalog entries and selectable lines from marker-directory paths.

use vstd::prelude::*;
use crate::bytes::{COLON, DOT, SLASH, UNDERSCORE, bytes_eq, ends_with, is_prefix_of,
    is_suffix_of, join_range, join_with, push_subrange, split_bytes, split_on, starts_with,
    subrange_to_vec};

verus! {

/// One discovered project: its category, its sub-path within the category,
/// and the project directory's full path.
pub struct CatalogEntry {
    pub category: Vec<u8>,
    pub sub_path: Vec<u8>,
    pub path: Vec<u8>,
}

/// A mapping from (category, sub-path) to project path; inserting an
/// existing key overwrites the recorded path.
pub struct Catalog {
    entries: Vec<CatalogEntry>,
}

/// The map held by a list of entries, later entries overriding earlier ones.
pub open spec fn map_of_entries(es: Seq<CatalogEntry>) -> Map<(Seq<u8>, Seq<u8>), Seq<u8>>
    decreases es.len(),
{
    if es.len() == 0 {
        Map::empty()
    } else {
        map_of_entries(es.drop_last()).insert(
            (es.last().category@, es.last().sub_path@),
            es.last().path@,
        )
    }
}

/// The recorded path for a key, if any.
pub open spec fn lookup_of(
    m: Map<(Seq<u8>, Seq<u8>), Seq<u8>>,
    k: (Seq<u8>, Seq<u8>),
) -> Option<Seq<u8>> {
    if m.contains_key(k) {
        Some(m[k])
    } else {
        None
    }
}

impl View for Catalog {
    type V = Map<(Seq<u8>, Seq<u8>), Seq<u8>>;

    closed spec fn view(&self) -> Self::V {
        map_of_entries(self.entries@)
    }
}

impl Catalog {
    /// An empty catalog.
    pub fn new() -> (r: Catalog)
        ensures
            r@ == Map::<(Seq<u8>, Seq<u8>), Seq<u8>>::empty(),
    {
        Catalog { entries: Vec::new() }
    }

    /// Record `path` under (`category`, `sub_path`), overwriting any path
    /// recorded for that pair before.
    pub fn insert(&mut self, category: Vec<u8>, sub_path: Vec<u8>, path: Vec<u8>)
        ensures
            final(self)@ == old(self)@.insert((category@, sub_path@), path@),
    {
        let ghost before = self.entries@;
        self.entries.push(CatalogEntry { category, sub_path, path });
        proof {
            assert(self.entries@.drop_last() =~= before);
        }
    }

    /// The path recorded for (`category`, `sub_path`): the most recently
    /// inserted one, or `None` when the pair was never inserted.
    pub fn lookup(&self, category: &[u8], sub_path: &[u8]) -> (r: Option<Vec<u8>>)
        ensures
            match r {
                Some(p) => lookup_of(self@, (category@, sub_path@)) == Some(p@),
                None => lookup_of(self@, (category@, sub_path@)) is None,
            },
    {
        let ghost key = (category@, sub_path@);
        let mut i: usize = self.entries.len();
        proof {
            assert(self.entries@.take(i as int) =~= self.entries@);
        }
        while i > 0
            invariant
                i <= self.entries@.len(),
                key == (category@, sub_path@),
                lookup_of(map_of_entries(self.entries@), key) == lookup_of(
                    map_of_entries(self.entries@.take(i as int)),
                    key,
                ),
            decreases i,
        {
            let j = i - 1;
            let entry = &self.entries[j];
            proof {
                assert(self.entries@.take(i as int).drop_last() =~= self.entries@.take(j as int));
                assert(self.entries@.take(i as int).last() == self.entries@[j as int]);
            }
            if bytes_eq(entry.category.as_slice(), category) && bytes_eq(
                entry.sub_path.as_slice(),
                sub_path,
            ) {
                let found = subrange_to_vec(entry.path.as_slice(), 0, entry.path.len());
                proof {
                    assert(found@ =~= entry.path@);
                }
                return Some(found);
            }
            i = j;
        }
        proof {
            assert(self.entries@.take(0) =~= Seq::<CatalogEntry>::empty());
        }
        None
    }
}

/// Inserting a pair and looking it up by that exact pair returns the
/// recorded path, and inserting the same pair twice retains only the most
/// recent path.
pub proof fn lemma_catalog_overwrite(
    m: Map<(Seq<u8>, Seq<u8>), Seq<u8>>,
    category: Seq<u8>,
    sub_path: Seq<u8>,
    first_path: Seq<u8>,
    second_path: Seq<u8>,
)
    ensures
        lookup_of(m.insert((category, sub_path), first_path), (category, sub_path)) == Some(first_path),
        lookup_of(
            m.insert((category, sub_path), first_path).insert((category, sub_path), second_path),
            (category, sub_path),
        ) == Some(second_path),
{
}

/// The bytes of "/.git", the marker suffix a hit's path ends with.
pub open spec fn marker_suffix() -> Seq<u8> {
    seq![SLASH, DOT, 103u8, 105u8, 116u8]
}

/// The bytes of ".git", the suffix a marker directory's name ends with.
pub open spec fn marker_name_suffix() -> Seq<u8> {
    seq![DOT, 103u8, 105u8, 116u8]
}

fn marker_suffix_bytes() -> (r: Vec<u8>)
    ensures
        r@ == marker_suffix(),
{
    let mut v: Vec<u8> = Vec::new();
    v.push(SLASH);
    v.push(DOT);
    v.push(103);
    v.push(105);
    v.push(116);
    proof {
        assert(v@ =~= marker_suffix());
    }
    v
}

/// Is `name` the file name of a marker directory, that is, does it end with
/// ".git"?
pub fn is_marker_name(name: &[u8]) -> (r: bool)
    ensures
        r == is_suffix_of(marker_name_suffix(), name@),
{
    let mut suffix: Vec<u8> = Vec::new();
    suffix.push(DOT);
    suffix.push(103);
    suffix.push(105);
    suffix.push(116);
    proof {
        assert(suffix@ =~= marker_name_suffix());
    }
    ends_with(name, suffix.as_slice())
}

/// The category with every '.' replaced by '_', so that it cannot clash
/// with later dot-sensitive formatting.
pub open spec fn sanitized(s: Seq<u8>) -> Seq<u8> {
    s.map_values(|b: u8| if b == DOT { UNDERSCORE } else { b })
}

/// Replace every '.' in `s` with '_'.
pub fn sanitize_category(s: &[u8]) -> (r: Vec<u8>)
    ensures
        r@ == sanitized(s@),
{
    let mut out: Vec<u8> = Vec::new();
    let mut i: usize = 0;
    while i < s.len()
        invariant
            i <= s@.len(),
            out@ == sanitized(s@.take(i as int)),
        decreases s@.len() - i,
    {
        if s[i] == DOT {
            out.push(UNDERSCORE);
        } else {
            out.push(s[i]);
        }
        proof {
            assert(out@ =~= sanitized(s@.take(i + 1)));
        }
        i = i + 1;
    }
    proof {
        assert(s@.take(s@.len() as int) =~= s@);
    }
    out
}

/// The selectable line "category:sub-path".
pub open spec fn line_of(category: Seq<u8>, sub_path: Seq<u8>) -> Seq<u8> {
    category + seq![COLON] + sub_path
}

/// Build the selectable line "category:sub-path".
pub fn format_line(category: &[u8], sub_path: &[u8]) -> (r: Vec<u8>)
    ensures
        r@ == line_of(category@, sub_path@),
{
    let mut out: Vec<u8> = Vec::new();
    push_subrange(&mut out, category, 0, category.len());
    out.push(COLON);
    push_subrange(&mut out, sub_path, 0, sub_path.len());
    proof {
        assert(category@.subrange(0, category@.len() as int) =~= category@);
        assert(sub_path@.subrange(0, sub_path@.len() as int) =~= sub_path@);
        assert(out@ =~= line_of(category@, sub_path@));
    }
    out
}

/// What a marker hit at `path` under `root` contributes: the sanitized
/// category (first segment below the root), the sub-path (the segments
/// between category and marker, slash-joined), and the project path (the
/// hit's path with the marker suffix removed) — or nothing, when the path
/// does not lie under the root, does not end with the marker suffix, or is
/// too shallow to hold a category.
pub open spec fn spec_derive(root: Seq<u8>, path: Seq<u8>) -> Option<(Seq<u8>, Seq<u8>, Seq<u8>)> {
    let rel = path.subrange(root.len() as int, path.len() as int);
    let parts = split_on(rel, SLASH);
    if is_prefix_of(root, path) && is_suffix_of(marker_suffix(), path) && parts.len() >= 3 {
        Some(
            (
                sanitized(parts[1]),
                join_with(parts.subrange(2, parts.len() - 1), SLASH),
                path.subrange(0, path.len() - 5),
            ),
        )
    } else {
        None
    }
}

/// Derive the catalog entry that the marker hit at `path` contributes.
pub fn derive_entry(root: &[u8], path: &[u8]) -> (r: Option<CatalogEntry>)
    ensures
        match r {
            Some(e) => spec_derive(root@, path@) == Some((e.category@, e.sub_path@, e.path@)),
            None => spec_derive(root@, path@) is None,
        },
{
    if !starts_with(path, root) {
        return None;
    }
    let marker = marker_suffix_bytes();
    if !ends_with(path, marker.as_slice()) {
        return None;
    }
    let rel = subrange_to_vec(path, root.len(), path.len());
    let parts = split_bytes(rel.as_slice(), SLASH);
    if parts.len() < 3 {
        return None;
    }
    let category = sanitize_category(parts[1].as_slice());
    let sub_path = join_range(&parts, 2, parts.len() - 1, SLASH);
    let project = subrange_to_vec(path, 0, path.len() - 5);
    proof {
        let ghost sparts = split_on(path@.subrange(root@.len() as int, path@.len() as int), SLASH);
        assert(parts@.map_values(|p: Vec<u8>| p@) == sparts);
        assert(parts@[1]@ == sparts[1]);
        assert(parts@.subrange(2, parts@.len() - 1).map_values(|p: Vec<u8>| p@) =~= sparts.subrange(
            2,
            sparts.len() - 1,
        ));
    }
    Some(CatalogEntry { category, sub_path, path: project })
}

/// The catalog that a list of marker hits under `root` yields, later hits
/// overwriting earlier ones with the same key.
pub open spec fn index_map(root: Seq<u8>, paths: Seq<Seq<u8>>) -> Map<(Seq<u8>, Seq<u8>), Seq<u8>>
    decreases paths.len(),
{
    if paths.len() == 0 {
        Map::empty()
    } else {
        let m = index_map(root, paths.drop_last());
        match spec_derive(root, paths.last()) {
            Some(e) => m.insert((e.0, e.1), e.2),
            None => m,
        }
    }
}

/// The selectable lines that a list of marker hits under `root` yields, in
/// discovery order.
pub open spec fn index_lines(root: Seq<u8>, paths: Seq<Seq<u8>>) -> Seq<Seq<u8>>
    decreases paths.len(),
{
    if paths.len() == 0 {
        Seq::empty()
    } else {
        index_lines(root, paths.drop_last()) + match spec_derive(root, paths.last()) {
            Some(e) => seq![line_of(e.0, e.1)],
            None => Seq::empty(),
        }
    }
}

/// Index a list of marker-hit paths under `root` into the catalog and the
/// base selectable-line list; hits that yield no entry are skipped.
pub fn index_paths(root: &[u8], paths: &Vec<Vec<u8>>) -> (r: (Catalog, Vec<Vec<u8>>))
    ensures
        r.0@ == index_map(root@, paths@.map_values(|p: Vec<u8>| p@)),
        r.1@.map_values(|p: Vec<u8>| p@) == index_lines(root@, paths@.map_values(|p: Vec<u8>| p@)),
{
    let mut catalog = Catalog::new();
    let mut lines: Vec<Vec<u8>> = Vec::new();
    let ghost ps = paths@.map_values(|p: Vec<u8>| p@);
    let mut i: usize = 0;
    proof {
        assert(ps.take(0) =~= Seq::<Seq<u8>>::empty());
        assert(lines@.map_values(|p: Vec<u8>| p@) =~= Seq::<Seq<u8>>::empty());
    }
    while i < paths.len()
        invariant
            i <= paths@.len(),
            ps == paths@.map_values(|p: Vec<u8>| p@),
            catalog@ == index_map(root@, ps.take(i as int)),
            lines@.map_values(|p: Vec<u8>| p@) == index_lines(root@, ps.take(i as int)),
        decreases paths@.len() - i,
    {
        let ghost before_lines = lines@;
        proof {
            assert(ps.take(i + 1).drop_last() =~= ps.take(i as int));
            assert(ps.take(i + 1).last() == paths@[i as int]@);
        }
        match derive_entry(root, paths[i].as_slice()) {
            Some(e) => {
                let CatalogEntry { category, sub_path, path } = e;
                let line = format_line(category.as_slice(), sub_path.as_slice());
                lines.push(line);
                catalog.insert(category, sub_path, path);
                proof {
                    assert(lines@.map_values(|p: Vec<u8>| p@) =~= before_lines.map_values(
                        |p: Vec<u8>| p@,
                    ) + seq![lines@.last()@]);
                }
            },
            None => {
                proof {
                    assert(index_lines(root@, ps.take(i + 1)) =~= index_lines(
                        root@,
                        ps.take(i as int),
                    ));
                }
            },
        }
        i = i + 1;
    }
    proof {
        assert(ps.take(paths@.len() as int) =~= ps);
    }
    (catalog, lines)
}

} // verus!
