use sessionizer::catalog::{Catalog, derive_entry, index_paths, is_marker_name};

fn b(s: &str) -> Vec<u8> {
    s.as_bytes().to_vec()
}

#[test]
fn inserted_pairs_are_found_again() {
    let mut catalog = Catalog::new();
    catalog.insert(b("work"), b("alpha"), b("/src/work/alpha"));
    catalog.insert(b("play"), b("beta/sub"), b("/src/play/beta/sub"));
    assert_eq!(catalog.lookup(b"work", b"alpha"), Some(b("/src/work/alpha")));
    assert_eq!(catalog.lookup(b"play", b"beta/sub"), Some(b("/src/play/beta/sub")));
    assert_eq!(catalog.lookup(b"work", b"beta/sub"), None);
}

#[test]
fn inserting_the_same_pair_twice_keeps_the_latest_path() {
    let mut catalog = Catalog::new();
    catalog.insert(b("work"), b("alpha"), b("/old/work/alpha"));
    catalog.insert(b("work"), b("alpha"), b("/new/work/alpha"));
    assert_eq!(catalog.lookup(b"work", b"alpha"), Some(b("/new/work/alpha")));
}

#[test]
fn indexer_builds_catalog_and_lines() {
    let paths = vec![b("root/work/alpha/.git"), b("root/work/beta/sub/.git")];
    let (catalog, lines) = index_paths(b"root", &paths);
    assert_eq!(catalog.lookup(b"work", b"alpha"), Some(b("root/work/alpha")));
    assert_eq!(catalog.lookup(b"work", b"beta/sub"), Some(b("root/work/beta/sub")));
    assert_eq!(lines, vec![b("work:alpha"), b("work:beta/sub")]);
}

#[test]
fn indexer_with_no_hits_yields_nothing() {
    let paths: Vec<Vec<u8>> = Vec::new();
    let (catalog, lines) = index_paths(b"root", &paths);
    assert_eq!(catalog.lookup(b"work", b"alpha"), None);
    assert!(lines.is_empty());
}

#[test]
fn categories_are_sanitized() {
    let paths = vec![b("root/my.dotfiles/nvim/.git")];
    let (catalog, lines) = index_paths(b"root", &paths);
    assert_eq!(lines, vec![b("my_dotfiles:nvim")]);
    assert_eq!(catalog.lookup(b"my_dotfiles", b"nvim"), Some(b("root/my.dotfiles/nvim")));
}

#[test]
fn marker_directly_under_category_has_empty_sub_path() {
    let paths = vec![b("root/work/.git")];
    let (catalog, lines) = index_paths(b"root", &paths);
    assert_eq!(lines, vec![b("work:")]);
    assert_eq!(catalog.lookup(b"work", b""), Some(b("root/work")));
}

#[test]
fn paths_that_are_no_marker_hits_are_skipped() {
    let paths = vec![
        b("elsewhere/work/alpha/.git"),  // not under the root
        b("root/work/alpha/.gitfoo"),    // does not end with the marker
        b("root/.git"),                  // too shallow to hold a category
        b("root/work/alpha/.git"),
    ];
    let (catalog, lines) = index_paths(b"root", &paths);
    assert_eq!(lines, vec![b("work:alpha")]);
    assert_eq!(catalog.lookup(b"work", b"alpha"), Some(b("root/work/alpha")));
}

#[test]
fn later_hits_overwrite_earlier_ones() {
    let paths = vec![b("root/work/alpha/.git"), b("root/work/alpha/.git")];
    let (catalog, lines) = index_paths(b"root", &paths);
    assert_eq!(lines.len(), 2);
    assert_eq!(catalog.lookup(b"work", b"alpha"), Some(b("root/work/alpha")));
}

#[test]
fn derive_entry_splits_a_hit() {
    let entry = derive_entry(b"root", b"root/work/beta/sub/.git").unwrap();
    assert_eq!(entry.category, b("work"));
    assert_eq!(entry.sub_path, b("beta/sub"));
    assert_eq!(entry.path, b("root/work/beta/sub"));
}

#[test]
fn derive_entry_rejects_foreign_paths() {
    assert!(derive_entry(b"root", b"elsewhere/work/alpha/.git").is_none());
    assert!(derive_entry(b"root", b"root/work/alpha").is_none());
}

#[test]
fn marker_names_end_with_git() {
    assert!(is_marker_name(b".git"));
    assert!(is_marker_name(b"foo.git"));
    assert!(!is_marker_name(b"git"));
    assert!(!is_marker_name(b".github"));
    assert!(!is_marker_name(b"src"));
}
