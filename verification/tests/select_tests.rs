use sessionizer::catalog::{Catalog, index_paths};
use sessionizer::select::{PlannedAction, Selection, parse_selection, resolve_selection};
use sessionizer::sessions::{merge_sessions, session_lines};

fn b(s: &str) -> Vec<u8> {
    s.as_bytes().to_vec()
}

#[test]
fn session_listing_yields_one_line_per_session() {
    let listing = b"work: 1 windows (created Mon)\nmain: 2 windows\n";
    let lines = session_lines(listing);
    assert_eq!(lines, vec![b("session:work"), b("session:main")]);
}

#[test]
fn listing_lines_without_a_colon_are_noise() {
    let listing = b"work: 1 windows\nno server running\n\nmain: 2 windows";
    let lines = session_lines(listing);
    assert_eq!(lines, vec![b("session:work"), b("session:main")]);
}

#[test]
fn empty_listing_yields_no_sessions() {
    assert!(session_lines(b"").is_empty());
}

#[test]
fn merging_appends_exactly_one_line_per_session() {
    let paths = vec![b("root/work/alpha/.git"), b("root/work/beta/sub/.git")];
    let (_, mut lines) = index_paths(b"root", &paths);
    merge_sessions(&mut lines, b"one: 1 windows\ntwo: 2 windows\nthree: 3 windows\n");
    assert_eq!(lines.len(), 2 + 3);
    assert_eq!(
        lines,
        vec![
            b("work:alpha"),
            b("work:beta/sub"),
            b("session:one"),
            b("session:two"),
            b("session:three"),
        ]
    );
    for line in &lines[2..] {
        assert!(line.starts_with(b"session:"));
    }
}

#[test]
fn a_line_without_a_colon_is_a_raw_query() {
    match parse_selection(b"scratch") {
        Selection::CreateNew { kind } => assert_eq!(kind, b("scratch")),
        _ => panic!("expected a raw query"),
    }
}

#[test]
fn a_session_line_is_an_attach() {
    match parse_selection(b"session:foo") {
        Selection::AttachSession { name } => assert_eq!(name, b("foo")),
        _ => panic!("expected an attach"),
    }
}

#[test]
fn any_other_line_is_a_catalog_key() {
    match parse_selection(b"work:beta/sub") {
        Selection::Project { category, key } => {
            assert_eq!(category, b("work"));
            assert_eq!(key, b("beta/sub"));
        },
        _ => panic!("expected a catalog key"),
    }
}

#[test]
fn the_key_is_the_second_colon_delimited_part() {
    match parse_selection(b"work:odd:rest") {
        Selection::Project { category, key } => {
            assert_eq!(category, b("work"));
            assert_eq!(key, b("odd"));
        },
        _ => panic!("expected a catalog key"),
    }
}

#[test]
fn a_raw_query_resolves_to_a_new_home_session() {
    let catalog = Catalog::new();
    match resolve_selection(&catalog, b"scratch", 25) {
        Ok(PlannedAction::CreateAtHome { name }) => assert_eq!(name, b("scratch")),
        _ => panic!("expected a new home session"),
    }
}

#[test]
fn a_session_selection_resolves_to_a_switch_never_a_create() {
    let catalog = Catalog::new();
    match resolve_selection(&catalog, b"session:foo", 25) {
        Ok(PlannedAction::SwitchTo { name }) => assert_eq!(name, b("foo")),
        _ => panic!("expected a switch"),
    }
}

#[test]
fn a_catalog_selection_resolves_to_its_path_and_label() {
    let paths = vec![b("root/work/alpha/.git")];
    let (catalog, _) = index_paths(b"root", &paths);
    match resolve_selection(&catalog, b"work:alpha", 25) {
        Ok(PlannedAction::CreateAt { name, path }) => {
            assert_eq!(name, b("work|alpha"));
            assert_eq!(path, b("root/work/alpha"));
        },
        _ => panic!("expected a create-or-attach"),
    }
}

#[test]
fn a_missing_key_is_reported_with_the_offending_pair() {
    let catalog = Catalog::new();
    match resolve_selection(&catalog, b"work:nope", 25) {
        Err(miss) => {
            assert_eq!(miss.category, b("work"));
            assert_eq!(miss.key, b("nope"));
        },
        _ => panic!("expected a lookup miss"),
    }
}
