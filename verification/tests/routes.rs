//! Route table construction and lookup.

use selfish::routing::{FsEntry, Router};

fn entry(components: &[&str], is_dir: bool) -> FsEntry {
    FsEntry {
        components: components.iter().map(|c| c.as_bytes().to_vec()).collect(),
        is_dir,
    }
}

fn tree_router() -> Router {
    let entries = vec![
        entry(&["a"], true),
        entry(&["a", "index.html"], false),
        entry(&["a", "b.txt"], false),
    ];
    Router::default_from_directory(b"/srv", &entries)
}

#[test]
fn walk_maps_directory_prefix_to_index() {
    let r = tree_router();
    assert_eq!(r.route_to(b"/a/"), Some(b"/srv/a/index.html".to_vec()));
}

#[test]
fn walk_maps_file_uri_to_path() {
    let r = tree_router();
    assert_eq!(r.route_to(b"/a/b.txt"), Some(b"/srv/a/b.txt".to_vec()));
    assert_eq!(r.route_to(b"/a/index.html"), Some(b"/srv/a/index.html".to_vec()));
}

#[test]
fn lookup_miss_returns_none() {
    let r = tree_router();
    assert_eq!(r.route_to(b"/missing"), None);
    assert_eq!(r.route_to(b"/"), None);
}

#[test]
fn root_index_is_mapped() {
    let entries = vec![entry(&["index.html"], false)];
    let r = Router::default_from_directory(b"/srv", &entries);
    assert_eq!(r.route_to(b"/"), Some(b"/srv/index.html".to_vec()));
}

#[test]
fn index_html_wins_over_index_htm() {
    let entries = vec![
        entry(&["index.htm"], false),
        entry(&["index.html"], false),
    ];
    let r = Router::default_from_directory(b"/srv", &entries);
    assert_eq!(r.route_to(b"/"), Some(b"/srv/index.html".to_vec()));
}

#[test]
fn index_htm_serves_when_html_absent() {
    let entries = vec![entry(&["index.htm"], false)];
    let r = Router::default_from_directory(b"/srv", &entries);
    assert_eq!(r.route_to(b"/"), Some(b"/srv/index.htm".to_vec()));
}

#[test]
fn file_names_are_percent_encoded() {
    let entries = vec![entry(&["a b.txt"], false)];
    let r = Router::default_from_directory(b"/srv", &entries);
    assert_eq!(r.route_to(b"/a%20b.txt"), Some(b"/srv/a b.txt".to_vec()));
    assert_eq!(r.route_to(b"/a b.txt"), None);
}

#[test]
fn resolve_or_insert_records_existing_candidate() {
    let mut r = tree_router();
    assert_eq!(r.route_to(b"/new.txt"), None);
    let got = r.route_to_new(b"/new.txt", b"new.txt", true);
    assert_eq!(got, Some(b"new.txt".to_vec()));
    assert_eq!(r.route_to(b"/new.txt"), Some(b"new.txt".to_vec()));
}

#[test]
fn resolve_or_insert_skips_missing_candidate() {
    let mut r = tree_router();
    assert_eq!(r.route_to_new(b"/gone", b"gone", false), None);
    assert_eq!(r.route_to(b"/gone"), None);
}

#[test]
fn resolve_or_insert_is_idempotent() {
    let mut r = tree_router();
    let first = r.route_to_new(b"/new.txt", b"new.txt", true);
    let second = r.route_to_new(b"/new.txt", b"new.txt", true);
    assert_eq!(first, second);
    assert_eq!(first, Some(b"new.txt".to_vec()));
    assert_eq!(r.route_to(b"/new.txt"), Some(b"new.txt".to_vec()));
}

#[test]
fn candidate_path_decodes_and_strips() {
    assert_eq!(selfish::handler::candidate_path(b"/a%20b.txt"), b"a b.txt".to_vec());
    assert_eq!(selfish::handler::candidate_path(b"//nested/dir%2Ffile"), b"nested/dir/file".to_vec());
    assert_eq!(selfish::handler::candidate_path(b"/plain"), b"plain".to_vec());
    assert_eq!(selfish::handler::candidate_path(b"/odd%zz"), b"odd%zz".to_vec());
}

#[test]
fn uri_to_path_joins_under_root() {
    assert_eq!(selfish::handler::uri_to_path(b"/srv", b"/x/y"), b"/srv/x/y".to_vec());
}
