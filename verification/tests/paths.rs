use typst_gateway::listing::parent_path;
use typst_gateway::path_rules::{
    is_file_name_ignored, is_path_ignored, normalize_request_path, resolve, sandbox_join,
    split_segments, PathKind, Resolution,
};

fn strings(v: &[&str]) -> Vec<String> {
    v.iter().map(|s| s.to_string()).collect()
}

#[test]
fn normalization_strips_leading_slashes() {
    assert_eq!(normalize_request_path("///docs/a.typ"), "/docs/a.typ");
    assert_eq!(normalize_request_path("docs/a.typ"), "/docs/a.typ");
    assert_eq!(normalize_request_path("/"), "/");
    assert_eq!(normalize_request_path(""), "/");
}

#[test]
fn segments_split_on_slashes() {
    assert_eq!(split_segments("/a/b/"), strings(&["a", "b"]));
    assert_eq!(split_segments("a//b"), strings(&["a", "b"]));
    assert_eq!(split_segments("/"), strings(&[]));
    assert_eq!(split_segments(""), strings(&[]));
}

#[test]
fn hidden_and_configured_names_are_ignored() {
    let none = strings(&[]);
    let some = strings(&["notes"]);
    assert!(is_file_name_ignored(&".git".to_string(), &none));
    assert!(is_file_name_ignored(&"notes".to_string(), &some));
    assert!(!is_file_name_ignored(&"a.typ".to_string(), &some));
    assert!(!is_file_name_ignored(&"".to_string(), &none));
}

#[test]
fn exclusion_applies_to_every_ancestor_segment() {
    let excl = strings(&["private"]);
    assert!(is_path_ignored("/private/sub/file.typ", &excl));
    assert!(is_path_ignored("/x/.git/config", &excl));
    assert!(!is_path_ignored("/docs/a.typ", &excl));
    assert!(!is_path_ignored("/", &excl));
}

#[test]
fn forbidden_hides_existence() {
    let excl = strings(&["private"]);
    // The same excluded path answers Forbidden whether or not it exists.
    assert_eq!(resolve("/private/a", &excl, PathKind::Missing), Resolution::Forbidden);
    assert_eq!(resolve("/private/a", &excl, PathKind::File), Resolution::Forbidden);
    assert_eq!(resolve("/private/a", &excl, PathKind::Directory), Resolution::Forbidden);
}

#[test]
fn missing_paths_are_not_found() {
    let none = strings(&[]);
    assert_eq!(resolve("/nope", &none, PathKind::Missing), Resolution::NotFound);
    assert_eq!(resolve("/a.typ", &none, PathKind::File), Resolution::File);
    assert_eq!(resolve("/docs", &none, PathKind::Directory), Resolution::Directory);
}

#[test]
fn parent_traversal_is_forbidden() {
    let none = strings(&[]);
    let normalized = normalize_request_path("../../etc/passwd");
    assert_eq!(resolve(&normalized, &none, PathKind::File), Resolution::Forbidden);
    assert_eq!(resolve("/a/../b", &none, PathKind::Missing), Resolution::Forbidden);
}

#[test]
fn join_concatenates_root_and_path() {
    assert_eq!(sandbox_join("/srv/docs", "/a.typ"), "/srv/docs/a.typ");
}

#[test]
fn parent_links() {
    assert_eq!(parent_path("/a/b"), Some("/a".to_string()));
    assert_eq!(parent_path("/a"), Some("/".to_string()));
    assert_eq!(parent_path("/a/"), Some("/".to_string()));
    assert_eq!(parent_path("/"), None);
}
