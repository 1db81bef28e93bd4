use typst_gateway::listing::{build_listing, render_listing_page, sort_entries, DirEntryInfo};

fn file(name: &str) -> DirEntryInfo {
    DirEntryInfo { name: name.to_string(), is_dir: false }
}

fn dir(name: &str) -> DirEntryInfo {
    DirEntryInfo { name: name.to_string(), is_dir: true }
}

fn names(entries: &[DirEntryInfo]) -> Vec<String> {
    entries.iter().map(|e| e.name.clone()).collect()
}

#[test]
fn listing_hides_dot_entries_and_sorts_by_name() {
    // A directory with these children and no exclusions configured.
    let children = vec![file("b.typ"), file("A"), file(".git"), file("a.typ")];
    let listing = build_listing(children, &Vec::new());
    assert_eq!(names(&listing), vec!["A".to_string(), "a.typ".to_string(), "b.typ".to_string()]);
}

#[test]
fn directories_come_before_files() {
    let children = vec![file("a"), dir("z"), file("b"), dir("m")];
    let listing = build_listing(children, &Vec::new());
    assert_eq!(
        names(&listing),
        vec!["m".to_string(), "z".to_string(), "a".to_string(), "b".to_string()]
    );
    assert!(listing[0].is_dir && listing[1].is_dir);
    assert!(!listing[2].is_dir && !listing[3].is_dir);
}

#[test]
fn excluded_names_are_dropped_at_any_kind() {
    let excl = vec!["secret".to_string()];
    let children = vec![dir("secret"), file("a"), file("secret2")];
    let listing = build_listing(children, &excl);
    assert_eq!(names(&listing), vec!["a".to_string(), "secret2".to_string()]);
}

#[test]
fn empty_directory_lists_nothing() {
    let listing = build_listing(Vec::new(), &Vec::new());
    assert!(listing.is_empty());
}

#[test]
fn sort_keeps_every_entry() {
    let sorted = sort_entries(vec![file("c"), file("a"), file("b"), file("a")]);
    assert_eq!(
        names(&sorted),
        vec!["a".to_string(), "a".to_string(), "b".to_string(), "c".to_string()]
    );
}

#[test]
fn page_for_root_has_no_parent_link() {
    let entries = vec![file("a.typ")];
    let page = render_listing_page("/", "/view", &entries);
    let expected = "<!DOCTYPE html>\n<html>\n<head>\n    <title>/</title>\n    <meta name=\"viewport\" content=\"width=device-width, initial-scale=1.0\">\n    <meta charset=\"utf-8\">\n    <link rel=\"stylesheet\" href=\"/main.css\">\n</head>\n\n<body>\n    <h1 class=\"title\">/</h1>\n\n    <ul class=\"dir-list\">\n        <li class=\"file\"><a href=\"/view/a.typ\">a.typ</a></li>\n    </ul>\n</body>\n\n</html>";
    assert_eq!(page, expected);
}

#[test]
fn page_below_root_links_to_parent() {
    let entries = vec![dir("sub"), file("x.txt")];
    let page = render_listing_page("/docs", "/view", &entries);
    assert!(page.contains("<title>docs</title>"));
    assert!(page.contains("<li><a href=\"/view/\">..</a></li>"));
    assert!(page.contains("<li class=\"dir\"><a href=\"/view/docs/sub\">\u{1f4c1} sub</a></li>"));
    assert!(page.contains("<li class=\"file\"><a href=\"/view/docs/x.txt\">x.txt</a></li>"));
}

#[test]
fn parent_link_comes_before_the_entries() {
    let entries = vec![file("n.typ")];
    let page = render_listing_page("/a/b", "", &entries);
    let expected = "<!DOCTYPE html>\n<html>\n<head>\n    <title>b</title>\n    <meta name=\"viewport\" content=\"width=device-width, initial-scale=1.0\">\n    <meta charset=\"utf-8\">\n    <link rel=\"stylesheet\" href=\"/main.css\">\n</head>\n\n<body>\n    <h1 class=\"title\">/a/b</h1>\n\n    <ul class=\"dir-list\">\n        <li><a href=\"/a\">..</a></li><li class=\"file\"><a href=\"/a/b/n.typ\">n.typ</a></li>\n    </ul>\n</body>\n\n</html>";
    assert_eq!(page, expected);
}
