use lucide_svg_rs::catalog::search_records;
use lucide_svg_rs::source::{
    child_record, directory_listing, failure_of_status, object_record, remote_listing,
};
use lucide_svg_rs::{Backend, DirectoryEntry, ErrorKind, IconRecord, RemoteEntry};

fn child(file_name: &str, is_file: bool) -> DirectoryEntry {
    DirectoryEntry {
        file_name: file_name.to_string(),
        path: format!("fixture/{}", file_name),
        is_file,
    }
}

fn object(name: &str, kind: &str, size: u64) -> RemoteEntry {
    RemoteEntry {
        name: name.to_string(),
        download_url: format!("https://example.test/raw/{}", name),
        kind: kind.to_string(),
        size,
    }
}

fn names(records: &[IconRecord]) -> Vec<&str> {
    records.iter().map(|r| r.name.as_str()).collect()
}

#[test]
fn directory_with_alpha_and_beta() {
    let entries = vec![child("beta.svg", true), child("alpha.svg", true)];
    let listing = directory_listing(&entries);
    assert_eq!(names(&listing), vec!["alpha", "beta"]);
    let found = search_records(&listing, "al", Backend::LocalDirectory.ignores_case());
    assert_eq!(names(&found), vec!["alpha"]);
}

#[test]
fn directory_ignores_other_files_and_subdirectories() {
    let entries = vec![
        child("notes.txt", true),
        child("zoo.svg", true),
        child("nested.svg", false),
        child(".svg", true),
        child("apple.svg", true),
        child("APPLE.SVG", true),
    ];
    let listing = directory_listing(&entries);
    assert_eq!(
        listing,
        vec![
            IconRecord::new("apple", None, "fixture/apple.svg"),
            IconRecord::new("zoo", None, "fixture/zoo.svg"),
        ]
    );
    assert_eq!(child_record(&entries[0]), None);
    assert_eq!(child_record(&entries[2]), None);
    assert_eq!(child_record(&entries[3]), None);
    assert_eq!(
        child_record(&entries[4]),
        Some(IconRecord::new("apple", None, "fixture/apple.svg"))
    );
}

#[test]
fn remote_listing_keeps_files_that_are_icons() {
    let entries = vec![
        object("zap.svg", "file", 300),
        object("icons", "dir", 0),
        object("README.md", "file", 1200),
        object("anchor.svg", "file", 512),
        object("link.svg", "symlink", 10),
        object("anchor.svg", "file", 999),
    ];
    let listing = remote_listing(&entries);
    assert_eq!(
        listing,
        vec![
            IconRecord::new("anchor.svg", Some(512), "https://example.test/raw/anchor.svg"),
            IconRecord::new("zap.svg", Some(300), "https://example.test/raw/zap.svg"),
        ]
    );
    assert_eq!(object_record(&entries[1]), None);
    assert_eq!(object_record(&entries[2]), None);
    assert_eq!(object_record(&entries[4]), None);
}

#[test]
fn remote_search_is_case_insensitive() {
    let listing = remote_listing(&vec![object("Anchor.svg", "file", 1), object("zap.svg", "file", 2)]);
    let found = search_records(&listing, "anch", Backend::RemoteApi.ignores_case());
    assert_eq!(names(&found), vec!["Anchor.svg"]);
}

#[test]
fn status_decides_the_kind_of_failure() {
    assert_eq!(failure_of_status(200), None);
    assert_eq!(failure_of_status(204), None);
    assert_eq!(failure_of_status(299), None);
    assert_eq!(failure_of_status(404), Some(ErrorKind::NotFound));
    assert_eq!(failure_of_status(199), Some(ErrorKind::TransportFailure));
    assert_eq!(failure_of_status(300), Some(ErrorKind::TransportFailure));
    assert_eq!(failure_of_status(403), Some(ErrorKind::TransportFailure));
    assert_eq!(failure_of_status(500), Some(ErrorKind::TransportFailure));
}
