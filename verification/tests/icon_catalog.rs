use lucide_svg_rs::{
    Backend, DirectoryEntry, ErrorKind, ExportResult, IconCatalog, IconError, IconRecord,
    IconSource, RemoteEntry,
};
use std::io::Write;

fn archive_of(entries: &[(&str, &[u8])]) -> Vec<u8> {
    let mut builder = tar::Builder::new(Vec::new());
    for (path, content) in entries {
        let mut header = tar::Header::new_gnu();
        header.set_size(content.len() as u64);
        header.set_mode(0o644);
        header.set_cksum();
        builder.append_data(&mut header, path, *content).unwrap();
    }
    let tarball = builder.into_inner().unwrap();
    let mut encoder = flate2::write::GzEncoder::new(Vec::new(), flate2::Compression::default());
    encoder.write_all(&tarball).unwrap();
    encoder.finish().unwrap()
}

fn directory() -> IconSource {
    IconSource::LocalDirectory {
        children: vec![
            DirectoryEntry {
                file_name: "beta.svg".to_string(),
                path: "fixture/beta.svg".to_string(),
                is_file: true,
            },
            DirectoryEntry {
                file_name: "Alpha.svg".to_string(),
                path: "fixture/Alpha.svg".to_string(),
                is_file: true,
            },
            DirectoryEntry {
                file_name: "alpha.svg".to_string(),
                path: "fixture/alpha.svg".to_string(),
                is_file: true,
            },
        ],
    }
}

fn remote() -> IconSource {
    IconSource::RemoteApi {
        objects: vec![
            RemoteEntry {
                name: "beta.svg".to_string(),
                download_url: "https://example.test/beta.svg".to_string(),
                kind: "file".to_string(),
                size: 20,
            },
            RemoteEntry {
                name: "Alpha.svg".to_string(),
                download_url: "https://example.test/Alpha.svg".to_string(),
                kind: "file".to_string(),
                size: 10,
            },
        ],
    }
}

fn names(records: &[IconRecord]) -> Vec<&str> {
    records.iter().map(|r| r.name.as_str()).collect()
}

#[test]
fn every_backend_lists_in_strictly_ascending_order() {
    let archive = IconSource::LocalArchive {
        data: archive_of(&[("x/b.svg", b"b"), ("x/a.svg", b"a"), ("y/b.svg", b"other")]),
    };
    for source in [directory(), remote(), archive] {
        let catalog = IconCatalog::open(&source).unwrap();
        assert_eq!(catalog.backend(), source.backend());
        assert_eq!(catalog.list(), &source.enumerate().unwrap());
        for pair in catalog.list().windows(2) {
            assert!(pair[0].name < pair[1].name);
        }
    }
}

#[test]
fn backends_are_told_apart() {
    assert_eq!(directory().backend(), Backend::LocalDirectory);
    assert_eq!(remote().backend(), Backend::RemoteApi);
    assert_eq!(IconSource::LocalArchive { data: Vec::new() }.backend(), Backend::LocalArchive);
}

#[test]
fn a_malformed_archive_has_no_catalogue() {
    let source = IconSource::LocalArchive { data: b"nothing".to_vec() };
    assert_eq!(source.enumerate().unwrap_err().kind, ErrorKind::ParseFailure);
    assert_eq!(IconCatalog::open(&source).unwrap_err().kind, ErrorKind::ParseFailure);
}

#[test]
fn search_follows_the_rule_of_the_backend() {
    let local = IconCatalog::open(&directory()).unwrap();
    assert_eq!(names(local.list()), vec!["Alpha", "alpha", "beta"]);
    assert_eq!(names(&local.search("al")), vec!["alpha"]);
    assert_eq!(names(&local.search("Al")), vec!["Alpha"]);
    let far = IconCatalog::open(&remote()).unwrap();
    assert_eq!(names(far.list()), vec!["Alpha.svg", "beta.svg"]);
    assert_eq!(names(&far.search("al")), vec!["Alpha.svg"]);
    assert_eq!(names(&far.search("AL")), vec!["Alpha.svg"]);
    assert_eq!(names(&far.search("svg")), Vec::<&str>::new());
}

#[test]
fn select_shows_all_without_a_pattern() {
    let local = IconCatalog::open(&directory()).unwrap();
    assert_eq!(&local.select(None), local.list());
    assert_eq!(local.select(Some("bet")), local.search("bet"));
}

#[test]
fn resolve_in_a_catalogue() {
    let far = IconCatalog::open(&remote()).unwrap();
    assert_eq!(far.resolve("beta").unwrap().locator, "https://example.test/beta.svg");
    assert_eq!(far.resolve("beta.svg").unwrap().size_bytes, Some(20));
    assert_eq!(far.resolve("gamma").unwrap_err(), IconError::icon_not_found("gamma"));
}

#[test]
fn new_lists_the_records_given() {
    let catalog = IconCatalog::new(
        Backend::LocalDirectory,
        vec![
            IconRecord::new("b", None, "1"),
            IconRecord::new("a", None, "2"),
            IconRecord::new("b", None, "3"),
        ],
    );
    assert_eq!(
        catalog.list(),
        &vec![IconRecord::new("a", None, "2"), IconRecord::new("b", None, "1")]
    );
}

#[test]
fn export_from_a_catalogue() {
    let far = IconCatalog::open(&remote()).unwrap();
    let mut batch = far.export_many(&vec!["nope".to_string(), "beta".to_string()], "out");
    let task = batch.next_task().unwrap();
    assert_eq!(task.destination, "out/beta.svg");
    assert_eq!(task.record.locator, "https://example.test/beta.svg");
    assert!(batch.settle(Ok(20)));
    assert_eq!(batch.next_task(), None);
    let results = batch.into_results();
    assert_eq!(results[0].name, "nope");
    assert_eq!(
        results[1].result,
        ExportResult::Success { bytes_written: 20, path: "out/beta.svg".to_string() }
    );

    let mut all = far.export_all("everything/");
    let mut destinations = Vec::new();
    while let Some(task) = all.next_task() {
        destinations.push(task.destination.clone());
        all.settle(Err(IconError::new(ErrorKind::TransportFailure, "offline")));
    }
    assert_eq!(destinations, vec!["everything/Alpha.svg", "everything/beta.svg"]);
    assert!(all
        .results()
        .iter()
        .all(|r| matches!(r.result, ExportResult::Failure { kind: ErrorKind::TransportFailure, .. })));
}

#[test]
fn export_all_takes_every_record_once() {
    let catalog = IconCatalog::new(
        Backend::LocalDirectory,
        vec![
            IconRecord::new("a", None, "dir/a.svg"),
            IconRecord::new("a.svg", None, "dir/a.svg.svg"),
            IconRecord::new("b", None, "dir/b.svg"),
        ],
    );
    let mut batch = catalog.export_all("out");
    let mut taken = Vec::new();
    while let Some(task) = batch.next_task() {
        assert_eq!(task.name, task.record.name);
        taken.push(task.record.clone());
        batch.settle(Ok(1));
    }
    assert_eq!(&taken, catalog.list());
}
