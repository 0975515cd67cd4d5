use lucide_svg_rs::catalog::{name_hits, position_of, resolve_record, search_records};
use lucide_svg_rs::{Backend, ErrorKind, IconRecord};

fn local() -> Vec<IconRecord> {
    vec![
        IconRecord::new("Alarm", None, "icons/Alarm.svg"),
        IconRecord::new("activity", None, "icons/activity.svg"),
        IconRecord::new("alarm-clock", None, "icons/alarm-clock.svg"),
        IconRecord::new("book-heart", None, "icons/book-heart.svg"),
    ]
}

fn remote() -> Vec<IconRecord> {
    vec![
        IconRecord::new("Alarm.svg", Some(10), "https://example.test/Alarm.svg"),
        IconRecord::new("activity.svg", Some(20), "https://example.test/activity.svg"),
        IconRecord::new("svg-file.svg", Some(30), "https://example.test/svg-file.svg"),
    ]
}

fn names(records: &[IconRecord]) -> Vec<&str> {
    records.iter().map(|r| r.name.as_str()).collect()
}

#[test]
fn backends_fold_case_only_when_remote() {
    assert!(!Backend::LocalDirectory.ignores_case());
    assert!(!Backend::LocalArchive.ignores_case());
    assert!(Backend::RemoteApi.ignores_case());
}

#[test]
fn local_search_minds_the_case() {
    let found = search_records(&local(), "alarm", Backend::LocalArchive.ignores_case());
    assert_eq!(names(&found), vec!["alarm-clock"]);
    let found = search_records(&local(), "Al", false);
    assert_eq!(names(&found), vec!["Alarm"]);
}

#[test]
fn remote_search_ignores_the_case() {
    let found = search_records(&remote(), "ALARM", Backend::RemoteApi.ignores_case());
    assert_eq!(names(&found), vec!["Alarm.svg"]);
    let found = search_records(&remote(), "a", true);
    assert_eq!(names(&found), vec!["Alarm.svg", "activity.svg"]);
}

#[test]
fn search_looks_at_the_name_without_its_extension() {
    let found = search_records(&remote(), "svg", true);
    assert_eq!(names(&found), vec!["svg-file.svg"]);
    let found = search_records(&remote(), ".", true);
    assert!(found.is_empty());
}

#[test]
fn search_keeps_the_order_and_the_records() {
    let all = local();
    let found = search_records(&all, "k", false);
    assert_eq!(names(&found), vec!["alarm-clock", "book-heart"]);
    assert_eq!(found[0], all[2]);
    assert_eq!(found[1], all[3]);
    let everything = search_records(&all, "", false);
    assert_eq!(everything, all);
    assert!(search_records(&all, "nothing-like-it", false).is_empty());
}

#[test]
fn name_hits_is_the_test_of_one_name() {
    assert!(name_hits("book-heart", "heart", false));
    assert!(!name_hits("book-heart", "Heart", false));
    assert!(name_hits("book-heart", "Heart", true));
    assert!(name_hits("Book-Heart.svg", "k-h", true));
    assert!(!name_hits("book.svg", "svg", false));
    assert!(!name_hits(".svg", "svg", false));
    assert!(name_hits(".svg", "", false));
}

#[test]
fn resolve_finds_with_and_without_the_extension() {
    let all = local();
    assert_eq!(resolve_record(&all, "activity").unwrap(), all[1]);
    assert_eq!(resolve_record(&all, "activity.svg").unwrap(), all[1]);
    let far = remote();
    assert_eq!(resolve_record(&far, "activity").unwrap(), far[1]);
    assert_eq!(resolve_record(&far, "activity.svg").unwrap(), far[1]);
}

#[test]
fn resolve_fails_with_icon_not_found() {
    let error = resolve_record(&local(), "missing").unwrap_err();
    assert_eq!(error.kind, ErrorKind::IconNotFound);
    assert_eq!(error.detail, "missing");
    let error = resolve_record(&local(), "ACTIVITY").unwrap_err();
    assert_eq!(error.kind, ErrorKind::IconNotFound);
    let error = resolve_record(&Vec::new(), "activity").unwrap_err();
    assert_eq!(error.kind, ErrorKind::IconNotFound);
}

#[test]
fn resolve_takes_the_record_of_exactly_the_name_first() {
    let both = vec![
        IconRecord::new("a", None, "a.svg"),
        IconRecord::new("a.svg", None, "a.svg.svg"),
    ];
    assert_eq!(position_of(&both, "a"), Some(0));
    assert_eq!(position_of(&both, "a.svg"), Some(1));
    assert_eq!(position_of(&both, "a.svg.svg"), Some(1));
    assert_eq!(position_of(&both, "b"), None);
    for (at, record) in both.iter().enumerate() {
        assert_eq!(position_of(&both, &record.name), Some(at));
    }
}

#[test]
fn resolve_takes_the_first_record_that_is_alike() {
    let apart = vec![
        IconRecord::new("x", None, "x.svg"),
        IconRecord::new("x.svg.svg", None, "x.svg.svg.svg"),
    ];
    assert_eq!(position_of(&apart, "x.svg"), Some(0));
    let other = vec![
        IconRecord::new("w", None, "w.svg"),
        IconRecord::new("x.svg.svg", None, "x.svg.svg.svg"),
    ];
    assert_eq!(position_of(&other, "x.svg"), Some(1));
    assert_eq!(position_of(&other, "w.svg"), Some(0));
    assert_eq!(position_of(&other, "w.svg.svg"), None);
}
