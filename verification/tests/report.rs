use lucide_svg_rs::error::IconError;
use lucide_svg_rs::report::{copied_report, decimal, found_report};
use lucide_svg_rs::ErrorKind;

#[test]
fn decimal_numerals() {
    assert_eq!(decimal(0), "0");
    assert_eq!(decimal(7), "7");
    assert_eq!(decimal(10), "10");
    assert_eq!(decimal(1509), "1509");
    assert_eq!(decimal(usize::MAX), usize::MAX.to_string());
}

#[test]
fn found_report_lists_the_names() {
    let names = vec!["alpha".to_string(), "beta".to_string()];
    assert_eq!(found_report(&names), "Found 2\n[\"alpha\", \"beta\"]");
    assert_eq!(found_report(&names), format!("Found {}\n{:?}", names.len(), names));
    assert_eq!(found_report(&vec!["one".to_string()]), "Found 1\n[\"one\"]");
    assert_eq!(found_report(&Vec::new()), "Found 0\n[]");
}

#[test]
fn copied_report_counts() {
    assert_eq!(copied_report(12, 0), "Copied 12 icons (0 failed)");
    assert_eq!(copied_report(0, 3), "Copied 0 icons (3 failed)");
}

#[test]
fn error_messages() {
    assert_eq!(IconError::icon_not_found("missing").message(), "icon not found: missing");
    assert_eq!(
        IconError::new(ErrorKind::NotFound, "a/b.svg").message(),
        "not found: a/b.svg"
    );
    assert_eq!(
        IconError::new(ErrorKind::SourceUnavailable, "icons.tar.gz").message(),
        "source unavailable: icons.tar.gz"
    );
    assert_eq!(IconError::new(ErrorKind::ParseFailure, "x").message(), "malformed content: x");
    assert_eq!(IconError::new(ErrorKind::TransportFailure, "x").message(), "transport failure: x");
    assert_eq!(IconError::new(ErrorKind::IoFailure, "x").message(), "i/o failure: x");
    assert_eq!(IconError::new(ErrorKind::IoFailure, "disk").label(), "i/o failure");
}
