use lucide_svg_rs::archive::{archive_fetch, archive_listing, unpack};
use lucide_svg_rs::{ErrorKind, IconError};
use std::io::Write;

fn tarball_of(entries: &[(&str, &[u8])]) -> Vec<u8> {
    let mut builder = tar::Builder::new(Vec::new());
    for (path, content) in entries {
        let mut header = tar::Header::new_gnu();
        header.set_size(content.len() as u64);
        header.set_mode(0o644);
        header.set_cksum();
        builder.append_data(&mut header, path, *content).unwrap();
    }
    builder.into_inner().unwrap()
}

fn gzip(bytes: &[u8]) -> Vec<u8> {
    let mut encoder = flate2::write::GzEncoder::new(Vec::new(), flate2::Compression::default());
    encoder.write_all(bytes).unwrap();
    encoder.finish().unwrap()
}

fn sample() -> Vec<u8> {
    let long = format!("{}/{}.svg", "d".repeat(90), "n".repeat(120));
    tarball_of(&[
        ("icons/activity.svg", b"<svg>activity</svg>"),
        ("icons/", b""),
        (long.as_str(), b"<svg>long</svg>"),
        ("icons/book-heart.svg", b"<svg>book-heart</svg>"),
    ])
}

fn parse_failure_or_ok<T>(result: &Result<T, IconError>) {
    if let Err(error) = result {
        assert_eq!(error.kind, ErrorKind::ParseFailure);
    }
}

fn exercise(data: &[u8]) {
    let listing = archive_listing(data);
    parse_failure_or_ok(&listing);
    assert_eq!(listing, archive_listing(data));
    let index = unpack(data);
    if let Err(error) = &index {
        assert_eq!(error.kind, ErrorKind::ParseFailure);
    }
    assert_eq!(listing.is_ok(), index.is_ok());
    if let Ok(index) = &index {
        assert_eq!(listing.as_ref().ok(), Some(&index.listing()));
    }
    let fetched = archive_fetch(data, "activity.svg");
    if let Err(error) = &fetched {
        assert!(error.kind == ErrorKind::ParseFailure || error.kind == ErrorKind::NotFound);
        assert_eq!(error.kind == ErrorKind::ParseFailure, listing.is_err());
    }
    assert_eq!(fetched, archive_fetch(data, "activity.svg"));
    if let Ok(listing) = &listing {
        for record in listing {
            assert!(archive_fetch(data, &record.locator).is_ok());
        }
    }
}

#[test]
fn truncated_archives_fail_to_parse_or_list() {
    let whole = gzip(&sample());
    for keep in 0..=whole.len() {
        exercise(&whole[..keep]);
    }
}

#[test]
fn truncated_tarballs_fail_to_parse_or_list() {
    let tarball = sample();
    let mut keep = 0;
    while keep <= tarball.len() {
        exercise(&gzip(&tarball[..keep]));
        keep += 61;
    }
}

#[test]
fn corrupted_tarballs_fail_to_parse_or_list() {
    let tarball = sample();
    let mut at = 0;
    while at < tarball.len() {
        for flip in [0x01u8, 0x80, 0xff] {
            let mut damaged = tarball.clone();
            damaged[at] ^= flip;
            exercise(&gzip(&damaged));
        }
        at += 7;
    }
}

#[test]
fn corrupted_archives_fail_to_parse_or_list() {
    let whole = gzip(&sample());
    for at in 0..whole.len() {
        let mut damaged = whole.clone();
        damaged[at] ^= 0x55;
        exercise(&damaged);
    }
}

#[test]
fn the_whole_sample_lists_its_icons() {
    let whole = gzip(&sample());
    let listing = archive_listing(&whole).unwrap();
    assert_eq!(listing.len(), 3);
    assert_eq!(listing[0].name, "activity");
    assert_eq!(archive_fetch(&whole, "icons/").unwrap(), Vec::<u8>::new());
    assert_eq!(archive_fetch(&whole, "icons/..").unwrap_err().kind, ErrorKind::NotFound);
    assert_eq!(listing[1].name, "book-heart");
    assert_eq!(listing[2].name, "n".repeat(120));
    assert_eq!(unpack(&whole).unwrap().len(), 4);
}
