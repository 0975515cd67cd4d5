use lucide_svg_rs::json::{names_to_json, rendered};
use lucide_svg_rs::{ErrorKind, IconRecord, LucideClient};
use std::io::Write;

fn archive_of(entries: &[(&str, &[u8])]) -> Vec<u8> {
    let mut builder = tar::Builder::new(Vec::new());
    for (path, content) in entries {
        let mut header = tar::Header::new_gnu();
        header.set_size(content.len() as u64);
        header.set_mode(0o644);
        header.set_cksum();
        builder.append_data(&mut header, path, *content).unwrap();
    }
    let tarball = builder.into_inner().unwrap();
    let mut encoder = flate2::write::GzEncoder::new(Vec::new(), flate2::Compression::default());
    encoder.write_all(&tarball).unwrap();
    encoder.finish().unwrap()
}

fn icons_tar() -> Vec<u8> {
    archive_of(&[
        (
            "a/activity.svg",
            b"<svg xmlns=\"http://www.w3.org/2000/svg\"><path d=\"M22 12h-4\"/></svg>\n",
        ),
        (
            "b/book-heart.svg",
            b"<svg xmlns=\"http://www.w3.org/2000/svg\"><path d=\"M16 8.2\"/></svg>\n",
        ),
        ("b/readme.txt", b"not an icon"),
        ("b/broken.svg", b"\xff\xfe not text"),
    ])
}

#[test]
fn test_get_icon_content_returns_svg() {
    let client = LucideClient::new(icons_tar()).unwrap();
    let svg = client.get_icon_content("activity").unwrap();
    assert!(svg.contains("<svg"));
    assert!(svg.contains("</svg>"));
}

#[test]
fn test_get_icon_content_missing_icon_errors() {
    let client = LucideClient::new(icons_tar()).unwrap();
    let result = client.get_icon_content("does-not-exist");
    assert!(result.is_err());
}

#[test]
fn missing_icon_is_not_found() {
    let client = LucideClient::new(icons_tar()).unwrap();
    let error = client.get_icon_content("missing").unwrap_err();
    assert_eq!(error.kind, ErrorKind::NotFound);
    assert_eq!(error.detail, "missing.svg");
}

#[test]
fn a_name_with_a_directory_in_it_finds_nothing() {
    let client = LucideClient::new(icons_tar()).unwrap();
    assert!(client.get_icon_content("activity").is_ok());
    assert!(client.get_icon_content("activity.svg").is_ok());
    assert!(client.get_icon_content("book-heart").is_ok());
    let error = client.get_icon_content("a/activity").unwrap_err();
    assert_eq!(error.kind, ErrorKind::NotFound);
    assert_eq!(error.detail, "a/activity.svg");
    assert_eq!(client.get_icon_content("a/activity.svg").unwrap_err().kind, ErrorKind::NotFound);
    assert_eq!(client.get_icon_content("/activity").unwrap_err().kind, ErrorKind::NotFound);
    assert!(client.fetch_content("a/activity.svg").is_ok());
}

#[test]
fn content_is_found_exactly_for_the_names_listed() {
    let client = LucideClient::new(icons_tar()).unwrap();
    let listed = client.list_icons().unwrap();
    for name in ["activity", "activity.svg", "book-heart", "readme", "readme.txt", "a/activity",
        "activit", "", "broken.svg", "b/broken"]
    {
        let base = name.strip_suffix(".svg").unwrap_or(name);
        let found = client.get_icon_content(name).map_err(|e| e.kind) != Err(ErrorKind::NotFound);
        assert_eq!(found, listed.iter().any(|n| n == base), "{:?}", name);
    }
}

#[test]
fn content_is_the_whole_entry() {
    let client = LucideClient::new(icons_tar()).unwrap();
    let expected = "<svg xmlns=\"http://www.w3.org/2000/svg\"><path d=\"M16 8.2\"/></svg>\n";
    assert_eq!(client.get_icon_content("book-heart").unwrap(), expected);
    assert_eq!(client.get_icon_content("book-heart.svg").unwrap(), expected);
    assert_eq!(client.fetch_content("b/book-heart.svg").unwrap(), expected.as_bytes());
}

#[test]
fn content_that_is_no_text_is_a_parse_failure() {
    let client = LucideClient::new(icons_tar()).unwrap();
    let error = client.get_icon_content("broken").unwrap_err();
    assert_eq!(error.kind, ErrorKind::ParseFailure);
    assert_eq!(client.fetch_content("broken.svg").unwrap(), b"\xff\xfe not text".to_vec());
}

#[test]
fn list_icons_is_sorted_without_extension() {
    let client = LucideClient::new(icons_tar()).unwrap();
    assert_eq!(client.list_icons().unwrap(), vec!["activity", "book-heart", "broken"]);
    let listing = client.list().unwrap();
    assert_eq!(listing[0], IconRecord::new("activity", None, "a/activity.svg"));
    assert_eq!(listing.len(), 3);
}

#[test]
fn search_icons_filters_by_substring() {
    let client = LucideClient::new(icons_tar()).unwrap();
    assert_eq!(client.search_icons("b").unwrap(), vec!["book-heart", "broken"]);
    assert_eq!(client.search_icons("heart").unwrap(), vec!["book-heart"]);
    assert_eq!(client.search_icons("Heart").unwrap(), Vec::<String>::new());
    assert_eq!(client.search_icons("").unwrap(), client.list_icons().unwrap());
    assert_eq!(client.search("act").unwrap(), vec![client.list().unwrap()[0].clone()]);
}

#[test]
fn every_name_found_is_listed_in_the_same_order() {
    let client = LucideClient::new(icons_tar()).unwrap();
    let all = client.list_icons().unwrap();
    for pattern in ["", "a", "b", "o", "k", "zz", "-"] {
        let found = client.search_icons(pattern).unwrap();
        let expected: Vec<String> =
            all.iter().filter(|name| name.contains(pattern)).cloned().collect();
        assert_eq!(found, expected, "pattern {:?}", pattern);
    }
}

#[test]
fn resolve_succeeds_exactly_for_listed_names() {
    let client = LucideClient::new(icons_tar()).unwrap();
    for name in client.list_icons().unwrap() {
        assert_eq!(client.resolve(&name).unwrap().name, name);
        assert_eq!(client.resolve(&format!("{}.svg", name)).unwrap().name, name);
    }
    let error = client.resolve("missing").unwrap_err();
    assert_eq!(error.kind, ErrorKind::IconNotFound);
    assert_eq!(error.detail, "missing");
    assert_eq!(client.resolve("readme").unwrap_err().kind, ErrorKind::IconNotFound);
}

#[test]
fn json_lists() {
    let client = LucideClient::new(icons_tar()).unwrap();
    assert_eq!(
        client.list_icons_json().unwrap(),
        "[\n  \"activity\",\n  \"book-heart\",\n  \"broken\"\n]"
    );
    assert_eq!(client.search_icons_json("act").unwrap(), "[\n  \"activity\"\n]");
    assert_eq!(client.search_icons_json("zz").unwrap(), "[]");
    assert_eq!(
        names_to_json(&vec!["say \"hi\"".to_string()]).unwrap(),
        "[\n  \"say \\\"hi\\\"\"\n]"
    );
}

#[test]
fn rendered_maps_the_outcome_of_the_serialiser() {
    assert_eq!(rendered(Ok("[]".to_string())), Ok("[]".to_string()));
    let failure = serde_json::from_str::<Vec<String>>("{").unwrap_err();
    assert_eq!(rendered(Err(failure)).unwrap_err().kind, ErrorKind::ParseFailure);
}

#[test]
fn a_client_over_no_archive_fails_to_parse() {
    let client = LucideClient::new(Vec::new()).unwrap();
    assert_eq!(client.list_icons().unwrap_err().kind, ErrorKind::ParseFailure);
    assert_eq!(client.search_icons("a").unwrap_err().kind, ErrorKind::ParseFailure);
    assert_eq!(client.get_icon_content("a").unwrap_err().kind, ErrorKind::ParseFailure);
    assert_eq!(client.resolve("a").unwrap_err().kind, ErrorKind::ParseFailure);
    assert_eq!(client.list_icons_json().unwrap_err().kind, ErrorKind::ParseFailure);
    assert!(client.download_all_icons("out").is_err());
}
