use lucide_svg_rs::names::{
    canonical_file_name, ends_in_icon_extension, final_component_of, has_icon_extension, icon_stem,
    name_answers_to,
};

#[test]
fn stem_strips_the_extension() {
    assert_eq!(icon_stem("activity.svg"), "activity");
    assert_eq!(icon_stem("book-heart.svg"), "book-heart");
    assert_eq!(icon_stem("a.b.svg"), "a.b");
    assert_eq!(icon_stem("..svg"), ".");
}

#[test]
fn stem_keeps_names_without_a_stem_or_an_extension() {
    assert_eq!(icon_stem("activity"), "activity");
    assert_eq!(icon_stem(".svg"), ".svg");
    assert_eq!(icon_stem("svg"), "svg");
    assert_eq!(icon_stem(""), "");
    assert_eq!(icon_stem("activity.SVG"), "activity.SVG");
    assert_eq!(icon_stem("activity.svg.txt"), "activity.svg.txt");
}

#[test]
fn stem_counts_characters_not_bytes() {
    assert_eq!(icon_stem("caf\u{e9}.svg"), "caf\u{e9}");
    assert_eq!(icon_stem("\u{1f600}.svg"), "\u{1f600}");
}

#[test]
fn extension_tests() {
    assert!(ends_in_icon_extension("activity.svg"));
    assert!(ends_in_icon_extension(".svg"));
    assert!(!ends_in_icon_extension("activity.png"));
    assert!(!ends_in_icon_extension("svg"));
    assert!(!ends_in_icon_extension("activity.svg "));
    assert!(has_icon_extension("activity.svg"));
    assert!(has_icon_extension("a.svg"));
    assert!(!has_icon_extension(".svg"));
    assert!(!has_icon_extension("activity"));
}

#[test]
fn canonical_file_name_puts_the_extension_on_once() {
    assert_eq!(canonical_file_name("activity"), "activity.svg");
    assert_eq!(canonical_file_name("activity.svg"), "activity.svg");
    assert_eq!(canonical_file_name(""), ".svg");
    assert_eq!(canonical_file_name(".svg"), ".svg");
    assert_eq!(canonical_file_name("a.png"), "a.png.svg");
}

#[test]
fn a_record_answers_with_and_without_the_extension() {
    assert!(name_answers_to("activity", "activity"));
    assert!(name_answers_to("activity", "activity.svg"));
    assert!(name_answers_to("activity.svg", "activity"));
    assert!(name_answers_to("activity.svg", "activity.svg"));
    assert!(!name_answers_to("activity", "activit"));
    assert!(!name_answers_to("activity", "activity.png"));
    assert!(!name_answers_to("activity", "activity.svg.svg"));
    assert!(!name_answers_to("activity", "Activity"));
    assert!(!name_answers_to("abcd", ""));
    assert!(name_answers_to("", ".svg"));
    assert!(name_answers_to(".svg", ""));
}

#[test]
fn final_component_is_the_file_name_of_the_path() {
    assert_eq!(final_component_of(b"a/b/c.svg"), b"c.svg");
    assert_eq!(final_component_of(b"c.svg"), b"c.svg");
    assert_eq!(final_component_of(b"/c.svg"), b"c.svg");
    assert_eq!(final_component_of(b"a/b/"), b"b");
    assert_eq!(final_component_of(b"a/x.svg/."), b"x.svg");
    assert_eq!(final_component_of(b"a/x.svg/.//"), b"x.svg");
    assert_eq!(final_component_of(b"a/x.svg/.."), b"");
    assert_eq!(final_component_of(b".."), b"");
    assert_eq!(final_component_of(b"."), b"");
    assert_eq!(final_component_of(b"/"), b"");
    assert_eq!(final_component_of(b""), b"");
    assert_eq!(final_component_of(b"a/..b"), b"..b");
    assert_eq!(final_component_of(b"a/.b"), b".b");
    assert_eq!(final_component_of(b"a\\b/c"), b"c");
    assert_eq!(final_component_of(b"a/\xff.svg"), b"\xff.svg");
}

#[test]
fn final_component_agrees_with_the_file_name_of_a_path() {
    let alphabet = [b'a', b'.', b'/'];
    let mut paths: Vec<Vec<u8>> = vec![Vec::new()];
    let mut from = 0;
    for _ in 0..7 {
        let until = paths.len();
        for at in from..until {
            for byte in alphabet {
                let mut longer = paths[at].clone();
                longer.push(byte);
                paths.push(longer);
            }
        }
        from = until;
    }
    assert_eq!(paths.len(), 3280);
    for path in paths {
        let text = std::str::from_utf8(&path).unwrap();
        let expected = std::path::Path::new(text)
            .file_name()
            .map(|name| name.to_str().unwrap().as_bytes().to_vec())
            .unwrap_or_default();
        assert_eq!(final_component_of(&path), expected.as_slice(), "{:?}", text);
    }
}
