use lucide_svg_rs::cli::{list_names, names_output};
use lucide_svg_rs::names::display_name;
use lucide_svg_rs::present::{
    display_names, is_markup_line, limited, picked_names, places_fit, svg_opening_tag,
};
use lucide_svg_rs::text::{chars_find, chars_trimmed, is_space_char, to_chars};
use lucide_svg_rs::{ErrorKind, IconRecord, LucideClient};
use std::io::Write;

fn archive_of(entries: &[(&str, &[u8])]) -> Vec<u8> {
    let mut builder = tar::Builder::new(Vec::new());
    for (path, content) in entries {
        let mut header = tar::Header::new_gnu();
        header.set_size(content.len() as u64);
        header.set_mode(0o644);
        header.set_cksum();
        builder.append_data(&mut header, path, *content).unwrap();
    }
    let tarball = builder.into_inner().unwrap();
    let mut encoder = flate2::write::GzEncoder::new(Vec::new(), flate2::Compression::default());
    encoder.write_all(&tarball).unwrap();
    encoder.finish().unwrap()
}

fn strings(list: &[&str]) -> Vec<String> {
    list.iter().map(|s| s.to_string()).collect()
}

#[test]
fn display_name_leaves_the_extension_off() {
    assert_eq!(display_name("activity.svg"), "activity");
    assert_eq!(display_name("activity"), "activity");
    assert_eq!(display_name(".svg"), "");
    assert_eq!(display_name("a.svg.svg"), "a.svg");
    for name in ["activity.svg", "activity", ".svg", "svg", "", "x.SVG"] {
        assert_eq!(display_name(name), name.strip_suffix(".svg").unwrap_or(name));
    }
    let records = vec![
        IconRecord::new("anchor.svg", Some(1), "u1"),
        IconRecord::new("zap", None, "u2"),
    ];
    assert_eq!(display_names(&records), vec!["anchor", "zap"]);
}

#[test]
fn limited_takes_the_first() {
    let names = strings(&["a", "b", "c"]);
    assert_eq!(limited(names.clone(), None), names);
    assert_eq!(limited(names.clone(), Some(0)), Vec::<String>::new());
    assert_eq!(limited(names.clone(), Some(2)), strings(&["a", "b"]));
    assert_eq!(limited(names.clone(), Some(3)), names);
    assert_eq!(limited(names.clone(), Some(usize::MAX)), names);
}

#[test]
fn picked_names_follow_the_picking() {
    let items = strings(&["a", "b", "c"]);
    assert_eq!(picked_names(&items, &vec![2, 0]), strings(&["c", "a"]));
    assert_eq!(picked_names(&items, &vec![1, 1]), strings(&["b", "b"]));
    assert_eq!(picked_names(&items, &Vec::new()), Vec::<String>::new());
    assert!(places_fit(&vec![0, 2], 3));
    assert!(places_fit(&Vec::new(), 0));
    assert!(!places_fit(&vec![0, 3], 3));
    assert!(!places_fit(&vec![0], 0));
}

#[test]
fn opening_tag_runs_to_the_first_closing_bracket() {
    assert_eq!(
        svg_opening_tag("<?xml?>\n<svg width=\"24\"\n height=\"24\"><path d=\"M1\"/></svg>"),
        Some("<svg width=\"24\"\n height=\"24\">".to_string())
    );
    assert_eq!(svg_opening_tag("<svg>"), Some("<svg>".to_string()));
    assert_eq!(svg_opening_tag("> <svg/>"), Some("<svg/>".to_string()));
    assert_eq!(svg_opening_tag("<svg"), None);
    assert_eq!(svg_opening_tag("no markup > here"), None);
    assert_eq!(svg_opening_tag(""), None);
    assert_eq!(svg_opening_tag("<SVG>"), None);
    assert_eq!(svg_opening_tag("\u{e9}<svg\u{e9}>x"), Some("<svg\u{e9}>".to_string()));
}

#[test]
fn markup_lines_begin_with_an_angle_bracket() {
    assert!(is_markup_line("<path/>"));
    assert!(is_markup_line("  \t<path/>"));
    assert!(is_markup_line("\u{a0}\u{3000}<"));
    assert!(!is_markup_line("text <b>"));
    assert!(!is_markup_line(""));
    assert!(!is_markup_line("   "));
    for line in ["<a>", " <a>", "a<", "", " ", "\u{2003}<x", "\u{200b}<x", "\u{feff}<x"] {
        assert_eq!(is_markup_line(line), line.trim().starts_with('<'), "{:?}", line);
    }
}

#[test]
fn white_space_is_what_the_standard_library_says() {
    for code in 0..0x3100u32 {
        if let Some(c) = char::from_u32(code) {
            assert_eq!(is_space_char(c), c.is_whitespace(), "U+{:04X}", code);
        }
    }
    assert!(!is_space_char('\u{feff}'));
    assert!(!is_space_char('\u{10ffff}'));
}

#[test]
fn trimming_takes_white_space_off_both_ends() {
    for s in ["", " ", "a", " a", "a ", "  a b  ", "\t\n a\u{a0}", "\u{3000}x\u{2028}", " \u{200b} "] {
        let trimmed: String = chars_trimmed(&to_chars(s)).iter().collect();
        assert_eq!(trimmed, s.trim(), "{:?}", s);
    }
}

#[test]
fn find_gives_the_first_place() {
    let s = to_chars("abcabc");
    assert_eq!(chars_find(&s, &to_chars("bc"), 0), Some(1));
    assert_eq!(chars_find(&s, &to_chars("bc"), 1), Some(1));
    assert_eq!(chars_find(&s, &to_chars("bc"), 2), Some(4));
    assert_eq!(chars_find(&s, &to_chars("bc"), 5), None);
    assert_eq!(chars_find(&s, &to_chars("x"), 0), None);
    assert_eq!(chars_find(&s, &to_chars(""), 6), Some(6));
    assert_eq!(chars_find(&s, &to_chars(""), 7), None);
    assert_eq!(chars_find(&s, &to_chars("abcabcd"), 0), None);
}

#[test]
fn list_names_searches_and_limits() {
    let client = LucideClient::new(archive_of(&[
        ("i/anchor.svg", b"<svg/>"),
        ("i/arrow-up.svg", b"<svg/>"),
        ("i/arrow-down.svg", b"<svg/>"),
        ("i/zap.svg", b"<svg/>"),
    ]))
    .unwrap();
    assert_eq!(
        list_names(&client, None, None).unwrap(),
        strings(&["anchor", "arrow-down", "arrow-up", "zap"])
    );
    assert_eq!(list_names(&client, None, Some(2)).unwrap(), strings(&["anchor", "arrow-down"]));
    assert_eq!(
        list_names(&client, Some("arrow"), None).unwrap(),
        strings(&["arrow-down", "arrow-up"])
    );
    assert_eq!(list_names(&client, Some("arrow"), Some(1)).unwrap(), strings(&["arrow-down"]));
    assert_eq!(list_names(&client, Some("a"), Some(9)).unwrap().len(), 4);
    let broken = LucideClient::new(b"x".to_vec()).unwrap();
    assert_eq!(list_names(&broken, None, None).unwrap_err().kind, ErrorKind::ParseFailure);
}

#[test]
fn names_output_prints_a_report_or_json() {
    let names = strings(&["anchor", "zap"]);
    assert_eq!(names_output(&names, false).unwrap(), "Found 2\n[\"anchor\", \"zap\"]");
    assert_eq!(names_output(&names, true).unwrap(), "[\n  \"anchor\",\n  \"zap\"\n]");
}
