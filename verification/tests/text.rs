use pix_mcp::numbers::{decimal_text, hex_text, parse_signed, parse_unsigned, signed_decimal_text};
use pix_mcp::order::{ascending_contains, comes_before, put_text, sort, sort_distinct, ByText};
use pix_mcp::paths::{
    extension_of, find_last_component, has_extension_ignore_ascii_case, path_extension, stem_of,
};
use pix_mcp::text::{
    blank, byte_len, ends_with_text, eq_ignoring_case, join, same_text, split_lines,
    split_on, split_runs, starts_with_text, trim,
};
use pix_mcp::utf8::truncate_utf8;

fn texts(items: &[&str]) -> Vec<String> {
    items.iter().map(|item| item.to_string()).collect()
}

#[test]
fn text_is_trimmed_and_split_like_str() {
    for sample in [
        "", " ", "a", "  a b\t", "\u{a0}x\u{3000}", "\u{200b}x", "a\r\nb\n\nc", "\n", "\r", "a\r",
        "x\n", "é\u{2028}", "a,b,,c", ",", "Error: 3 é٣x",
    ] {
        assert_eq!(trim(sample), sample.trim(), "{sample:?}");
        assert_eq!(blank(sample), sample.trim().is_empty(), "{sample:?}");
        assert_eq!(split_lines(sample), sample.lines().collect::<Vec<_>>(), "{sample:?}");
        assert_eq!(split_on(sample, ','), sample.split(',').collect::<Vec<_>>(), "{sample:?}");
        assert_eq!(
            split_runs(sample),
            sample.split(|c: char| !c.is_alphanumeric()).collect::<Vec<_>>(),
            "{sample:?}"
        );
        assert_eq!(byte_len(sample), sample.len());
        for part in ["", "a", "b\n", "é", ","] {
            assert_eq!(starts_with_text(sample, part), sample.starts_with(part));
            assert_eq!(ends_with_text(sample, part), sample.ends_with(part));
        }
    }
    assert!(eq_ignoring_case("WpIx", "wPiX") && !eq_ignoring_case("É", "é"));
    assert!(same_text("é", "é") && !same_text("é", "e") && !same_text("a", "ab"));
    assert_eq!(join(&texts(&["a", "", "b"]), ", "), "a, , b");
    assert_eq!(join(&Vec::new(), ", "), "");
}

#[test]
fn numbers_are_written_and_read_like_std() {
    for n in [0u64, 7, 10, 99, 1_000_000, u64::MAX] {
        assert_eq!(decimal_text(n), n.to_string());
        assert_eq!(hex_text(n, 16), format!("{n:016x}"));
        assert_eq!(parse_unsigned(&n.to_string(), 10, u64::MAX), Some(n));
        assert_eq!(parse_unsigned(&hex_text(n, 16), 16, u64::MAX), Some(n));
    }
    for n in [i64::MIN, -1, 0, 1, i64::MAX] {
        assert_eq!(signed_decimal_text(n), n.to_string());
        assert_eq!(parse_signed(&n.to_string()), Some(n));
    }
    for sample in [
        "", "+", "-", "+5", "-5", "--5", "+-5", "007", "1 ", "0x1", "fF", "18446744073709551616",
        "9223372036854775808", "-9223372036854775809", "٣", "12a",
    ] {
        assert_eq!(parse_unsigned(sample, 10, u64::MAX), sample.parse::<u64>().ok(), "{sample}");
        assert_eq!(parse_signed(sample), sample.parse::<i64>().ok(), "{sample}");
        assert_eq!(
            parse_unsigned(sample, 16, u64::MAX),
            u64::from_str_radix(sample, 16).ok(),
            "{sample}"
        );
    }
    assert_eq!(parse_unsigned("256", 10, 255), None);
}

#[test]
fn texts_are_ordered_like_std() {
    let samples = ["", "a", "B", "ab", "é", "z", "\u{10000}", "\u{ffff}", "a\u{0}"];
    for x in samples {
        for y in samples {
            assert_eq!(comes_before(x, y), x < y, "{x:?} {y:?}");
        }
    }
    let shuffled = texts(&["b", "a", "c", "a", "B", "b", "é"]);
    let mut expected = texts(&["b", "a", "c", "a", "B", "b", "é"]);
    expected.sort();
    assert_eq!(sort::<ByText>(shuffled), expected);
    expected.dedup();
    assert_eq!(sort_distinct(texts(&["b", "a", "c", "a", "B", "b", "é"])), expected);
    assert!(ascending_contains(&expected, "c") && !ascending_contains(&expected, "d"));
    let mut grown = Vec::new();
    assert!(put_text(&mut grown, "m".to_string()));
    assert!(put_text(&mut grown, "a".to_string()));
    assert!(!put_text(&mut grown, "m".to_string()));
    assert_eq!(grown, texts(&["a", "m"]));
}

#[test]
fn long_texts_are_cut_between_characters() {
    assert_eq!(truncate_utf8("short", 5), ("short".to_string(), false));
    assert_eq!(truncate_utf8("longer", 5), (String::new(), true));
    assert_eq!(
        truncate_utf8("0123456789abcdefg", 16),
        ("01…[truncated]".to_string(), true)
    );
    let (text, cut) = truncate_utf8("ééééééééééééé", 17);
    assert_eq!(text, "é…[truncated]");
    assert!(cut && text.len() <= 17);
    assert_eq!(truncate_utf8(&text, 17), (text, false));
}

#[test]
fn extensions_are_read_like_std() {
    for name in ["a.csv", "a", ".csv", "a.", "a.b.CSV", "..a", "archive.tar.gz", "."] {
        let path = std::path::Path::new(name);
        if path.file_name().is_some() {
            assert_eq!(
                extension_of(name),
                path.extension().and_then(|text| text.to_str()).map(str::to_string),
                "{name}"
            );
            assert_eq!(
                Some(stem_of(name)),
                path.file_stem().and_then(|text| text.to_str()).map(str::to_string),
                "{name}"
            );
        }
    }
    assert!(has_extension_ignore_ascii_case("dir/frame.WPIX", "wpix"));
    assert!(has_extension_ignore_ascii_case("C:\\caps\\john.doe\\frame.WPIX", "wpix"));
    assert!(!has_extension_ignore_ascii_case("..", "wpix"));
    assert_eq!(path_extension("a.d/b.tar.gz").as_deref(), Some("gz"));
    assert_eq!(path_extension("a.d/b"), None);
    assert!(!has_extension_ignore_ascii_case("dir.wpix/frame", "wpix"));
    assert!(has_extension_ignore_ascii_case("\\\\server\\share\\dir\\f.wpix", "wpix"));
    assert!(has_extension_ignore_ascii_case("//server/share/f.WPIX", "wpix"));
}

#[test]
fn last_components_are_read_like_std() {
    for name in ["a", "dir/a.wpix", "a/b/", "a/.", "a/./", "..", "a/..", ".", "", "/", "a//", "./a"] {
        assert_eq!(
            find_last_component(name),
            std::path::Path::new(name)
                .file_name()
                .and_then(|text| text.to_str())
                .map(str::to_string),
            "{name}"
        );
    }
    assert_eq!(find_last_component("dir/Frame.wpix").as_deref(), Some("Frame.wpix"));
    assert_eq!(find_last_component("a/./").as_deref(), Some("a"));
    assert_eq!(find_last_component("a/.."), None);
}
