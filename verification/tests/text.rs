//! Texts and numerals.

use brokkr::numeral::{hex, i64_text, parse_i32, parse_i64, parse_u16, parse_u32, parse_u64, u128_text, u64_text};
use brokkr::path::FilePath;
use brokkr::text::{
    byte_count, contains, ends_with, join, join_path, lines, pad_left, pad_right, repeat, replace, split, split_once,
    starts_with, strip_prefix, strip_suffix, trim, trim_end, trim_start, words,
};

#[test]
fn texts_are_cut_as_the_standard_library_cuts_them() {
    for t in ["", "a", " a b ", "\t x\u{a0}\n", "a,b,,c", ",", "a=b=c", "x\ny\r\n\nz", "\r\n", "\u{3000}q\u{2009}"] {
        assert_eq!(trim(t), t.trim());
        assert_eq!(trim_start(t), t.trim_start());
        assert_eq!(trim_end(t), t.trim_end());
        assert_eq!(split(t, ','), t.split(',').collect::<Vec<_>>());
        assert_eq!(lines(t), t.lines().collect::<Vec<_>>());
        assert_eq!(words(t), t.split_whitespace().collect::<Vec<_>>());
        assert_eq!(
            split_once(t, '='),
            t.split_once('=').map(|(a, b)| (a.to_string(), b.to_string()))
        );
        assert_eq!(byte_count(t), t.len());
        for p in ["a", "b ", "\n", "zz"] {
            assert_eq!(contains(t, p), t.contains(p));
            assert_eq!(starts_with(t, p), t.starts_with(p));
            assert_eq!(ends_with(t, p), t.ends_with(p));
            assert_eq!(strip_prefix(t, p).as_deref(), t.strip_prefix(p));
            assert_eq!(strip_suffix(t, p).as_deref(), t.strip_suffix(p));
            assert_eq!(replace(t, p, "<>"), t.replace(p, "<>"));
        }
    }
    assert_eq!(replace("aaaa", "aa", "b"), "bb");
}

#[test]
fn texts_are_put_together() {
    assert_eq!(join(&["a".to_string(), "b".to_string()], ", "), "a, b");
    assert_eq!(join(&[], ", "), "");
    assert_eq!(repeat('-', 3), "---");
    assert_eq!(pad_right("\u{e9}", 3), "\u{e9}  ");
    assert_eq!(pad_left("ab", 4), "  ab");
    assert_eq!(pad_left("abcde", 4), "abcde");
    assert_eq!(join_path("/a", "b"), "/a/b");
    assert_eq!(join_path("/a/", "b"), "/a/b");
    assert_eq!(join_path("/a", "/b"), "/b");
    assert_eq!(join_path("", "b"), "b");
}

#[test]
fn numerals_are_written_and_read() {
    for n in [0, 1, -1, 10, 99, i64::MAX, i64::MIN] {
        assert_eq!(i64_text(n), n.to_string());
        assert_eq!(parse_i64(&i64_text(n)), Some(n));
    }
    assert_eq!(u64_text(u64::MAX), u64::MAX.to_string());
    assert_eq!(u128_text(u128::MAX), u128::MAX.to_string());
    for t in ["", "+", "-", "+5", "-5", "007", "65535", "65536", "4294967295", "4294967296", " 1", "1 ", "1e3", "-0"] {
        assert_eq!(parse_u16(t), t.parse().ok(), "{t}");
        assert_eq!(parse_u32(t), t.parse().ok(), "{t}");
        assert_eq!(parse_u64(t), t.parse().ok(), "{t}");
        assert_eq!(parse_i32(t), t.parse().ok(), "{t}");
        assert_eq!(parse_i64(t), t.parse().ok(), "{t}");
    }
    assert_eq!(hex(&[0, 15, 16, 255]), "000f10ff");
}

#[test]
fn paths_have_names_and_may_not_be_text() {
    let p = FilePath::from_text("/data/./x/denmark.osm.pbf/");
    assert_eq!(p.base_name(), "denmark.osm.pbf");
    assert_eq!(p.to_str().as_deref(), Some("/data/./x/denmark.osm.pbf/"));
    assert_eq!(FilePath::from_text("/data/..").base_name(), "");
    assert_eq!(FilePath::from_text("/data").join("a/b").to_str().as_deref(), Some("/data/a/b"));
    let odd = FilePath { bytes: vec![b'/', 0xff, 0xfe] };
    assert_eq!(odd.to_str(), None);
    assert_eq!(odd.base_name(), "");
    assert_eq!(odd.file_name(), Some(vec![0xff, 0xfe]));
}
