//! The regions of a source text.

use brokkr::lex::{classify, mask_line, Region};

fn regions_of(src: &str) -> Vec<Region> {
    classify(src)
}

#[test]
fn classify_tiles_the_whole_input() {
    let src = "let x = \"hi\"; // c\n";
    assert_eq!(classify(src).len(), src.len());
}

#[test]
fn string_and_comment_regions_are_labelled() {
    let src = r#"let m = "a, got b"; // note"#;
    let regs = regions_of(src);
    let comma = src.find(',').unwrap();
    assert_eq!(regs[comma], Region::Str);
    let note = src.find("note").unwrap();
    assert_eq!(regs[note], Region::Comment);
    assert_eq!(regs[0], Region::Code);
}

#[test]
fn lifetime_is_not_a_char_literal() {
    let src = "fn f<'a>(c: char) { let _ = 'x'; }";
    let regs = regions_of(src);
    let life = src.find("'a").unwrap();
    assert_eq!(regs[life], Region::Code);
    let ch = src.find("'x'").unwrap();
    assert_eq!(regs[ch], Region::Str);
}

#[test]
fn raw_string_hashes_and_content_are_str() {
    let src = "r#\"a // not a comment\"#";
    let regs = regions_of(src);
    let slashes = src.find("//").unwrap();
    assert_eq!(regs[slashes], Region::Str);
}

#[test]
fn mask_line_keeps_only_target_region() {
    let line = r#"foo("bar"); // baz"#;
    let regs = classify(line);
    let code = mask_line(line, 0, &regs, Region::Code);
    assert!(code.contains("foo("));
    assert!(!code.contains("bar"));
    assert!(!code.contains("baz"));
    let strs = mask_line(line, 0, &regs, Region::Str);
    assert!(strs.contains("bar"));
    assert!(!strs.contains("foo"));
}
