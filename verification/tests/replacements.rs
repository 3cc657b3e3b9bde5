use rw_renderer::directive::Replacements;

#[test]
fn test_empty_replacements() {
    let mut html = "unchanged".to_owned();
    let replacements = Replacements::new();
    replacements.apply(&mut html);
    assert_eq!(html, "unchanged");
}

#[test]
fn test_single_replacement() {
    let mut html = "hello world".to_owned();
    let mut replacements = Replacements::new();
    replacements.add("world", "universe");
    replacements.apply(&mut html);
    assert_eq!(html, "hello universe");
}

#[test]
fn test_multiple_replacements() {
    let mut html = "<a><b></b></a>".to_owned();
    let mut replacements = Replacements::new();
    replacements.add("<a>", "<div>");
    replacements.add("</a>", "</div>");
    replacements.add("<b>", "<span>");
    replacements.add("</b>", "</span>");
    replacements.apply(&mut html);
    assert_eq!(html, "<div><span></span></div>");
}

#[test]
fn test_replacement_not_found() {
    let mut html = "hello world".to_owned();
    let mut replacements = Replacements::new();
    replacements.add("foo", "bar");
    replacements.apply(&mut html);
    assert_eq!(html, "hello world");
}

#[test]
fn test_multiple_occurrences() {
    let mut html = "a a a".to_owned();
    let mut replacements = Replacements::new();
    replacements.add("a", "b");
    replacements.apply(&mut html);
    assert_eq!(html, "b b b");
}

#[test]
fn test_is_empty() {
    let replacements = Replacements::new();
    assert!(replacements.is_empty());

    let mut replacements = Replacements::new();
    replacements.add("a", "b");
    assert!(!replacements.is_empty());
}

#[test]
fn test_len() {
    let mut replacements = Replacements::new();
    assert_eq!(replacements.len(), 0);

    replacements.add("a", "b");
    assert_eq!(replacements.len(), 1);

    replacements.add("c", "d");
    assert_eq!(replacements.len(), 2);
}

#[test]
fn test_with_capacity() {
    let replacements = Replacements::with_capacity(10);
    assert!(replacements.is_empty());
}

#[test]
fn test_no_cascade() {
    // A single pass does not re-scan its own output: `a -> bb` fires, but
    // the freshly written `bb` is never rewritten by the `bb -> c` rule.
    let mut html = "aaa".to_owned();
    let mut replacements = Replacements::new();
    replacements.add("a", "bb");
    replacements.add("bb", "c");
    replacements.apply(&mut html);
    assert_eq!(html, "bbbbbb");
}

#[test]
fn test_longest_match_wins() {
    // Where two patterns genuinely match at the same position (`ab` and
    // `abc` both match at index 0 of "abcd"), the longer one wins —
    // regardless of registration order. A `min`-length pick would give
    // "Xcd"; leftmost–longest gives "Yd".
    let mut html = "abcd".to_owned();
    let mut replacements = Replacements::new();
    replacements.add("ab", "X");
    replacements.add("abc", "Y");
    replacements.apply(&mut html);
    assert_eq!(html, "Yd");
}

#[test]
fn test_duplicate_from_last_registration_wins() {
    // Documented edge: identical `from` registered twice is the one
    // order-sensitive case — the last `to` wins (max_by_key keeps the last
    // of equal-length matches).
    let mut html = "<x>".to_owned();
    let mut replacements = Replacements::new();
    replacements.add("<x>", "AAA");
    replacements.add("<x>", "BBB");
    replacements.apply(&mut html);
    assert_eq!(html, "BBB");
}

#[test]
fn test_mixed_lead_bytes_use_byte_scan_fallback() {
    // Patterns with different first bytes can't use the single-lead-byte
    // memchr jump, so this drives the byte-table fallback path; the result
    // must be identical.
    let mut html = "x=1 & y<2 or z>3".to_owned();
    let mut replacements = Replacements::new();
    replacements.add("&", "AMP");
    replacements.add("<", "LT");
    replacements.add(">", "GT");
    replacements.apply(&mut html);
    assert_eq!(html, "x=1 AMP yLT2 or zGT3");
}

#[test]
fn test_candidate_byte_without_full_match_is_left_intact() {
    // Exercises the scanner's near-miss path: `<` makes every position a
    // *candidate* (it is a registered pattern's first byte), but the full
    // marker never appears, so nothing is replaced and — via the lazy
    // buffer — the input is returned untouched with no rebuild.
    let mut html = "a < b <rw-y> c </rw-z>".to_owned();
    let mut replacements = Replacements::new();
    replacements.add("<rw-x>", "<b>");
    replacements.add("</rw-x>", "</b>");
    replacements.apply(&mut html);
    assert_eq!(html, "a < b <rw-y> c </rw-z>");
}

#[test]
fn test_multibyte_runs_preserved() {
    // Verbatim runs around a match must survive byte-scanning intact.
    let mut html = "Привет <rw-x> 你好 <rw-x> 🎉".to_owned();
    let mut replacements = Replacements::new();
    replacements.add("<rw-x>", "<b>");
    replacements.apply(&mut html);
    assert_eq!(html, "Привет <b> 你好 <b> 🎉");
}

#[test]
fn test_empty_pattern_ignored() {
    let mut html = "abc".to_owned();
    let mut replacements = Replacements::new();
    replacements.add("", "X");
    replacements.add("b", "Y");
    replacements.apply(&mut html);
    assert_eq!(html, "aYc");
}
