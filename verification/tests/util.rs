use rw_renderer::status::StatusColor;
use rw_renderer::util::{escape_html, escape_into, slugify};

#[test]
fn test_from_known_colors() {
    assert_eq!(StatusColor::from("grey"), StatusColor::Grey);
    assert_eq!(StatusColor::from("red"), StatusColor::Red);
    assert_eq!(StatusColor::from("yellow"), StatusColor::Yellow);
    assert_eq!(StatusColor::from("green"), StatusColor::Green);
    assert_eq!(StatusColor::from("blue"), StatusColor::Blue);
    assert_eq!(StatusColor::from("purple"), StatusColor::Purple);
}

#[test]
fn test_from_is_case_insensitive_and_trims() {
    assert_eq!(StatusColor::from("GREEN"), StatusColor::Green);
    assert_eq!(StatusColor::from("  Green  "), StatusColor::Green);
}

#[test]
fn test_from_unknown_falls_back_to_grey() {
    assert_eq!(StatusColor::from("mauve"), StatusColor::Grey);
    assert_eq!(StatusColor::from(""), StatusColor::Grey);
}

#[test]
fn test_default_is_grey() {
    assert_eq!(StatusColor::default(), StatusColor::Grey);
}

#[test]
fn test_display() {
    assert_eq!(StatusColor::Grey.to_string(), "grey");
    assert_eq!(StatusColor::Red.to_string(), "red");
    assert_eq!(StatusColor::Yellow.to_string(), "yellow");
    assert_eq!(StatusColor::Green.to_string(), "green");
    assert_eq!(StatusColor::Blue.to_string(), "blue");
    assert_eq!(StatusColor::Purple.to_string(), "purple");
}

#[test]
fn util_test_slugify() {
    assert_eq!(slugify("Hello World"), "hello-world");
    assert_eq!(slugify("What's New?"), "whats-new");
    assert_eq!(slugify("  Spaces  "), "spaces");
    assert_eq!(slugify("Multiple   Spaces"), "multiple-spaces");
    assert_eq!(slugify("kebab-case"), "kebab-case");
    assert_eq!(slugify("snake_case"), "snake-case");
}

#[test]
fn util_test_slugify_non_latin() {
    // Cyrillic
    assert_eq!(slugify("Привет мир"), "привет-мир");
    // Chinese
    assert_eq!(slugify("你好世界"), "你好世界");
    // Japanese
    assert_eq!(slugify("こんにちは世界"), "こんにちは世界");
    // Mixed Latin and non-Latin
    assert_eq!(slugify("Hello Привет"), "hello-привет");
    // Non-Latin with punctuation
    assert_eq!(slugify("Привет, мир!"), "привет-мир");
    // Fully non-Latin should NOT produce empty string
    assert!(!slugify("Заголовок").is_empty());
}

#[test]
fn util_test_escape_html() {
    assert_eq!(escape_html("<script>"), "&lt;script&gt;");
    assert_eq!(escape_html("a & b"), "a &amp; b");
    assert_eq!(escape_html(r#""quoted""#), "&quot;quoted&quot;");
    assert_eq!(escape_html("it's"), "it&#x27;s");
}

#[test]
fn test_escape_into_appends() {
    // Appends to existing content rather than replacing it.
    let mut out = String::from("<p>");
    escape_into("a <b> & \"c\" 'd'", &mut out);
    out.push_str("</p>");
    assert_eq!(out, "<p>a &lt;b&gt; &amp; &quot;c&quot; &#x27;d&#x27;</p>");
}

#[test]
fn test_escape_into_no_specials_and_multibyte() {
    // The common case (no specials) and multi-byte UTF-8 must pass through
    // verbatim — the byte scan never splits a multi-byte character.
    let mut out = String::new();
    escape_into("plain — Привет 你好 🎉", &mut out);
    assert_eq!(out, "plain — Привет 你好 🎉");

    // A special char adjacent to multi-byte text still escapes correctly.
    let mut out = String::new();
    escape_into("Привет <b>", &mut out);
    assert_eq!(out, "Привет &lt;b&gt;");
}

fn reference(b: u8) -> &'static str {
    match b {
        b'&' => "&amp;",
        b'<' => "&lt;",
        b'>' => "&gt;",
        b'"' => "&quot;",
        b'\'' => "&#x27;",
        _ => "",
    }
}

#[test]
fn test_escape_into_matches_reference_for_every_ascii_byte() {
    // The lookup table is easy to typo, and a wrong slot would either drop
    // an escape (an XSS hole) or mangle ordinary text. Check every ASCII
    // byte against a spelled-out reference.
    for b in 0..=127u8 {
        let ch = char::from(b);
        let expected = match reference(b) {
            "" => String::from(ch),
            entity => entity.to_owned(),
        };
        let mut out = String::new();
        escape_into(&String::from(ch), &mut out);
        assert_eq!(out, expected, "byte {b:#04x} ({ch:?})");
    }
}

#[test]
fn test_escape_into_empty() {
    let mut out = String::from("x");
    escape_into("", &mut out);
    assert_eq!(out, "x");
}

#[test]
fn state_test_slugify() {
    assert_eq!(slugify("Hello World"), "hello-world");
    assert_eq!(slugify("What's New?"), "whats-new");
    assert_eq!(slugify("  Spaces  "), "spaces");
    assert_eq!(slugify("Multiple   Spaces"), "multiple-spaces");
    assert_eq!(slugify("kebab-case"), "kebab-case");
    assert_eq!(slugify("snake_case"), "snake-case");
}

#[test]
fn state_test_slugify_non_latin() {
    // Cyrillic
    assert_eq!(slugify("Привет мир"), "привет-мир");
    // Chinese
    assert_eq!(slugify("你好世界"), "你好世界");
    // Japanese
    assert_eq!(slugify("こんにちは世界"), "こんにちは世界");
    // Mixed Latin and non-Latin
    assert_eq!(slugify("Hello Привет"), "hello-привет");
    // Non-Latin with punctuation
    assert_eq!(slugify("Привет, мир!"), "привет-мир");
    // Fully non-Latin should NOT produce empty string
    assert!(!slugify("Заголовок").is_empty());
}

#[test]
fn state_test_escape_html() {
    assert_eq!(escape_html("<script>"), "&lt;script&gt;");
    assert_eq!(escape_html("a & b"), "a &amp; b");
    assert_eq!(escape_html(r#""quoted""#), "&quot;quoted&quot;");
    assert_eq!(escape_html("it's"), "it&#x27;s");
}

#[test]
fn status_color_names_round_trip() {
    for color in [
        StatusColor::Grey,
        StatusColor::Red,
        StatusColor::Yellow,
        StatusColor::Green,
        StatusColor::Blue,
        StatusColor::Purple,
    ] {
        assert_eq!(StatusColor::from_name(color.as_str()), color);
    }
}

#[test]
fn slugify_collapses_separator_runs_and_trims_dashes() {
    assert_eq!(slugify("a - _ b"), "a-b");
    assert_eq!(slugify("--x--"), "x");
    assert_eq!(slugify(""), "");
}
