use rw_renderer::directive::parser::{is_valid_directive_name, parse_braces, parse_brackets, parse_container_line, parse_line, parse_line_chars, ParsedDirective};

#[test]
fn parser_test_inline_directive() {
    let result = parse_line("Press :kbd[Ctrl+C] to copy.");
    let (directive, start, end) = result.unwrap();

    assert_eq!(start, 6);
    assert_eq!(end, 18);
    match directive {
        ParsedDirective::Inline { name, args } => {
            assert_eq!(name, "kbd");
            assert_eq!(args.content, "Ctrl+C");
        }
        _ => panic!("expected inline directive"),
    }
}

#[test]
fn test_inline_with_attrs() {
    let result = parse_line(r#":abbr[HTML]{title="HyperText Markup Language"}"#);
    let (directive, _, _) = result.unwrap();

    match directive {
        ParsedDirective::Inline { name, args } => {
            assert_eq!(name, "abbr");
            assert_eq!(args.content, "HTML");
            assert_eq!(args.get("title"), Some("HyperText Markup Language"));
        }
        _ => panic!("expected inline directive"),
    }
}

#[test]
fn parser_test_leaf_directive() {
    let result = parse_line("::youtube[dQw4w9WgXcQ]");
    let (directive, _, _) = result.unwrap();

    match directive {
        ParsedDirective::Leaf { name, args } => {
            assert_eq!(name, "youtube");
            assert_eq!(args.content, "dQw4w9WgXcQ");
        }
        _ => panic!("expected leaf directive"),
    }
}

#[test]
fn test_leaf_with_attrs() {
    let result = parse_line("::include[snippet.md]{#code .highlight}");
    let (directive, _, _) = result.unwrap();

    match directive {
        ParsedDirective::Leaf { name, args } => {
            assert_eq!(name, "include");
            assert_eq!(args.content, "snippet.md");
            assert_eq!(args.id, Some("code".to_owned()));
            assert_eq!(args.classes, vec!["highlight"]);
        }
        _ => panic!("expected leaf directive"),
    }
}

#[test]
fn parser_test_container_start() {
    let result = parse_container_line("::: note");
    let directive = result.unwrap();

    match directive {
        ParsedDirective::ContainerStart {
            name,
            args,
            colon_count,
        } => {
            assert_eq!(name, "note");
            assert_eq!(args.content, "");
            assert_eq!(colon_count, 3);
        }
        _ => panic!("expected container start"),
    }
}

#[test]
fn test_container_with_content() {
    let result = parse_container_line(":::tab[macOS]");
    let directive = result.unwrap();

    match directive {
        ParsedDirective::ContainerStart { name, args, .. } => {
            assert_eq!(name, "tab");
            assert_eq!(args.content, "macOS");
        }
        _ => panic!("expected container start"),
    }
}

#[test]
fn test_container_with_brackets() {
    let result = parse_container_line("::: details[Click to expand]");
    let directive = result.unwrap();

    match directive {
        ParsedDirective::ContainerStart { name, args, .. } => {
            assert_eq!(name, "details");
            assert_eq!(args.content, "Click to expand");
        }
        _ => panic!("expected container start"),
    }
}

#[test]
fn parser_test_container_end() {
    let result = parse_container_line(":::");
    let directive = result.unwrap();

    match directive {
        ParsedDirective::ContainerEnd { colon_count } => {
            assert_eq!(colon_count, 3);
        }
        _ => panic!("expected container end"),
    }
}

#[test]
fn test_container_end_with_more_colons() {
    let result = parse_container_line("::::");
    let directive = result.unwrap();

    match directive {
        ParsedDirective::ContainerEnd { colon_count } => {
            assert_eq!(colon_count, 4);
        }
        _ => panic!("expected container end"),
    }
}

#[test]
fn test_not_directive() {
    assert!(parse_line("regular text").is_none());
    assert!(parse_line("").is_none());
    assert!(parse_container_line("not a directive").is_none());
}

#[test]
fn test_invalid_name() {
    // Name with invalid characters
    assert!(parse_line(":foo@bar[content]").is_none());
    // Empty name
    assert!(parse_line(":[content]").is_none());
}

#[test]
fn test_parse_brackets() {
    assert_eq!(parse_brackets("[hello]"), ("hello".to_owned(), 7));
    assert_eq!(parse_brackets("[hello] rest"), ("hello".to_owned(), 7));
    assert_eq!(
        parse_brackets("[nested [brackets]]"),
        ("nested [brackets]".to_owned(), 19)
    );
    assert_eq!(parse_brackets("no brackets"), (String::new(), 0));
    assert_eq!(parse_brackets("[unclosed"), (String::new(), 0));
}

#[test]
fn test_parse_braces() {
    assert_eq!(parse_braces("{#id}"), ("#id".to_owned(), 5));
    assert_eq!(parse_braces("{.class} rest"), (".class".to_owned(), 8));
    assert_eq!(parse_braces("no braces"), (String::new(), 0));
    assert_eq!(parse_braces("{unclosed"), (String::new(), 0));
}

#[test]
fn test_is_valid_directive_name() {
    assert!(is_valid_directive_name("kbd"));
    assert!(is_valid_directive_name("my-directive"));
    assert!(is_valid_directive_name("directive_name"));
    assert!(is_valid_directive_name("directive123"));
    assert!(!is_valid_directive_name(""));
    assert!(!is_valid_directive_name("foo@bar"));
    assert!(!is_valid_directive_name("foo bar"));
}

#[test]
fn test_directive_at_start() {
    let result = parse_line(":kbd[X]");
    assert!(result.is_some());
    let (_, start, _) = result.unwrap();
    assert_eq!(start, 0);
}

#[test]
fn test_multiple_directives_finds_first() {
    let result = parse_line(":a[1] :b[2]");
    let (directive, start, _) = result.unwrap();
    assert_eq!(start, 0);
    match directive {
        ParsedDirective::Inline { name, args } => {
            assert_eq!(name, "a");
            assert_eq!(args.content, "1");
        }
        _ => panic!("expected inline"),
    }
}

#[test]
fn parse_line_finds_a_directive_after_non_ascii_text() {
    let (directive, start, end) = parse_line("日本 :kbd[x] 語").unwrap();
    assert_eq!(start, 7);
    assert_eq!(end, 14);
    assert!(matches!(directive, ParsedDirective::Inline { name, .. } if name == "kbd"));
    let (_, start, end) = parse_line_chars("日本 :kbd[x] 語").unwrap();
    assert_eq!(start, 3);
    assert_eq!(end, 10);
}

#[test]
fn parse_line_positions_are_byte_offsets() {
    let (directive, start, end) = parse_line("é:::").unwrap();
    assert_eq!((start, end), (2, 5));
    assert!(matches!(directive, ParsedDirective::ContainerEnd { colon_count: 3 }));
    assert_eq!(&"é:::"[start..end], ":::");
}

#[test]
fn container_line_with_attrs_and_no_space() {
    let d = parse_container_line("::::tabs{#t .wide}").unwrap();
    match d {
        ParsedDirective::ContainerStart { name, args, colon_count } => {
            assert_eq!(name, "tabs");
            assert_eq!(colon_count, 4);
            assert_eq!(args.id, Some("t".to_owned()));
            assert_eq!(args.classes, vec!["wide"]);
        }
        _ => panic!("expected container start"),
    }
    assert!(parse_container_line("::").is_none());
}
