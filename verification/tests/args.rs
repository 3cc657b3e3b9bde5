use rw_renderer::directive::DirectiveArgs;

#[test]
fn test_empty_args() {
    let args = DirectiveArgs::parse("", "");
    assert_eq!(args.content, "");
    assert_eq!(args.id, None);
    assert!(args.classes.is_empty());
    assert!(args.attrs.is_empty());
}

#[test]
fn test_content_only() {
    let args = DirectiveArgs::parse("hello world", "");
    assert_eq!(args.content, "hello world");
    assert_eq!(args.id, None);
    assert!(args.classes.is_empty());
}

#[test]
fn test_id() {
    let args = DirectiveArgs::parse("", "#my-id");
    assert_eq!(args.id, Some("my-id".to_owned()));
}

#[test]
fn test_single_class() {
    let args = DirectiveArgs::parse("", ".foo");
    assert_eq!(args.classes, vec!["foo"]);
}

#[test]
fn test_multiple_classes() {
    let args = DirectiveArgs::parse("", ".foo .bar .baz");
    assert_eq!(args.classes, vec!["foo", "bar", "baz"]);
}

#[test]
fn test_id_and_classes() {
    let args = DirectiveArgs::parse("", "#my-id .foo .bar");
    assert_eq!(args.id, Some("my-id".to_owned()));
    assert_eq!(args.classes, vec!["foo", "bar"]);
}

#[test]
fn test_double_quoted_value() {
    let args = DirectiveArgs::parse("", r#"lang="en""#);
    assert_eq!(args.get("lang"), Some("en"));
}

#[test]
fn test_single_quoted_value() {
    let args = DirectiveArgs::parse("", "title='Hello World'");
    assert_eq!(args.get("title"), Some("Hello World"));
}

#[test]
fn test_unquoted_value() {
    let args = DirectiveArgs::parse("", "width=560");
    assert_eq!(args.get("width"), Some("560"));
}

#[test]
fn test_mixed_attributes() {
    let args = DirectiveArgs::parse("content", r#"#my-id .foo lang="en" width=100"#);
    assert_eq!(args.content, "content");
    assert_eq!(args.id, Some("my-id".to_owned()));
    assert_eq!(args.classes, vec!["foo"]);
    assert_eq!(args.get("lang"), Some("en"));
    assert_eq!(args.get("width"), Some("100"));
}

#[test]
fn test_compact_classes() {
    let args = DirectiveArgs::parse("", ".foo.bar.baz");
    assert_eq!(args.classes, vec!["foo", "bar", "baz"]);
}

#[test]
fn test_id_followed_by_class() {
    let args = DirectiveArgs::parse("", "#id.class");
    assert_eq!(args.id, Some("id".to_owned()));
    assert_eq!(args.classes, vec!["class"]);
}

#[test]
fn test_value_with_spaces() {
    let args = DirectiveArgs::parse("", r#"title="Hello World""#);
    assert_eq!(args.get("title"), Some("Hello World"));
}

#[test]
fn test_empty_quoted_value() {
    let args = DirectiveArgs::parse("", r#"alt="""#);
    assert_eq!(args.get("alt"), Some(""));
}

#[test]
fn test_get_nonexistent() {
    let args = DirectiveArgs::parse("", "foo=bar");
    assert_eq!(args.get("baz"), None);
}

#[test]
fn test_to_syntax_empty() {
    let args = DirectiveArgs::default();
    assert_eq!(args.to_syntax(), "");
}

#[test]
fn test_to_syntax_content_only() {
    let args = DirectiveArgs::parse("hello", "");
    assert_eq!(args.to_syntax(), "[hello]");
}

#[test]
fn test_to_syntax_with_id() {
    let args = DirectiveArgs::parse("content", "#my-id");
    assert_eq!(args.to_syntax(), "[content]{#my-id}");
}

#[test]
fn test_to_syntax_with_classes() {
    let args = DirectiveArgs::parse("content", ".foo .bar");
    assert_eq!(args.to_syntax(), "[content]{.foo .bar}");
}

#[test]
fn test_to_syntax_with_attrs() {
    let args = DirectiveArgs::parse("content", r#"lang="en""#);
    assert_eq!(args.to_syntax(), r#"[content]{lang="en"}"#);
}

#[test]
fn test_to_syntax_full() {
    let args = DirectiveArgs::parse("content", r#"#id .class lang="en""#);
    let syntax = args.to_syntax();
    assert!(syntax.starts_with("[content]{"));
    assert!(syntax.contains("#id"));
    assert!(syntax.contains(".class"));
    assert!(syntax.contains(r#"lang="en""#));
    assert!(syntax.ends_with('}'));
}

#[test]
fn test_to_syntax_attrs_only() {
    let args = DirectiveArgs::parse("", "#my-id");
    assert_eq!(args.to_syntax(), "{#my-id}");
}
