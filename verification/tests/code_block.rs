use rw_renderer::code_block::{parse_fence_info, CodeBlockProcessor, ExtractedCodeBlock, FenceAttrs, ProcessResult};

#[test]
fn parse_language_only() {
    let (lang, attrs) = parse_fence_info("rust");
    assert_eq!(lang, "rust");
    assert_eq!(attrs, FenceAttrs::default());
}

#[test]
fn parse_brace_valueless_flag_stores_empty_value() {
    let (_lang, attrs) = parse_fence_info("mermaid {standalone}");
    assert_eq!(attrs.get("standalone"), Some(""));
    assert_eq!(attrs.keys(), ["standalone"]);
}

#[test]
fn keys_yields_author_order_and_get_misses_are_none() {
    let (_lang, attrs) = parse_fence_info("mermaid {zebra=1 alpha=2 zebra=3}");
    assert_eq!(attrs.keys(), ["zebra", "alpha"]);
    assert_eq!(attrs.get("zebra"), Some("3"));
    assert_eq!(attrs.get("absent"), None);
}

#[test]
fn parse_brace_id() {
    let (lang, attrs) = parse_fence_info("mermaid {#architecture}");
    assert_eq!(lang, "mermaid");
    assert_eq!(attrs.id.as_deref(), Some("architecture"));
    assert!(attrs.classes.is_empty());
    assert!(attrs.map.is_empty());
}

#[test]
fn parse_brace_id_classes_kv() {
    let (lang, attrs) = parse_fence_info("plantuml {#a .b .c format=png k=v}");
    assert_eq!(lang, "plantuml");
    assert_eq!(attrs.id.as_deref(), Some("a"));
    assert_eq!(attrs.classes, vec!["b".to_owned(), "c".to_owned()]);
    assert_eq!(attrs.get("format"), Some("png"));
    assert_eq!(attrs.get("k"), Some("v"));
}

#[test]
fn parse_brace_last_id_wins() {
    let (_lang, attrs) = parse_fence_info("mermaid {#a #b}");
    assert_eq!(attrs.id.as_deref(), Some("b"));
}

#[test]
fn parse_brace_last_duplicate_key_wins() {
    let (_lang, attrs) = parse_fence_info("mermaid {format=svg format=png}");
    assert_eq!(attrs.get("format"), Some("png"));
    assert_eq!(attrs.map.len(), 1, "duplicate key must not add an entry");
}

#[test]
fn parse_bare_tokens_ignored() {
    let (lang, attrs) = parse_fence_info("mermaid id=foo format=png");
    assert_eq!(lang, "mermaid");
    assert_eq!(attrs.id, None);
    assert!(attrs.map.is_empty());
}

#[test]
fn parse_brace_format_only() {
    let (_lang, attrs) = parse_fence_info("mermaid {format=svg}");
    assert_eq!(attrs.id, None);
    assert_eq!(attrs.get("format"), Some("svg"));
}

#[test]
fn parse_degenerate_braces_no_panic() {
    for info in ["mermaid {}", "mermaid {#}", "mermaid {#foo", "mermaid }{"] {
        let (lang, attrs) = parse_fence_info(info);
        assert_eq!(lang, "mermaid");
        assert_eq!(attrs.id, None, "info: {info}");
    }
}

#[test]
fn parse_non_ascii_id_no_panic() {
    let (_lang, attrs) = parse_fence_info("mermaid {#заголовок}");
    assert_eq!(attrs.id.as_deref(), Some("заголовок"));
}

#[test]
fn parse_multiple_brace_groups_takes_first() {
    let (lang, attrs) = parse_fence_info("mermaid {#hello}{format=png}");
    assert_eq!(lang, "mermaid");
    assert_eq!(attrs.id.as_deref(), Some("hello"));
    assert!(attrs.map.is_empty(), "second group must be ignored, not merged");

    let (_lang, attrs) = parse_fence_info("mermaid {#a} {b=c}");
    assert_eq!(attrs.id.as_deref(), Some("a"));
    assert!(attrs.map.is_empty());
}

#[test]
fn parse_quoted_kv_value_trimmed() {
    let (_lang, attrs) = parse_fence_info("mermaid {caption=\"User\"}");
    assert_eq!(attrs.get("caption"), Some("User"));
}

#[test]
fn test_extracted_code_block() {
    let block = ExtractedCodeBlock::new(
        0,
        "plantuml".to_owned(),
        "@startuml\nA -> B\n@enduml".to_owned(),
        None,
        Vec::from([("format".to_owned(), "png".to_owned())]),
    );

    assert_eq!(block.index, 0);
    assert_eq!(block.language, "plantuml");
    assert_eq!(block.source, "@startuml\nA -> B\n@enduml");
    assert_eq!(block.id(), None);
    assert_eq!(block.attr("format"), Some("png"));
}

struct TestProcessor {
    extracted: Vec<ExtractedCodeBlock>,
    warnings: Vec<String>,
}

impl TestProcessor {
    fn new() -> Self {
        Self { extracted: Vec::new(), warnings: Vec::new() }
    }
}

impl CodeBlockProcessor for TestProcessor {
    fn bundle(&mut self, _language: &str, _source: &str) -> Option<String> {
        None
    }

    fn process(&mut self, language: &str, attrs: &FenceAttrs, source: &str, index: usize) -> ProcessResult {
        match language {
            "test-deferred" => {
                self.extracted.push(ExtractedCodeBlock::new(
                    index,
                    language.to_owned(),
                    source.to_owned(),
                    attrs.id.clone(),
                    attrs.map.clone(),
                ));
                ProcessResult::Deferred
            }
            "test-inline" => ProcessResult::Inline(format!("<div>{source}</div>")),
            "test-warn" => {
                self.warnings.push("Test warning".to_owned());
                ProcessResult::PassThrough
            }
            _ => ProcessResult::PassThrough,
        }
    }

    fn extracted(&self) -> &[ExtractedCodeBlock] {
        &self.extracted
    }

    fn warnings(&self) -> &[String] {
        &self.warnings
    }

    fn section_refs(&self) -> Vec<String> {
        Vec::new()
    }
}

#[test]
fn test_processor_deferred() {
    let mut processor = TestProcessor::new();
    let attrs = FenceAttrs::default();

    let result = processor.process("test-deferred", &attrs, "content", 0);
    assert_eq!(result, ProcessResult::Deferred);

    let extracted = processor.extracted();
    assert_eq!(extracted.len(), 1);
    assert_eq!(extracted[0].language, "test-deferred");
    assert_eq!(extracted[0].source, "content");
}

#[test]
fn test_processor_inline() {
    let mut processor = TestProcessor::new();
    let attrs = FenceAttrs::default();

    let result = processor.process("test-inline", &attrs, "hello", 0);
    assert_eq!(result, ProcessResult::Inline("<div>hello</div>".to_owned()));

    assert!(processor.extracted().is_empty());
}

#[test]
fn test_processor_passthrough() {
    let mut processor = TestProcessor::new();
    let attrs = FenceAttrs::default();

    let result = processor.process("rust", &attrs, "fn main() {}", 0);
    assert_eq!(result, ProcessResult::PassThrough);
}

#[test]
fn test_processor_warnings() {
    let mut processor = TestProcessor::new();
    let attrs = FenceAttrs::default();

    processor.process("test-warn", &attrs, "", 0);
    let warnings = processor.warnings();
    assert_eq!(warnings.len(), 1);
    assert_eq!(warnings[0], "Test warning");
}

struct MinimalProcessor;

impl CodeBlockProcessor for MinimalProcessor {
    fn bundle(&mut self, _language: &str, _source: &str) -> Option<String> {
        None
    }

    fn process(&mut self, _language: &str, _attrs: &FenceAttrs, _source: &str, _index: usize) -> ProcessResult {
        ProcessResult::PassThrough
    }

    fn warnings(&self) -> &[String] {
        &[]
    }

    fn section_refs(&self) -> Vec<String> {
        Vec::new()
    }
}

#[test]
fn test_default_trait_implementations() {
    let processor = MinimalProcessor;
    assert!(processor.extracted().is_empty());
    assert!(processor.warnings().is_empty());
}

#[test]
fn fence_attrs_insert_overwrites_in_place() {
    let mut attrs = FenceAttrs::default();
    attrs.insert("a".to_owned(), "1".to_owned());
    attrs.insert("b".to_owned(), "2".to_owned());
    attrs.insert("a".to_owned(), "3".to_owned());
    assert_eq!(attrs.keys(), ["a", "b"]);
    assert_eq!(attrs.get("a"), Some("3"));
}

#[test]
fn extracted_code_block_attr_takes_the_first_duplicate() {
    let block = ExtractedCodeBlock::new(
        3,
        "d2".to_owned(),
        "x".to_owned(),
        Some("fig".to_owned()),
        vec![("k".to_owned(), "1".to_owned()), ("k".to_owned(), "2".to_owned())],
    );
    assert_eq!(block.id(), Some("fig"));
    assert_eq!(block.attr("k"), Some("1"));
    assert_eq!(block.attr("missing"), None);
}
